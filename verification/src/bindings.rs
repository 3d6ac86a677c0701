//! Key bindings: the action each key stands for, and the help text that
//! lists the keys of every action. Both are read off one table.

use vstd::prelude::*;

use crate::text::{join, join_strings, push_char, push_str, views};
use crate::tui::TuiError;
use vstd::std_specs::convert::TryFromSpecImpl;
use crate::writer::{lines_view, plain, raw, raw_span, Line, Span, Style, StyledLine, Text};

verus! {

/// A key the explorer reacts to; every other key is `Other`.
#[derive(Clone, Copy, Debug, PartialEq, Eq, Structural)]
pub enum KeyCode {
    Char(char),
    Enter,
    Up,
    Down,
    Left,
    Right,
    Other,
}

/// What a key asks the explorer to do.
#[derive(Clone, Copy, Debug, PartialEq, Eq, Structural)]
pub enum Action {
    Quit,
    StepOver,
    ReverseStepOver,
    StepOut,
    StepInto,
    ToggleCollapse,
    ScrollDown,
    ScrollUp,
    GoToTop,
    GoToBottom,
    Up,
    Down,
    ScrollLeft,
    ScrollRight,
    Help,
}

/// Every action, in the order the help lists them.
pub open spec fn all_actions() -> Seq<Action> {
    seq![
        Action::Quit,
        Action::StepOver,
        Action::ReverseStepOver,
        Action::StepOut,
        Action::StepInto,
        Action::ToggleCollapse,
        Action::ScrollDown,
        Action::ScrollUp,
        Action::GoToTop,
        Action::GoToBottom,
        Action::Up,
        Action::Down,
        Action::ScrollLeft,
        Action::ScrollRight,
        Action::Help,
    ]
}

/// The character keys bound to an action.
pub open spec fn char_keys(a: Action) -> Seq<char> {
    match a {
        Action::Quit => seq!['q'],
        Action::StepOver => seq!['j'],
        Action::ReverseStepOver => seq!['k'],
        Action::StepOut => seq!['h'],
        Action::StepInto => seq!['l'],
        Action::ToggleCollapse => seq![' '],
        Action::ScrollDown => seq!['J'],
        Action::ScrollUp => seq!['K'],
        Action::GoToTop => seq!['g'],
        Action::GoToBottom => seq!['G'],
        Action::Help => seq!['?'],
        _ => seq![],
    }
}

/// The other keys bound to an action.
pub open spec fn code_keys(a: Action) -> Seq<KeyCode> {
    match a {
        Action::ToggleCollapse => seq![KeyCode::Enter],
        Action::Up => seq![KeyCode::Up],
        Action::Down => seq![KeyCode::Down],
        Action::ScrollLeft => seq![KeyCode::Left],
        Action::ScrollRight => seq![KeyCode::Right],
        _ => seq![],
    }
}

/// The action of a key, if it has one.
pub open spec fn action_of_key(key: KeyCode) -> Option<Action> {
    match key {
        KeyCode::Char(c) => if c == 'q' {
            Some(Action::Quit)
        } else if c == 'j' {
            Some(Action::StepOver)
        } else if c == 'k' {
            Some(Action::ReverseStepOver)
        } else if c == 'h' {
            Some(Action::StepOut)
        } else if c == 'l' {
            Some(Action::StepInto)
        } else if c == ' ' {
            Some(Action::ToggleCollapse)
        } else if c == 'J' {
            Some(Action::ScrollDown)
        } else if c == 'K' {
            Some(Action::ScrollUp)
        } else if c == 'g' {
            Some(Action::GoToTop)
        } else if c == 'G' {
            Some(Action::GoToBottom)
        } else if c == '?' {
            Some(Action::Help)
        } else {
            None
        },
        KeyCode::Enter => Some(Action::ToggleCollapse),
        KeyCode::Up => Some(Action::Up),
        KeyCode::Down => Some(Action::Down),
        KeyCode::Left => Some(Action::ScrollLeft),
        KeyCode::Right => Some(Action::ScrollRight),
        KeyCode::Other => None,
    }
}

/// Every key listed for an action stands for that action, and every key
/// that stands for an action is listed for it: the help shows exactly the
/// keys that work.
pub proof fn law_help_lists_the_working_keys(a: Action, key: KeyCode)
    ensures
        action_of_key(key) == Some(a) <==> (match key {
            KeyCode::Char(c) => char_keys(a).contains(c),
            _ => code_keys(a).contains(key),
        }),
{
    match key {
        KeyCode::Char(c) => {
            if action_of_key(key) == Some(a) {
                assert(char_keys(a)[0] == c);
            }
        },
        _ => {
            if action_of_key(key) == Some(a) {
                assert(code_keys(a)[0] == key);
            }
        },
    }
}

/// The name of an action, as its `Debug` form writes it.
pub open spec fn action_name(a: Action) -> Seq<char> {
    match a {
        Action::Quit => "Quit"@,
        Action::StepOver => "StepOver"@,
        Action::ReverseStepOver => "ReverseStepOver"@,
        Action::StepOut => "StepOut"@,
        Action::StepInto => "StepInto"@,
        Action::ToggleCollapse => "ToggleCollapse"@,
        Action::ScrollDown => "ScrollDown"@,
        Action::ScrollUp => "ScrollUp"@,
        Action::GoToTop => "GoToTop"@,
        Action::GoToBottom => "GoToBottom"@,
        Action::Up => "Up"@,
        Action::Down => "Down"@,
        Action::ScrollLeft => "ScrollLeft"@,
        Action::ScrollRight => "ScrollRight"@,
        Action::Help => "Help"@,
    }
}

/// How the help writes a character key: the space bar as `Space`.
pub open spec fn char_key_name(c: char) -> Seq<char> {
    if c == ' ' {
        "Space"@
    } else {
        seq![c]
    }
}

/// How the help writes another key, as its `Debug` form writes it.
pub open spec fn code_key_name(k: KeyCode) -> Seq<char> {
    match k {
        KeyCode::Enter => "Enter"@,
        KeyCode::Up => "Up"@,
        KeyCode::Down => "Down"@,
        KeyCode::Left => "Left"@,
        KeyCode::Right => "Right"@,
        _ => seq![],
    }
}

/// The keys of an action as the help lists them: its character keys, then
/// its other keys, separated by commas.
pub open spec fn keybind_text(a: Action) -> Seq<char> {
    join(
        char_keys(a).map_values(|c: char| char_key_name(c)) + code_keys(a).map_values(
            |k: KeyCode| code_key_name(k),
        ),
        ", "@,
    )
}

/// The longest of some texts.
pub open spec fn longest(texts: Seq<Seq<char>>) -> nat
    decreases texts.len(),
{
    if texts.len() == 0 {
        0
    } else {
        let rest = longest(texts.drop_last());
        if texts.last().len() > rest {
            texts.last().len()
        } else {
            rest
        }
    }
}

/// `s` right-aligned in a field of `width` characters.
pub open spec fn pad_left(s: Seq<char>, width: nat) -> Seq<char> {
    if s.len() < width {
        Seq::new((width - s.len()) as nat, |i: int| ' ') + s
    } else {
        s
    }
}

/// The lines of the help: for each action its keys, right-aligned to the
/// longest, a dash and its name.
pub open spec fn help_lines() -> Seq<Seq<char>> {
    let width = longest(all_actions().map_values(|a: Action| keybind_text(a)));
    all_actions().map_values(
        |a: Action| pad_left(keybind_text(a), width) + " - "@ + action_name(a),
    )
}

impl Action {
    /// The name of the action.
    pub fn name(&self) -> (r: &'static str)
        ensures
            r@ == action_name(*self),
    {
        match self {
            Action::Quit => "Quit",
            Action::StepOver => "StepOver",
            Action::ReverseStepOver => "ReverseStepOver",
            Action::StepOut => "StepOut",
            Action::StepInto => "StepInto",
            Action::ToggleCollapse => "ToggleCollapse",
            Action::ScrollDown => "ScrollDown",
            Action::ScrollUp => "ScrollUp",
            Action::GoToTop => "GoToTop",
            Action::GoToBottom => "GoToBottom",
            Action::Up => "Up",
            Action::Down => "Down",
            Action::ScrollLeft => "ScrollLeft",
            Action::ScrollRight => "ScrollRight",
            Action::Help => "Help",
        }
    }

    /// The action of a key, or the unknown-keybind error.
    pub fn from_key(key: KeyCode) -> (r: Result<Action, TuiError>)
        ensures
            r == key_result(key),
    {
        match key {
            KeyCode::Char(c) => if c == 'q' {
                Ok(Action::Quit)
            } else if c == 'j' {
                Ok(Action::StepOver)
            } else if c == 'k' {
                Ok(Action::ReverseStepOver)
            } else if c == 'h' {
                Ok(Action::StepOut)
            } else if c == 'l' {
                Ok(Action::StepInto)
            } else if c == ' ' {
                Ok(Action::ToggleCollapse)
            } else if c == 'J' {
                Ok(Action::ScrollDown)
            } else if c == 'K' {
                Ok(Action::ScrollUp)
            } else if c == 'g' {
                Ok(Action::GoToTop)
            } else if c == 'G' {
                Ok(Action::GoToBottom)
            } else if c == '?' {
                Ok(Action::Help)
            } else {
                Err(TuiError::UnknownKeybindError)
            },
            KeyCode::Enter => Ok(Action::ToggleCollapse),
            KeyCode::Up => Ok(Action::Up),
            KeyCode::Down => Ok(Action::Down),
            KeyCode::Left => Ok(Action::ScrollLeft),
            KeyCode::Right => Ok(Action::ScrollRight),
            KeyCode::Other => Err(TuiError::UnknownKeybindError),
        }
    }

    /// The help: one line per action, its keys right-aligned, a dash and
    /// its name.
    pub fn to_text() -> (r: Text)
        ensures
            r@ == help_lines().map_values(|l: Seq<char>| (seq![raw(l)], plain())),
    {
        let actions: Vec<Action> = vec![
            Action::Quit,
            Action::StepOver,
            Action::ReverseStepOver,
            Action::StepOut,
            Action::StepInto,
            Action::ToggleCollapse,
            Action::ScrollDown,
            Action::ScrollUp,
            Action::GoToTop,
            Action::GoToBottom,
            Action::Up,
            Action::Down,
            Action::ScrollLeft,
            Action::ScrollRight,
            Action::Help,
        ];
        assert(actions@ =~= all_actions());
        let ghost texts = all_actions().map_values(|a: Action| keybind_text(a));
        let mut keybinds: Vec<String> = Vec::new();
        let mut width: usize = 0;
        let mut i: usize = 0;
        while i < actions.len()
            invariant
                actions@ == all_actions(),
                texts == all_actions().map_values(|a: Action| keybind_text(a)),
                i <= actions@.len(),
                views(keybinds@) =~= texts.take(i as int),
                width == longest(texts.take(i as int)),
            decreases actions.len() - i,
        {
            let k = keybinds_of(actions[i]);
            let n = k.unicode_len();
            proof {
                assert(texts.take(i + 1).drop_last() =~= texts.take(i as int));
            }
            if n > width {
                width = n;
            }
            let ghost before = keybinds@;
            keybinds.push(k);
            proof {
                assert(views(keybinds@) =~= views(before).push(k@));
            }
            i = i + 1;
        }
        proof {
            assert(texts.take(15) =~= texts);
        }
        let mut lines: Vec<Line> = Vec::new();
        let mut j: usize = 0;
        while j < actions.len()
            invariant
                actions@ == all_actions(),
                texts == all_actions().map_values(|a: Action| keybind_text(a)),
                views(keybinds@) == texts,
                width == longest(texts),
                j <= actions@.len(),
                lines_view(lines@) =~= help_lines().take(j as int).map_values(
                    |l: Seq<char>| (seq![raw(l)], plain()),
                ),
            decreases actions.len() - j,
        {
            let keys = &keybinds[j];
            let n = keys.unicode_len();
            let mut line = String::new();
            let mut pad: usize = n;
            while pad < width
                invariant
                    n <= pad <= width || (width < n && pad == n),
                    line@ == Seq::new((pad - n) as nat, |t: int| ' '),
                decreases width - pad,
            {
                push_char(&mut line, ' ');
                pad = pad + 1;
                proof {
                    assert(line@ =~= Seq::new((pad - n) as nat, |t: int| ' '));
                }
            }
            push_str(&mut line, keys.as_str());
            push_str(&mut line, " - ");
            push_str(&mut line, actions[j].name());
            proof {
                assert(views(keybinds@)[j as int] == keys@);
                assert(texts[j as int] == keybind_text(all_actions()[j as int]));
                assert(keys@ == keybind_text(all_actions()[j as int]));
                assert(line@ =~= pad_left(keybind_text(all_actions()[j as int]), width as nat) + " - "@
                    + action_name(all_actions()[j as int]));
            }
            let ghost text = line@;
            let mut spans: Vec<Span> = Vec::new();
            spans.push(raw_span(line));
            assert(crate::writer::spans_view(spans@) =~= seq![raw(text)]);
            let ghost before = lines@;
            lines.push(Line { spans, style: Style { fg: None, bg: None } });
            proof {
                assert(lines_view(lines@) =~= lines_view(before).push((seq![raw(text)], plain())));
                assert(help_lines()[j as int] == pad_left(
                    keybind_text(all_actions()[j as int]),
                    width as nat,
                ) + " - "@ + action_name(all_actions()[j as int]));
                assert(help_lines().take(j + 1) =~= help_lines().take(j as int).push(
                    help_lines()[j as int],
                ));
                assert(help_lines().take(j + 1).map_values(
                    |l: Seq<char>| (seq![raw(l)], plain()),
                ) =~= help_lines().take(j as int).map_values(
                    |l: Seq<char>| (seq![raw(l)], plain()),
                ).push((seq![raw(text)], plain())));
            }
            j = j + 1;
        }
        proof {
            assert(help_lines().take(15) =~= help_lines());
        }
        Text { lines }
    }
}

/// How the help writes a character key.
fn char_key_text(c: char) -> (r: String)
    ensures
        r@ == char_key_name(c),
{
    if c == ' ' {
        String::from_str("Space")
    } else {
        let mut s = String::new();
        push_char(&mut s, c);
        s
    }
}

/// How the help writes another key.
fn code_key_text(k: KeyCode) -> (r: String)
    ensures
        r@ == code_key_name(k),
{
    match k {
        KeyCode::Enter => String::from_str("Enter"),
        KeyCode::Up => String::from_str("Up"),
        KeyCode::Down => String::from_str("Down"),
        KeyCode::Left => String::from_str("Left"),
        KeyCode::Right => String::from_str("Right"),
        _ => String::new(),
    }
}

/// The keys of an action as the help lists them.
fn keybinds_of(a: Action) -> (r: String)
    ensures
        r@ == keybind_text(a),
{
    let chars: Vec<char> = match a {
        Action::Quit => vec!['q'],
        Action::StepOver => vec!['j'],
        Action::ReverseStepOver => vec!['k'],
        Action::StepOut => vec!['h'],
        Action::StepInto => vec!['l'],
        Action::ToggleCollapse => vec![' '],
        Action::ScrollDown => vec!['J'],
        Action::ScrollUp => vec!['K'],
        Action::GoToTop => vec!['g'],
        Action::GoToBottom => vec!['G'],
        Action::Help => vec!['?'],
        _ => vec![],
    };
    let codes: Vec<KeyCode> = match a {
        Action::ToggleCollapse => vec![KeyCode::Enter],
        Action::Up => vec![KeyCode::Up],
        Action::Down => vec![KeyCode::Down],
        Action::ScrollLeft => vec![KeyCode::Left],
        Action::ScrollRight => vec![KeyCode::Right],
        _ => vec![],
    };
    assert(chars@ =~= char_keys(a));
    assert(codes@ =~= code_keys(a));
    let mut names: Vec<String> = Vec::new();
    let mut i: usize = 0;
    while i < chars.len()
        invariant
            chars@ == char_keys(a),
            i <= chars@.len(),
            views(names@) =~= chars@.take(i as int).map_values(|c: char| char_key_name(c)),
        decreases chars.len() - i,
    {
        let ghost before = names@;
        let t = char_key_text(chars[i]);
        names.push(t);
        proof {
            assert(views(names@) =~= views(before).push(t@));
            assert(chars@.take(i + 1) =~= chars@.take(i as int).push(chars@[i as int]));
        }
        i = i + 1;
    }
    let mut m: usize = 0;
    while m < codes.len()
        invariant
            chars@ == char_keys(a),
            codes@ == code_keys(a),
            m <= codes@.len(),
            views(names@) =~= chars@.map_values(|c: char| char_key_name(c)) + codes@.take(
                m as int,
            ).map_values(|k: KeyCode| code_key_name(k)),
        decreases codes.len() - m,
    {
        let ghost before = names@;
        let t = code_key_text(codes[m]);
        names.push(t);
        proof {
            assert(views(names@) =~= views(before).push(t@));
            assert(codes@.take(m + 1) =~= codes@.take(m as int).push(codes@[m as int]));
        }
        m = m + 1;
    }
    proof {
        assert(chars@.take(chars@.len() as int) =~= chars@);
        assert(codes@.take(codes@.len() as int) =~= codes@);
    }
    join_strings(names.as_slice(), ", ")
}

/// The action of a key, or the unknown-keybind error.
pub open spec fn key_result(key: KeyCode) -> Result<Action, TuiError> {
    match action_of_key(key) {
        Some(a) => Ok(a),
        None => Err(TuiError::UnknownKeybindError),
    }
}

impl TryFrom<KeyCode> for Action {
    type Error = TuiError;

    fn try_from(value: KeyCode) -> (r: Result<Action, TuiError>) {
        Action::from_key(value)
    }
}

impl TryFromSpecImpl<KeyCode> for Action {
    open spec fn obeys_try_from_spec() -> bool {
        true
    }

    open spec fn try_from_spec(v: KeyCode) -> Result<Action, TuiError> {
        key_result(v)
    }
}

} // verus!
