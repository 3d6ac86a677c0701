//! The explorer's screen state: the trace cursor, the scroll offsets, the
//! help popup and the frame counter; what a key or an action does to it,
//! and what each frame shows where.

use vstd::prelude::*;
use vstd::utf8::encode_utf8;

use crate::arena::CallTraceArena;
use crate::bindings::{action_of_key, Action, KeyCode};
use crate::navigation::{
    deepest_last, down_from, enter, header, sibling_after, sibling_before, step_out_from, up_from,
    ActiveCall, ActiveItem, TracesState,
};
use crate::render::{render, RenderError};
use crate::text::{decimal, push_str, u64_to_decimal, usize_to_decimal};
use crate::bindings::help_lines;
use crate::navigation::{address_path, dotted_address};
use crate::render::shown;
use crate::writer::{lines_view, plain, raw, LineView, SelectionStyle, StyledLine, Text};

verus! {

/// A rectangle of terminal cells.
#[derive(Clone, Copy, Debug, PartialEq, Eq, Structural)]
pub struct Rect {
    pub x: u16,
    pub y: u16,
    pub width: u16,
    pub height: u16,
}

/// Space kept free on each side of a rectangle.
#[derive(Clone, Copy, Debug, PartialEq, Eq, Structural)]
pub struct Margin {
    pub horizontal: u16,
    pub vertical: u16,
}

/// `a + b`, or the largest `u16` when that is larger.
pub open spec fn sat_add(a: u16, b: u16) -> u16 {
    if a + b > u16::MAX {
        u16::MAX
    } else {
        (a + b) as u16
    }
}

/// `a - b`, or zero when `b` is larger.
pub open spec fn sat_sub(a: u16, b: u16) -> u16 {
    if a >= b {
        (a - b) as u16
    } else {
        0
    }
}

/// The rectangle inside `r` with the margin taken from each side, or the
/// empty rectangle at the origin when the margin does not fit (as
/// `ratatui`'s `Rect::inner` computes it).
pub open spec fn inner_spec(r: Rect, m: Margin) -> Rect {
    let dh = if 2 * m.horizontal > u16::MAX {
        u16::MAX
    } else {
        (2 * m.horizontal) as u16
    };
    let dv = if 2 * m.vertical > u16::MAX {
        u16::MAX
    } else {
        (2 * m.vertical) as u16
    };
    if r.width < dh || r.height < dv {
        Rect { x: 0, y: 0, width: 0, height: 0 }
    } else {
        Rect {
            x: sat_add(r.x, m.horizontal),
            y: sat_add(r.y, m.vertical),
            width: sat_sub(r.width, dh),
            height: sat_sub(r.height, dv),
        }
    }
}

/// The rectangle around `r` with the margin added on each side, cut at the
/// edges of the `u16` range (as `ratatui`'s `Rect::outer` computes it).
pub open spec fn outer_spec(r: Rect, m: Margin) -> Rect {
    let x = sat_sub(r.x, m.horizontal);
    let y = sat_sub(r.y, m.vertical);
    Rect {
        x,
        y,
        width: sat_sub(sat_add(sat_add(r.x, r.width), m.horizontal), x),
        height: sat_sub(sat_add(sat_add(r.y, r.height), m.vertical), y),
    }
}

/// Twice a margin, or the largest `u16` when that is larger.
fn doubled(m: u16) -> (r: u16)
    ensures
        r == if 2 * m > u16::MAX {
            u16::MAX
        } else {
            (2 * m) as u16
        },
{
    if m > 32767 {
        u16::MAX
    } else {
        2 * m
    }
}

impl Rect {
    /// The rectangle inside this one with the margin taken from each side.
    pub fn inner(self, margin: Margin) -> (r: Rect)
        ensures
            r == inner_spec(self, margin),
    {
        let dh = doubled(margin.horizontal);
        let dv = doubled(margin.vertical);
        if self.width < dh || self.height < dv {
            Rect { x: 0, y: 0, width: 0, height: 0 }
        } else {
            Rect {
                x: self.x.saturating_add(margin.horizontal),
                y: self.y.saturating_add(margin.vertical),
                width: self.width.saturating_sub(dh),
                height: self.height.saturating_sub(dv),
            }
        }
    }

    /// The rectangle around this one with the margin added on each side.
    pub fn outer(self, margin: Margin) -> (r: Rect)
        ensures
            r == outer_spec(self, margin),
    {
        let x = self.x.saturating_sub(margin.horizontal);
        let y = self.y.saturating_sub(margin.vertical);
        let right = self.x.saturating_add(self.width);
        let bottom = self.y.saturating_add(self.height);
        Rect {
            x,
            y,
            width: right.saturating_add(margin.horizontal).saturating_sub(x),
            height: bottom.saturating_add(margin.vertical).saturating_sub(y),
        }
    }
}

/// The number of bytes of a span's text, cut to 16 bits.
pub open spec fn span_width(s: Seq<char>) -> u16 {
    (encode_utf8(s).len() as usize) as u16
}

/// The sum of the widths of a line's spans.
pub open spec fn line_width(spans: LineView) -> int
    decreases spans.len(),
{
    if spans.len() == 0 {
        0
    } else {
        line_width(spans.drop_last()) + span_width(spans.last().0)
    }
}

/// The widest of some lines.
pub open spec fn text_width(lines: Seq<StyledLine>) -> int
    decreases lines.len(),
{
    if lines.len() == 0 {
        0
    } else {
        let rest = text_width(lines.drop_last());
        let w = line_width(lines.last().0);
        if w > rest {
            w
        } else {
            rest
        }
    }
}

/// The rectangle at the origin just large enough for some lines: as tall as
/// their number (cut to 16 bits) and as wide as the widest.
pub open spec fn encapsulating(lines: Seq<StyledLine>) -> Rect {
    Rect { x: 0, y: 0, width: text_width(lines) as u16, height: lines.len() as u16 }
}

/// No line is wider than a `u16` can count.
pub open spec fn widths_fit(lines: Seq<StyledLine>) -> bool {
    forall|i: int| 0 <= i < lines.len() ==> line_width(#[trigger] lines[i].0) <= u16::MAX
}

/// The width of a line.
fn line_width_of(line: &crate::writer::Line) -> (r: u16)
    requires
        line_width(line@.0) <= u16::MAX,
    ensures
        r == line_width(line@.0),
{
    let mut w: u16 = 0;
    let mut i: usize = 0;
    while i < line.spans.len()
        invariant
            i <= line.spans@.len(),
            line_width(line@.0) <= u16::MAX,
            w == line_width(line@.0.take(i as int)),
        decreases line.spans.len() - i,
    {
        proof {
            assert(line@.0.take(i + 1).drop_last() =~= line@.0.take(i as int));
            assert(line@.0.take(i + 1).last() == line.spans@[i as int]@);
            lemma_line_width_prefix(line@.0, i + 1);
        }
        let n = line.spans[i].content.as_str().len();
        assert((n as u16) == span_width(line@.0[i as int].0));
        w = w + (n as u16);
        i = i + 1;
    }
    proof {
        assert(line@.0.take(line@.0.len() as int) =~= line@.0);
    }
    w
}

/// The width of a prefix of a line is at most that of the line.
proof fn lemma_line_width_prefix(spans: LineView, n: int)
    requires
        0 <= n <= spans.len(),
    ensures
        line_width(spans.take(n)) <= line_width(spans),
    decreases spans.len(),
{
    if n < spans.len() {
        assert(spans.drop_last().take(n) =~= spans.take(n));
        lemma_line_width_prefix(spans.drop_last(), n);
    } else {
        assert(spans.take(n) =~= spans);
    }
}

/// The smallest rectangle at the origin that holds a text.
pub fn text_to_encapsulating_rect(text: &Text) -> (r: Rect)
    requires
        widths_fit(text@),
    ensures
        r == encapsulating(text@),
{
    let mut width: u16 = 0;
    let mut i: usize = 0;
    while i < text.lines.len()
        invariant
            i <= text.lines@.len(),
            widths_fit(text@),
            width == text_width(text@.take(i as int)),
        decreases text.lines.len() - i,
    {
        proof {
            assert(text@.take(i + 1).drop_last() =~= text@.take(i as int));
            assert(text@[i as int] == text.lines@[i as int]@);
        }
        let w = line_width_of(&text.lines[i]);
        if w > width {
            width = w;
        }
        i = i + 1;
    }
    proof {
        assert(text@.take(text@.len() as int) =~= text@);
    }
    let n = text.lines.len();
    Rect { x: 0, y: 0, width, height: n as u16 }
}

/// Whether no line of a text is wider than a `u16` can count.
pub fn widths_fit_u16(text: &Text) -> (r: bool)
    ensures
        r == widths_fit(text@),
{
    let mut i: usize = 0;
    while i < text.lines.len()
        invariant
            i <= text.lines@.len(),
            forall|t: int| 0 <= t < i ==> line_width(#[trigger] text@[t].0) <= u16::MAX,
        decreases text.lines.len() - i,
    {
        let line = &text.lines[i];
        assert(text@[i as int] == line@);
        let mut w: u32 = 0;
        let mut k: usize = 0;
        while k < line.spans.len()
            invariant
                i < text.lines@.len(),
                text@[i as int] == line@,
                k <= line.spans@.len(),
                w == line_width(line@.0.take(k as int)),
                w <= u16::MAX,
            decreases line.spans.len() - k,
        {
            proof {
                assert(line@.0.take(k + 1).drop_last() =~= line@.0.take(k as int));
                assert(line@.0.take(k + 1).last() == line.spans@[k as int]@);
            }
            let n = line.spans[k].content.as_str().len();
            assert((n as u16) == span_width(line@.0[k as int].0));
            w = w + ((n as u16) as u32);
            k = k + 1;
            if w > 65535 {
                proof {
                    assert(line@.0.take(k as int).drop_last() =~= line@.0.take(k - 1));
                    lemma_line_width_prefix(line@.0, k as int);
                    assert(line_width(text@[i as int].0) > u16::MAX);
                }
                return false;
            }
        }
        proof {
            assert(line@.0.take(line@.0.len() as int) =~= line@.0);
        }
        i = i + 1;
    }
    true
}

/// `content` moved to the middle of `container`.
pub open spec fn centered(container: Rect, content: Rect) -> Rect {
    Rect {
        x: ((container.width - content.width) / 2) as u16,
        y: ((container.height - content.height) / 2) as u16,
        width: content.width,
        height: content.height,
    }
}

/// Moves `content` to the middle of `container`; it must fit.
pub fn centered_rectangle(container: Rect, content: Rect) -> (r: Rect)
    requires
        content.width <= container.width,
        content.height <= container.height,
    ensures
        r == centered(container, content),
{
    let x = (container.width - content.width) / 2;
    let y = (container.height - content.height) / 2;
    Rect { x, y, ..content }
}

/// What went wrong in the explorer.
#[derive(Clone, Debug)]
pub enum TuiError {
    IoError(String),
    ArbitraryError(String),
    UnknownKeybindError,
}

impl TuiError {
    /// The message of the error.
    pub open spec fn spec_message(&self) -> Seq<char> {
        match self {
            TuiError::IoError(m) => "Error reading TUI: "@ + m@,
            TuiError::ArbitraryError(m) => "Error: "@ + m@,
            TuiError::UnknownKeybindError => "Unknown keybind"@,
        }
    }

    /// The message of the error.
    pub fn to_string(&self) -> (r: String)
        ensures
            r@ == self.spec_message(),
    {
        match self {
            TuiError::IoError(m) => {
                let mut s = String::from_str("Error reading TUI: ");
                push_str(&mut s, m.as_str());
                s
            },
            TuiError::ArbitraryError(m) => {
                let mut s = String::from_str("Error: ");
                push_str(&mut s, m.as_str());
                s
            },
            TuiError::UnknownKeybindError => String::from_str("Unknown keybind"),
        }
    }

    /// The error of a trace that cannot be drawn.
    pub fn from_render(e: RenderError) -> (r: TuiError)
        ensures
            r matches TuiError::ArbitraryError(m) && m@ == "malformed call trace"@,
    {
        TuiError::ArbitraryError(String::from_str(e.message()))
    }
}

/// The explorer: the trace and its cursor, the scroll offsets (rows,
/// columns), whether to quit, the frames drawn in the current second and in
/// the last whole one, whether the help is open, and the selection style.
pub struct Tui {
    pub trace_state: TracesState,
    pub scroll_offset: (u16, u16),
    pub exit: bool,
    pub frames: u64,
    pub last_frames: u64,
    pub help: bool,
    pub selection: SelectionStyle,
}

/// Where the cursor goes on an action.
pub open spec fn cursor_after(
    nodes: Seq<crate::arena::CallTraceNode>,
    collapsed: Seq<bool>,
    active: ActiveCall,
    action: Action,
) -> ActiveCall {
    match action {
        Action::StepOver => sibling_after(nodes, active),
        Action::ReverseStepOver => sibling_before(nodes, active),
        Action::StepOut => step_out_from(nodes, active),
        Action::StepInto => enter(nodes, active).1,
        Action::GoToTop => header(0),
        Action::GoToBottom => deepest_last(nodes, collapsed, header(0)).1,
        Action::Up => up_from(nodes, collapsed, active).1,
        Action::Down => down_from(nodes, collapsed, active).1,
        _ => active,
    }
}

/// The collapse flags after an action: toggling flips the flag of the call
/// whose header holds the cursor.
pub open spec fn collapsed_after(collapsed: Seq<bool>, active: ActiveCall, action: Action) -> Seq<
    bool,
> {
    if action is ToggleCollapse && active.active_item is CallHeader {
        collapsed.update(active.idx as int, !collapsed[active.idx as int])
    } else {
        collapsed
    }
}

/// Collapsing a call and expanding it again leaves every call's flag as it
/// was, wherever the cursor stands.
pub proof fn law_toggle_twice_restores(collapsed: Seq<bool>, active: ActiveCall)
    requires
        active.idx < collapsed.len(),
    ensures
        collapsed_after(
            collapsed_after(collapsed, active, Action::ToggleCollapse),
            active,
            Action::ToggleCollapse,
        ) == collapsed,
{
    assert(collapsed_after(
        collapsed_after(collapsed, active, Action::ToggleCollapse),
        active,
        Action::ToggleCollapse,
    ) =~= collapsed);
}

/// The number of lines of a trace's text (zero when it cannot be drawn).
pub open spec fn line_count(nodes: Seq<crate::arena::CallTraceNode>, collapsed: Seq<bool>) -> nat {
    match render(nodes, collapsed) {
        Some(lines) => lines.len(),
        None => 0,
    }
}

/// The scroll offsets after an action on a screen of the given height.
pub open spec fn scroll_after(scroll: (u16, u16), action: Action, lines: nat, height: u16) -> (
    u16,
    u16,
) {
    match action {
        Action::ScrollDown => ((scroll.0 + 1) as u16, scroll.1),
        Action::ScrollUp => (sat_sub(scroll.0, 1), scroll.1),
        Action::GoToTop => (0, scroll.1),
        Action::GoToBottom => (((lines as u16) - height + 2) as u16, scroll.1),
        Action::ScrollLeft => (scroll.0, sat_sub(scroll.1, 1)),
        Action::ScrollRight => (scroll.0, (scroll.1 + 1) as u16),
        _ => scroll,
    }
}

/// An action can be carried out: scrolling stays within 16 bits, and going
/// to the bottom needs a drawable trace with at least as many lines as the
/// screen is high.
pub open spec fn can_dispatch_spec(t: Tui, action: Action, height: u16) -> bool {
    match action {
        Action::ScrollDown => t.scroll_offset.0 < u16::MAX,
        Action::ScrollRight => t.scroll_offset.1 < u16::MAX,
        Action::GoToBottom => {
            let n = line_count(t.trace_state.data.nodes@, t.trace_state.collapsed@);
            &&& render(t.trace_state.data.nodes@, t.trace_state.collapsed@) is Some
            &&& (n as u16) >= height
            &&& (n as u16) - height + 2 <= u16::MAX
        },
        _ => true,
    }
}

/// `after` is `before` with the action carried out (the help aside, which
/// the action `Help` opens).
pub open spec fn dispatched(before: Tui, after: Tui, action: Action, height: u16) -> bool {
    let nodes = before.trace_state.data.nodes@;
    let collapsed = before.trace_state.collapsed@;
    let active = before.trace_state.active_call;
    &&& after.trace_state.data == before.trace_state.data
    &&& after.trace_state.collapsed@ == collapsed_after(collapsed, active, action)
    &&& after.trace_state.active_call == cursor_after(nodes, collapsed, active, action)
    &&& after.scroll_offset == scroll_after(
        before.scroll_offset,
        action,
        line_count(nodes, collapsed),
        height,
    )
    &&& after.exit == (before.exit || action is Quit)
    &&& after.frames == before.frames
    &&& after.last_frames == before.last_frames
    &&& after.selection == before.selection
}

/// Scrolling moves the view by one row or column: down adds one row, up
/// takes one away but not below zero, right and left do the same for
/// columns, going to the top returns to row zero; each keeps the other
/// offset, and no other action but going to the bottom scrolls.
pub proof fn law_scrolling_moves_by_one(before: Tui, after: Tui, action: Action, height: u16)
    requires
        dispatched(before, after, action, height),
        can_dispatch_spec(before, action, height),
    ensures
        action is ScrollDown ==> after.scroll_offset == (
            (before.scroll_offset.0 + 1) as u16,
            before.scroll_offset.1,
        ) && after.scroll_offset.0 == before.scroll_offset.0 + 1,
        action is ScrollUp ==> after.scroll_offset.1 == before.scroll_offset.1 && (
        before.scroll_offset.0 > 0 ==> after.scroll_offset.0 == before.scroll_offset.0 - 1) && (
        before.scroll_offset.0 == 0 ==> after.scroll_offset.0 == 0),
        action is ScrollRight ==> after.scroll_offset.0 == before.scroll_offset.0
            && after.scroll_offset.1 == before.scroll_offset.1 + 1,
        action is ScrollLeft ==> after.scroll_offset.0 == before.scroll_offset.0 && (
        before.scroll_offset.1 > 0 ==> after.scroll_offset.1 == before.scroll_offset.1 - 1) && (
        before.scroll_offset.1 == 0 ==> after.scroll_offset.1 == 0),
        action is GoToTop ==> after.scroll_offset == (0u16, before.scroll_offset.1),
        !(action is ScrollDown || action is ScrollUp || action is ScrollRight
            || action is ScrollLeft || action is GoToTop || action is GoToBottom)
            ==> after.scroll_offset == before.scroll_offset,
{
}

/// The status line: the cursor's call address and index, its place in the
/// call, and the frames drawn in the last whole second.
pub open spec fn status_text(address: Seq<char>, active: ActiveCall, fps: u64) -> Seq<char> {
    "addr: "@ + address + ", curr_idx: "@ + decimal(active.idx as nat) + ", order_idx: "@
        + item_debug(active.active_item) + ", fps: "@ + decimal(fps as nat)
}

/// A place in a call as its `Debug` form writes it.
pub open spec fn item_debug(item: ActiveItem) -> Seq<char> {
    match item {
        ActiveItem::CallHeader => "CallHeader"@,
        ActiveItem::Item(j) => "Item("@ + decimal(j as nat) + ")"@,
        ActiveItem::ReturningValue => "ReturningValue"@,
    }
}

/// The help popup: its text, where the text goes, and the bordered block
/// around it.
pub struct HelpPopup {
    pub text: Text,
    pub text_area: Rect,
    pub block_area: Rect,
}

/// What one frame shows: the trace text scrolled by the offsets in the
/// trace area, the status line in the bottom row, and the help popup when
/// it is open.
pub struct Screen {
    pub trace: Text,
    pub scroll: (u16, u16),
    pub trace_area: Rect,
    pub status: String,
    pub status_area: Rect,
    pub help: Option<HelpPopup>,
}

impl Tui {
    /// The state's invariant: a well-formed trace state.
    pub open spec fn wf(&self) -> bool {
        self.trace_state.wf()
    }

    /// A new explorer: the cursor at the root, nothing collapsed or
    /// scrolled, the help closed, the default selection style.
    pub fn new(trace_data: CallTraceArena) -> (t: Tui)
        ensures
            t.trace_state.data == trace_data,
            t.trace_state.collapsed@ == Seq::new(trace_data.nodes@.len(), |i: int| false),
            t.trace_state.active_call == header(0),
            t.scroll_offset == (0u16, 0u16),
            !t.exit,
            t.frames == 0,
            t.last_frames == 0,
            !t.help,
            t.selection == (SelectionStyle { fg: None, bg: Some(crate::writer::Color::Gray) }),
            trace_data.wf() ==> t.wf(),
    {
        Tui::with_selection_style(trace_data, SelectionStyle::default())
    }

    /// A new explorer that draws the cursor's line in the given style.
    pub fn with_selection_style(trace_data: CallTraceArena, selection: SelectionStyle) -> (t: Tui)
        ensures
            t.trace_state.data == trace_data,
            t.trace_state.collapsed@ == Seq::new(trace_data.nodes@.len(), |i: int| false),
            t.trace_state.active_call == header(0),
            t.scroll_offset == (0u16, 0u16),
            !t.exit,
            t.frames == 0,
            t.last_frames == 0,
            !t.help,
            t.selection == selection,
            trace_data.wf() ==> t.wf(),
    {
        Tui {
            exit: false,
            scroll_offset: (0, 0),
            trace_state: TracesState::new(trace_data),
            frames: 0,
            last_frames: 0,
            help: false,
            selection,
        }
    }

    /// Whether the explorer should quit.
    pub fn exit(&self) -> (r: bool)
        ensures
            r == self.exit,
    {
        self.exit
    }

    /// The number of lines of the trace's text, if it can be drawn.
    fn text_line_count(&self) -> (r: Option<usize>)
        ensures
            match render(self.trace_state.data.nodes@, self.trace_state.collapsed@) {
                Some(lines) => r is Some && r.unwrap() as nat == lines.len(),
                None => r is None,
            },
    {
        match self.trace_state.to_text(Some(self.selection)) {
            Ok(text) => {
                proof {
                    let lines = render(self.trace_state.data.nodes@, self.trace_state.collapsed@).unwrap();
                    assert(text@.len() == lines.len());
                }
                Some(text.lines.len())
            },
            Err(_) => None,
        }
    }

    /// Whether an action can be carried out on a screen of the given area.
    pub fn can_dispatch(&self, action: Action, area: Rect) -> (r: bool)
        ensures
            r == can_dispatch_spec(*self, action, area.height),
    {
        match action {
            Action::ScrollDown => self.scroll_offset.0 < u16::MAX,
            Action::ScrollRight => self.scroll_offset.1 < u16::MAX,
            Action::GoToBottom => match self.text_line_count() {
                Some(n) => {
                    let m = n as u16;
                    assert(m == (line_count(
                        self.trace_state.data.nodes@,
                        self.trace_state.collapsed@,
                    ) as u16));
                    m >= area.height && m - area.height <= u16::MAX - 2
                },
                None => false,
            },
            _ => true,
        }
    }

    /// Carries out an action on a screen of the given area.
    pub fn dispatch(&mut self, action: Action, area: Rect)
        requires
            old(self).wf(),
            can_dispatch_spec(*old(self), action, area.height),
        ensures
            final(self).wf(),
            dispatched(*old(self), *final(self), action, area.height),
            final(self).help == (old(self).help || action is Help),
    {
        match action {
            Action::Quit => self.exit = true,
            Action::StepOver => {
                self.trace_state.step_over();
            },
            Action::ReverseStepOver => {
                self.trace_state.reverse_step_over();
            },
            Action::StepOut => {
                self.trace_state.step_out();
            },
            Action::StepInto => {
                self.trace_state.step_into();
            },
            Action::ToggleCollapse => {
                self.trace_state.toggle_collapse();
            },
            Action::ScrollDown => {
                self.scroll_offset.0 = self.scroll_offset.0 + 1;
            },
            Action::ScrollUp => {
                self.scroll_offset.0 = self.scroll_offset.0.saturating_sub(1);
            },
            Action::GoToTop => {
                self.trace_state.first();
                self.scroll_offset.0 = 0;
            },
            Action::GoToBottom => {
                self.trace_state.last();
                let n = match self.text_line_count() {
                    Some(n) => n,
                    None => 0,
                };
                assert((n as u16) == (line_count(
                    old(self).trace_state.data.nodes@,
                    old(self).trace_state.collapsed@,
                ) as u16));
                self.scroll_offset.0 = (n as u16) - area.height + 2;
            },
            Action::Up => {
                self.trace_state.up();
            },
            Action::Down => {
                self.trace_state.down();
            },
            Action::ScrollLeft => {
                self.scroll_offset.1 = self.scroll_offset.1.saturating_sub(1);
            },
            Action::ScrollRight => {
                self.scroll_offset.1 = self.scroll_offset.1 + 1;
            },
            Action::Help => self.help = true,
        }
    }

    /// Handles a key: closes the help, then carries out the key's action,
    /// if it has one.
    pub fn on_key(&mut self, key: KeyCode, area: Rect)
        requires
            old(self).wf(),
            action_of_key(key) matches Some(a) ==> can_dispatch_spec(*old(self), a, area.height),
        ensures
            final(self).wf(),
            match action_of_key(key) {
                Some(a) => dispatched(*old(self), *final(self), a, area.height) && final(self).help
                    == (a is Help),
                None => {
                    &&& final(self).trace_state == old(self).trace_state
                    &&& final(self).scroll_offset == old(self).scroll_offset
                    &&& final(self).exit == old(self).exit
                    &&& !final(self).help
                    &&& final(self).frames == old(self).frames
                    &&& final(self).last_frames == old(self).last_frames
                    &&& final(self).selection == old(self).selection
                },
            },
    {
        self.help = false;
        match Action::from_key(key) {
            Ok(action) => self.dispatch(action, area),
            Err(_) => {},
        }
    }
}

/// The help as the popup shows it.
pub open spec fn help_text() -> Seq<StyledLine> {
    help_lines().map_values(|l: Seq<char>| (seq![raw(l)], plain()))
}

/// Where the help popup's text goes on a screen: its smallest rectangle,
/// centered.
pub open spec fn help_text_area(area: Rect) -> Rect {
    centered(area, encapsulating(help_text()))
}

/// A frame can be drawn: the screen has a row for the status line, the
/// frame counter does not overflow, and an open help fits on the screen.
pub open spec fn can_draw_spec(t: Tui, area: Rect, second_elapsed: bool) -> bool {
    &&& area.height >= 1
    &&& (second_elapsed || t.frames < u64::MAX)
    &&& t.help ==> {
        &&& widths_fit(help_text())
        &&& encapsulating(help_text()).width <= area.width
        &&& encapsulating(help_text()).height <= area.height
    }
}

impl Tui {
    /// Whether a frame can be drawn on a screen of the given area.
    pub fn can_draw(&self, area: Rect, second_elapsed: bool) -> (r: bool)
        ensures
            r == can_draw_spec(*self, area, second_elapsed),
    {
        if area.height < 1 || !(second_elapsed || self.frames < u64::MAX) {
            return false;
        }
        if self.help {
            let text = Action::to_text();
            if !widths_fit_u16(&text) {
                return false;
            }
            let rect = text_to_encapsulating_rect(&text);
            rect.width <= area.width && rect.height <= area.height
        } else {
            true
        }
    }

    /// Lays out one frame on a screen of the given area: the trace text in
    /// the area less a row at the top and the bottom, scrolled by the
    /// offsets; the status line in the bottom row; the help popup centered
    /// when it is open, with a margin and a border around it. Counts the
    /// frame, after moving the count to the last second's when a second has
    /// passed. A trace that cannot be drawn gives an error and counts nothing.
    pub fn draw(&mut self, area: Rect, second_elapsed: bool) -> (r: Result<Screen, TuiError>)
        requires
            old(self).wf(),
            can_draw_spec(*old(self), area, second_elapsed),
        ensures
            final(self).wf(),
            final(self).trace_state == old(self).trace_state,
            final(self).scroll_offset == old(self).scroll_offset,
            final(self).exit == old(self).exit,
            final(self).help == old(self).help,
            final(self).selection == old(self).selection,
            match render(old(self).trace_state.data.nodes@, old(self).trace_state.collapsed@) {
                None => {
                    &&& r matches Err(TuiError::ArbitraryError(m)) && m@ == "malformed call trace"@
                    &&& final(self).frames == old(self).frames
                    &&& final(self).last_frames == old(self).last_frames
                },
                Some(lines) => {
                    &&& final(self).last_frames == if second_elapsed {
                        old(self).frames
                    } else {
                        old(self).last_frames
                    }
                    &&& final(self).frames == (if second_elapsed {
                        0
                    } else {
                        old(self).frames
                    }) + 1
                    &&& r is Ok
                    &&& r->Ok_0.trace@ == shown(
                        lines,
                        old(self).trace_state.active_call,
                        Some(old(self).selection),
                    )
                    &&& r->Ok_0.scroll == old(self).scroll_offset
                    &&& r->Ok_0.trace_area == inner_spec(area, Margin { horizontal: 0, vertical: 1 })
                    &&& r->Ok_0.status@ == status_text(
                        dotted_address(
                            address_path(
                                old(self).trace_state.data.nodes@,
                                old(self).trace_state.active_call.idx,
                            ),
                        ),
                        old(self).trace_state.active_call,
                        final(self).last_frames,
                    )
                    &&& r->Ok_0.status_area == (Rect {
                        x: 0,
                        y: (area.height - 1) as u16,
                        width: area.width,
                        height: 1,
                    })
                    &&& (r->Ok_0.help is Some) == old(self).help
                    &&& r->Ok_0.help matches Some(h) ==> {
                        &&& h.text@ == help_text()
                        &&& h.text_area == help_text_area(area)
                        &&& h.block_area == outer_spec(
                            outer_spec(help_text_area(area), Margin { horizontal: 1, vertical: 1 }),
                            Margin { horizontal: 1, vertical: 1 },
                        )
                    }
                },
            },
    {
        let trace = match self.trace_state.to_text(Some(self.selection)) {
            Ok(t) => t,
            Err(e) => {
                return Err(TuiError::from_render(e));
            },
        };
        let trace_area = area.inner(Margin { horizontal: 0, vertical: 1 });
        if second_elapsed {
            self.last_frames = self.frames;
            self.frames = 0;
        }
        let mut status = String::from_str("addr: ");
        let address = self.trace_state.curr_address();
        push_str(&mut status, address.as_str());
        push_str(&mut status, ", curr_idx: ");
        let idx = usize_to_decimal(self.trace_state.curr_idx());
        push_str(&mut status, idx.as_str());
        push_str(&mut status, ", order_idx: ");
        let item = item_debug_text(self.trace_state.active_item());
        push_str(&mut status, item.as_str());
        push_str(&mut status, ", fps: ");
        let fps = u64_to_decimal(self.last_frames);
        push_str(&mut status, fps.as_str());
        let status_area = Rect { x: 0, y: area.height - 1, height: 1, width: area.width };
        self.frames = self.frames + 1;
        let help = if self.help {
            let text = Action::to_text();
            let text_rect = text_to_encapsulating_rect(&text);
            let text_area = centered_rectangle(area, text_rect);
            let margined = text_area.outer(Margin { horizontal: 1, vertical: 1 });
            let block_area = margined.outer(Margin { horizontal: 1, vertical: 1 });
            Some(HelpPopup { text, text_area, block_area })
        } else {
            None
        };
        proof {
            assert(status@ =~= status_text(
                dotted_address(
                    address_path(self.trace_state.data.nodes@, self.trace_state.active_call.idx),
                ),
                self.trace_state.active_call,
                self.last_frames,
            ));
        }
        Ok(Screen { trace, scroll: self.scroll_offset, trace_area, status, status_area, help })
    }
}

/// A place in a call as its `Debug` form writes it.
fn item_debug_text(item: ActiveItem) -> (r: String)
    ensures
        r@ == item_debug(item),
{
    match item {
        ActiveItem::CallHeader => String::from_str("CallHeader"),
        ActiveItem::Item(j) => {
            let mut s = String::from_str("Item(");
            let digits = usize_to_decimal(j);
            push_str(&mut s, digits.as_str());
            push_str(&mut s, ")");
            s
        },
        ActiveItem::ReturningValue => String::from_str("ReturningValue"),
    }
}

} // verus!
