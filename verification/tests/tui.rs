use trace_tui::arena::{
    CallKind, CallLog, CallTrace, CallTraceArena, CallTraceNode, InstructionResult,
    TraceMemberOrder,
};
use trace_tui::backend::{cast_run_result, CastRunError, Strategy, TraceOpts};
use trace_tui::bindings::{Action, KeyCode};
use trace_tui::navigation::{ActiveItem, TracesState};
use trace_tui::tui::{
    centered_rectangle, text_to_encapsulating_rect, widths_fit_u16, Margin, Rect, Tui, TuiError,
};
use trace_tui::writer::{Line, Span, Style, Text};

fn trace(status: InstructionResult) -> CallTrace {
    CallTrace {
        depth: 0,
        success: status.is_ok(),
        caller: [1; 20],
        address: [2; 20],
        maybe_precompile: None,
        selfdestruct_address: None,
        selfdestruct_refund_target: None,
        selfdestruct_transferred_value: None,
        kind: CallKind::Call,
        value: [0, 0, 0, 0],
        data: vec![],
        output: vec![],
        gas_used: 1,
        gas_limit: 2,
        status: Some(status),
        steps: vec![],
        decoded: None,
    }
}

fn log() -> CallLog {
    CallLog { topics: vec![], data: vec![], decoded: None }
}

/// Root (returning) with a log and two child calls; the first child has a log.
fn arena() -> CallTraceArena {
    let root = CallTraceNode {
        parent: None,
        children: vec![1, 2],
        idx: 0,
        trace: trace(InstructionResult::Return),
        logs: vec![log()],
        ordering: vec![TraceMemberOrder::Log(0), TraceMemberOrder::Call(0), TraceMemberOrder::Call(1)],
    };
    let first = CallTraceNode {
        parent: Some(0),
        children: vec![],
        idx: 1,
        trace: trace(InstructionResult::Return),
        logs: vec![log()],
        ordering: vec![TraceMemberOrder::Log(0)],
    };
    let second = CallTraceNode {
        parent: Some(0),
        children: vec![],
        idx: 2,
        trace: trace(InstructionResult::Stop),
        logs: vec![],
        ordering: vec![],
    };
    CallTraceArena { nodes: vec![root, first, second] }
}

const SCREEN: Rect = Rect { x: 0, y: 0, width: 80, height: 24 };

#[test]
fn keys_map_to_their_actions() {
    let table = [
        (KeyCode::Char('q'), Action::Quit),
        (KeyCode::Char('j'), Action::StepOver),
        (KeyCode::Char('k'), Action::ReverseStepOver),
        (KeyCode::Char('h'), Action::StepOut),
        (KeyCode::Char('l'), Action::StepInto),
        (KeyCode::Char(' '), Action::ToggleCollapse),
        (KeyCode::Enter, Action::ToggleCollapse),
        (KeyCode::Char('J'), Action::ScrollDown),
        (KeyCode::Char('K'), Action::ScrollUp),
        (KeyCode::Char('g'), Action::GoToTop),
        (KeyCode::Char('G'), Action::GoToBottom),
        (KeyCode::Up, Action::Up),
        (KeyCode::Down, Action::Down),
        (KeyCode::Left, Action::ScrollLeft),
        (KeyCode::Right, Action::ScrollRight),
        (KeyCode::Char('?'), Action::Help),
    ];
    for (key, action) in table {
        let got: Result<Action, TuiError> = key.try_into();
        assert_eq!(got.unwrap(), action);
    }
    for key in [KeyCode::Char('x'), KeyCode::Char('Q'), KeyCode::Other] {
        let got = Action::try_from(key);
        assert!(matches!(got, Err(TuiError::UnknownKeybindError)));
        assert_eq!(got.unwrap_err().to_string(), "Unknown keybind");
    }
}

#[test]
fn help_lists_every_action_with_its_keys() {
    let text = Action::to_text();
    let lines: Vec<String> = text
        .lines
        .iter()
        .map(|l| l.spans.iter().map(|s| s.content.clone()).collect())
        .collect();
    let expected: Vec<String> = [
        ("q", "Quit"),
        ("j", "StepOver"),
        ("k", "ReverseStepOver"),
        ("h", "StepOut"),
        ("l", "StepInto"),
        ("Space, Enter", "ToggleCollapse"),
        ("J", "ScrollDown"),
        ("K", "ScrollUp"),
        ("g", "GoToTop"),
        ("G", "GoToBottom"),
        ("Up", "Up"),
        ("Down", "Down"),
        ("Left", "ScrollLeft"),
        ("Right", "ScrollRight"),
        ("?", "Help"),
    ]
    .iter()
    .map(|(keys, name)| format!("{keys:>12} - {name}"))
    .collect();
    assert_eq!(lines, expected);
    assert_eq!(lines[0], "           q - Quit");
}

#[test]
fn error_messages() {
    assert_eq!(TuiError::IoError("broken pipe".to_string()).to_string(), "Error reading TUI: broken pipe");
    assert_eq!(TuiError::ArbitraryError("bad".to_string()).to_string(), "Error: bad");
}

#[test]
fn rectangles() {
    let text = Text {
        lines: vec![
            Line {
                spans: vec![
                    Span { content: "ab".to_string(), style: Style { fg: None, bg: None } },
                    Span { content: "→c".to_string(), style: Style { fg: None, bg: None } },
                ],
                style: Style { fg: None, bg: None },
            },
            Line {
                spans: vec![Span { content: "x".to_string(), style: Style { fg: None, bg: None } }],
                style: Style { fg: None, bg: None },
            },
        ],
    };
    assert!(widths_fit_u16(&text));
    // "→" is three bytes
    assert_eq!(text_to_encapsulating_rect(&text), Rect { x: 0, y: 0, width: 6, height: 2 });
    let content = Rect { x: 0, y: 0, width: 30, height: 15 };
    assert_eq!(centered_rectangle(SCREEN, content), Rect { x: 25, y: 4, width: 30, height: 15 });
    let m = Margin { horizontal: 1, vertical: 1 };
    assert_eq!(
        Rect { x: 25, y: 4, width: 30, height: 15 }.outer(m),
        Rect { x: 24, y: 3, width: 32, height: 17 }
    );
    assert_eq!(Rect { x: 0, y: 0, width: 5, height: 5 }.outer(m), Rect { x: 0, y: 0, width: 6, height: 6 });
    let v = Margin { horizontal: 0, vertical: 1 };
    assert_eq!(SCREEN.inner(v), Rect { x: 0, y: 1, width: 80, height: 22 });
    assert_eq!(Rect { x: 3, y: 3, width: 10, height: 1 }.inner(v), Rect { x: 0, y: 0, width: 0, height: 0 });
}

#[test]
fn dispatch_moves_the_cursor_and_scrolls() {
    let mut tui = Tui::new(arena());
    assert!(tui.can_dispatch(Action::ScrollUp, SCREEN));
    tui.dispatch(Action::ScrollUp, SCREEN);
    assert_eq!(tui.scroll_offset, (0, 0));
    tui.dispatch(Action::ScrollDown, SCREEN);
    tui.dispatch(Action::ScrollRight, SCREEN);
    assert_eq!(tui.scroll_offset, (1, 1));
    tui.dispatch(Action::ScrollLeft, SCREEN);
    assert_eq!(tui.scroll_offset, (1, 0));

    tui.dispatch(Action::Down, SCREEN);
    assert_eq!(tui.trace_state.active_item(), ActiveItem::Item(0));
    tui.dispatch(Action::Down, SCREEN);
    assert_eq!(tui.trace_state.curr_idx(), 1);
    tui.dispatch(Action::StepOver, SCREEN);
    assert_eq!(tui.trace_state.curr_idx(), 2);
    tui.dispatch(Action::ReverseStepOver, SCREEN);
    assert_eq!(tui.trace_state.curr_idx(), 1);
    tui.dispatch(Action::StepInto, SCREEN);
    assert_eq!((tui.trace_state.curr_idx(), tui.trace_state.active_item()), (1, ActiveItem::Item(0)));
    assert_eq!(tui.trace_state.curr_address(), "0.0");
    tui.dispatch(Action::StepOut, SCREEN);
    assert_eq!((tui.trace_state.curr_idx(), tui.trace_state.active_item()), (0, ActiveItem::CallHeader));
    tui.dispatch(Action::ToggleCollapse, SCREEN);
    assert!(tui.trace_state.collapsed[0]);
    tui.dispatch(Action::GoToTop, SCREEN);
    assert_eq!((tui.trace_state.curr_idx(), tui.scroll_offset.0), (0, 0));
    assert!(!tui.exit());
    tui.dispatch(Action::Quit, SCREEN);
    assert!(tui.exit());
}

#[test]
fn go_to_bottom_scrolls_to_the_last_lines() {
    let mut tui = Tui::new(arena());
    // root header, log, first child (header, log, footer), second child
    // (header, footer), root footer: eight lines
    assert_eq!(tui.trace_state.to_text(None).unwrap().lines.len(), 8);
    let small = Rect { x: 0, y: 0, width: 80, height: 5 };
    assert!(tui.can_dispatch(Action::GoToBottom, small));
    assert!(!tui.can_dispatch(Action::GoToBottom, SCREEN));
    tui.dispatch(Action::GoToBottom, small);
    assert_eq!(tui.scroll_offset.0, 5);
    assert_eq!(tui.trace_state.active_item(), ActiveItem::ReturningValue);
    assert_eq!(tui.trace_state.curr_idx(), 0);
}

#[test]
fn keys_close_the_help() {
    let mut tui = Tui::new(arena());
    tui.on_key(KeyCode::Char('?'), SCREEN);
    assert!(tui.help);
    tui.on_key(KeyCode::Char('x'), SCREEN);
    assert!(!tui.help);
    tui.on_key(KeyCode::Char('?'), SCREEN);
    tui.on_key(KeyCode::Down, SCREEN);
    assert!(!tui.help);
    assert_eq!(tui.trace_state.active_item(), ActiveItem::Item(0));
}

#[test]
fn a_frame_lays_out_trace_status_and_help() {
    let mut tui = Tui::new(arena());
    assert!(tui.can_draw(SCREEN, false));
    let screen = tui.draw(SCREEN, false).unwrap();
    assert_eq!(screen.status, "addr: 0, curr_idx: 0, order_idx: CallHeader, fps: 0");
    assert_eq!(screen.status_area, Rect { x: 0, y: 23, width: 80, height: 1 });
    assert_eq!(screen.trace_area, Rect { x: 0, y: 1, width: 80, height: 22 });
    assert_eq!(screen.trace.lines.len(), 8);
    assert!(screen.help.is_none());
    assert_eq!(tui.frames, 1);

    tui.on_key(KeyCode::Down, SCREEN);
    tui.on_key(KeyCode::Char('?'), SCREEN);
    let screen = tui.draw(SCREEN, true).unwrap();
    assert_eq!(tui.last_frames, 1);
    assert_eq!(tui.frames, 1);
    assert_eq!(screen.status, "addr: 0, curr_idx: 0, order_idx: Item(0), fps: 1");
    let help = screen.help.expect("help is open");
    assert_eq!(help.text.lines.len(), 15);
    assert_eq!(help.text_area, Rect { x: 25, y: 4, width: 30, height: 15 });
    assert_eq!(help.block_area, Rect { x: 23, y: 2, width: 34, height: 19 });

    let tiny = Rect { x: 0, y: 0, width: 20, height: 10 };
    assert!(!tui.can_draw(tiny, false));
}

#[test]
fn a_malformed_trace_is_an_error_when_drawn() {
    let mut bad = arena();
    bad.nodes[0].ordering.push(TraceMemberOrder::Log(7));
    let mut tui = Tui::new(bad);
    let err = match tui.draw(SCREEN, false) {
        Err(e) => e,
        Ok(_) => panic!("a log that is not there cannot be drawn"),
    };
    assert_eq!(err.to_string(), "Error: malformed call trace");
    assert_eq!(tui.frames, 0);
}

#[test]
fn cast_arguments() {
    let opts = TraceOpts::new("http://localhost:8545/".to_string(), [0xab; 32], false);
    let hash = format!("0x{}", "ab".repeat(32));
    assert_eq!(
        opts.cast_run_args(),
        vec!["run", hash.as_str(), "--rpc-url", "http://localhost:8545/", "--json", "--quick"]
    );
    let replay = TraceOpts::new("http://node/".to_string(), [0; 32], true);
    assert_eq!(replay.cast_run_args().len(), 5);
    assert_ne!(Strategy::LocalCastRun, Strategy::TraceTransactionRpc);
}

#[test]
fn reset_restores_the_initial_view() {
    let mut state = TracesState::new(arena());
    state.down();
    state.toggle_collapse();
    state.last();
    state.reset();
    assert_eq!((state.curr_idx(), state.active_item()), (0, ActiveItem::CallHeader));
    assert!(state.collapsed.iter().all(|c| !c));
}


#[test]
fn cast_run_outcomes() {
    let ok: Result<u32, String> = Ok(7);
    assert_eq!(cast_run_result(ok, true, String::new()).unwrap(), 7);
    let bad: Result<u32, String> = Err("expected value".to_string());
    let err = cast_run_result(bad, true, String::new()).unwrap_err();
    assert!(matches!(err, CastRunError::Parse(_)));
    assert_eq!(err.to_string(), "expected value");
    let parsed: Result<u32, String> = Ok(7);
    let failed = cast_run_result(parsed, false, "no rpc".to_string()).unwrap_err();
    assert_eq!(failed.to_string(), "cast run failed: no rpc");
}

#[test]
fn step_out_selects_the_parent_call() {
    let mut state = TracesState::new(arena());
    state.down();
    state.down();
    state.down();
    assert_eq!((state.curr_idx(), state.active_item()), (1, ActiveItem::Item(0)));
    state.step_out();
    assert_eq!((state.curr_idx(), state.active_item()), (0, ActiveItem::CallHeader));
    state.step_out();
    assert_eq!((state.curr_idx(), state.active_item()), (0, ActiveItem::CallHeader));
}
