use trace_tui::arena::{
    CallKind, CallLog, CallTrace, CallTraceArena, CallTraceNode, CallTraceStep, DecodedCallData,
    DecodedCallLog, DecodedCallTrace, DecodedInternalCall, DecodedTraceStep, InstructionResult,
    TraceMemberOrder,
};
use trace_tui::navigation::{ActiveItem, TracesState};
use trace_tui::render::RenderError;
use trace_tui::writer::{Color, SelectionStyle, Text};

fn trace(address: [u8; 20], kind: CallKind, status: InstructionResult) -> CallTrace {
    CallTrace {
        depth: 0,
        success: status.is_ok(),
        caller: [1; 20],
        address,
        maybe_precompile: None,
        selfdestruct_address: None,
        selfdestruct_refund_target: None,
        selfdestruct_transferred_value: None,
        kind,
        value: [0, 0, 0, 0],
        data: vec![],
        output: vec![],
        gas_used: 21000,
        gas_limit: 30000,
        status: Some(status),
        steps: vec![],
        decoded: None,
    }
}

fn node(idx: usize, parent: Option<usize>, children: Vec<usize>, trace: CallTrace) -> CallTraceNode {
    CallTraceNode { parent, children, idx, trace, logs: vec![], ordering: vec![] }
}

fn line_strings(text: &Text) -> Vec<String> {
    text.lines
        .iter()
        .map(|l| l.spans.iter().map(|s| s.content.clone()).collect::<String>())
        .collect()
}

const ADDR2: &str = "0x0202020202020202020202020202020202020202";

/// A root call (returning) with a raw log, a child call (stopping) and a
/// decoded log.
fn sample_arena() -> CallTraceArena {
    let mut root = trace([2; 20], CallKind::Call, InstructionResult::Return);
    root.data = vec![0x12, 0x34, 0x56, 0x78, 0x9a];
    root.output = vec![0xab];
    let mut root_node = node(0, None, vec![1], root);
    root_node.logs = vec![
        CallLog { topics: vec![[0x11; 32]], data: vec![1, 2], decoded: None },
        CallLog {
            topics: vec![],
            data: vec![],
            decoded: Some(DecodedCallLog {
                name: Some("Transfer".to_string()),
                params: Some(vec![
                    ("from".to_string(), "a".to_string()),
                    ("value".to_string(), "5".to_string()),
                ]),
            }),
        },
    ];
    root_node.ordering =
        vec![TraceMemberOrder::Log(0), TraceMemberOrder::Call(0), TraceMemberOrder::Log(1)];
    let mut child = trace([2; 20], CallKind::StaticCall, InstructionResult::Stop);
    child.depth = 1;
    child.decoded = Some(DecodedCallTrace {
        label: Some("Token".to_string()),
        return_data: None,
        call_data: Some(DecodedCallData {
            signature: "balanceOf(address)".to_string(),
            args: vec!["0x01".to_string()],
        }),
    });
    let child_node = node(1, Some(0), vec![], child);
    CallTraceArena { nodes: vec![root_node, child_node] }
}

#[test]
fn renders_calls_logs_and_footers() {
    let state = TracesState::new(sample_arena());
    let text = state.to_text(None).expect("renders");
    let topic = format!("0x{}", "11".repeat(32));
    assert_eq!(
        line_strings(&text),
        vec![
            format!("    ⏷ [21000] {ADDR2}::12345678(9a)"),
            format!("    ├─ emit topic0: {topic} data: 0x0102"),
            "    ⏷ [21000] Token::balanceOf(0x01) [staticcall]".to_string(),
            "    │   └─ ← [Stop]".to_string(),
            "    ├─ emit Transfer(from: a, value: 5)".to_string(),
            "    └─ ← [Return] 0xab".to_string(),
        ]
    );
    assert!(text.lines.iter().all(|l| l.style.bg.is_none()));
}

#[test]
fn span_styles_follow_the_call_status() {
    let state = TracesState::new(sample_arena());
    let text = state.to_text(None).unwrap();
    let header = &text.lines[0];
    assert_eq!(header.spans[3].style.fg, Some(Color::Green));
    let kind_marker = text.lines[2].spans.last().unwrap();
    assert_eq!(kind_marker.content, " [staticcall]");
    assert_eq!(kind_marker.style.fg, Some(Color::Yellow));
    let log_params = &text.lines[4].spans[3];
    assert_eq!(log_params.style.fg, Some(Color::Cyan));
}

#[test]
fn collapsed_calls_show_only_their_header() {
    let mut state = TracesState::new(sample_arena());
    state.toggle_collapse();
    let text = state.to_text(None).unwrap();
    assert_eq!(line_strings(&text), vec![format!("    ⏵ [21000] {ADDR2}::12345678(9a)")]);
    state.toggle_collapse();
    assert_eq!(state.to_text(None).unwrap().lines.len(), 6);
}

#[test]
fn the_cursor_line_takes_the_selection_style() {
    let mut state = TracesState::new(sample_arena());
    assert!(state.down());
    assert!(state.down());
    assert_eq!(state.curr_idx(), 1);
    let text = state.to_text(Some(SelectionStyle::default())).unwrap();
    let highlighted: Vec<usize> = text
        .lines
        .iter()
        .enumerate()
        .filter(|(_, l)| l.style.bg == Some(Color::Gray))
        .map(|(i, _)| i)
        .collect();
    assert_eq!(highlighted, vec![2]);
}

#[test]
fn down_and_up_walk_the_lines_the_cursor_can_stand_on() {
    let mut state = TracesState::new(sample_arena());
    let selection = Some(SelectionStyle::default());
    let highlighted = |s: &TracesState| {
        s.to_text(selection)
            .unwrap()
            .lines
            .iter()
            .position(|l| l.style.bg == Some(Color::Gray))
    };
    // the child stops, so its footer (line 3) is skipped
    let expected = [0, 1, 2, 4, 5];
    for (step, line) in expected.iter().enumerate() {
        assert_eq!(highlighted(&state), Some(*line), "down step {step}");
        let moved = state.down();
        assert_eq!(moved, step + 1 < expected.len());
    }
    for line in expected.iter().rev().skip(1) {
        assert!(state.up());
        assert_eq!(highlighted(&state), Some(*line));
    }
    assert!(!state.up());
    assert_eq!(state.active_item(), ActiveItem::CallHeader);
}

#[test]
fn internal_calls_are_written_with_their_steps() {
    let mut root = trace([2; 20], CallKind::Call, InstructionResult::Stop);
    root.steps = vec![
        CallTraceStep {
            gas_used: 100,
            decoded: Some(DecodedTraceStep::InternalCall(
                DecodedInternalCall {
                    func_name: "helper".to_string(),
                    args: Some(vec!["1".to_string(), "2".to_string()]),
                    return_data: Some(vec!["3".to_string()]),
                },
                2,
            )),
        },
        CallTraceStep { gas_used: 150, decoded: Some(DecodedTraceStep::Line("x = 1".to_string())) },
        CallTraceStep { gas_used: 400, decoded: None },
        CallTraceStep { gas_used: 500, decoded: None },
    ];
    let mut root_node = node(0, None, vec![], root);
    root_node.ordering = vec![
        TraceMemberOrder::Step(0),
        TraceMemberOrder::Step(1),
        TraceMemberOrder::Step(2),
        TraceMemberOrder::Step(3),
    ];
    let state = TracesState::new(CallTraceArena { nodes: vec![root_node] });
    let text = state.to_text(None).unwrap();
    assert_eq!(
        line_strings(&text),
        vec![
            format!("    ⏷ [21000] {ADDR2}::fallback()"),
            "    ├─ [300] helper(1, 2)".to_string(),
            "    │   ├─ x = 1".to_string(),
            "    │   └─ ← 3".to_string(),
            "    └─ ← [Stop]".to_string(),
        ]
    );
}

#[test]
fn an_internal_call_without_its_end_step_is_refused() {
    let mut root = trace([2; 20], CallKind::Call, InstructionResult::Stop);
    root.steps = vec![
        CallTraceStep {
            gas_used: 100,
            decoded: Some(DecodedTraceStep::InternalCall(
                DecodedInternalCall { func_name: "f".to_string(), args: None, return_data: None },
                1,
            )),
        },
        CallTraceStep { gas_used: 50, decoded: None },
    ];
    let mut root_node = node(0, None, vec![], root);
    root_node.ordering = vec![TraceMemberOrder::Step(0)];
    let state = TracesState::new(CallTraceArena { nodes: vec![root_node] });
    let err = state.to_text(None).unwrap_err();
    assert_eq!(err, RenderError::MalformedTrace);
    assert_eq!(err.message(), "malformed call trace");
}

#[test]
fn creations_show_the_new_contract_and_code_size() {
    let mut root = trace([2; 20], CallKind::Create, InstructionResult::Return);
    root.output = vec![0x60, 0x80, 0x60];
    let state = TracesState::new(CallTraceArena { nodes: vec![node(0, None, vec![], root)] });
    let text = state.to_text(None).unwrap();
    assert_eq!(
        line_strings(&text),
        vec![
            format!("    ⏷ [21000] → new <unknown>@{ADDR2}"),
            "    └─ ← [Return] 3 bytes of code".to_string(),
        ]
    );
}

#[test]
fn addresses_are_checksummed_and_values_written_in_decimal() {
    let address = [
        0x5a, 0xae, 0xb6, 0x05, 0x3f, 0x3e, 0x94, 0xc9, 0xb9, 0xa0, 0x9f, 0x33, 0x66, 0x94, 0x35,
        0xe7, 0xef, 0x1b, 0xea, 0xed,
    ];
    let mut root = trace(address, CallKind::DelegateCall, InstructionResult::Revert);
    root.value = [0, 1, 0, 0];
    root.data = vec![0x01];
    let state = TracesState::new(CallTraceArena { nodes: vec![node(0, None, vec![], root)] });
    let text = state.to_text(None).unwrap();
    assert_eq!(
        line_strings(&text),
        vec![
            "    ⏷ [21000] 0x5aAeb6053F3E94C9b9A09f33669435E7Ef1BeAed::fallback{value: 18446744073709551616}(01) [delegatecall]".to_string(),
            "    └─ ← [Revert]".to_string(),
        ]
    );
    assert_eq!(text.lines[0].spans[3].style.fg, Some(Color::Red));
}

/// Root with entries (call, log); the child has one call entry; the
/// grandchild returns.
fn nested_arena() -> CallTraceArena {
    let mut root = node(0, None, vec![1], trace([2; 20], CallKind::Call, InstructionResult::Return));
    root.logs = vec![CallLog { topics: vec![], data: vec![], decoded: None }];
    root.ordering = vec![TraceMemberOrder::Call(0), TraceMemberOrder::Log(0)];
    let mut child = node(1, Some(0), vec![2], trace([3; 20], CallKind::Call, InstructionResult::Stop));
    child.ordering = vec![TraceMemberOrder::Call(0)];
    let grandchild = node(2, Some(1), vec![], trace([4; 20], CallKind::Call, InstructionResult::Return));
    CallTraceArena { nodes: vec![root, child, grandchild] }
}

fn highlighted(state: &TracesState) -> Vec<usize> {
    state
        .to_text(Some(SelectionStyle::default()))
        .unwrap()
        .lines
        .iter()
        .enumerate()
        .filter(|(_, l)| l.style.bg == Some(Color::Gray))
        .map(|(i, _)| i)
        .collect()
}

#[test]
fn moving_up_stops_at_a_collapsed_call() {
    let mut state = TracesState::new(nested_arena());
    state.collapsed[2] = true;
    // lines: root header, child header, grandchild header (collapsed),
    // child footer (not selectable), log, root footer
    assert_eq!(state.to_text(None).unwrap().lines.len(), 6);
    let mut walked = vec![highlighted(&state)];
    while state.down() {
        walked.push(highlighted(&state));
    }
    assert_eq!(walked, vec![vec![0], vec![1], vec![2], vec![4], vec![5]]);
    let mut back = vec![highlighted(&state)];
    while state.up() {
        back.push(highlighted(&state));
    }
    assert_eq!(back, vec![vec![5], vec![4], vec![2], vec![1], vec![0]]);
    // down from the collapsed header and back up returns to it
    state.down();
    state.down();
    assert_eq!(highlighted(&state), vec![2]);
    state.down();
    state.up();
    assert_eq!(highlighted(&state), vec![2]);
    state.last();
    assert_eq!(highlighted(&state), vec![5]);
}

#[test]
fn children_listed_before_their_parent_are_drawn() {
    // node 2 is the root's child and node 1 its grandchild
    let mut root = node(0, None, vec![2], trace([2; 20], CallKind::Call, InstructionResult::Stop));
    root.ordering = vec![TraceMemberOrder::Call(0)];
    let low = node(1, Some(2), vec![], trace([3; 20], CallKind::Call, InstructionResult::Stop));
    let mut high = node(2, Some(0), vec![1], trace([4; 20], CallKind::Call, InstructionResult::Stop));
    high.ordering = vec![TraceMemberOrder::Call(0)];
    let state = TracesState::new(CallTraceArena { nodes: vec![root, low, high] });
    assert_eq!(state.to_text(None).unwrap().lines.len(), 6);
}

#[test]
fn a_cycle_of_calls_is_refused() {
    let mut root = node(0, None, vec![1], trace([2; 20], CallKind::Call, InstructionResult::Stop));
    root.ordering = vec![TraceMemberOrder::Call(0)];
    let mut child = node(1, Some(0), vec![1], trace([3; 20], CallKind::Call, InstructionResult::Stop));
    child.ordering = vec![TraceMemberOrder::Call(0)];
    let state = TracesState::new(CallTraceArena { nodes: vec![root, child] });
    assert_eq!(state.to_text(None).unwrap_err(), RenderError::MalformedTrace);
}

/// A tree from each node's parent: every node has one log, before its child
/// calls on even nodes and after them on odd ones; every third node stops,
/// the others return.
fn tree(parents: &[Option<usize>]) -> CallTraceArena {
    let n = parents.len();
    let mut nodes = Vec::new();
    for i in 0..n {
        let children: Vec<usize> = (0..n).filter(|c| parents[*c] == Some(i)).collect();
        let status = if i % 3 == 2 { InstructionResult::Stop } else { InstructionResult::Return };
        let mut nd = node(i, parents[i], children.clone(), trace([i as u8; 20], CallKind::Call, status));
        nd.logs = vec![CallLog { topics: vec![], data: vec![i as u8], decoded: None }];
        let calls: Vec<TraceMemberOrder> = (0..children.len()).map(TraceMemberOrder::Call).collect();
        nd.ordering = if i % 2 == 0 {
            [vec![TraceMemberOrder::Log(0)], calls].concat()
        } else {
            [calls, vec![TraceMemberOrder::Log(0)]].concat()
        };
        nodes.push(nd);
    }
    CallTraceArena { nodes }
}

/// The lines the cursor can stand on: all but the footers of calls that
/// did not return.
fn jumpable(state: &TracesState) -> Vec<usize> {
    line_strings(&state.to_text(None).unwrap())
        .iter()
        .enumerate()
        .filter(|(_, l)| !(l.contains("← ") && !l.contains("Return")))
        .map(|(i, _)| i)
        .collect()
}

#[test]
fn navigation_up_down_with_and_without_collapsed_calls() {
    let parents =
        [None, Some(0), Some(1), Some(1), Some(0), Some(4), Some(5), Some(0), Some(7), Some(2)];
    for collapse in [false, true] {
        let mut state = TracesState::new(tree(&parents));
        if collapse {
            for i in (1..parents.len()).step_by(3) {
                state.collapsed[i] = true;
            }
        }
        let expected = jumpable(&state);
        assert_eq!(highlighted(&state), vec![expected[0]]);
        for k in 1..expected.len() {
            assert!(state.down());
            assert_eq!(highlighted(&state), vec![expected[k]], "down {k}, collapse {collapse}");
        }
        assert!(!state.down());
        for k in (0..expected.len() - 1).rev() {
            assert!(state.up());
            assert_eq!(highlighted(&state), vec![expected[k]], "up to {k}, collapse {collapse}");
        }
        assert!(!state.up());
    }
}

fn with_logs(mut n: CallTraceNode, logs: usize, ordering: Vec<TraceMemberOrder>) -> CallTraceNode {
    n.logs = (0..logs)
        .map(|i| CallLog {
            topics: vec![[i as u8 + 1; 32]],
            data: vec![i as u8],
            decoded: Some(DecodedCallLog {
                name: Some("Transfer".to_string()),
                params: Some(vec![("value".to_string(), i.to_string())]),
            }),
        })
        .collect();
    n.ordering = ordering;
    n
}

fn labelled(mut t: CallTrace, label: &str, signature: &str) -> CallTrace {
    t.decoded = Some(DecodedCallTrace {
        label: Some(label.to_string()),
        return_data: None,
        call_data: Some(DecodedCallData { signature: signature.to_string(), args: vec![] }),
    });
    t
}

/// A transaction's trace in the shape `cast run --json` prints: a router
/// call that pulls tokens (with a balance check inside), swaps through a
/// pool that stops after calling out twice, and pays out through a
/// delegate call; events are emitted along the way.
fn example_trace() -> CallTraceArena {
    let t = |a: u8, k: CallKind, s: InstructionResult, label: &str, sig: &str| {
        labelled(trace([a; 20], k, s), label, sig)
    };
    let nodes = vec![
        with_logs(
            node(0, None, vec![1, 3, 7], t(10, CallKind::Call, InstructionResult::Return, "Router", "swap()")),
            2,
            vec![TraceMemberOrder::Call(0), TraceMemberOrder::Log(0), TraceMemberOrder::Call(1), TraceMemberOrder::Call(2), TraceMemberOrder::Log(1)],
        ),
        with_logs(
            node(1, Some(0), vec![2], t(11, CallKind::Call, InstructionResult::Return, "Token", "transferFrom()")),
            1,
            vec![TraceMemberOrder::Call(0), TraceMemberOrder::Log(0)],
        ),
        node(2, Some(1), vec![], t(11, CallKind::StaticCall, InstructionResult::Return, "Token", "balanceOf()")),
        with_logs(
            node(3, Some(0), vec![4, 5], t(12, CallKind::Call, InstructionResult::Stop, "Pool", "swap()")),
            1,
            vec![TraceMemberOrder::Log(0), TraceMemberOrder::Call(0), TraceMemberOrder::Call(1)],
        ),
        with_logs(
            node(4, Some(3), vec![], t(11, CallKind::Call, InstructionResult::Return, "Token", "transfer()")),
            1,
            vec![TraceMemberOrder::Log(0)],
        ),
        with_logs(
            node(5, Some(3), vec![6], t(13, CallKind::Call, InstructionResult::Stop, "Callback", "hook()")),
            0,
            vec![TraceMemberOrder::Call(0)],
        ),
        node(6, Some(5), vec![], t(11, CallKind::StaticCall, InstructionResult::Return, "Token", "balanceOf()")),
        with_logs(
            node(7, Some(0), vec![8], t(14, CallKind::DelegateCall, InstructionResult::Return, "Payout", "pay()")),
            1,
            vec![TraceMemberOrder::Call(0), TraceMemberOrder::Log(0)],
        ),
        with_logs(
            node(8, Some(7), vec![], t(11, CallKind::Call, InstructionResult::Stop, "Token", "transfer()")),
            1,
            vec![TraceMemberOrder::Log(0)],
        ),
    ];
    CallTraceArena { nodes }
}

/// Walks the trace and checks that the highlighted line is always the
/// expected one among the lines the cursor can stand on.
struct NavigationTestHelper {
    state: TracesState,
    step_count: usize,
}

impl NavigationTestHelper {
    fn curr_highlighted(&self) -> Option<usize> {
        self.state
            .to_text(Some(SelectionStyle::default()))
            .unwrap()
            .lines
            .iter()
            .position(|l| l.style.bg == Some(Color::Gray))
    }

    /// A footer of a call that did not return is no stop for the cursor.
    fn jumpable(&self) -> Vec<usize> {
        line_strings(&self.state.to_text(None).unwrap())
            .iter()
            .enumerate()
            .filter(|(_, l)| !(l.contains("← ") && !l.contains("Return")))
            .map(|(i, _)| i)
            .collect()
    }

    fn n_steps(&self) -> usize {
        self.jumpable().len()
    }

    fn assert_correct_position(&self, context: &str) {
        let expected = self.jumpable()[self.step_count];
        assert_eq!(self.curr_highlighted(), Some(expected), "{context}");
    }

    fn down(&mut self) {
        self.state.down();
        self.step_count += 1;
    }

    fn up(&mut self) {
        self.state.up();
        self.step_count -= 1;
    }

    fn reset(&mut self) {
        self.state.reset();
        self.step_count = 0;
    }

    fn apply_random_collapse(&mut self) {
        for i in (1..self.state.collapsed.len()).step_by(3) {
            self.state.collapsed[i] = !self.state.collapsed[i];
        }
    }
}

#[test]
fn test_navigation_up_down() {
    let mut helper = NavigationTestHelper { state: TracesState::new(example_trace()), step_count: 0 };

    helper.assert_correct_position("initial state");
    for i in 1..helper.n_steps() {
        helper.down();
        helper.assert_correct_position(&format!("after {i} down steps"));
    }
    for i in 1..helper.n_steps() {
        helper.up();
        helper.assert_correct_position(&format!("after {i} up steps"));
    }

    let steps_before = helper.n_steps();
    helper.reset();
    helper.apply_random_collapse();
    let steps_after = helper.n_steps();
    assert!(steps_after < steps_before);

    for i in 1..helper.n_steps() {
        helper.down();
        helper.assert_correct_position(&format!("collapsed trace, after {i} down steps"));
    }
    for i in 1..helper.n_steps() {
        helper.up();
        helper.assert_correct_position(&format!(
            "collapsed trace, after {} down and {i} up steps",
            helper.n_steps()
        ));
    }
}

#[test]
fn moving_up_onto_a_call_ending_with_a_step_stops_at_its_header() {
    let mut root = node(0, None, vec![1], trace([2; 20], CallKind::Call, InstructionResult::Return));
    root.logs = vec![CallLog { topics: vec![], data: vec![], decoded: None }];
    root.ordering = vec![TraceMemberOrder::Call(0), TraceMemberOrder::Log(0)];
    let mut child_trace = trace([3; 20], CallKind::Call, InstructionResult::Stop);
    child_trace.steps = vec![CallTraceStep { gas_used: 1, decoded: None }];
    let mut child = node(1, Some(0), vec![], child_trace);
    child.ordering = vec![TraceMemberOrder::Step(0)];
    let mut state = TracesState::new(CallTraceArena { nodes: vec![root, child] });
    state.down();
    state.down();
    state.down();
    assert_eq!((state.curr_idx(), state.active_item()), (0, ActiveItem::Item(1)));
    assert!(state.up());
    assert_eq!((state.curr_idx(), state.active_item()), (1, ActiveItem::CallHeader));
}
