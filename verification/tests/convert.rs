use trace_tui::arena::{CallKind, CallTraceArena, InstructionResult, TraceMemberOrder};
use trace_tui::convert::ConvertError;
use trace_tui::navigation::TracesState;
use trace_tui::writer::{Color, SelectionStyle};
use trace_tui::parity::{
    Action, CallAction, CallOutput, CallType, CreateAction, CreateOutput, CreationMethod,
    ParityTraces, RewardAction, RewardType, SelfdestructAction, TraceOutput, TransactionTrace,
};

fn addr(b: u8) -> [u8; 20] {
    [b; 20]
}

fn u256(v: u64) -> [u64; 4] {
    [v, 0, 0, 0]
}

#[allow(clippy::too_many_arguments)]
fn call_frame(
    from: u8,
    to: u8,
    value: u64,
    gas: u64,
    call_type: CallType,
    gas_used: u64,
    subtraces: usize,
    trace_address: Vec<usize>,
) -> TransactionTrace {
    TransactionTrace {
        action: Action::Call(CallAction {
            from: addr(from),
            to: addr(to),
            value: u256(value),
            gas,
            input: vec![],
            call_type,
        }),
        result: Some(TraceOutput::Call(CallOutput { gas_used, output: vec![] })),
        error: None,
        subtraces,
        trace_address,
    }
}

fn convert(traces: Vec<TransactionTrace>) -> Result<CallTraceArena, ConvertError> {
    ParityTraces(traces).try_into()
}

#[test]
fn test_simple_call_trace() {
    let trace = TransactionTrace {
        action: Action::Call(CallAction {
            from: addr(1),
            to: addr(2),
            value: u256(100),
            gas: 21000,
            input: vec![0x12, 0x34],
            call_type: CallType::Call,
        }),
        result: Some(TraceOutput::Call(CallOutput { gas_used: 20000, output: vec![0xab, 0xcd] })),
        error: None,
        subtraces: 0,
        trace_address: vec![],
    };

    let arena = convert(vec![trace]).expect("Failed to convert trace");

    assert_eq!(arena.nodes().len(), 1);
    let node = &arena.nodes()[0];
    assert_eq!(node.trace.depth, 0);
    assert_eq!(node.trace.caller, addr(1));
    assert_eq!(node.trace.address, addr(2));
    assert_eq!(node.trace.value, u256(100));
    assert_eq!(node.trace.gas_limit, 21000);
    assert_eq!(node.trace.gas_used, 20000);
    assert_eq!(node.trace.data, vec![0x12, 0x34]);
    assert_eq!(node.trace.output, vec![0xab, 0xcd]);
    assert!(node.trace.success);
    assert_eq!(node.trace.kind, CallKind::Call);
    assert_eq!(node.parent, None);
    assert_eq!(node.children.len(), 0);
}

#[test]
fn test_create_trace() {
    let created_address = addr(3);
    let trace = TransactionTrace {
        action: Action::Create(CreateAction {
            from: addr(1),
            value: u256(0),
            gas: 100000,
            init: vec![0x60, 0x80],
            creation_method: CreationMethod::Create,
        }),
        result: Some(TraceOutput::Create(CreateOutput {
            address: created_address,
            code: vec![0x60, 0x60],
            gas_used: 50000,
        })),
        error: None,
        subtraces: 0,
        trace_address: vec![],
    };

    let arena = convert(vec![trace]).expect("Failed to convert trace");

    assert_eq!(arena.nodes().len(), 1);
    let node = &arena.nodes()[0];
    assert_eq!(node.trace.depth, 0);
    assert_eq!(node.trace.caller, addr(1));
    assert_eq!(node.trace.address, created_address);
    assert_eq!(node.trace.kind, CallKind::Create);
    assert_eq!(node.trace.data, vec![0x60, 0x80]);
    assert_eq!(node.trace.output, vec![0x60, 0x60]);
    assert_eq!(node.trace.gas_used, 50000);
    assert!(node.trace.success);
}

#[test]
fn test_create2_trace() {
    let created_address = addr(3);
    let trace = TransactionTrace {
        action: Action::Create(CreateAction {
            from: addr(1),
            value: u256(0),
            gas: 100000,
            init: vec![0x60, 0x80],
            creation_method: CreationMethod::Create2,
        }),
        result: Some(TraceOutput::Create(CreateOutput {
            address: created_address,
            code: vec![0x60, 0x60],
            gas_used: 50000,
        })),
        error: None,
        subtraces: 0,
        trace_address: vec![],
    };

    let arena = convert(vec![trace]).expect("Failed to convert trace");

    assert_eq!(arena.nodes().len(), 1);
    let node = &arena.nodes()[0];
    assert_eq!(node.trace.kind, CallKind::Create2);
}

#[test]
fn test_nested_calls() {
    let root_trace = call_frame(1, 2, 100, 100000, CallType::Call, 80000, 2, vec![]);
    let child1_trace = call_frame(2, 3, 50, 50000, CallType::Call, 30000, 0, vec![0]);
    let child2_trace = call_frame(2, 4, 25, 40000, CallType::DelegateCall, 20000, 0, vec![1]);

    let arena = convert(vec![root_trace, child1_trace, child2_trace])
        .expect("Failed to convert traces");

    assert_eq!(arena.nodes().len(), 3);

    let root = &arena.nodes()[0];
    assert_eq!(root.trace.depth, 0);
    assert_eq!(root.parent, None);
    assert_eq!(root.children.len(), 2);
    assert_eq!(root.children, vec![1, 2]);
    assert_eq!(root.ordering.len(), 2);
    assert_eq!(root.ordering[0], TraceMemberOrder::Call(0));
    assert_eq!(root.ordering[1], TraceMemberOrder::Call(1));

    let child1 = &arena.nodes()[1];
    assert_eq!(child1.trace.depth, 1);
    assert_eq!(child1.parent, Some(0));
    assert_eq!(child1.children.len(), 0);
    assert_eq!(child1.trace.address, addr(3));
    assert_eq!(child1.ordering.len(), 0);

    let child2 = &arena.nodes()[2];
    assert_eq!(child2.trace.depth, 1);
    assert_eq!(child2.parent, Some(0));
    assert_eq!(child2.children.len(), 0);
    assert_eq!(child2.trace.kind, CallKind::DelegateCall);
    assert_eq!(child2.ordering.len(), 0);
}

#[test]
fn test_deeply_nested_calls() {
    let root = call_frame(1, 2, 100, 100000, CallType::Call, 90000, 1, vec![]);
    let child = call_frame(2, 3, 50, 50000, CallType::Call, 40000, 1, vec![0]);
    let grandchild = call_frame(3, 4, 25, 25000, CallType::StaticCall, 20000, 0, vec![0, 0]);

    let arena = convert(vec![root, child, grandchild]).expect("Failed to convert traces");

    assert_eq!(arena.nodes().len(), 3);

    let root_node = &arena.nodes()[0];
    assert_eq!(root_node.trace.depth, 0);
    assert_eq!(root_node.children, vec![1]);
    assert_eq!(root_node.ordering, vec![TraceMemberOrder::Call(0)]);

    let child_node = &arena.nodes()[1];
    assert_eq!(child_node.trace.depth, 1);
    assert_eq!(child_node.parent, Some(0));
    assert_eq!(child_node.children, vec![2]);
    assert_eq!(child_node.ordering, vec![TraceMemberOrder::Call(0)]);

    let grandchild_node = &arena.nodes()[2];
    assert_eq!(grandchild_node.trace.depth, 2);
    assert_eq!(grandchild_node.parent, Some(1));
    assert_eq!(grandchild_node.children.len(), 0);
    assert_eq!(grandchild_node.trace.kind, CallKind::StaticCall);
    assert_eq!(grandchild_node.ordering.len(), 0);
}

#[test]
fn test_error_trace() {
    let mut trace = call_frame(1, 2, 100, 21000, CallType::Call, 21000, 0, vec![]);
    trace.error = Some("Reverted".to_string());

    let arena = convert(vec![trace]).expect("Failed to convert trace");

    assert_eq!(arena.nodes().len(), 1);
    let node = &arena.nodes()[0];
    assert!(!node.trace.success);
    assert_eq!(node.trace.status, Some(InstructionResult::Revert));
}

#[test]
fn test_out_of_gas_error() {
    let mut trace = call_frame(1, 2, 100, 21000, CallType::Call, 0, 0, vec![]);
    trace.result = None;
    trace.error = Some("OutOfGas".to_string());

    let arena = convert(vec![trace]).expect("Failed to convert trace");

    assert_eq!(arena.nodes().len(), 1);
    let node = &arena.nodes()[0];
    assert!(!node.trace.success);
    assert_eq!(node.trace.status, Some(InstructionResult::OutOfGas));
    assert_eq!(node.trace.gas_used, 0);
}

#[test]
fn test_selfdestruct_trace() {
    let trace = TransactionTrace {
        action: Action::Selfdestruct(SelfdestructAction {
            address: addr(1),
            refund_address: addr(2),
            balance: u256(1000),
        }),
        result: None,
        error: None,
        subtraces: 0,
        trace_address: vec![],
    };

    let arena = convert(vec![trace]).expect("Failed to convert trace");

    assert_eq!(arena.nodes().len(), 1);
    let node = &arena.nodes()[0];
    assert_eq!(node.trace.caller, addr(1));
    assert_eq!(node.trace.address, addr(2));
    assert_eq!(node.trace.selfdestruct_address, Some(addr(1)));
    assert_eq!(node.trace.selfdestruct_refund_target, Some(addr(2)));
    assert_eq!(node.trace.selfdestruct_transferred_value, Some(u256(1000)));
    assert_eq!(node.trace.status, Some(InstructionResult::SelfDestruct));
}

#[test]
fn test_staticcall_trace() {
    let trace = call_frame(1, 2, 0, 50000, CallType::StaticCall, 30000, 0, vec![]);

    let arena = convert(vec![trace]).expect("Failed to convert trace");

    assert_eq!(arena.nodes().len(), 1);
    let node = &arena.nodes()[0];
    assert_eq!(node.trace.kind, CallKind::StaticCall);
}

#[test]
fn test_callcode_trace() {
    let trace = call_frame(1, 2, 100, 50000, CallType::CallCode, 30000, 0, vec![]);

    let arena = convert(vec![trace]).expect("Failed to convert trace");

    assert_eq!(arena.nodes().len(), 1);
    let node = &arena.nodes()[0];
    assert_eq!(node.trace.kind, CallKind::CallCode);
}

#[test]
fn test_empty_trace_vector() {
    let result = convert(vec![]);
    assert!(result.is_err());
    assert!(result.unwrap_err().to_string().contains("empty"));
}

#[test]
fn test_invalid_root_trace() {
    let trace = call_frame(1, 2, 100, 21000, CallType::Call, 20000, 0, vec![0]);

    let result = convert(vec![trace]);
    assert!(result.is_err());
    assert!(result.unwrap_err().to_string().contains("root"));
}

#[test]
fn test_reward_action_fails() {
    let trace = TransactionTrace {
        action: Action::Reward(RewardAction {
            author: addr(1),
            value: u256(1000),
            reward_type: RewardType::Block,
        }),
        result: None,
        error: None,
        subtraces: 0,
        trace_address: vec![],
    };

    let result = convert(vec![trace]);
    assert!(result.is_err());
    assert!(result.unwrap_err().to_string().contains("Reward"));
}

#[test]
fn test_out_of_order_children() {
    let traces = vec![
        call_frame(1, 2, 100, 100000, CallType::Call, 90000, 3, vec![]),
        call_frame(2, 3, 50, 50000, CallType::Call, 40000, 0, vec![0]),
        call_frame(2, 5, 30, 30000, CallType::Call, 25000, 0, vec![2]),
        call_frame(2, 4, 25, 25000, CallType::Call, 20000, 0, vec![1]),
    ];

    let arena = convert(traces).expect("Failed to convert traces");

    assert_eq!(arena.nodes().len(), 4);

    let root = &arena.nodes()[0];
    assert_eq!(root.children.len(), 3);
    assert_eq!(arena.nodes()[root.children[0]].trace.address, addr(3));
    assert_eq!(arena.nodes()[root.children[1]].trace.address, addr(4));
    assert_eq!(arena.nodes()[root.children[2]].trace.address, addr(5));

    assert_eq!(root.ordering.len(), 3);
    assert_eq!(root.ordering[0], TraceMemberOrder::Call(0));
    assert_eq!(root.ordering[1], TraceMemberOrder::Call(1));
    assert_eq!(root.ordering[2], TraceMemberOrder::Call(2));
}

#[test]
fn test_complex_tree_structure() {
    let traces = vec![
        call_frame(1, 2, 100, 100000, CallType::Call, 90000, 3, vec![]),
        call_frame(2, 3, 50, 50000, CallType::Call, 40000, 2, vec![0]),
        call_frame(3, 5, 10, 10000, CallType::Call, 5000, 0, vec![0, 0]),
        call_frame(3, 6, 15, 15000, CallType::Call, 10000, 0, vec![0, 1]),
        call_frame(2, 4, 25, 25000, CallType::Call, 20000, 0, vec![1]),
        call_frame(2, 7, 30, 30000, CallType::Call, 25000, 0, vec![2]),
    ];

    let arena = convert(traces).expect("Failed to convert traces");

    assert_eq!(arena.nodes().len(), 6);

    assert_eq!(arena.nodes()[0].children.len(), 3);
    assert_eq!(arena.nodes()[0].children, vec![1, 4, 5]);
    assert_eq!(
        arena.nodes()[0].ordering,
        vec![TraceMemberOrder::Call(0), TraceMemberOrder::Call(1), TraceMemberOrder::Call(2)]
    );

    assert_eq!(arena.nodes()[1].children.len(), 2);
    assert_eq!(arena.nodes()[1].children, vec![2, 3]);
    assert_eq!(arena.nodes()[1].parent, Some(0));
    assert_eq!(
        arena.nodes()[1].ordering,
        vec![TraceMemberOrder::Call(0), TraceMemberOrder::Call(1)]
    );

    assert_eq!(arena.nodes()[2].parent, Some(1));
    assert_eq!(arena.nodes()[2].children.len(), 0);
    assert_eq!(arena.nodes()[2].ordering.len(), 0);

    assert_eq!(arena.nodes()[3].parent, Some(1));
    assert_eq!(arena.nodes()[3].children.len(), 0);
    assert_eq!(arena.nodes()[3].ordering.len(), 0);

    assert_eq!(arena.nodes()[4].parent, Some(0));
    assert_eq!(arena.nodes()[4].ordering.len(), 0);
    assert_eq!(arena.nodes()[5].parent, Some(0));
    assert_eq!(arena.nodes()[5].ordering.len(), 0);
}

#[test]
fn converted_arena_is_well_formed() {
    let traces = vec![
        call_frame(1, 2, 100, 100000, CallType::Call, 90000, 2, vec![]),
        call_frame(2, 3, 50, 50000, CallType::Call, 40000, 0, vec![1]),
        call_frame(2, 4, 25, 25000, CallType::Call, 20000, 0, vec![0]),
    ];
    let arena = convert(traces).expect("Failed to convert traces");
    assert!(arena.is_well_formed());
    assert_eq!(arena.nodes()[0].children, vec![2, 1]);
}

#[test]
fn missing_parent_is_reported_with_its_address() {
    let traces = vec![
        call_frame(1, 2, 100, 100000, CallType::Call, 90000, 1, vec![]),
        call_frame(2, 3, 50, 50000, CallType::Call, 40000, 0, vec![0, 3]),
    ];
    let err = convert(traces).unwrap_err();
    assert_eq!(err.to_string(), "Parent trace not found for trace_address [0, 3]");
}

#[test]
fn error_messages_match_the_conversion_failures() {
    assert_eq!(convert(vec![]).unwrap_err().to_string(), "Cannot convert empty trace vector");
    let not_root = call_frame(1, 2, 0, 1, CallType::Call, 1, 0, vec![5]);
    assert_eq!(
        convert(vec![not_root]).unwrap_err().to_string(),
        "First trace must be the root with empty trace_address"
    );
}

#[test]
fn a_converted_arena_is_drawn_and_walked_line_by_line() {
    let traces = vec![
        call_frame(1, 2, 0, 100000, CallType::Call, 90000, 2, vec![]),
        call_frame(2, 3, 0, 50000, CallType::Call, 40000, 1, vec![0]),
        call_frame(3, 4, 0, 10000, CallType::StaticCall, 5000, 0, vec![0, 0]),
        call_frame(2, 5, 0, 25000, CallType::Call, 20000, 0, vec![1]),
    ];
    let mut state = TracesState::new(convert(traces).expect("converts"));
    let selection = Some(SelectionStyle::default());
    // every converted call returned, so each header and footer is walked
    let mut seen = Vec::new();
    loop {
        let text = state.to_text(selection).unwrap();
        let lit: Vec<usize> = text
            .lines
            .iter()
            .enumerate()
            .filter(|(_, l)| l.style.bg == Some(Color::Gray))
            .map(|(i, _)| i)
            .collect();
        assert_eq!(lit.len(), 1);
        seen.push((lit[0], state.curr_idx()));
        if !state.down() {
            break;
        }
    }
    assert_eq!(
        seen,
        vec![(0, 0), (1, 1), (2, 2), (3, 2), (4, 1), (5, 3), (6, 3), (7, 0)]
    );
}
