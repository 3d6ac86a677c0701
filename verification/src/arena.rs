//! The call-trace arena: a tree of call nodes stored in a vector, each node
//! knowing its parent, its children and the order in which its logs, child
//! calls and steps happened.

use vstd::prelude::*;

use crate::seq_util::{first_index, lemma_first_index, position_of};

verus! {

/// A 20-byte account address.
pub type Address = [u8; 20];

/// A 32-byte word (a log topic or a transaction hash).
pub type Word = [u8; 32];

/// A 256-bit unsigned integer as four little-endian 64-bit limbs.
pub type U256 = [u64; 4];

/// The final status of an EVM frame.
#[derive(Clone, Copy, Debug, PartialEq, Eq, Structural)]
pub enum InstructionResult {
    Stop,
    Return,
    SelfDestruct,
    Suspend,
    Revert,
    CallTooDeep,
    OutOfFunds,
    CreateInitCodeStartingEF00,
    InvalidEOFInitCode,
    InvalidExtDelegateCallTarget,
    OutOfGas,
    MemoryOOG,
    MemoryLimitOOG,
    PrecompileOOG,
    InvalidOperandOOG,
    ReentrancySentryOOG,
    OpcodeNotFound,
    CallNotAllowedInsideStatic,
    StateChangeDuringStaticCall,
    InvalidFEOpcode,
    InvalidJump,
    NotActivated,
    StackUnderflow,
    StackOverflow,
    OutOfOffset,
    CreateCollision,
    OverflowPayment,
    PrecompileError,
    NonceOverflow,
    CreateContractSizeLimit,
    CreateContractStartingWithEF,
    CreateInitCodeSizeLimit,
    FatalExternalError,
    InvalidImmediateEncoding,
}

impl InstructionResult {
    /// The outcomes that count as success: stopping, returning, self-destructing
    /// or suspending for a sub-call.
    pub open spec fn spec_is_ok(self) -> bool {
        self is Stop || self is Return || self is SelfDestruct || self is Suspend
    }

    /// Whether this outcome is a success.
    pub fn is_ok(&self) -> (r: bool)
        ensures
            r == self.spec_is_ok(),
    {
        match self {
            InstructionResult::Stop
            | InstructionResult::Return
            | InstructionResult::SelfDestruct
            | InstructionResult::Suspend => true,
            _ => false,
        }
    }

    /// The variant's name, as its `Debug` form prints it.
    pub open spec fn spec_name(self) -> Seq<char> {
        match self {
            InstructionResult::Stop => "Stop"@,
            InstructionResult::Return => "Return"@,
            InstructionResult::SelfDestruct => "SelfDestruct"@,
            InstructionResult::Suspend => "Suspend"@,
            InstructionResult::Revert => "Revert"@,
            InstructionResult::CallTooDeep => "CallTooDeep"@,
            InstructionResult::OutOfFunds => "OutOfFunds"@,
            InstructionResult::CreateInitCodeStartingEF00 => "CreateInitCodeStartingEF00"@,
            InstructionResult::InvalidEOFInitCode => "InvalidEOFInitCode"@,
            InstructionResult::InvalidExtDelegateCallTarget => "InvalidExtDelegateCallTarget"@,
            InstructionResult::OutOfGas => "OutOfGas"@,
            InstructionResult::MemoryOOG => "MemoryOOG"@,
            InstructionResult::MemoryLimitOOG => "MemoryLimitOOG"@,
            InstructionResult::PrecompileOOG => "PrecompileOOG"@,
            InstructionResult::InvalidOperandOOG => "InvalidOperandOOG"@,
            InstructionResult::ReentrancySentryOOG => "ReentrancySentryOOG"@,
            InstructionResult::OpcodeNotFound => "OpcodeNotFound"@,
            InstructionResult::CallNotAllowedInsideStatic => "CallNotAllowedInsideStatic"@,
            InstructionResult::StateChangeDuringStaticCall => "StateChangeDuringStaticCall"@,
            InstructionResult::InvalidFEOpcode => "InvalidFEOpcode"@,
            InstructionResult::InvalidJump => "InvalidJump"@,
            InstructionResult::NotActivated => "NotActivated"@,
            InstructionResult::StackUnderflow => "StackUnderflow"@,
            InstructionResult::StackOverflow => "StackOverflow"@,
            InstructionResult::OutOfOffset => "OutOfOffset"@,
            InstructionResult::CreateCollision => "CreateCollision"@,
            InstructionResult::OverflowPayment => "OverflowPayment"@,
            InstructionResult::PrecompileError => "PrecompileError"@,
            InstructionResult::NonceOverflow => "NonceOverflow"@,
            InstructionResult::CreateContractSizeLimit => "CreateContractSizeLimit"@,
            InstructionResult::CreateContractStartingWithEF => "CreateContractStartingWithEF"@,
            InstructionResult::CreateInitCodeSizeLimit => "CreateInitCodeSizeLimit"@,
            InstructionResult::FatalExternalError => "FatalExternalError"@,
            InstructionResult::InvalidImmediateEncoding => "InvalidImmediateEncoding"@,
        }
    }

    /// The variant's name, as its `Debug` form prints it.
    pub fn name(&self) -> (r: &'static str)
        ensures
            r@ == self.spec_name(),
    {
        match self {
            InstructionResult::Stop => "Stop",
            InstructionResult::Return => "Return",
            InstructionResult::SelfDestruct => "SelfDestruct",
            InstructionResult::Suspend => "Suspend",
            InstructionResult::Revert => "Revert",
            InstructionResult::CallTooDeep => "CallTooDeep",
            InstructionResult::OutOfFunds => "OutOfFunds",
            InstructionResult::CreateInitCodeStartingEF00 => "CreateInitCodeStartingEF00",
            InstructionResult::InvalidEOFInitCode => "InvalidEOFInitCode",
            InstructionResult::InvalidExtDelegateCallTarget => "InvalidExtDelegateCallTarget",
            InstructionResult::OutOfGas => "OutOfGas",
            InstructionResult::MemoryOOG => "MemoryOOG",
            InstructionResult::MemoryLimitOOG => "MemoryLimitOOG",
            InstructionResult::PrecompileOOG => "PrecompileOOG",
            InstructionResult::InvalidOperandOOG => "InvalidOperandOOG",
            InstructionResult::ReentrancySentryOOG => "ReentrancySentryOOG",
            InstructionResult::OpcodeNotFound => "OpcodeNotFound",
            InstructionResult::CallNotAllowedInsideStatic => "CallNotAllowedInsideStatic",
            InstructionResult::StateChangeDuringStaticCall => "StateChangeDuringStaticCall",
            InstructionResult::InvalidFEOpcode => "InvalidFEOpcode",
            InstructionResult::InvalidJump => "InvalidJump",
            InstructionResult::NotActivated => "NotActivated",
            InstructionResult::StackUnderflow => "StackUnderflow",
            InstructionResult::StackOverflow => "StackOverflow",
            InstructionResult::OutOfOffset => "OutOfOffset",
            InstructionResult::CreateCollision => "CreateCollision",
            InstructionResult::OverflowPayment => "OverflowPayment",
            InstructionResult::PrecompileError => "PrecompileError",
            InstructionResult::NonceOverflow => "NonceOverflow",
            InstructionResult::CreateContractSizeLimit => "CreateContractSizeLimit",
            InstructionResult::CreateContractStartingWithEF => "CreateContractStartingWithEF",
            InstructionResult::CreateInitCodeSizeLimit => "CreateInitCodeSizeLimit",
            InstructionResult::FatalExternalError => "FatalExternalError",
            InstructionResult::InvalidImmediateEncoding => "InvalidImmediateEncoding",
        }
    }
}

/// The kind of a call frame.
#[derive(Clone, Copy, Debug, PartialEq, Eq, Structural)]
pub enum CallKind {
    Call,
    StaticCall,
    CallCode,
    DelegateCall,
    AuthCall,
    Create,
    Create2,
}

impl CallKind {
    /// Whether the frame creates a contract.
    pub fn is_any_create(&self) -> (r: bool)
        ensures
            r == (*self is Create || *self is Create2),
    {
        match self {
            CallKind::Create | CallKind::Create2 => true,
            _ => false,
        }
    }
}

/// One entry of a node's ordering: a log, a child call or an execution step,
/// each by its index in the node's `logs`, `children` or `trace.steps`.
#[derive(Clone, Copy, Debug, PartialEq, Eq, Structural)]
pub enum TraceMemberOrder {
    Log(usize),
    Call(usize),
    Step(usize),
}

/// Decoded call data: the function signature and its rendered arguments.
#[derive(Clone, Debug)]
pub struct DecodedCallData {
    pub signature: String,
    pub args: Vec<String>,
}

/// Decoded information about a call.
#[derive(Clone, Debug)]
pub struct DecodedCallTrace {
    pub label: Option<String>,
    pub return_data: Option<String>,
    pub call_data: Option<DecodedCallData>,
}

/// A decoded internal function call.
#[derive(Clone, Debug)]
pub struct DecodedInternalCall {
    pub func_name: String,
    pub args: Option<Vec<String>>,
    pub return_data: Option<Vec<String>>,
}

/// A decoded execution step: an internal call ending at the step with the
/// given index, or a single line of text.
#[derive(Clone, Debug)]
pub enum DecodedTraceStep {
    InternalCall(DecodedInternalCall, usize),
    Line(String),
}

/// An execution step of a call.
#[derive(Clone, Debug)]
pub struct CallTraceStep {
    pub gas_used: u64,
    pub decoded: Option<DecodedTraceStep>,
}

/// A decoded event.
#[derive(Clone, Debug)]
pub struct DecodedCallLog {
    pub name: Option<String>,
    pub params: Option<Vec<(String, String)>>,
}

/// An emitted event: its raw topics and data, and what was decoded of it.
#[derive(Clone, Debug)]
pub struct CallLog {
    pub topics: Vec<Word>,
    pub data: Vec<u8>,
    pub decoded: Option<DecodedCallLog>,
}

/// One call frame.
#[derive(Clone, Debug)]
pub struct CallTrace {
    pub depth: usize,
    pub success: bool,
    pub caller: Address,
    pub address: Address,
    pub maybe_precompile: Option<bool>,
    pub selfdestruct_address: Option<Address>,
    pub selfdestruct_refund_target: Option<Address>,
    pub selfdestruct_transferred_value: Option<U256>,
    pub kind: CallKind,
    pub value: U256,
    pub data: Vec<u8>,
    pub output: Vec<u8>,
    pub gas_used: u64,
    pub gas_limit: u64,
    pub status: Option<InstructionResult>,
    pub steps: Vec<CallTraceStep>,
    pub decoded: Option<DecodedCallTrace>,
}

/// A node of the arena.
#[derive(Clone, Debug)]
pub struct CallTraceNode {
    pub parent: Option<usize>,
    pub children: Vec<usize>,
    pub idx: usize,
    pub trace: CallTrace,
    pub logs: Vec<CallLog>,
    pub ordering: Vec<TraceMemberOrder>,
}

/// A call ends with a visible return value when it returned or reverted.
pub open spec fn is_returning(node: CallTraceNode) -> bool {
    node.trace.status == Some(InstructionResult::Return) || node.trace.status == Some(
        InstructionResult::Revert,
    )
}

/// Whether the node's call returned or reverted.
pub fn is_returning_node(node: &CallTraceNode) -> (r: bool)
    ensures
        r == is_returning(*node),
{
    match node.trace.status {
        Some(InstructionResult::Return) | Some(InstructionResult::Revert) => true,
        _ => false,
    }
}

/// The shape every arena that the explorer walks must have: node 0 is the
/// root, every other node has an earlier parent that lists it among its
/// children, every child points back at its parent, and every child call
/// appears in its parent's ordering.
pub open spec fn tree_wf(nodes: Seq<CallTraceNode>) -> bool {
    &&& nodes.len() >= 1
    &&& nodes[0].parent is None
    &&& forall|i: int| 0 <= i < nodes.len() ==> #[trigger] nodes[i].idx == i
    &&& forall|i: int|
        0 < i < nodes.len() ==> {
            &&& (#[trigger] nodes[i].parent) is Some
            &&& nodes[i].parent->0 < i
            &&& nodes[nodes[i].parent->0 as int].children@.contains(i as usize)
        }
    &&& forall|i: int, k: int|
        0 <= i < nodes.len() && 0 <= k < nodes[i].children@.len() ==> {
            &&& (#[trigger] nodes[i].children@[k]) < nodes.len()
            &&& nodes[nodes[i].children@[k] as int].parent == Some(i as usize)
        }
    &&& forall|i: int, j: int|
        0 <= i < nodes.len() && 0 <= j < nodes[i].ordering@.len() ==> match #[trigger] nodes[i].ordering@[j] {
            TraceMemberOrder::Call(k) => k < nodes[i].children@.len(),
            _ => true,
        }
    &&& forall|i: int, k: usize|
        0 <= i < nodes.len() && k < nodes[i].children@.len() ==> #[trigger] nodes[i].ordering@.contains(
            TraceMemberOrder::Call(k),
        )
}

/// Whether `ordering` holds the entry for child call `k`.
fn ordering_has_call(ordering: &[TraceMemberOrder], k: usize) -> (r: bool)
    ensures
        r == ordering@.contains(TraceMemberOrder::Call(k)),
{
    let mut j: usize = 0;
    while j < ordering.len()
        invariant
            j <= ordering.len(),
            forall|t: int| 0 <= t < j ==> ordering@[t] != TraceMemberOrder::Call(k),
        decreases ordering.len() - j,
    {
        if ordering[j] == TraceMemberOrder::Call(k) {
            return true;
        }
        j = j + 1;
    }
    false
}

/// The facts `tree_wf` states of node `i` alone.
pub open spec fn node_shape(nodes: Seq<CallTraceNode>, i: int) -> bool {
    &&& nodes[i].idx == i
    &&& i == 0 ==> nodes[i].parent is None
    &&& i > 0 ==> {
        &&& nodes[i].parent is Some
        &&& nodes[i].parent->0 < i
        &&& nodes[nodes[i].parent->0 as int].children@.contains(i as usize)
    }
    &&& forall|k: int|
        0 <= k < nodes[i].children@.len() ==> {
            &&& (#[trigger] nodes[i].children@[k]) < nodes.len()
            &&& nodes[nodes[i].children@[k] as int].parent == Some(i as usize)
        }
    &&& forall|j: int|
        0 <= j < nodes[i].ordering@.len() ==> match #[trigger] nodes[i].ordering@[j] {
            TraceMemberOrder::Call(k) => k < nodes[i].children@.len(),
            _ => true,
        }
    &&& forall|k: usize|
        k < nodes[i].children@.len() ==> #[trigger] nodes[i].ordering@.contains(
            TraceMemberOrder::Call(k),
        )
}

/// Checks `node_shape` for node `i`.
fn check_node_shape(nodes: &[CallTraceNode], i: usize) -> (r: bool)
    requires
        i < nodes@.len(),
    ensures
        r == node_shape(nodes@, i as int),
{
    let node = &nodes[i];
    if node.idx != i {
        return false;
    }
    if i == 0 {
        if node.parent.is_some() {
            return false;
        }
    } else {
        match node.parent {
            None => {
                return false;
            },
            Some(p) => {
                if p >= i {
                    return false;
                }
                if position_of(nodes[p].children.as_slice(), i).is_none() {
                    return false;
                }
            },
        }
    }
    let mut k: usize = 0;
    while k < node.children.len()
        invariant
            node == nodes@[i as int],
            k <= node.children@.len(),
            forall|t: int|
                0 <= t < k ==> {
                    &&& (#[trigger] node.children@[t]) < nodes@.len()
                    &&& nodes@[node.children@[t] as int].parent == Some(i)
                },
            forall|t: usize| t < k ==> #[trigger] node.ordering@.contains(TraceMemberOrder::Call(t)),
        decreases node.children.len() - k,
    {
        let c = node.children[k];
        if c >= nodes.len() {
            return false;
        }
        if nodes[c].parent != Some(i) {
            return false;
        }
        if !ordering_has_call(node.ordering.as_slice(), k) {
            return false;
        }
        k = k + 1;
    }
    let mut j: usize = 0;
    while j < node.ordering.len()
        invariant
            node == nodes@[i as int],
            j <= node.ordering@.len(),
            forall|t: int|
                0 <= t < j ==> match #[trigger] node.ordering@[t] {
                    TraceMemberOrder::Call(k) => k < node.children@.len(),
                    _ => true,
                },
        decreases node.ordering.len() - j,
    {
        match node.ordering[j] {
            TraceMemberOrder::Call(k) => {
                if k >= node.children.len() {
                    return false;
                }
            },
            _ => {},
        }
        j = j + 1;
    }
    true
}

/// `tree_wf` is `node_shape` of every node of a non-empty arena.
proof fn lemma_tree_wf_by_nodes(nodes: Seq<CallTraceNode>)
    ensures
        tree_wf(nodes) <==> (nodes.len() >= 1 && forall|i: int|
            0 <= i < nodes.len() ==> #[trigger] node_shape(nodes, i)),
{
    if tree_wf(nodes) {
        assert forall|i: int| 0 <= i < nodes.len() implies #[trigger] node_shape(nodes, i) by {
            assert(nodes[i].idx == i);
            if i > 0 {
                assert(nodes[i].parent is Some);
            }
            assert forall|k: usize| k < nodes[i].children@.len() implies #[trigger] nodes[i].ordering@.contains(
                TraceMemberOrder::Call(k),
            ) by {
                assert(nodes[i].children@[k as int] < nodes.len());
            }
        }
    }
    if nodes.len() >= 1 && forall|i: int| 0 <= i < nodes.len() ==> #[trigger] node_shape(nodes, i) {
        assert(node_shape(nodes, 0));
        assert forall|i: int| 0 <= i < nodes.len() implies #[trigger] nodes[i].idx == i by {
            assert(node_shape(nodes, i));
        }
        assert forall|i: int| 0 < i < nodes.len() implies {
            &&& (#[trigger] nodes[i].parent) is Some
            &&& nodes[i].parent->0 < i
            &&& nodes[nodes[i].parent->0 as int].children@.contains(i as usize)
        } by {
            assert(node_shape(nodes, i));
        }
        assert forall|i: int, k: int|
            0 <= i < nodes.len() && 0 <= k < nodes[i].children@.len() implies {
            &&& (#[trigger] nodes[i].children@[k]) < nodes.len()
            &&& nodes[nodes[i].children@[k] as int].parent == Some(i as usize)
        } by {
            assert(node_shape(nodes, i));
        }
        assert forall|i: int, j: int|
            0 <= i < nodes.len() && 0 <= j < nodes[i].ordering@.len() implies match #[trigger] nodes[i].ordering@[j] {
            TraceMemberOrder::Call(k) => k < nodes[i].children@.len(),
            _ => true,
        } by {
            assert(node_shape(nodes, i));
        }
        assert forall|i: int, k: usize|
            0 <= i < nodes.len() && k < nodes[i].children@.len() implies #[trigger] nodes[i].ordering@.contains(
            TraceMemberOrder::Call(k),
        ) by {
            assert(node_shape(nodes, i));
        }
    }
}

/// Checks whether `nodes` has the shape `tree_wf` describes.
pub fn check_tree_shape(nodes: &[CallTraceNode]) -> (r: bool)
    ensures
        r == tree_wf(nodes@),
{
    proof {
        lemma_tree_wf_by_nodes(nodes@);
    }
    if nodes.len() == 0 {
        return false;
    }
    let mut i: usize = 0;
    while i < nodes.len()
        invariant
            i <= nodes@.len(),
            forall|t: int| 0 <= t < i ==> #[trigger] node_shape(nodes@, t),
        decreases nodes.len() - i,
    {
        if !check_node_shape(nodes, i) {
            return false;
        }
        i = i + 1;
    }
    true
}

/// The arena of call nodes.
#[derive(Clone, Debug)]
pub struct CallTraceArena {
    pub nodes: Vec<CallTraceNode>,
}

impl CallTraceArena {
    /// The nodes of the arena.
    pub fn nodes(&self) -> (r: &[CallTraceNode])
        ensures
            r@ == self.nodes@,
    {
        self.nodes.as_slice()
    }

    /// Whether the arena has the shape the explorer needs.
    pub fn is_well_formed(&self) -> (r: bool)
        ensures
            r == self.wf(),
    {
        check_tree_shape(self.nodes.as_slice())
    }

    /// Whether the arena has the shape the explorer needs (see `tree_wf`).
    pub open spec fn wf(&self) -> bool {
        tree_wf(self.nodes@)
    }
}

} // verus!
