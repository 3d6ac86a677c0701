//! Parity-style transaction traces, as `trace_transaction` returns them: a
//! flat list of frames, each placed in the call tree by its trace address.

use vstd::prelude::*;

use crate::arena::{Address, U256};

verus! {

/// The kind of a parity call frame.
#[derive(Clone, Copy, Debug, PartialEq, Eq, Structural)]
pub enum CallType {
    Unspecified,
    Call,
    CallCode,
    DelegateCall,
    StaticCall,
    AuthCall,
}

/// How a parity create frame created its contract.
#[derive(Clone, Copy, Debug, PartialEq, Eq, Structural)]
pub enum CreationMethod {
    Unspecified,
    Create,
    Create2,
    EofCreate,
}

/// A call frame.
#[derive(Clone, Debug)]
pub struct CallAction {
    pub from: Address,
    pub call_type: CallType,
    pub gas: u64,
    pub input: Vec<u8>,
    pub to: Address,
    pub value: U256,
}

/// A contract creation frame.
#[derive(Clone, Debug)]
pub struct CreateAction {
    pub from: Address,
    pub gas: u64,
    pub init: Vec<u8>,
    pub value: U256,
    pub creation_method: CreationMethod,
}

/// The kind of a block reward.
#[derive(Clone, Copy, Debug, PartialEq, Eq, Structural)]
pub enum RewardType {
    Block,
    Uncle,
}

/// A block reward.
#[derive(Clone, Debug)]
pub struct RewardAction {
    pub author: Address,
    pub reward_type: RewardType,
    pub value: U256,
}

/// A self-destruct.
#[derive(Clone, Debug)]
pub struct SelfdestructAction {
    pub address: Address,
    pub balance: U256,
    pub refund_address: Address,
}

/// What a parity frame did.
#[derive(Clone, Debug)]
pub enum Action {
    Call(CallAction),
    Create(CreateAction),
    Selfdestruct(SelfdestructAction),
    Reward(RewardAction),
}

/// The outcome of a call frame.
#[derive(Clone, Debug)]
pub struct CallOutput {
    pub gas_used: u64,
    pub output: Vec<u8>,
}

/// The outcome of a create frame.
#[derive(Clone, Debug)]
pub struct CreateOutput {
    pub address: Address,
    pub code: Vec<u8>,
    pub gas_used: u64,
}

/// The outcome of a frame.
#[derive(Clone, Debug)]
pub enum TraceOutput {
    Create(CreateOutput),
    Call(CallOutput),
}

/// One parity frame: what it did, how it ended, and its place in the call
/// tree (`trace_address`: the child index at each level below the root).
#[derive(Clone, Debug)]
pub struct TransactionTrace {
    pub action: Action,
    pub error: Option<String>,
    pub result: Option<TraceOutput>,
    pub subtraces: usize,
    pub trace_address: Vec<usize>,
}

/// The frames of one transaction.
#[derive(Clone, Debug)]
pub struct ParityTraces(pub Vec<TransactionTrace>);

impl From<Vec<TransactionTrace>> for ParityTraces {
    fn from(traces: Vec<TransactionTrace>) -> (r: Self) {
        ParityTraces(traces)
    }
}

impl vstd::std_specs::convert::FromSpecImpl<Vec<TransactionTrace>> for ParityTraces {
    open spec fn obeys_from_spec() -> bool {
        true
    }

    open spec fn from_spec(traces: Vec<TransactionTrace>) -> Self {
        ParityTraces(traces)
    }
}

} // verus!
