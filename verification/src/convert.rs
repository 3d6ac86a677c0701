//! Conversion of parity-style traces into the call-trace arena.
//!
//! Each frame becomes a node in input order. A frame's parent is the first
//! earlier frame whose trace address is the frame's address without its last
//! index; a node's children are ordered by the last index of their trace
//! addresses (frames may arrive out of order), and its ordering lists them
//! as child calls in that order. Parity traces carry no logs.

use vstd::prelude::*;
use vstd::std_specs::convert::TryFromSpecImpl;

use crate::arena::{
    tree_wf, Address, CallKind, CallTrace, CallTraceArena, CallTraceNode, InstructionResult,
    TraceMemberOrder, U256,
};
use crate::display::{no_steps, unique_entries};
use crate::parity::{
    Action, CallType, CreationMethod, ParityTraces, TraceOutput, TransactionTrace,
};
use crate::seq_util::{first_index, lemma_first_index, lemma_first_index_unique};
use crate::text::{contains_str, has_substring, push_char, push_str, usize_to_decimal, decimal};

verus! {

/// Why parity traces could not be converted.
#[derive(Debug)]
pub enum ConvertError {
    /// There were no frames.
    EmptyTraces,
    /// The first frame was not the root (its trace address was not empty).
    RootNotFirst,
    /// No earlier frame has the parent address of the frame with this trace address.
    ParentNotFound(Vec<usize>),
    /// A frame was a block reward, which is no call.
    RewardAction,
}

/// `[a, b, c]`, the way `{:?}` prints a list of indices.
pub open spec fn debug_list(s: Seq<usize>) -> Seq<char>
    decreases s.len(),
{
    if s.len() == 0 {
        "[]"@
    } else {
        seq!['['] + debug_items(s) + seq![']']
    }
}

/// The items of a list joined by `, `.
pub open spec fn debug_items(s: Seq<usize>) -> Seq<char>
    decreases s.len(),
{
    if s.len() == 0 {
        seq![]
    } else if s.len() == 1 {
        decimal(s[0] as nat)
    } else {
        debug_items(s.drop_last()) + ", "@ + decimal(s.last() as nat)
    }
}

impl ConvertError {
    /// The message describing the error.
    pub open spec fn message(&self) -> Seq<char> {
        match self {
            ConvertError::EmptyTraces => "Cannot convert empty trace vector"@,
            ConvertError::RootNotFirst => "First trace must be the root with empty trace_address"@,
            ConvertError::ParentNotFound(a) => "Parent trace not found for trace_address "@
                + debug_list(a@),
            ConvertError::RewardAction => "Cannot convert Reward action to CallTrace"@,
        }
    }

    /// The message describing the error.
    pub fn to_string(&self) -> (r: String)
        ensures
            r@ == self.message(),
    {
        match self {
            ConvertError::EmptyTraces => String::from_str("Cannot convert empty trace vector"),
            ConvertError::RootNotFirst => String::from_str(
                "First trace must be the root with empty trace_address",
            ),
            ConvertError::ParentNotFound(a) => {
                let mut s = String::from_str("Parent trace not found for trace_address ");
                let list = debug_list_string(a.as_slice());
                push_str(&mut s, list.as_str());
                s
            },
            ConvertError::RewardAction => String::from_str(
                "Cannot convert Reward action to CallTrace",
            ),
        }
    }
}

/// Writes a list of indices as `{:?}` does.
fn debug_list_string(a: &[usize]) -> (r: String)
    ensures
        r@ == debug_list(a@),
{
    if a.len() == 0 {
        return String::from_str("[]");
    }
    let mut s = String::new();
    push_char(&mut s, '[');
    let mut t: usize = 0;
    while t < a.len()
        invariant
            0 < a@.len(),
            t <= a@.len(),
            s@ == seq!['['] + debug_items(a@.take(t as int)),
        decreases a.len() - t,
    {
        proof {
            assert(a@.take(t + 1).drop_last() =~= a@.take(t as int));
        }
        if t > 0 {
            push_str(&mut s, ", ");
        } else {
            proof {
                assert(a@.take(0) =~= seq![]);
                assert(debug_items(a@.take(1)) == decimal(a@[0] as nat));
            }
        }
        let d = usize_to_decimal(a[t]);
        push_str(&mut s, d.as_str());
        proof {
            if t > 0 {
                assert(s@ == seq!['['] + debug_items(a@.take(t as int)) + ", "@ + decimal(a@[t as int] as nat));
            }
        }
        t = t + 1;
    }
    proof {
        assert(a@.take(a@.len() as int) =~= a@);
    }
    push_char(&mut s, ']');
    s
}

/// The call kind of a parity call type.
pub open spec fn call_kind_of(call_type: CallType) -> CallKind {
    match call_type {
        CallType::Unspecified => CallKind::Call,
        CallType::Call => CallKind::Call,
        CallType::CallCode => CallKind::CallCode,
        CallType::DelegateCall => CallKind::DelegateCall,
        CallType::StaticCall => CallKind::StaticCall,
        CallType::AuthCall => CallKind::AuthCall,
    }
}

/// Converts a parity CallType to a CallKind.
pub fn call_type_to_call_kind(call_type: CallType) -> (k: CallKind)
    ensures
        k == call_kind_of(call_type),
{
    match call_type {
        CallType::Unspecified => CallKind::Call,
        CallType::Call => CallKind::Call,
        CallType::CallCode => CallKind::CallCode,
        CallType::DelegateCall => CallKind::DelegateCall,
        CallType::StaticCall => CallKind::StaticCall,
        CallType::AuthCall => CallKind::AuthCall,
    }
}

/// The call kind of a parity creation method.
pub open spec fn create_kind_of(method: CreationMethod) -> CallKind {
    match method {
        CreationMethod::Create2 => CallKind::Create2,
        _ => CallKind::Create,
    }
}

/// Converts a parity CreationMethod to a CallKind.
pub fn creation_method_to_call_kind(creation_method: CreationMethod) -> (k: CallKind)
    ensures
        k == create_kind_of(creation_method),
{
    match creation_method {
        CreationMethod::Unspecified => CallKind::Create,
        CreationMethod::Create => CallKind::Create,
        CreationMethod::Create2 => CallKind::Create2,
        CreationMethod::EofCreate => CallKind::Create,
    }
}

/// The status of a failed frame: out of gas when the message says
/// `OutOfGas` and no `Revert`/`revert`, a revert otherwise.
pub open spec fn error_status(msg: Seq<char>) -> InstructionResult {
    if has_substring(msg, "Revert"@) || has_substring(msg, "revert"@) {
        InstructionResult::Revert
    } else if has_substring(msg, "OutOfGas"@) {
        InstructionResult::OutOfGas
    } else {
        InstructionResult::Revert
    }
}

/// Converts a parity error string to an InstructionResult.
pub fn error_to_instruction_result(error_msg: &str) -> (r: InstructionResult)
    ensures
        r == error_status(error_msg@),
{
    if contains_str(error_msg, "Revert") || contains_str(error_msg, "revert") {
        InstructionResult::Revert
    } else if contains_str(error_msg, "OutOfGas") {
        InstructionResult::OutOfGas
    } else {
        InstructionResult::Revert
    }
}

/// The returned bytes of a frame (the output of a call, the code of a
/// create), empty without a result.
pub open spec fn result_output(t: TransactionTrace) -> Seq<u8> {
    match t.result {
        Some(TraceOutput::Call(c)) => c.output@,
        Some(TraceOutput::Create(c)) => c.code@,
        None => seq![],
    }
}

/// The gas a frame used, zero without a result.
pub open spec fn result_gas_used(t: TransactionTrace) -> u64 {
    match t.result {
        Some(TraceOutput::Call(c)) => c.gas_used,
        Some(TraceOutput::Create(c)) => c.gas_used,
        None => 0,
    }
}

/// The address a create frame's result reports, the zero address otherwise.
pub open spec fn created_address(t: TransactionTrace) -> Address {
    match t.result {
        Some(TraceOutput::Create(c)) => c.address,
        _ => zero_address(),
    }
}

/// The all-zero address.
pub open spec fn zero_address() -> Address {
    vstd::array::spec_array_fill_for_copy_type::<u8, 20>(0u8)
}

/// The status of a frame: the error's status, or a return without error.
pub open spec fn frame_status(t: TransactionTrace) -> InstructionResult {
    match t.error {
        Some(e) => error_status(e@),
        None => InstructionResult::Return,
    }
}

/// `ct` is the call frame that parity frame `t` describes.
pub open spec fn converts_to(t: TransactionTrace, ct: CallTrace) -> bool {
    &&& ct.depth == t.trace_address@.len()
    &&& ct.success == (t.error is None)
    &&& ct.steps@.len() == 0
    &&& ct.decoded is None
    &&& match t.action {
        Action::Call(c) => {
            &&& ct.caller == c.from
            &&& ct.address == c.to
            &&& ct.kind == call_kind_of(c.call_type)
            &&& ct.value == c.value
            &&& ct.data@ == c.input@
            &&& ct.gas_limit == c.gas
            &&& ct.output@ == result_output(t)
            &&& ct.gas_used == result_gas_used(t)
            &&& ct.status == Some(frame_status(t))
            &&& ct.maybe_precompile is None
            &&& ct.selfdestruct_address is None
            &&& ct.selfdestruct_refund_target is None
            &&& ct.selfdestruct_transferred_value is None
        },
        Action::Create(c) => {
            &&& ct.caller == c.from
            &&& ct.address == created_address(t)
            &&& ct.kind == create_kind_of(c.creation_method)
            &&& ct.value == c.value
            &&& ct.data@ == c.init@
            &&& ct.gas_limit == c.gas
            &&& ct.output@ == result_output(t)
            &&& ct.gas_used == result_gas_used(t)
            &&& ct.status == Some(frame_status(t))
            &&& ct.maybe_precompile is None
            &&& ct.selfdestruct_address is None
            &&& ct.selfdestruct_refund_target is None
            &&& ct.selfdestruct_transferred_value is None
        },
        Action::Selfdestruct(s) => {
            &&& ct.caller == s.address
            &&& ct.address == s.refund_address
            &&& ct.kind == CallKind::Call
            &&& ct.value == s.balance
            &&& ct.data@.len() == 0
            &&& ct.gas_limit == 0
            &&& ct.output@.len() == 0
            &&& ct.gas_used == 0
            &&& ct.status == Some(InstructionResult::SelfDestruct)
            &&& ct.maybe_precompile == Some(false)
            &&& ct.selfdestruct_address == Some(s.address)
            &&& ct.selfdestruct_refund_target == Some(s.refund_address)
            &&& ct.selfdestruct_transferred_value == Some(s.balance)
        },
        Action::Reward(_) => false,
    }
}

/// A copy of a slice of copyable values.
fn copy_vec<T: Copy>(v: &[T]) -> (r: Vec<T>)
    ensures
        r@ == v@,
{
    let mut r: Vec<T> = Vec::new();
    let mut i: usize = 0;
    while i < v.len()
        invariant
            i <= v@.len(),
            r@ == v@.take(i as int),
        decreases v.len() - i,
    {
        r.push(v[i]);
        i = i + 1;
        proof {
            assert(r@ =~= v@.take(i as int));
        }
    }
    proof {
        assert(v@.take(v@.len() as int) =~= v@);
    }
    r
}

/// The returned bytes of a frame.
fn output_of(result: &Option<TraceOutput>) -> (r: (Vec<u8>, u64))
    ensures
        ({
            let t = TransactionTrace {
                action: Action::Reward(arbitrary()),
                error: None,
                result: *result,
                subtraces: 0,
                trace_address: arbitrary(),
            };
            r.0@ == result_output(t) && r.1 == result_gas_used(t)
        }),
{
    match result {
        Some(TraceOutput::Call(c)) => (copy_vec(c.output.as_slice()), c.gas_used),
        Some(TraceOutput::Create(c)) => (copy_vec(c.code.as_slice()), c.gas_used),
        None => (Vec::new(), 0),
    }
}

/// The call frame that a parity frame describes; block rewards are none.
pub fn convert_trace(trace: &TransactionTrace) -> (r: Result<CallTrace, ConvertError>)
    ensures
        (r is Err) == (trace.action is Reward),
        match r {
            Ok(ct) => converts_to(*trace, ct),
            Err(e) => e is RewardAction,
        },
{
    let depth = trace.trace_address.len();
    let success = trace.error.is_none();
    let (caller, address, kind, value, data, gas_limit) = match &trace.action {
        Action::Call(call) => (
            call.from,
            call.to,
            call_type_to_call_kind(call.call_type),
            call.value,
            copy_vec(call.input.as_slice()),
            call.gas,
        ),
        Action::Create(create) => {
            let address = match &trace.result {
                Some(TraceOutput::Create(c)) => c.address,
                _ => [0u8; 20],
            };
            (
                create.from,
                address,
                creation_method_to_call_kind(create.creation_method),
                create.value,
                copy_vec(create.init.as_slice()),
                create.gas,
            )
        },
        Action::Selfdestruct(selfdestruct) => {
            return Ok(
                CallTrace {
                    depth,
                    success,
                    caller: selfdestruct.address,
                    address: selfdestruct.refund_address,
                    maybe_precompile: Some(false),
                    selfdestruct_address: Some(selfdestruct.address),
                    selfdestruct_refund_target: Some(selfdestruct.refund_address),
                    selfdestruct_transferred_value: Some(selfdestruct.balance),
                    kind: CallKind::Call,
                    value: selfdestruct.balance,
                    data: Vec::new(),
                    output: Vec::new(),
                    gas_used: 0,
                    gas_limit: 0,
                    status: Some(InstructionResult::SelfDestruct),
                    steps: Vec::new(),
                    decoded: None,
                },
            );
        },
        Action::Reward(_) => {
            return Err(ConvertError::RewardAction);
        },
    };
    let (output, gas_used) = output_of(&trace.result);
    let status = match &trace.error {
        Some(error_msg) => Some(error_to_instruction_result(error_msg.as_str())),
        None => Some(InstructionResult::Return),
    };
    Ok(
        CallTrace {
            depth,
            success,
            caller,
            address,
            maybe_precompile: None,
            selfdestruct_address: None,
            selfdestruct_refund_target: None,
            selfdestruct_transferred_value: None,
            kind,
            value,
            data,
            output,
            gas_used,
            gas_limit,
            status,
            steps: Vec::new(),
            decoded: None,
        },
    )
}

/// The trace addresses of the frames.
pub open spec fn addresses(ts: Seq<TransactionTrace>) -> Seq<Seq<usize>> {
    Seq::new(ts.len(), |k: int| ts[k].trace_address@)
}

/// Some frame before frame `idx` has the parent address of frame `idx`.
pub open spec fn has_parent_before(ts: Seq<TransactionTrace>, idx: int) -> bool {
    addresses(ts).take(idx).contains(ts[idx].trace_address@.drop_last())
}

/// The parent of frame `idx`: none for an empty trace address, else the
/// first earlier frame with the parent address.
pub open spec fn parent_of(ts: Seq<TransactionTrace>, idx: int) -> Option<usize> {
    if ts[idx].trace_address@.len() == 0 {
        None
    } else {
        Some(first_index(addresses(ts).take(idx), ts[idx].trace_address@.drop_last()) as usize)
    }
}

/// Frame `idx` converts: it is no reward, and it is a root or has a parent before it.
pub open spec fn frame_ok(ts: Seq<TransactionTrace>, idx: int) -> bool {
    &&& !(ts[idx].action is Reward)
    &&& (ts[idx].trace_address@.len() == 0 || has_parent_before(ts, idx))
}

/// The position of frame `c` among its siblings: the last index of its trace address.
pub open spec fn sibling_key(ts: Seq<TransactionTrace>, c: usize) -> usize {
    if ts[c as int].trace_address@.len() > 0 {
        ts[c as int].trace_address@.last()
    } else {
        0
    }
}

/// Frame `a` comes before frame `b` among siblings: a smaller position, or
/// the same position and an earlier frame.
pub open spec fn sibling_before(ts: Seq<TransactionTrace>, a: usize, b: usize) -> bool {
    sibling_key(ts, a) < sibling_key(ts, b) || (sibling_key(ts, a) == sibling_key(ts, b) && a < b)
}

/// `ch` lists exactly the frames whose parent is `p`, ordered by position
/// among siblings (frames at the same position in input order).
pub open spec fn children_of(ts: Seq<TransactionTrace>, p: usize, ch: Seq<usize>) -> bool {
    &&& forall|c: usize| #[trigger]
        ch.contains(c) <==> (c < ts.len() && parent_of(ts, c as int) == Some(p))
    &&& forall|a: int, b: int|
        0 <= a < b < ch.len() ==> sibling_before(ts, #[trigger] ch[a], #[trigger] ch[b])
}

/// The ordering of a node whose entries are its `n` child calls in order.
pub open spec fn calls_in_order(n: nat) -> Seq<TraceMemberOrder> {
    Seq::new(n, |k: int| TraceMemberOrder::Call(k as usize))
}

/// Node `idx` of `nodes` is frame `idx` of `ts`, placed in the tree.
pub open spec fn node_from_frame(ts: Seq<TransactionTrace>, nodes: Seq<CallTraceNode>, idx: int) -> bool {
    let node = nodes[idx];
    &&& node.idx == idx
    &&& converts_to(ts[idx], node.trace)
    &&& node.parent == parent_of(ts, idx)
    &&& node.logs@.len() == 0
    &&& children_of(ts, idx as usize, node.children@)
    &&& node.ordering@ == calls_in_order(node.children@.len())
}

/// `arena` holds one node per frame, each as `node_from_frame` says.
pub open spec fn arena_from_frames(ts: Seq<TransactionTrace>, arena: CallTraceArena) -> bool {
    &&& arena.nodes@.len() == ts.len()
    &&& forall|idx: int| 0 <= idx < ts.len() ==> #[trigger] node_from_frame(ts, arena.nodes@, idx)
}

/// Whether `a` is `b` without its last element.
fn is_parent_address(a: &[usize], b: &[usize]) -> (r: bool)
    requires
        b@.len() > 0,
    ensures
        r == (a@ == b@.drop_last()),
{
    if a.len() != b.len() - 1 {
        return false;
    }
    let mut i: usize = 0;
    while i < a.len()
        invariant
            a@.len() == b@.len() - 1,
            i <= a@.len(),
            forall|t: int| 0 <= t < i ==> a@[t] == b@[t],
        decreases a.len() - i,
    {
        if a[i] != b[i] {
            assert(b@.drop_last()[i as int] == b@[i as int]);
            return false;
        }
        i = i + 1;
    }
    assert(a@ =~= b@.drop_last());
    true
}

/// The first frame before frame `idx` that has its parent address, if any.
fn find_parent(traces: &[TransactionTrace], idx: usize) -> (r: Option<usize>)
    requires
        idx < traces@.len(),
        traces@[idx as int].trace_address@.len() > 0,
    ensures
        match r {
            Some(j) => has_parent_before(traces@, idx as int) && parent_of(traces@, idx as int)
                == Some(j),
            None => !has_parent_before(traces@, idx as int),
        },
{
    let ghost a = addresses(traces@).take(idx as int);
    let ghost target = traces@[idx as int].trace_address@.drop_last();
    let mut j: usize = 0;
    while j < idx
        invariant
            idx < traces@.len(),
            traces@[idx as int].trace_address@.len() > 0,
            a == addresses(traces@).take(idx as int),
            target == traces@[idx as int].trace_address@.drop_last(),
            j <= idx,
            forall|t: int| 0 <= t < j ==> a[t] != target,
        decreases idx - j,
    {
        if is_parent_address(
            traces[j].trace_address.as_slice(),
            traces[idx].trace_address.as_slice(),
        ) {
            proof {
                assert(a[j as int] == target);
                lemma_first_index_unique(a, target, j as int);
            }
            return Some(j);
        }
        j = j + 1;
    }
    proof {
        if a.contains(target) {
            let w = choose|w: int| 0 <= w < a.len() && a[w] == target;
            assert(a[w] != target);
        }
    }
    None
}

/// The frames whose parent is `p`, ordered by position among siblings.
fn children_sorted(ts: &[TransactionTrace], parents: &[Option<usize>], keys: &[usize], p: usize) -> (r: Vec<
    usize,
>)
    requires
        parents@.len() == ts@.len(),
        keys@.len() == ts@.len(),
        forall|c: int| 0 <= c < ts@.len() ==> #[trigger] parents@[c] == parent_of(ts@, c),
        forall|c: int| 0 <= c < ts@.len() ==> #[trigger] keys@[c] == sibling_key(ts@, c as usize),
    ensures
        children_of(ts@, p, r@),
{
    let mut ch: Vec<usize> = Vec::new();
    let mut c: usize = 0;
    while c < parents.len()
        invariant
            parents@.len() == ts@.len(),
            keys@.len() == ts@.len(),
            forall|c: int| 0 <= c < ts@.len() ==> #[trigger] parents@[c] == parent_of(ts@, c),
            forall|c: int| 0 <= c < ts@.len() ==> #[trigger] keys@[c] == sibling_key(ts@, c as usize),
            c <= ts@.len(),
            forall|x: usize| #[trigger]
                ch@.contains(x) <==> (x < c && parent_of(ts@, x as int) == Some(p)),
            forall|a: int, b: int|
                0 <= a < b < ch@.len() ==> sibling_before(ts@, #[trigger] ch@[a], #[trigger] ch@[b]),
        decreases parents.len() - c,
    {
        proof {
            assert forall|t: int| 0 <= t < ch@.len() implies #[trigger] ch@[t] < c by {
                assert(ch@.contains(ch@[t]));
            }
        }
        if parents[c] == Some(p) {
            // insert after every child whose position is not greater
            let kc = keys[c];
            let mut pos: usize = 0;
            while pos < ch.len() && keys[ch[pos]] <= kc
                invariant
                    keys@.len() == ts@.len(),
                    forall|c: int| 0 <= c < ts@.len() ==> #[trigger] keys@[c] == sibling_key(ts@, c as usize),
                    forall|x: usize| #[trigger] ch@.contains(x) ==> x < c,
                    forall|t: int| 0 <= t < ch@.len() ==> #[trigger] ch@[t] < c,
                    c < ts@.len(),
                    kc == sibling_key(ts@, c),
                    pos <= ch@.len(),
                    forall|t: int| 0 <= t < pos ==> sibling_key(ts@, #[trigger] ch@[t]) <= kc,
                decreases ch.len() - pos,
            {
                proof {
                    assert(ch@.contains(ch@[pos as int]));
                }
                pos = pos + 1;
            }
            proof {
                assert forall|t: int| pos <= t < ch@.len() implies sibling_key(ts@, #[trigger] ch@[t]) > kc by {
                    if pos < ch@.len() {
                        assert(ch@.contains(ch@[pos as int]));
                        if t > pos {
                            assert(sibling_before(ts@, ch@[pos as int], ch@[t]));
                        }
                    }
                }
                assert forall|t: int| 0 <= t < pos implies sibling_before(ts@, #[trigger] ch@[t], c) by {
                    assert(ch@.contains(ch@[t]));
                }
            }
            let ghost old_ch = ch@;
            ch.insert(pos, c);
            proof {
                assert(ch@ == old_ch.insert(pos as int, c));
                assert forall|x: usize| #[trigger] ch@.contains(x) <==> (x < c + 1 && parent_of(ts@, x as int) == Some(p)) by {
                    if ch@.contains(x) {
                        let w = choose|w: int| 0 <= w < ch@.len() && ch@[w] == x;
                        if w < pos {
                            assert(old_ch[w] == x);
                            assert(old_ch.contains(x));
                        } else if w > pos {
                            assert(old_ch[w - 1] == x);
                            assert(old_ch.contains(x));
                        }
                    }
                    if x < c + 1 && parent_of(ts@, x as int) == Some(p) {
                        if x == c {
                            assert(ch@[pos as int] == c);
                        } else {
                            assert(old_ch.contains(x));
                            let w = choose|w: int| 0 <= w < old_ch.len() && old_ch[w] == x;
                            if w < pos {
                                assert(ch@[w] == x);
                            } else {
                                assert(ch@[w + 1] == x);
                            }
                        }
                    }
                }
                assert forall|a: int, b: int| 0 <= a < b < ch@.len() implies sibling_before(ts@, #[trigger] ch@[a], #[trigger] ch@[b]) by {
                    if b < pos {
                        assert(ch@[a] == old_ch[a] && ch@[b] == old_ch[b]);
                    } else if b == pos {
                        assert(ch@[a] == old_ch[a]);
                    } else if a < pos {
                        assert(ch@[a] == old_ch[a] && ch@[b] == old_ch[b - 1]);
                        assert(old_ch.contains(old_ch[b - 1]));
                        assert(sibling_key(ts@, old_ch[b - 1]) > kc);
                        assert(sibling_before(ts@, old_ch[a], c));
                    } else if a == pos {
                        assert(ch@[b] == old_ch[b - 1]);
                    } else {
                        assert(ch@[a] == old_ch[a - 1] && ch@[b] == old_ch[b - 1]);
                    }
                }
            }
        } else {
            proof {
                assert forall|x: usize| #[trigger] ch@.contains(x) <==> (x < c + 1 && parent_of(ts@, x as int) == Some(p)) by {
                    if x == c {
                        assert(parents@[c as int] != Some(p));
                    }
                }
            }
        }
        c = c + 1;
    }
    ch
}

/// The ordering listing `n` child calls in order.
fn calls_ordering(n: usize) -> (r: Vec<TraceMemberOrder>)
    ensures
        r@ == calls_in_order(n as nat),
{
    let mut r: Vec<TraceMemberOrder> = Vec::new();
    let mut k: usize = 0;
    while k < n
        invariant
            k <= n,
            r@ == calls_in_order(k as nat),
        decreases n - k,
    {
        r.push(TraceMemberOrder::Call(k));
        k = k + 1;
        proof {
            assert(r@ =~= calls_in_order(k as nat));
        }
    }
    r
}

/// When frame `m` is the first that does not convert, it is the only frame
/// that fails with every earlier frame converting.
proof fn lemma_first_failure(ts: Seq<TransactionTrace>, m: int)
    requires
        0 <= m < ts.len(),
        !frame_ok(ts, m),
        forall|k: int| 0 <= k < m ==> #[trigger] frame_ok(ts, k),
    ensures
        !(forall|idx: int| 0 <= idx < ts.len() ==> #[trigger] frame_ok(ts, idx)),
        forall|x: int|
            0 <= x < ts.len() && !#[trigger] frame_ok(ts, x) && (forall|k: int|
                0 <= k < x ==> frame_ok(ts, k)) ==> x == m,
{
    assert forall|x: int|
        0 <= x < ts.len() && !#[trigger] frame_ok(ts, x) && (forall|k: int|
            0 <= k < x ==> frame_ok(ts, k)) implies x == m by {
        if x < m {
            assert(frame_ok(ts, x));
        } else if x > m {
            assert(frame_ok(ts, m));
        }
    }
}

/// What converting parity frames gives: no frames, or a first frame that
/// is not the root, fail at once; otherwise the conversion succeeds exactly
/// when every frame can be placed, builds the arena of the frames, and
/// else fails at the first frame that cannot be placed: a block reward, or
/// a frame with no parent before it.
pub open spec fn converted(ts: Seq<TransactionTrace>, r: Result<CallTraceArena, ConvertError>) -> bool {
    &&& ts.len() == 0 ==> (r matches Err(ConvertError::EmptyTraces))
    &&& ts.len() > 0 && ts[0].trace_address@.len() != 0 ==> (r matches Err(ConvertError::RootNotFirst))
    &&& ts.len() > 0 && ts[0].trace_address@.len() == 0 ==> {
        &&& (r is Ok) <==> (forall|idx: int| 0 <= idx < ts.len() ==> #[trigger] frame_ok(ts, idx))
        &&& (r matches Ok(arena) ==> arena_from_frames(ts, arena))
        &&& forall|m: int|
            0 <= m < ts.len() && !#[trigger] frame_ok(ts, m) && (forall|k: int|
                0 <= k < m ==> frame_ok(ts, k)) ==> if ts[m].action is Reward {
                (r matches Err(ConvertError::RewardAction))
            } else {
                (r matches Err(ConvertError::ParentNotFound(a)) && a@ == ts[m].trace_address@)
            }
    }
}

/// Converts parity frames into an arena: one node per frame in input order,
/// each under its parent with its children in sibling order.
///
/// Fails on no frames, on a first frame that is not the root, and otherwise
/// at the first frame that is a block reward or has no parent before it.
pub fn convert_parity_traces(parity_traces: ParityTraces) -> (r: Result<CallTraceArena, ConvertError>)
    ensures
        converted(parity_traces.0@, r),
{
    let traces = parity_traces.0;
    let ghost ts = traces@;
    if traces.len() == 0 {
        return Err(ConvertError::EmptyTraces);
    }
    if traces[0].trace_address.len() != 0 {
        return Err(ConvertError::RootNotFirst);
    }
    let n = traces.len();
    // place every frame in the tree, failing at the first frame that cannot be
    let mut parents: Vec<Option<usize>> = Vec::new();
    let mut keys: Vec<usize> = Vec::new();
    let mut idx: usize = 0;
    while idx < n
        invariant
            n == ts.len(),
            ts == traces@,
            ts == parity_traces.0@,
            ts.len() > 0,
            ts[0].trace_address@.len() == 0,
            idx <= n,
            parents@.len() == idx,
            keys@.len() == idx,
            forall|c: int| 0 <= c < idx ==> #[trigger] frame_ok(ts, c),
            forall|c: int| 0 <= c < idx ==> #[trigger] parents@[c] == parent_of(ts, c),
            forall|c: int| 0 <= c < idx ==> #[trigger] keys@[c] == sibling_key(ts, c as usize),
        decreases n - idx,
    {
        let trace = &traces[idx];
        if let Action::Reward(_) = &trace.action {
            proof {
                lemma_first_failure(ts, idx as int);
            }
            return Err(ConvertError::RewardAction);
        }
        let depth = trace.trace_address.len();
        if depth == 0 {
            parents.push(None);
            keys.push(0);
        } else {
            match find_parent(traces.as_slice(), idx) {
                Some(j) => {
                    parents.push(Some(j));
                },
                None => {
                    proof {
                        lemma_first_failure(ts, idx as int);
                    }
                    return Err(ConvertError::ParentNotFound(copy_vec(trace.trace_address.as_slice())));
                },
            }
            keys.push(trace.trace_address[depth - 1]);
        }
        proof {
            assert(frame_ok(ts, idx as int));
        }
        idx = idx + 1;
    }
    // build the nodes
    let mut nodes: Vec<CallTraceNode> = Vec::new();
    let mut idx: usize = 0;
    while idx < n
        invariant
            n == ts.len(),
            ts == traces@,
            ts == parity_traces.0@,
            idx <= n,
            parents@.len() == n,
            keys@.len() == n,
            forall|c: int| 0 <= c < n ==> #[trigger] frame_ok(ts, c),
            forall|c: int| 0 <= c < n ==> #[trigger] parents@[c] == parent_of(ts, c),
            forall|c: int| 0 <= c < n ==> #[trigger] keys@[c] == sibling_key(ts, c as usize),
            nodes@.len() == idx,
            forall|c: int| 0 <= c < idx ==> #[trigger] node_from_frame(ts, nodes@, c),
        decreases n - idx,
    {
        let trace = &traces[idx];
        let call_trace = match convert_trace(trace) {
            Ok(ct) => ct,
            Err(e) => {
                proof {
                    assert(frame_ok(ts, idx as int));
                }
                return Err(e);
            },
        };
        let children = children_sorted(traces.as_slice(), parents.as_slice(), keys.as_slice(), idx);
        let ordering = calls_ordering(children.len());
        let node = CallTraceNode {
            parent: parents[idx],
            children,
            idx,
            trace: call_trace,
            logs: Vec::new(),
            ordering,
        };
        let ghost old_nodes = nodes@;
        nodes.push(node);
        proof {
            assert forall|c: int| 0 <= c < idx + 1 implies #[trigger] node_from_frame(ts, nodes@, c) by {
                if c < idx {
                    assert(nodes@[c] == old_nodes[c]);
                    assert(node_from_frame(ts, old_nodes, c));
                }
            }
        }
        idx = idx + 1;
    }
    Ok(CallTraceArena { nodes })
}

/// An arena converted from parity frames, where only the first frame is the
/// root, is one the explorer can walk and draw: it is well formed, lists no
/// child twice, names no child call twice, and holds no execution steps and
/// no logs.
pub proof fn law_converted_arena_is_walkable(ts: Seq<TransactionTrace>, arena: CallTraceArena)
    requires
        ts.len() > 0,
        ts[0].trace_address@.len() == 0,
        forall|idx: int| 0 < idx < ts.len() ==> #[trigger] ts[idx].trace_address@.len() > 0,
        forall|idx: int| 0 <= idx < ts.len() ==> #[trigger] frame_ok(ts, idx),
        arena_from_frames(ts, arena),
    ensures
        tree_wf(arena.nodes@),
        unique_entries(arena.nodes@),
        no_steps(arena.nodes@),
        crate::render::logs_present(arena.nodes@),
{
    let nodes = arena.nodes@;
    assert forall|i: int| 0 <= i < nodes.len() implies #[trigger] nodes[i].idx == i by {
        assert(node_from_frame(ts, nodes, i));
    }
    assert(node_from_frame(ts, nodes, 0));
    assert forall|i: int| 0 < i < nodes.len() implies {
        &&& (#[trigger] nodes[i].parent) is Some
        &&& nodes[i].parent->0 < i
        &&& nodes[nodes[i].parent->0 as int].children@.contains(i as usize)
    } by {
        assert(node_from_frame(ts, nodes, i));
        assert(frame_ok(ts, i));
        assert(ts[i].trace_address@.len() > 0);
        let a = addresses(ts).take(i);
        lemma_first_index(a, ts[i].trace_address@.drop_last());
        let p = nodes[i].parent->0;
        assert(node_from_frame(ts, nodes, p as int));
        assert(nodes[p as int].children@.contains(i as usize));
    }
    assert forall|i: int, k: int|
        0 <= i < nodes.len() && 0 <= k < nodes[i].children@.len() implies {
        &&& (#[trigger] nodes[i].children@[k]) < nodes.len()
        &&& nodes[nodes[i].children@[k] as int].parent == Some(i as usize)
    } by {
        assert(node_from_frame(ts, nodes, i));
        let c = nodes[i].children@[k];
        assert(nodes[i].children@.contains(c));
        assert(node_from_frame(ts, nodes, c as int));
    }
    assert forall|i: int, j: int|
        0 <= i < nodes.len() && 0 <= j < nodes[i].ordering@.len() implies match #[trigger] nodes[i].ordering@[j] {
        TraceMemberOrder::Call(k) => k < nodes[i].children@.len(),
        _ => true,
    } by {
        assert(node_from_frame(ts, nodes, i));
    }
    assert forall|i: int, k: usize|
        0 <= i < nodes.len() && k < nodes[i].children@.len() implies #[trigger] nodes[i].ordering@.contains(
        TraceMemberOrder::Call(k),
    ) by {
        assert(node_from_frame(ts, nodes, i));
        assert(nodes[i].ordering@[k as int] == TraceMemberOrder::Call(k));
    }
    assert forall|i: int, a: int, b: int|
        0 <= i < nodes.len() && 0 <= a < b < nodes[i].children@.len() implies #[trigger] nodes[i].children@[a]
        != #[trigger] nodes[i].children@[b] by {
        assert(node_from_frame(ts, nodes, i));
        assert(sibling_before(ts, nodes[i].children@[a], nodes[i].children@[b]));
    }
    assert forall|i: int, a: int, b: int|
        0 <= i < nodes.len() && 0 <= a < b < nodes[i].ordering@.len() && (
        #[trigger] nodes[i].ordering@[a]) is Call implies nodes[i].ordering@[a]
        != #[trigger] nodes[i].ordering@[b] by {
        assert(node_from_frame(ts, nodes, i));
        assert(nodes[i].ordering@[a] == TraceMemberOrder::Call(a as usize));
        assert(nodes[i].ordering@[b] == TraceMemberOrder::Call(b as usize));
        assert(nodes[i].children.len() == nodes[i].children@.len());
    }
    assert forall|i: int, j: int|
        0 <= i < nodes.len() && 0 <= j < nodes[i].ordering@.len() implies !((
        #[trigger] nodes[i].ordering@[j]) is Step) by {
        assert(node_from_frame(ts, nodes, i));
    }
    assert forall|i: int, j: int|
        0 <= i < nodes.len() && 0 <= j < nodes[i].ordering@.len() implies !((
        #[trigger] nodes[i].ordering@[j]) is Log) by {
        assert(node_from_frame(ts, nodes, i));
    }
}

/// Two calls hold the same values, byte strings and steps by their contents.
pub open spec fn same_call(a: CallTrace, b: CallTrace) -> bool {
    &&& a.depth == b.depth
    &&& a.success == b.success
    &&& a.caller == b.caller
    &&& a.address == b.address
    &&& a.maybe_precompile == b.maybe_precompile
    &&& a.selfdestruct_address == b.selfdestruct_address
    &&& a.selfdestruct_refund_target == b.selfdestruct_refund_target
    &&& a.selfdestruct_transferred_value == b.selfdestruct_transferred_value
    &&& a.kind == b.kind
    &&& a.value == b.value
    &&& a.data@ == b.data@
    &&& a.output@ == b.output@
    &&& a.gas_used == b.gas_used
    &&& a.gas_limit == b.gas_limit
    &&& a.status == b.status
    &&& a.steps@ == b.steps@
    &&& a.decoded == b.decoded
}

/// In an arena converted from parity frames, each node holds the call that
/// converting its frame alone (`convert_trace`) gives, and its parent is the
/// first earlier frame whose trace address is the frame's without its last
/// index (none for an empty trace address).
pub proof fn law_nodes_are_frame_conversions(
    ts: Seq<TransactionTrace>,
    arena: CallTraceArena,
    idx: int,
    ct: CallTrace,
)
    requires
        arena_from_frames(ts, arena),
        0 <= idx < ts.len(),
        converts_to(ts[idx], ct),
    ensures
        same_call(arena.nodes@[idx].trace, ct),
        arena.nodes@[idx].parent == parent_of(ts, idx),
{
    assert(node_from_frame(ts, arena.nodes@, idx));
    let a = arena.nodes@[idx].trace;
    assert(a.steps@ =~= ct.steps@);
    assert(a.data@ =~= ct.data@);
    assert(a.output@ =~= ct.output@);
}

/// `pat` occurs in `msg` at some position.
pub open spec fn occurs_in(msg: Seq<char>, pat: Seq<char>) -> bool {
    exists|i: int| 0 <= i && i + pat.len() <= msg.len() && #[trigger] msg.subrange(i, i + pat.len()) == pat
}

/// How a frame's error message sets its status: a message mentioning
/// `Revert` or `revert` is a revert; otherwise one mentioning `OutOfGas` is
/// running out of gas; any other error is a revert.
pub proof fn law_error_status(msg: Seq<char>)
    ensures
        occurs_in(msg, "Revert"@) || occurs_in(msg, "revert"@) ==> error_status(msg)
            == InstructionResult::Revert,
        !occurs_in(msg, "Revert"@) && !occurs_in(msg, "revert"@) && occurs_in(msg, "OutOfGas"@)
            ==> error_status(msg) == InstructionResult::OutOfGas,
        !occurs_in(msg, "Revert"@) && !occurs_in(msg, "revert"@) && !occurs_in(msg, "OutOfGas"@)
            ==> error_status(msg) == InstructionResult::Revert,
{
}

/// A converted call or creation frame that failed has the status its error
/// message gives by `law_error_status`, and one without error returned; a
/// self-destruct has the self-destruct status.
pub proof fn law_converted_status(t: TransactionTrace, ct: CallTrace)
    requires
        converts_to(t, ct),
    ensures
        t.action is Selfdestruct ==> ct.status == Some(InstructionResult::SelfDestruct),
        !(t.action is Selfdestruct) ==> ct.status == Some(
            match t.error {
                Some(e) => error_status(e@),
                None => InstructionResult::Return,
            },
        ),
        !(t.action is Selfdestruct) && t.error is None ==> ct.status == Some(InstructionResult::Return),
{
}

impl TryFrom<ParityTraces> for CallTraceArena {
    type Error = ConvertError;

    /// Converts parity frames into an arena (see `convert_parity_traces`).
    fn try_from(value: ParityTraces) -> (r: Result<CallTraceArena, ConvertError>)
        ensures
            converted(value.0@, r),
    {
        convert_parity_traces(value)
    }
}

/// What `try_from` gives is stated by its own contract (`converted`), since
/// no single value describes the arena it builds; so this impl does not
/// claim to obey a spec value.
impl TryFromSpecImpl<ParityTraces> for CallTraceArena {
    open spec fn obeys_try_from_spec() -> bool {
        false
    }

    open spec fn try_from_spec(v: ParityTraces) -> Result<CallTraceArena, ConvertError> {
        Err(ConvertError::EmptyTraces)
    }
}

} // verus!
