//! The cursor of the trace explorer and the moves it makes through the call
//! tree: into a call, to the next or previous line, over a call, out of it.

use vstd::prelude::*;

use crate::arena::{
    is_returning, is_returning_node, tree_wf, CallTraceArena, CallTraceNode, TraceMemberOrder,
};
use crate::seq_util::{first_index, lemma_first_index, position_of};
use crate::text::{decimal, push_char, push_str, usize_to_decimal};

verus! {

/// Where the cursor stands within a call.
#[derive(Clone, Copy, Debug, PartialEq, Eq, Structural)]
pub enum ActiveItem {
    /// At the call's header line.
    CallHeader,
    /// At the entry with this index in the call's ordering.
    Item(usize),
    /// At the call's footer, which only returning or reverting calls show.
    ReturningValue,
}

impl Default for ActiveItem {
    fn default() -> (r: Self)
        ensures
            r == ActiveItem::CallHeader,
    {
        ActiveItem::CallHeader
    }
}

impl ActiveItem {
    pub fn is_call_header(&self) -> (r: bool)
        ensures
            r == (*self is CallHeader),
    {
        match self {
            ActiveItem::CallHeader => true,
            _ => false,
        }
    }

    pub fn is_item(&self) -> (r: bool)
        ensures
            r == (*self is Item),
    {
        match self {
            ActiveItem::Item(_) => true,
            _ => false,
        }
    }

    pub fn is_returning_value(&self) -> (r: bool)
        ensures
            r == (*self is ReturningValue),
    {
        match self {
            ActiveItem::ReturningValue => true,
            _ => false,
        }
    }
}

/// The cursor: a node of the arena and a place within it.
#[derive(Clone, Copy, Debug, PartialEq, Eq, Structural)]
pub struct ActiveCall {
    pub idx: usize,
    pub active_item: ActiveItem,
}

impl Default for ActiveCall {
    fn default() -> (r: Self)
        ensures
            r == (ActiveCall { idx: 0, active_item: ActiveItem::CallHeader }),
    {
        ActiveCall { idx: 0, active_item: ActiveItem::CallHeader }
    }
}

/// The cursor at a call's header.
pub open spec fn header(i: usize) -> ActiveCall {
    ActiveCall { idx: i, active_item: ActiveItem::CallHeader }
}

/// The cursor at an entry of a call's ordering.
pub open spec fn item(i: usize, j: usize) -> ActiveCall {
    ActiveCall { idx: i, active_item: ActiveItem::Item(j) }
}

/// The cursor at a call's footer.
pub open spec fn footer(i: usize) -> ActiveCall {
    ActiveCall { idx: i, active_item: ActiveItem::ReturningValue }
}

/// The cursor names an existing node, and an existing entry of its ordering.
pub open spec fn valid_pos(nodes: Seq<CallTraceNode>, pos: ActiveCall) -> bool {
    &&& pos.idx < nodes.len()
    &&& match pos.active_item {
        ActiveItem::Item(j) => j < nodes[pos.idx as int].ordering@.len(),
        _ => true,
    }
}

/// The index, among its parent's children, of child `c` of node `p`.
pub open spec fn child_slot(nodes: Seq<CallTraceNode>, p: usize, c: usize) -> usize {
    first_index(nodes[p as int].children@, c) as usize
}

/// The index of the entry for child call `k` in node `p`'s ordering.
pub open spec fn call_slot(nodes: Seq<CallTraceNode>, p: usize, k: usize) -> usize {
    first_index(nodes[p as int].ordering@, TraceMemberOrder::Call(k)) as usize
}

/// The cursor at the entry of the parent's ordering that is the current call,
/// or nothing at the root.
pub open spec fn parent_step(nodes: Seq<CallTraceNode>, pos: ActiveCall) -> Option<ActiveCall> {
    match nodes[pos.idx as int].parent {
        Some(p) => Some(item(p, call_slot(nodes, p, child_slot(nodes, p, pos.idx)))),
        None => None,
    }
}

/// An entry that is a child call stands for that call's header.
pub open spec fn follow(nodes: Seq<CallTraceNode>, pos: ActiveCall) -> ActiveCall {
    match pos.active_item {
        ActiveItem::Item(j) => match nodes[pos.idx as int].ordering@[j as int] {
            TraceMemberOrder::Call(k) => header(nodes[pos.idx as int].children@[k as int]),
            _ => pos,
        },
        _ => pos,
    }
}

/// The move forward from an entry: the next entry, else the footer of a
/// returning call, else no move.
pub open spec fn item_next(nodes: Seq<CallTraceNode>, pos: ActiveCall) -> (bool, ActiveCall) {
    let j = pos.active_item->Item_0;
    let node = nodes[pos.idx as int];
    if j + 1 < node.ordering@.len() {
        (true, follow(nodes, item(pos.idx, (j + 1) as usize)))
    } else if is_returning(node) {
        (true, footer(pos.idx))
    } else {
        (false, pos)
    }
}

/// The move forward within the current call, from a header through the
/// parent's entry for it.
pub open spec fn next_step(nodes: Seq<CallTraceNode>, pos: ActiveCall) -> (bool, ActiveCall) {
    match pos.active_item {
        ActiveItem::CallHeader => match parent_step(nodes, pos) {
            Some(p) => item_next(nodes, p),
            None => (false, pos),
        },
        ActiveItem::Item(_) => item_next(nodes, pos),
        ActiveItem::ReturningValue => (false, pos),
    }
}

/// The move backward from an entry: the previous entry, or no move at the first.
pub open spec fn item_prev(nodes: Seq<CallTraceNode>, pos: ActiveCall) -> (bool, ActiveCall) {
    let j = pos.active_item->Item_0;
    if j == 0 {
        (false, pos)
    } else {
        (true, follow(nodes, item(pos.idx, (j - 1) as usize)))
    }
}

/// The move backward within the current call, from a header through the
/// parent's entry for it.
pub open spec fn prev_step(nodes: Seq<CallTraceNode>, pos: ActiveCall) -> (bool, ActiveCall) {
    match pos.active_item {
        ActiveItem::CallHeader => match parent_step(nodes, pos) {
            Some(p) => item_prev(nodes, p),
            None => (false, pos),
        },
        ActiveItem::Item(_) => item_prev(nodes, pos),
        ActiveItem::ReturningValue => {
            let len = nodes[pos.idx as int].ordering@.len();
            if len == 0 {
                (false, pos)
            } else {
                (true, follow(nodes, item(pos.idx, (len - 1) as usize)))
            }
        },
    }
}

/// Entering a call from its header: its first entry, else the footer of a
/// returning call, else no move.
pub open spec fn enter(nodes: Seq<CallTraceNode>, pos: ActiveCall) -> (bool, ActiveCall) {
    let node = nodes[pos.idx as int];
    if !(pos.active_item is CallHeader) {
        (false, pos)
    } else if node.ordering@.len() > 0 {
        (true, follow(nodes, item(node.idx, 0)))
    } else if is_returning(node) {
        (true, footer(pos.idx))
    } else {
        (false, pos)
    }
}

/// From the header of an expanded call, the last line shown inside it: the
/// footer of a returning call, else the last line shown inside a last child
/// call (its header when that child is collapsed), else a last log entry.
/// From a collapsed call's header, or where the search ends at a step
/// entry, the cursor stays on the header it reached and the search fails.
pub open spec fn deepest_last(nodes: Seq<CallTraceNode>, collapsed: Seq<bool>, pos: ActiveCall) -> (
    bool,
    ActiveCall,
)
    decreases nodes.len() - pos.idx,
{
    let node = nodes[pos.idx as int];
    let len = node.ordering@.len();
    if !(pos.active_item is CallHeader) || pos.idx >= nodes.len() || collapsed[pos.idx as int] {
        (false, pos)
    } else if is_returning(node) {
        (true, footer(pos.idx))
    } else if len == 0 {
        (false, pos)
    } else {
        match node.ordering@[len - 1] {
            TraceMemberOrder::Call(k) => {
                let c = node.children@[k as int];
                if pos.idx < c < nodes.len() {
                    deepest_last(nodes, collapsed, header(c))
                } else {
                    (false, header(c))
                }
            },
            TraceMemberOrder::Log(_) => (true, item(pos.idx, (len - 1) as usize)),
            TraceMemberOrder::Step(_) => (false, pos),
        }
    }
}

/// One line down: into the call when it is expanded, else forward, else up
/// to the parent's entry and forward from there, climbing as far as needed.
pub open spec fn down_from(nodes: Seq<CallTraceNode>, collapsed: Seq<bool>, pos: ActiveCall) -> (
    bool,
    ActiveCall,
)
    decreases pos.idx,
{
    let e = enter(nodes, pos);
    let n = next_step(nodes, pos);
    if !collapsed[pos.idx as int] && e.0 {
        e
    } else if n.0 {
        n
    } else {
        match parent_step(nodes, n.1) {
            None => (false, n.1),
            Some(p) => if p.idx < pos.idx {
                down_from(nodes, collapsed, p)
            } else {
                (false, p)
            },
        }
    }
}

/// One line up: back one step (and to the last line inside an expanded call
/// landed on), else to the header of the current call, else to the
/// parent's entry for it.
pub open spec fn up_from(nodes: Seq<CallTraceNode>, collapsed: Seq<bool>, pos: ActiveCall) -> (
    bool,
    ActiveCall,
) {
    let p = prev_step(nodes, pos);
    if p.0 {
        if p.1.active_item is CallHeader && !collapsed[p.1.idx as int] {
            (true, deepest_last(nodes, collapsed, p.1).1)
        } else {
            (true, p.1)
        }
    } else if !(p.1.active_item is CallHeader) {
        (true, header(p.1.idx))
    } else {
        match parent_step(nodes, p.1) {
            Some(q) => (true, follow(nodes, q)),
            None => (false, p.1),
        }
    }
}

/// In a well-formed arena the parent's entry for a call exists and names it.
pub proof fn lemma_parent_step(nodes: Seq<CallTraceNode>, pos: ActiveCall)
    requires
        tree_wf(nodes),
        pos.idx < nodes.len(),
        pos.idx > 0,
    ensures
        parent_step(nodes, pos) is Some,
        ({
            let q = parent_step(nodes, pos)->0;
            let p = nodes[pos.idx as int].parent->0;
            &&& q.idx == p
            &&& p < pos.idx
            &&& child_slot(nodes, p, pos.idx) < nodes[p as int].children@.len()
            &&& nodes[p as int].children@[child_slot(nodes, p, pos.idx) as int] == pos.idx
            &&& valid_pos(nodes, q)
            &&& nodes[p as int].ordering@[q.active_item->Item_0 as int] == TraceMemberOrder::Call(
                child_slot(nodes, p, pos.idx),
            )
            &&& follow(nodes, q) == header(pos.idx)
        }),
{
    let i = pos.idx as int;
    let p = nodes[i].parent->0;
    assert(nodes[i].parent is Some);
    lemma_first_index(nodes[p as int].children@, pos.idx);
    let kk = first_index(nodes[p as int].children@, pos.idx);
    assert(nodes[p as int].children.len() == nodes[p as int].children@.len());
    let k = child_slot(nodes, p, pos.idx);
    assert(k as int == kk);
    assert(nodes[p as int].children@[k as int] < nodes.len());
    assert(nodes[p as int].ordering@.contains(TraceMemberOrder::Call(k)));
    lemma_first_index(nodes[p as int].ordering@, TraceMemberOrder::Call(k));
    assert(nodes[p as int].ordering.len() == nodes[p as int].ordering@.len());
    let q = parent_step(nodes, pos)->0;
    assert(q.active_item->Item_0 as int == first_index(nodes[p as int].ordering@, TraceMemberOrder::Call(k)));
}

/// The root has no parent entry.
pub proof fn lemma_root_parent_step(nodes: Seq<CallTraceNode>, pos: ActiveCall)
    requires
        tree_wf(nodes),
        pos.idx < nodes.len(),
    ensures
        (parent_step(nodes, pos) is None) <==> pos.idx == 0,
{
    if pos.idx > 0 {
        lemma_parent_step(nodes, pos);
    }
}

/// Following an entry keeps the cursor valid; a followed child call lies
/// after its parent.
pub proof fn lemma_follow(nodes: Seq<CallTraceNode>, pos: ActiveCall)
    requires
        tree_wf(nodes),
        valid_pos(nodes, pos),
    ensures
        valid_pos(nodes, follow(nodes, pos)),
        follow(nodes, pos) != pos ==> pos.idx < follow(nodes, pos).idx && follow(
            nodes,
            pos,
        ).active_item is CallHeader,
{
    if let ActiveItem::Item(j) = pos.active_item {
        let i = pos.idx as int;
        if let TraceMemberOrder::Call(k) = nodes[i].ordering@[j as int] {
            assert(k < nodes[i].children@.len());
            let c = nodes[i].children@[k as int];
            assert(c < nodes.len());
            assert(nodes[c as int].parent == Some(pos.idx));
            assert(c > 0);
            assert(nodes[c as int].parent->0 < c);
        }
    }
}

impl ActiveCall {
    /// Jump to a specific call node, positioning at its header
    fn jump_to_call(&mut self, idx: usize)
        ensures
            *final(self) == header(idx),
    {
        self.idx = idx;
        self.active_item = ActiveItem::CallHeader;
    }

    /// Jump to a specific item within a call node
    fn jump_to_call_item(&mut self, idx: usize, item_idx: usize)
        ensures
            *final(self) == item(idx, item_idx),
    {
        self.idx = idx;
        self.active_item = ActiveItem::Item(item_idx);
    }

    /// If the current item is a call, follow it into that call's header.
    /// Returns true if we successfully followed into a child call.
    fn follow(&mut self, nodes: &[CallTraceNode]) -> (r: bool)
        requires
            tree_wf(nodes@),
            valid_pos(nodes@, *old(self)),
        ensures
            *final(self) == follow(nodes@, *old(self)),
            r == (*final(self) != *old(self)),
            valid_pos(nodes@, *final(self)),
    {
        proof {
            lemma_follow(nodes@, *self);
        }
        let curr_node = &nodes[self.idx];
        if let ActiveItem::Item(idx) = self.active_item {
            let item = curr_node.ordering[idx];
            if let TraceMemberOrder::Call(k) = item {
                self.jump_to_call(curr_node.children[k]);
                true
            } else {
                false
            }
        } else {
            false
        }
    }

    /// Navigate from the current call to its position within the parent's ordering.
    /// Returns false if we're already at the root call.
    fn jump_to_parent_call_step(&mut self, nodes: &[CallTraceNode]) -> (r: bool)
        requires
            tree_wf(nodes@),
            valid_pos(nodes@, *old(self)),
        ensures
            r == (parent_step(nodes@, *old(self)) is Some),
            *final(self) == match parent_step(nodes@, *old(self)) {
                Some(p) => p,
                None => *old(self),
            },
            valid_pos(nodes@, *final(self)),
            r ==> final(self).idx < old(self).idx,
    {
        proof {
            lemma_root_parent_step(nodes@, *self);
            if self.idx > 0 {
                lemma_parent_step(nodes@, *self);
            }
        }
        if let Some(parent) = nodes[self.idx].parent {
            let parent_node = &nodes[parent];
            let child_idx = position_of(parent_node.children.as_slice(), self.idx).unwrap();
            let item_idx = position_of_call(parent_node.ordering.as_slice(), child_idx).unwrap();
            self.jump_to_call_item(parent, item_idx);
            true
        } else {
            false
        }
    }

    /// The forward move from an entry of the current call.
    fn item_next(&mut self, nodes: &[CallTraceNode]) -> (r: bool)
        requires
            tree_wf(nodes@),
            valid_pos(nodes@, *old(self)),
            old(self).active_item is Item,
        ensures
            (r, *final(self)) == item_next(nodes@, *old(self)),
            valid_pos(nodes@, *final(self)),
    {
        let curr_node = &nodes[self.idx];
        let items_len = curr_node.ordering.len();
        let idx = match self.active_item {
            ActiveItem::Item(idx) => idx,
            _ => 0,
        };
        if idx + 1 < items_len {
            self.active_item = ActiveItem::Item(idx + 1);
            self.follow(nodes);
            true
        } else if is_returning_node(curr_node) {
            self.active_item = ActiveItem::ReturningValue;
            true
        } else {
            false
        }
    }

    /// Move to the next item in the trace sequence.
    /// If at CallHeader, moves up to parent and tries again.
    /// If at Item, moves to next item or to ReturningValue.
    /// If at ReturningValue, cannot move forward (returns false).
    fn next_step(&mut self, nodes: &[CallTraceNode]) -> (r: bool)
        requires
            tree_wf(nodes@),
            valid_pos(nodes@, *old(self)),
        ensures
            (r, *final(self)) == next_step(nodes@, *old(self)),
            valid_pos(nodes@, *final(self)),
            !r ==> final(self).idx <= old(self).idx,
    {
        match self.active_item {
            ActiveItem::CallHeader => self.jump_to_parent_call_step(nodes) && self.item_next(nodes),
            ActiveItem::Item(_) => self.item_next(nodes),
            ActiveItem::ReturningValue => false,
        }
    }

    /// The backward move from an entry of the current call.
    fn item_prev(&mut self, nodes: &[CallTraceNode]) -> (r: bool)
        requires
            tree_wf(nodes@),
            valid_pos(nodes@, *old(self)),
            old(self).active_item is Item,
        ensures
            (r, *final(self)) == item_prev(nodes@, *old(self)),
            valid_pos(nodes@, *final(self)),
    {
        let idx = match self.active_item {
            ActiveItem::Item(idx) => idx,
            _ => 0,
        };
        if idx == 0 {
            false
        } else {
            self.active_item = ActiveItem::Item(idx - 1);
            self.follow(nodes);
            true
        }
    }

    /// Move to the previous item in the trace sequence.
    /// If at CallHeader, moves up to parent and tries again.
    /// If at Item(0), cannot move backward (returns false).
    /// If at ReturningValue, moves to last item in the call.
    fn prev_step(&mut self, nodes: &[CallTraceNode]) -> (r: bool)
        requires
            tree_wf(nodes@),
            valid_pos(nodes@, *old(self)),
        ensures
            (r, *final(self)) == prev_step(nodes@, *old(self)),
            valid_pos(nodes@, *final(self)),
    {
        match self.active_item {
            ActiveItem::CallHeader => self.jump_to_parent_call_step(nodes) && self.item_prev(nodes),
            ActiveItem::Item(_) => self.item_prev(nodes),
            ActiveItem::ReturningValue => {
                let items_len = nodes[self.idx].ordering.len();
                if items_len == 0 {
                    return false;
                }
                self.active_item = ActiveItem::Item(items_len - 1);
                self.follow(nodes);
                true
            },
        }
    }

    /// Step into the current call header to view its first item.
    /// Only works when positioned at CallHeader.
    fn step_into(&mut self, nodes: &[CallTraceNode]) -> (r: bool)
        requires
            tree_wf(nodes@),
            valid_pos(nodes@, *old(self)),
        ensures
            (r, *final(self)) == enter(nodes@, *old(self)),
            valid_pos(nodes@, *final(self)),
    {
        if self.active_item.is_call_header() {
            let curr_node = &nodes[self.idx];
            if curr_node.ordering.len() > 0 {
                self.jump_to_call_item(curr_node.idx, 0);
                self.follow(nodes);
                true
            } else if is_returning_node(curr_node) {
                self.active_item = ActiveItem::ReturningValue;
                true
            } else {
                false
            }
        } else {
            false
        }
    }

    /// Navigate to the deepest last item within the current call.
    /// Recursively follows the last call child until reaching a log or return value.
    /// Only works when positioned at CallHeader.
    fn lastest_item(&mut self, nodes: &[CallTraceNode], collapsed: &[bool]) -> (r: bool)
        requires
            tree_wf(nodes@),
            collapsed@.len() == nodes@.len(),
            valid_pos(nodes@, *old(self)),
        ensures
            (r, *final(self)) == deepest_last(nodes@, collapsed@, *old(self)),
            valid_pos(nodes@, *final(self)),
        decreases nodes@.len() - old(self).idx,
    {
        if self.active_item.is_call_header() && !collapsed[self.idx] {
            let curr_node = &nodes[self.idx];
            if is_returning_node(curr_node) {
                self.active_item = ActiveItem::ReturningValue;
                true
            } else if curr_node.ordering.len() > 0 {
                let len = curr_node.ordering.len();
                match curr_node.ordering[len - 1] {
                    TraceMemberOrder::Call(k) => {
                        proof {
                            assert(k < curr_node.children@.len());
                            assert(curr_node.children@[k as int] < nodes@.len());
                            assert(nodes@[curr_node.children@[k as int] as int].parent == Some(
                                self.idx,
                            ));
                            assert(nodes@[curr_node.children@[k as int] as int].parent->0
                                < curr_node.children@[k as int]);
                        }
                        self.jump_to_call(curr_node.children[k]);
                        self.lastest_item(nodes, collapsed)
                    },
                    TraceMemberOrder::Log(_) => {
                        self.active_item = ActiveItem::Item(len - 1);
                        true
                    },
                    TraceMemberOrder::Step(_) => false,
                }
            } else {
                false
            }
        } else {
            false
        }
    }
}

/// Stepping over the current call: the header of the next sibling call, if any.
pub open spec fn sibling_after(nodes: Seq<CallTraceNode>, pos: ActiveCall) -> ActiveCall {
    match nodes[pos.idx as int].parent {
        Some(p) => {
            let k = child_slot(nodes, p, pos.idx);
            if k + 1 < nodes[p as int].children@.len() {
                header(nodes[p as int].children@[k + 1])
            } else {
                pos
            }
        },
        None => pos,
    }
}

/// Stepping back over the current call: the header of the previous sibling call, if any.
pub open spec fn sibling_before(nodes: Seq<CallTraceNode>, pos: ActiveCall) -> ActiveCall {
    match nodes[pos.idx as int].parent {
        Some(p) => {
            let k = child_slot(nodes, p, pos.idx);
            if k > 0 {
                header(nodes[p as int].children@[k - 1])
            } else {
                pos
            }
        },
        None => pos,
    }
}

/// Stepping out of the current call: the header of its parent call, or, at
/// the root, the current entry followed.
pub open spec fn step_out_from(nodes: Seq<CallTraceNode>, pos: ActiveCall) -> ActiveCall {
    match nodes[pos.idx as int].parent {
        Some(p) => header(p),
        None => follow(nodes, pos),
    }
}

/// The child indices on the way from the root down to node `i`.
pub open spec fn address_path(nodes: Seq<CallTraceNode>, i: usize) -> Seq<usize>
    decreases i,
{
    match nodes[i as int].parent {
        Some(p) => if p < i {
            address_path(nodes, p).push(child_slot(nodes, p, i))
        } else {
            seq![]
        },
        None => seq![],
    }
}

/// A call's address: `0` for the root, then `.k` for each child index on the
/// way down (e.g. `0.1.2`).
pub open spec fn dotted_address(path: Seq<usize>) -> Seq<char>
    decreases path.len(),
{
    if path.len() == 0 {
        seq!['0']
    } else {
        dotted_address(path.drop_last()) + seq!['.'] + decimal(path.last() as nat)
    }
}

/// Climbing one level extends the known tail of a call's address by the
/// child index at that level.
proof fn lemma_address_path_step(nodes: Seq<CallTraceNode>, i: usize, tail: Seq<usize>)
    requires
        tree_wf(nodes),
        0 < i < nodes.len(),
    ensures
        ({
            let p = nodes[i as int].parent->0;
            address_path(nodes, i) + tail == address_path(nodes, p) + tail.insert(
                0,
                child_slot(nodes, p, i),
            )
        }),
{
    let p = nodes[i as int].parent->0;
    assert(nodes[i as int].parent is Some);
    let k = child_slot(nodes, p, i);
    assert(address_path(nodes, i) == address_path(nodes, p).push(k));
    assert(address_path(nodes, p).push(k) + tail =~= address_path(nodes, p) + tail.insert(0, k));
}

/// The explorer's state: the arena, which calls are collapsed, and the cursor.
pub struct TracesState {
    pub data: CallTraceArena,
    pub collapsed: Vec<bool>,
    pub active_call: ActiveCall,
}

impl TracesState {
    /// A well-formed arena, one collapse flag per node, and a valid cursor.
    pub open spec fn wf(&self) -> bool {
        &&& tree_wf(self.data.nodes@)
        &&& self.collapsed@.len() == self.data.nodes@.len()
        &&& valid_pos(self.data.nodes@, self.active_call)
    }

    /// The nodes of the arena.
    pub open spec fn spec_nodes(&self) -> Seq<CallTraceNode> {
        self.data.nodes@
    }

    /// A new state: nothing collapsed, the cursor at the root's header.
    pub fn new(data: CallTraceArena) -> (s: Self)
        ensures
            s.data == data,
            s.collapsed@ == Seq::new(data.nodes@.len(), |i: int| false),
            s.active_call == header(0),
            data.wf() ==> s.wf(),
    {
        let len = data.nodes.len();
        let collapsed: Vec<bool> = vec![false; len];
        let s = Self { data, collapsed, active_call: ActiveCall::default() };
        assert(s.collapsed@ =~= Seq::new(s.data.nodes@.len(), |i: int| false));
        s
    }

    /// Move selection down one step through the trace.
    /// Tries to step into, then next step, then parent's next step.
    pub fn down(&mut self) -> (r: bool)
        requires
            old(self).wf(),
        ensures
            final(self).wf(),
            final(self).data == old(self).data,
            final(self).collapsed == old(self).collapsed,
            (r, final(self).active_call) == down_from(
                old(self).spec_nodes(),
                old(self).collapsed@,
                old(self).active_call,
            ),
    {
        let nodes = self.data.nodes();
        loop
            invariant
                nodes@ == self.data.nodes@,
                self.data == old(self).data,
                self.collapsed == old(self).collapsed,
                self.wf(),
                down_from(nodes@, self.collapsed@, self.active_call) == down_from(
                    old(self).spec_nodes(),
                    old(self).collapsed@,
                    old(self).active_call,
                ),
            decreases self.active_call.idx,
        {
            let expanded = !self.collapsed[self.active_call.idx];
            if expanded {
                let entered = self.active_call.step_into(nodes);
                if entered {
                    return true;
                }
            }
            if self.active_call.next_step(nodes) {
                return true;
            }
            if !self.active_call.jump_to_parent_call_step(nodes) {
                return false;
            }
        }
    }

    /// Move selection up one step through the trace.
    /// Handles collapsed nodes and call boundaries.
    pub fn up(&mut self) -> (r: bool)
        requires
            old(self).wf(),
        ensures
            final(self).wf(),
            final(self).data == old(self).data,
            final(self).collapsed == old(self).collapsed,
            (r, final(self).active_call) == up_from(
                old(self).spec_nodes(),
                old(self).collapsed@,
                old(self).active_call,
            ),
    {
        let nodes = self.data.nodes();
        if self.active_call.prev_step(nodes) {
            if self.active_call.active_item.is_call_header()
                && !self.collapsed[self.active_call.idx] {
                self.active_call.lastest_item(nodes, self.collapsed.as_slice());
                return true;
            }
            return true;
        } else if !self.active_call.active_item.is_call_header() {
            self.active_call.active_item = ActiveItem::CallHeader;
            return true;
        }
        if self.active_call.jump_to_parent_call_step(nodes) {
            self.active_call.follow(nodes);
            true
        } else {
            false
        }
    }

    /// Jump to the first trace node
    pub fn first(&mut self)
        requires
            old(self).wf(),
        ensures
            final(self).wf(),
            final(self).data == old(self).data,
            final(self).collapsed == old(self).collapsed,
            final(self).active_call == header(0),
    {
        self.active_call.jump_to_call(0);
    }

    /// Jump to the last item in the trace
    pub fn last(&mut self)
        requires
            old(self).wf(),
        ensures
            final(self).wf(),
            final(self).data == old(self).data,
            final(self).collapsed == old(self).collapsed,
            final(self).active_call == deepest_last(
                old(self).spec_nodes(),
                old(self).collapsed@,
                header(0),
            ).1,
    {
        self.first();
        let nodes = self.data.nodes();
        self.active_call.lastest_item(nodes, self.collapsed.as_slice());
    }

    /// Step into the current call (enter the call's body)
    pub fn step_into(&mut self)
        requires
            old(self).wf(),
        ensures
            final(self).wf(),
            final(self).data == old(self).data,
            final(self).collapsed == old(self).collapsed,
            final(self).active_call == enter(old(self).spec_nodes(), old(self).active_call).1,
    {
        let nodes = self.data.nodes();
        self.active_call.step_into(nodes);
    }

    /// Step over to the next sibling call (skip the current call's children)
    pub fn step_over(&mut self)
        requires
            old(self).wf(),
        ensures
            final(self).wf(),
            final(self).data == old(self).data,
            final(self).collapsed == old(self).collapsed,
            final(self).active_call == sibling_after(old(self).spec_nodes(), old(self).active_call),
    {
        let nodes = self.data.nodes();
        let curr_node = &nodes[self.active_call.idx];
        if let Some(parent) = curr_node.parent {
            proof {
                lemma_parent_step(nodes@, self.active_call);
            }
            let parent = &nodes[parent];
            let child_idx = position_of(parent.children.as_slice(), self.active_call.idx).unwrap();
            let n_children = parent.children.len();
            if child_idx == n_children - 1 {
                return ;
            }
            proof {
                assert(parent.children@[child_idx + 1] < nodes@.len());
            }
            self.active_call.jump_to_call(parent.children[child_idx + 1]);
        }
    }

    /// Step over backwards to the previous sibling call
    pub fn reverse_step_over(&mut self)
        requires
            old(self).wf(),
        ensures
            final(self).wf(),
            final(self).data == old(self).data,
            final(self).collapsed == old(self).collapsed,
            final(self).active_call == sibling_before(old(self).spec_nodes(), old(self).active_call),
    {
        let nodes = self.data.nodes();
        let curr_node = &nodes[self.active_call.idx];
        if let Some(parent) = curr_node.parent {
            proof {
                lemma_parent_step(nodes@, self.active_call);
            }
            let parent = &nodes[parent];
            let child_idx = position_of(parent.children.as_slice(), self.active_call.idx).unwrap();
            if child_idx == 0 {
                return ;
            }
            proof {
                assert(parent.children@[child_idx - 1] < nodes@.len());
            }
            self.active_call.jump_to_call(parent.children[child_idx - 1]);
        }
    }

    /// Step out of the current call (jump to parent call)
    pub fn step_out(&mut self)
        requires
            old(self).wf(),
        ensures
            final(self).wf(),
            final(self).data == old(self).data,
            final(self).collapsed == old(self).collapsed,
            final(self).active_call == step_out_from(old(self).spec_nodes(), old(self).active_call),
    {
        let nodes = self.data.nodes();
        match nodes[self.active_call.idx].parent {
            Some(p) => {
                proof {
                    assert(self.active_call.idx > 0);
                }
                self.active_call.jump_to_call(p);
            },
            None => {
                self.active_call.follow(nodes);
            },
        }
    }

    /// Get the current node index
    pub fn curr_idx(&self) -> (r: usize)
        ensures
            r == self.active_call.idx,
    {
        self.active_call.idx
    }

    /// Get the current active item (call header, log item, or return value)
    pub fn active_item(&self) -> (r: ActiveItem)
        ensures
            r == self.active_call.active_item,
    {
        self.active_call.active_item
    }

    /// Get the current call's address in the trace tree (e.g., "0.1.2")
    pub fn curr_address(&self) -> (r: String)
        requires
            self.wf(),
        ensures
            r@ == dotted_address(address_path(self.spec_nodes(), self.active_call.idx)),
    {
        let nodes = self.data.nodes();
        let ghost start = self.active_call.idx;
        let mut path: Vec<usize> = Vec::new();
        let mut idx = self.active_call.idx;
        while nodes[idx].parent.is_some()
            invariant
                tree_wf(nodes@),
                idx < nodes@.len(),
                address_path(nodes@, start) == address_path(nodes@, idx) + path@,
            decreases idx,
        {
            let parent = nodes[idx].parent.unwrap();
            proof {
                lemma_parent_step(nodes@, header(idx));
            }
            let parent_node = &nodes[parent];
            let child_idx = position_of(parent_node.children.as_slice(), idx).unwrap();
            proof {
                lemma_address_path_step(nodes@, idx, path@);
            }
            path.insert(0, child_idx);
            idx = parent_node.idx;
        }
        proof {
            assert(idx == 0) by {
                if idx > 0 {
                    assert(nodes@[idx as int].parent is Some);
                }
            }
            assert(address_path(nodes@, idx) =~= seq![]);
            assert(path@ =~= address_path(nodes@, start));
        }
        let mut s = String::new();
        push_char(&mut s, '0');
        let mut t: usize = 0;
        while t < path.len()
            invariant
                t <= path@.len(),
                s@ == dotted_address(path@.take(t as int)),
            decreases path.len() - t,
        {
            proof {
                assert(path@.take(t + 1).drop_last() =~= path@.take(t as int));
            }
            push_char(&mut s, '.');
            let digits = usize_to_decimal(path[t]);
            push_str(&mut s, digits.as_str());
            t = t + 1;
        }
        proof {
            assert(path@.take(path@.len() as int) =~= path@);
        }
        s
    }

    /// Toggle the collapsed state of the current call node
    pub fn toggle_collapse(&mut self)
        requires
            old(self).wf(),
        ensures
            final(self).wf(),
            final(self).data == old(self).data,
            final(self).active_call == old(self).active_call,
            final(self).collapsed@ == if old(self).active_call.active_item is CallHeader {
                old(self).collapsed@.update(
                    old(self).active_call.idx as int,
                    !old(self).collapsed@[old(self).active_call.idx as int],
                )
            } else {
                old(self).collapsed@
            },
    {
        if self.active_call.active_item.is_call_header() {
            let idx = self.active_call.idx;
            let v = !self.collapsed[idx];
            self.collapsed.set(idx, v);
        }
    }

    /// Reset the state to initial values: nothing collapsed, cursor at the root.
    pub fn reset(&mut self)
        ensures
            final(self).data == old(self).data,
            final(self).collapsed@ == Seq::new(old(self).collapsed@.len(), |i: int| false),
            final(self).active_call == header(0),
            old(self).wf() ==> final(self).wf(),
    {
        let mut i: usize = 0;
        while i < self.collapsed.len()
            invariant
                i <= self.collapsed@.len(),
                self.collapsed@.len() == old(self).collapsed@.len(),
                self.data == old(self).data,
                forall|t: int| 0 <= t < i ==> self.collapsed@[t] == false,
            decreases self.collapsed.len() - i,
        {
            self.collapsed.set(i, false);
            i = i + 1;
        }
        self.active_call = ActiveCall::default();
        assert(self.collapsed@ =~= Seq::new(old(self).collapsed@.len(), |i: int| false));
    }
}

/// The position of the entry for child call `k` in an ordering, if any.
fn position_of_call(ordering: &[TraceMemberOrder], k: usize) -> (r: Option<usize>)
    ensures
        match r {
            Some(i) => ordering@.contains(TraceMemberOrder::Call(k)) && i as int == first_index(
                ordering@,
                TraceMemberOrder::Call(k),
            ),
            None => !ordering@.contains(TraceMemberOrder::Call(k)),
        },
{
    let mut i: usize = 0;
    while i < ordering.len()
        invariant
            i <= ordering.len(),
            forall|j: int| 0 <= j < i ==> ordering@[j] != TraceMemberOrder::Call(k),
        decreases ordering.len() - i,
    {
        if ordering[i] == TraceMemberOrder::Call(k) {
            proof {
                crate::seq_util::lemma_first_index_unique(
                    ordering@,
                    TraceMemberOrder::Call(k),
                    i as int,
                );
            }
            return Some(i);
        }
        i = i + 1;
    }
    None
}

/// The call after the current one among its parent's children is not also
/// listed before it.
pub open spec fn next_sibling_listed_once_before(nodes: Seq<CallTraceNode>, pos: ActiveCall) -> bool {
    match nodes[pos.idx as int].parent {
        Some(p) => {
            let kids = nodes[p as int].children@;
            let k = child_slot(nodes, p, pos.idx) as int;
            forall|j: int| 0 <= j <= k ==> #[trigger] kids[j] != kids[k + 1]
        },
        None => true,
    }
}

/// The call before the current one among its parent's children is not also
/// listed earlier.
pub open spec fn previous_sibling_listed_once_before(nodes: Seq<CallTraceNode>, pos: ActiveCall) -> bool {
    match nodes[pos.idx as int].parent {
        Some(p) => {
            let kids = nodes[p as int].children@;
            let k = child_slot(nodes, p, pos.idx) as int;
            forall|j: int| 0 <= j < k - 1 ==> #[trigger] kids[j] != kids[k - 1]
        },
        None => true,
    }
}

/// Stepping back over the call reached by stepping over returns to the
/// header of the call stepped over, unless the next sibling is also listed
/// before that call.
pub proof fn law_reverse_step_over_undoes_step_over(nodes: Seq<CallTraceNode>, pos: ActiveCall)
    requires
        tree_wf(nodes),
        valid_pos(nodes, pos),
        sibling_after(nodes, pos) != pos,
        next_sibling_listed_once_before(nodes, pos),
    ensures
        sibling_before(nodes, sibling_after(nodes, pos)) == header(pos.idx),
{
    let p = nodes[pos.idx as int].parent->0;
    let kids = nodes[p as int].children@;
    assert(pos.idx > 0);
    assert(nodes[p as int].children.len() == kids.len());
    crate::seq_util::lemma_first_index(kids, pos.idx);
    let k = child_slot(nodes, p, pos.idx);
    let c = kids[k + 1];
    assert(nodes[c as int].parent == Some(p));
    crate::seq_util::lemma_first_index_unique(kids, c, k + 1);
}

/// Stepping over the call reached by stepping back returns to the header of
/// the call stepped back from, unless the previous sibling is also listed
/// earlier.
pub proof fn law_step_over_undoes_reverse_step_over(nodes: Seq<CallTraceNode>, pos: ActiveCall)
    requires
        tree_wf(nodes),
        valid_pos(nodes, pos),
        sibling_before(nodes, pos) != pos,
        previous_sibling_listed_once_before(nodes, pos),
    ensures
        sibling_after(nodes, sibling_before(nodes, pos)) == header(pos.idx),
{
    let p = nodes[pos.idx as int].parent->0;
    let kids = nodes[p as int].children@;
    assert(pos.idx > 0);
    assert(nodes[p as int].children.len() == kids.len());
    crate::seq_util::lemma_first_index(kids, pos.idx);
    let k = child_slot(nodes, p, pos.idx);
    let c = kids[k - 1];
    assert(nodes[c as int].parent == Some(p));
    crate::seq_util::lemma_first_index_unique(kids, c, k - 1);
}

/// Stepping out from anywhere inside a call other than the root selects the
/// header of its parent call.
pub proof fn law_step_out_selects_the_parent(nodes: Seq<CallTraceNode>, pos: ActiveCall)
    requires
        tree_wf(nodes),
        valid_pos(nodes, pos),
        pos.idx > 0,
    ensures
        step_out_from(nodes, pos) == header(nodes[pos.idx as int].parent->0),
        nodes[pos.idx as int].parent->0 < pos.idx,
{
}

/// A call's address (what `curr_address` shows): the root's is `0`, and
/// that of any other call is its parent's address, a dot, and the call's
/// index among its parent's children (its first place in that list).
pub proof fn law_address_extends_the_parent_address(nodes: Seq<CallTraceNode>, c: usize, k: int)
    requires
        tree_wf(nodes),
        0 < c < nodes.len(),
        0 <= k < nodes[nodes[c as int].parent->0 as int].children@.len(),
        nodes[nodes[c as int].parent->0 as int].children@[k] == c,
        forall|j: int| 0 <= j < k ==> nodes[nodes[c as int].parent->0 as int].children@[j] != c,
    ensures
        dotted_address(address_path(nodes, 0)) == seq!['0'],
        dotted_address(address_path(nodes, c)) == dotted_address(
            address_path(nodes, nodes[c as int].parent->0),
        ) + seq!['.'] + decimal(k as nat),
{
    let p = nodes[c as int].parent->0;
    assert(nodes[p as int].children.len() == nodes[p as int].children@.len());
    crate::seq_util::lemma_first_index_unique(nodes[p as int].children@, c, k);
    let path = address_path(nodes, p).push(child_slot(nodes, p, c));
    assert(address_path(nodes, c) == path);
    assert(path.drop_last() =~= address_path(nodes, p));
    assert(address_path(nodes, 0) =~= Seq::<usize>::empty());
}

} // verus!
