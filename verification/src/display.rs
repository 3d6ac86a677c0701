//! The order in which the explorer shows a trace: each call's header, then
//! (unless the call is collapsed) its entries in order, a child call standing
//! for all of its own lines, then the footer of a returning call. The moves
//! down and up walk exactly this order.

use vstd::prelude::*;

use crate::arena::{is_returning, tree_wf, CallTraceNode, TraceMemberOrder};
use crate::navigation::{
    call_slot, child_slot, deepest_last, down_from, enter, follow, footer, header, item,
    item_next, item_prev, lemma_parent_step, next_step, parent_step, prev_step, up_from,
    valid_pos, ActiveCall, ActiveItem,
};
use crate::seq_util::{first_index, lemma_first_index_unique};

verus! {

/// No call lists a child twice, and no ordering names a child call twice.
pub open spec fn unique_entries(nodes: Seq<CallTraceNode>) -> bool {
    &&& forall|i: int, a: int, b: int|
        0 <= i < nodes.len() && 0 <= a < b < nodes[i].children@.len() ==> #[trigger] nodes[i].children@[a]
            != #[trigger] nodes[i].children@[b]
    &&& forall|i: int, a: int, b: int|
        0 <= i < nodes.len() && 0 <= a < b < nodes[i].ordering@.len() && (
        #[trigger] nodes[i].ordering@[a]) is Call ==> nodes[i].ordering@[a]
            != #[trigger] nodes[i].ordering@[b]
}

/// The lines of call `i` in the order shown: its header, then, unless it is
/// collapsed, the lines of its entries and the footer of a returning call.
pub open spec fn lines_of(nodes: Seq<CallTraceNode>, collapsed: Seq<bool>, i: usize) -> Seq<
    ActiveCall,
>
    decreases nodes.len() - i, nodes[i as int].ordering@.len() + 1,
{
    if i >= nodes.len() {
        seq![]
    } else if collapsed[i as int] {
        seq![header(i)]
    } else {
        seq![header(i)] + items_from(nodes, collapsed, i, 0) + if is_returning(nodes[i as int]) {
            seq![footer(i)]
        } else {
            seq![]
        }
    }
}

/// The lines of the entries of call `i` from entry `j` on: a child call
/// stands for its own lines, any other entry for one line.
pub open spec fn items_from(
    nodes: Seq<CallTraceNode>,
    collapsed: Seq<bool>,
    i: usize,
    j: nat,
) -> Seq<ActiveCall>
    decreases nodes.len() - i, nodes[i as int].ordering@.len() - j,
{
    let len = nodes[i as int].ordering@.len();
    if i >= nodes.len() || j >= len {
        seq![]
    } else {
        let block = match nodes[i as int].ordering@[j as int] {
            TraceMemberOrder::Call(k) => {
                let c = nodes[i as int].children@[k as int];
                if i < c < nodes.len() {
                    lines_of(nodes, collapsed, c)
                } else {
                    seq![]
                }
            },
            _ => seq![item(i, j as usize)],
        };
        block + items_from(nodes, collapsed, i, j + 1)
    }
}

/// All lines of the trace, from the root's header on.
pub open spec fn all_lines(nodes: Seq<CallTraceNode>, collapsed: Seq<bool>) -> Seq<ActiveCall> {
    lines_of(nodes, collapsed, 0)
}

/// With unique entries, the parent's entry for child `k` of `i` is the entry
/// that names it.
pub proof fn lemma_parent_entry(nodes: Seq<CallTraceNode>, i: usize, j: usize)
    requires
        tree_wf(nodes),
        unique_entries(nodes),
        i < nodes.len(),
        j < nodes[i as int].ordering@.len(),
        nodes[i as int].ordering@[j as int] is Call,
    ensures
        ({
            let k = nodes[i as int].ordering@[j as int]->Call_0;
            let c = nodes[i as int].children@[k as int];
            &&& k < nodes[i as int].children@.len()
            &&& i < c < nodes.len()
            &&& parent_step(nodes, header(c)) == Some(item(i, j))
            &&& follow(nodes, item(i, j)) == header(c)
        }),
{
    let k = nodes[i as int].ordering@[j as int]->Call_0;
    assert(k < nodes[i as int].children@.len());
    let c = nodes[i as int].children@[k as int];
    assert(c < nodes.len());
    assert(nodes[c as int].parent == Some(i));
    assert(c > 0);
    lemma_parent_step(nodes, header(c));
    lemma_first_index_unique(nodes[i as int].children@, c, k as int);
    assert(child_slot(nodes, i, c) == k);
    lemma_first_index_unique(nodes[i as int].ordering@, TraceMemberOrder::Call(k), j as int);
    assert(nodes[i as int].ordering.len() == nodes[i as int].ordering@.len());
    assert(call_slot(nodes, i, k) == j);
}

/// The first line of an entry is the entry followed.
proof fn lemma_items_first(nodes: Seq<CallTraceNode>, collapsed: Seq<bool>, i: usize, j: nat)
    requires
        tree_wf(nodes),
        unique_entries(nodes),
        collapsed.len() == nodes.len(),
        i < nodes.len(),
        j < nodes[i as int].ordering@.len(),
    ensures
        items_from(nodes, collapsed, i, j).len() > 0,
        items_from(nodes, collapsed, i, j)[0] == follow(nodes, item(i, j as usize)),
{
    assert(nodes[i as int].ordering.len() == nodes[i as int].ordering@.len());
    if nodes[i as int].ordering@[j as int] is Call {
        lemma_parent_entry(nodes, i, j as usize);
        let k = nodes[i as int].ordering@[j as int]->Call_0;
        let c = nodes[i as int].children@[k as int];
        assert(lines_of(nodes, collapsed, c)[0] == header(c));
    }
}

/// From a line that ends the lines of a non-root call, moving down goes on
/// as from the parent's entry for that call.
proof fn lemma_down_leaving(nodes: Seq<CallTraceNode>, collapsed: Seq<bool>, pos: ActiveCall)
    requires
        tree_wf(nodes),
        collapsed.len() == nodes.len(),
        valid_pos(nodes, pos),
        pos.idx > 0,
        next_step(nodes, pos).0 == false || pos.active_item is CallHeader,
        !(pos.active_item is CallHeader) || collapsed[pos.idx as int] || !enter(nodes, pos).0,
    ensures
        down_from(nodes, collapsed, pos) == down_from(
            nodes,
            collapsed,
            parent_step(nodes, header(pos.idx))->0,
        ),
{
    lemma_parent_step(nodes, pos);
    let q = parent_step(nodes, pos)->0;
    assert(parent_step(nodes, header(pos.idx)) == Some(q));
    assert(q.idx < pos.idx);
    if pos.active_item is CallHeader {
        lemma_down_leaving_header(nodes, collapsed, pos, q);
    } else {
        lemma_down_leaving_entry(nodes, collapsed, pos, q);
    }
}

/// The entry and footer case of `lemma_down_leaving`.
proof fn lemma_down_leaving_entry(
    nodes: Seq<CallTraceNode>,
    collapsed: Seq<bool>,
    pos: ActiveCall,
    q: ActiveCall,
)
    requires
        !(pos.active_item is CallHeader),
        next_step(nodes, pos).0 == false,
        parent_step(nodes, pos) == Some(q),
        q.idx < pos.idx,
    ensures
        down_from(nodes, collapsed, pos) == down_from(nodes, collapsed, q),
{
    assert(!enter(nodes, pos).0);
    assert(next_step(nodes, pos).1 == pos);
}

/// The header case of `lemma_down_leaving`.
proof fn lemma_down_leaving_header(
    nodes: Seq<CallTraceNode>,
    collapsed: Seq<bool>,
    pos: ActiveCall,
    q: ActiveCall,
)
    requires
        tree_wf(nodes),
        collapsed.len() == nodes.len(),
        valid_pos(nodes, pos),
        valid_pos(nodes, q),
        pos.active_item is CallHeader,
        q.active_item is Item,
        parent_step(nodes, pos) == Some(q),
        q.idx < pos.idx,
        collapsed[pos.idx as int] || !enter(nodes, pos).0,
    ensures
        down_from(nodes, collapsed, pos) == down_from(nodes, collapsed, q),
{
    let n = item_next(nodes, q);
    assert(next_step(nodes, pos) == n);
    assert(!enter(nodes, q).0);
    assert(next_step(nodes, q) == n);
    if !n.0 {
        assert(n.1 == q);
        if q.idx > 0 {
            lemma_parent_step(nodes, q);
            assert(parent_step(nodes, q)->0.idx < q.idx);
        } else {
            assert(nodes[0].parent is None);
        }
    }
}

/// Moving down from an entry's lines: within the entries of call `i` from
/// entry `j` on, down goes to the next line, and from the last one on as
/// from the call's last entry.
proof fn lemma_down_items(nodes: Seq<CallTraceNode>, collapsed: Seq<bool>, i: usize, j: nat)
    requires
        tree_wf(nodes),
        unique_entries(nodes),
        collapsed.len() == nodes.len(),
        i < nodes.len(),
        j < nodes[i as int].ordering@.len(),
    ensures
        ({
            let s = items_from(nodes, collapsed, i, j);
            let last = (nodes[i as int].ordering@.len() - 1) as usize;
            forall|u: int|
                0 <= u < s.len() ==> #[trigger] down_from(nodes, collapsed, s[u]) == if u + 1 < s.len() {
                    (true, s[u + 1])
                } else {
                    down_from(nodes, collapsed, item(i, last))
                }
        }),
    decreases nodes.len() - i, nodes[i as int].ordering@.len() - j,
{
    let len = nodes[i as int].ordering@.len();
    assert(nodes[i as int].ordering.len() == len);
    let s = items_from(nodes, collapsed, i, j);
    let rest = items_from(nodes, collapsed, i, j + 1);
    let last = (len - 1) as usize;
    if j + 1 < len {
        lemma_down_items(nodes, collapsed, i, j + 1);
        lemma_items_first(nodes, collapsed, i, j + 1);
    }
    // the move from entry j itself, once its own lines are done
    let q = item(i, j as usize);
    assert(valid_pos(nodes, q));
    assert(down_from(nodes, collapsed, q) == if j + 1 < len {
        (true, rest[0])
    } else {
        down_from(nodes, collapsed, item(i, last))
    }) by {
        assert(!enter(nodes, q).0);
        assert(next_step(nodes, q) == item_next(nodes, q));
    }
    match nodes[i as int].ordering@[j as int] {
        TraceMemberOrder::Call(k) => {
            lemma_parent_entry(nodes, i, j as usize);
            let c = nodes[i as int].children@[k as int];
            let b = lines_of(nodes, collapsed, c);
            lemma_down_lines(nodes, collapsed, c);
            assert(s == b + rest);
            assert forall|u: int| 0 <= u < s.len() implies #[trigger] down_from(
                nodes,
                collapsed,
                s[u],
            ) == if u + 1 < s.len() {
                (true, s[u + 1])
            } else {
                down_from(nodes, collapsed, item(i, last))
            } by {
                if u < b.len() - 1 {
                    assert(s[u] == b[u] && s[u + 1] == b[u + 1]);
                } else if u == b.len() - 1 {
                    assert(s[u] == b.last());
                    if j + 1 < len {
                        assert(s[u + 1] == rest[0]);
                    }
                } else {
                    assert(s[u] == rest[u - b.len()]);
                    if u + 1 < s.len() {
                        assert(s[u + 1] == rest[u + 1 - b.len()]);
                    }
                }
            }
        },
        _ => {
            assert(s == seq![q] + rest);
            assert forall|u: int| 0 <= u < s.len() implies #[trigger] down_from(
                nodes,
                collapsed,
                s[u],
            ) == if u + 1 < s.len() {
                (true, s[u + 1])
            } else {
                down_from(nodes, collapsed, item(i, last))
            } by {
                if u == 0 {
                    assert(s[0] == q);
                    if j + 1 < len {
                        assert(s[1] == rest[0]);
                    }
                } else {
                    assert(s[u] == rest[u - 1]);
                    if u + 1 < s.len() {
                        assert(s[u + 1] == rest[u]);
                    }
                }
            }
        },
    }
}

/// Moving down from a line of call `i`: to the next line of the call, and
/// from its last line on as from the parent's entry for the call (at the
/// root: no move).
proof fn lemma_down_lines(nodes: Seq<CallTraceNode>, collapsed: Seq<bool>, i: usize)
    requires
        tree_wf(nodes),
        unique_entries(nodes),
        collapsed.len() == nodes.len(),
        i < nodes.len(),
    ensures
        ({
            let s = lines_of(nodes, collapsed, i);
            &&& s.len() >= 1
            &&& s[0] == header(i)
            &&& forall|u: int|
                0 <= u < s.len() - 1 ==> #[trigger] down_from(nodes, collapsed, s[u]) == (
                true,
                s[u + 1],
            )
            &&& i > 0 ==> down_from(nodes, collapsed, s.last()) == down_from(
                nodes,
                collapsed,
                parent_step(nodes, header(i))->0,
            )
            &&& i == 0 ==> !down_from(nodes, collapsed, s.last()).0
        }),
    decreases nodes.len() - i, nodes[i as int].ordering@.len() + 1,
{
    let s = lines_of(nodes, collapsed, i);
    let node = nodes[i as int];
    let len = node.ordering@.len();
    assert(node.ordering.len() == len);
    let h = header(i);
    assert(node.idx == i);
    if i > 0 {
        lemma_parent_step(nodes, h);
    }
    if collapsed[i as int] || (len == 0 && !is_returning(node)) {
        // a single line
        if !collapsed[i as int] {
            assert(items_from(nodes, collapsed, i, 0) =~= seq![]);
            assert(s =~= seq![h]);
        }
        assert(s.last() == h);
        if i > 0 {
            lemma_down_leaving(nodes, collapsed, h);
        } else {
            assert(parent_step(nodes, h) is None);
        }
    } else {
        let mid = items_from(nodes, collapsed, i, 0);
        let tail = if is_returning(node) {
            seq![footer(i)]
        } else {
            seq![]
        };
        assert(s == seq![h] + mid + tail);
        if len > 0 {
            lemma_down_items(nodes, collapsed, i, 0);
            lemma_items_first(nodes, collapsed, i, 0);
            assert(s[1] == mid[0]);
        } else {
            assert(mid =~= seq![]);
        }
        let lastq = item(i, (len - 1) as usize);
        // the move after the last entry
        if len > 0 {
            assert(!enter(nodes, lastq).0);
            assert(next_step(nodes, lastq) == item_next(nodes, lastq));
            if !is_returning(node) {
                if i > 0 {
                    lemma_down_leaving(nodes, collapsed, lastq);
                } else {
                    assert(parent_step(nodes, lastq) is None);
                }
            }
        }
        if is_returning(node) {
            let f = footer(i);
            assert(s.last() == f);
            if i > 0 {
                lemma_down_leaving(nodes, collapsed, f);
            } else {
                assert(parent_step(nodes, f) is None);
            }
        }
        assert forall|u: int| 0 <= u < s.len() - 1 implies #[trigger] down_from(
            nodes,
            collapsed,
            s[u],
        ) == (true, s[u + 1]) by {
            if u == 0 {
                assert(s[0] == h);
            } else {
                assert(s[u] == mid[u - 1]);
                if u < mid.len() {
                    assert(s[u + 1] == mid[u]);
                } else {
                    assert(s[u + 1] == footer(i));
                }
            }
        }
        if !is_returning(node) {
            assert(s.last() == mid[mid.len() - 1]);
        }
    }
}

/// Moving down from any line of the explorer goes to the next line; from
/// the last line it does not move on (it reports failure).
pub proof fn law_down_walks_lines(nodes: Seq<CallTraceNode>, collapsed: Seq<bool>, t: int)
    requires
        tree_wf(nodes),
        unique_entries(nodes),
        collapsed.len() == nodes.len(),
        0 <= t < all_lines(nodes, collapsed).len(),
    ensures
        ({
            let s = all_lines(nodes, collapsed);
            let r = down_from(nodes, collapsed, s[t]);
            &&& t + 1 < s.len() ==> r == (true, s[t + 1])
            &&& t + 1 == s.len() ==> !r.0
        }),
{
    lemma_down_lines(nodes, collapsed, 0);
    let s = all_lines(nodes, collapsed);
    if t + 1 < s.len() {
        assert(down_from(nodes, collapsed, s[t]) == (true, s[t + 1]));
    } else {
        assert(s[t] == s.last());
    }
}

/// No ordering holds an execution step.
pub open spec fn no_steps(nodes: Seq<CallTraceNode>) -> bool {
    forall|i: int, j: int|
        0 <= i < nodes.len() && 0 <= j < nodes[i].ordering@.len() ==> !((
        #[trigger] nodes[i].ordering@[j]) is Step)
}

/// No call that neither returns nor reverts ends with an execution step
/// (the backward search for a call's last line stops at its header there).
pub open spec fn no_trailing_steps(nodes: Seq<CallTraceNode>) -> bool {
    forall|i: int|
        0 <= i < nodes.len() && !is_returning(#[trigger] nodes[i]) && nodes[i].ordering@.len() > 0
            ==> !(nodes[i].ordering@.last() is Step)
}

/// The last line of entry `j` of call `i`.
pub open spec fn entry_last(nodes: Seq<CallTraceNode>, collapsed: Seq<bool>, i: usize, j: nat) -> ActiveCall {
    match nodes[i as int].ordering@[j as int] {
        TraceMemberOrder::Call(k) => lines_of(nodes, collapsed, nodes[i as int].children@[k as int]).last(),
        _ => item(i, j as usize),
    }
}

/// The lines of the entries from `j` on end with the last line of the last entry.
proof fn lemma_items_last(nodes: Seq<CallTraceNode>, collapsed: Seq<bool>, i: usize, j: nat)
    requires
        tree_wf(nodes),
        unique_entries(nodes),
        collapsed.len() == nodes.len(),
        i < nodes.len(),
        j < nodes[i as int].ordering@.len(),
    ensures
        items_from(nodes, collapsed, i, j).len() > 0,
        items_from(nodes, collapsed, i, j).last() == entry_last(
            nodes,
            collapsed,
            i,
            (nodes[i as int].ordering@.len() - 1) as nat,
        ),
    decreases nodes[i as int].ordering@.len() - j,
{
    let len = nodes[i as int].ordering@.len();
    let s = items_from(nodes, collapsed, i, j);
    let rest = items_from(nodes, collapsed, i, j + 1);
    lemma_items_first(nodes, collapsed, i, j);
    if j + 1 < len {
        lemma_items_last(nodes, collapsed, i, j + 1);
        assert(s.last() == rest.last());
    } else {
        assert(rest =~= seq![]);
        if nodes[i as int].ordering@[j as int] is Call {
            lemma_parent_entry(nodes, i, j as usize);
        }
    }
}

/// From the header of an expanded call, the deepest last line is the call's last line.
proof fn lemma_deepest_last(nodes: Seq<CallTraceNode>, collapsed: Seq<bool>, c: usize)
    requires
        tree_wf(nodes),
        unique_entries(nodes),
        no_trailing_steps(nodes),
        collapsed.len() == nodes.len(),
        c < nodes.len(),
        !collapsed[c as int],
    ensures
        deepest_last(nodes, collapsed, header(c)).1 == lines_of(nodes, collapsed, c).last(),
    decreases nodes.len() - c,
{
    let node = nodes[c as int];
    let len = node.ordering@.len();
    assert(node.ordering.len() == len);
    let s = lines_of(nodes, collapsed, c);
    let mid = items_from(nodes, collapsed, c, 0);
    if is_returning(node) {
    } else if len == 0 {
        assert(mid =~= seq![]);
        assert(s =~= seq![header(c)]);
    } else {
        lemma_items_last(nodes, collapsed, c, 0);
        assert(s.last() == mid.last());
        assert(node.ordering@.last() == node.ordering@[len - 1]);
        assert(!(node.ordering@[len - 1] is Step));
        if let TraceMemberOrder::Call(k) = node.ordering@[len - 1] {
            assert(nodes[c as int] == node);
            lemma_parent_entry(nodes, c, (len - 1) as usize);
            let cc = node.children@[k as int];
            if collapsed[cc as int] {
                assert(lines_of(nodes, collapsed, cc) == seq![header(cc)]);
                assert(deepest_last(nodes, collapsed, header(cc)) == (false, header(cc)));
            } else {
                lemma_deepest_last(nodes, collapsed, cc);
            }
        }
    }
}

/// Where a successful backward move onto entry `j` of call `i` comes to
/// rest is the entry's last line.
proof fn lemma_land(nodes: Seq<CallTraceNode>, collapsed: Seq<bool>, i: usize, j: nat)
    requires
        tree_wf(nodes),
        unique_entries(nodes),
        no_trailing_steps(nodes),
        collapsed.len() == nodes.len(),
        i < nodes.len(),
        j < nodes[i as int].ordering@.len(),
    ensures
        ({
            let y = follow(nodes, item(i, j as usize));
            (if y.active_item is CallHeader && !collapsed[y.idx as int] {
                deepest_last(nodes, collapsed, y).1
            } else {
                y
            }) == entry_last(nodes, collapsed, i, j)
        }),
{
    assert(nodes[i as int].ordering.len() == nodes[i as int].ordering@.len());
    if let TraceMemberOrder::Call(k) = nodes[i as int].ordering@[j as int] {
        lemma_parent_entry(nodes, i, j as usize);
        let c = nodes[i as int].children@[k as int];
        if !collapsed[c as int] {
            lemma_deepest_last(nodes, collapsed, c);
        }
    }
}

/// The line before the lines of entry `j` of call `i`.
pub open spec fn line_before(nodes: Seq<CallTraceNode>, collapsed: Seq<bool>, i: usize, j: nat) -> ActiveCall {
    if j == 0 {
        header(i)
    } else {
        entry_last(nodes, collapsed, i, (j - 1) as nat)
    }
}

/// Moving up from the first line of entry `j` of call `i` reaches the line before it.
proof fn lemma_up_entry_first(nodes: Seq<CallTraceNode>, collapsed: Seq<bool>, i: usize, j: nat)
    requires
        tree_wf(nodes),
        unique_entries(nodes),
        no_trailing_steps(nodes),
        collapsed.len() == nodes.len(),
        i < nodes.len(),
        j < nodes[i as int].ordering@.len(),
    ensures
        up_from(nodes, collapsed, follow(nodes, item(i, j as usize))) == (
            true,
            line_before(nodes, collapsed, i, j),
        ),
{
    assert(nodes[i as int].ordering.len() == nodes[i as int].ordering@.len());
    let q = item(i, j as usize);
    let x = follow(nodes, q);
    if nodes[i as int].ordering@[j as int] is Call {
        lemma_parent_entry(nodes, i, j as usize);
        assert(prev_step(nodes, x) == item_prev(nodes, q));
    } else {
        assert(x == q);
        assert(prev_step(nodes, x) == item_prev(nodes, q));
    }
    if j > 0 {
        lemma_land(nodes, collapsed, i, (j - 1) as nat);
    }
}

/// Moving up within the lines of the entries from `j` on reaches the previous line.
proof fn lemma_up_items(nodes: Seq<CallTraceNode>, collapsed: Seq<bool>, i: usize, j: nat)
    requires
        tree_wf(nodes),
        unique_entries(nodes),
        no_trailing_steps(nodes),
        collapsed.len() == nodes.len(),
        i < nodes.len(),
        j < nodes[i as int].ordering@.len(),
    ensures
        ({
            let s = items_from(nodes, collapsed, i, j);
            forall|u: int|
                0 <= u < s.len() ==> #[trigger] up_from(nodes, collapsed, s[u]) == (
                    true,
                    if u == 0 {
                        line_before(nodes, collapsed, i, j)
                    } else {
                        s[u - 1]
                    },
                )
        }),
    decreases nodes.len() - i, nodes[i as int].ordering@.len() - j,
{
    let len = nodes[i as int].ordering@.len();
    let s = items_from(nodes, collapsed, i, j);
    let rest = items_from(nodes, collapsed, i, j + 1);
    lemma_items_first(nodes, collapsed, i, j);
    lemma_up_entry_first(nodes, collapsed, i, j);
    if j + 1 < len {
        lemma_up_items(nodes, collapsed, i, j + 1);
    }
    match nodes[i as int].ordering@[j as int] {
        TraceMemberOrder::Call(k) => {
            lemma_parent_entry(nodes, i, j as usize);
            let c = nodes[i as int].children@[k as int];
            let b = lines_of(nodes, collapsed, c);
            lemma_up_lines(nodes, collapsed, c);
            assert(b[0] == header(c)) by {
                lemma_down_lines(nodes, collapsed, c);
            }
            assert(s == b + rest);
            assert(line_before(nodes, collapsed, i, j + 1) == b.last());
            assert forall|u: int| 0 <= u < s.len() implies #[trigger] up_from(
                nodes,
                collapsed,
                s[u],
            ) == (
                true,
                if u == 0 {
                    line_before(nodes, collapsed, i, j)
                } else {
                    s[u - 1]
                },
            ) by {
                if u == 0 {
                    assert(s[0] == b[0]);
                } else if u < b.len() {
                    assert(s[u] == b[u] && s[u - 1] == b[u - 1]);
                } else {
                    assert(s[u] == rest[u - b.len()]);
                    if u == b.len() {
                        assert(s[u - 1] == b.last());
                    } else {
                        assert(s[u - 1] == rest[u - 1 - b.len()]);
                    }
                }
            }
        },
        _ => {
            let q = item(i, j as usize);
            assert(s == seq![q] + rest);
            assert(line_before(nodes, collapsed, i, j + 1) == q);
            assert forall|u: int| 0 <= u < s.len() implies #[trigger] up_from(
                nodes,
                collapsed,
                s[u],
            ) == (
                true,
                if u == 0 {
                    line_before(nodes, collapsed, i, j)
                } else {
                    s[u - 1]
                },
            ) by {
                if u == 0 {
                    assert(s[0] == q);
                } else {
                    assert(s[u] == rest[u - 1]);
                    if u == 1 {
                        assert(s[0] == q);
                    } else {
                        assert(s[u - 1] == rest[u - 2]);
                    }
                }
            }
        },
    }
}

/// Moving up from any line of call `i` but its header reaches the previous line.
proof fn lemma_up_lines(nodes: Seq<CallTraceNode>, collapsed: Seq<bool>, i: usize)
    requires
        tree_wf(nodes),
        unique_entries(nodes),
        no_trailing_steps(nodes),
        collapsed.len() == nodes.len(),
        i < nodes.len(),
    ensures
        ({
            let s = lines_of(nodes, collapsed, i);
            forall|u: int| 1 <= u < s.len() ==> #[trigger] up_from(nodes, collapsed, s[u]) == (true, s[u - 1])
        }),
    decreases nodes.len() - i, nodes[i as int].ordering@.len() + 1,
{
    let s = lines_of(nodes, collapsed, i);
    let node = nodes[i as int];
    let len = node.ordering@.len();
    assert(node.ordering.len() == len);
    let h = header(i);
    if !collapsed[i as int] {
        let mid = items_from(nodes, collapsed, i, 0);
        let tail = if is_returning(node) {
            seq![footer(i)]
        } else {
            seq![]
        };
        assert(s == seq![h] + mid + tail);
        if len > 0 {
            lemma_up_items(nodes, collapsed, i, 0);
            lemma_items_last(nodes, collapsed, i, 0);
            lemma_land(nodes, collapsed, i, (len - 1) as nat);
        } else {
            assert(mid =~= seq![]);
        }
        if is_returning(node) {
            let f = footer(i);
            assert(s[s.len() - 1] == f);
            if len > 0 {
                assert(s[s.len() - 2] == mid.last());
            } else {
                assert(s[s.len() - 2] == h);
            }
        }
        assert forall|u: int| 1 <= u < s.len() implies #[trigger] up_from(
            nodes,
            collapsed,
            s[u],
        ) == (true, s[u - 1]) by {
            if u <= mid.len() {
                assert(s[u] == mid[u - 1]);
                if u == 1 {
                    assert(s[0] == h);
                } else {
                    assert(s[u - 1] == mid[u - 2]);
                }
            }
        }
    }
}

/// Moving up from any line of the explorer but the first goes to the
/// previous line; from the first line (the root's header) it does not move.
/// This holds where no call that neither returns nor reverts ends with an
/// execution step.
pub proof fn law_up_walks_lines(nodes: Seq<CallTraceNode>, collapsed: Seq<bool>, t: int)
    requires
        tree_wf(nodes),
        unique_entries(nodes),
        no_trailing_steps(nodes),
        collapsed.len() == nodes.len(),
        0 <= t < all_lines(nodes, collapsed).len(),
    ensures
        ({
            let s = all_lines(nodes, collapsed);
            up_from(nodes, collapsed, s[t]) == if t > 0 {
                (true, s[t - 1])
            } else {
                (false, s[0])
            }
        }),
{
    lemma_up_lines(nodes, collapsed, 0);
    lemma_down_lines(nodes, collapsed, 0);
    let s = all_lines(nodes, collapsed);
    if t == 0 {
        assert(s[0] == header(0));
        assert(parent_step(nodes, header(0)) is None);
    }
}

/// Moving down and then up returns to the same line, from every line but
/// the last, where no call that neither returns nor reverts ends with an
/// execution step.
pub proof fn law_up_undoes_down(nodes: Seq<CallTraceNode>, collapsed: Seq<bool>, t: int)
    requires
        tree_wf(nodes),
        unique_entries(nodes),
        no_trailing_steps(nodes),
        collapsed.len() == nodes.len(),
        0 <= t < all_lines(nodes, collapsed).len() - 1,
    ensures
        ({
            let s = all_lines(nodes, collapsed);
            let d = down_from(nodes, collapsed, s[t]);
            &&& d.0
            &&& up_from(nodes, collapsed, d.1) == (true, s[t])
        }),
{
    law_down_walks_lines(nodes, collapsed, t);
    law_up_walks_lines(nodes, collapsed, t + 1);
}

} // verus!
