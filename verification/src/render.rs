//! Rendering a trace as text: every call writes its header, then (unless it
//! is collapsed) its logs, child calls and decoded steps in order, and its
//! footer. An internal function call found among the steps writes a header,
//! the entries up to the step where it ends, and a footer. Each line remembers
//! the place in the trace it shows, and the line of the cursor's place takes
//! the selection style.

use vstd::prelude::*;

use crate::arena::{
    is_returning, tree_wf, CallTraceNode, DecodedInternalCall, DecodedTraceStep, TraceMemberOrder,
};
use crate::display::{
    all_lines, items_from, law_down_walks_lines, law_up_walks_lines, lines_of,
    no_steps, no_trailing_steps, unique_entries,
};
use crate::navigation::{down_from, up_from};
use crate::navigation::{footer, header, item, ActiveCall, ActiveItem, TracesState};
use crate::text::push_str;
use crate::writer::{
    indentation, internal_footer_line, internal_footer_line_of, internal_header_line,
    internal_header_line_of, lines_view, log_line, log_line_of, node_footer_line,
    node_footer_line_of, node_header_line, node_header_line_of, spans_view, step_text_line,
    step_text_line_of, Line, LineView, SelectionStyle, Span, Style, StyledLine, Text,
};

verus! {

/// A rendered line: the place in the trace it shows, and its spans.
pub type Placed = (ActiveCall, LineView);

/// `a - b`, or zero when `b` is larger.
pub open spec fn saturating_gas(a: u64, b: u64) -> u64 {
    if a >= b {
        (a - b) as u64
    } else {
        0
    }
}

/// `lines` followed by what `rest` renders, ending where `rest` ends.
pub open spec fn then(lines: Seq<Placed>, rest: Option<(Seq<Placed>, nat)>) -> Option<
    (Seq<Placed>, nat),
> {
    match rest {
        Some(r) => Some((lines + r.0, r.1)),
        None => None,
    }
}

/// The lines of call `i` at depth `level`: its header, then, unless it is
/// collapsed, the lines of all its entries one level deeper and its footer.
/// Child calls nest at most `fuel` deep, which an arena without a cycle of
/// calls never exceeds from the root with one unit per node. `None` where the
/// arena names a node, a log, a child or a step that is not there, or where
/// the calls nest deeper than `fuel` (a cycle of calls).
pub open spec fn render_node(
    nodes: Seq<CallTraceNode>,
    collapsed: Seq<bool>,
    i: usize,
    level: nat,
    fuel: nat,
) -> Option<Seq<Placed>>
    decreases fuel, nodes[i as int].ordering@.len() + 1, 0nat,
{
    if i >= nodes.len() || i >= collapsed.len() {
        None
    } else if collapsed[i as int] {
        Some(seq![(header(i), node_header_line(level, true, nodes[i as int].trace))])
    } else {
        match render_items(nodes, collapsed, i, 0, None, level + 1, fuel) {
            Some(body) => Some(
                seq![(header(i), node_header_line(level, false, nodes[i as int].trace))] + body.0
                    + seq![(footer(i), node_footer_line(level + 1, nodes[i as int].trace))],
            ),
            None => None,
        }
    }
}

/// The lines of the entries of call `i` from entry `j` on, and the entry
/// where they stop: at the end of the ordering when `stop` is `None`, else at
/// the entry of step `stop` (`None` if the ordering ends first).
pub open spec fn render_items(
    nodes: Seq<CallTraceNode>,
    collapsed: Seq<bool>,
    i: usize,
    j: nat,
    stop: Option<usize>,
    level: nat,
    fuel: nat,
) -> Option<(Seq<Placed>, nat)>
    decreases fuel, nodes[i as int].ordering@.len() - j, 1nat,
{
    if i >= nodes.len() {
        None
    } else {
        let len = nodes[i as int].ordering@.len();
        if stop is None && j == len {
            Some((seq![], j))
        } else if j >= len {
            None
        } else if stop is Some && nodes[i as int].ordering@[j as int] == TraceMemberOrder::Step(
            stop->0,
        ) {
            Some((seq![], j))
        } else {
            match render_item(nodes, collapsed, i, j, level, fuel) {
                Some(r) => if j < r.1 <= len {
                    then(r.0, render_items(nodes, collapsed, i, r.1, stop, level, fuel))
                } else {
                    None
                },
                None => None,
            }
        }
    }
}

/// The lines of entry `j` of call `i`, and the entry after them: a log or a
/// text step is one line, a child call its own lines, an undecoded step none,
/// and an internal call its header, the entries up to its end step and its
/// footer.
pub open spec fn render_item(
    nodes: Seq<CallTraceNode>,
    collapsed: Seq<bool>,
    i: usize,
    j: nat,
    level: nat,
    fuel: nat,
) -> Option<(Seq<Placed>, nat)>
    decreases fuel, nodes[i as int].ordering@.len() - j, 0nat,
{
    if i >= nodes.len() || j >= nodes[i as int].ordering@.len() {
        None
    } else {
        let node = nodes[i as int];
        let len = node.ordering@.len();
        match node.ordering@[j as int] {
            TraceMemberOrder::Log(k) => if k < node.logs@.len() {
                Some((seq![(item(i, j as usize), log_line(level, node.logs@[k as int]))], j + 1))
            } else {
                None
            },
            TraceMemberOrder::Call(k) => if k < node.children@.len() && node.children@[k as int]
                < nodes.len() && fuel > 0 {
                match render_node(nodes, collapsed, node.children@[k as int], level, (fuel - 1) as nat) {
                    Some(block) => Some((block, j + 1)),
                    None => None,
                }
            } else {
                None
            },
            TraceMemberOrder::Step(k) => if k < node.trace.steps@.len() {
                match node.trace.steps@[k as int].decoded {
                    None => Some((seq![], j + 1)),
                    Some(DecodedTraceStep::Line(t)) => Some(
                        (seq![(item(i, j as usize), step_text_line(level, t@))], j + 1),
                    ),
                    Some(DecodedTraceStep::InternalCall(call, end)) => if end
                        < node.trace.steps@.len() {
                        let gas = saturating_gas(
                            node.trace.steps@[end as int].gas_used,
                            node.trace.steps@[k as int].gas_used,
                        );
                        match render_items(nodes, collapsed, i, j + 1, Some(end), level + 1, fuel) {
                            Some(inner) => if j < inner.1 < len {
                                Some(
                                    (
                                        seq![
                                            (item(i, j as usize), internal_header_line(level, gas, call)),
                                        ] + inner.0 + seq![
                                            (
                                                item(i, inner.1 as usize),
                                                internal_footer_line(level + 1, call),
                                            ),
                                        ],
                                        inner.1 + 1,
                                    ),
                                )
                            } else {
                                None
                            },
                            None => None,
                        }
                    } else {
                        None
                    },
                }
            } else {
                None
            },
        }
    }
}

/// The style of a line: the selection's colors on the cursor's line when
/// there is a selection style, no colors otherwise.
pub open spec fn line_style(selected: bool, selection: Option<SelectionStyle>) -> Style {
    match selection {
        Some(s) => if selected {
            Style { fg: s.fg, bg: s.bg }
        } else {
            Style { fg: None, bg: None }
        },
        None => Style { fg: None, bg: None },
    }
}

/// Rendered lines as shown with the cursor at `active`.
pub open spec fn shown(placed: Seq<Placed>, active: ActiveCall, selection: Option<SelectionStyle>) -> Seq<
    StyledLine,
> {
    placed.map_values(|p: Placed| (p.1, line_style(p.0 == active, selection)))
}

/// The whole text of a trace: the lines of the root call at depth zero,
/// with calls nesting at most as deep as there are nodes.
pub open spec fn render(nodes: Seq<CallTraceNode>, collapsed: Seq<bool>) -> Option<Seq<Placed>> {
    render_node(nodes, collapsed, 0, 0, nodes.len())
}

/// Shown lines of two runs of lines are the shown lines of each.
proof fn lemma_shown_add(
    a: Seq<Placed>,
    b: Seq<Placed>,
    active: ActiveCall,
    selection: Option<SelectionStyle>,
)
    ensures
        shown(a + b, active, selection) == shown(a, active, selection) + shown(b, active, selection),
{
    assert(shown(a + b, active, selection) =~= shown(a, active, selection) + shown(
        b,
        active,
        selection,
    ));
}

/// The style of a line at place `at`.
fn style_for(at: ActiveCall, active: ActiveCall, selection: Option<SelectionStyle>) -> (r: Style)
    ensures
        r == line_style(at == active, selection),
{
    match selection {
        Some(s) => if at == active {
            Style { fg: s.fg, bg: s.bg }
        } else {
            Style { fg: None, bg: None }
        },
        None => Style { fg: None, bg: None },
    }
}

/// Appends a line showing place `at`.
fn emit(
    out: &mut Vec<Line>,
    at: ActiveCall,
    spans: Vec<Span>,
    active: ActiveCall,
    selection: Option<SelectionStyle>,
)
    ensures
        lines_view(final(out)@) == lines_view(old(out)@) + shown(
            seq![(at, spans_view(spans@))],
            active,
            selection,
        ),
{
    let ghost before = out@;
    let ghost sv = spans_view(spans@);
    let line = Line { spans, style: style_for(at, active, selection) };
    out.push(line);
    proof {
        assert(lines_view(out@) =~= lines_view(before) + shown(seq![(at, sv)], active, selection));
    }
}

/// The indentation one level deeper.
fn deeper(indent: &String, top: bool, Ghost(level): Ghost<nat>) -> (r: String)
    requires
        indent@ == indentation(level),
        top == (level == 0),
    ensures
        r@ == indentation(level + 1),
{
    let mut r = indent.clone();
    if !top {
        push_str(&mut r, "  │ ");
    }
    r
}

/// Writes the lines of call `i`.
fn write_node(
    nodes: &[CallTraceNode],
    collapsed: &[bool],
    active: ActiveCall,
    selection: Option<SelectionStyle>,
    i: usize,
    indent: &String,
    top: bool,
    Ghost(level): Ghost<nat>,
    fuel: usize,
    out: &mut Vec<Line>,
) -> (ok: bool)
    requires
        indent@ == indentation(level),
        top == (level == 0),
    ensures
        ok == render_node(nodes@, collapsed@, i, level, fuel as nat) is Some,
        ok ==> lines_view(final(out)@) == lines_view(old(out)@) + shown(
            render_node(nodes@, collapsed@, i, level, fuel as nat).unwrap(),
            active,
            selection,
        ),
    decreases fuel, nodes@[i as int].ordering@.len() + 1, 0nat,
{
    if i >= nodes.len() || i >= collapsed.len() {
        return false;
    }
    let node = &nodes[i];
    let is_collapsed = collapsed[i];
    let ghost before = out@;
    let head = node_header_line_of(indent, is_collapsed, &node.trace);
    let at = ActiveCall { idx: i, active_item: ActiveItem::CallHeader };
    emit(out, at, head, active, selection);
    if is_collapsed {
        return true;
    }
    let inner = deeper(indent, top, Ghost(level));
    match write_items(
        nodes,
        collapsed,
        active,
        selection,
        i,
        0,
        None,
        &inner,
        false,
        Ghost(level + 1),
        fuel,
        out,
    ) {
        Some(_) => {
            let ghost body = render_items(nodes@, collapsed@, i, 0, None, level + 1, fuel as nat).unwrap().0;
            let foot = node_footer_line_of(&inner, &node.trace);
            let at = ActiveCall { idx: i, active_item: ActiveItem::ReturningValue };
            emit(out, at, foot, active, selection);
            proof {
                let h = seq![(header(i), node_header_line(level, false, nodes@[i as int].trace))];
                let f = seq![(footer(i), node_footer_line(level + 1, nodes@[i as int].trace))];
                lemma_shown_add(h, body, active, selection);
                lemma_shown_add(h + body, f, active, selection);
                assert(lines_view(out@) =~= lines_view(before) + shown(
                    h + body + f,
                    active,
                    selection,
                ));
            }
            true
        },
        None => false,
    }
}

/// Writes the lines of the entries of call `i` from entry `j0` on, and
/// returns the entry where they stop.
fn write_items(
    nodes: &[CallTraceNode],
    collapsed: &[bool],
    active: ActiveCall,
    selection: Option<SelectionStyle>,
    i: usize,
    j0: usize,
    stop: Option<usize>,
    indent: &String,
    top: bool,
    Ghost(level): Ghost<nat>,
    fuel: usize,
    out: &mut Vec<Line>,
) -> (r: Option<usize>)
    requires
        indent@ == indentation(level),
        top == (level == 0),
        i < nodes@.len() ==> j0 <= nodes@[i as int].ordering@.len(),
    ensures
        r is Some == render_items(nodes@, collapsed@, i, j0 as nat, stop, level, fuel as nat) is Some,
        r is Some ==> r->0 == render_items(nodes@, collapsed@, i, j0 as nat, stop, level, fuel as nat).unwrap().1,
        r is Some ==> lines_view(final(out)@) == lines_view(old(out)@) + shown(
            render_items(nodes@, collapsed@, i, j0 as nat, stop, level, fuel as nat).unwrap().0,
            active,
            selection,
        ),
    decreases fuel, nodes@[i as int].ordering@.len() - j0, 2nat,
{
    if i >= nodes.len() {
        return None;
    }
    let len = nodes[i].ordering.len();
    let ghost start = out@;
    let ghost mut acc: Seq<Placed> = seq![];
    let mut j = j0;
    loop
        invariant
            i < nodes@.len(),
            len == nodes@[i as int].ordering@.len(),
            j0 <= j <= len,
            indent@ == indentation(level),
            top == (level == 0),
            render_items(nodes@, collapsed@, i, j0 as nat, stop, level, fuel as nat) == then(
                acc,
                render_items(nodes@, collapsed@, i, j as nat, stop, level, fuel as nat),
            ),
            start == old(out)@,
            lines_view(out@) == lines_view(start) + shown(acc, active, selection),
        decreases len - j,
    {
        let at_stop = match stop {
            Some(e) => j < len && nodes[i].ordering[j] == TraceMemberOrder::Step(e),
            None => j == len,
        };
        if at_stop {
            proof {
                assert(render_items(nodes@, collapsed@, i, j as nat, stop, level, fuel as nat) == Some(
                    (Seq::<Placed>::empty(), j as nat),
                ));
                assert(acc + Seq::<Placed>::empty() =~= acc);
            }
            return Some(j);
        }
        if j >= len {
            return None;
        }
        let ghost before = out@;
        let next = match write_item(
            nodes,
            collapsed,
            active,
            selection,
            i,
            j,
            indent,
            top,
            Ghost(level),
            fuel,
            out,
        ) {
            Some(next) => next,
            None => {
                return None;
            },
        };
        if !(j < next && next <= len) {
            return None;
        }
        proof {
            let block = render_item(nodes@, collapsed@, i, j as nat, level, fuel as nat).unwrap().0;
            lemma_shown_add(acc, block, active, selection);
            let rest = render_items(nodes@, collapsed@, i, next as nat, stop, level, fuel as nat);
            assert(render_items(nodes@, collapsed@, i, j as nat, stop, level, fuel as nat) == then(block, rest));
            if rest is Some {
                assert(acc + (block + rest.unwrap().0) =~= acc + block + rest.unwrap().0);
            }
            acc = acc + block;
        }
        j = next;
    }
}

/// Writes the lines of entry `j` of call `i`, and returns the entry after
/// them.
fn write_item(
    nodes: &[CallTraceNode],
    collapsed: &[bool],
    active: ActiveCall,
    selection: Option<SelectionStyle>,
    i: usize,
    j: usize,
    indent: &String,
    top: bool,
    Ghost(level): Ghost<nat>,
    fuel: usize,
    out: &mut Vec<Line>,
) -> (r: Option<usize>)
    requires
        indent@ == indentation(level),
        top == (level == 0),
        i < nodes@.len(),
        j < nodes@[i as int].ordering@.len(),
    ensures
        r is Some == render_item(nodes@, collapsed@, i, j as nat, level, fuel as nat) is Some,
        r is Some ==> r->0 == render_item(nodes@, collapsed@, i, j as nat, level, fuel as nat).unwrap().1,
        r is Some ==> lines_view(final(out)@) == lines_view(old(out)@) + shown(
            render_item(nodes@, collapsed@, i, j as nat, level, fuel as nat).unwrap().0,
            active,
            selection,
        ),
    decreases fuel, nodes@[i as int].ordering@.len() - j, 1nat,
{
    let node = &nodes[i];
    let len = node.ordering.len();
    let at = ActiveCall { idx: i, active_item: ActiveItem::Item(j) };
    match node.ordering[j] {
        TraceMemberOrder::Log(k) => {
            if k >= node.logs.len() {
                return None;
            }
            let line = log_line_of(indent, &node.logs[k]);
            emit(out, at, line, active, selection);
            Some(j + 1)
        },
        TraceMemberOrder::Call(k) => {
            if k >= node.children.len() {
                return None;
            }
            let c = node.children[k];
            if !(c < nodes.len() && fuel > 0) {
                return None;
            }
            if write_node(
                nodes,
                collapsed,
                active,
                selection,
                c,
                indent,
                top,
                Ghost(level),
                fuel - 1,
                out,
            ) {
                Some(j + 1)
            } else {
                None
            }
        },
        TraceMemberOrder::Step(k) => {
            if k >= node.trace.steps.len() {
                return None;
            }
            match &node.trace.steps[k].decoded {
                None => {
                    // an undecoded step writes no line
                    assert(shown(Seq::<Placed>::empty(), active, selection) =~= Seq::<
                        StyledLine,
                    >::empty());
                    assert(lines_view(out@) =~= lines_view(out@) + Seq::<StyledLine>::empty());
                    Some(j + 1)
                },
                Some(DecodedTraceStep::Line(t)) => {
                    let line = step_text_line_of(indent, t);
                    emit(out, at, line, active, selection);
                    Some(j + 1)
                },
                Some(DecodedTraceStep::InternalCall(call, end)) => write_internal_call(
                    nodes,
                    collapsed,
                    active,
                    selection,
                    i,
                    j,
                    k,
                    call,
                    *end,
                    indent,
                    top,
                    Ghost(level),
                    fuel,
                    out,
                ),
            }
        },
    }
}

/// Writes an internal call starting at entry `j` (step `k`) and ending at
/// step `end`, and returns the entry after its end.
fn write_internal_call(
    nodes: &[CallTraceNode],
    collapsed: &[bool],
    active: ActiveCall,
    selection: Option<SelectionStyle>,
    i: usize,
    j: usize,
    k: usize,
    call: &DecodedInternalCall,
    end: usize,
    indent: &String,
    top: bool,
    Ghost(level): Ghost<nat>,
    fuel: usize,
    out: &mut Vec<Line>,
) -> (r: Option<usize>)
    requires
        indent@ == indentation(level),
        top == (level == 0),
        i < nodes@.len(),
        j < nodes@[i as int].ordering@.len(),
        nodes@[i as int].ordering@[j as int] == TraceMemberOrder::Step(k),
        k < nodes@[i as int].trace.steps@.len(),
        nodes@[i as int].trace.steps@[k as int].decoded == Some(
            DecodedTraceStep::InternalCall(*call, end),
        ),
    ensures
        r is Some == render_item(nodes@, collapsed@, i, j as nat, level, fuel as nat) is Some,
        r is Some ==> r->0 == render_item(nodes@, collapsed@, i, j as nat, level, fuel as nat).unwrap().1,
        r is Some ==> lines_view(final(out)@) == lines_view(old(out)@) + shown(
            render_item(nodes@, collapsed@, i, j as nat, level, fuel as nat).unwrap().0,
            active,
            selection,
        ),
    decreases fuel, nodes@[i as int].ordering@.len() - j, 0nat,
{
    let node = &nodes[i];
    let len = node.ordering.len();
    if end >= node.trace.steps.len() {
        return None;
    }
    let gas = node.trace.steps[end].gas_used.saturating_sub(node.trace.steps[k].gas_used);
    let head = internal_header_line_of(indent, gas, call);
    let at = ActiveCall { idx: i, active_item: ActiveItem::Item(j) };
    let ghost before = out@;
    emit(out, at, head, active, selection);
    let inner_indent = deeper(indent, top, Ghost(level));
    let e = match write_items(
        nodes,
        collapsed,
        active,
        selection,
        i,
        j + 1,
        Some(end),
        &inner_indent,
        false,
        Ghost(level + 1),
        fuel,
        out,
    ) {
        Some(e) => e,
        None => {
            return None;
        },
    };
    if !(j < e && e < len) {
        return None;
    }
    let foot = internal_footer_line_of(&inner_indent, call);
    let at = ActiveCall { idx: i, active_item: ActiveItem::Item(e) };
    emit(out, at, foot, active, selection);
    proof {
        let h = seq![(item(i, j), internal_header_line(level, gas, *call))];
        let inner = render_items(nodes@, collapsed@, i, (j + 1) as nat, Some(end), level + 1, fuel as nat).unwrap().0;
        let f = seq![(item(i, e), internal_footer_line(level + 1, *call))];
        lemma_shown_add(h, inner, active, selection);
        lemma_shown_add(h + inner, f, active, selection);
        assert(lines_view(out@) =~= lines_view(before) + shown(h + inner + f, active, selection));
    }
    Some(e + 1)
}

/// Every log entry of an ordering names an existing log.
pub open spec fn logs_present(nodes: Seq<CallTraceNode>) -> bool {
    forall|i: int, j: int|
        0 <= i < nodes.len() && 0 <= j < nodes[i].ordering@.len() && (#[trigger] nodes[i].ordering@[j]) is Log
            ==> nodes[i].ordering@[j]->Log_0 < nodes[i].logs@.len()
}

/// A line the cursor can stand on: any but the footer of a call that neither
/// returned nor reverted.
pub open spec fn cursor_line(nodes: Seq<CallTraceNode>, pos: ActiveCall) -> bool {
    !(pos.active_item is ReturningValue && !is_returning(nodes[pos.idx as int]))
}

/// The places of the rendered lines the cursor can stand on, in order.
pub open spec fn cursor_lines(nodes: Seq<CallTraceNode>, placed: Seq<Placed>) -> Seq<ActiveCall>
    decreases placed.len(),
{
    if placed.len() == 0 {
        seq![]
    } else {
        let rest = cursor_lines(nodes, placed.drop_last());
        if cursor_line(nodes, placed.last().0) {
            rest.push(placed.last().0)
        } else {
            rest
        }
    }
}

/// The cursor lines of two runs of lines are those of each.
proof fn lemma_cursor_lines_add(nodes: Seq<CallTraceNode>, a: Seq<Placed>, b: Seq<Placed>)
    ensures
        cursor_lines(nodes, a + b) == cursor_lines(nodes, a) + cursor_lines(nodes, b),
    decreases b.len(),
{
    if b.len() == 0 {
        assert(a + b =~= a);
        assert(cursor_lines(nodes, a) + cursor_lines(nodes, b) =~= cursor_lines(nodes, a));
    } else {
        lemma_cursor_lines_add(nodes, a, b.drop_last());
        assert((a + b).drop_last() =~= a + b.drop_last());
        assert((a + b).last() == b.last());
        if cursor_line(nodes, b.last().0) {
            assert(cursor_lines(nodes, a + b) =~= cursor_lines(nodes, a) + cursor_lines(nodes, b));
        } else {
            assert(cursor_lines(nodes, a + b) =~= cursor_lines(nodes, a) + cursor_lines(nodes, b));
        }
    }
}

/// The cursor lines of a single line.
proof fn lemma_cursor_lines_one(nodes: Seq<CallTraceNode>, p: Placed)
    ensures
        cursor_lines(nodes, seq![p]) == if cursor_line(nodes, p.0) {
            seq![p.0]
        } else {
            seq![]
        },
{
    assert(seq![p].drop_last() =~= Seq::<Placed>::empty());
    assert(cursor_lines(nodes, Seq::<Placed>::empty()) == Seq::<ActiveCall>::empty());
    if cursor_line(nodes, p.0) {
        assert(Seq::<ActiveCall>::empty().push(p.0) =~= seq![p.0]);
    }
}

/// A call of a step-free arena renders, and its cursor lines are the lines
/// the explorer walks through it.
proof fn lemma_render_node_walk(
    nodes: Seq<CallTraceNode>,
    collapsed: Seq<bool>,
    i: usize,
    level: nat,
    fuel: nat,
)
    requires
        fuel + i >= nodes.len(),
        tree_wf(nodes),
        no_steps(nodes),
        logs_present(nodes),
        collapsed.len() == nodes.len(),
        i < nodes.len(),
    ensures
        render_node(nodes, collapsed, i, level, fuel) is Some,
        cursor_lines(nodes, render_node(nodes, collapsed, i, level, fuel).unwrap()) == lines_of(
            nodes,
            collapsed,
            i,
        ),
    decreases nodes.len() - i, nodes[i as int].ordering@.len() + 1,
{
    let h = (header(i), node_header_line(level, collapsed[i as int], nodes[i as int].trace));
    lemma_cursor_lines_one(nodes, h);
    if !collapsed[i as int] {
        lemma_render_items_walk(nodes, collapsed, i, 0, level + 1, fuel);
        let body = render_items(nodes, collapsed, i, 0, None, level + 1, fuel).unwrap().0;
        let f = (footer(i), node_footer_line(level + 1, nodes[i as int].trace));
        lemma_cursor_lines_one(nodes, f);
        lemma_cursor_lines_add(nodes, seq![h], body);
        lemma_cursor_lines_add(nodes, seq![h] + body, seq![f]);
        assert(seq![h] + body + seq![f] == render_node(nodes, collapsed, i, level, fuel).unwrap());
    }
}

/// The entries of a call of a step-free arena from `j` on render to its end,
/// and their cursor lines are the lines the explorer walks through them.
proof fn lemma_render_items_walk(
    nodes: Seq<CallTraceNode>,
    collapsed: Seq<bool>,
    i: usize,
    j: nat,
    level: nat,
    fuel: nat,
)
    requires
        fuel + i >= nodes.len(),
        tree_wf(nodes),
        no_steps(nodes),
        logs_present(nodes),
        collapsed.len() == nodes.len(),
        i < nodes.len(),
        j <= nodes[i as int].ordering@.len(),
    ensures
        render_items(nodes, collapsed, i, j, None, level, fuel) is Some,
        render_items(nodes, collapsed, i, j, None, level, fuel).unwrap().1 == nodes[i as int].ordering@.len(),
        cursor_lines(nodes, render_items(nodes, collapsed, i, j, None, level, fuel).unwrap().0)
            == items_from(nodes, collapsed, i, j),
    decreases nodes.len() - i, nodes[i as int].ordering@.len() - j,
{
    let len = nodes[i as int].ordering@.len();
    if j == len {
        assert(cursor_lines(nodes, Seq::<Placed>::empty()) == Seq::<ActiveCall>::empty());
    } else {
        let entry = nodes[i as int].ordering@[j as int];
        assert(!(entry is Step));
        lemma_render_items_walk(nodes, collapsed, i, j + 1, level, fuel);
        let rest = render_items(nodes, collapsed, i, j + 1, None, level, fuel).unwrap().0;
        match entry {
            TraceMemberOrder::Log(k) => {
                let line = (item(i, j as usize), log_line(level, nodes[i as int].logs@[k as int]));
                lemma_cursor_lines_one(nodes, line);
                lemma_cursor_lines_add(nodes, seq![line], rest);
                assert(render_item(nodes, collapsed, i, j, level, fuel) == Some((seq![line], j + 1)));
            },
            TraceMemberOrder::Call(k) => {
                let c = nodes[i as int].children@[k as int];
                assert(nodes[c as int].parent == Some(i));
                assert(c != 0);
                lemma_render_node_walk(nodes, collapsed, c, level, (fuel - 1) as nat);
                let block = render_node(nodes, collapsed, c, level, (fuel - 1) as nat).unwrap();
                lemma_cursor_lines_add(nodes, block, rest);
                assert(render_item(nodes, collapsed, i, j, level, fuel) == Some((block, j + 1)));
            },
            TraceMemberOrder::Step(_) => {},
        }
    }
}

/// The lines of the text of a well-formed, step-free trace that the cursor
/// can stand on are, in the order shown, exactly the lines that moving down
/// and up walks: every line but the footers of calls that neither returned
/// nor reverted.
pub proof fn law_text_lines_are_walked(nodes: Seq<CallTraceNode>, collapsed: Seq<bool>)
    requires
        tree_wf(nodes),
        no_steps(nodes),
        logs_present(nodes),
        collapsed.len() == nodes.len(),
    ensures
        render(nodes, collapsed) is Some,
        cursor_lines(nodes, render(nodes, collapsed).unwrap()) == all_lines(nodes, collapsed),
{
    lemma_render_node_walk(nodes, collapsed, 0, 0, nodes.len());
}

/// In the text of a well-formed, step-free trace, moving down from a line the
/// cursor can stand on selects the next such line, and fails on the last.
pub proof fn law_down_selects_next_line(nodes: Seq<CallTraceNode>, collapsed: Seq<bool>, t: int)
    requires
        tree_wf(nodes),
        unique_entries(nodes),
        no_steps(nodes),
        logs_present(nodes),
        collapsed.len() == nodes.len(),
        0 <= t < cursor_lines(nodes, render(nodes, collapsed).unwrap()).len(),
    ensures
        ({
            let s = cursor_lines(nodes, render(nodes, collapsed).unwrap());
            let r = down_from(nodes, collapsed, s[t]);
            &&& t + 1 < s.len() ==> r == (true, s[t + 1])
            &&& t + 1 == s.len() ==> !r.0
        }),
{
    law_text_lines_are_walked(nodes, collapsed);
    law_down_walks_lines(nodes, collapsed, t);
}

/// In the text of a well-formed, step-free trace, moving up from a line the
/// cursor can stand on selects the one before it, and stays on the first.
pub proof fn law_up_selects_previous_line(nodes: Seq<CallTraceNode>, collapsed: Seq<bool>, t: int)
    requires
        tree_wf(nodes),
        unique_entries(nodes),
        no_steps(nodes),
        logs_present(nodes),
        collapsed.len() == nodes.len(),
        0 <= t < cursor_lines(nodes, render(nodes, collapsed).unwrap()).len(),
    ensures
        ({
            let s = cursor_lines(nodes, render(nodes, collapsed).unwrap());
            up_from(nodes, collapsed, s[t]) == if t > 0 {
                (true, s[t - 1])
            } else {
                (false, s[0])
            }
        }),
{
    assert(no_trailing_steps(nodes)) by {
        assert forall|i: int|
            0 <= i < nodes.len() && !is_returning(#[trigger] nodes[i]) && nodes[i].ordering@.len() > 0
                implies !(nodes[i].ordering@.last() is Step) by {
            let j = nodes[i].ordering@.len() - 1;
            assert(!(nodes[i].ordering@[j] is Step));
        }
    }
    law_text_lines_are_walked(nodes, collapsed);
    law_up_walks_lines(nodes, collapsed, t);
}

/// The places of rendered lines, in order.
pub open spec fn places(placed: Seq<Placed>) -> Seq<ActiveCall> {
    placed.map_values(|p: Placed| p.0)
}

/// Node `x` lies in the subtree of node `c`: it is `c`, or it comes after
/// `c` and its parent, which comes before it, lies there.
pub open spec fn in_subtree(nodes: Seq<CallTraceNode>, x: usize, c: usize) -> bool
    decreases x,
{
    if x == c {
        true
    } else if x > c {
        match nodes[x as int].parent {
            Some(p) => p < x && in_subtree(nodes, p, c),
            None => false,
        }
    } else {
        false
    }
}

/// What lies in the subtree of a child lies in the subtree of its parent.
proof fn lemma_subtree_of_parent(nodes: Seq<CallTraceNode>, x: usize, c: usize, i: usize)
    requires
        in_subtree(nodes, x, c),
        nodes[c as int].parent == Some(i),
        i < c,
    ensures
        in_subtree(nodes, x, i),
    decreases x,
{
    assert(in_subtree(nodes, i, i));
    if x != c {
        let p = nodes[x as int].parent->0;
        lemma_subtree_of_parent(nodes, p, c, i);
    }
}

/// The subtrees of two different children of a call share no node.
proof fn lemma_subtrees_disjoint(nodes: Seq<CallTraceNode>, x: usize, c1: usize, c2: usize, i: usize)
    requires
        c1 != c2,
        nodes[c1 as int].parent == Some(i),
        nodes[c2 as int].parent == Some(i),
        i < c1,
        i < c2,
    ensures
        !(in_subtree(nodes, x, c1) && in_subtree(nodes, x, c2)),
    decreases x,
{
    if in_subtree(nodes, x, c1) && in_subtree(nodes, x, c2) {
        if x == c1 {
            assert(in_subtree(nodes, i, c2));
        } else if x == c2 {
            assert(in_subtree(nodes, i, c1));
        } else {
            let p = nodes[x as int].parent->0;
            lemma_subtrees_disjoint(nodes, p, c1, c2, i);
        }
    }
}

/// Two runs without repeats, sharing nothing, make a run without repeats.
proof fn lemma_no_duplicates_add(a: Seq<ActiveCall>, b: Seq<ActiveCall>)
    requires
        a.no_duplicates(),
        b.no_duplicates(),
        forall|s: int, t: int| 0 <= s < a.len() && 0 <= t < b.len() ==> a[s] != b[t],
    ensures
        (a + b).no_duplicates(),
{
    assert forall|s: int, t: int|
        0 <= s < (a + b).len() && 0 <= t < (a + b).len() && s != t implies (a + b)[s] != (a
            + b)[t] by {
        if s < a.len() && t >= a.len() {
            assert(a[s] != b[t - a.len()]);
        } else if s >= a.len() && t < a.len() {
            assert(a[t] != b[s - a.len()]);
        }
    }
}

/// The places of a call's lines in a step-free arena with unique entries
/// are all different and all lie in the call's subtree.
proof fn lemma_node_places(nodes: Seq<CallTraceNode>, collapsed: Seq<bool>, i: usize, level: nat, fuel: nat)
    requires
        fuel + i >= nodes.len(),
        tree_wf(nodes),
        unique_entries(nodes),
        no_steps(nodes),
        logs_present(nodes),
        collapsed.len() == nodes.len(),
        i < nodes.len(),
    ensures
        render_node(nodes, collapsed, i, level, fuel) is Some,
        places(render_node(nodes, collapsed, i, level, fuel).unwrap()).no_duplicates(),
        forall|t: int|
            0 <= t < places(render_node(nodes, collapsed, i, level, fuel).unwrap()).len()
                ==> in_subtree(
                nodes,
                #[trigger] places(render_node(nodes, collapsed, i, level, fuel).unwrap())[t].idx,
                i,
            ),
    decreases nodes.len() - i, nodes[i as int].ordering@.len() + 1,
{
    lemma_render_node_walk(nodes, collapsed, i, level, fuel);
    let h = (header(i), node_header_line(level, collapsed[i as int], nodes[i as int].trace));
    if collapsed[i as int] {
        assert(places(seq![h]) =~= seq![header(i)]);
    } else {
        lemma_items_places(nodes, collapsed, i, 0, level + 1, fuel);
        let body = render_items(nodes, collapsed, i, 0, None, level + 1, fuel).unwrap().0;
        let f = (footer(i), node_footer_line(level + 1, nodes[i as int].trace));
        let pb = places(body);
        assert(places(seq![h] + body + seq![f]) =~= seq![header(i)] + pb + seq![footer(i)]);
        assert(seq![header(i)].no_duplicates());
        lemma_no_duplicates_add(seq![header(i)], pb);
        assert(seq![footer(i)].no_duplicates());
        assert forall|s: int, t: int|
            0 <= s < (seq![header(i)] + pb).len() && 0 <= t < 1 implies (seq![header(i)]
            + pb)[s] != seq![footer(i)][t] by {
            if s > 0 {
                assert(pb[s - 1] == (seq![header(i)] + pb)[s]);
            }
        }
        lemma_no_duplicates_add(seq![header(i)] + pb, seq![footer(i)]);
        let all = seq![header(i)] + pb + seq![footer(i)];
        assert forall|t: int| 0 <= t < all.len() implies in_subtree(nodes, #[trigger] all[t].idx, i) by {
            if 0 < t < all.len() - 1 {
                assert(all[t] == pb[t - 1]);
            }
        }
    }
}

/// The places of the lines of the entries of call `i` from `j` on, in a
/// step-free arena with unique entries: all different, all in the call's
/// subtree, those of the call itself at entries from `j` on, and the others
/// in the subtree of a child named by an entry from `j` on.
proof fn lemma_items_places(
    nodes: Seq<CallTraceNode>,
    collapsed: Seq<bool>,
    i: usize,
    j: nat,
    level: nat,
    fuel: nat,
)
    requires
        fuel + i >= nodes.len(),
        tree_wf(nodes),
        unique_entries(nodes),
        no_steps(nodes),
        logs_present(nodes),
        collapsed.len() == nodes.len(),
        i < nodes.len(),
        j <= nodes[i as int].ordering@.len(),
    ensures
        render_items(nodes, collapsed, i, j, None, level, fuel) is Some,
        ({
            let ps = places(render_items(nodes, collapsed, i, j, None, level, fuel).unwrap().0);
            let ord = nodes[i as int].ordering@;
            &&& ps.no_duplicates()
            &&& forall|t: int| 0 <= t < ps.len() ==> in_subtree(nodes, #[trigger] ps[t].idx, i)
            &&& forall|t: int|
                0 <= t < ps.len() && (#[trigger] ps[t]).idx == i ==> (ps[t].active_item matches ActiveItem::Item(m)
                    && m >= j)
            &&& forall|t: int|
                0 <= t < ps.len() && (#[trigger] ps[t]).idx != i ==> exists|j2: int|
                    j <= j2 < ord.len() && (#[trigger] ord[j2]) is Call && in_subtree(
                        nodes,
                        ps[t].idx,
                        nodes[i as int].children@[ord[j2]->Call_0 as int],
                    )
        }),
    decreases nodes.len() - i, nodes[i as int].ordering@.len() - j,
{
    lemma_render_items_walk(nodes, collapsed, i, j, level, fuel);
    let len = nodes[i as int].ordering@.len();
    let ord = nodes[i as int].ordering@;
    assert(nodes[i as int].ordering.len() == len);
    if j == len {
        assert(places(Seq::<Placed>::empty()) =~= Seq::<ActiveCall>::empty());
    } else {
        let entry = ord[j as int];
        assert(!(entry is Step));
        lemma_items_places(nodes, collapsed, i, j + 1, level, fuel);
        let rest = render_items(nodes, collapsed, i, j + 1, None, level, fuel).unwrap().0;
        let pr = places(rest);
        match entry {
            TraceMemberOrder::Log(k) => {
                let line = (item(i, j as usize), log_line(level, nodes[i as int].logs@[k as int]));
                assert(render_item(nodes, collapsed, i, j, level, fuel) == Some((seq![line], j + 1)));
                assert(places(seq![line] + rest) =~= seq![item(i, j as usize)] + pr);
                assert(seq![item(i, j as usize)].no_duplicates());
                let head = seq![item(i, j as usize)];
                assert forall|s: int, t: int| 0 <= s < 1 && 0 <= t < pr.len() implies #[trigger] head[s]
                    != #[trigger] pr[t] by {
                    if pr[t].idx == i {
                        assert(pr[t].active_item matches ActiveItem::Item(m) && m >= j + 1);
                    }
                }
                lemma_no_duplicates_add(seq![item(i, j as usize)], pr);
                let ps = seq![item(i, j as usize)] + pr;
                assert forall|t: int| 0 <= t < ps.len() implies in_subtree(nodes, #[trigger] ps[t].idx, i) by {
                    if t > 0 {
                        assert(ps[t] == pr[t - 1]);
                    }
                }
                assert forall|t: int| 0 <= t < ps.len() && (#[trigger] ps[t]).idx == i implies (
                ps[t].active_item matches ActiveItem::Item(m) && m >= j) by {
                    if t > 0 {
                        assert(ps[t] == pr[t - 1]);
                    }
                }
                assert forall|t: int| 0 <= t < ps.len() && (#[trigger] ps[t]).idx != i implies exists|j2: int|
                    j <= j2 < ord.len() && (#[trigger] ord[j2]) is Call && in_subtree(
                        nodes,
                        ps[t].idx,
                        nodes[i as int].children@[ord[j2]->Call_0 as int],
                    ) by {
                    assert(ps[t] == pr[t - 1]);
                }
            },
            TraceMemberOrder::Call(k) => {
                let c = nodes[i as int].children@[k as int];
                assert(nodes[c as int].parent == Some(i));
                assert(c != 0);
                lemma_node_places(nodes, collapsed, c, level, (fuel - 1) as nat);
                let block = render_node(nodes, collapsed, c, level, (fuel - 1) as nat).unwrap();
                assert(render_item(nodes, collapsed, i, j, level, fuel) == Some((block, j + 1)));
                let pb = places(block);
                assert(places(block + rest) =~= pb + pr);
                assert forall|s: int, t: int| 0 <= s < pb.len() && 0 <= t < pr.len() implies pb[s]
                    != pr[t] by {
                    let x = pb[s].idx;
                    assert(in_subtree(nodes, x, c));
                    if pb[s] == pr[t] {
                        if x == i {
                        } else {
                            let j2 = choose|j2: int|
                                j + 1 <= j2 < ord.len() && (#[trigger] ord[j2]) is Call && in_subtree(
                                    nodes,
                                    pr[t].idx,
                                    nodes[i as int].children@[ord[j2]->Call_0 as int],
                                );
                            let k2 = ord[j2]->Call_0;
                            assert(ord[j as int] != ord[j2]);
                            assert(k2 < nodes[i as int].children@.len());
                            let c2 = nodes[i as int].children@[k2 as int];
                            assert(c != c2) by {
                                if k < k2 {
                                    assert(nodes[i as int].children@[k as int]
                                        != nodes[i as int].children@[k2 as int]);
                                } else {
                                    assert(nodes[i as int].children@[k2 as int]
                                        != nodes[i as int].children@[k as int]);
                                }
                            }
                            assert(nodes[c2 as int].parent == Some(i));
                            assert(c2 != 0);
                            lemma_subtrees_disjoint(nodes, x, c, c2, i);
                        }
                    }
                }
                lemma_no_duplicates_add(pb, pr);
                let ps = pb + pr;
                assert forall|t: int| 0 <= t < ps.len() implies in_subtree(nodes, #[trigger] ps[t].idx, i) by {
                    if t < pb.len() {
                        assert(ps[t] == pb[t]);
                        lemma_subtree_of_parent(nodes, pb[t].idx, c, i);
                    } else {
                        assert(ps[t] == pr[t - pb.len()]);
                    }
                }
                assert forall|t: int| 0 <= t < ps.len() && (#[trigger] ps[t]).idx == i implies (
                ps[t].active_item matches ActiveItem::Item(m) && m >= j) by {
                    if t < pb.len() {
                        assert(ps[t] == pb[t]);
                        assert(in_subtree(nodes, pb[t].idx, c));
                    } else {
                        assert(ps[t] == pr[t - pb.len()]);
                    }
                }
                assert forall|t: int| 0 <= t < ps.len() && (#[trigger] ps[t]).idx != i implies exists|j2: int|
                    j <= j2 < ord.len() && (#[trigger] ord[j2]) is Call && in_subtree(
                        nodes,
                        ps[t].idx,
                        nodes[i as int].children@[ord[j2]->Call_0 as int],
                    ) by {
                    if t < pb.len() {
                        assert(ps[t] == pb[t]);
                        assert(in_subtree(nodes, pb[t].idx, c));
                        assert(ord[j as int] is Call);
                    } else {
                        assert(ps[t] == pr[t - pb.len()]);
                    }
                }
            },
            TraceMemberOrder::Step(_) => {},
        }
    }
}

/// In the text of a well-formed, step-free trace whose calls list no child
/// twice and no child call twice, no two lines show the same place in the
/// trace: the cursor's place is on one line at most, the only one drawn in
/// the selection style.
pub proof fn law_text_places_are_distinct(nodes: Seq<CallTraceNode>, collapsed: Seq<bool>)
    requires
        tree_wf(nodes),
        unique_entries(nodes),
        no_steps(nodes),
        logs_present(nodes),
        collapsed.len() == nodes.len(),
    ensures
        render(nodes, collapsed) is Some,
        places(render(nodes, collapsed).unwrap()).no_duplicates(),
{
    lemma_node_places(nodes, collapsed, 0, 0, nodes.len());
}

impl TracesState {
    /// The trace as text, with the cursor's line in the selection style when
    /// one is given. An arena that names a log, a child call or a step that
    /// is not there, whose calls form a cycle, or whose internal call never
    /// reaches its end step, is refused.
    pub fn to_text(&self, selection: Option<SelectionStyle>) -> (r: Result<Text, RenderError>)
        ensures
            match render(self.data.nodes@, self.collapsed@) {
                Some(lines) => r is Ok && r->Ok_0@ == shown(lines, self.active_call, selection),
                None => r == Err::<Text, RenderError>(RenderError::MalformedTrace),
            },
    {
        let mut lines: Vec<Line> = Vec::new();
        let indent = String::from_str("  ");
        proof {
            reveal_strlit("  ");
        }
        if write_node(
            self.data.nodes.as_slice(),
            self.collapsed.as_slice(),
            self.active_call,
            selection,
            0,
            &indent,
            true,
            Ghost(0),
            self.data.nodes.len(),
            &mut lines,
        ) {
            proof {
                assert(lines_view(lines@) =~= shown(
                    render(self.data.nodes@, self.collapsed@)->0,
                    self.active_call,
                    selection,
                ));
            }
            Ok(Text { lines })
        } else {
            Err(RenderError::MalformedTrace)
        }
    }
}

/// Why a trace could not be rendered.
#[derive(Clone, Copy, Debug, PartialEq, Eq, Structural)]
pub enum RenderError {
    MalformedTrace,
}

impl RenderError {
    /// The message of the error.
    pub fn message(&self) -> (r: &'static str)
        ensures
            r@ == "malformed call trace"@,
    {
        "malformed call trace"
    }
}

} // verus!
