//! The text the explorer draws: one line per call header, log, step and
//! footer, indented by depth, with styled spans.

use vstd::prelude::*;

use crate::arena::{
    CallKind, CallLog, CallTrace, CallTraceNode, DecodedCallTrace, DecodedInternalCall,
    DecodedTraceStep, InstructionResult, TraceMemberOrder,
};
use crate::text::{
    before_char, decimal, join, join_strings, push_char, push_str, split_first,
    u64_to_decimal, usize_to_decimal, views,
};
use crate::values::{
    address_to_checksum, checksummed, hex_encode, hex_of, push_hex, push_hex_range, u256_is_zero,
    u256_to_decimal, u256_value,
};
use vstd::string::StrSliceExecFns;

verus! {

/// A color.
#[derive(Clone, Copy, Debug, PartialEq, Eq, Structural)]
pub enum Color {
    Green,
    Red,
    Yellow,
    Cyan,
    Gray,
    Rgb(u8, u8, u8),
}

/// The style of a span or a line: optional foreground and background colors.
#[derive(Clone, Copy, Debug, PartialEq, Eq, Structural)]
pub struct Style {
    pub fg: Option<Color>,
    pub bg: Option<Color>,
}

/// The colors of the line that holds the cursor.
#[derive(Clone, Copy, Debug, PartialEq, Eq, Structural)]
pub struct SelectionStyle {
    pub fg: Option<Color>,
    pub bg: Option<Color>,
}

impl Default for SelectionStyle {
    /// A gray background.
    fn default() -> (s: Self)
        ensures
            s == (SelectionStyle { fg: None, bg: Some(Color::Gray) }),
    {
        SelectionStyle { fg: None, bg: Some(Color::Gray) }
    }
}

/// A run of text in one style.
#[derive(Debug)]
pub struct Span {
    pub content: String,
    pub style: Style,
}

/// A line of spans, with a style of its own.
#[derive(Debug)]
pub struct Line {
    pub spans: Vec<Span>,
    pub style: Style,
}

/// Lines of text.
#[derive(Debug)]
pub struct Text {
    pub lines: Vec<Line>,
}

/// A span as its characters and style.
pub type SpanView = (Seq<char>, Style);

/// The spans of a line.
pub type LineView = Seq<SpanView>;

/// A line as its spans and its own style.
pub type StyledLine = (LineView, Style);

impl View for Span {
    type V = SpanView;

    open spec fn view(&self) -> SpanView {
        (self.content@, self.style)
    }
}

/// The spans of a vector of spans.
pub open spec fn spans_view(spans: Seq<Span>) -> LineView {
    spans.map_values(|s: Span| s@)
}

impl View for Line {
    type V = StyledLine;

    open spec fn view(&self) -> StyledLine {
        (spans_view(self.spans@), self.style)
    }
}

/// The lines of a vector of lines.
pub open spec fn lines_view(lines: Seq<Line>) -> Seq<StyledLine> {
    lines.map_values(|l: Line| l@)
}

impl View for Text {
    type V = Seq<StyledLine>;

    open spec fn view(&self) -> Seq<StyledLine> {
        lines_view(self.lines@)
    }
}

/// No colors.
pub open spec fn plain() -> Style {
    Style { fg: None, bg: None }
}

/// An unstyled span.
pub open spec fn raw(s: Seq<char>) -> SpanView {
    (s, plain())
}

/// A span in a foreground color.
pub open spec fn styled(s: Seq<char>, c: Color) -> SpanView {
    (s, Style { fg: Some(c), bg: None })
}

/// Green for a successful call, red for a failed one.
pub open spec fn status_color(success: bool) -> Color {
    if success {
        Color::Green
    } else {
        Color::Red
    }
}

/// The indentation of a line at a depth: two spaces, and a vertical bar for
/// every level below the first.
pub open spec fn indentation(level: nat) -> Seq<char>
    decreases level,
{
    if level <= 1 {
        "  "@
    } else {
        indentation((level - 1) as nat) + "  │ "@
    }
}

/// The label of a call, or `default` without one.
pub open spec fn label_or(decoded: Option<DecodedCallTrace>, default: Seq<char>) -> Seq<char> {
    match decoded {
        Some(d) => match d.label {
            Some(l) => l@,
            None => default,
        },
        None => default,
    }
}

/// A call's function name and inputs: from the decoded signature and
/// arguments, else the selector and the rest of the calldata in hex (a
/// `fallback` for calldata shorter than a selector).
pub open spec fn name_and_inputs(trace: CallTrace) -> (Seq<char>, Seq<char>) {
    let raw_call = if trace.data@.len() < 4 {
        ("fallback"@, hex_of(trace.data@))
    } else {
        (hex_of(trace.data@.take(4)), hex_of(trace.data@.skip(4)))
    };
    match trace.decoded {
        Some(d) => match d.call_data {
            Some(cd) => (before_char(cd.signature@, '('), join(views(cd.args@), ", "@)),
            None => raw_call,
        },
        None => raw_call,
    }
}

/// The marker shown after a call of a special kind.
pub open spec fn kind_marker(kind: CallKind) -> Option<Seq<char>> {
    match kind {
        CallKind::StaticCall => Some(" [staticcall]"@),
        CallKind::CallCode => Some(" [callcode]"@),
        CallKind::DelegateCall => Some(" [delegatecall]"@),
        CallKind::AuthCall => Some(" [authcall]"@),
        _ => None,
    }
}

/// The spans of a call's header: gas used, then `→ new label@address` for a
/// creation, or `label::function`, a non-zero value, the inputs and the kind
/// marker for a call.
pub open spec fn header_spans(trace: CallTrace) -> Seq<SpanView> {
    let style = status_color(trace.success);
    let address = checksummed(trace.address@);
    let gas = raw("["@ + decimal(trace.gas_used as nat) + "] "@);
    if trace.kind is Create || trace.kind is Create2 {
        seq![
            gas,
            styled("→ "@, Color::Yellow),
            styled("new "@, Color::Yellow),
            styled(label_or(trace.decoded, "<unknown>"@) + "@"@ + address, style),
        ]
    } else {
        let ni = name_and_inputs(trace);
        seq![gas, styled(label_or(trace.decoded, address) + "::"@ + ni.0, style)] + (if u256_value(
            trace.value,
        ) != 0 {
            seq![raw("{value: "@ + decimal(u256_value(trace.value)) + "}"@)]
        } else {
            seq![]
        }) + seq![raw("("@ + ni.1 + ")"@)] + match kind_marker(trace.kind) {
            Some(m) => seq![styled(m, Color::Yellow)],
            None => seq![],
        }
    }
}

/// The spans of a call's footer: `← [status]`, then the decoded return
/// data, or the size of created code, or the raw output.
pub open spec fn footer_spans(trace: CallTrace) -> Seq<SpanView> {
    let style = status_color(trace.success);
    let status = match trace.status {
        Some(s) => s,
        None => InstructionResult::Stop,
    };
    let returned = match trace.decoded {
        Some(d) => d.return_data,
        None => None,
    };
    seq![styled("← "@, style), styled("["@ + status.spec_name() + "]"@, style)] + match returned {
        Some(r) => seq![styled(" "@ + r@, style)],
        None => if (trace.kind is Create || trace.kind is Create2) && (trace.status is None
            || status.spec_is_ok()) {
            seq![raw(" "@ + decimal(trace.output@.len()) + " bytes of code"@)]
        } else if trace.output@.len() > 0 {
            seq![raw(" 0x"@ + hex_of(trace.output@))]
        } else {
            seq![]
        },
    }
}

/// The header line of a call at a depth, with its collapse marker.
pub open spec fn node_header_line(level: nat, collapsed: bool, trace: CallTrace) -> LineView {
    seq![raw(indentation(level)), raw(if collapsed { "  ⏵ "@ } else { "  ⏷ "@ })] + header_spans(trace)
}

/// The footer line of a call at a depth.
pub open spec fn node_footer_line(level: nat, trace: CallTrace) -> LineView {
    seq![raw(indentation(level)), raw("  └─ "@)] + footer_spans(trace)
}

/// `name: value` for each decoded event parameter.
pub open spec fn param_strings(params: Seq<(String, String)>) -> Seq<Seq<char>> {
    params.map_values(|p: (String, String)| p.0@ + ": "@ + p.1@)
}

/// `topicN: 0x…` for each topic.
pub open spec fn topic_strings(topics: Seq<[u8; 32]>) -> Seq<Seq<char>> {
    Seq::new(
        topics.len(),
        |i: int| "topic"@ + decimal(i as nat) + ": 0x"@ + hex_of(topics[i]@),
    )
}

/// The line of an event: its decoded name and parameters, else its raw
/// topics and data.
pub open spec fn log_line(level: nat, log: CallLog) -> LineView {
    seq![raw(indentation(level)), raw("  ├─ "@)] + match log.decoded {
        Some(d) => seq![
            raw(
                "emit "@ + match d.name {
                    Some(n) => n@,
                    None => "UnknownEvent"@,
                } + "("@,
            ),
        ] + match d.params {
            Some(p) => seq![styled(join(param_strings(p@), ", "@), Color::Cyan)],
            None => seq![],
        } + seq![raw(")"@)],
        None => seq![raw("emit "@)] + (if log.topics@.len() > 0 {
            seq![styled(join(topic_strings(log.topics@), ", "@), Color::Cyan)]
        } else {
            seq![]
        }) + seq![styled(" data: 0x"@ + hex_of(log.data@), Color::Cyan)],
    }
}

/// The line of an undecoded event: `emit `, then (when it has topics) each
/// topic as `topicN: 0x` and the hex of the N-th topic, comma-separated, then
/// ` data: 0x` and the hex of its data; the topics and data in cyan.
pub proof fn law_undecoded_log_line(level: nat, log: CallLog)
    requires
        log.decoded is None,
    ensures
        ({
            let line = log_line(level, log);
            let n = log.topics@.len();
            let parts = Seq::new(
                n,
                |i: int| "topic"@ + decimal(i as nat) + ": 0x"@ + hex_of(log.topics@[i]@),
            );
            &&& line[0] == raw(indentation(level))
            &&& line[2] == raw("emit "@)
            &&& n > 0 ==> line.len() == 5 && line[3] == styled(join(parts, ", "@), Color::Cyan)
                && line[4] == styled(" data: 0x"@ + hex_of(log.data@), Color::Cyan)
            &&& n == 0 ==> line.len() == 4 && line[3] == styled(
                " data: 0x"@ + hex_of(log.data@),
                Color::Cyan,
            )
        }),
{
    let parts = Seq::new(
        log.topics@.len(),
        |i: int| "topic"@ + decimal(i as nat) + ": 0x"@ + hex_of(log.topics@[i]@),
    );
    assert(topic_strings(log.topics@) =~= parts);
}

/// The line of a step shown as text.
pub open spec fn step_text_line(level: nat, text: Seq<char>) -> LineView {
    seq![raw(indentation(level)), raw("  ├─ "@), raw(text)]
}

/// The header line of an internal call: gas used, name and arguments.
pub open spec fn internal_header_line(level: nat, gas: u64, call: DecodedInternalCall) -> LineView {
    let args = match call.args {
        Some(a) => "("@ + join(views(a@), ", "@) + ")"@,
        None => seq![],
    };
    seq![
        raw(indentation(level)),
        raw("  ├─ "@),
        raw("["@ + decimal(gas as nat) + "] "@ + call.func_name@ + args),
    ]
}

/// The footer line of an internal call: its return values.
pub open spec fn internal_footer_line(level: nat, call: DecodedInternalCall) -> LineView {
    seq![raw(indentation(level)), raw("  └─ "@), raw("← "@)] + match call.return_data {
        Some(r) => seq![raw(join(views(r@), ", "@))],
        None => seq![],
    }
}


/// A span with no colors.
pub fn raw_span(content: String) -> (r: Span)
    ensures
        r@ == raw(content@),
{
    Span { content, style: Style { fg: None, bg: None } }
}

/// A span in a foreground color.
pub fn styled_span(content: String, color: Color) -> (r: Span)
    ensures
        r@ == styled(content@, color),
{
    Span { content, style: Style { fg: Some(color), bg: None } }
}

/// A string holding the given text.
fn owned(t: &str) -> (r: String)
    ensures
        r@ == t@,
{
    String::from_str(t)
}

/// Appends a span.
fn push_span(spans: &mut Vec<Span>, span: Span)
    ensures
        spans_view(final(spans)@) == spans_view(old(spans)@).push(span@),
{
    let ghost before = spans@;
    spans.push(span);
    proof {
        assert(spans_view(spans@) =~= spans_view(before).push(span@));
    }
}

/// Green for a successful call, red for a failed one.
fn status_color_of(success: bool) -> (c: Color)
    ensures
        c == status_color(success),
{
    if success {
        Color::Green
    } else {
        Color::Red
    }
}

/// The call's label, or a copy of `default` without one.
fn label_text(decoded: &Option<DecodedCallTrace>, default: &String) -> (r: String)
    ensures
        r@ == label_or(*decoded, default@),
{
    match decoded {
        Some(d) => match &d.label {
            Some(l) => l.clone(),
            None => default.clone(),
        },
        None => default.clone(),
    }
}

/// A call's function name and inputs.
fn name_and_inputs_of(trace: &CallTrace) -> (r: (String, String))
    ensures
        (r.0@, r.1@) == name_and_inputs(*trace),
{
    let call_data = match &trace.decoded {
        Some(d) => match &d.call_data {
            Some(cd) => Some(cd),
            None => None,
        },
        None => None,
    };
    match call_data {
        Some(cd) => (split_first(cd.signature.as_str(), '('), join_strings(cd.args.as_slice(), ", ")),
        None => {
            let n = trace.data.len();
            if n < 4 {
                (owned("fallback"), hex_encode(trace.data.as_slice()))
            } else {
                let mut selector = String::new();
                push_hex_range(&mut selector, trace.data.as_slice(), 0, 4);
                let mut inputs = String::new();
                push_hex_range(&mut inputs, trace.data.as_slice(), 4, n);
                proof {
                    assert(trace.data@.subrange(0, 4) =~= trace.data@.take(4));
                    assert(trace.data@.subrange(4, n as int) =~= trace.data@.skip(4));
                }
                (selector, inputs)
            }
        },
    }
}

/// The spans of a call's header.
pub fn header_spans_of(trace: &CallTrace) -> (r: Vec<Span>)
    ensures
        spans_view(r@) == header_spans(*trace),
{
    let style = status_color_of(trace.success);
    let address = address_to_checksum(&trace.address);
    let mut spans: Vec<Span> = Vec::new();
    let mut gas = owned("[");
    let digits = u64_to_decimal(trace.gas_used);
    push_str(&mut gas, digits.as_str());
    push_str(&mut gas, "] ");
    push_span(&mut spans, raw_span(gas));
    if trace.kind.is_any_create() {
        push_span(&mut spans, styled_span(owned("→ "), Color::Yellow));
        push_span(&mut spans, styled_span(owned("new "), Color::Yellow));
        let unknown = owned("<unknown>");
        let mut who = label_text(&trace.decoded, &unknown);
        push_str(&mut who, "@");
        push_str(&mut who, address.as_str());
        push_span(&mut spans, styled_span(who, style));
        proof {
            assert(spans_view(spans@) =~= header_spans(*trace));
        }
    } else {
        let (name, inputs) = name_and_inputs_of(trace);
        let mut callee = label_text(&trace.decoded, &address);
        push_str(&mut callee, "::");
        push_str(&mut callee, name.as_str());
        push_span(&mut spans, styled_span(callee, style));
        let ghost with_callee = spans_view(spans@);
        if !u256_is_zero(&trace.value) {
            let mut value = owned("{value: ");
            let amount = u256_to_decimal(&trace.value);
            push_str(&mut value, amount.as_str());
            push_str(&mut value, "}");
            push_span(&mut spans, raw_span(value));
        }
        let ghost with_value = spans_view(spans@);
        let mut args = owned("(");
        push_str(&mut args, inputs.as_str());
        push_str(&mut args, ")");
        push_span(&mut spans, raw_span(args));
        let marker = match trace.kind {
            CallKind::StaticCall => Some(" [staticcall]"),
            CallKind::CallCode => Some(" [callcode]"),
            CallKind::DelegateCall => Some(" [delegatecall]"),
            CallKind::AuthCall => Some(" [authcall]"),
            _ => None,
        };
        let ghost with_args = spans_view(spans@);
        match marker {
            Some(m) => push_span(&mut spans, styled_span(owned(m), Color::Yellow)),
            None => {},
        }
        proof {
            let ni = name_and_inputs(*trace);
            let head = seq![
                raw("["@ + decimal(trace.gas_used as nat) + "] "@),
                styled(label_or(trace.decoded, checksummed(trace.address@)) + "::"@ + ni.0, style),
            ];
            assert(with_callee =~= head);
            let value_part = if u256_value(trace.value) != 0 {
                seq![raw("{value: "@ + decimal(u256_value(trace.value)) + "}"@)]
            } else {
                seq![]
            };
            assert(with_value =~= head + value_part);
            assert(with_args =~= head + value_part + seq![raw("("@ + ni.1 + ")"@)]);
            assert(spans_view(spans@) =~= header_spans(*trace));
        }
    }
    spans
}

/// The spans of a call's footer.
pub fn footer_spans_of(trace: &CallTrace) -> (r: Vec<Span>)
    ensures
        spans_view(r@) == footer_spans(*trace),
{
    let style = status_color_of(trace.success);
    let status = match trace.status {
        Some(s) => s,
        None => InstructionResult::Stop,
    };
    let mut spans: Vec<Span> = Vec::new();
    push_span(&mut spans, styled_span(owned("← "), style));
    let mut shown = owned("[");
    push_str(&mut shown, status.name());
    push_str(&mut shown, "]");
    push_span(&mut spans, styled_span(shown, style));
    let ghost head = spans_view(spans@);
    let returned = match &trace.decoded {
        Some(d) => match &d.return_data {
            Some(r) => Some(r),
            None => None,
        },
        None => None,
    };
    match returned {
        Some(r) => {
            let mut text = owned(" ");
            push_str(&mut text, r.as_str());
            push_span(&mut spans, styled_span(text, style));
        },
        None => {
            let ok_status = match trace.status {
                None => true,
                Some(st) => st.is_ok(),
            };
            if trace.kind.is_any_create() && ok_status {
                let mut text = owned(" ");
                let size = usize_to_decimal(trace.output.len());
                push_str(&mut text, size.as_str());
                push_str(&mut text, " bytes of code");
                push_span(&mut spans, raw_span(text));
            } else if trace.output.len() > 0 {
                let mut text = owned(" 0x");
                push_hex(&mut text, trace.output.as_slice());
                push_span(&mut spans, raw_span(text));
            }
        },
    }
    proof {
        assert(head =~= seq![
            styled("← "@, style),
            styled("["@ + status.spec_name() + "]"@, style),
        ]);
        assert(spans_view(spans@) =~= footer_spans(*trace));
    }
    spans
}

/// A span holding a copy of the indentation.
fn indent_span(indent: &String) -> (r: Span)
    ensures
        r@ == raw(indent@),
{
    raw_span(indent.clone())
}

/// The header line of a call, for an indentation and a collapse state.
pub fn node_header_line_of(indent: &String, collapsed: bool, trace: &CallTrace) -> (r: Vec<Span>)
    ensures
        forall|level: nat|
            indentation(level) == indent@ ==> spans_view(r@) == #[trigger] node_header_line(
                level,
                collapsed,
                *trace,
            ),
{
    let mut spans: Vec<Span> = Vec::new();
    push_span(&mut spans, indent_span(indent));
    let marker = if collapsed {
        owned("  ⏵ ")
    } else {
        owned("  ⏷ ")
    };
    push_span(&mut spans, raw_span(marker));
    let mut rest = header_spans_of(trace);
    let ghost first = spans_view(spans@);
    let ghost tail = spans_view(rest@);
    spans.append(&mut rest);
    proof {
        assert(spans_view(spans@) =~= first + tail);
    }
    spans
}

/// The footer line of a call.
pub fn node_footer_line_of(indent: &String, trace: &CallTrace) -> (r: Vec<Span>)
    ensures
        forall|level: nat|
            indentation(level) == indent@ ==> spans_view(r@) == #[trigger] node_footer_line(
                level,
                *trace,
            ),
{
    let mut spans: Vec<Span> = Vec::new();
    push_span(&mut spans, indent_span(indent));
    push_span(&mut spans, raw_span(owned("  └─ ")));
    let mut rest = footer_spans_of(trace);
    let ghost first = spans_view(spans@);
    let ghost tail = spans_view(rest@);
    spans.append(&mut rest);
    proof {
        assert(spans_view(spans@) =~= first + tail);
    }
    spans
}

/// `name: value` for each decoded event parameter.
fn param_strings_of(params: &Vec<(String, String)>) -> (r: Vec<String>)
    ensures
        views(r@) == param_strings(params@),
{
    let mut out: Vec<String> = Vec::new();
    let mut i: usize = 0;
    while i < params.len()
        invariant
            i <= params@.len(),
            views(out@) =~= param_strings(params@.take(i as int)),
        decreases params.len() - i,
    {
        let mut p = params[i].0.clone();
        push_str(&mut p, ": ");
        push_str(&mut p, params[i].1.as_str());
        let ghost before = out@;
        out.push(p);
        proof {
            assert(p@ == params@[i as int].0@ + ": "@ + params@[i as int].1@);
            assert(params@.take(i + 1) =~= params@.take(i as int).push(params@[i as int]));
            assert(out@ =~= before.push(p));
            assert(views(out@) =~= views(before).push(p@));
            assert(param_strings(params@.take(i + 1)) =~= param_strings(params@.take(i as int)).push(p@));
        }
        i = i + 1;
    }
    proof {
        assert(params@.take(params@.len() as int) =~= params@);
    }
    out
}

/// `topicN: 0x…` for each topic.
fn topic_strings_of(topics: &Vec<[u8; 32]>) -> (r: Vec<String>)
    ensures
        views(r@) == topic_strings(topics@),
{
    let mut out: Vec<String> = Vec::new();
    let mut i: usize = 0;
    while i < topics.len()
        invariant
            i <= topics@.len(),
            views(out@) =~= topic_strings(topics@.take(i as int)),
        decreases topics.len() - i,
    {
        let mut t = owned("topic");
        let n = usize_to_decimal(i);
        push_str(&mut t, n.as_str());
        push_str(&mut t, ": 0x");
        push_hex(&mut t, &topics[i]);
        let ghost before = out@;
        out.push(t);
        proof {
            assert(out@ =~= before.push(t));
            assert(views(out@) =~= views(before).push(t@));
            assert(topic_strings(topics@.take(i + 1)) =~= topic_strings(topics@.take(i as int)).push(t@));
        }
        i = i + 1;
    }
    proof {
        assert(topics@.take(topics@.len() as int) =~= topics@);
    }
    out
}

/// The line of an event.
pub fn log_line_of(indent: &String, log: &CallLog) -> (r: Vec<Span>)
    ensures
        forall|level: nat|
            indentation(level) == indent@ ==> spans_view(r@) == #[trigger] log_line(level, *log),
{
    let mut spans: Vec<Span> = Vec::new();
    push_span(&mut spans, indent_span(indent));
    push_span(&mut spans, raw_span(owned("  ├─ ")));
    let ghost head = spans_view(spans@);
    match &log.decoded {
        Some(d) => {
            let mut emit = owned("emit ");
            match &d.name {
                Some(n) => push_str(&mut emit, n.as_str()),
                None => push_str(&mut emit, "UnknownEvent"),
            }
            push_str(&mut emit, "(");
            push_span(&mut spans, raw_span(emit));
            match &d.params {
                Some(p) => {
                    let parts = param_strings_of(p);
                    push_span(&mut spans, styled_span(join_strings(parts.as_slice(), ", "), Color::Cyan));
                },
                None => {},
            }
            push_span(&mut spans, raw_span(owned(")")));
        },
        None => {
            push_span(&mut spans, raw_span(owned("emit ")));
            if log.topics.len() > 0 {
                let parts = topic_strings_of(&log.topics);
                push_span(&mut spans, styled_span(join_strings(parts.as_slice(), ", "), Color::Cyan));
            }
            let mut data = owned(" data: 0x");
            push_hex(&mut data, log.data.as_slice());
            push_span(&mut spans, styled_span(data, Color::Cyan));
        },
    }
    proof {
        assert forall|level: nat| indentation(level) == indent@ implies spans_view(spans@)
            == #[trigger] log_line(level, *log) by {
            assert(spans_view(spans@) =~= log_line(level, *log));
        }
    }
    spans
}

/// The line of a step shown as text.
pub fn step_text_line_of(indent: &String, text: &String) -> (r: Vec<Span>)
    ensures
        forall|level: nat|
            indentation(level) == indent@ ==> spans_view(r@) == #[trigger] step_text_line(
                level,
                text@,
            ),
{
    let mut spans: Vec<Span> = Vec::new();
    push_span(&mut spans, indent_span(indent));
    push_span(&mut spans, raw_span(owned("  ├─ ")));
    push_span(&mut spans, raw_span(text.clone()));
    proof {
        assert forall|level: nat| indentation(level) == indent@ implies spans_view(spans@)
            == #[trigger] step_text_line(level, text@) by {
            assert(spans_view(spans@) =~= step_text_line(level, text@));
        }
    }
    spans
}

/// The header line of an internal call.
pub fn internal_header_line_of(indent: &String, gas: u64, call: &DecodedInternalCall) -> (r: Vec<
    Span,
>)
    ensures
        forall|level: nat|
            indentation(level) == indent@ ==> spans_view(r@) == #[trigger] internal_header_line(
                level,
                gas,
                *call,
            ),
{
    let mut spans: Vec<Span> = Vec::new();
    push_span(&mut spans, indent_span(indent));
    push_span(&mut spans, raw_span(owned("  ├─ ")));
    let mut text = owned("[");
    let digits = u64_to_decimal(gas);
    push_str(&mut text, digits.as_str());
    push_str(&mut text, "] ");
    push_str(&mut text, call.func_name.as_str());
    match &call.args {
        Some(a) => {
            push_str(&mut text, "(");
            let joined = join_strings(a.as_slice(), ", ");
            push_str(&mut text, joined.as_str());
            push_str(&mut text, ")");
        },
        None => {},
    }
    proof {
        let args = match &call.args {
            Some(a) => "("@ + join(views(a@), ", "@) + ")"@,
            None => seq![],
        };
        assert(text@ =~= "["@ + decimal(gas as nat) + "] "@ + call.func_name@ + args);
    }
    push_span(&mut spans, raw_span(text));
    proof {
        assert forall|level: nat| indentation(level) == indent@ implies spans_view(spans@)
            == #[trigger] internal_header_line(level, gas, *call) by {
            assert(spans_view(spans@) =~= internal_header_line(level, gas, *call));
        }
    }
    spans
}

/// The footer line of an internal call.
pub fn internal_footer_line_of(indent: &String, call: &DecodedInternalCall) -> (r: Vec<Span>)
    ensures
        forall|level: nat|
            indentation(level) == indent@ ==> spans_view(r@) == #[trigger] internal_footer_line(
                level,
                *call,
            ),
{
    let mut spans: Vec<Span> = Vec::new();
    push_span(&mut spans, indent_span(indent));
    push_span(&mut spans, raw_span(owned("  └─ ")));
    push_span(&mut spans, raw_span(owned("← ")));
    match &call.return_data {
        Some(r) => push_span(&mut spans, raw_span(join_strings(r.as_slice(), ", "))),
        None => {},
    }
    proof {
        assert forall|level: nat| indentation(level) == indent@ implies spans_view(spans@)
            == #[trigger] internal_footer_line(level, *call) by {
            assert(spans_view(spans@) =~= internal_footer_line(level, *call));
        }
    }
    spans
}

} // verus!
