//! Prompt assembly and response parsing for qwen35's chat format.
//!
//! Control tokens are inserted *by id*, as in the gemma4 format, so nothing in
//! user text or a tool result can forge a turn boundary.
//!
//! The format is ChatML plus an XML-like tool-call convention:
//!
//! ```text
//! <|im_start|>system
//! ...instructions, # Tools block...<|im_end|>
//! <|im_start|>user
//! ...<|im_end|>
//! <|im_start|>assistant
//! <think>
//! ...reasoning...
//! </think>
//!
//! ...content...<tool_call>
//! <function=name>
//! <parameter=key>
//! value
//! </parameter>
//! </function>
//! </tool_call><|im_end|>
//! ```
//!
//! Tool *results* ride inside `user` turns as `<tool_response>` blocks. `<think>`,
//! `<tool_call>`, `<tool_response>` and their closers are single vocabulary
//! tokens, inserted by id.

use crate::chat::call::{CallView, ToolCall};
use crate::chat::prompt::{ids_of, Builder, Piece};
use crate::chat::{
    all_wf, arguments_of, behind_lead, control, find_id, first_missing, leads, lemma_next_at,
    message_views, next_at, nothing_said, parse_arguments, tool_views, tools_wf, ApiCallView,
    ApiToolCall, ChatError, Completion, CompletionView, Message, MessageView, Tool, ToolView,
};
use crate::json::{
    self, ascending, entries, inserted, lemma_entry_wf, lemma_object_view, printed, read, Entries,
    Entry, Json, JsonView,
};
use crate::text::{self, find_at, trimmed};
use crate::tokenizer::decoder::decoded;
use crate::tokenizer::Tokenizer;
use vstd::prelude::*;

verus! {

/// Control tokens, resolved by spelling at load time.
#[derive(Debug, Clone, Copy)]
pub struct Special {
    pub im_start: u32,
    pub im_end: u32,
    pub think_open: u32,
    pub think_close: u32,
    pub call_open: u32,
    pub call_close: u32,
    pub response_open: u32,
    pub response_close: u32,
}

impl Special {
    /// The spellings, in the order in which they are looked up.
    pub open spec fn names() -> Seq<Seq<char>> {
        seq![
            "<|im_start|>"@,
            "<|im_end|>"@,
            "<think>"@,
            "</think>"@,
            "<tool_call>"@,
            "</tool_call>"@,
            "<tool_response>"@,
            "</tool_response>"@,
        ]
    }

    /// The ids, in the same order.
    pub open spec fn ids(self) -> Seq<u32> {
        seq![
            self.im_start,
            self.im_end,
            self.think_open,
            self.think_close,
            self.call_open,
            self.call_close,
            self.response_open,
            self.response_close,
        ]
    }

    pub fn new(t: &Tokenizer) -> (r: Result<Special, ChatError>)
        ensures
            match r {
                Ok(sp) => {
                    &&& first_missing(*t, Self::names(), 0) is None
                    &&& forall|i: int|
                        0 <= i < 8 ==> t.id_at(#[trigger] Self::names()[i]) == Some(sp.ids()[i])
                },
                Err(ChatError::MissingToken(s)) => first_missing(*t, Self::names(), 0) == Some(s@),
            },
    {
        proof {
            reveal_with_fuel(first_missing, 9);
        }
        let im_start: u32 = control(t, "<|im_start|>")?;
        let im_end: u32 = control(t, "<|im_end|>")?;
        let think_open: u32 = control(t, "<think>")?;
        let think_close: u32 = control(t, "</think>")?;
        let call_open: u32 = control(t, "<tool_call>")?;
        let call_close: u32 = control(t, "</tool_call>")?;
        let response_open: u32 = control(t, "<tool_response>")?;
        let response_close: u32 = control(t, "</tool_response>")?;
        Ok(
            Special {
                im_start,
                im_end,
                think_open,
                think_close,
                call_open,
                call_close,
                response_open,
                response_close,
            },
        )
    }
}

/// The template's default reasoning-effort preamble. It is part of the trained
/// prompt format.
pub const XHIGH_INSTRUCTIONS: &'static str = "Reasoning effort is set to xhigh. Please think carefully through the task, validate key assumptions, consider plausible alternatives, and prioritize correctness, consistency, and clarity in the final answer.";

pub const TOOLS_HEAD: &'static str = "# Tools\n\nYou have access to the following functions:\n\n<tools>";

pub const TOOLS_TAIL: &'static str = "\n</tools>";

pub const CALL_FORMAT: &'static str = "\n\nIf you choose to call a function ONLY reply in the following format with NO suffix:\n\n";

pub const CALL_EXAMPLE: &'static str = "\n<function=example_function_name>\n<parameter=example_parameter_1>\nvalue_1\n</parameter>\n<parameter=example_parameter_2>\nThis is the value for the second parameter\nthat can span\nmultiple lines\n</parameter>\n</function>\n";

pub const REMINDER_HEAD: &'static str = "\n\n<IMPORTANT>\nReminder:\n- Function calls MUST follow the specified format: an inner <function=...></function> block must be nested within ";

pub const REMINDER_TAIL: &'static str = " XML tags\n- Required parameters MUST be specified\n- You may provide optional reasoning for your function call in natural language BEFORE the function call, but NOT after\n- If there is no function call available, answer the question like normal with your current knowledge and do not tell the user about function calls\n</IMPORTANT>";

// ---------------------------------------------------------------------------
// Prompts
// ---------------------------------------------------------------------------
pub open spec fn opened(sp: Special, role: Seq<char>) -> Seq<Piece> {
    seq![Piece::Token(sp.im_start), Piece::Text(role), Piece::Text("\n"@)]
}

pub open spec fn closed(sp: Special) -> Seq<Piece> {
    seq![Piece::Token(sp.im_end), Piece::Text("\n"@)]
}

fn open<'a>(b: &mut Builder<'a>, sp: &Special, role: &str)
    requires
        old(b).wf(),
    ensures
        final(b).extends(*old(b), opened(*sp, role@)),
{
    b.push(sp.im_start);
    b.text(role);
    b.text("\n");
    assert(b.pieces@ =~= old(b).pieces@ + opened(*sp, role@));
}

fn close<'a>(b: &mut Builder<'a>, sp: &Special)
    requires
        old(b).wf(),
    ensures
        final(b).extends(*old(b), closed(*sp)),
{
    b.push(sp.im_end);
    b.text("\n");
    assert(b.pieces@ =~= old(b).pieces@ + closed(*sp));
}

/// How an argument is written: a string as it is, anything else as JSON.
pub open spec fn rendered(v: JsonView) -> Seq<char> {
    match v {
        JsonView::Text(s) => s,
        other => printed(other),
    }
}

/// One parameter of a call.
pub open spec fn parameter_text(key: Seq<char>, value: Seq<char>) -> Seq<char> {
    "<parameter="@ + key + ">\n"@ + value + "\n</parameter>\n"@
}

/// The first `n` parameters of a call.
pub open spec fn parameters(e: Entries, n: int) -> Seq<Piece>
    decreases n,
{
    if n <= 0 {
        Seq::empty()
    } else {
        parameters(e, n - 1).push(
            Piece::Text(parameter_text(e[n - 1].0, rendered(e[n - 1].1))),
        )
    }
}

/// One call, for an assistant turn replayed.
pub open spec fn call_block(sp: Special, name: Seq<char>, args: JsonView) -> Seq<Piece> {
    seq![Piece::Token(sp.call_open), Piece::Text("\n<function="@ + name + ">\n"@)] + (match args {
        JsonView::Object(e) => parameters(e, e.len() as int),
        _ => Seq::empty(),
    }) + seq![Piece::Text("</function>\n"@), Piece::Token(sp.call_close)]
}

fn push_parameters<'a>(b: &mut Builder<'a>, m: &Vec<Entry>)
    requires
        old(b).wf(),
        JsonView::Object(entries(m@)).wf(),
    ensures
        final(b).extends(*old(b), parameters(entries(m@), m@.len() as int)),
{
    let ghost all = entries(m@);
    let n: usize = m.len();
    let mut i: usize = 0;
    assert(b.pieces@ + parameters(all, 0) =~= b.pieces@);
    while i < n
        invariant
            i <= n,
            n == m@.len(),
            all == entries(m@),
            JsonView::Object(all).wf(),
            b.extends(*old(b), parameters(all, i as int)),
        decreases n - i,
    {
        proof {
            lemma_entry_wf(all, i as int);
        }
        assert(all[i as int] == (m@[i as int].key@, m@[i as int].value@));
        let value = match &m[i].value {
            Json::Text(s) => s.as_str().to_owned(),
            other => json::print(other),
        };
        let mut t = "<parameter=".to_owned();
        t.push_str(m[i].key.as_str());
        t.push_str(">\n");
        t.push_str(value.as_str());
        t.push_str("\n</parameter>\n");
        assert(t@ =~= parameter_text(all[i as int].0, rendered(all[i as int].1)));
        b.text(t.as_str());
        i = i + 1;
        assert(b.pieces@ =~= old(b).pieces@ + parameters(all, i as int));
    }
}

fn push_call<'a>(b: &mut Builder<'a>, sp: &Special, name: &str, args: &Json)
    requires
        old(b).wf(),
        args@.wf(),
    ensures
        final(b).extends(*old(b), call_block(*sp, name@, args@)),
{
    let ghost start = b.pieces@;
    b.push(sp.call_open);
    let mut t = "\n<function=".to_owned();
    t.push_str(name);
    t.push_str(">\n");
    b.text(t.as_str());
    assert(t@ =~= "\n<function="@ + name@ + ">\n"@);
    match args {
        Json::Object(m) => {
            proof {
                lemma_object_view(*m);
            }
            push_parameters(b, m);
        },
        _ => {},
    }
    b.text("</function>\n");
    b.push(sp.call_close);
    assert(b.pieces@ =~= start + call_block(*sp, name@, args@));
}

/// A tool as a client declares it.
pub open spec fn declaration(t: ToolView) -> JsonView {
    JsonView::Object(
        seq![
            (
                "function"@,
                JsonView::Object(
                    seq![
                        ("description"@, JsonView::Text(t.description)),
                        ("name"@, JsonView::Text(t.name)),
                        ("parameters"@, t.parameters),
                    ],
                ),
            ),
            ("type"@, JsonView::Text(t.kind)),
        ],
    )
}

/// The first `n` tool declarations.
pub open spec fn declared(tools: Seq<ToolView>, n: int) -> Seq<Piece>
    decreases n,
{
    if n <= 0 {
        Seq::empty()
    } else {
        declared(tools, n - 1) + seq![
            Piece::Text("\n"@),
            Piece::Text(printed(declaration(tools[n - 1]))),
        ]
    }
}

/// What the model is told about tools.
pub open spec fn tool_pieces(sp: Special, tools: Seq<ToolView>) -> Seq<Piece> {
    seq![Piece::Text(TOOLS_HEAD@)] + declared(tools, tools.len() as int) + seq![
        Piece::Text(TOOLS_TAIL@),
        Piece::Text(CALL_FORMAT@),
        Piece::Token(sp.call_open),
        Piece::Text(CALL_EXAMPLE@),
        Piece::Token(sp.call_close),
        Piece::Text(REMINDER_HEAD@),
        Piece::Token(sp.call_open),
        Piece::Token(sp.call_close),
        Piece::Text(REMINDER_TAIL@),
    ]
}

/// The instructions of a conversation.
pub open spec fn instructions(msgs: Seq<MessageView>) -> Seq<char> {
    if leads(msgs) {
        trimmed(msgs[0].text())
    } else {
        Seq::empty()
    }
}

/// The system turn, where there is anything to say in it.
pub open spec fn system_turn(
    sp: Special,
    msgs: Seq<MessageView>,
    tools: Seq<ToolView>,
    thinking: bool,
) -> Seq<Piece> {
    let told = instructions(msgs);
    let effort = if thinking {
        seq![Piece::Text(XHIGH_INSTRUCTIONS@), Piece::Text("\n\n"@)]
    } else {
        Seq::empty()
    };
    if tools.len() > 0 {
        opened(sp, "system"@) + effort + tool_pieces(sp, tools) + (if told.len() > 0 {
            seq![Piece::Text("\n\n"@), Piece::Text(told)]
        } else {
            Seq::empty()
        }) + closed(sp)
    } else if told.len() > 0 {
        opened(sp, "system"@) + effort + seq![Piece::Text(told)] + closed(sp)
    } else if thinking {
        opened(sp, "system"@) + seq![Piece::Text(XHIGH_INSTRUCTIONS@)] + closed(sp)
    } else {
        Seq::empty()
    }
}

proof fn lemma_declaration(t: ToolView)
    requires
        t.parameters.wf(),
    ensures
        declaration(t).wf(),
{
    reveal_with_fuel(JsonView::wf, 3);
    reveal_strlit("function");
    reveal_strlit("type");
    reveal_strlit("description");
    reveal_strlit("name");
    reveal_strlit("parameters");
    let inner = seq![
        ("description"@, JsonView::Text(t.description)),
        ("name"@, JsonView::Text(t.name)),
        ("parameters"@, t.parameters),
    ];
    assert(ascending(inner)) by {
        assert(text::before("description"@, "name"@));
        assert(text::before("name"@, "parameters"@));
        assert(text::before("description"@, "parameters"@));
    }
    assert(JsonView::Object(inner).wf());
    let outer = seq![("function"@, JsonView::Object(inner)), ("type"@, JsonView::Text(t.kind))];
    assert(ascending(outer)) by {
        assert(text::before("function"@, "type"@));
    }
}

/// A copy of a value.
fn copied(v: &Json) -> (r: Json)
    ensures
        r@ == v@,
    decreases v,
{
    match v {
        Json::Null => Json::Null,
        Json::Bool(b) => Json::Bool(*b),
        Json::Number(n) => Json::Number(*n),
        Json::Text(s) => Json::Text(s.as_str().to_owned()),
        Json::List(a) => {
            proof {
                json::lemma_list_view(*a);
            }
            let n: usize = a.len();
            let mut out: Vec<Json> = Vec::new();
            let mut i: usize = 0;
            while i < n
                invariant
                    i <= n,
                    n == a@.len(),
                    v == Json::List(*a),
                    v@ == JsonView::List(json::items(a@)),
                    json::items(out@) == json::items(a@).take(i as int),
                decreases n - i,
            {
                let ghost before = json::items(out@);
                assert(json::items(a@)[i as int] == a@[i as int]@);
                let x = copied(&a[i]);
                out.push(x);
                assert(json::items(out@) =~= before.push(x@));
                i = i + 1;
                assert(json::items(out@) =~= json::items(a@).take(i as int));
            }
            proof {
                json::lemma_list_view(out);
                assert(json::items(out@) =~= json::items(a@));
            }
            Json::List(out)
        },
        Json::Object(m) => {
            proof {
                lemma_object_view(*m);
            }
            let n: usize = m.len();
            let mut out: Vec<Entry> = Vec::new();
            let mut i: usize = 0;
            while i < n
                invariant
                    i <= n,
                    n == m@.len(),
                    v == Json::Object(*m),
                    v@ == JsonView::Object(entries(m@)),
                    entries(out@) == entries(m@).take(i as int),
                decreases n - i,
            {
                let ghost before = entries(out@);
                assert(entries(m@)[i as int] == (m@[i as int].key@, m@[i as int].value@));
                let x = copied(&m[i].value);
                let ghost e = entries(m@)[i as int];
                out.push(Entry { key: m[i].key.as_str().to_owned(), value: x });
                assert(entries(out@) =~= before.push(e));
                i = i + 1;
                assert(entries(out@) =~= entries(m@).take(i as int));
            }
            proof {
                lemma_object_view(out);
                assert(entries(out@) =~= entries(m@));
            }
            Json::Object(out)
        },
    }
}

/// The text of a tool's declaration.
fn declare(t: &Tool) -> (r: String)
    requires
        t@.parameters.wf(),
    ensures
        r@ == printed(declaration(t@)),
{
    let mut inner: Vec<Entry> = Vec::new();
    inner.push(
        Entry {
            key: "description".to_owned(),
            value: Json::text(t.function.description.as_str()),
        },
    );
    inner.push(Entry { key: "name".to_owned(), value: Json::text(t.function.name.as_str()) });
    inner.push(Entry { key: "parameters".to_owned(), value: copied(&t.function.parameters) });
    let ghost inside = entries(inner@);
    proof {
        lemma_object_view(inner);
    }
    let mut outer: Vec<Entry> = Vec::new();
    outer.push(Entry { key: "function".to_owned(), value: Json::Object(inner) });
    outer.push(Entry { key: "type".to_owned(), value: Json::text(t.kind.as_str()) });
    let ghost outside = entries(outer@);
    proof {
        lemma_object_view(outer);
        assert(inside =~= seq![
            ("description"@, JsonView::Text(t@.description)),
            ("name"@, JsonView::Text(t@.name)),
            ("parameters"@, t@.parameters),
        ]);
        assert(outside =~= seq![
            ("function"@, JsonView::Object(inside)),
            ("type"@, JsonView::Text(t@.kind)),
        ]);
        lemma_declaration(t@);
    }
    json::print(&Json::Object(outer))
}

fn push_tools<'a>(b: &mut Builder<'a>, sp: &Special, tools: &[Tool])
    requires
        old(b).wf(),
        tools_wf(tool_views(tools@)),
    ensures
        final(b).extends(*old(b), tool_pieces(*sp, tool_views(tools@))),
{
    let ghost all = tool_views(tools@);
    b.text(TOOLS_HEAD);
    let ghost start = b.pieces@;
    let n: usize = tools.len();
    let mut i: usize = 0;
    assert(start + declared(all, 0) =~= start);
    while i < n
        invariant
            i <= n,
            n == tools@.len(),
            all == tool_views(tools@),
            tools_wf(all),
            b.wf(),
            b.tok == old(b).tok,
            b.pieces@ == start + declared(all, i as int),
        decreases n - i,
    {
        assert(all[i as int] == tools@[i as int]@);
        let d = declare(&tools[i]);
        b.text("\n");
        b.text(d.as_str());
        i = i + 1;
        assert(b.pieces@ =~= start + declared(all, i as int));
    }
    let ghost listed = b.pieces@;
    b.text(TOOLS_TAIL);
    b.text(CALL_FORMAT);
    b.push(sp.call_open);
    b.text(CALL_EXAMPLE);
    b.push(sp.call_close);
    b.text(REMINDER_HEAD);
    b.push(sp.call_open);
    b.push(sp.call_close);
    b.text(REMINDER_TAIL);
    assert(b.pieces@ =~= listed + seq![
        Piece::Text(TOOLS_TAIL@),
        Piece::Text(CALL_FORMAT@),
        Piece::Token(sp.call_open),
        Piece::Text(CALL_EXAMPLE@),
        Piece::Token(sp.call_close),
        Piece::Text(REMINDER_HEAD@),
        Piece::Token(sp.call_open),
        Piece::Token(sp.call_close),
        Piece::Text(REMINDER_TAIL@),
    ]);
    assert(b.pieces@ =~= old(b).pieces@ + tool_pieces(*sp, all));
}

fn push_system<'a>(
    b: &mut Builder<'a>,
    sp: &Special,
    messages: &[Message],
    tools: &[Tool],
    thinking: bool,
)
    requires
        old(b).wf(),
        all_wf(message_views(messages@)),
        tools_wf(tool_views(tools@)),
    ensures
        final(b).extends(
            *old(b),
            system_turn(*sp, message_views(messages@), tool_views(tools@), thinking),
        ),
{
    let ghost msgs = message_views(messages@);
    let ghost all = tool_views(tools@);
    let ghost start = b.pieces@;
    let told: String = if crate::chat::has_lead(messages) {
        assert(msgs[0] == messages@[0]@);
        text::trim(messages[0].text().as_str())
    } else {
        String::new()
    };
    assert(told@ =~= instructions(msgs));
    let any: bool = !told.as_str().is_empty();
    if tools.len() > 0 {
        open(b, sp, "system");
        if thinking {
            b.text(XHIGH_INSTRUCTIONS);
            b.text("\n\n");
        }
        push_tools(b, sp, tools);
        if any {
            b.text("\n\n");
            b.text(told.as_str());
        }
        close(b, sp);
    } else if any {
        open(b, sp, "system");
        if thinking {
            b.text(XHIGH_INSTRUCTIONS);
            b.text("\n\n");
        }
        b.text(told.as_str());
        close(b, sp);
    } else if thinking {
        open(b, sp, "system");
        b.text(XHIGH_INSTRUCTIONS);
        close(b, sp);
    }
    assert(b.pieces@ =~= start + system_turn(*sp, msgs, all, thinking));
}

/// The first `n` calls of a turn, set apart from what comes before them.
pub open spec fn called(
    sp: Special,
    calls: Seq<ApiCallView>,
    content: bool,
    n: int,
) -> Seq<Piece>
    decreases n,
{
    if n <= 0 {
        Seq::empty()
    } else {
        called(sp, calls, content, n - 1) + (if n > 1 {
            seq![Piece::Text("\n"@)]
        } else if content {
            seq![Piece::Text("\n\n"@)]
        } else {
            Seq::empty()
        }) + call_block(sp, calls[n - 1].name, arguments_of(calls[n - 1].arguments))
    }
}

/// The reasoning of a message, which is replayed on every assistant turn.
pub open spec fn reasoning_of(m: MessageView) -> Seq<char> {
    match m.reasoning {
        Some(r) => trimmed(r),
        None => Seq::empty(),
    }
}

pub open spec fn assistant_turn(sp: Special, m: MessageView) -> Seq<Piece> {
    let content = trimmed(m.text());
    opened(sp, "assistant"@) + seq![
        Piece::Token(sp.think_open),
        Piece::Text("\n"@),
        Piece::Text(reasoning_of(m)),
        Piece::Text("\n"@),
        Piece::Token(sp.think_close),
        Piece::Text("\n\n"@),
        Piece::Text(content),
    ] + called(sp, m.tool_calls, content.len() > 0, m.tool_calls.len() as int) + closed(sp)
}

/// A tool result. Consecutive ones share a user turn.
pub open spec fn result_turn(sp: Special, rest: Seq<MessageView>, i: int) -> Seq<Piece> {
    (if i == 0 || rest[i - 1].role != "tool"@ {
        seq![Piece::Token(sp.im_start), Piece::Text("user"@)]
    } else {
        Seq::empty()
    }) + seq![
        Piece::Text("\n"@),
        Piece::Token(sp.response_open),
        Piece::Text("\n"@),
        Piece::Text(trimmed(rest[i].text())),
        Piece::Text("\n"@),
        Piece::Token(sp.response_close),
    ] + (if i + 1 >= rest.len() || rest[i + 1].role != "tool"@ {
        closed(sp)
    } else {
        Seq::empty()
    })
}

/// What message `i` adds. A role that has no place here speaks as the user.
pub open spec fn turn(sp: Special, rest: Seq<MessageView>, i: int) -> Seq<Piece> {
    let m = rest[i];
    if m.role == "assistant"@ {
        assistant_turn(sp, m)
    } else if m.role == "tool"@ {
        result_turn(sp, rest, i)
    } else {
        opened(sp, "user"@) + seq![Piece::Text(trimmed(m.text()))] + closed(sp)
    }
}

/// What the first `n` messages add.
pub open spec fn turns(sp: Special, rest: Seq<MessageView>, n: int) -> Seq<Piece>
    decreases n,
{
    if n <= 0 {
        Seq::empty()
    } else {
        turns(sp, rest, n - 1) + turn(sp, rest, n - 1)
    }
}

/// What the model continues from.
pub open spec fn generation(sp: Special, thinking: bool) -> Seq<Piece> {
    opened(sp, "assistant"@) + (if thinking {
        seq![Piece::Token(sp.think_open), Piece::Text("\n"@)]
    } else {
        seq![
            Piece::Token(sp.think_open),
            Piece::Text("\n\n"@),
            Piece::Token(sp.think_close),
            Piece::Text("\n\n"@),
        ]
    })
}

/// The prompt for a request.
pub open spec fn prompt_of(
    sp: Special,
    msgs: Seq<MessageView>,
    tools: Seq<ToolView>,
    thinking: bool,
) -> Seq<Piece> {
    let rest = behind_lead(msgs);
    system_turn(sp, msgs, tools, thinking) + turns(sp, rest, rest.len() as int) + generation(
        sp,
        thinking,
    )
}

fn push_calls<'a>(b: &mut Builder<'a>, sp: &Special, calls: &Vec<ApiToolCall>, content: bool)
    requires
        old(b).wf(),
    ensures
        final(b).extends(
            *old(b),
            called(
                *sp,
                calls@.map_values(|c: ApiToolCall| c@),
                content,
                calls@.len() as int,
            ),
        ),
{
    let ghost all = calls@.map_values(|c: ApiToolCall| c@);
    let n: usize = calls.len();
    let mut k: usize = 0;
    assert(b.pieces@ + called(*sp, all, content, 0) =~= b.pieces@);
    while k < n
        invariant
            k <= n,
            n == calls@.len(),
            all == calls@.map_values(|c: ApiToolCall| c@),
            b.extends(*old(b), called(*sp, all, content, k as int)),
        decreases n - k,
    {
        assert(all[k as int] == calls@[k as int]@);
        if k > 0 {
            b.text("\n");
        } else if content {
            b.text("\n\n");
        }
        let args = parse_arguments(calls[k].function.arguments.as_str());
        push_call(b, sp, calls[k].function.name.as_str(), &args);
        k = k + 1;
        assert(b.pieces@ =~= old(b).pieces@ + called(*sp, all, content, k as int));
    }
}

fn push_assistant<'a>(b: &mut Builder<'a>, sp: &Special, m: &Message)
    requires
        old(b).wf(),
        m@.wf(),
    ensures
        final(b).extends(*old(b), assistant_turn(*sp, m@)),
{
    let reasoning: String = match &m.reasoning {
        Some(r) => text::trim(r.as_str()),
        None => String::new(),
    };
    assert(reasoning@ =~= reasoning_of(m@));
    let content = text::trim(m.text().as_str());
    open(b, sp, "assistant");
    let ghost start = b.pieces@;
    b.push(sp.think_open);
    b.text("\n");
    b.text(reasoning.as_str());
    b.text("\n");
    b.push(sp.think_close);
    b.text("\n\n");
    b.text(content.as_str());
    assert(b.pieces@ =~= start + seq![
        Piece::Token(sp.think_open),
        Piece::Text("\n"@),
        Piece::Text(reasoning_of(m@)),
        Piece::Text("\n"@),
        Piece::Token(sp.think_close),
        Piece::Text("\n\n"@),
        Piece::Text(content@),
    ]);
    push_calls(b, sp, &m.tool_calls, !content.as_str().is_empty());
    close(b, sp);
    assert(b.pieces@ =~= old(b).pieces@ + assistant_turn(*sp, m@));
}

fn push_result<'a>(b: &mut Builder<'a>, sp: &Special, rest: &[Message], i: usize)
    requires
        old(b).wf(),
        all_wf(message_views(rest@)),
        i < rest@.len(),
    ensures
        final(b).extends(*old(b), result_turn(*sp, message_views(rest@), i as int)),
{
    let ghost msgs = message_views(rest@);
    let ghost start = b.pieces@;
    let n: usize = rest.len();
    assert(msgs[i as int] == rest@[i as int]@);
    assert(i > 0 ==> msgs[i - 1] == rest@[i - 1]@);
    assert(i + 1 < n ==> msgs[i + 1] == rest@[i + 1]@);
    let first: bool = i == 0 || !text::str_eq(rest[i - 1].role.as_str(), "tool");
    let last: bool = i + 1 >= n || !text::str_eq(rest[i + 1].role.as_str(), "tool");
    let content = text::trim(rest[i].text().as_str());
    if first {
        b.push(sp.im_start);
        b.text("user");
    }
    let ghost head = b.pieces@;
    b.text("\n");
    b.push(sp.response_open);
    b.text("\n");
    b.text(content.as_str());
    b.text("\n");
    b.push(sp.response_close);
    assert(b.pieces@ =~= head + seq![
        Piece::Text("\n"@),
        Piece::Token(sp.response_open),
        Piece::Text("\n"@),
        Piece::Text(content@),
        Piece::Text("\n"@),
        Piece::Token(sp.response_close),
    ]);
    if last {
        close(b, sp);
    }
    assert(b.pieces@ =~= start + result_turn(*sp, msgs, i as int));
}

fn push_turn<'a>(b: &mut Builder<'a>, sp: &Special, rest: &[Message], i: usize)
    requires
        old(b).wf(),
        all_wf(message_views(rest@)),
        i < rest@.len(),
    ensures
        final(b).extends(*old(b), turn(*sp, message_views(rest@), i as int)),
{
    let ghost msgs = message_views(rest@);
    let ghost start = b.pieces@;
    let m = &rest[i];
    assert(msgs[i as int] == m@);
    if text::str_eq(m.role.as_str(), "assistant") {
        push_assistant(b, sp, m);
    } else if text::str_eq(m.role.as_str(), "tool") {
        push_result(b, sp, rest, i);
    } else {
        let content = text::trim(m.text().as_str());
        open(b, sp, "user");
        b.text(content.as_str());
        close(b, sp);
        assert(b.pieces@ =~= start + turn(*sp, msgs, i as int));
    }
}

/// Build the full prompt for a request, with the template's defaults: thinking is
/// replayed on every assistant turn. Instructions in the middle of a conversation
/// are folded in as user turns.
pub fn build_prompt(
    tok: &Tokenizer,
    sp: &Special,
    messages: &[Message],
    tools: &[Tool],
    enable_thinking: bool,
) -> (ids: Vec<u32>)
    requires
        tok.wf(),
        all_wf(message_views(messages@)),
        tools_wf(tool_views(tools@)),
    ensures
        ids@ == ids_of(
            *tok,
            prompt_of(*sp, message_views(messages@), tool_views(tools@), enable_thinking),
        ),
{
    let ghost msgs = message_views(messages@);
    let mut b = Builder::new(tok);
    push_system(&mut b, sp, messages, tools, enable_thinking);
    let from: usize = if crate::chat::has_lead(messages) { 1 } else { 0 };
    let rest = vstd::slice::slice_subrange(messages, from, messages.len());
    let ghost behind = message_views(rest@);
    assert(behind =~= behind_lead(msgs));
    assert(all_wf(behind)) by {
        assert forall|i: int| 0 <= i < behind.len() implies (#[trigger] behind[i]).wf() by {
            assert(behind[i] == msgs[i + from]);
        }
    }
    let ghost start = b.pieces@;
    let n: usize = rest.len();
    let mut i: usize = 0;
    assert(start + turns(*sp, behind, 0) =~= start);
    while i < n
        invariant
            i <= n,
            n == rest@.len(),
            behind == message_views(rest@),
            all_wf(behind),
            b.wf(),
            b.tok == tok,
            b.pieces@ == start + turns(*sp, behind, i as int),
        decreases n - i,
    {
        push_turn(&mut b, sp, rest, i);
        i = i + 1;
        assert(b.pieces@ =~= start + turns(*sp, behind, i as int));
    }
    let ghost told = b.pieces@;
    open(&mut b, sp, "assistant");
    if enable_thinking {
        b.push(sp.think_open);
        b.text("\n");
    } else {
        b.push(sp.think_open);
        b.text("\n\n");
        b.push(sp.think_close);
        b.text("\n\n");
    }
    assert(b.pieces@ =~= told + generation(*sp, enable_thinking));
    assert(b.pieces@ =~= prompt_of(*sp, msgs, tool_views(tools@), enable_thinking));
    b.ids
}

// ---------------------------------------------------------------------------
// Completions
// ---------------------------------------------------------------------------
impl Special {
    /// A token that ends a stretch of content.
    pub open spec fn marks(self, id: u32) -> bool {
        id == self.think_open || id == self.call_open || id == self.im_end
    }
}

/// Where the content from `from` on ends.
pub open spec fn content_end(sp: Special, ids: Seq<u32>, from: int) -> int
    decreases ids.len() - from,
{
    if from < 0 || from >= ids.len() {
        ids.len() as int
    } else if sp.marks(ids[from]) {
        from
    } else {
        content_end(sp, ids, from + 1)
    }
}

proof fn lemma_content_end(sp: Special, ids: Seq<u32>, from: int)
    requires
        0 <= from <= ids.len(),
    ensures
        from <= content_end(sp, ids, from) <= ids.len(),
    decreases ids.len() - from,
{
    if from < ids.len() {
        lemma_content_end(sp, ids, from + 1);
    }
}

fn find_content_end(sp: &Special, ids: &[u32], from: usize) -> (r: usize)
    requires
        from <= ids@.len(),
    ensures
        r == content_end(*sp, ids@, from as int),
        from <= r <= ids@.len(),
{
    let n: usize = ids.len();
    let mut j: usize = from;
    while j < n
        invariant
            from <= j <= n,
            n == ids@.len(),
            content_end(*sp, ids@, from as int) == content_end(*sp, ids@, j as int),
        decreases n - j,
    {
        let id: u32 = ids[j];
        if id == sp.think_open || id == sp.call_open || id == sp.im_end {
            return j;
        }
        j = j + 1;
    }
    n
}

/// What the tokens from `i` on add to what was said before; `inside` a thought, at
/// first, where the prompt left one open.
pub open spec fn said_from(
    tok: Tokenizer,
    sp: Special,
    ids: Seq<u32>,
    i: int,
    inside: bool,
    acc: CompletionView,
) -> CompletionView
    decreases ids.len() + 1 - i,
    when 0 <= i
    via said_decreases
{
    if i >= ids.len() || ids[i] == sp.im_end {
        acc
    } else if inside || ids[i] == sp.think_open {
        let start = if inside {
            i
        } else {
            i + 1
        };
        let end = next_at(ids, start, sp.think_close);
        said_from(
            tok,
            sp,
            ids,
            end + 1,
            false,
            acc.thinking(decoded(tok, ids.subrange(start, end))),
        )
    } else if ids[i] == sp.call_open {
        let end = next_at(ids, i + 1, sp.call_close);
        said_from(
            tok,
            sp,
            ids,
            end + 1,
            false,
            acc.calling(function_block(decoded(tok, ids.subrange(i + 1, end)))),
        )
    } else {
        let end = content_end(sp, ids, i + 1);
        said_from(tok, sp, ids, end, false, acc.saying(decoded(tok, ids.subrange(i, end))))
    }
}

#[via_fn]
proof fn said_decreases(
    tok: Tokenizer,
    sp: Special,
    ids: Seq<u32>,
    i: int,
    inside: bool,
    acc: CompletionView,
) {
    if 0 <= i < ids.len() {
        lemma_next_at(ids, i, sp.think_close);
        lemma_next_at(ids, i + 1, sp.think_close);
        lemma_next_at(ids, i + 1, sp.call_close);
        lemma_content_end(sp, ids, i + 1);
    }
}

/// Split a generated token sequence into reasoning, content, and tool calls.
///
/// `thinking_open` says whether the generation prompt left a `<think>` block open,
/// so that the stream *starts* inside reasoning.
pub fn parse_completion(
    tok: &Tokenizer,
    sp: &Special,
    ids: &[u32],
    thinking_open: bool,
) -> (r: Completion)
    ensures
        r@ == said_from(*tok, *sp, ids@, 0, thinking_open, nothing_said()).tidy(),
        r.wf(),
{
    let n: usize = ids.len();
    let mut out = Completion::new();
    let mut i: usize = 0;
    let mut inside: bool = thinking_open;
    let ghost whole = said_from(*tok, *sp, ids@, 0, thinking_open, nothing_said());
    while i < n
        invariant
            i <= n,
            n == ids@.len(),
            whole == said_from(*tok, *sp, ids@, 0, thinking_open, nothing_said()),
            whole == said_from(*tok, *sp, ids@, i as int, inside, out@),
            out.wf(),
        decreases n - i,
    {
        let id: u32 = ids[i];
        if id == sp.im_end {
            return out.tidy();
        }
        if inside || id == sp.think_open {
            let start: usize = if inside { i } else { i + 1 };
            let end: usize = find_id(ids, start, sp.think_close);
            out.think(tok.decode(vstd::slice::slice_subrange(ids, start, end)).as_str());
            inside = false;
            assert(said_from(*tok, *sp, ids@, n as int, false, out@) == out@);
            assert(said_from(*tok, *sp, ids@, n + 1, false, out@) == out@);
            i = if end < n { end + 1 } else { n };
        } else if id == sp.call_open {
            let end: usize = find_id(ids, i + 1, sp.call_close);
            let body = tok.decode(vstd::slice::slice_subrange(ids, i + 1, end));
            out.call(parse_function_block(body.as_str()));
            assert(said_from(*tok, *sp, ids@, n as int, false, out@) == out@);
            assert(said_from(*tok, *sp, ids@, n + 1, false, out@) == out@);
            i = if end < n { end + 1 } else { n };
        } else {
            let end: usize = find_content_end(sp, ids, i + 1);
            out.say(tok.decode(vstd::slice::slice_subrange(ids, i, end)).as_str());
            i = end;
        }
    }
    out.tidy()
}

/// A parameter's value without the line breaks that set it apart.
pub open spec fn inner_text(t: Seq<char>) -> Seq<char> {
    let a = match text::without_prefix(t, "\n"@) {
        Some(x) => x,
        None => t,
    };
    match text::without_suffix(a, "\n"@) {
        Some(x) => x,
        None => a,
    }
}

/// What a parameter's value stands for: a JSON value if it reads as one, otherwise
/// the string it is.
pub open spec fn parameter_value(t: Seq<char>) -> JsonView {
    match read(t) {
        Some(v) => v,
        None => JsonView::Text(t),
    }
}

/// Where the value that starts at `from` ends.
pub open spec fn value_end(t: Seq<char>, from: int) -> int {
    match find_at(t, from, "</parameter>"@) {
        Some(p) => p,
        None => t.len() as int,
    }
}

/// The parameters from `i` on, put to those before.
pub open spec fn arguments_from(t: Seq<char>, i: int, acc: Entries) -> Entries
    decreases t.len() - i,
    when 0 <= i <= t.len()
    via arguments_decrease
{
    match find_at(t, i, "<parameter="@) {
        None => acc,
        Some(p) => {
            let key = p + "<parameter="@.len();
            match find_at(t, key, ">"@) {
                None => acc,
                Some(q) => {
                    let end = value_end(t, q + 1);
                    arguments_from(
                        t,
                        end,
                        inserted(
                            acc,
                            t.subrange(key, q),
                            parameter_value(inner_text(t.subrange(q + 1, end))),
                        ),
                    )
                },
            }
        },
    }
}

#[via_fn]
proof fn arguments_decrease(t: Seq<char>, i: int, acc: Entries) {
    reveal_strlit("<parameter=");
    reveal_strlit(">");
    text::lemma_find_at(t, i, "<parameter="@);
    match find_at(t, i, "<parameter="@) {
        None => {},
        Some(p) => {
            let key = p + "<parameter="@.len();
            text::lemma_find_at(t, key, ">"@);
            match find_at(t, key, ">"@) {
                None => {},
                Some(q) => {
                    text::lemma_find_at(t, q + 1, "</parameter>"@);
                },
            }
        },
    }
}

/// One `<function=...>` block.
pub open spec fn function_block(t: Seq<char>) -> Option<CallView> {
    match text::without_prefix(trimmed(t), "<function="@) {
        None => None,
        Some(rest) => match find_at(rest, 0, ">"@) {
            None => None,
            Some(p) => Some(
                CallView {
                    name: rest.take(p),
                    arguments: JsonView::Object(
                        arguments_from(rest.skip(p + 1), 0, Seq::empty()),
                    ),
                },
            ),
        },
    }
}

fn parse_parameters(t: &str) -> (r: Vec<Entry>)
    ensures
        entries(r@) == arguments_from(t@, 0, Seq::empty()),
        JsonView::Object(entries(r@)).wf(),
{
    proof {
        reveal_strlit("<parameter=");
        reveal_strlit(">");
    }
    let c = text::chars_of(t);
    let n: usize = c.len();
    let mut m: Vec<Entry> = Vec::new();
    let mut i: usize = 0;
    let ghost whole = arguments_from(t@, 0, Seq::empty());
    assert(entries(m@) =~= Seq::empty());
    loop
        invariant
            i <= n,
            n == t@.len(),
            c@ == t@,
            "<parameter="@.len() == 11,
            ">"@.len() == 1,
            whole == arguments_from(t@, 0, Seq::empty()),
            whole == arguments_from(t@, i as int, entries(m@)),
            JsonView::Object(entries(m@)).wf(),
        decreases n - i,
    {
        let p: usize = match text::find_from(c.as_slice(), i, "<parameter=") {
            Some(p) => p,
            None => {
                return m;
            },
        };
        assert(p + 11 <= n);
        let from: usize = p + 11;
        let q: usize = match text::find_from(c.as_slice(), from, ">") {
            Some(q) => q,
            None => {
                return m;
            },
        };
        assert(q + 1 <= n);
        let end: usize = match text::find_from(c.as_slice(), q + 1, "</parameter>") {
            Some(e) => e,
            None => n,
        };
        let key = text::slice_string(c.as_slice(), from, q);
        let raw = inner(text::slice_string(c.as_slice(), q + 1, end));
        let value = match json::parse(raw.as_str()) {
            Some(v) => v,
            None => Json::Text(raw),
        };
        proof {
            json::lemma_inserted_wf(entries(m@), key@, value@);
        }
        json::insert(&mut m, key, value);
        i = end;
    }
}

fn inner(t: String) -> (r: String)
    ensures
        r@ == inner_text(t@),
{
    let a: String = match text::strip_prefix(t.as_str(), "\n") {
        Some(x) => x,
        None => t,
    };
    match text::strip_suffix(a.as_str(), "\n") {
        Some(x) => x,
        None => a,
    }
}

/// Parse one `<function=...>` block into a call.
///
/// Values that parse as JSON are kept typed; anything else stays a string. String
/// arguments are written raw, so the way back is necessarily a guess.
pub fn parse_function_block(t: &str) -> (r: Option<ToolCall>)
    ensures
        match r {
            Some(c) => function_block(t@) == Some(c@) && c@.arguments.wf(),
            None => function_block(t@) is None,
        },
{
    proof {
        reveal_strlit(">");
    }
    let trim = text::trim(t);
    let rest = match text::strip_prefix(trim.as_str(), "<function=") {
        Some(r) => r,
        None => {
            return None;
        },
    };
    let c = text::chars_of(rest.as_str());
    let n: usize = c.len();
    let p: usize = match text::find_from(c.as_slice(), 0, ">") {
        Some(p) => p,
        None => {
            return None;
        },
    };
    let name = text::slice_string(c.as_slice(), 0, p);
    assert(name@ =~= rest@.take(p as int));
    let body = text::slice_string(c.as_slice(), p + 1, n);
    assert(body@ =~= rest@.skip(p + 1));
    let m = parse_parameters(body.as_str());
    proof {
        lemma_object_view(m);
    }
    Some(ToolCall { name, arguments: Json::Object(m) })
}

} // verus!
