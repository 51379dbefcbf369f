//! Prompt assembly and response parsing for gemma4's chat format.
//!
//! The checkpoint ships a template; here it is written directly against token ids.
//! Control tokens are inserted *by id*, so nothing in user text or a tool result
//! can forge a turn boundary, and the tool-call syntax goes through the typed
//! encoder in [`dsl`].

pub mod call;
pub mod dsl;
pub mod extension;
pub mod prompt;
pub mod qwen;
pub mod qwen_template;
pub mod replay;
pub mod template;

use crate::chat::call::{call_of, call_views, CallView, ToolCall};
use crate::chat::dsl::{call_text, declaration_text, response_text};
use crate::chat::prompt::{ids_of, marked_text, Builder, Piece};
use crate::json::{
    self, items, lemma_list_view, lemma_object_view, printed, read, Entry, Json, JsonView,
};
use crate::text::{self, parts_from, trimmed, up_to};
use crate::tokenizer::decoder::{decoded, spaced, spaces};
use crate::tokenizer::Tokenizer;
use vstd::prelude::*;

verus! {

// ---------------------------------------------------------------------------
// Control tokens
// ---------------------------------------------------------------------------
#[derive(Debug)]
pub enum ChatError {
    /// The vocabulary is missing a control token.
    MissingToken(String),
}

/// Control tokens, resolved by spelling at load time.
#[derive(Debug, Clone, Copy)]
pub struct Special {
    pub bos: u32,
    pub turn_open: u32,
    pub turn_close: u32,
    pub channel_open: u32,
    pub channel_close: u32,
    pub think: u32,
    pub tool_open: u32,
    pub tool_close: u32,
    pub call_open: u32,
    pub call_close: u32,
    pub response_open: u32,
    pub response_close: u32,
    pub quote: u32,
}

/// The first of `names` from `i` on that the vocabulary does not have.
pub open spec fn first_missing(tok: Tokenizer, names: Seq<Seq<char>>, i: int) -> Option<Seq<char>>
    decreases names.len() - i,
{
    if i < 0 || i >= names.len() {
        None
    } else if tok.id_at(names[i]) is None {
        Some(names[i])
    } else {
        first_missing(tok, names, i + 1)
    }
}

pub(crate) fn control(tok: &Tokenizer, name: &str) -> (r: Result<u32, ChatError>)
    ensures
        match r {
            Ok(id) => tok.id_at(name@) == Some(id),
            Err(ChatError::MissingToken(s)) => tok.id_at(name@) is None && s@ == name@,
        },
{
    match tok.id_of(name) {
        Some(id) => Ok(id),
        None => Err(ChatError::MissingToken(name.to_owned())),
    }
}

impl Special {
    /// The spellings, in the order in which they are looked up.
    pub open spec fn names() -> Seq<Seq<char>> {
        seq![
            "<|turn>"@,
            "<turn|>"@,
            "<|channel>"@,
            "<channel|>"@,
            "<|think|>"@,
            "<|tool>"@,
            "<tool|>"@,
            "<|tool_call>"@,
            "<tool_call|>"@,
            "<|tool_response>"@,
            "<tool_response|>"@,
            dsl::QUOTE@,
        ]
    }

    /// The ids, in the same order.
    pub open spec fn ids(self) -> Seq<u32> {
        seq![
            self.turn_open,
            self.turn_close,
            self.channel_open,
            self.channel_close,
            self.think,
            self.tool_open,
            self.tool_close,
            self.call_open,
            self.call_close,
            self.response_open,
            self.response_close,
            self.quote,
        ]
    }

    pub fn new(t: &Tokenizer) -> (r: Result<Special, ChatError>)
        ensures
            match r {
                Ok(sp) => {
                    &&& first_missing(*t, Self::names(), 0) is None
                    &&& sp.bos == t.bos
                    &&& forall|i: int|
                        0 <= i < 12 ==> t.id_at(#[trigger] Self::names()[i]) == Some(sp.ids()[i])
                },
                Err(ChatError::MissingToken(s)) => first_missing(*t, Self::names(), 0) == Some(s@),
            },
    {
        proof {
            reveal_with_fuel(first_missing, 13);
        }
        let turn_open: u32 = control(t, "<|turn>")?;
        let turn_close: u32 = control(t, "<turn|>")?;
        let channel_open: u32 = control(t, "<|channel>")?;
        let channel_close: u32 = control(t, "<channel|>")?;
        let think: u32 = control(t, "<|think|>")?;
        let tool_open: u32 = control(t, "<|tool>")?;
        let tool_close: u32 = control(t, "<tool|>")?;
        let call_open: u32 = control(t, "<|tool_call>")?;
        let call_close: u32 = control(t, "<tool_call|>")?;
        let response_open: u32 = control(t, "<|tool_response>")?;
        let response_close: u32 = control(t, "<tool_response|>")?;
        let quote: u32 = control(t, dsl::QUOTE)?;
        let sp = Special {
            bos: t.bos,
            turn_open,
            turn_close,
            channel_open,
            channel_close,
            think,
            tool_open,
            tool_close,
            call_open,
            call_close,
            response_open,
            response_close,
            quote,
        };
        Ok(sp)
    }
}

// ---------------------------------------------------------------------------
// Messages
// ---------------------------------------------------------------------------
#[derive(Debug)]
pub struct FunctionCall {
    pub name: String,
    /// Clients send arguments as a JSON *string*.
    pub arguments: String,
}

#[derive(Debug)]
pub struct ApiToolCall {
    pub id: String,
    pub kind: String,
    pub function: FunctionCall,
}

#[derive(Debug)]
pub struct Message {
    pub role: String,
    pub content: Option<Json>,
    pub tool_calls: Vec<ApiToolCall>,
    pub tool_call_id: Option<String>,
    pub name: Option<String>,
    /// Prior reasoning, replayed only alongside tool calls.
    pub reasoning: Option<String>,
}

#[derive(Debug)]
pub struct FunctionDef {
    pub name: String,
    pub description: String,
    pub parameters: Json,
}

#[derive(Debug)]
pub struct Tool {
    pub kind: String,
    pub function: FunctionDef,
}

#[verifier::ext_equal]
pub ghost struct ApiCallView {
    pub id: Seq<char>,
    pub name: Seq<char>,
    pub arguments: Seq<char>,
}

#[verifier::ext_equal]
pub ghost struct MessageView {
    pub role: Seq<char>,
    pub content: Option<JsonView>,
    pub tool_calls: Seq<ApiCallView>,
    pub tool_call_id: Option<Seq<char>>,
    pub name: Option<Seq<char>>,
    pub reasoning: Option<Seq<char>>,
}

#[verifier::ext_equal]
pub ghost struct ToolView {
    pub kind: Seq<char>,
    pub name: Seq<char>,
    pub description: Seq<char>,
    pub parameters: JsonView,
}

pub open spec fn opt_text(s: Option<String>) -> Option<Seq<char>> {
    match s {
        Some(s) => Some(s@),
        None => None,
    }
}

impl View for ApiToolCall {
    type V = ApiCallView;

    open spec fn view(&self) -> ApiCallView {
        ApiCallView {
            id: self.id@,
            name: self.function.name@,
            arguments: self.function.arguments@,
        }
    }
}

impl View for Message {
    type V = MessageView;

    open spec fn view(&self) -> MessageView {
        MessageView {
            role: self.role@,
            content: match self.content {
                Some(v) => Some(v@),
                None => None,
            },
            tool_calls: self.tool_calls@.map_values(|c: ApiToolCall| c@),
            tool_call_id: opt_text(self.tool_call_id),
            name: opt_text(self.name),
            reasoning: opt_text(self.reasoning),
        }
    }
}

impl View for Tool {
    type V = ToolView;

    open spec fn view(&self) -> ToolView {
        ToolView {
            kind: self.kind@,
            name: self.function.name@,
            description: self.function.description@,
            parameters: self.function.parameters@,
        }
    }
}

pub open spec fn message_views(v: Seq<Message>) -> Seq<MessageView> {
    v.map_values(|m: Message| m@)
}

pub open spec fn tool_views(v: Seq<Tool>) -> Seq<ToolView> {
    v.map_values(|t: Tool| t@)
}

/// What one content part says: its text, unless it is an image.
pub open spec fn part_text(p: JsonView) -> Seq<char> {
    if p.get("type"@) == Some(JsonView::Text("image"@)) {
        Seq::empty()
    } else {
        match p.get("text"@) {
            Some(JsonView::Text(s)) => s,
            _ => Seq::empty(),
        }
    }
}

/// What the first `n` content parts say.
pub open spec fn parts_text(a: Seq<JsonView>, n: int) -> Seq<char>
    decreases n,
{
    if n <= 0 {
        Seq::empty()
    } else {
        parts_text(a, n - 1) + part_text(a[n - 1])
    }
}

/// Content flattened: a string, or an array of content parts.
pub open spec fn content_text(content: Option<JsonView>) -> Seq<char> {
    match content {
        Some(JsonView::Text(s)) => s,
        Some(JsonView::List(a)) => parts_text(a, a.len() as int),
        Some(JsonView::Null) => Seq::empty(),
        None => Seq::empty(),
        Some(other) => printed(other),
    }
}

impl MessageView {
    pub open spec fn text(self) -> Seq<char> {
        content_text(self.content)
    }

    /// The content is a value that JSON has.
    pub open spec fn wf(self) -> bool {
        self.content is Some ==> self.content->0.wf()
    }
}

/// Every message has content that JSON has.
pub open spec fn all_wf(v: Seq<MessageView>) -> bool {
    forall|i: int| 0 <= i < v.len() ==> (#[trigger] v[i]).wf()
}

/// Every tool's parameters are a value that JSON has.
pub open spec fn tools_wf(v: Seq<ToolView>) -> bool {
    forall|i: int| 0 <= i < v.len() ==> (#[trigger] v[i]).parameters.wf()
}

fn push_part(p: &Json, out: &mut String)
    ensures
        final(out)@ == old(out)@ + part_text(p@),
{
    let image: bool = match p.get("type") {
        Some(Json::Text(s)) => text::str_eq(s.as_str(), "image"),
        _ => false,
    };
    if !image {
        if let Some(Json::Text(s)) = p.get("text") {
            out.push_str(s.as_str());
            return;
        }
    }
    assert(out@ =~= old(out)@ + part_text(p@));
}

impl Message {
    /// Flatten the content, which may be a string or an array of content parts.
    pub fn text(&self) -> (r: String)
        requires
            self@.wf(),
        ensures
            r@ == self@.text(),
    {
        match &self.content {
            Some(Json::Text(s)) => s.as_str().to_owned(),
            Some(Json::List(a)) => {
                let ghost all = items(a@);
                proof {
                    lemma_list_view(*a);
                }
                let mut out = String::new();
                let mut i: usize = 0;
                assert(out@ =~= parts_text(all, 0));
                while i < a.len()
                    invariant
                        i <= a@.len(),
                        all == items(a@),
                        out@ == parts_text(all, i as int),
                    decreases a@.len() - i,
                {
                    push_part(&a[i], &mut out);
                    i = i + 1;
                }
                out
            },
            Some(Json::Null) => String::new(),
            None => String::new(),
            Some(other) => json::print(other),
        }
    }
}

// ---------------------------------------------------------------------------
// Prompts
// ---------------------------------------------------------------------------
/// A prompt in gemma4's format.
pub struct PromptBuilder<'a> {
    pub sp: &'a Special,
    pub b: Builder<'a>,
}

pub open spec fn opened(sp: Special, role: Seq<char>) -> Seq<Piece> {
    seq![Piece::Token(sp.turn_open), Piece::Text(role), Piece::Text("\n"@)]
}

pub open spec fn closed(sp: Special) -> Seq<Piece> {
    seq![Piece::Token(sp.turn_close), Piece::Text("\n"@)]
}

/// A thought channel that says nothing, which is how the template suppresses
/// reasoning.
pub open spec fn no_thought(sp: Special) -> Seq<Piece> {
    seq![
        Piece::Token(sp.channel_open),
        Piece::Text("thought\n"@),
        Piece::Token(sp.channel_close),
    ]
}

/// A block in the tool-call syntax, between two control tokens.
pub open spec fn block(sp: Special, open: u32, s: Seq<char>, close: u32) -> Seq<Piece> {
    seq![Piece::Token(open)] + marked_text(sp.quote, s) + seq![Piece::Token(close)]
}

impl<'a> PromptBuilder<'a> {
    pub open spec fn wf(&self) -> bool {
        self.b.wf()
    }

    /// `more` was added, and nothing else.
    pub open spec fn extends(&self, before: PromptBuilder<'a>, more: Seq<Piece>) -> bool {
        self.sp == before.sp && self.b.extends(before.b, more)
    }

    pub fn new(tok: &'a Tokenizer, sp: &'a Special) -> (r: PromptBuilder<'a>)
        requires
            tok.wf(),
        ensures
            r.wf(),
            r.sp == sp,
            r.b.tok == tok,
            r.b.pieces@ == seq![Piece::Token(sp.bos)],
    {
        let mut b = Builder::new(tok);
        b.push(sp.bos);
        assert(b.pieces@ =~= seq![Piece::Token(sp.bos)]);
        PromptBuilder { sp, b }
    }

    fn open_turn(&mut self, role: &str)
        requires
            old(self).wf(),
        ensures
            final(self).extends(*old(self), opened(*old(self).sp, role@)),
    {
        self.b.push(self.sp.turn_open);
        self.b.text(role);
        self.b.text("\n");
        assert(self.b.pieces@ =~= old(self).b.pieces@ + opened(*self.sp, role@));
    }

    fn close_turn(&mut self)
        requires
            old(self).wf(),
        ensures
            final(self).extends(*old(self), closed(*old(self).sp)),
    {
        self.b.push(self.sp.turn_close);
        self.b.text("\n");
        assert(self.b.pieces@ =~= old(self).b.pieces@ + closed(*self.sp));
    }

    fn no_thought(&mut self)
        requires
            old(self).wf(),
        ensures
            final(self).extends(*old(self), no_thought(*old(self).sp)),
    {
        self.b.push(self.sp.channel_open);
        self.b.text("thought\n");
        self.b.push(self.sp.channel_close);
        assert(self.b.pieces@ =~= old(self).b.pieces@ + no_thought(*self.sp));
    }

    fn block(&mut self, open: u32, s: &str, close: u32)
        requires
            old(self).wf(),
        ensures
            final(self).extends(*old(self), block(*old(self).sp, open, s@, close)),
    {
        self.b.push(open);
        self.b.marked(self.sp.quote, s);
        self.b.push(close);
        assert(self.b.pieces@ =~= old(self).b.pieces@ + block(*self.sp, open, s@, close));
    }

    pub fn finish(self) -> (ids: Vec<u32>)
        requires
            self.wf(),
        ensures
            ids@ == ids_of(*self.b.tok, self.b.pieces@),
    {
        self.b.ids
    }
}

/// Whether a conversation begins with instructions.
pub open spec fn leads(msgs: Seq<MessageView>) -> bool {
    msgs.len() > 0 && (msgs[0].role == "system"@ || msgs[0].role == "developer"@)
}

pub(crate) fn has_lead(messages: &[Message]) -> (r: bool)
    ensures
        r == leads(message_views(messages@)),
{
    if messages.len() == 0 {
        return false;
    }
    assert(message_views(messages@)[0] == messages@[0]@);
    text::str_eq(messages[0].role.as_str(), "system") || text::str_eq(
        messages[0].role.as_str(),
        "developer",
    )
}

/// The first `n` tool declarations.
pub open spec fn declared(sp: Special, tools: Seq<ToolView>, n: int) -> Seq<Piece>
    decreases n,
{
    if n <= 0 {
        Seq::empty()
    } else {
        declared(sp, tools, n - 1) + block(
            sp,
            sp.tool_open,
            declaration_text(
                tools[n - 1].name,
                tools[n - 1].description,
                tools[n - 1].parameters,
            ),
            sp.tool_close,
        )
    }
}

/// The system turn: the instructions and the tool declarations, where there are
/// any or the model is to think.
pub open spec fn system_turn(
    sp: Special,
    msgs: Seq<MessageView>,
    tools: Seq<ToolView>,
    thinking: bool,
) -> Seq<Piece> {
    if thinking || tools.len() > 0 || leads(msgs) {
        opened(sp, "system"@) + (if thinking {
            seq![Piece::Token(sp.think), Piece::Text("\n"@)]
        } else {
            Seq::empty()
        }) + (if leads(msgs) {
            seq![Piece::Text(trimmed(msgs[0].text()))]
        } else {
            Seq::empty()
        }) + declared(sp, tools, tools.len() as int) + closed(sp)
    } else {
        Seq::empty()
    }
}

/// The messages behind the leading instructions.
pub open spec fn behind_lead(msgs: Seq<MessageView>) -> Seq<MessageView> {
    if leads(msgs) {
        msgs.skip(1)
    } else {
        msgs
    }
}

/// The arguments that a JSON text stands for; none where it is no JSON.
pub open spec fn arguments_of(s: Seq<char>) -> JsonView {
    match read(s) {
        Some(v) => v,
        None => JsonView::Object(Seq::empty()),
    }
}

pub(crate) fn parse_arguments(s: &str) -> (r: Json)
    ensures
        r@ == arguments_of(s@),
        r@.wf(),
{
    match json::parse(s) {
        Some(v) => v,
        None => {
            let none: Vec<Entry> = Vec::new();
            proof {
                lemma_object_view(none);
                assert(json::entries(none@) =~= Seq::empty());
            }
            Json::Object(none)
        },
    }
}

/// The first `n` calls of a turn.
pub open spec fn called(sp: Special, calls: Seq<ApiCallView>, n: int) -> Seq<Piece>
    decreases n,
{
    if n <= 0 {
        Seq::empty()
    } else {
        called(sp, calls, n - 1) + block(
            sp,
            sp.call_open,
            call_text(calls[n - 1].name, arguments_of(calls[n - 1].arguments)),
            sp.call_close,
        )
    }
}

/// The name of the first call from `k` on with this id.
pub open spec fn name_of_call(
    calls: Seq<ApiCallView>,
    id: Option<Seq<char>>,
    k: int,
) -> Option<Seq<char>>
    decreases calls.len() - k,
{
    if k < 0 || k >= calls.len() {
        None
    } else if id == Some(calls[k].id) {
        Some(calls[k].name)
    } else {
        name_of_call(calls, id, k + 1)
    }
}

/// Whose result a message is: that of the call with its id, failing that the name
/// it gives itself.
pub open spec fn result_name(calls: Seq<ApiCallView>, m: MessageView) -> Seq<char> {
    match name_of_call(calls, m.tool_call_id, 0) {
        Some(n) => n,
        None => match m.name {
            Some(n) => n,
            None => "unknown"@,
        },
    }
}

fn find_result_name(calls: &Vec<ApiToolCall>, m: &Message) -> (r: String)
    ensures
        r@ == result_name(calls@.map_values(|c: ApiToolCall| c@), m@),
{
    let ghost all = calls@.map_values(|c: ApiToolCall| c@);
    let n: usize = calls.len();
    let mut k: usize = 0;
    while k < n
        invariant
            k <= n,
            n == calls@.len(),
            all == calls@.map_values(|c: ApiToolCall| c@),
            name_of_call(all, m@.tool_call_id, 0) == name_of_call(all, m@.tool_call_id, k as int),
        decreases n - k,
    {
        assert(all[k as int] == calls@[k as int]@);
        if let Some(id) = &m.tool_call_id {
            if text::str_eq(calls[k].id.as_str(), id.as_str()) {
                return calls[k].function.name.as_str().to_owned();
            }
        }
        k = k + 1;
    }
    match &m.name {
        Some(n) => n.as_str().to_owned(),
        None => "unknown".to_owned(),
    }
}

/// The results that follow a turn with calls: the run of tool messages from `j` on.
pub open spec fn results(
    sp: Special,
    calls: Seq<ApiCallView>,
    rest: Seq<MessageView>,
    j: int,
) -> Seq<Piece>
    decreases rest.len() - j,
{
    if 0 <= j < rest.len() && rest[j].role == "tool"@ {
        block(
            sp,
            sp.response_open,
            response_text(
                result_name(calls, rest[j]),
                rest[j].text(),
                read(rest[j].text()),
            ),
            sp.response_close,
        ) + results(sp, calls, rest, j + 1)
    } else {
        Seq::empty()
    }
}

/// What a turn with calls says.
pub open spec fn call_turn(sp: Special, rest: Seq<MessageView>, i: int) -> Seq<Piece> {
    let m = rest[i];
    (if m.reasoning is Some && trimmed(m.reasoning->0).len() > 0 {
        seq![
            Piece::Token(sp.channel_open),
            Piece::Text("thought\n"@),
            Piece::Text(m.reasoning->0),
            Piece::Text("\n"@),
            Piece::Token(sp.channel_close),
        ]
    } else {
        Seq::empty()
    }) + called(sp, m.tool_calls, m.tool_calls.len() as int) + (if i + 1 < rest.len() && rest[i
        + 1].role == "tool"@ {
        results(sp, m.tool_calls, rest, i + 1) + closed(sp)
    } else {
        // Calls with no results yet: the response block stays open, so that the
        // model continues from where it stopped.
        seq![Piece::Token(sp.response_open)]
    })
}

pub open spec fn role_of(m: MessageView) -> Seq<char> {
    if m.role == "assistant"@ {
        "model"@
    } else {
        m.role
    }
}

/// What message `i` adds. Tool results stand in the turn that called for them.
pub open spec fn turn(sp: Special, rest: Seq<MessageView>, i: int, thinking: bool) -> Seq<Piece> {
    let m = rest[i];
    if m.role == "tool"@ {
        Seq::empty()
    } else {
        opened(sp, role_of(m)) + (if role_of(m) == "model"@ && !thinking && m.reasoning is None {
            no_thought(sp)
        } else {
            Seq::empty()
        }) + (if m.tool_calls.len() > 0 {
            call_turn(sp, rest, i)
        } else if m.role == "assistant"@ {
            seq![Piece::Text(trimmed(spoken(m.text())))] + closed(sp)
        } else {
            seq![Piece::Text(trimmed(m.text()))] + closed(sp)
        })
    }
}

/// What the first `n` messages add.
pub open spec fn turns(sp: Special, rest: Seq<MessageView>, n: int, thinking: bool) -> Seq<Piece>
    decreases n,
{
    if n <= 0 {
        Seq::empty()
    } else {
        turns(sp, rest, n - 1, thinking) + turn(sp, rest, n - 1, thinking)
    }
}

/// What the model continues from.
pub open spec fn generation(sp: Special, thinking: bool) -> Seq<Piece> {
    opened(sp, "model"@) + (if thinking {
        Seq::empty()
    } else {
        no_thought(sp)
    })
}

/// The prompt for a request.
pub open spec fn prompt_of(
    sp: Special,
    msgs: Seq<MessageView>,
    tools: Seq<ToolView>,
    thinking: bool,
) -> Seq<Piece> {
    let rest = behind_lead(msgs);
    seq![Piece::Token(sp.bos)] + system_turn(sp, msgs, tools, thinking) + turns(
        sp,
        rest,
        rest.len() as int,
        thinking,
    ) + generation(sp, thinking)
}

fn push_system<'a>(b: &mut PromptBuilder<'a>, messages: &[Message], tools: &[Tool], thinking: bool)
    requires
        old(b).wf(),
        all_wf(message_views(messages@)),
        tools_wf(tool_views(tools@)),
    ensures
        final(b).extends(
            *old(b),
            system_turn(
                *old(b).sp,
                message_views(messages@),
                tool_views(tools@),
                thinking,
            ),
        ),
{
    let ghost msgs = message_views(messages@);
    let ghost all = tool_views(tools@);
    let ghost sp = *b.sp;
    let lead: bool = has_lead(messages);
    if !(thinking || tools.len() > 0 || lead) {
        assert(b.b.pieces@ + Seq::empty() =~= b.b.pieces@);
        return;
    }
    b.open_turn("system");
    if thinking {
        b.b.push(b.sp.think);
        b.b.text("\n");
    }
    if lead {
        assert(msgs[0] == messages@[0]@);
        let t = messages[0].text();
        b.b.text(text::trim(t.as_str()).as_str());
    }
    let ghost start = b.b.pieces@;
    let n: usize = tools.len();
    let mut i: usize = 0;
    assert(start + declared(sp, all, 0) =~= start);
    while i < n
        invariant
            i <= n,
            n == tools@.len(),
            all == tool_views(tools@),
            tools_wf(all),
            b.wf(),
            b.sp == old(b).sp,
            b.b.tok == old(b).b.tok,
            sp == *b.sp,
            b.b.pieces@ == start + declared(sp, all, i as int),
        decreases n - i,
    {
        assert(all[i as int] == tools@[i as int]@);
        let d = dsl::encode_declaration(
            tools[i].function.name.as_str(),
            tools[i].function.description.as_str(),
            &tools[i].function.parameters,
        );
        b.block(b.sp.tool_open, d.as_str(), b.sp.tool_close);
        i = i + 1;
        assert(b.b.pieces@ =~= start + declared(sp, all, i as int));
    }
    b.close_turn();
    assert(b.b.pieces@ =~= old(b).b.pieces@ + system_turn(sp, msgs, all, thinking));
}

fn push_calls<'a>(b: &mut PromptBuilder<'a>, m: &Message)
    requires
        old(b).wf(),
    ensures
        final(b).extends(
            *old(b),
            called(*old(b).sp, m@.tool_calls, m@.tool_calls.len() as int),
        ),
{
    let ghost calls = m@.tool_calls;
    let ghost sp = *b.sp;
    let n: usize = m.tool_calls.len();
    let mut k: usize = 0;
    assert(b.b.pieces@ + called(sp, calls, 0) =~= b.b.pieces@);
    while k < n
        invariant
            k <= n,
            n == m.tool_calls@.len(),
            calls == m@.tool_calls,
            b.wf(),
            b.sp == old(b).sp,
            sp == *b.sp,
            b.extends(*old(b), called(sp, calls, k as int)),
        decreases n - k,
    {
        assert(calls[k as int] == m.tool_calls@[k as int]@);
        let args = parse_arguments(m.tool_calls[k].function.arguments.as_str());
        let c = dsl::encode_call(m.tool_calls[k].function.name.as_str(), &args);
        b.block(b.sp.call_open, c.as_str(), b.sp.call_close);
        k = k + 1;
        assert(b.b.pieces@ =~= old(b).b.pieces@ + called(sp, calls, k as int));
    }
}

fn push_results<'a>(b: &mut PromptBuilder<'a>, m: &Message, rest: &[Message], from: usize)
    requires
        old(b).wf(),
        all_wf(message_views(rest@)),
        from <= rest@.len(),
    ensures
        final(b).extends(
            *old(b),
            results(*old(b).sp, m@.tool_calls, message_views(rest@), from as int),
        ),
{
    let ghost msgs = message_views(rest@);
    let ghost calls = m@.tool_calls;
    let ghost sp = *b.sp;
    let ghost start = b.b.pieces@;
    let ghost whole = results(sp, calls, msgs, from as int);
    let n: usize = rest.len();
    let mut j: usize = from;
    while j < n
        invariant
            from <= j <= n,
            n == rest@.len(),
            msgs == message_views(rest@),
            all_wf(msgs),
            calls == m@.tool_calls,
            b.wf(),
            b.sp == old(b).sp,
            b.b.tok == old(b).b.tok,
            sp == *b.sp,
            start == old(b).b.pieces@,
            whole == results(sp, calls, msgs, from as int),
            b.b.pieces@ + results(sp, calls, msgs, j as int) == start + whole,
        decreases n - j,
    {
        assert(msgs[j as int] == rest@[j as int]@);
        if !text::str_eq(rest[j].role.as_str(), "tool") {
            assert(b.b.pieces@ + Seq::empty() =~= b.b.pieces@);
            return;
        }
        let ghost before = b.b.pieces@;
        let name = find_result_name(&m.tool_calls, &rest[j]);
        let content = rest[j].text();
        let r = dsl::encode_response(name.as_str(), content.as_str());
        b.block(b.sp.response_open, r.as_str(), b.sp.response_close);
        proof {
            let more = results(sp, calls, msgs, j + 1);
            assert(b.b.pieces@ + more =~= before + results(sp, calls, msgs, j as int));
        }
        j = j + 1;
    }
    assert(b.b.pieces@ + Seq::empty() =~= b.b.pieces@);
}

fn push_call_turn<'a>(b: &mut PromptBuilder<'a>, rest: &[Message], i: usize)
    requires
        old(b).wf(),
        all_wf(message_views(rest@)),
        i < rest@.len(),
    ensures
        final(b).extends(*old(b), call_turn(*old(b).sp, message_views(rest@), i as int)),
{
    let ghost msgs = message_views(rest@);
    let ghost sp = *b.sp;
    let ghost start = b.b.pieces@;
    let m = &rest[i];
    assert(msgs[i as int] == m@);
    if let Some(r) = &m.reasoning {
        if !text::trim(r.as_str()).as_str().is_empty() {
            b.b.push(b.sp.channel_open);
            b.b.text("thought\n");
            b.b.text(r.as_str());
            b.b.text("\n");
            b.b.push(b.sp.channel_close);
        }
    }
    let ghost thoughts = if m@.reasoning is Some && trimmed(m@.reasoning->0).len() > 0 {
        seq![
            Piece::Token(sp.channel_open),
            Piece::Text("thought\n"@),
            Piece::Text(m@.reasoning->0),
            Piece::Text("\n"@),
            Piece::Token(sp.channel_close),
        ]
    } else {
        Seq::empty()
    };
    assert(b.b.pieces@ =~= start + thoughts);
    push_calls(b, m);
    let ghost calls = called(sp, m@.tool_calls, m@.tool_calls.len() as int);
    let any: bool = i + 1 < rest.len() && text::str_eq(rest[i + 1].role.as_str(), "tool");
    assert(i + 1 < msgs.len() ==> msgs[i + 1] == rest@[i + 1]@);
    if any {
        push_results(b, m, rest, i + 1);
        b.close_turn();
        assert(b.b.pieces@ =~= start + (thoughts + calls + (results(
            sp,
            m@.tool_calls,
            msgs,
            i + 1,
        ) + closed(sp))));
    } else {
        b.b.push(b.sp.response_open);
        assert(b.b.pieces@ =~= start + (thoughts + calls + seq![Piece::Token(sp.response_open)]));
    }
}

fn push_turn<'a>(b: &mut PromptBuilder<'a>, rest: &[Message], i: usize, thinking: bool)
    requires
        old(b).wf(),
        all_wf(message_views(rest@)),
        i < rest@.len(),
    ensures
        final(b).extends(*old(b), turn(*old(b).sp, message_views(rest@), i as int, thinking)),
{
    let ghost msgs = message_views(rest@);
    let ghost sp = *b.sp;
    let ghost start = b.b.pieces@;
    let m = &rest[i];
    assert(msgs[i as int] == m@);
    if text::str_eq(m.role.as_str(), "tool") {
        assert(start + Seq::empty() =~= start);
        return;
    }
    let assistant: bool = text::str_eq(m.role.as_str(), "assistant");
    let role: &str = if assistant { "model" } else { m.role.as_str() };
    b.open_turn(role);
    if text::str_eq(role, "model") && !thinking && m.reasoning.is_none() {
        b.no_thought();
    }
    let ghost opening = b.b.pieces@;
    assert(opening =~= start + opened(sp, role_of(m@)) + (if role_of(m@) == "model"@ && !thinking
        && m@.reasoning is None {
        no_thought(sp)
    } else {
        Seq::empty()
    }));
    if m.tool_calls.len() > 0 {
        push_call_turn(b, rest, i);
        assert(b.b.pieces@ =~= start + turn(sp, msgs, i as int, thinking));
        return;
    }
    let content = m.text();
    if assistant {
        let said = strip_thinking(content.as_str());
        b.b.text(text::trim(said.as_str()).as_str());
    } else {
        b.b.text(text::trim(content.as_str()).as_str());
    }
    b.close_turn();
    assert(b.b.pieces@ =~= start + turn(sp, msgs, i as int, thinking));
}

/// Build the full prompt for a request: a leading system turn carrying the system
/// message and any tool declarations, then one turn per message, then the
/// generation prompt. When thinking is disabled the generation prompt opens and
/// immediately closes an empty thought channel.
pub fn build_prompt(
    tok: &Tokenizer,
    sp: &Special,
    messages: &[Message],
    tools: &[Tool],
    enable_thinking: bool,
) -> (ids: Vec<u32>)
    requires
        tok.wf(),
        all_wf(message_views(messages@)),
        tools_wf(tool_views(tools@)),
    ensures
        ids@ == ids_of(
            *tok,
            prompt_of(*sp, message_views(messages@), tool_views(tools@), enable_thinking),
        ),
{
    let ghost msgs = message_views(messages@);
    let mut b = PromptBuilder::new(tok, sp);
    push_system(&mut b, messages, tools, enable_thinking);
    let from: usize = if has_lead(messages) { 1 } else { 0 };
    let rest = vstd::slice::slice_subrange(messages, from, messages.len());
    let ghost behind = message_views(rest@);
    assert(behind =~= behind_lead(msgs));
    assert(all_wf(behind)) by {
        assert forall|i: int| 0 <= i < behind.len() implies (#[trigger] behind[i]).wf() by {
            assert(behind[i] == msgs[i + from]);
        }
    }
    let ghost start = b.b.pieces@;
    let n: usize = rest.len();
    let mut i: usize = 0;
    assert(start + turns(*sp, behind, 0, enable_thinking) =~= start);
    while i < n
        invariant
            i <= n,
            n == rest@.len(),
            behind == message_views(rest@),
            all_wf(behind),
            b.wf(),
            b.sp == sp,
            b.b.tok == tok,
            b.b.pieces@ == start + turns(*sp, behind, i as int, enable_thinking),
        decreases n - i,
    {
        push_turn(&mut b, rest, i, enable_thinking);
        i = i + 1;
        assert(b.b.pieces@ =~= start + turns(*sp, behind, i as int, enable_thinking));
    }
    b.open_turn("model");
    if !enable_thinking {
        b.no_thought();
    }
    assert(b.b.pieces@ =~= prompt_of(*sp, msgs, tool_views(tools@), enable_thinking));
    b.finish()
}

/// What is left of the first `n` parts without their thoughts.
pub open spec fn without_thoughts(parts: Seq<Seq<char>>, n: int) -> Seq<char>
    decreases n,
{
    if n <= 0 {
        Seq::empty()
    } else {
        without_thoughts(parts, n - 1) + up_to(parts[n - 1], "<|channel>"@)
    }
}

/// Replayed text without its thought channels.
pub open spec fn spoken(t: Seq<char>) -> Seq<char> {
    let parts = parts_from(t, 0, "<channel|>"@);
    without_thoughts(parts, parts.len() as int)
}

/// Drop any thought channel from replayed assistant text.
pub fn strip_thinking(t: &str) -> (r: String)
    ensures
        r@ == spoken(t@),
{
    proof {
        reveal_strlit("<channel|>");
    }
    let parts = text::split(t, "<channel|>");
    let ghost all = text::views(parts@);
    let mut out = String::new();
    let mut i: usize = 0;
    assert(out@ =~= without_thoughts(all, 0));
    while i < parts.len()
        invariant
            i <= parts@.len(),
            all == text::views(parts@),
            out@ == without_thoughts(all, i as int),
        decreases parts@.len() - i,
    {
        assert(all[i as int] == parts@[i as int]@);
        out.push_str(text::cut_at(parts[i].as_str(), "<|channel>").as_str());
        i = i + 1;
    }
    out
}

// ---------------------------------------------------------------------------
// Completions
// ---------------------------------------------------------------------------
/// What a completed generation decoded to.
#[derive(Debug)]
pub struct Completion {
    pub content: String,
    pub reasoning: String,
    pub tool_calls: Vec<ToolCall>,
}

#[verifier::ext_equal]
pub ghost struct CompletionView {
    pub content: Seq<char>,
    pub reasoning: Seq<char>,
    pub tool_calls: Seq<CallView>,
}

impl View for Completion {
    type V = CompletionView;

    open spec fn view(&self) -> CompletionView {
        CompletionView {
            content: self.content@,
            reasoning: self.reasoning@,
            tool_calls: call_views(self.tool_calls@),
        }
    }
}

pub open spec fn nothing_said() -> CompletionView {
    CompletionView { content: Seq::empty(), reasoning: Seq::empty(), tool_calls: Seq::empty() }
}

impl CompletionView {
    pub open spec fn saying(self, s: Seq<char>) -> CompletionView {
        CompletionView { content: self.content + s, ..self }
    }

    pub open spec fn thinking(self, s: Seq<char>) -> CompletionView {
        CompletionView { reasoning: self.reasoning + s, ..self }
    }

    pub open spec fn calling(self, c: Option<CallView>) -> CompletionView {
        match c {
            Some(c) => CompletionView { tool_calls: self.tool_calls.push(c), ..self },
            None => self,
        }
    }

    pub open spec fn tidy(self) -> CompletionView {
        CompletionView {
            content: trimmed(self.content),
            reasoning: trimmed(self.reasoning),
            ..self
        }
    }
}

impl Completion {
    /// The calls have arguments that JSON has.
    pub open spec fn wf(&self) -> bool {
        call::calls_wf(self@.tool_calls)
    }

    pub fn new() -> (c: Completion)
        ensures
            c@ == nothing_said(),
            c.wf(),
    {
        let c = Completion {
            content: String::new(),
            reasoning: String::new(),
            tool_calls: Vec::new(),
        };
        assert(call_views(c.tool_calls@) =~= Seq::empty());
        c
    }

    pub(crate) fn say(&mut self, s: &str)
        ensures
            final(self)@ == old(self)@.saying(s@),
            old(self).wf() ==> final(self).wf(),
    {
        self.content.push_str(s);
    }

    pub(crate) fn think(&mut self, s: &str)
        ensures
            final(self)@ == old(self)@.thinking(s@),
            old(self).wf() ==> final(self).wf(),
    {
        self.reasoning.push_str(s);
    }

    pub(crate) fn call(&mut self, c: Option<ToolCall>)
        requires
            old(self).wf(),
            c is Some ==> c->0@.arguments.wf(),
        ensures
            final(self).wf(),
            final(self)@ == old(self)@.calling(
                match c {
                    Some(c) => Some(c@),
                    None => None,
                },
            ),
    {
        if let Some(c) = c {
            let ghost before = call_views(self.tool_calls@);
            let ghost x = c@;
            self.tool_calls.push(c);
            proof {
                assert(call_views(self.tool_calls@) =~= before.push(x));
                assert forall|i: int| 0 <= i < before.len() + 1 implies (#[trigger] self@.tool_calls[i]).arguments.wf() by {
                    if i < before.len() {
                        assert(old(self)@.tool_calls[i].arguments.wf());
                    }
                }
            }
        }
    }

    pub(crate) fn tidy(self) -> (r: Completion)
        ensures
            r@ == self@.tidy(),
            self.wf() ==> r.wf(),
    {
        Completion {
            content: text::trim(self.content.as_str()),
            reasoning: text::trim(self.reasoning.as_str()),
            tool_calls: self.tool_calls,
        }
    }
}

/// The first `id` at or after `from`; the end where there is none.
pub open spec fn next_at(ids: Seq<u32>, from: int, id: u32) -> int
    decreases ids.len() - from,
{
    if from < 0 || from >= ids.len() {
        ids.len() as int
    } else if ids[from] == id {
        from
    } else {
        next_at(ids, from + 1, id)
    }
}

pub(crate) fn find_id(ids: &[u32], from: usize, id: u32) -> (r: usize)
    requires
        from <= ids@.len(),
    ensures
        r == next_at(ids@, from as int, id),
        from <= r <= ids@.len(),
{
    let n: usize = ids.len();
    let mut j: usize = from;
    while j < n
        invariant
            from <= j <= n,
            n == ids@.len(),
            next_at(ids@, from as int, id) == next_at(ids@, j as int, id),
        decreases n - j,
    {
        if ids[j] == id {
            return j;
        }
        j = j + 1;
    }
    n
}

/// The spellings of tokens, control tokens and quote markers included.
pub open spec fn raw_text(tok: Tokenizer, ids: Seq<u32>) -> Seq<char>
    decreases ids.len(),
{
    if ids.len() == 0 {
        Seq::empty()
    } else {
        raw_text(tok, ids.drop_last()) + spaced(tok.spelled(ids.last()))
    }
}

fn spell(tok: &Tokenizer, ids: &[u32]) -> (r: String)
    ensures
        r@ == raw_text(*tok, ids@),
{
    let mut r = String::new();
    let mut i: usize = 0;
    assert(ids@.take(0) =~= Seq::empty());
    assert(r@ =~= Seq::empty());
    while i < ids.len()
        invariant
            i <= ids@.len(),
            r@ == raw_text(*tok, ids@.take(i as int)),
        decreases ids@.len() - i,
    {
        assert(ids@.take(i + 1).drop_last() =~= ids@.take(i as int));
        r.push_str(spaces(tok.token_text(ids[i])).as_str());
        i = i + 1;
    }
    assert(ids@.take(i as int) =~= ids@);
    r
}

impl Special {
    /// A token that ends a stretch of content.
    pub open spec fn marks(self, id: u32) -> bool {
        id == self.channel_open || id == self.call_open || id == self.response_open || id
            == self.turn_close
    }
}

/// Where the content from `from` on ends.
pub open spec fn content_end(sp: Special, ids: Seq<u32>, from: int) -> int
    decreases ids.len() - from,
{
    if from < 0 || from >= ids.len() {
        ids.len() as int
    } else if sp.marks(ids[from]) {
        from
    } else {
        content_end(sp, ids, from + 1)
    }
}

pub proof fn lemma_next_at(ids: Seq<u32>, from: int, id: u32)
    requires
        0 <= from <= ids.len(),
    ensures
        from <= next_at(ids, from, id) <= ids.len(),
    decreases ids.len() - from,
{
    if from < ids.len() {
        lemma_next_at(ids, from + 1, id);
    }
}

proof fn lemma_content_end(sp: Special, ids: Seq<u32>, from: int)
    requires
        0 <= from <= ids.len(),
    ensures
        from <= content_end(sp, ids, from) <= ids.len(),
    decreases ids.len() - from,
{
    if from < ids.len() {
        lemma_content_end(sp, ids, from + 1);
    }
}

/// A thought: the channel's name is not part of it.
pub open spec fn thought(t: Seq<char>) -> Seq<char> {
    match text::without_prefix(t, "thought\n"@) {
        Some(s) => s,
        None => t,
    }
}

/// What the tokens from `i` on add to what was said before.
pub open spec fn said_from(
    tok: Tokenizer,
    sp: Special,
    ids: Seq<u32>,
    i: int,
    acc: CompletionView,
) -> CompletionView
    decreases ids.len() + 1 - i,
    when 0 <= i
    via said_decreases
{
    if i >= ids.len() {
        acc
    } else if ids[i] == sp.channel_open {
        let end = next_at(ids, i + 1, sp.channel_close);
        said_from(
            tok,
            sp,
            ids,
            end + 1,
            acc.thinking(thought(decoded(tok, ids.subrange(i + 1, end)))),
        )
    } else if ids[i] == sp.call_open {
        let end = next_at(ids, i + 1, sp.call_close);
        said_from(
            tok,
            sp,
            ids,
            end + 1,
            acc.calling(call_of(trimmed(raw_text(tok, ids.subrange(i + 1, end))))),
        )
    } else if ids[i] == sp.response_open || ids[i] == sp.turn_close {
        // The model opens a response block to signal that it is waiting.
        acc
    } else {
        let end = content_end(sp, ids, i + 1);
        said_from(tok, sp, ids, end, acc.saying(decoded(tok, ids.subrange(i, end))))
    }
}

#[via_fn]
proof fn said_decreases(
    tok: Tokenizer,
    sp: Special,
    ids: Seq<u32>,
    i: int,
    acc: CompletionView,
) {
    if 0 <= i < ids.len() {
        lemma_next_at(ids, i + 1, sp.channel_close);
        lemma_next_at(ids, i + 1, sp.call_close);
        lemma_content_end(sp, ids, i + 1);
    }
}

fn find_content_end(sp: &Special, ids: &[u32], from: usize) -> (r: usize)
    requires
        from <= ids@.len(),
    ensures
        r == content_end(*sp, ids@, from as int),
        from <= r <= ids@.len(),
{
    let n: usize = ids.len();
    let mut j: usize = from;
    while j < n
        invariant
            from <= j <= n,
            n == ids@.len(),
            content_end(*sp, ids@, from as int) == content_end(*sp, ids@, j as int),
        decreases n - j,
    {
        let id: u32 = ids[j];
        if id == sp.channel_open || id == sp.call_open || id == sp.response_open || id
            == sp.turn_close {
            return j;
        }
        j = j + 1;
    }
    n
}

/// Split a generated token sequence into reasoning, content, and tool calls.
///
/// Works on ids rather than decoded text because the quote marker and the channel
/// markers are control tokens that a text decoder deliberately drops.
pub fn parse_completion(tok: &Tokenizer, sp: &Special, ids: &[u32]) -> (r: Completion)
    ensures
        r@ == said_from(*tok, *sp, ids@, 0, nothing_said()).tidy(),
        r.wf(),
{
    let n: usize = ids.len();
    let mut out = Completion::new();
    let mut i: usize = 0;
    let ghost whole = said_from(*tok, *sp, ids@, 0, nothing_said());
    while i < n
        invariant
            i <= n,
            n == ids@.len(),
            whole == said_from(*tok, *sp, ids@, 0, nothing_said()),
            whole == said_from(*tok, *sp, ids@, i as int, out@),
            out.wf(),
        decreases n - i,
    {
        let id: u32 = ids[i];
        if id == sp.channel_open {
            let end: usize = find_id(ids, i + 1, sp.channel_close);
            let body = tok.decode(vstd::slice::slice_subrange(ids, i + 1, end));
            match text::strip_prefix(body.as_str(), "thought\n") {
                Some(t) => out.think(t.as_str()),
                None => out.think(body.as_str()),
            }
            assert(said_from(*tok, *sp, ids@, n as int, out@) == out@);
            assert(said_from(*tok, *sp, ids@, n + 1, out@) == out@);
            i = if end < n { end + 1 } else { n };
        } else if id == sp.call_open {
            let end: usize = find_id(ids, i + 1, sp.call_close);
            let raw = spell(tok, vstd::slice::slice_subrange(ids, i + 1, end));
            let c = call::parse_call(text::trim(raw.as_str()).as_str());
            out.call(c);
            assert(said_from(*tok, *sp, ids@, n as int, out@) == out@);
            assert(said_from(*tok, *sp, ids@, n + 1, out@) == out@);
            i = if end < n { end + 1 } else { n };
        } else if id == sp.response_open || id == sp.turn_close {
            return out.tidy();
        } else {
            let end: usize = find_content_end(sp, ids, i + 1);
            out.say(tok.decode(vstd::slice::slice_subrange(ids, i, end)).as_str());
            i = end;
        }
    }
    out.tidy()
}

} // verus!
