//! The surface that HTTP clients see.
//!
//! Scoped to what an agentic coding client actually uses: the list of models, chat
//! completions, whole or streamed, and tool calling. What is said in which reply is
//! decided here; the sockets are the program's.

use crate::chat::call::{call_views, calls_wf, CallView, ToolCall};
use crate::chat::{
    ApiCallView, ApiToolCall, Completion, CompletionView, FunctionCall, Message, Tool,
};
use crate::engine::{Event, EventView, FinishReason, GenerateRequest};
use crate::gguf::FloatBits;
use crate::json::{self, items, lemma_list_view, object, printed, Fields, Json, JsonView, Number};
use crate::sample::Sampling;
use crate::text::{self, tagged, views};
use vstd::prelude::*;

verus! {

// ---------------------------------------------------------------------------
// Requests
// ---------------------------------------------------------------------------
/// `stop` may be a string or an array of them.
#[derive(Debug)]
pub enum StopField {
    Absent,
    One(String),
    Many(Vec<String>),
}

impl StopField {
    /// The stop strings.
    pub open spec fn strings(self) -> Seq<Seq<char>> {
        match self {
            StopField::Absent => Seq::empty(),
            StopField::One(s) => seq![s@],
            StopField::Many(v) => views(v@),
        }
    }

    pub fn into_vec(self) -> (r: Vec<String>)
        ensures
            views(r@) == self.strings(),
    {
        match self {
            StopField::Absent => {
                let r: Vec<String> = Vec::new();
                assert(views(r@) =~= Seq::empty());
                r
            },
            StopField::One(s) => {
                let ghost x = s@;
                let mut r: Vec<String> = Vec::new();
                r.push(s);
                assert(views(r@) =~= seq![x]);
                r
            },
            StopField::Many(v) => v,
        }
    }
}

pub struct ChatRequest {
    pub model: String,
    pub messages: Vec<Message>,
    pub tools: Vec<Tool>,
    pub stream: bool,
    pub temperature: Option<FloatBits>,
    pub top_p: Option<FloatBits>,
    pub top_k: Option<usize>,
    pub seed: Option<u64>,
    pub max_tokens: Option<usize>,
    pub stop: StopField,
    /// Not standard, but the natural switch for the thought channel.
    pub enable_thinking: Option<bool>,
}

/// How many tokens a client gets that asks for no number.
pub const DEFAULT_MAX_TOKENS: usize = 2048;

pub open spec fn or_default<T>(x: Option<T>, d: T) -> T {
    match x {
        Some(v) => v,
        None => d,
    }
}

/// What a client asks for, with the checkpoint's defaults for what it leaves open.
pub open spec fn sampling_for(d: Sampling, req: ChatRequest) -> Sampling {
    Sampling {
        temperature: or_default(req.temperature, d.temperature),
        top_k: or_default(req.top_k, d.top_k),
        top_p: or_default(req.top_p, d.top_p),
        seed: or_default(req.seed, 0),
        ..d
    }
}

fn pick<T>(x: Option<T>, d: T) -> (r: T)
    ensures
        r == or_default(x, d),
{
    match x {
        Some(v) => v,
        None => d,
    }
}

/// The generation that a request asks for, and whether to stream it. Thinking costs
/// tokens and clients do not surface it, so it is off unless asked for.
pub fn build_job(d: &Sampling, req: ChatRequest) -> (r: (GenerateRequest, bool))
    ensures
        r.0.messages == req.messages,
        r.0.tools == req.tools,
        r.0.sampling == sampling_for(*d, req),
        r.0.max_tokens == or_default(req.max_tokens, DEFAULT_MAX_TOKENS),
        r.0.enable_thinking == or_default(req.enable_thinking, false),
        views(r.0.stop@) == req.stop.strings(),
        r.1 == req.stream,
{
    let sampling = Sampling {
        temperature: pick(req.temperature, d.temperature),
        top_k: pick(req.top_k, d.top_k),
        top_p: pick(req.top_p, d.top_p),
        seed: pick(req.seed, 0u64),
        ..*d
    };
    let job = GenerateRequest {
        messages: req.messages,
        tools: req.tools,
        sampling,
        max_tokens: pick(req.max_tokens, DEFAULT_MAX_TOKENS),
        enable_thinking: pick(req.enable_thinking, false),
        stop: req.stop.into_vec(),
    };
    (job, req.stream)
}

// ---------------------------------------------------------------------------
// Tool calls
// ---------------------------------------------------------------------------
/// Call `i` as clients see it. They correlate results by id; the model has no
/// notion of one, so a stable one is minted per response.
pub open spec fn api_call(c: CallView, i: int) -> ApiCallView {
    ApiCallView { id: tagged("call_"@, i as nat), name: c.name, arguments: printed(c.arguments) }
}

pub open spec fn api_calls(calls: Seq<CallView>) -> Seq<ApiCallView> {
    Seq::new(calls.len(), |i: int| api_call(calls[i], i))
}

pub fn api_tool_calls(calls: &[ToolCall]) -> (r: Vec<ApiToolCall>)
    requires
        calls_wf(call_views(calls@)),
    ensures
        r@.map_values(|c: ApiToolCall| c@) == api_calls(call_views(calls@)),
        forall|i: int| 0 <= i < r@.len() ==> (#[trigger] r@[i]).kind@ == "function"@,
{
    let ghost all = call_views(calls@);
    let n: usize = calls.len();
    let mut r: Vec<ApiToolCall> = Vec::new();
    let mut i: usize = 0;
    while i < n
        invariant
            i <= n,
            n == calls@.len(),
            all == call_views(calls@),
            calls_wf(all),
            r@.len() == i,
            forall|k: int| 0 <= k < i ==> (#[trigger] r@[k])@ == api_call(all[k], k),
            forall|k: int| 0 <= k < i ==> (#[trigger] r@[k]).kind@ == "function"@,
        decreases n - i,
    {
        let c = &calls[i];
        assert(all[i as int] == c@);
        let one = ApiToolCall {
            id: text::tagged_string("call_", i),
            kind: "function".to_owned(),
            function: FunctionCall {
                name: c.name.as_str().to_owned(),
                arguments: json::print(&c.arguments),
            },
        };
        r.push(one);
        i = i + 1;
    }
    assert(r@.map_values(|c: ApiToolCall| c@) =~= api_calls(all));
    r
}

/// Two calls of one response never share an id.
pub proof fn call_ids_differ(calls: Seq<CallView>, i: int, j: int)
    requires
        0 <= i < j < calls.len(),
    ensures
        api_calls(calls)[i].id != api_calls(calls)[j].id,
{
    text::lemma_decimal_one_to_one(i as nat, j as nat);
    let p = "call_"@;
    let a = tagged(p, i as nat);
    let b = tagged(p, j as nat);
    if a == b {
        assert(a.skip(p.len() as int) =~= text::decimal(i as nat));
        assert(b.skip(p.len() as int) =~= text::decimal(j as nat));
    }
}

/// The function part of a call.
pub open spec fn function_json(c: ApiCallView) -> JsonView {
    object(seq![("name"@, JsonView::Text(c.name)), ("arguments"@, JsonView::Text(c.arguments))])
}

/// A call in a whole reply, or number `i` of a streamed one.
pub open spec fn call_json(c: ApiCallView, index: Option<int>) -> JsonView {
    object(
        (match index {
            Some(i) => seq![("index"@, JsonView::Number(Number::Pos(i as u64)))],
            None => Seq::empty(),
        }) + seq![
            ("id"@, JsonView::Text(c.id)),
            ("type"@, JsonView::Text("function"@)),
            ("function"@, function_json(c)),
        ],
    )
}

pub open spec fn calls_json(calls: Seq<ApiCallView>, numbered: bool) -> JsonView {
    JsonView::List(
        Seq::new(
            calls.len(),
            |i: int|
                call_json(
                    calls[i],
                    if numbered {
                        Some(i)
                    } else {
                        None
                    },
                ),
        ),
    )
}

fn call_value(c: &ApiToolCall, index: Option<usize>) -> (r: Json)
    requires
        c.kind@ == "function"@,
    ensures
        r@ == call_json(
            c@,
            match index {
                Some(i) => Some(i as int),
                None => None,
            },
        ),
        r@.wf(),
{
    let mut f = Fields::new();
    f.put_text("name", c.function.name.as_str());
    f.put_text("arguments", c.function.arguments.as_str());
    assert(f.fields@ =~= seq![
        ("name"@, JsonView::Text(c@.name)),
        ("arguments"@, JsonView::Text(c@.arguments)),
    ]);
    let function = f.finish();
    let mut o = Fields::new();
    if let Some(i) = index {
        o.put_number("index", i as u64);
    }
    o.put_text("id", c.id.as_str());
    o.put_text("type", c.kind.as_str());
    o.put("function", function);
    assert(o.fields@ =~= (match index {
        Some(i) => seq![("index"@, JsonView::Number(Number::Pos(i as u64)))],
        None => Seq::empty(),
    }) + seq![
        ("id"@, JsonView::Text(c@.id)),
        ("type"@, JsonView::Text("function"@)),
        ("function"@, function_json(c@)),
    ]);
    o.finish()
}

fn calls_value(calls: &Vec<ApiToolCall>, numbered: bool) -> (r: Json)
    requires
        forall|i: int| 0 <= i < calls@.len() ==> (#[trigger] calls@[i]).kind@ == "function"@,
    ensures
        r@ == calls_json(calls@.map_values(|c: ApiToolCall| c@), numbered),
        r@.wf(),
{
    let ghost all = calls@.map_values(|c: ApiToolCall| c@);
    let n: usize = calls.len();
    let mut a: Vec<Json> = Vec::new();
    let mut i: usize = 0;
    while i < n
        invariant
            i <= n,
            n == calls@.len(),
            all == calls@.map_values(|c: ApiToolCall| c@),
            forall|k: int| 0 <= k < n ==> (#[trigger] calls@[k]).kind@ == "function"@,
            a@.len() == i,
            forall|k: int|
                0 <= k < i ==> (#[trigger] a@[k])@ == call_json(
                    all[k],
                    if numbered {
                        Some(k)
                    } else {
                        None
                    },
                ) && a@[k]@.wf(),
        decreases n - i,
    {
        assert(all[i as int] == calls@[i as int]@);
        let v = call_value(&calls[i], if numbered { Some(i) } else { None });
        a.push(v);
        i = i + 1;
    }
    proof {
        lemma_list_view(a);
        let l = items(a@);
        let want = calls_json(all, numbered)->List_0;
        assert forall|k: int| 0 <= k < l.len() implies #[trigger] l[k] == want[k] by {
            assert(l[k] == a@[k]@);
        }
        assert(l =~= want);
        assert forall|k: int| 0 <= k < l.len() implies (#[trigger] l[k]).wf() by {
            assert(l[k] == a@[k]@);
        }
        reveal_with_fuel(JsonView::wf, 2);
    }
    Json::List(a)
}

// ---------------------------------------------------------------------------
// Whole replies
// ---------------------------------------------------------------------------
/// What the assistant says, as clients see it. They expect null content where a
/// turn is only tool calls.
pub open spec fn message_json(c: CompletionView) -> JsonView {
    let calls = api_calls(c.tool_calls);
    object(
        seq![
            ("role"@, JsonView::Text("assistant"@)),
            (
                "content"@,
                if calls.len() > 0 && c.content.len() == 0 {
                    JsonView::Null
                } else {
                    JsonView::Text(c.content)
                },
            ),
        ] + (if calls.len() > 0 {
            seq![("tool_calls"@, calls_json(calls, false))]
        } else {
            Seq::empty()
        }) + (if c.reasoning.len() > 0 {
            seq![("reasoning_content"@, JsonView::Text(c.reasoning))]
        } else {
            Seq::empty()
        }),
    )
}

fn message_value(c: &Completion) -> (r: Json)
    requires
        c.wf(),
    ensures
        r@ == message_json(c@),
        r@.wf(),
{
    let calls = api_tool_calls(c.tool_calls.as_slice());
    let ghost all = calls@.map_values(|c: ApiToolCall| c@);
    assert(all.len() == calls@.len());
    let mut o = Fields::new();
    o.put_text("role", "assistant");
    if calls.len() > 0 && c.content.as_str().is_empty() {
        o.put("content", Json::Null);
    } else {
        o.put_text("content", c.content.as_str());
    }
    if calls.len() > 0 {
        o.put("tool_calls", calls_value(&calls, false));
    }
    if !c.reasoning.as_str().is_empty() {
        o.put_text("reasoning_content", c.reasoning.as_str());
    }
    assert(o.fields@ =~= seq![
        ("role"@, JsonView::Text("assistant"@)),
        (
            "content"@,
            if all.len() > 0 && c@.content.len() == 0 {
                JsonView::Null
            } else {
                JsonView::Text(c@.content)
            },
        ),
    ] + (if all.len() > 0 {
        seq![("tool_calls"@, calls_json(all, false))]
    } else {
        Seq::empty()
    }) + (if c@.reasoning.len() > 0 {
        seq![("reasoning_content"@, JsonView::Text(c@.reasoning))]
    } else {
        Seq::empty()
    }));
    o.finish()
}

pub open spec fn count(n: int) -> JsonView {
    JsonView::Number(Number::Pos(n as u64))
}

pub open spec fn usage_json(prompt: int, completion: int) -> JsonView {
    object(
        seq![
            ("prompt_tokens"@, count(prompt)),
            ("completion_tokens"@, count(completion)),
            ("total_tokens"@, count(prompt + completion)),
        ],
    )
}

/// A whole reply.
pub open spec fn reply_json(
    model: Seq<char>,
    prompt: int,
    completion: int,
    c: CompletionView,
    reason: FinishReason,
) -> JsonView {
    object(
        seq![
            ("id"@, JsonView::Text("chatcmpl-llmoxide"@)),
            ("object"@, JsonView::Text("chat.completion"@)),
            ("created"@, count(0)),
            ("model"@, JsonView::Text(model)),
            (
                "choices"@,
                JsonView::List(
                    seq![
                        object(
                            seq![
                                ("index"@, count(0)),
                                ("message"@, message_json(c)),
                                ("finish_reason"@, JsonView::Text(reason.name())),
                            ],
                        ),
                    ],
                ),
            ),
            ("usage"@, usage_json(prompt, completion)),
        ],
    )
}

fn usage_value(prompt: usize, completion: usize) -> (r: Json)
    requires
        prompt + completion <= usize::MAX,
    ensures
        r@ == usage_json(prompt as int, completion as int),
        r@.wf(),
{
    let mut o = Fields::new();
    o.put_number("prompt_tokens", prompt as u64);
    o.put_number("completion_tokens", completion as u64);
    o.put_number("total_tokens", (prompt + completion) as u64);
    assert(o.fields@ =~= seq![
        ("prompt_tokens"@, count(prompt as int)),
        ("completion_tokens"@, count(completion as int)),
        ("total_tokens"@, count(prompt + completion)),
    ]);
    o.finish()
}

/// A whole reply.
pub fn reply_value(
    model: &str,
    prompt: usize,
    completion: usize,
    c: &Completion,
    reason: FinishReason,
) -> (r: Json)
    requires
        c.wf(),
        prompt + completion <= usize::MAX,
    ensures
        r@ == reply_json(model@, prompt as int, completion as int, c@, reason),
        r@.wf(),
{
    let mut choice = Fields::new();
    choice.put_number("index", 0);
    choice.put("message", message_value(c));
    choice.put_text("finish_reason", reason.as_str());
    assert(choice.fields@ =~= seq![
        ("index"@, count(0)),
        ("message"@, message_json(c@)),
        ("finish_reason"@, JsonView::Text(reason.name())),
    ]);
    let choices = json::list_of(choice.finish());
    let mut o = Fields::new();
    o.put_text("id", "chatcmpl-llmoxide");
    o.put_text("object", "chat.completion");
    o.put_number("created", 0);
    o.put_text("model", model);
    let ghost chosen = choices@;
    o.put("choices", choices);
    o.put("usage", usage_value(prompt, completion));
    assert(o.fields@ =~= seq![
        ("id"@, JsonView::Text("chatcmpl-llmoxide"@)),
        ("object"@, JsonView::Text("chat.completion"@)),
        ("created"@, count(0)),
        ("model"@, JsonView::Text(model@)),
        ("choices"@, chosen),
        ("usage"@, usage_json(prompt as int, completion as int)),
    ]);
    o.finish()
}

/// How a generation ended.
pub struct Finished {
    pub completion: Completion,
    pub reason: FinishReason,
}

/// What has come of a generation so far.
pub struct Collected {
    pub prompt_tokens: usize,
    pub completion_tokens: usize,
    pub done: Option<Finished>,
    pub err: Option<String>,
}

/// A failed generation, or one that ended without a result.
pub open spec fn collect_error(err: Option<Seq<char>>, done: bool) -> Option<Seq<char>> {
    match err {
        Some(e) => Some(e),
        None => if done {
            None
        } else {
            Some("generation produced no result"@)
        },
    }
}

impl Event {
    /// A completion that is handed out has calls with arguments that JSON has.
    pub open spec fn wf(&self) -> bool {
        self matches Event::Done { completion, .. } ==> completion.wf()
    }
}

impl Collected {
    pub open spec fn wf(&self) -> bool {
        self.done is Some ==> self.done->0.completion.wf()
    }

    pub fn new() -> (r: Collected)
        ensures
            r.wf(),
            r.prompt_tokens == 0,
            r.completion_tokens == 0,
            r.done is None,
            r.err is None,
    {
        Collected { prompt_tokens: 0, completion_tokens: 0, done: None, err: None }
    }

    /// Take an event in; whether the generation is over with it.
    pub fn take(&mut self, ev: Event) -> (over: bool)
        requires
            old(self).wf(),
            ev.wf(),
        ensures
            final(self).wf(),
            over == (ev is Done || ev is Error),
            match ev {
                Event::Prefill { tokens, .. } => *final(self) == (Collected {
                    prompt_tokens: tokens,
                    ..*old(self)
                }),
                Event::Token { .. } => *final(self) == *old(self),
                Event::Done { completion, generated, reason } => *final(self) == (Collected {
                    completion_tokens: generated,
                    done: Some(Finished { completion, reason }),
                    ..*old(self)
                }),
                Event::Error(e) => *final(self) == (Collected { err: Some(e), ..*old(self) }),
            },
    {
        match ev {
            Event::Prefill { tokens, .. } => {
                self.prompt_tokens = tokens;
                false
            },
            Event::Token { .. } => false,
            Event::Done { completion, generated, reason } => {
                self.completion_tokens = generated;
                self.done = Some(Finished { completion, reason });
                true
            },
            Event::Error(e) => {
                self.err = Some(e);
                true
            },
        }
    }

    /// The reply to the client.
    pub fn reply(self, model: &str) -> (r: Result<Json, ApiError>)
        requires
            self.wf(),
            self.prompt_tokens + self.completion_tokens <= usize::MAX,
        ensures
            match collect_error(crate::chat::opt_text(self.err), self.done is Some) {
                Some(e) => r is Err && r->Err_0.client@ == e && r->Err_0.log@ == e,
                None => r is Ok && r->Ok_0@ == reply_json(
                    model@,
                    self.prompt_tokens as int,
                    self.completion_tokens as int,
                    self.done->0.completion@,
                    self.done->0.reason,
                ) && r->Ok_0@.wf(),
            },
    {
        if let Some(e) = self.err {
            return Err(ApiError::new(e));
        }
        match self.done {
            Some(f) => Ok(
                reply_value(
                    model,
                    self.prompt_tokens,
                    self.completion_tokens,
                    &f.completion,
                    f.reason,
                ),
            ),
            None => Err(ApiError::new("generation produced no result".to_owned())),
        }
    }
}

// ---------------------------------------------------------------------------
// Streamed replies
// ---------------------------------------------------------------------------
/// One frame of a streamed reply.
pub open spec fn chunk_json(
    model: Seq<char>,
    delta: JsonView,
    finish: Option<FinishReason>,
) -> JsonView {
    object(
        seq![
            ("id"@, JsonView::Text("chatcmpl-llmoxide"@)),
            ("object"@, JsonView::Text("chat.completion.chunk"@)),
            ("created"@, count(0)),
            ("model"@, JsonView::Text(model)),
            (
                "choices"@,
                JsonView::List(
                    seq![
                        object(
                            seq![
                                ("index"@, count(0)),
                                ("delta"@, delta),
                                (
                                    "finish_reason"@,
                                    match finish {
                                        Some(r) => JsonView::Text(r.name()),
                                        None => JsonView::Null,
                                    },
                                ),
                            ],
                        ),
                    ],
                ),
            ),
        ],
    )
}

fn chunk(model: &str, delta: Json, finish: Option<FinishReason>) -> (r: Json)
    requires
        delta@.wf(),
    ensures
        r@ == chunk_json(model@, delta@, finish),
        r@.wf(),
{
    let ghost d = delta@;
    let mut choice = Fields::new();
    choice.put_number("index", 0);
    choice.put("delta", delta);
    match finish {
        Some(r) => choice.put_text("finish_reason", r.as_str()),
        None => choice.put("finish_reason", Json::Null),
    }
    assert(choice.fields@ =~= seq![
        ("index"@, count(0)),
        ("delta"@, d),
        (
            "finish_reason"@,
            match finish {
                Some(r) => JsonView::Text(r.name()),
                None => JsonView::Null,
            },
        ),
    ]);
    let choices = json::list_of(choice.finish());
    let ghost chosen = choices@;
    let mut o = Fields::new();
    o.put_text("id", "chatcmpl-llmoxide");
    o.put_text("object", "chat.completion.chunk");
    o.put_number("created", 0);
    o.put_text("model", model);
    o.put("choices", choices);
    assert(o.fields@ =~= seq![
        ("id"@, JsonView::Text("chatcmpl-llmoxide"@)),
        ("object"@, JsonView::Text("chat.completion.chunk"@)),
        ("created"@, count(0)),
        ("model"@, JsonView::Text(model@)),
        ("choices"@, chosen),
    ]);
    o.finish()
}

fn one_field(key: &str, v: Json) -> (r: Json)
    requires
        v@.wf(),
    ensures
        r@ == object(seq![(key@, v@)]),
        r@.wf(),
{
    let ghost x = v@;
    let mut o = Fields::new();
    o.put(key, v);
    assert(o.fields@ =~= seq![(key@, x)]);
    o.finish()
}

/// The frame that opens a streamed reply.
pub fn opening_frame(model: &str) -> (r: Json)
    ensures
        r@ == chunk_json(
            model@,
            object(seq![("role"@, JsonView::Text("assistant"@))]),
            None,
        ),
        r@.wf(),
{
    chunk(model, one_field("role", Json::text("assistant")), None)
}

pub open spec fn error_json(message: Seq<char>) -> JsonView {
    object(seq![("error"@, object(seq![("message"@, JsonView::Text(message))]))])
}

fn error_value(message: &str) -> (r: Json)
    ensures
        r@ == error_json(message@),
        r@.wf(),
{
    one_field("error", one_field("message", Json::text(message)))
}

/// The frames that an event brings. Tool calls only become well formed once their
/// end has arrived, so they are sent whole at the end rather than in pieces.
pub open spec fn frames(model: Seq<char>, ev: EventView) -> Seq<JsonView> {
    match ev {
        EventView::Token { text, .. } => if text.len() > 0 {
            seq![
                chunk_json(model, object(seq![("content"@, JsonView::Text(text))]), None),
            ]
        } else {
            Seq::empty()
        },
        EventView::Prefill { .. } => Seq::empty(),
        EventView::Done { completion, reason, .. } => (if completion.tool_calls.len() > 0 {
            seq![
                chunk_json(
                    model,
                    object(
                        seq![
                            (
                                "tool_calls"@,
                                calls_json(api_calls(completion.tool_calls), true),
                            ),
                        ],
                    ),
                    None,
                ),
            ]
        } else {
            Seq::empty()
        }) + seq![chunk_json(model, object(Seq::empty()), Some(reason))],
        EventView::Error(e) => seq![error_json(e)],
    }
}

/// What follows the last frame of a stream.
pub const STREAM_END: &'static str = "[DONE]";

/// The frames that an event brings, and whether the stream is over with it.
pub fn stream_frames(model: &str, ev: &Event) -> (r: (Vec<Json>, bool))
    requires
        ev.wf(),
    ensures
        items(r.0@) == frames(model@, ev@),
        forall|i: int| 0 <= i < r.0@.len() ==> (#[trigger] r.0@[i])@.wf(),
        r.1 == (ev is Done || ev is Error),
{
    let mut out: Vec<Json> = Vec::new();
    let over: bool = match ev {
        Event::Token { text, .. } => {
            if !text.as_str().is_empty() {
                let delta = one_field("content", Json::text(text.as_str()));
                out.push(chunk(model, delta, None));
            }
            false
        },
        Event::Prefill { .. } => false,
        Event::Done { completion, reason, .. } => {
            if completion.tool_calls.len() > 0 {
                let calls = api_tool_calls(completion.tool_calls.as_slice());
                let delta = one_field("tool_calls", calls_value(&calls, true));
                out.push(chunk(model, delta, None));
            }
            let none = Fields::new();
            out.push(chunk(model, none.finish(), Some(*reason)));
            true
        },
        Event::Error(e) => {
            out.push(error_value(e.as_str()));
            true
        },
    };
    assert(items(out@) =~= frames(model@, ev@));
    (out, over)
}

// ---------------------------------------------------------------------------
// Other replies
// ---------------------------------------------------------------------------
pub open spec fn models_json(model: Seq<char>, context_len: int) -> JsonView {
    object(
        seq![
            ("object"@, JsonView::Text("list"@)),
            (
                "data"@,
                JsonView::List(
                    seq![
                        object(
                            seq![
                                ("id"@, JsonView::Text(model)),
                                ("object"@, JsonView::Text("model"@)),
                                ("created"@, count(0)),
                                ("owned_by"@, JsonView::Text("llmoxide"@)),
                                ("context_length"@, count(context_len)),
                            ],
                        ),
                    ],
                ),
            ),
        ],
    )
}

/// The one model there is.
pub fn list_models(model: &str, context_len: usize) -> (r: Json)
    ensures
        r@ == models_json(model@, context_len as int),
        r@.wf(),
{
    let mut m = Fields::new();
    m.put_text("id", model);
    m.put_text("object", "model");
    m.put_number("created", 0);
    m.put_text("owned_by", "llmoxide");
    m.put_number("context_length", context_len as u64);
    assert(m.fields@ =~= seq![
        ("id"@, JsonView::Text(model@)),
        ("object"@, JsonView::Text("model"@)),
        ("created"@, count(0)),
        ("owned_by"@, JsonView::Text("llmoxide"@)),
        ("context_length"@, count(context_len as int)),
    ]);
    let data = json::list_of(m.finish());
    let ghost d = data@;
    let mut o = Fields::new();
    o.put_text("object", "list");
    o.put("data", data);
    assert(o.fields@ =~= seq![("object"@, JsonView::Text("list"@)), ("data"@, d)]);
    o.finish()
}

/// Whether the conversation was forgotten.
pub fn wiped(ok: bool) -> (r: Json)
    ensures
        r@ == object(seq![("wiped"@, JsonView::Bool(ok))]),
        r@.wf(),
{
    one_field("wiped", Json::Bool(ok))
}

/// The reply to a request that nothing answers.
pub fn unmatched(method: &str, uri: &str) -> (r: Json)
    ensures
        r@ == error_json("no route for "@ + method@ + " "@ + uri@),
        r@.wf(),
{
    let mut m = "no route for ".to_owned();
    m.push_str(method);
    m.push_str(" ");
    m.push_str(uri);
    error_value(m.as_str())
}

/// An error with two faces: what the client is told, and what gets logged.
///
/// They have to differ. A parse error quotes the offending value, so logging what
/// goes to the client would write a fragment of the prompt into the log. The client
/// already has its own payload, so it gets the detailed message; the log gets the
/// shape of the failure and nothing from inside it.
#[derive(Debug)]
pub struct ApiError {
    pub client: String,
    pub log: String,
}

impl ApiError {
    /// Same text both ways, for errors that do not come from input.
    pub fn new(msg: String) -> (r: ApiError)
        ensures
            r.client@ == msg@,
            r.log@ == msg@,
    {
        let log = msg.as_str().to_owned();
        ApiError { client: msg, log }
    }

    /// A detailed message for the client, a sanitized one for the log.
    pub fn split(client: String, log: String) -> (r: ApiError)
        ensures
            r.client == client,
            r.log == log,
    {
        ApiError { client, log }
    }

    /// What the client is told.
    pub fn body(&self) -> (r: Json)
        ensures
            r@ == object(
                seq![
                    (
                        "error"@,
                        object(
                            seq![
                                ("message"@, JsonView::Text(self.client@)),
                                ("type"@, JsonView::Text("server_error"@)),
                            ],
                        ),
                    ),
                ],
            ),
            r@.wf(),
    {
        let mut e = Fields::new();
        e.put_text("message", self.client.as_str());
        e.put_text("type", "server_error");
        assert(e.fields@ =~= seq![
            ("message"@, JsonView::Text(self.client@)),
            ("type"@, JsonView::Text("server_error"@)),
        ]);
        one_field("error", e.finish())
    }
}

} // verus!
