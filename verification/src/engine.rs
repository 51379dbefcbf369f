//! The single-slot inference engine.
//!
//! One model, one request at a time. What is decided here is which tokens the
//! backend is given, what is sent to the client and when a generation ends; the
//! forward pass, the sampling arithmetic and the channel are the caller's. A run is
//! a dialogue: the engine asks for one thing at a time and is told what came of it.
//!
//! The engine keeps the exact token sequence that the backend holds. A prompt that
//! extends it is only processed from there on.

use crate::chat::call::{self, bare_calls, CallView, FoundView, ToolCall};
use crate::chat::prompt::ids_of;
use crate::chat::{
    self, all_wf, message_views, nothing_said, qwen, tool_views, tools_wf, Completion,
    CompletionView, Message, MessageView, Special, Tool, ToolView,
};
use crate::sample::Sampling;
use crate::secret::{blank, SecretString, SecretVec};
use crate::text::{self, find_at, trimmed, views};
use crate::tokenizer::decoder::{pushed, Decoder};
use crate::tokenizer::Tokenizer;
use vstd::prelude::*;

verus! {

pub struct GenerateRequest {
    pub messages: Vec<Message>,
    pub tools: Vec<Tool>,
    pub sampling: Sampling,
    pub max_tokens: usize,
    pub enable_thinking: bool,
    /// Extra stop strings from the client, checked against decoded text.
    pub stop: Vec<String>,
}

#[derive(Debug)]
pub enum Event {
    /// Prompt accepted: total tokens, and how many were served from cache.
    Prefill { tokens: usize, cached: usize },
    /// A newly generated token and the text it decoded to (possibly empty).
    Token { id: u32, text: String },
    Done { completion: Completion, generated: usize, reason: FinishReason },
    Error(String),
}

#[derive(Debug, Clone, Copy, PartialEq, Eq, Structural)]
pub enum FinishReason {
    Stop,
    Length,
    ToolCalls,
}

impl FinishReason {
    pub open spec fn name(self) -> Seq<char> {
        match self {
            FinishReason::Stop => "stop"@,
            FinishReason::Length => "length"@,
            FinishReason::ToolCalls => "tool_calls"@,
        }
    }

    pub fn as_str(self) -> (r: &'static str)
        ensures
            r@ == self.name(),
    {
        match self {
            FinishReason::Stop => "stop",
            FinishReason::Length => "length",
            FinishReason::ToolCalls => "tool_calls",
        }
    }
}

#[derive(Debug)]
pub enum EngineError {
    /// The prompt does not fit the context.
    PromptTooLong { tokens: usize, context: usize },
}

/// Each architecture speaks its own chat dialect.
#[derive(Debug, Clone, Copy)]
pub enum ChatFormat {
    Gemma4(Special),
    Qwen35(qwen::Special),
}

// ---------------------------------------------------------------------------
// What a run goes by
// ---------------------------------------------------------------------------
#[verifier::ext_equal]
pub ghost struct RequestView {
    pub messages: Seq<MessageView>,
    pub tools: Seq<ToolView>,
    pub sampling: Sampling,
    pub max_tokens: int,
    pub enable_thinking: bool,
    pub stop: Seq<Seq<char>>,
}

impl View for GenerateRequest {
    type V = RequestView;

    open spec fn view(&self) -> RequestView {
        RequestView {
            messages: message_views(self.messages@),
            tools: tool_views(self.tools@),
            sampling: self.sampling,
            max_tokens: self.max_tokens as int,
            enable_thinking: self.enable_thinking,
            stop: views(self.stop@),
        }
    }
}

impl RequestView {
    /// The messages and tools hold values that JSON has.
    pub open spec fn wf(self) -> bool {
        all_wf(self.messages) && tools_wf(self.tools)
    }
}

/// The prompt that a request makes.
pub open spec fn prompt_of(tok: Tokenizer, chat: ChatFormat, req: RequestView) -> Seq<u32> {
    match chat {
        ChatFormat::Gemma4(sp) => ids_of(
            tok,
            chat::prompt_of(sp, req.messages, req.tools, req.enable_thinking),
        ),
        ChatFormat::Qwen35(sp) => ids_of(
            tok,
            qwen::prompt_of(sp, req.messages, req.tools, req.enable_thinking),
        ),
    }
}

/// How much of a prompt the cache can serve.
///
/// Only a strict prefix of what is already resident counts. Rewinding is not an
/// option: the sliding-window layers keep a ring, so positions before the rewind
/// point have already been overwritten by later ones. Conversations that only
/// append take this path every turn.
pub open spec fn reusable(cached: Seq<u32>, prompt: Seq<u32>) -> int {
    if cached.is_prefix_of(prompt) && cached.len() < prompt.len() {
        cached.len() as int
    } else {
        0
    }
}

pub fn reusable_prefix(cached: &[u32], prompt: &[u32]) -> (r: usize)
    ensures
        r == reusable(cached@, prompt@),
{
    let n: usize = cached.len();
    if n >= prompt.len() {
        return 0;
    }
    let mut i: usize = 0;
    while i < n
        invariant
            i <= n,
            n == cached@.len(),
            n < prompt@.len(),
            forall|j: int| 0 <= j < i ==> cached@[j] == prompt@[j],
        decreases n - i,
    {
        if cached[i] != prompt[i] {
            proof {
                if cached@.is_prefix_of(prompt@) {
                    assert(prompt@.subrange(0, n as int)[i as int] == prompt@[i as int]);
                }
            }
            return 0;
        }
        i = i + 1;
    }
    assert(cached@ =~= prompt@.subrange(0, n as int));
    n
}

// ---------------------------------------------------------------------------
// Completions
// ---------------------------------------------------------------------------
/// Whether a tool was declared.
pub open spec fn declared(tools: Seq<ToolView>, name: Seq<char>) -> bool {
    exists|i: int| 0 <= i < tools.len() && (#[trigger] tools[i]).name == name
}

fn is_declared(tools: &Vec<Tool>, name: &str) -> (r: bool)
    ensures
        r == declared(tool_views(tools@), name@),
{
    let ghost all = tool_views(tools@);
    let n: usize = tools.len();
    let mut i: usize = 0;
    while i < n
        invariant
            i <= n,
            n == tools@.len(),
            all == tool_views(tools@),
            forall|j: int| 0 <= j < i ==> (#[trigger] all[j]).name != name@,
        decreases n - i,
    {
        assert(all[i as int] == tools@[i as int]@);
        if text::str_eq(tools[i].function.name.as_str(), name) {
            return true;
        }
        i = i + 1;
    }
    false
}

/// The calls to declared tools, in order.
pub open spec fn allowed(calls: Seq<CallView>, tools: Seq<ToolView>) -> Seq<CallView>
    decreases calls.len(),
{
    if calls.len() == 0 {
        Seq::empty()
    } else {
        (if declared(tools, calls[0].name) {
            seq![calls[0]]
        } else {
            Seq::empty()
        }) + allowed(calls.drop_first(), tools)
    }
}

/// A text without the calls that were found in it.
pub open spec fn excised(t: Seq<char>, bare: Seq<FoundView>) -> Seq<char>
    decreases bare.len(),
{
    if bare.len() == 0 {
        t
    } else {
        excised(t.take(bare.last().start) + t.skip(bare.last().end), bare.drop_last())
    }
}

/// The calls that were found in a text and are declared, the last one first.
pub open spec fn promoted(bare: Seq<FoundView>, tools: Seq<ToolView>) -> Seq<CallView>
    decreases bare.len(),
{
    if bare.len() == 0 {
        Seq::empty()
    } else {
        (if declared(tools, bare.last().call.name) {
            seq![bare.last().call]
        } else {
            Seq::empty()
        }) + promoted(bare.drop_last(), tools)
    }
}

/// A completion in which calls that stand bare in the content are calls: the model
/// sometimes emits them unwrapped. They are cut out of the content either way.
pub open spec fn unwrapped(c: CompletionView, tools: Seq<ToolView>) -> CompletionView {
    let bare = bare_calls(c.content, 0);
    if bare.len() > 0 {
        CompletionView {
            content: trimmed(excised(c.content, bare)),
            tool_calls: c.tool_calls + promoted(bare, tools),
            ..c
        }
    } else {
        c
    }
}

/// What the tokens of a generation come to. Calls to tools that were never
/// declared are dropped: the model will occasionally invent one, and a client that
/// dispatched it would run something unintended.
pub open spec fn completion_of(
    tok: Tokenizer,
    chat: ChatFormat,
    req: RequestView,
    ids: Seq<u32>,
) -> CompletionView {
    let c = match chat {
        ChatFormat::Gemma4(sp) => unwrapped(
            chat::said_from(tok, sp, ids, 0, nothing_said()).tidy(),
            req.tools,
        ),
        // With thinking on, the prompt leaves a thought open, so the stream starts
        // inside it.
        ChatFormat::Qwen35(sp) => qwen::said_from(
            tok,
            sp,
            ids,
            0,
            req.enable_thinking,
            nothing_said(),
        ).tidy(),
    };
    CompletionView { tool_calls: allowed(c.tool_calls, req.tools), ..c }
}

/// Calls found in a text lie within it, one behind the other.
pub open spec fn in_order(bare: Seq<FoundView>, len: int) -> bool {
    &&& forall|i: int|
        0 <= i < bare.len() ==> 0 <= (#[trigger] bare[i]).start < bare[i].end <= len
    &&& forall|i: int, j: int|
        0 <= i < j < bare.len() ==> (#[trigger] bare[i]).end <= (#[trigger] bare[j]).start
}

/// Calls found from `from` on lie behind it, within the text and in order.
pub proof fn bare_calls_are_in_order(t: Seq<char>, from: int)
    requires
        0 <= from,
    ensures
        in_order(bare_calls(t, from), t.len() as int),
        forall|i: int|
            0 <= i < bare_calls(t, from).len() ==> from <= (#[trigger] bare_calls(t, from)[i]).start,
    decreases t.len() - from,
{
    reveal_strlit("{");
    reveal_strlit("call:");
    text::lemma_find_at(t, from, "call:"@);
    match find_at(t, from, "call:"@) {
        None => {},
        Some(start) => {
            text::lemma_find_at(t, start, "{"@);
            match find_at(t, start, "{"@) {
                None => {},
                Some(open) => {
                    call::lemma_closing(t, open, 0);
                    match call::closing(t, open, 0) {
                        None => {},
                        Some(end) => {
                            match call::call_of(t.subrange(start, end)) {
                                Some(c) => {
                                    bare_calls_are_in_order(t, end);
                                    let rest = bare_calls(t, end);
                                    let all = bare_calls(t, from);
                                    let first = FoundView { start, end, call: c };
                                    assert(all == seq![first] + rest);
                                    assert forall|i: int| 0 <= i < all.len() implies 0 <= (
                                    #[trigger] all[i]).start < all[i].end <= t.len() && from
                                        <= all[i].start by {
                                        if i > 0 {
                                            assert(all[i] == rest[i - 1]);
                                        }
                                    }
                                    assert forall|i: int, j: int|
                                        0 <= i < j < all.len() implies (#[trigger] all[i]).end <= (
                                    #[trigger] all[j]).start by {
                                        assert(all[j] == rest[j - 1]);
                                        if i > 0 {
                                            assert(all[i] == rest[i - 1]);
                                        }
                                    }
                                },
                                None => {
                                    bare_calls_are_in_order(t, open + 1);
                                },
                            }
                        },
                    }
                },
            }
        },
    }
}

/// Turn calls that stand bare in the content into calls.
pub fn unwrap_calls(c: Completion, tools: &Vec<Tool>) -> (r: Completion)
    requires
        c.wf(),
    ensures
        r@ == unwrapped(c@, tool_views(tools@)),
        r.wf(),
{
    let mut bare = call::find_bare_calls(c.content.as_str());
    if bare.len() == 0 {
        return c;
    }
    let ghost all = call::found_views(bare@);
    let ghost decl = tool_views(tools@);
    let ghost whole = c.content@;
    let ghost said = call::call_views(c.tool_calls@);
    proof {
        bare_calls_are_in_order(whole, 0);
    }
    let mut t = text::chars_of(c.content.as_str());
    let mut calls = c.tool_calls;
    assert(said + promoted(all, decl) =~= said + promoted(all, decl));
    while bare.len() > 0
        invariant
            decl == tool_views(tools@),
            in_order(call::found_views(bare@), t@.len() as int),
            excised(whole, all) == excised(t@, call::found_views(bare@)),
            said + promoted(all, decl) == call::call_views(calls@) + promoted(
                call::found_views(bare@),
                decl,
            ),
            call::calls_wf(call::call_views(calls@)),
            forall|i: int| 0 <= i < bare@.len() ==> (#[trigger] bare@[i]).call@.arguments.wf(),
        decreases bare@.len(),
    {
        let ghost left = call::found_views(bare@);
        let ghost have = call::call_views(calls@);
        match bare.pop() {
            Some(f) => {
                let n: usize = t.len();
                proof {
                    assert(left.last() == f@);
                    assert(call::found_views(bare@) =~= left.drop_last());
                    assert(left[left.len() - 1].end <= n);
                }
                let ghost now = t@;
                t = cut(&t, f.start, f.end);
                proof {
                    let fewer = call::found_views(bare@);
                    assert forall|i: int| 0 <= i < fewer.len() implies 0 <= (
                    #[trigger] fewer[i]).start < fewer[i].end <= t@.len() by {
                        assert(fewer[i] == left[i]);
                        assert(left[i].end <= left[left.len() - 1].start);
                    }
                    assert forall|i: int, j: int| 0 <= i < j < fewer.len() implies (
                    #[trigger] fewer[i]).end <= (#[trigger] fewer[j]).start by {
                        assert(fewer[i] == left[i]);
                        assert(fewer[j] == left[j]);
                    }
                }
                let ok: bool = is_declared(tools, f.call.name.as_str());
                let ghost x = f.call@;
                if ok {
                    calls.push(f.call);
                    assert(call::call_views(calls@) =~= have.push(x));
                }
                proof {
                    let rest = promoted(left.drop_last(), decl);
                    if ok {
                        assert(have + (seq![x] + rest) =~= have.push(x) + rest);
                    } else {
                        assert(have + (Seq::<CallView>::empty() + rest) =~= have + rest);
                    }
                }
            },
            None => {},
        }
    }
    assert(call::found_views(bare@) =~= Seq::empty());
    assert(call::call_views(calls@) + Seq::<CallView>::empty() =~= call::call_views(calls@));
    Completion {
        content: text::string_of(text::trim_chars(t.as_slice())),
        reasoning: c.reasoning,
        tool_calls: calls,
    }
}

/// `t` without `t[start..end]`.
fn cut(t: &Vec<char>, start: usize, end: usize) -> (r: Vec<char>)
    requires
        start <= end <= t@.len(),
    ensures
        r@ == t@.take(start as int) + t@.skip(end as int),
{
    let n: usize = t.len();
    let mut r: Vec<char> = Vec::new();
    let mut i: usize = 0;
    while i < start
        invariant
            i <= start <= n,
            n == t@.len(),
            r@ == t@.take(i as int),
        decreases start - i,
    {
        r.push(t[i]);
        i = i + 1;
        assert(r@ =~= t@.take(i as int));
    }
    let mut j: usize = end;
    assert(r@ =~= t@.take(start as int) + t@.subrange(end as int, end as int));
    while j < n
        invariant
            start <= end <= j <= n,
            n == t@.len(),
            r@ == t@.take(start as int) + t@.subrange(end as int, j as int),
        decreases n - j,
    {
        r.push(t[j]);
        j = j + 1;
        assert(r@ =~= t@.take(start as int) + t@.subrange(end as int, j as int));
    }
    assert(t@.subrange(end as int, n as int) =~= t@.skip(end as int));
    r
}

/// Drop calls to tools that were not declared.
fn retain_declared(calls: &mut Vec<ToolCall>, tools: &Vec<Tool>)
    requires
        call::calls_wf(call::call_views(old(calls)@)),
    ensures
        call::call_views(final(calls)@) == allowed(
            call::call_views(old(calls)@),
            tool_views(tools@),
        ),
        call::calls_wf(call::call_views(final(calls)@)),
{
    let ghost decl = tool_views(tools@);
    let ghost all = call::call_views(calls@);
    let mut i: usize = 0;
    assert(all.take(0) + allowed(all.skip(0), decl) =~= allowed(all, decl)) by {
        assert(all.skip(0) =~= all);
    }
    while i < calls.len()
        invariant
            i <= calls@.len(),
            decl == tool_views(tools@),
            all == call::call_views(old(calls)@),
            allowed(all, decl) == call::call_views(calls@).take(i as int) + allowed(
                call::call_views(calls@).skip(i as int),
                decl,
            ),
        decreases calls@.len() - i,
    {
        let ghost now = call::call_views(calls@);
        let ghost here = now.skip(i as int);
        assert(here[0] == calls@[i as int]@);
        assert(here.drop_first() =~= now.skip(i + 1));
        if is_declared(tools, calls[i].name.as_str()) {
            assert(now.take(i as int) + (seq![here[0]] + allowed(now.skip(i + 1), decl))
                =~= now.take(i + 1) + allowed(now.skip(i + 1), decl));
            i = i + 1;
        } else {
            let gone = calls.remove(i);
            proof {
                let next = call::call_views(calls@);
                assert(next.take(i as int) =~= now.take(i as int));
                assert(next.skip(i as int) =~= now.skip(i + 1));
                assert(now.take(i as int) + (Seq::<CallView>::empty() + allowed(
                    now.skip(i + 1),
                    decl,
                )) =~= now.take(i as int) + allowed(now.skip(i + 1), decl));
            }
        }
    }
    let ghost now = call::call_views(calls@);
    assert(now.skip(i as int) =~= Seq::empty());
    assert(now.take(i as int) + Seq::<CallView>::empty() =~= now);
    assert forall|k: int| 0 <= k < now.len() implies (#[trigger] now[k]).arguments.wf() by {
        calls_are_declared(all, decl, k);
    }
}

/// Every call that is handed out was declared.
pub proof fn calls_are_declared(calls: Seq<CallView>, tools: Seq<ToolView>, i: int)
    requires
        0 <= i < allowed(calls, tools).len(),
    ensures
        declared(tools, allowed(calls, tools)[i].name),
        calls.contains(allowed(calls, tools)[i]),
    decreases calls.len(),
{
    let rest = calls.drop_first();
    let k: int = if declared(tools, calls[0].name) {
        1
    } else {
        0
    };
    assert(calls.contains(calls[0]));
    if i >= k {
        assert(allowed(calls, tools)[i] == allowed(rest, tools)[i - k]);
        calls_are_declared(rest, tools, i - k);
        let j = choose|j: int| 0 <= j < rest.len() && rest[j] == allowed(rest, tools)[i - k];
        assert(calls[j + 1] == rest[j]);
    }
}

// ---------------------------------------------------------------------------
// A run
// ---------------------------------------------------------------------------
/// Where a run stands.
#[derive(Debug, Clone, Copy, PartialEq, Eq, Structural)]
pub enum Phase {
    Resetting,
    Announcing,
    Prefilling,
    Sampling,
    Emitting(u32),
    Forwarding(u32),
    Over,
}

/// What the engine needs done.
#[derive(Debug)]
pub enum Ask {
    /// Forget everything.
    Reset,
    /// Send an event. `Told::Sent` says whether anyone still listens where that
    /// matters.
    Send(Event),
    /// Run these tokens.
    Forward(Vec<u32>),
    /// Pick a token by the last logits.
    Sample,
    /// The run is over; send this.
    Finish(Event),
    /// The run is over, and nobody listens.
    Quit,
}

/// What came of it.
#[derive(Debug, Clone, Copy, PartialEq, Eq, Structural)]
pub enum Told {
    /// It is done.
    Ready,
    /// This token was picked.
    Sampled(u32),
    /// Whether the event arrived.
    Sent(bool),
}

#[verifier::ext_equal]
pub ghost enum EventView {
    Prefill { tokens: int, cached: int },
    Token { id: u32, text: Seq<char> },
    Done { completion: CompletionView, generated: int, reason: FinishReason },
    Error(Seq<char>),
}

impl View for Event {
    type V = EventView;

    open spec fn view(&self) -> EventView {
        match self {
            Event::Prefill { tokens, cached } => EventView::Prefill {
                tokens: *tokens as int,
                cached: *cached as int,
            },
            Event::Token { id, text } => EventView::Token { id: *id, text: text@ },
            Event::Done { completion, generated, reason } => EventView::Done {
                completion: completion@,
                generated: *generated as int,
                reason: *reason,
            },
            Event::Error(e) => EventView::Error(e@),
        }
    }
}

#[verifier::ext_equal]
pub ghost enum AskView {
    Reset,
    Send(EventView),
    Forward(Seq<u32>),
    Sample,
    Finish(EventView),
    Quit,
}

impl View for Ask {
    type V = AskView;

    open spec fn view(&self) -> AskView {
        match self {
            Ask::Reset => AskView::Reset,
            Ask::Send(e) => AskView::Send(e@),
            Ask::Forward(v) => AskView::Forward(v@),
            Ask::Sample => AskView::Sample,
            Ask::Finish(e) => AskView::Finish(e@),
            Ask::Quit => AskView::Quit,
        }
    }
}

impl Ask {
    /// A completion that is handed out has calls with arguments that JSON has.
    pub open spec fn wf(&self) -> bool {
        match self {
            Ask::Finish(Event::Done { completion, .. }) => completion.wf(),
            _ => true,
        }
    }
}

/// One generation.
pub struct Run {
    pub req: GenerateRequest,
    pub prompt: Vec<u32>,
    /// How much of the prompt the backend holds.
    pub at: usize,
    pub generated: Vec<u32>,
    /// Bytes of a character whose rest is still to come.
    pub pending: Vec<u8>,
    pub text: SecretString,
    /// How many tokens may still be generated.
    pub left: usize,
    pub phase: Phase,
}

#[verifier::ext_equal]
pub ghost struct RunView {
    pub req: RequestView,
    pub prompt: Seq<u32>,
    pub at: int,
    pub generated: Seq<u32>,
    pub pending: Seq<u8>,
    pub text: Seq<char>,
    pub left: int,
    pub phase: Phase,
}

impl View for Run {
    type V = RunView;

    open spec fn view(&self) -> RunView {
        RunView {
            req: self.req@,
            prompt: self.prompt@,
            at: self.at as int,
            generated: self.generated@,
            pending: self.pending@,
            text: self.text@,
            left: self.left as int,
            phase: self.phase,
        }
    }
}

impl Run {
    pub open spec fn wf(&self) -> bool {
        &&& self.req@.wf()
        &&& self.text.wf()
        &&& self.at <= self.prompt@.len()
    }

    /// The run is over, and of the text that it had gathered not a byte is left.
    pub open spec fn gone(&self, before: Run) -> bool {
        &&& self.phase == Phase::Over
        &&& self.text@ == Seq::<char>::empty()
        &&& self.text.bytes.cells@ == blank::<u8>(before.text.bytes.cells@.len())
    }

    /// End a run, wherever it stands: overwrite the text that it has gathered. A run
    /// that failed or was stopped is ended so before it is dropped.
    pub fn end(&mut self)
        requires
            old(self).wf(),
        ensures
            final(self).wf(),
            final(self).gone(*old(self)),
            final(self)@ == (RunView {
                text: Seq::empty(),
                phase: Phase::Over,
                ..old(self)@
            }),
    {
        self.text.wipe();
        self.phase = Phase::Over;
    }
}

pub struct Engine {
    pub tok: Tokenizer,
    pub chat: ChatFormat,
    pub context_len: usize,
    /// How many tokens the backend takes at a time.
    pub max_batch: usize,
    /// Tokens that end a generation.
    pub eog: Vec<u32>,
    /// The exact token sequence currently in the cache.
    pub cached: SecretVec<u32>,
    /// What the backend was given since it was last reset.
    pub resident: Ghost<Seq<u32>>,
}

/// What the engine and the backend hold.
#[verifier::ext_equal]
pub ghost struct Held {
    pub cached: Seq<u32>,
    pub resident: Seq<u32>,
}

/// Where the engine and a run stand, and what is asked for.
pub ghost struct Next {
    pub held: Held,
    pub run: RunView,
    pub ask: AskView,
}

impl Engine {
    pub open spec fn wf(&self) -> bool {
        &&& self.tok.wf()
        &&& self.cached.wf()
        &&& 0 < self.max_batch
        &&& self.context_len <= usize::MAX - 8
    }

    pub open spec fn held(&self) -> Held {
        Held { cached: self.cached@, resident: self.resident@ }
    }

    /// Nothing but the conversation differs.
    pub open spec fn same_model(&self, other: Engine) -> bool {
        &&& self.tok == other.tok
        &&& self.chat == other.chat
        &&& self.context_len == other.context_len
        &&& self.max_batch == other.max_batch
        &&& self.eog == other.eog
    }

    /// How many tokens a request may have generated.
    pub open spec fn room(&self, req: RequestView, prompt: int) -> int {
        let space = self.context_len - prompt - 1;
        if req.max_tokens < space {
            req.max_tokens
        } else {
            space
        }
    }

    /// The end of a run. What was said so far is overwritten.
    pub open spec fn finished(&self, h: Held, r: RunView, reason: FinishReason) -> Next {
        let c = completion_of(self.tok, self.chat, r.req, r.generated);
        Next {
            held: h,
            run: RunView { text: Seq::empty(), phase: Phase::Over, ..r },
            ask: AskView::Finish(
                EventView::Done {
                    completion: c,
                    generated: r.generated.len() as int,
                    reason: if c.tool_calls.len() > 0 {
                        FinishReason::ToolCalls
                    } else {
                        reason
                    },
                },
            ),
        }
    }

    /// The next token, unless there is no room for one.
    pub open spec fn sampling(&self, h: Held, r: RunView) -> Next {
        if r.left == 0 {
            self.finished(h, r, FinishReason::Length)
        } else {
            Next { held: h, run: RunView { phase: Phase::Sampling, ..r }, ask: AskView::Sample }
        }
    }

    /// How far the next chunk of the prompt goes.
    pub open spec fn chunk_end(&self, r: RunView) -> int {
        if r.at + self.max_batch < r.prompt.len() {
            r.at + self.max_batch
        } else {
            r.prompt.len() as int
        }
    }

    /// The uncached tail of the prompt, in chunks that the backend can hold.
    pub open spec fn prefilling(&self, h: Held, r: RunView) -> Next {
        if r.at < r.prompt.len() {
            Next {
                held: h,
                run: RunView { phase: Phase::Prefilling, ..r },
                ask: AskView::Forward(r.prompt.subrange(r.at, self.chunk_end(r))),
            }
        } else {
            self.sampling(Held { cached: r.prompt, ..h }, r)
        }
    }

    pub open spec fn announcing(&self, h: Held, r: RunView) -> Next {
        Next {
            held: h,
            run: RunView { phase: Phase::Announcing, ..r },
            ask: AskView::Send(
                EventView::Prefill { tokens: r.prompt.len() as int, cached: r.at },
            ),
        }
    }

    /// What follows a token that was picked.
    pub open spec fn sampled(&self, h: Held, r: RunView, id: u32) -> Next {
        let r1 = RunView { generated: r.generated.push(id), left: r.left - 1, ..r };
        if self.eog@.contains(id) {
            self.finished(h, r1, FinishReason::Stop)
        } else {
            let (piece, pending) = pushed(self.tok, r.pending, id);
            Next {
                held: h,
                run: RunView {
                    pending,
                    text: r.text + piece,
                    phase: Phase::Emitting(id),
                    ..r1
                },
                ask: AskView::Send(EventView::Token { id, text: piece }),
            }
        }
    }

    /// What follows a token that was sent.
    pub open spec fn sent(&self, h: Held, r: RunView, id: u32, listening: bool) -> Next {
        if !listening {
            Next {
                held: h,
                run: RunView { text: Seq::empty(), phase: Phase::Over, ..r },
                ask: AskView::Quit,
            }
        } else if stops(r.text, r.req.stop) {
            self.finished(h, r, FinishReason::Stop)
        } else {
            Next {
                held: Held { cached: h.cached.push(id), ..h },
                run: RunView { phase: Phase::Forwarding(id), ..r },
                ask: AskView::Forward(seq![id]),
            }
        }
    }

    /// What follows from what the engine was told.
    pub open spec fn after(&self, h: Held, r: RunView, told: Told) -> Next {
        match (r.phase, told) {
            (Phase::Resetting, Told::Ready) => self.announcing(
                Held { resident: Seq::empty(), ..h },
                r,
            ),
            (Phase::Announcing, Told::Ready) => self.prefilling(h, r),
            (Phase::Prefilling, Told::Ready) => {
                let end = self.chunk_end(r);
                self.prefilling(
                    Held { resident: h.resident + r.prompt.subrange(r.at, end), ..h },
                    RunView { at: end, ..r },
                )
            },
            (Phase::Forwarding(id), Told::Ready) => self.sampling(
                Held { resident: h.resident.push(id), ..h },
                r,
            ),
            (Phase::Sampling, Told::Sampled(id)) => self.sampled(h, r, id),
            (Phase::Emitting(id), Told::Sent(ok)) => self.sent(h, r, id, ok),
            _ => Next { held: h, run: r, ask: AskView::Quit },
        }
    }

    /// This is an answer to what was asked.
    pub open spec fn answers(r: RunView, told: Told) -> bool {
        match (r.phase, told) {
            (Phase::Resetting, Told::Ready) => true,
            (Phase::Announcing, Told::Ready) => true,
            (Phase::Prefilling, Told::Ready) => true,
            (Phase::Forwarding(_), Told::Ready) => true,
            (Phase::Sampling, Told::Sampled(_)) => r.left > 0,
            (Phase::Emitting(_), Told::Sent(_)) => true,
            _ => false,
        }
    }
}

/// Whether a stop string has come up.
pub open spec fn stops(t: Seq<char>, stop: Seq<Seq<char>>) -> bool {
    exists|i: int|
        0 <= i < stop.len() && (#[trigger] stop[i]).len() > 0 && find_at(t, 0, stop[i]) is Some
}

fn hits_stop(t: &SecretString, stop: &Vec<String>) -> (r: bool)
    requires
        t.wf(),
    ensures
        r == stops(t@, views(stop@)),
{
    let ghost all = views(stop@);
    let n: usize = stop.len();
    let mut i: usize = 0;
    while i < n
        invariant
            i <= n,
            n == stop@.len(),
            t.wf(),
            all == views(stop@),
            forall|j: int|
                0 <= j < i ==> !((#[trigger] all[j]).len() > 0 && find_at(t@, 0, all[j]) is Some),
        decreases n - i,
    {
        assert(all[i as int] == stop@[i as int]@);
        if !stop[i].as_str().is_empty() && t.contains(stop[i].as_str()) {
            return true;
        }
        i = i + 1;
    }
    false
}

/// What the backend holds while a run stands where it does.
pub open spec fn faithful(h: Held, r: RunView) -> bool {
    match r.phase {
        Phase::Resetting => h.cached.len() == 0 && r.at == 0,
        Phase::Announcing | Phase::Prefilling => h.resident == r.prompt.take(r.at),
        Phase::Forwarding(id) => h.cached == h.resident.push(id),
        Phase::Sampling | Phase::Emitting(_) | Phase::Over => h.cached == h.resident,
    }
}

/// What the engine takes to be in the cache is what the backend was given, at every
/// step of a run.
pub proof fn cached_is_resident(e: Engine, h: Held, r: RunView, told: Told)
    requires
        e.wf(),
        faithful(h, r),
        0 <= r.at <= r.prompt.len(),
        Engine::answers(r, told),
    ensures
        faithful(e.after(h, r, told).held, e.after(h, r, told).run),
{
    let n = e.after(h, r, told);
    match (r.phase, told) {
        (Phase::Resetting, Told::Ready) => {
            assert(n.held.resident =~= r.prompt.take(0));
        },
        (Phase::Announcing, Told::Ready) => {
            if r.at == r.prompt.len() {
                assert(r.prompt.take(r.at) =~= r.prompt);
            }
        },
        (Phase::Prefilling, Told::Ready) => {
            let end = e.chunk_end(r);
            assert(r.prompt.take(r.at) + r.prompt.subrange(r.at, end) =~= r.prompt.take(end));
            if end == r.prompt.len() {
                assert(r.prompt.take(end) =~= r.prompt);
            }
        },
        _ => {},
    }
}

/// What a run starts with.
pub open spec fn started(e: Engine, h: Held, req: RequestView) -> Next {
    let prompt = prompt_of(e.tok, e.chat, req);
    let at = reusable(h.cached, prompt);
    let r = RunView {
        req,
        prompt,
        at,
        generated: Seq::empty(),
        pending: Seq::empty(),
        text: Seq::empty(),
        left: e.room(req, prompt.len() as int),
        phase: Phase::Announcing,
    };
    if at == 0 {
        Next {
            held: Held { cached: Seq::empty(), ..h },
            run: RunView { phase: Phase::Resetting, ..r },
            ask: AskView::Reset,
        }
    } else {
        e.announcing(h, r)
    }
}

/// A run starts with what the backend holds.
pub proof fn start_is_faithful(e: Engine, h: Held, req: RequestView)
    requires
        h.cached == h.resident,
    ensures
        faithful(started(e, h, req).held, started(e, h, req).run),
{
    let prompt = prompt_of(e.tok, e.chat, req);
    let at = reusable(h.cached, prompt);
    if at > 0 {
        assert(h.cached =~= prompt.take(at));
    }
}

fn copy_ids(v: &Vec<u32>, from: usize, to: usize) -> (r: Vec<u32>)
    requires
        from <= to <= v@.len(),
    ensures
        r@ == v@.subrange(from as int, to as int),
{
    let mut r: Vec<u32> = Vec::new();
    let mut i: usize = from;
    assert(v@.subrange(from as int, from as int) =~= Seq::empty());
    while i < to
        invariant
            from <= i <= to <= v@.len(),
            r@ == v@.subrange(from as int, i as int),
        decreases to - i,
    {
        r.push(v[i]);
        i = i + 1;
        assert(r@ =~= v@.subrange(from as int, i as int));
    }
    r
}

fn contains_id(v: &Vec<u32>, id: u32) -> (r: bool)
    ensures
        r == v@.contains(id),
{
    let n: usize = v.len();
    let mut i: usize = 0;
    while i < n
        invariant
            i <= n,
            n == v@.len(),
            forall|j: int| 0 <= j < i ==> v@[j] != id,
        decreases n - i,
    {
        if v[i] == id {
            return true;
        }
        i = i + 1;
    }
    false
}

impl Engine {
    /// Nothing resident yet.
    pub fn new(
        tok: Tokenizer,
        chat: ChatFormat,
        context_len: usize,
        max_batch: usize,
        eog: Vec<u32>,
    ) -> (e: Engine)
        requires
            tok.wf(),
            0 < max_batch,
            context_len <= usize::MAX - 8,
        ensures
            e.wf(),
            e.tok == tok,
            e.chat == chat,
            e.context_len == context_len,
            e.max_batch == max_batch,
            e.eog == eog,
            e.held().cached == Seq::<u32>::empty(),
            e.held().resident == Seq::<u32>::empty(),
    {
        Engine {
            tok,
            chat,
            context_len,
            max_batch,
            eog,
            cached: SecretVec::new(),
            resident: Ghost(Seq::empty()),
        }
    }

    pub fn tokenizer(&self) -> (r: &Tokenizer)
        ensures
            *r == self.tok,
    {
        &self.tok
    }

    pub fn context_len(&self) -> (r: usize)
        ensures
            r == self.context_len,
    {
        self.context_len
    }

    fn prompt(&self, req: &GenerateRequest) -> (ids: Vec<u32>)
        requires
            self.wf(),
            req@.wf(),
        ensures
            ids@ == prompt_of(self.tok, self.chat, req@),
    {
        match &self.chat {
            ChatFormat::Gemma4(sp) => chat::build_prompt(
                &self.tok,
                sp,
                req.messages.as_slice(),
                req.tools.as_slice(),
                req.enable_thinking,
            ),
            ChatFormat::Qwen35(sp) => qwen::build_prompt(
                &self.tok,
                sp,
                req.messages.as_slice(),
                req.tools.as_slice(),
                req.enable_thinking,
            ),
        }
    }

    /// Start a run. Resident ids that it cannot reuse are overwritten. A prompt that
    /// leaves no room in the context is refused, and nothing changes.
    pub fn start(&mut self, req: GenerateRequest) -> (r: Result<(Run, Ask), EngineError>)
        requires
            old(self).wf(),
            req@.wf(),
        ensures
            final(self).wf(),
            final(self).same_model(*old(self)),
            match r {
                Ok((run, ask)) => {
                    let n = started(*old(self), old(self).held(), req@);
                    &&& prompt_of(old(self).tok, old(self).chat, req@).len() + 8
                        < old(self).context_len
                    &&& run.wf()
                    &&& final(self).held() == n.held
                    &&& run@ == n.run
                    &&& ask@ == n.ask
                    &&& ask.wf()
                    &&& if n.run.at == 0 {
                        final(self).cached.cells@ == blank::<u32>(old(self).cached.cells@.len())
                    } else {
                        final(self).cached == old(self).cached
                    }
                },
                Err(EngineError::PromptTooLong { tokens, context }) => {
                    &&& tokens == prompt_of(old(self).tok, old(self).chat, req@).len()
                    &&& tokens + 8 >= old(self).context_len
                    &&& context == old(self).context_len
                    &&& *final(self) == *old(self)
                },
            },
    {
        let prompt = self.prompt(&req);
        let n: usize = prompt.len();
        let context: usize = self.context_len;
        if context <= 8 || n >= context - 8 {
            return Err(EngineError::PromptTooLong { tokens: n, context });
        }
        let at: usize = reusable_prefix(self.cached.as_slice(), prompt.as_slice());
        let space: usize = context - n - 1;
        let left: usize = if req.max_tokens < space { req.max_tokens } else { space };
        let mut run = Run {
            req,
            prompt,
            at,
            generated: Vec::new(),
            pending: Vec::new(),
            text: SecretString::new(),
            left,
            phase: Phase::Announcing,
        };
        if at == 0 {
            self.cached.wipe();
            run.phase = Phase::Resetting;
            Ok((run, Ask::Reset))
        } else {
            Ok((run, Ask::Send(Event::Prefill { tokens: n, cached: at })))
        }
    }

    fn finish(&self, run: &mut Run, reason: FinishReason) -> (ask: Ask)
        requires
            self.wf(),
            old(run).wf(),
        ensures
            final(run).wf(),
            final(run).gone(*old(run)),
            final(run)@ == self.finished(self.held(), old(run)@, reason).run,
            ask@ == self.finished(self.held(), old(run)@, reason).ask,
            ask.wf(),
    {
        let mut c = match &self.chat {
            ChatFormat::Gemma4(sp) => unwrap_calls(
                chat::parse_completion(&self.tok, sp, run.generated.as_slice()),
                &run.req.tools,
            ),
            ChatFormat::Qwen35(sp) => qwen::parse_completion(
                &self.tok,
                sp,
                run.generated.as_slice(),
                run.req.enable_thinking,
            ),
        };
        retain_declared(&mut c.tool_calls, &run.req.tools);
        let reason = if c.tool_calls.len() > 0 { FinishReason::ToolCalls } else { reason };
        let generated: usize = run.generated.len();
        run.end();
        Ask::Finish(Event::Done { completion: c, generated, reason })
    }

    fn sample(&self, run: &mut Run) -> (ask: Ask)
        requires
            self.wf(),
            old(run).wf(),
        ensures
            final(run).wf(),
            final(run).phase == Phase::Over ==> final(run).gone(*old(run)),
            final(run)@ == self.sampling(self.held(), old(run)@).run,
            ask@ == self.sampling(self.held(), old(run)@).ask,
            ask.wf(),
    {
        if run.left == 0 {
            self.finish(run, FinishReason::Length)
        } else {
            run.phase = Phase::Sampling;
            Ask::Sample
        }
    }

    fn prefill(&mut self, run: &mut Run) -> (ask: Ask)
        requires
            old(self).wf(),
            old(run).wf(),
        ensures
            final(self).wf(),
            final(self).same_model(*old(self)),
            final(run).wf(),
            final(self).held() == old(self).prefilling(old(self).held(), old(run)@).held,
            final(run).phase == Phase::Over ==> final(run).gone(*old(run)),
            final(run)@ == old(self).prefilling(old(self).held(), old(run)@).run,
            ask@ == old(self).prefilling(old(self).held(), old(run)@).ask,
            ask.wf(),
    {
        let n: usize = run.prompt.len();
        if run.at < n {
            let end: usize = self.chunk(run);
            run.phase = Phase::Prefilling;
            Ask::Forward(copy_ids(&run.prompt, run.at, end))
        } else {
            self.cached.replace(run.prompt.as_slice());
            self.sample(run)
        }
    }

    fn chunk(&self, run: &Run) -> (end: usize)
        requires
            self.wf(),
            run.wf(),
        ensures
            end == self.chunk_end(run@),
            run.at <= end <= run.prompt@.len(),
    {
        let n: usize = run.prompt.len();
        if self.max_batch < n - run.at {
            run.at + self.max_batch
        } else {
            n
        }
    }

    fn take_sample(&self, run: &mut Run, id: u32) -> (ask: Ask)
        requires
            self.wf(),
            old(run).wf(),
            old(run).left > 0,
        ensures
            final(run).wf(),
            final(run).phase == Phase::Over ==> final(run).gone(*old(run)),
            final(run)@ == self.sampled(self.held(), old(run)@, id).run,
            ask@ == self.sampled(self.held(), old(run)@, id).ask,
            ask.wf(),
    {
        run.generated.push(id);
        run.left = run.left - 1;
        if contains_id(&self.eog, id) {
            return self.finish(run, FinishReason::Stop);
        }
        let mut pending: Vec<u8> = Vec::new();
        std::mem::swap(&mut pending, &mut run.pending);
        let mut d = Decoder { tok: &self.tok, pending };
        let piece = d.push(id);
        run.pending = d.pending;
        run.text.push_str(piece.as_str());
        run.phase = Phase::Emitting(id);
        Ask::Send(Event::Token { id, text: piece })
    }

    fn take_sent(&mut self, run: &mut Run, id: u32, listening: bool) -> (ask: Ask)
        requires
            old(self).wf(),
            old(run).wf(),
        ensures
            final(self).wf(),
            final(self).same_model(*old(self)),
            final(run).wf(),
            final(self).held() == old(self).sent(
                old(self).held(),
                old(run)@,
                id,
                listening,
            ).held,
            final(run).phase == Phase::Over ==> final(run).gone(*old(run)),
            final(run)@ == old(self).sent(old(self).held(), old(run)@, id, listening).run,
            ask@ == old(self).sent(old(self).held(), old(run)@, id, listening).ask,
            ask.wf(),
    {
        if !listening {
            run.end();
            return Ask::Quit;
        }
        if hits_stop(&run.text, &run.req.stop) {
            return self.finish(run, FinishReason::Stop);
        }
        self.cached.push(id);
        run.phase = Phase::Forwarding(id);
        let mut one: Vec<u32> = Vec::new();
        one.push(id);
        assert(one@ =~= seq![id]);
        Ask::Forward(one)
    }

    /// Tell the engine what came of what it asked for, and learn what it needs
    /// next. When the run is over, its text has been overwritten.
    pub fn tell(&mut self, run: &mut Run, told: Told) -> (ask: Ask)
        requires
            old(self).wf(),
            old(run).wf(),
            Engine::answers(old(run)@, told),
        ensures
            final(self).wf(),
            final(self).same_model(*old(self)),
            final(run).wf(),
            final(self).held() == old(self).after(old(self).held(), old(run)@, told).held,
            final(run).phase == Phase::Over ==> final(run).gone(*old(run)),
            final(run)@ == old(self).after(old(self).held(), old(run)@, told).run,
            ask@ == old(self).after(old(self).held(), old(run)@, told).ask,
            ask.wf(),
    {
        match told {
            Told::Ready => match run.phase {
                Phase::Resetting => {
                    self.resident = Ghost(Seq::empty());
                    run.phase = Phase::Announcing;
                    Ask::Send(
                        Event::Prefill { tokens: run.prompt.len(), cached: run.at },
                    )
                },
                Phase::Announcing => self.prefill(run),
                Phase::Prefilling => {
                    let end: usize = self.chunk(run);
                    self.resident = Ghost(
                        self.resident@ + run.prompt@.subrange(run.at as int, end as int),
                    );
                    run.at = end;
                    self.prefill(run)
                },
                Phase::Forwarding(id) => {
                    self.resident = Ghost(self.resident@.push(id));
                    self.sample(run)
                },
                _ => Ask::Quit,
            },
            Told::Sampled(id) => self.take_sample(run, id),
            Told::Sent(ok) => match run.phase {
                Phase::Emitting(id) => self.take_sent(run, id, ok),
                _ => Ask::Quit,
            },
        }
    }

    /// Overwrite the resident conversation. The backend is to be wiped with it.
    pub fn wipe(&mut self)
        requires
            old(self).wf(),
        ensures
            final(self).wf(),
            final(self).same_model(*old(self)),
            final(self).held().cached == Seq::<u32>::empty(),
            final(self).held().resident == Seq::<u32>::empty(),
            final(self).cached.cells@ == blank::<u32>(
                old(self).cached.cells@.len(),
            ),
    {
        self.cached.wipe();
        self.resident = Ghost(Seq::empty());
    }
}

/// What the backend has read is the prompt and then what was generated, in that order, as
/// far as the run has come.
pub open spec fn read_so_far(h: Held, r: RunView) -> bool {
    match r.phase {
        Phase::Resetting => r.at == 0 && r.generated.len() == 0,
        Phase::Announcing | Phase::Prefilling => h.resident == r.prompt.take(r.at)
            && r.generated.len() == 0,
        Phase::Sampling => h.resident == r.prompt + r.generated,
        Phase::Emitting(id) | Phase::Forwarding(id) => h.resident.push(id) == r.prompt
            + r.generated,
        Phase::Over => true,
    }
}

/// The backend reads the prompt and then every token that was generated, each once and in
/// order, in pieces that it can hold; and a token is drawn only when it has read them all.
pub proof fn the_backend_reads_everything_in_order(e: Engine, h: Held, r: RunView, told: Told)
    requires
        e.wf(),
        read_so_far(h, r),
        0 <= r.at <= r.prompt.len(),
        Engine::answers(r, told),
    ensures
        ({
            let n = e.after(h, r, told);
            let all = n.run.prompt + n.run.generated;
            &&& read_so_far(n.held, n.run)
            &&& n.run.prompt == r.prompt
            &&& 0 <= n.run.at <= n.run.prompt.len()
            &&& match n.ask {
                AskView::Forward(ids) => 0 < ids.len() <= e.max_batch && (n.held.resident
                    + ids).is_prefix_of(all),
                AskView::Sample => n.held.resident == all,
                _ => true,
            }
        }),
{
    let n = e.after(h, r, told);
    let all = n.run.prompt + n.run.generated;
    assert(r.prompt + Seq::<u32>::empty() =~= r.prompt);
    if r.generated.len() == 0 {
        assert(r.generated =~= Seq::<u32>::empty());
    }
    match (r.phase, told) {
        (Phase::Resetting, Told::Ready) => {
            assert(n.held.resident =~= r.prompt.take(0));
        },
        (Phase::Announcing, Told::Ready) => {
            if r.at == r.prompt.len() {
                assert(r.prompt.take(r.at) =~= r.prompt);
            } else {
                let end = e.chunk_end(r);
                let ids = r.prompt.subrange(r.at, end);
                assert(h.resident + ids =~= r.prompt.take(end));
                assert((h.resident + ids).is_prefix_of(all));
            }
        },
        (Phase::Prefilling, Told::Ready) => {
            let end = e.chunk_end(r);
            assert(r.prompt.take(r.at) + r.prompt.subrange(r.at, end) =~= r.prompt.take(end));
            if end == r.prompt.len() {
                assert(r.prompt.take(end) =~= r.prompt);
            } else {
                let s = RunView { at: end, ..r };
                let next = e.chunk_end(s);
                let ids = r.prompt.subrange(end, next);
                assert(n.held.resident + ids =~= r.prompt.take(next));
                assert((n.held.resident + ids).is_prefix_of(all));
            }
        },
        (Phase::Sampling, Told::Sampled(id)) => {
            assert((r.prompt + r.generated).push(id) =~= r.prompt + r.generated.push(id));
        },
        (Phase::Emitting(id), Told::Sent(_)) => {
            assert(h.resident + seq![id] =~= h.resident.push(id));
        },
        _ => {},
    }
}

/// A generation ends when a token that ends generation was drawn, when a stop string has
/// come up, or when there is no room left, and for no other reason; and it says so, unless
/// it calls a tool, which it says then. It counts every token that was drawn.
pub proof fn a_generation_ends_for_its_reason(e: Engine, h: Held, r: RunView, told: Told)
    requires
        Engine::answers(r, told),
    ensures
        ({
            let n = e.after(h, r, told);
            let ended = told matches Told::Sampled(id) && e.eog@.contains(id);
            let stopped = told == Told::Sent(true) && exists|i: int, p: int|
                0 <= i < r.req.stop.len() && r.req.stop[i].len() > 0 && #[trigger] text::matches_at(
                    r.text,
                    p,
                    r.req.stop[i],
                );
            &&& n.run.left + n.run.generated.len() == r.left + r.generated.len()
            &&& ended || stopped ==> n.ask is Finish
            &&& n.ask is Finish ==> ended || stopped || n.run.left == 0
            &&& n.ask is Sample ==> n.run.left != 0
            &&& match n.ask {
                AskView::Finish(EventView::Done { completion, generated, reason }) => {
                    &&& generated == n.run.generated.len()
                    &&& reason == FinishReason::ToolCalls <==> completion.tool_calls.len() > 0
                    &&& reason == FinishReason::Length ==> !ended && !stopped && n.run.left == 0
                    &&& reason == FinishReason::Stop ==> ended || stopped
                },
                AskView::Finish(_) => false,
                _ => true,
            }
        }),
{
    if told == Told::Sent(true) {
        assert forall|i: int| 0 <= i < r.req.stop.len() implies (find_at(
            r.text,
            0,
            #[trigger] r.req.stop[i],
        ) is Some <==> exists|p: int| text::matches_at(r.text, p, r.req.stop[i])) by {
            text::lemma_find_at(r.text, 0, r.req.stop[i]);
        }
    }
}

/// What is sent of a token is what it adds to the text.
pub proof fn the_text_is_what_was_sent(e: Engine, h: Held, r: RunView, told: Told)
    requires
        Engine::answers(r, told),
    ensures
        e.after(h, r, told).ask matches AskView::Send(EventView::Token { id, text: piece }) ==> {
            &&& told == Told::Sampled(id)
            &&& e.after(h, r, told).run.text == r.text + piece
            &&& e.after(h, r, told).run.generated == r.generated.push(id)
        },
{
}

/// A run may generate what the request asks for, or as much as the context has room for
/// behind the prompt and one more, whichever is less.
pub proof fn a_run_has_its_room(e: Engine, h: Held, req: RequestView)
    ensures
        ({
            let r = started(e, h, req).run;
            let space = e.context_len - r.prompt.len() - 1;
            &&& r.left <= req.max_tokens && r.left <= space
            &&& r.left == req.max_tokens || r.left == space
            &&& r.generated.len() == 0 && r.text.len() == 0 && r.pending.len() == 0
            &&& r.at == 0 || (r.at == h.cached.len() && r.at < r.prompt.len() && h.cached
                == r.prompt.take(r.at))
        }),
{
    let prompt = prompt_of(e.tok, e.chat, req);
    if reusable(h.cached, prompt) > 0 {
        assert(h.cached =~= prompt.take(h.cached.len() as int));
    }
}

} // verus!
