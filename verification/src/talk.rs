//! A conversation in plain text.
//!
//! Two sides taking turns, kept as text. Every turn the whole conversation is handed
//! to the engine as messages.

use crate::chat::{message_views, tool_views, Message, MessageView, ToolView};
use crate::engine::{GenerateRequest, RequestView};
use crate::json::{Json, JsonView};
use crate::sample::Sampling;
use crate::text::views;
use vstd::prelude::*;

verus! {

#[derive(Debug, Clone, Copy, PartialEq, Eq, Structural)]
pub enum Role {
    User,
    Assistant,
}

#[derive(Debug)]
pub struct Turn {
    pub role: Role,
    pub text: String,
}

#[verifier::ext_equal]
pub ghost struct TurnView {
    pub role: Role,
    pub text: Seq<char>,
}

impl View for Turn {
    type V = TurnView;

    open spec fn view(&self) -> TurnView {
        TurnView { role: self.role, text: self.text@ }
    }
}

pub open spec fn turn_views(v: Seq<Turn>) -> Seq<TurnView> {
    v.map_values(|t: Turn| t@)
}

/// The message that a turn is.
pub open spec fn message_of(t: TurnView) -> MessageView {
    MessageView {
        role: match t.role {
            Role::User => "user"@,
            Role::Assistant => "assistant"@,
        },
        content: Some(JsonView::Text(t.text)),
        tool_calls: Seq::empty(),
        tool_call_id: None,
        name: None,
        reasoning: None,
    }
}

pub open spec fn messages_of(v: Seq<TurnView>) -> Seq<MessageView> {
    v.map_values(|t: TurnView| message_of(t))
}

/// The message that a turn is.
pub fn to_message(t: &Turn) -> (r: Message)
    ensures
        r@ == message_of(t@),
{
    let r = Message {
        role: match t.role {
            Role::User => "user".to_owned(),
            Role::Assistant => "assistant".to_owned(),
        },
        content: Some(Json::Text(t.text.as_str().to_owned())),
        tool_calls: Vec::new(),
        tool_call_id: None,
        name: None,
        reasoning: None,
    };
    assert(r@.tool_calls =~= Seq::empty());
    assert(r@.content->0 == JsonView::Text(t.text@));
    r
}

/// A conversation as messages.
pub fn to_messages(v: &Vec<Turn>) -> (r: Vec<Message>)
    ensures
        message_views(r@) == messages_of(turn_views(v@)),
{
    let ghost all = messages_of(turn_views(v@));
    let n: usize = v.len();
    let mut r: Vec<Message> = Vec::new();
    let mut i: usize = 0;
    while i < n
        invariant
            i <= n,
            n == v@.len(),
            all == messages_of(turn_views(v@)),
            message_views(r@) == all.take(i as int),
        decreases n - i,
    {
        let ghost before = message_views(r@);
        let m = to_message(&v[i]);
        let ghost x = m@;
        r.push(m);
        assert(message_views(r@) =~= before.push(x));
        assert(before.push(x) =~= all.take(i + 1));
        i = i + 1;
    }
    assert(all.take(n as int) =~= all);
    r
}

/// The request that a conversation makes: no tools, no thinking, no stop strings.
pub open spec fn request_of(v: Seq<TurnView>, sampling: Sampling, max_tokens: int) -> RequestView {
    RequestView {
        messages: messages_of(v),
        tools: Seq::empty(),
        sampling,
        max_tokens,
        enable_thinking: false,
        stop: Seq::empty(),
    }
}

/// The request that a conversation makes.
pub fn request(v: &Vec<Turn>, sampling: Sampling, max_tokens: usize) -> (r: GenerateRequest)
    ensures
        r@ == request_of(turn_views(v@), sampling, max_tokens as int),
        r@.wf(),
{
    let r = GenerateRequest {
        messages: to_messages(v),
        tools: Vec::new(),
        sampling,
        max_tokens,
        enable_thinking: false,
        stop: Vec::new(),
    };
    assert(tool_views(r.tools@) =~= Seq::<ToolView>::empty());
    assert(views(r.stop@) =~= Seq::<Seq<char>>::empty());
    r
}

/// A turn, put at the end.
pub open spec fn said(v: Seq<TurnView>, role: Role, text: Seq<char>) -> Seq<TurnView> {
    v.push(TurnView { role, text })
}

/// The sides take turns, the user first, and every question has an answer.
pub open spec fn paired(v: Seq<TurnView>) -> bool {
    &&& v.len() % 2 == 0
    &&& forall|i: int|
        0 <= i < v.len() ==> (#[trigger] v[i]).role == (if i % 2 == 0 {
            Role::User
        } else {
            Role::Assistant
        })
}

/// A question and its answer keep a conversation paired.
pub proof fn answers_keep_turns_paired(v: Seq<TurnView>, question: Seq<char>, answer: Seq<char>)
    requires
        paired(v),
    ensures
        paired(said(said(v, Role::User, question), Role::Assistant, answer)),
{
}

pub(crate) fn push(v: &mut Vec<Turn>, role: Role, text: String)
    ensures
        turn_views(final(v)@) == said(turn_views(old(v)@), role, text@),
{
    let ghost before = turn_views(v@);
    let t = Turn { role, text };
    let ghost x = t@;
    v.push(t);
    assert(turn_views(v@) =~= before.push(x));
}

} // verus!
