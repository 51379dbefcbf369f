//! The private prompt: one conversation on a terminal, and nothing kept of it.
//!
//! Reading the line, printing and the engine's thread are the caller's.

use crate::engine::{Event, EventView, GenerateRequest};
use crate::sample::{default_sampling, Sampling};
use crate::talk::{self, request_of, said, turn_views, Role, Turn, TurnView};
use crate::text::{self, numbered, numbered_string, str_eq, trimmed};
use crate::window::MAX_TOKENS;
use vstd::prelude::*;

verus! {

/// What a line asks for.
#[derive(Debug)]
pub enum Command {
    /// Nothing but blanks.
    Nothing,
    Quit,
    Help,
    /// Forget everything, and clear the terminal too.
    Wipe,
    /// Forget everything.
    New,
    Say(String),
}

#[verifier::ext_equal]
pub ghost enum CommandView {
    Nothing,
    Quit,
    Help,
    Wipe,
    New,
    Say(Seq<char>),
}

impl View for Command {
    type V = CommandView;

    open spec fn view(&self) -> CommandView {
        match self {
            Command::Nothing => CommandView::Nothing,
            Command::Quit => CommandView::Quit,
            Command::Help => CommandView::Help,
            Command::Wipe => CommandView::Wipe,
            Command::New => CommandView::New,
            Command::Say(s) => CommandView::Say(s@),
        }
    }
}

pub open spec fn command_of(line: Seq<char>) -> CommandView {
    let s = trimmed(line);
    if s.len() == 0 {
        CommandView::Nothing
    } else if s == "/quit"@ || s == "/exit"@ {
        CommandView::Quit
    } else if s == "/help"@ {
        CommandView::Help
    } else if s == "/wipe"@ {
        CommandView::Wipe
    } else if s == "/new"@ {
        CommandView::New
    } else {
        CommandView::Say(s)
    }
}

/// What a line asks for.
pub fn command(line: &str) -> (r: Command)
    ensures
        r@ == command_of(line@),
{
    let s = text::trim(line);
    let t = s.as_str();
    if t.is_empty() {
        Command::Nothing
    } else if str_eq(t, "/quit") || str_eq(t, "/exit") {
        Command::Quit
    } else if str_eq(t, "/help") {
        Command::Help
    } else if str_eq(t, "/wipe") {
        Command::Wipe
    } else if str_eq(t, "/new") {
        Command::New
    } else {
        Command::Say(s)
    }
}

/// What a reply has come to.
#[derive(Debug)]
pub enum Heard {
    More,
    Over,
    Failed(String),
}

#[verifier::ext_equal]
pub ghost enum HeardView {
    More,
    Over,
    Failed(Seq<char>),
}

impl View for Heard {
    type V = HeardView;

    open spec fn view(&self) -> HeardView {
        match self {
            Heard::More => HeardView::More,
            Heard::Over => HeardView::Over,
            Heard::Failed(e) => HeardView::Failed(e@),
        }
    }
}

/// The reply so far and what it has come to, after an event. The parsed completion
/// stands in for the tokens.
pub open spec fn heard(out: Seq<char>, e: EventView) -> (Seq<char>, HeardView) {
    match e {
        EventView::Token { text, .. } => (out + text, HeardView::More),
        EventView::Done { completion, .. } => (completion.content, HeardView::Over),
        EventView::Error(m) => (out, HeardView::Failed(m)),
        EventView::Prefill { .. } => (out, HeardView::More),
    }
}

/// The conversation.
#[derive(Debug)]
pub struct Repl {
    pub history: Vec<Turn>,
}

impl View for Repl {
    type V = Seq<TurnView>;

    open spec fn view(&self) -> Seq<TurnView> {
        turn_views(self.history@)
    }
}

impl Repl {
    pub fn new() -> (r: Repl)
        ensures
            r@ == Seq::<TurnView>::empty(),
    {
        let r = Repl { history: Vec::new() };
        assert(r@ =~= Seq::empty());
        r
    }

    /// Forget the conversation. The engine is to be wiped with it.
    pub fn clear(&mut self)
        ensures
            final(self)@ == Seq::<TurnView>::empty(),
    {
        self.history = Vec::new();
        assert(self@ =~= Seq::empty());
    }

    /// Say something: what is to be generated.
    pub fn say(&mut self, input: String) -> (r: GenerateRequest)
        ensures
            final(self)@ == said(old(self)@, Role::User, input@),
            r@ == request_of(final(self)@, default_sampling(), MAX_TOKENS as int),
            r@.wf(),
    {
        talk::push(&mut self.history, Role::User, input);
        talk::request(&self.history, Sampling::default(), MAX_TOKENS)
    }

    /// Take in an event of the reply.
    pub fn hear(out: &mut String, e: Event) -> (r: Heard)
        ensures
            (final(out)@, r@) == heard(old(out)@, e@),
    {
        match e {
            Event::Token { id, text } => {
                out.push_str(text.as_str());
                Heard::More
            },
            Event::Done { completion, generated, reason } => {
                *out = completion.content;
                Heard::Over
            },
            Event::Error(m) => Heard::Failed(m),
            Event::Prefill { tokens, cached } => Heard::More,
        }
    }

    /// The reply is complete, or was cut short; it is kept as it is.
    pub fn answered(&mut self, reply: String)
        ensures
            final(self)@ == said(old(self)@, Role::Assistant, reply@),
    {
        talk::push(&mut self.history, Role::Assistant, reply);
    }

    /// The reply failed. The question is not kept: the next prompt would replay it.
    pub fn failed(&mut self)
        ensures
            final(self)@ == (if old(self)@.len() > 0 {
                old(self)@.drop_last()
            } else {
                old(self)@
            }),
    {
        let ghost before = self@;
        let last = self.history.pop();
        assert(before.len() > 0 ==> self@ =~= before.drop_last());
        assert(before.len() == 0 ==> self@ =~= before);
    }
}

/// A question that was not answered leaves the conversation as it was.
pub proof fn failed_question_leaves_no_trace(history: Seq<TurnView>, question: Seq<char>)
    ensures
        said(history, Role::User, question).drop_last() == history,
{
    assert(said(history, Role::User, question).drop_last() =~= history);
}

/// What is said at the start.
pub fn banner(n_ctx: usize) -> (r: String)
    ensures
        r@ == numbered(BANNER@, n_ctx as nat, BELOW@),
{
    numbered_string(BANNER, n_ctx, BELOW)
}

pub const BANNER: &'static str = "\nllmoxide private mode \u{2014} nothing is written to disk.\ncontext ";

pub const BELOW: &'static str = "; heap zeroed on free; prompt and cache locked into RAM.";

pub const HELP: &'static str = "  /wipe   overwrite the conversation, device buffers and scrollback\n  /new    same, but stay in the session\n  /quit   wipe and exit  (ctrl-D also works, ctrl-C stops a reply)";

} // verus!
