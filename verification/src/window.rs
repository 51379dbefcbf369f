//! The chat window: what it holds, what each action does to it and what it shows.
//!
//! Drawing, the file dialog and the engine's channel are the caller's. The
//! conversation is text on this side, so it survives a change of model: the next
//! turn replays it into the new one.

use crate::engine::GenerateRequest;
use crate::hub::{parse_u64, parsed};
use crate::md::{element, make, none, one, shown_views, Shown, ShownView};
use crate::sample::{default_sampling, Sampling};
use crate::talk::{self, paired, request_of, said, turn_views, Role, Turn, TurnView};
use crate::text::{self, decimal, trimmed};
use vstd::prelude::*;

verus! {

/// Streamed progress for one turn.
#[derive(Debug)]
pub enum Reply {
    Token(String),
    /// The finished text, as the chat dialect parsed it, which can differ from the
    /// concatenated tokens.
    Done(String),
    Error(String),
}

#[verifier::ext_equal]
pub ghost enum ReplyView {
    Token(Seq<char>),
    Done(Seq<char>),
    Error(Seq<char>),
}

impl View for Reply {
    type V = ReplyView;

    open spec fn view(&self) -> ReplyView {
        match self {
            Reply::Token(t) => ReplyView::Token(t@),
            Reply::Done(t) => ReplyView::Done(t@),
            Reply::Error(t) => ReplyView::Error(t@),
        }
    }
}

#[derive(Debug)]
pub struct Settings {
    pub model: String,
    pub n_ctx: usize,
    pub batch: usize,
    pub cpu: bool,
}

#[derive(Debug)]
pub enum Status {
    NoModel,
    Loading(String),
    Ready(String),
    Failed(String),
}

#[verifier::ext_equal]
pub ghost enum StatusView {
    NoModel,
    Loading(Seq<char>),
    Ready(Seq<char>),
    Failed(Seq<char>),
}

impl View for Status {
    type V = StatusView;

    open spec fn view(&self) -> StatusView {
        match self {
            Status::NoModel => StatusView::NoModel,
            Status::Loading(s) => StatusView::Loading(s@),
            Status::Ready(s) => StatusView::Ready(s@),
            Status::Failed(s) => StatusView::Failed(s@),
        }
    }
}

/// How many tokens a turn may have.
pub const MAX_TOKENS: usize = 2048;

/// What the window holds.
#[derive(Debug)]
pub struct Window {
    pub status: Status,
    pub turns: Vec<Turn>,
    pub draft: String,
    pub error: Option<String>,
    /// A reply is coming in.
    pub running: bool,
    /// Changes whenever the input box is to take the focus.
    pub focus: u32,
}

#[verifier::ext_equal]
pub ghost struct WindowView {
    pub status: StatusView,
    pub turns: Seq<TurnView>,
    pub draft: Seq<char>,
    pub error: Option<Seq<char>>,
    pub running: bool,
    pub focus: u32,
}

impl View for Window {
    type V = WindowView;

    open spec fn view(&self) -> WindowView {
        WindowView {
            status: self.status@,
            turns: turn_views(self.turns@),
            draft: self.draft@,
            error: match self.error {
                Some(e) => Some(e@),
                None => None,
            },
            running: self.running,
            focus: self.focus,
        }
    }
}

impl WindowView {
    /// There is something to send and a model to send it to.
    pub open spec fn can_send(self) -> bool {
        &&& !self.running
        &&& self.status is Ready
        &&& trimmed(self.draft).len() > 0
    }

    /// What is asked: the conversation so far and the draft.
    pub open spec fn asked(self) -> Seq<TurnView> {
        said(self.turns, Role::User, trimmed(self.draft))
    }

    /// The draft is sent, and an empty reply stands below it.
    pub open spec fn sent(self) -> WindowView {
        if self.can_send() {
            WindowView {
                turns: said(self.asked(), Role::Assistant, Seq::empty()),
                draft: Seq::empty(),
                error: None,
                running: true,
                ..self
            }
        } else {
            self
        }
    }

    /// The last turn's text is this.
    pub open spec fn retold(self, text: Seq<char>) -> Seq<TurnView> {
        if self.turns.len() > 0 {
            self.turns.update(
                self.turns.len() - 1,
                TurnView { text, ..self.turns.last() },
            )
        } else {
            self.turns
        }
    }

    /// What a piece of the reply does. After a failure the question goes back into the
    /// input box, and neither it nor the half answer stays.
    pub open spec fn heard(self, r: ReplyView) -> WindowView {
        if !self.running {
            self
        } else {
            match r {
                ReplyView::Token(t) => WindowView {
                    turns: self.retold(self.turns.last().text + t),
                    ..self
                },
                ReplyView::Done(t) => WindowView {
                    turns: self.retold(t),
                    running: false,
                    ..self
                },
                ReplyView::Error(e) => WindowView {
                    turns: if self.turns.len() >= 2 {
                        self.turns.take(self.turns.len() - 2)
                    } else {
                        Seq::empty()
                    },
                    draft: if self.turns.len() >= 2 {
                        self.turns[self.turns.len() - 2].text
                    } else {
                        self.draft
                    },
                    error: Some(e),
                    running: false,
                    ..self
                },
            }
        }
    }

    /// What pieces of the reply do, one after the other.
    pub open spec fn heard_all(self, r: Seq<ReplyView>) -> WindowView
        decreases r.len(),
    {
        if r.len() == 0 {
            self
        } else {
            self.heard_all(r.drop_last()).heard(r.last())
        }
    }

    /// Everything said is gone.
    pub open spec fn wiped(self) -> WindowView {
        WindowView {
            turns: Seq::empty(),
            draft: Seq::empty(),
            error: None,
            running: false,
            focus: self.focus.wrapping_add(1),
            ..self
        }
    }

    /// A model of this name is being loaded; a reply that was coming in is cut short.
    pub open spec fn picked(self, name: Seq<char>) -> WindowView {
        WindowView { status: StatusView::Loading(name), running: false, ..self }
    }

    /// The status that a load leaves behind. Nothing comes back where the engine
    /// is gone.
    pub open spec fn loaded(self, outcome: Option<Result<Seq<char>, Seq<char>>>) -> WindowView {
        WindowView {
            status: match outcome {
                Some(Ok(d)) => StatusView::Ready(d),
                Some(Err(e)) => StatusView::Failed(e),
                None => StatusView::Failed("engine thread died while loading"@),
            },
            ..self
        }
    }

    /// The class and the text of the status line.
    pub open spec fn line(self) -> (Seq<char>, Seq<char>) {
        match self.status {
            StatusView::NoModel => ("status"@, "no model loaded"@),
            StatusView::Loading(name) => ("status"@, "loading "@ + name + "\u{2026}"@),
            StatusView::Ready(d) => ("status"@, d),
            StatusView::Failed(e) => ("status err"@, "failed to load: "@ + e),
        }
    }

    pub open spec fn no_model(self) -> bool {
        self.status is NoModel || self.status is Failed
    }

    /// What stands where nothing has been said.
    pub open spec fn hint(self) -> Seq<char> {
        if self.no_model() {
            CHOOSE@
        } else {
            PRIVATE@
        }
    }

    /// The conversation as it is drawn.
    pub open spec fn log(self) -> ShownView {
        element(
            "div"@,
            "turns"@,
            (if self.turns.len() == 0 {
                seq![element("div"@, "empty"@, seq![ShownView::Text(self.hint())])]
            } else {
                Seq::empty()
            }) + self.turns.map_values(|t: TurnView| turn_shown(t)) + match self.error {
                Some(e) => seq![
                    element("div"@, "error"@, seq![ShownView::Text("error: "@ + e)]),
                ],
                None => Seq::empty(),
            },
        )
    }
}

pub const CHOOSE: &'static str = "Choose a model (.gguf) to start.";

pub const PRIVATE: &'static str = "Nothing here is written to disk. Wipe overwrites the conversation, the model's cache and device buffers; closing the window does the same.";

/// A turn as it is drawn. One without text yet is three dots.
pub open spec fn turn_shown(t: TurnView) -> ShownView {
    element(
        "div"@,
        match t.role {
            Role::User => "msg user"@,
            Role::Assistant => "msg assistant"@,
        },
        seq![
            ShownView::Text(
                if t.text.len() == 0 {
                    "\u{2026}"@
                } else {
                    t.text
                },
            ),
        ],
    )
}

fn show_turn(t: &Turn) -> (r: Shown)
    ensures
        r@ == turn_shown(t@),
{
    let text = if t.text.as_str().is_empty() {
        "\u{2026}".to_owned()
    } else {
        t.text.as_str().to_owned()
    };
    make(
        "div",
        match t.role {
            Role::User => "msg user",
            Role::Assistant => "msg assistant",
        },
        one(Shown::Text(text)),
    )
}

impl Window {
    /// No model, and nothing said.
    pub fn new() -> (w: Window)
        ensures
            w@ == (WindowView {
                status: StatusView::NoModel,
                turns: Seq::empty(),
                draft: Seq::empty(),
                error: None,
                running: false,
                focus: 0,
            }),
    {
        let w = Window {
            status: Status::NoModel,
            turns: Vec::new(),
            draft: String::new(),
            error: None,
            running: false,
            focus: 0,
        };
        assert(w@.turns =~= Seq::empty());
        assert(w@.draft =~= Seq::empty());
        w
    }

    /// The input box holds this.
    pub fn type_in(&mut self, text: String)
        ensures
            final(self)@ == (WindowView { draft: text@, ..old(self)@ }),
    {
        self.draft = text;
    }

    /// Send the draft. What is to be generated, unless a reply is still coming in,
    /// no model is ready or there is nothing but blanks.
    pub fn send(&mut self) -> (r: Option<GenerateRequest>)
        ensures
            final(self)@ == old(self)@.sent(),
            r is Some == old(self)@.can_send(),
            match r {
                Some(req) => {
                    &&& req@ == request_of(
                        old(self)@.asked(),
                        default_sampling(),
                        MAX_TOKENS as int,
                    )
                    &&& req@.wf()
                },
                None => true,
            },
    {
        let ghost before = self@;
        let ready = match &self.status {
            Status::Ready(_) => true,
            _ => false,
        };
        if self.running || !ready {
            return None;
        }
        let question = text::trim(self.draft.as_str());
        if question.as_str().is_empty() {
            return None;
        }
        self.draft = String::new();
        self.error = None;
        talk::push(&mut self.turns, Role::User, question);
        let req = talk::request(&self.turns, Sampling::default(), MAX_TOKENS);
        talk::push(&mut self.turns, Role::Assistant, String::new());
        self.running = true;
        assert(self@.draft =~= Seq::empty());
        assert(self@.turns =~= before.sent().turns);
        Some(req)
    }

    /// A key went down in the input box. Enter sends, unless shift is held.
    pub fn key(&mut self, enter: bool, shift: bool) -> (r: Option<GenerateRequest>)
        ensures
            final(self)@ == (if enter && !shift {
                old(self)@.sent()
            } else {
                old(self)@
            }),
            r is Some == (enter && !shift && old(self)@.can_send()),
            match r {
                Some(req) => {
                    &&& req@ == request_of(
                        old(self)@.asked(),
                        default_sampling(),
                        MAX_TOKENS as int,
                    )
                    &&& req@.wf()
                },
                None => true,
            },
    {
        if enter && !shift {
            self.send()
        } else {
            None
        }
    }

    /// The button was pressed: send, and give the focus back.
    pub fn press_send(&mut self) -> (r: Option<GenerateRequest>)
        ensures
            final(self)@ == (WindowView {
                focus: old(self)@.focus.wrapping_add(1),
                ..old(self)@.sent()
            }),
            r is Some == old(self)@.can_send(),
            match r {
                Some(req) => {
                    &&& req@ == request_of(
                        old(self)@.asked(),
                        default_sampling(),
                        MAX_TOKENS as int,
                    )
                    &&& req@.wf()
                },
                None => true,
            },
    {
        let r = self.send();
        self.focus = self.focus.wrapping_add(1);
        r
    }

    fn retell(&mut self, full: String, after: bool)
        ensures
            old(self)@.turns.len() == 0 ==> final(self)@ == old(self)@,
            old(self)@.turns.len() > 0 ==> final(self)@ == (WindowView {
                turns: old(self)@.retold(
                    if after {
                        old(self)@.turns.last().text + full@
                    } else {
                        full@
                    },
                ),
                ..old(self)@
            }),
    {
        let ghost before = self@;
        match self.turns.pop() {
            Some(t) => {
                let ghost last = t@;
                let role = t.role;
                let mut text = t.text;
                if after {
                    text.push_str(full.as_str());
                } else {
                    text = full;
                }
                let ghost now = text@;
                self.turns.push(Turn { role, text });
                assert(last == before.turns.last());
                assert(self@.turns =~= before.retold(now));
            },
            None => {},
        }
    }

    /// A piece of the reply came in. What comes after a stop is not heard.
    pub fn hear(&mut self, reply: Reply)
        ensures
            final(self)@ == old(self)@.heard(reply@),
    {
        let ghost before = self@;
        if !self.running {
            return ;
        }
        match reply {
            Reply::Token(t) => {
                self.retell(t, true);
                assert(self@.turns =~= before.heard(reply@).turns);
            },
            Reply::Done(t) => {
                self.retell(t, false);
                self.running = false;
                assert(self@.turns =~= before.heard(reply@).turns);
            },
            Reply::Error(e) => {
                let answer = self.turns.pop();
                if let Some(user) = self.turns.pop() {
                    self.draft = user.text;
                }
                self.error = Some(e);
                self.running = false;
                assert(self@.turns =~= before.heard(reply@).turns);
            },
        }
    }

    /// No more of the reply will come. What was generated so far stays.
    pub fn stop(&mut self)
        ensures
            final(self)@ == (WindowView { running: false, ..old(self)@ }),
    {
        self.running = false;
    }

    /// A model can be chosen.
    pub fn can_pick(&self) -> (r: bool)
        ensures
            r == !(self@.status is Loading),
    {
        match &self.status {
            Status::Loading(_) => false,
            _ => true,
        }
    }

    /// A model is being loaded. The conversation stays.
    pub fn pick(&mut self, name: String)
        ensures
            final(self)@ == old(self)@.picked(name@),
    {
        self.stop();
        self.status = Status::Loading(name);
    }

    /// What came of a load.
    pub fn finish_load(&mut self, outcome: Option<Result<String, String>>)
        ensures
            final(self)@ == old(self)@.loaded(
                match outcome {
                    Some(Ok(d)) => Some(Ok(d@)),
                    Some(Err(e)) => Some(Err(e@)),
                    None => None,
                },
            ),
    {
        self.status = match outcome {
            Some(Ok(d)) => Status::Ready(d),
            Some(Err(e)) => Status::Failed(e),
            None => Status::Failed("engine thread died while loading".to_owned()),
        };
    }

    /// Give the focus back to the input box.
    pub fn refocus(&mut self)
        ensures
            final(self)@ == (WindowView {
                focus: old(self)@.focus.wrapping_add(1),
                ..old(self)@
            }),
    {
        self.focus = self.focus.wrapping_add(1);
    }

    /// Forget the conversation. The engine is to be wiped with it.
    pub fn wipe(&mut self)
        ensures
            final(self)@ == old(self)@.wiped(),
    {
        self.stop();
        self.turns = Vec::new();
        self.draft = String::new();
        self.error = None;
        self.focus = self.focus.wrapping_add(1);
        assert(self@.turns =~= Seq::empty());
        assert(self@.draft =~= Seq::empty());
    }

    /// The class and the text of the status line.
    pub fn status_line(&self) -> (r: (&'static str, String))
        ensures
            (r.0@, r.1@) == self@.line(),
    {
        match &self.status {
            Status::NoModel => ("status", "no model loaded".to_owned()),
            Status::Loading(name) => {
                let mut s = "loading ".to_owned();
                s.push_str(name.as_str());
                s.push_str("\u{2026}");
                ("status", s)
            },
            Status::Ready(d) => ("status", d.as_str().to_owned()),
            Status::Failed(e) => {
                let mut s = "failed to load: ".to_owned();
                s.push_str(e.as_str());
                ("status err", s)
            },
        }
    }

    /// Nothing can be sent before a model is chosen.
    pub fn no_model(&self) -> (r: bool)
        ensures
            r == self@.no_model(),
    {
        match &self.status {
            Status::NoModel => true,
            Status::Failed(_) => true,
            _ => false,
        }
    }

    /// The conversation as it is drawn.
    pub fn log(&self) -> (r: Shown)
        ensures
            r@ == self@.log(),
    {
        let ghost all = self@.turns.map_values(|t: TurnView| turn_shown(t));
        let n: usize = self.turns.len();
        let mut kids = if n == 0 {
            let hint = if self.no_model() { CHOOSE } else { PRIVATE };
            one(make("div", "empty", one(Shown::Text(hint.to_owned()))))
        } else {
            none()
        };
        let ghost first = shown_views(kids@);
        let mut i: usize = 0;
        assert(first + all.take(0) =~= first);
        while i < n
            invariant
                i <= n,
                n == self.turns@.len(),
                all == self@.turns.map_values(|t: TurnView| turn_shown(t)),
                shown_views(kids@) == first + all.take(i as int),
            decreases n - i,
        {
            let ghost before = shown_views(kids@);
            let x = show_turn(&self.turns[i]);
            let ghost y = x@;
            kids.push(x);
            assert(shown_views(kids@) =~= before.push(y));
            assert(all[i as int] == y);
            assert((first + all.take(i as int)).push(y) =~= first + all.take(i + 1));
            i = i + 1;
        }
        assert(all.take(n as int) =~= all);
        let ghost before = shown_views(kids@);
        if let Some(e) = &self.error {
            let mut s = "error: ".to_owned();
            s.push_str(e.as_str());
            let x = make("div", "error", one(Shown::Text(s)));
            let ghost y = x@;
            kids.push(x);
            assert(shown_views(kids@) =~= before.push(y));
            assert(before.push(y) =~= before + seq![y]);
        } else {
            assert(before + Seq::<ShownView>::empty() =~= before);
        }
        make("div", "turns", kids)
    }
}

// ---------------------------------------------------------------------------
// What holds of it
// ---------------------------------------------------------------------------
/// Tokens change nothing but the text of the last turn.
proof fn lemma_tokens(w: WindowView, r: Seq<ReplyView>)
    requires
        w.running,
        w.turns.len() > 0,
        forall|i: int| 0 <= i < r.len() ==> (#[trigger] r[i]) is Token,
    ensures
        w.heard_all(r).running,
        w.heard_all(r).turns.len() == w.turns.len(),
        w.heard_all(r).turns.drop_last() == w.turns.drop_last(),
        w.heard_all(r).turns.last().role == w.turns.last().role,
        w.heard_all(r) == (WindowView { turns: w.heard_all(r).turns, ..w }),
    decreases r.len(),
{
    if r.len() > 0 {
        let head = r.drop_last();
        assert forall|i: int| 0 <= i < head.len() implies (#[trigger] head[i]) is Token by {
            assert(r[i] is Token);
        }
        lemma_tokens(w, head);
        assert(r.last() is Token);
        let m = w.heard_all(head);
        assert(w.heard_all(r).turns.drop_last() =~= m.turns.drop_last());
    }
}

/// A turn that fails, however much of it came in, leaves no trace in the conversation:
/// it is what it was, and the question is back in the input box.
pub proof fn failed_turn_leaves_no_trace(w: WindowView, tokens: Seq<ReplyView>, e: Seq<char>)
    requires
        w.can_send(),
        forall|i: int| 0 <= i < tokens.len() ==> (#[trigger] tokens[i]) is Token,
    ensures
        ({
            let after = w.sent().heard_all(tokens).heard(ReplyView::Error(e));
            &&& after.turns == w.turns
            &&& after.draft == trimmed(w.draft)
            &&& after.error == Some(e)
            &&& !after.running
        }),
{
    let s = w.sent();
    lemma_tokens(s, tokens);
    let m = s.heard_all(tokens);
    let after = m.heard(ReplyView::Error(e));
    assert(s.turns.drop_last() =~= w.asked());
    assert(m.turns.drop_last() == w.asked());
    assert(m.turns[m.turns.len() - 2] == m.turns.drop_last().last());
    assert(after.turns =~= m.turns.drop_last().drop_last());
    assert(w.asked().drop_last() =~= w.turns);
}

/// A finished turn is the question and the finished text, whatever came in before.
pub proof fn finished_turn_is_the_text(w: WindowView, tokens: Seq<ReplyView>, full: Seq<char>)
    requires
        w.can_send(),
        forall|i: int| 0 <= i < tokens.len() ==> (#[trigger] tokens[i]) is Token,
    ensures
        ({
            let after = w.sent().heard_all(tokens).heard(ReplyView::Done(full));
            &&& after.turns == said(w.asked(), Role::Assistant, full)
            &&& !after.running
        }),
{
    let s = w.sent();
    lemma_tokens(s, tokens);
    let m = s.heard_all(tokens);
    let after = m.heard(ReplyView::Done(full));
    assert(s.turns.drop_last() =~= w.asked());
    assert(after.turns.drop_last() =~= m.turns.drop_last());
    assert(after.turns =~= said(w.asked(), Role::Assistant, full));
}

/// Whatever is sent and heard, every question stands above its answer.
pub proof fn turns_stay_paired(w: WindowView, r: ReplyView)
    requires
        paired(w.turns),
    ensures
        paired(w.sent().turns),
        paired(w.heard(r).turns),
        paired(w.wiped().turns),
{
    let h = w.heard(r).turns;
    assert forall|i: int| 0 <= i < h.len() implies (#[trigger] h[i]).role == (if i % 2 == 0 {
        Role::User
    } else {
        Role::Assistant
    }) by {
        assert(w.turns[i].role == h[i].role);
    }
}

/// A change of model keeps the conversation, and the next question is asked with all
/// of it.
pub proof fn conversation_survives_a_switch(
    w: WindowView,
    name: Seq<char>,
    description: Seq<char>,
)
    ensures
        ({
            let after = w.picked(name).loaded(Some(Ok(description)));
            &&& after.turns == w.turns
            &&& after.draft == w.draft
            &&& after.asked() == w.asked()
            &&& after.can_send() == (trimmed(w.draft).len() > 0)
        }),
{
}

/// A wipe leaves nothing that was said: what is drawn after it depends on the status
/// alone, and so does what can be sent.
pub proof fn nothing_survives_a_wipe(w: WindowView, v: WindowView)
    requires
        w.status == v.status,
    ensures
        w.wiped().log() == v.wiped().log(),
        w.wiped().draft.len() == 0,
        !w.wiped().can_send(),
{
    assert(w.wiped().turns.map_values(|t: TurnView| turn_shown(t)) =~= v.wiped().turns.map_values(
        |t: TurnView| turn_shown(t),
    ));
}

// ---------------------------------------------------------------------------
// The engine's side
// ---------------------------------------------------------------------------
/// What becomes of a token.
#[derive(Debug, Clone, Copy, PartialEq, Eq, Structural)]
pub enum Flow {
    /// Stop the turn.
    Stop,
    /// Go on; there is nothing to send.
    Continue,
    /// Send it, and stop where nobody receives it.
    Send,
}

/// What becomes of a token: nothing is sent while the program is closing, nor a token
/// that has no text yet.
pub fn token(closing: bool, text: &str) -> (r: Flow)
    ensures
        r == (if closing {
            Flow::Stop
        } else if text@.len() == 0 {
            Flow::Continue
        } else {
            Flow::Send
        }),
{
    if closing {
        Flow::Stop
    } else if text.is_empty() {
        Flow::Continue
    } else {
        Flow::Send
    }
}

/// One line about what is loaded: the file, the device and the context.
pub open spec fn described(name: Seq<char>, device: Seq<char>, context: nat) -> Seq<char> {
    name + DOT@ + device + DOT@ + "ctx "@ + decimal(context)
}

pub const DOT: &'static str = " \u{00B7} ";

/// One line about what is loaded. The device is the adapter's name, or the CPU.
pub fn describe(name: &str, adapter: Option<&str>, context: usize) -> (r: String)
    ensures
        r@ == described(
            name@,
            match adapter {
                Some(a) => a@,
                None => "CPU"@,
            },
            context as nat,
        ),
{
    let mut s = name.to_owned();
    s.push_str(DOT);
    s.push_str(
        match adapter {
            Some(a) => a,
            None => "CPU",
        },
    );
    s.push_str(DOT);
    s.push_str("ctx ");
    s.push_str(text::decimal_string(context as u64).as_str());
    s
}

/// The model that is loaded where none is named.
pub const DEFAULT_MODEL: &'static str = "models/gemma-4-E4B-it-Q4_K_M.gguf";

pub open spec fn chosen(
    arg: Option<Seq<char>>,
    env: Option<Seq<char>>,
    default_exists: bool,
) -> Option<Seq<char>> {
    match (arg, env) {
        (Some(a), _) => Some(a),
        (None, Some(e)) => Some(e),
        (None, None) => if default_exists {
            Some(DEFAULT_MODEL@)
        } else {
            None
        },
    }
}

/// Which model to load at the start. One named on the command line or in the
/// environment is loaded even if missing, so the error says why; the default only if
/// it is there.
pub fn choose_model(
    arg: Option<String>,
    env: Option<String>,
    default_exists: bool,
) -> (r: Option<String>)
    ensures
        crate::chat::opt_text(r) == chosen(
            crate::chat::opt_text(arg),
            crate::chat::opt_text(env),
            default_exists,
        ),
{
    match (arg, env) {
        (Some(a), _) => Some(a),
        (None, Some(e)) => Some(e),
        (None, None) => if default_exists {
            Some(DEFAULT_MODEL.to_owned())
        } else {
            None
        },
    }
}

/// A number from the environment, or the default where it is absent, malformed or
/// too large.
pub open spec fn setting(value: Option<Seq<char>>, default: usize) -> usize {
    match value {
        Some(v) => match parsed(v) {
            Some(n) => if n <= usize::MAX {
                n as usize
            } else {
                default
            },
            None => default,
        },
        None => default,
    }
}

/// A number from the environment.
pub fn env_usize(value: Option<&str>, default: usize) -> (r: usize)
    ensures
        r == setting(
            match value {
                Some(v) => Some(v@),
                None => None,
            },
            default,
        ),
{
    match value {
        Some(v) => match parse_u64(v) {
            Some(n) => if n <= usize::MAX as u64 {
                n as usize
            } else {
                default
            },
            None => default,
        },
        None => default,
    }
}

} // verus!
