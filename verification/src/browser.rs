//! A model in a browser tab.
//!
//! The weights never enter memory as a whole. The header is read from a prefix of the
//! file that grows until it is complete, the few tensors that are not quantized are
//! read by name, and the rest is streamed to the device. What is decided here is how
//! much to read and what a conversation keeps; reading and drawing are the caller's.

use crate::chat::{self, nothing_said, qwen};
use crate::engine::{started, Ask, ChatFormat, Engine, EngineError, Phase, Run, RunView};
use crate::gguf::{Error, ErrorView, GgmlType};
use crate::header::{all_in_bounds, read_header, Header, HeaderView, TensorInfoView};
use crate::sample::Sampling;
use crate::secret::blank;
use crate::talk::{self, request_of, said, turn_views, Role, Turn, TurnView};
use crate::tokenizer::Tokenizer;
use vstd::prelude::*;

verus! {

// ---------------------------------------------------------------------------
// Loading
// ---------------------------------------------------------------------------
/// How much of a file is read at first.
pub const FIRST_PREFIX: u64 = 0x0100_0000;

/// A header that is being read from a file of `size` bytes.
#[derive(Debug, Clone, Copy)]
pub struct Reading {
    pub want: u64,
    pub size: u64,
}

/// What came of a prefix.
pub enum Parsed {
    Header(Header),
    /// The header goes on behind the prefix; read a longer one.
    More,
}

impl Reading {
    /// The prefix to read next.
    pub open spec fn next(self) -> u64 {
        if self.want < self.size {
            self.want
        } else {
            self.size
        }
    }

    /// The same, with twice the prefix.
    pub open spec fn doubled(self) -> Reading {
        Reading {
            want: if 2 * self.want <= u64::MAX {
                (2 * self.want) as u64
            } else {
                u64::MAX
            },
            ..self
        }
    }

    pub fn new(size: u64) -> (r: Reading)
        ensures
            r == (Reading { want: FIRST_PREFIX, size }),
    {
        Reading { want: FIRST_PREFIX, size }
    }

    /// How many bytes of the file to read.
    pub fn len(&self) -> (r: u64)
        ensures
            r == self.next(),
    {
        if self.want < self.size {
            self.want
        } else {
            self.size
        }
    }

    /// Read the header from a prefix. One that ends inside the header and a corrupt
    /// file look the same from inside, so the prefix grows until it is the whole file.
    pub fn read(&mut self, prefix: &[u8]) -> (r: Result<Parsed, Error>)
        requires
            prefix@.len() == old(self).next(),
        ensures
            match r {
                Ok(Parsed::Header(h)) => {
                    &&& read_header(prefix@) == Ok::<HeaderView, ErrorView>(h@)
                    &&& h.wf()
                    &&& *final(self) == *old(self)
                },
                Ok(Parsed::More) => {
                    &&& read_header(prefix@) matches Err(ErrorView::Eof(_))
                    &&& prefix@.len() < old(self).size
                    &&& *final(self) == old(self).doubled()
                },
                Err(e) => {
                    &&& read_header(prefix@) == Err::<HeaderView, ErrorView>(e@)
                    &&& !(e@ is Eof && prefix@.len() < old(self).size)
                    &&& *final(self) == *old(self)
                },
            },
    {
        match Header::parse(prefix) {
            Ok(h) => Ok(Parsed::Header(h)),
            Err(Error::Eof(at)) => {
                if self.len() < self.size {
                    self.want = if self.want <= u64::MAX / 2 { self.want * 2 } else { u64::MAX };
                    Ok(Parsed::More)
                } else {
                    Err(Error::Eof(at))
                }
            },
            Err(e) => Err(e),
        }
    }
}

/// Every prefix that was too short is followed by a longer one, so reading ends.
pub proof fn prefixes_grow(r: Reading)
    requires
        0 < r.want,
        r.next() < r.size,
    ensures
        r.next() < r.doubled().next(),
        r.doubled().next() <= r.size,
{
}

/// The most that may be kept of tensors that are not streamed: half a gigabyte.
pub const MAX_RESIDENT_BYTES: u64 = 0x2000_0000;

/// A tensor that is read by name: not quantized, and not left dense.
pub open spec fn small(t: TensorInfoView) -> bool {
    &&& t.ty != GgmlType::Q8_0
    &&& t.ty != GgmlType::Q4K
    &&& t.ty != GgmlType::Q6K
    &&& t.ty != GgmlType::BF16
}

/// The positions of such tensors among the first `n`.
pub open spec fn small_at(v: Seq<TensorInfoView>, n: int) -> Seq<usize>
    decreases n,
{
    if n <= 0 {
        Seq::empty()
    } else if small(v[n - 1]) {
        small_at(v, n - 1).push((n - 1) as usize)
    } else {
        small_at(v, n - 1)
    }
}

/// How many bytes such tensors among the first `n` take.
pub open spec fn small_bytes(v: Seq<TensorInfoView>, n: int) -> int
    decreases n,
{
    if n <= 0 {
        0
    } else if small(v[n - 1]) {
        small_bytes(v, n - 1) + v[n - 1].bytes()
    } else {
        small_bytes(v, n - 1)
    }
}

pub open spec fn at_most_max(n: int) -> int {
    if n <= u64::MAX {
        n
    } else {
        u64::MAX as int
    }
}

/// Which tensors are kept in memory. Too many bytes of them are refused with their
/// number: a checkpoint that wants that was left dense, and will not fit.
pub fn resident(h: &Header, file_len: u64) -> (r: Result<Vec<usize>, u64>)
    requires
        all_in_bounds(h@, file_len as int),
    ensures
        match r {
            Ok(v) => {
                &&& v@ == small_at(h@.tensors, h@.tensors.len() as int)
                &&& small_bytes(h@.tensors, h@.tensors.len() as int) <= MAX_RESIDENT_BYTES
            },
            Err(n) => {
                &&& n == at_most_max(small_bytes(h@.tensors, h@.tensors.len() as int))
                &&& n > MAX_RESIDENT_BYTES
            },
        },
{
    let ghost all = h@.tensors;
    let n: usize = h.tensors.len();
    let mut v: Vec<usize> = Vec::new();
    let mut sum: u64 = 0;
    let mut i: usize = 0;
    assert(v@ =~= small_at(all, 0));
    while i < n
        invariant
            i <= n,
            n == h.tensors@.len(),
            all == h@.tensors,
            all_in_bounds(h@, file_len as int),
            v@ == small_at(all, i as int),
            sum == at_most_max(small_bytes(all, i as int)),
            0 <= small_bytes(all, i as int),
        decreases n - i,
    {
        let t = &h.tensors[i];
        assert(all[i as int] == t@);
        if !t.ty.is_quantized() && t.ty != GgmlType::BF16 {
            v.push(i);
            sum = sum.saturating_add(t.byte_len() as u64);
        }
        i = i + 1;
    }
    if sum > MAX_RESIDENT_BYTES {
        return Err(sum);
    }
    Ok(v)
}

// ---------------------------------------------------------------------------
// A conversation
// ---------------------------------------------------------------------------
/// A loaded model and the conversation in front of it.
pub struct Session {
    pub engine: Engine,
    pub sampling: Sampling,
    pub history: Vec<Turn>,
}

/// What was said, by the ids that were generated.
pub open spec fn content_of(tok: Tokenizer, format: ChatFormat, ids: Seq<u32>) -> Seq<char> {
    match format {
        ChatFormat::Gemma4(sp) => chat::said_from(tok, sp, ids, 0, nothing_said()).tidy().content,
        ChatFormat::Qwen35(sp) => qwen::said_from(
            tok,
            sp,
            ids,
            0,
            false,
            nothing_said(),
        ).tidy().content,
    }
}

impl Session {
    pub open spec fn wf(&self) -> bool {
        self.engine.wf()
    }

    /// Nothing said yet.
    pub fn new(engine: Engine, sampling: Sampling) -> (s: Session)
        requires
            engine.wf(),
        ensures
            s.wf(),
            s.engine == engine,
            s.sampling == sampling,
            turn_views(s.history@) == Seq::<TurnView>::empty(),
    {
        let s = Session { engine, sampling, history: Vec::new() };
        assert(turn_views(s.history@) =~= Seq::empty());
        s
    }

    /// How many turns the conversation has.
    pub fn turns(&self) -> (n: usize)
        ensures
            n == turn_views(self.history@).len(),
    {
        self.history.len()
    }

    /// Forget the conversation, and overwrite the resident ids. The backend is to be
    /// wiped with it.
    pub fn wipe(&mut self)
        requires
            old(self).wf(),
        ensures
            final(self).wf(),
            final(self).engine.same_model(old(self).engine),
            final(self).sampling == old(self).sampling,
            final(self).engine.held().cached == Seq::<u32>::empty(),
            final(self).engine.held().resident == Seq::<u32>::empty(),
            final(self).engine.cached.cells@ == blank::<u32>(
                old(self).engine.cached.cells@.len(),
            ),
            turn_views(final(self).history@) == Seq::<TurnView>::empty(),
    {
        self.engine.wipe();
        self.history = Vec::new();
        assert(turn_views(self.history@) =~= Seq::empty());
    }

    /// Start an answer to `text`. Where the conversation does not fit the context, it
    /// stays as it was.
    pub fn begin(&mut self, text: String, max_tokens: usize) -> (r: Result<
        (Run, Ask),
        EngineError,
    >)
        requires
            old(self).wf(),
        ensures
            final(self).wf(),
            final(self).engine.same_model(old(self).engine),
            final(self).sampling == old(self).sampling,
            ({
                let asked = said(turn_views(old(self).history@), Role::User, text@);
                let req = request_of(asked, old(self).sampling, max_tokens as int);
                let ids = crate::engine::prompt_of(old(self).engine.tok, old(self).engine.chat, req);
                match r {
                    Ok((run, ask)) => {
                        let n = started(old(self).engine, old(self).engine.held(), req);
                        &&& ids.len() + 8 < old(self).engine.context_len
                        &&& turn_views(final(self).history@) == asked
                        &&& run.wf()
                        &&& final(self).engine.held() == n.held
                        &&& run@ == n.run
                        &&& ask@ == n.ask
                        &&& if n.run.at == 0 {
                            final(self).engine.cached.cells@ == blank::<u32>(
                                old(self).engine.cached.cells@.len(),
                            )
                        } else {
                            final(self).engine.cached == old(self).engine.cached
                        }
                    },
                    Err(EngineError::PromptTooLong { tokens, context }) => {
                        &&& tokens == ids.len()
                        &&& tokens + 8 >= old(self).engine.context_len
                        &&& context == old(self).engine.context_len
                        &&& turn_views(final(self).history@) == turn_views(old(self).history@)
                        &&& final(self).engine == old(self).engine
                    },
                }
            }),
    {
        let ghost before = turn_views(self.history@);
        talk::push(&mut self.history, Role::User, text);
        let req = talk::request(&self.history, self.sampling, max_tokens);
        match self.engine.start(req) {
            Ok(x) => Ok(x),
            Err(e) => {
                self.fail();
                assert(turn_views(self.history@) =~= before);
                Err(e)
            },
        }
    }

    /// The answer is complete, or was asked to stop: what was said, without any
    /// thoughts. It is kept, and the text that the run gathered is overwritten.
    pub fn finish(&mut self, run: &mut Run) -> (r: String)
        requires
            old(self).wf(),
            old(run).wf(),
        ensures
            r@ == content_of(old(self).engine.tok, old(self).engine.chat, old(run).generated@),
            final(run).gone(*old(run)),
            final(run).wf(),
            final(run)@ == (RunView { text: Seq::empty(), phase: Phase::Over, ..old(run)@ }),
            final(self).engine == old(self).engine,
            final(self).sampling == old(self).sampling,
            turn_views(final(self).history@) == said(
                turn_views(old(self).history@),
                Role::Assistant,
                r@,
            ),
    {
        let c = match &self.engine.chat {
            ChatFormat::Gemma4(sp) => chat::parse_completion(
                &self.engine.tok,
                sp,
                run.generated.as_slice(),
            ),
            ChatFormat::Qwen35(sp) => qwen::parse_completion(
                &self.engine.tok,
                sp,
                run.generated.as_slice(),
                false,
            ),
        };
        run.end();
        let r = c.content;
        talk::push(&mut self.history, Role::Assistant, r.as_str().to_owned());
        r
    }

    /// The answer failed. The question is not kept: the next prompt would replay it.
    pub fn fail(&mut self)
        ensures
            turn_views(final(self).history@) == (if old(self).history@.len() > 0 {
                turn_views(old(self).history@).drop_last()
            } else {
                Seq::empty()
            }),
            final(self).engine == old(self).engine,
            final(self).sampling == old(self).sampling,
    {
        let ghost all = turn_views(self.history@);
        let last = self.history.pop();
        if last.is_some() {
            assert(turn_views(self.history@) =~= all.drop_last());
        }
    }
}

/// One line about what is loaded.
pub open spec fn info_line(
    adapter: Seq<char>,
    summary: Seq<char>,
    gigabytes: Seq<char>,
    context: nat,
) -> Seq<char> {
    adapter + crate::window::DOT@ + summary + crate::window::DOT@ + gigabytes
        + " GB of weights resident"@ + crate::window::DOT@ + "context "@ + crate::text::decimal(
        context,
    )
}

impl Session {
    /// One line about what is loaded. The gigabytes come with two decimals.
    pub fn info(&self, adapter: &str, summary: &str, gigabytes: &str) -> (r: String)
        ensures
            r@ == info_line(adapter@, summary@, gigabytes@, self.engine.context_len as nat),
    {
        let mut s = adapter.to_owned();
        s.push_str(crate::window::DOT);
        s.push_str(summary);
        s.push_str(crate::window::DOT);
        s.push_str(gigabytes);
        s.push_str(" GB of weights resident");
        s.push_str(crate::window::DOT);
        s.push_str("context ");
        s.push_str(crate::text::decimal_string(self.engine.context_len as u64).as_str());
        s
    }
}

} // verus!
