//! Token sampling.
//!
//! Defaults come from the checkpoint's own metadata rather than from convention.
//! Numbers are held as the bits of IEEE floating-point numbers: the choices here,
//! of an order among logits, of which of them take part and of random bits, are
//! choices on bits. What weighs the candidates against each other is arithmetic,
//! and the caller's.

use crate::config::value_or;
use crate::gguf::{FloatBits, VANISHING};
use crate::header::{meta_float, meta_u64, Header, HeaderView};
use vstd::prelude::*;

verus! {

#[derive(Debug, Clone, Copy, PartialEq, Eq, Structural)]
pub struct Sampling {
    pub temperature: FloatBits,
    pub top_k: usize,
    pub top_p: FloatBits,
    /// Penalty applied to tokens in the recent window; one disables it.
    pub repeat_penalty: FloatBits,
    pub repeat_window: usize,
    pub seed: u64,
}

/// One, in single precision.
pub const ONE: u32 = 0x3F80_0000;

/// 0.95, in single precision.
pub const NINETY_FIVE: u32 = 0x3F73_3333;

pub open spec fn default_sampling() -> Sampling {
    Sampling {
        temperature: FloatBits::Single(ONE),
        top_k: 64,
        top_p: FloatBits::Single(NINETY_FIVE),
        repeat_penalty: FloatBits::Single(ONE),
        repeat_window: 64,
        seed: 0,
    }
}

impl Default for Sampling {
    fn default() -> (r: Sampling)
        ensures
            r == default_sampling(),
    {
        Sampling {
            temperature: FloatBits::Single(ONE),
            top_k: 64,
            top_p: FloatBits::Single(NINETY_FIVE),
            repeat_penalty: FloatBits::Single(ONE),
            repeat_window: 64,
            seed: 0,
        }
    }
}

/// Zero or less as a single, and a number. A double may be above zero and still round
/// to it.
pub open spec fn at_most_zero(f: FloatBits) -> bool {
    match f {
        FloatBits::Single(b) => b == 0 || 0x8000_0000 <= b <= 0xFF80_0000,
        FloatBits::Double(b) => b <= VANISHING || 0x8000_0000_0000_0000 <= b
            <= 0xFFF0_0000_0000_0000,
    }
}

/// What a file asks for.
pub open spec fn sampling_of(h: HeaderView) -> Sampling {
    let d = default_sampling();
    Sampling {
        temperature: value_or(meta_float(h, "general.sampling.temp"@), d.temperature),
        top_k: match meta_u64(h, "general.sampling.top_k"@) {
            Ok(k) => k as usize,
            Err(_) => d.top_k,
        },
        top_p: value_or(meta_float(h, "general.sampling.top_p"@), d.top_p),
        ..d
    }
}

impl Sampling {
    pub fn from_gguf(h: &Header) -> (r: Sampling)
        ensures
            r == sampling_of(h@),
    {
        let d = Sampling::default();
        let temperature = match h.float("general.sampling.temp") {
            Ok(t) => t,
            Err(_) => d.temperature,
        };
        let top_k: usize = match h.u64("general.sampling.top_k") {
            Ok(k) => k as usize,
            Err(_) => d.top_k,
        };
        let top_p = match h.float("general.sampling.top_p") {
            Ok(p) => p,
            Err(_) => d.top_p,
        };
        Sampling { temperature, top_k, top_p, ..d }
    }

    pub fn is_greedy(&self) -> (r: bool)
        ensures
            r == at_most_zero(self.temperature),
    {
        match self.temperature {
            FloatBits::Single(b) => b == 0 || (0x8000_0000 <= b && b <= 0xFF80_0000),
            FloatBits::Double(b) => b <= VANISHING || (0x8000_0000_0000_0000 <= b && b
                <= 0xFFF0_0000_0000_0000),
        }
    }
}

// ---------------------------------------------------------------------------
// Random bits
// ---------------------------------------------------------------------------
/// xorshift64*, so that a run is reproducible from its seed.
#[derive(Debug, Clone, Copy)]
pub struct Rng {
    pub state: u64,
}

/// The state a seed starts from.
pub open spec fn seeded(seed: u64) -> u64 {
    seed.wrapping_mul(0x9E37_79B9_7F4A_7C15u64) | 1
}

/// The state behind a state.
pub open spec fn shifted(x: u64) -> u64 {
    let a = x ^ (x >> 12);
    let b = a ^ (a << 25);
    b ^ (b >> 27)
}

/// The bits that a state puts out: the top 24 of its product.
pub open spec fn drawn(x: u64) -> u64 {
    x.wrapping_mul(0x2545_F491_4F6C_DD1Du64) >> 40
}

impl Rng {
    /// Zero would be a fixed point.
    pub open spec fn wf(&self) -> bool {
        self.state != 0
    }

    pub fn new(seed: u64) -> (r: Rng)
        ensures
            r.state == seeded(seed),
            r.wf(),
    {
        let x: u64 = seed.wrapping_mul(0x9E37_79B9_7F4A_7C15u64);
        assert(x | 1 != 0) by (bit_vector);
        Rng { state: x | 1 }
    }

    /// The next 24 random bits. Over `2^24` they are a uniform value in `[0, 1)`.
    pub fn next_bits(&mut self) -> (r: u32)
        requires
            old(self).wf(),
        ensures
            final(self).wf(),
            final(self).state == shifted(old(self).state),
            r == drawn(shifted(old(self).state)),
            r < 0x100_0000,
    {
        let x: u64 = self.state;
        let a: u64 = x ^ (x >> 12);
        let b: u64 = a ^ (a << 25);
        let c: u64 = b ^ (b >> 27);
        proof {
            never_stuck(x);
        }
        self.state = c;
        let m: u64 = c.wrapping_mul(0x2545_F491_4F6C_DD1Du64);
        assert(m >> 40 < 0x100_0000) by (bit_vector);
        (m >> 40) as u32
    }
}

/// A state other than zero is followed by one.
pub proof fn never_stuck(x: u64)
    requires
        x != 0,
    ensures
        shifted(x) != 0,
{
    assert((x ^ (x >> 12)) == 0 ==> x == 0) by (bit_vector);
    let a = x ^ (x >> 12);
    assert((a ^ (a << 25)) == 0 ==> a == 0) by (bit_vector);
    let b = a ^ (a << 25);
    assert((b ^ (b >> 27)) == 0 ==> b == 0) by (bit_vector);
}

// ---------------------------------------------------------------------------
// Candidates
// ---------------------------------------------------------------------------
/// A rank for the bits of a single-precision number: the total order, in which
/// negative numbers come first, the largest magnitude before all.
pub open spec fn rank(b: u32) -> int {
    if b < 0x8000_0000 {
        b as int
    } else {
        0x7FFF_FFFF - b
    }
}

/// Neither infinite nor a NaN.
pub open spec fn finite(b: u32) -> bool {
    b % 0x8000_0000 < 0x7F80_0000
}

fn rank_of(b: u32) -> (r: i64)
    ensures
        r == rank(b),
{
    if b < 0x8000_0000 {
        b as i64
    } else {
        0x7FFF_FFFF - b as i64
    }
}

/// The position of the last of the greatest.
pub open spec fn is_argmax(v: Seq<u32>, i: int) -> bool {
    &&& 0 <= i < v.len()
    &&& forall|j: int| 0 <= j < v.len() ==> rank(#[trigger] v[j]) <= rank(v[i])
    &&& forall|j: int| i < j < v.len() ==> rank(#[trigger] v[j]) < rank(v[i])
}

/// The position of the greatest logit, the last of them where several are; 0 where
/// there are none.
pub fn argmax(v: &[u32]) -> (r: u32)
    requires
        v@.len() <= u32::MAX,
    ensures
        v@.len() == 0 ==> r == 0,
        v@.len() > 0 ==> is_argmax(v@, r as int),
{
    let n: usize = v.len();
    let mut best: usize = 0;
    let mut i: usize = 1;
    while i < n
        invariant
            n == v@.len(),
            n <= u32::MAX,
            1 <= i,
            n == 0 || i <= n,
            n > 0 ==> best < i,
            n == 0 ==> best == 0,
            forall|j: int| 0 <= j < i && j < n ==> rank(#[trigger] v@[j]) <= rank(v@[best as int]),
            forall|j: int|
                best < j < i && j < n ==> rank(#[trigger] v@[j]) < rank(v@[best as int]),
        decreases n - i,
    {
        if rank_of(v[i]) >= rank_of(v[best]) {
            best = i;
        }
        i = i + 1;
    }
    best as u32
}

/// A token and its logit.
#[derive(Debug, Clone, Copy, PartialEq, Eq, Structural)]
pub struct Candidate {
    pub id: u32,
    pub logit: u32,
}

/// `c` is a token of these logits that can be picked at all.
pub open spec fn stands(logits: Seq<u32>, c: Candidate) -> bool {
    &&& c.id < logits.len()
    &&& c.logit == logits[c.id as int]
    &&& finite(c.logit)
}

/// Best first.
pub open spec fn descending(v: Seq<Candidate>) -> bool {
    forall|i: int, j: int|
        0 <= i < j < v.len() ==> rank((#[trigger] v[i]).logit) >= rank((#[trigger] v[j]).logit)
}

/// No token twice.
pub open spec fn distinct(v: Seq<Candidate>) -> bool {
    forall|i: int, j: int| 0 <= i < j < v.len() ==> (#[trigger] v[i]).id != (#[trigger] v[j]).id
}

/// `id` is among the candidates.
pub open spec fn includes(v: Seq<Candidate>, id: int) -> bool {
    exists|i: int| 0 <= i < v.len() && (#[trigger] v[i]).id == id
}

/// The best of the first `n` logits, at most `k` of them: all stand, and whichever
/// is left out is no better than any of them.
pub open spec fn is_top(logits: Seq<u32>, k: int, n: int, v: Seq<Candidate>) -> bool {
    &&& v.len() <= k
    &&& descending(v)
    &&& distinct(v)
    &&& forall|i: int| 0 <= i < v.len() ==> stands(logits, #[trigger] v[i]) && v[i].id < n
    &&& forall|t: int|
        0 <= t < n && finite(#[trigger] logits[t]) && !includes(v, t) ==> v.len() == k && rank(
            logits[t],
        ) <= rank(v[k - 1].logit)
}

/// Put `c` in its place, and drop the last if there are too many.
fn place(v: &mut Vec<Candidate>, c: Candidate, k: usize)
    requires
        descending(old(v)@),
        old(v)@.len() <= k,
        0 < k,
    ensures
        descending(final(v)@),
        old(v)@.len() < k ==> exists|p: int| #[trigger]
            placed_at(old(v)@, final(v)@, c, p),
        old(v)@.len() == k ==> (final(v)@ == old(v)@ && rank(c.logit) <= rank(
            old(v)@[k - 1].logit,
        )) || exists|p: int, w: Seq<Candidate>| #[trigger]
            placed_at(old(v)@, w, c, p) && p < k && final(v)@ == w.take(k as int),
{
    let n: usize = v.len();
    let mut p: usize = n;
    while p > 0 && rank_of(v[p - 1].logit) < rank_of(c.logit)
        invariant
            p <= n,
            n == v@.len(),
            v@ == old(v)@,
            forall|j: int| p <= j < n ==> rank((#[trigger] v@[j]).logit) < rank(c.logit),
        decreases p,
    {
        p = p - 1;
    }
    if n == k && p == n {
        return;
    }
    let ghost before = v@;
    v.insert(p, c);
    let ghost w = v@;
    proof {
        assert(placed_at(before, w, c, p as int));
        lemma_placed(before, w, c, p as int);
    }
    if n == k {
        let last = v.pop();
        assert(v@ =~= w.take(k as int));
        assert(descending(v@)) by {
            assert forall|i: int, j: int| 0 <= i < j < v@.len() implies rank(
                (#[trigger] v@[i]).logit,
            ) >= rank((#[trigger] v@[j]).logit) by {
                assert(v@[i] == w[i]);
                assert(v@[j] == w[j]);
            }
        }
    }
}

/// `w` is `v` with `c` at `p`, behind everything that is as good.
pub open spec fn placed_at(
    v: Seq<Candidate>,
    w: Seq<Candidate>,
    c: Candidate,
    p: int,
) -> bool {
    &&& 0 <= p <= v.len()
    &&& w == v.insert(p, c)
    &&& p > 0 ==> rank(v[p - 1].logit) >= rank(c.logit)
    &&& forall|j: int| p <= j < v.len() ==> rank((#[trigger] v[j]).logit) < rank(c.logit)
}

proof fn lemma_placed(v: Seq<Candidate>, w: Seq<Candidate>, c: Candidate, p: int)
    requires
        descending(v),
        placed_at(v, w, c, p),
    ensures
        descending(w),
{
    assert forall|i: int, j: int| 0 <= i < j < w.len() implies rank((#[trigger] w[i]).logit)
        >= rank((#[trigger] w[j]).logit) by {
        let vi = if i < p {
            v[i]
        } else {
            v[i - 1]
        };
        let vj = if j < p {
            v[j]
        } else {
            v[j - 1]
        };
        if i == p {
            assert(w[j] == v[j - 1]);
        } else if j == p {
            assert(w[i] == v[i]);
            if i < p - 1 {
                assert(rank(v[i].logit) >= rank(v[p - 1].logit));
            }
        } else {
            assert(w[i] == vi);
            assert(w[j] == vj);
        }
    }
}

/// Nothing that was left out before, or falls out now, is better than what stays.
proof fn lemma_step(
    logits: Seq<u32>,
    k: int,
    n: int,
    v: Seq<Candidate>,
    w: Seq<Candidate>,
    c: Candidate,
    p: int,
    out: Seq<Candidate>,
)
    requires
        0 < k,
        0 <= n < logits.len() <= u32::MAX,
        is_top(logits, k, n, v),
        c == (Candidate { id: n as u32, logit: logits[n] }),
        finite(c.logit),
        placed_at(v, w, c, p),
        v.len() < k ==> out == w,
        v.len() == k ==> p < k && out == w.take(k),
    ensures
        is_top(logits, k, n + 1, out),
{
    lemma_placed(v, w, c, p);
    assert forall|i: int| 0 <= i < out.len() implies stands(logits, #[trigger] out[i])
        && out[i].id < n + 1 by {
        assert(out[i] == w[i]);
        if i < p {
            assert(w[i] == v[i]);
        } else if i > p {
            assert(w[i] == v[i - 1]);
        }
    }
    assert(descending(out)) by {
        assert forall|i: int, j: int| 0 <= i < j < out.len() implies rank(
            (#[trigger] out[i]).logit,
        ) >= rank((#[trigger] out[j]).logit) by {
            assert(out[i] == w[i]);
            assert(out[j] == w[j]);
        }
    }
    assert(distinct(out)) by {
        assert forall|i: int, j: int| 0 <= i < j < out.len() implies (#[trigger] out[i]).id != (
        #[trigger] out[j]).id by {
            assert(out[i] == w[i]);
            assert(out[j] == w[j]);
            let vi = if i < p {
                i
            } else {
                i - 1
            };
            let vj = if j < p {
                j
            } else {
                j - 1
            };
            if i != p && j != p {
                assert(w[i] == v[vi]);
                assert(w[j] == v[vj]);
            } else if i == p {
                assert(w[j] == v[vj]);
                assert(v[vj].id < n);
            } else {
                assert(w[i] == v[vi]);
                assert(v[vi].id < n);
            }
        }
    }
    assert forall|t: int|
        0 <= t < n + 1 && finite(#[trigger] logits[t]) && !includes(out, t) implies out.len() == k
        && rank(logits[t]) <= rank(out[k - 1].logit) by {
        if t == n {
            assert(out[p] == c);
            assert(includes(out, t));
        } else if includes(v, t) {
            let i = choose|i: int| 0 <= i < v.len() && (#[trigger] v[i]).id == t;
            let at = if i < p {
                i
            } else {
                i + 1
            };
            assert(w[at] == v[i]);
            if at < out.len() {
                assert(out[at] == w[at]);
                assert(includes(out, t));
            }
            assert(at == k);
            assert(out[k - 1] == w[k - 1]);
            assert(rank(w[k - 1].logit) >= rank(w[k].logit));
        } else {
            assert(v.len() == k);
            assert(rank(logits[t]) <= rank(v[k - 1].logit));
            assert(out[k - 1] == w[k - 1]);
            if p == k - 1 {
                assert(rank(v[k - 1].logit) < rank(c.logit));
                assert(w[k - 1] == c);
            } else {
                assert(w[k - 1] == v[k - 2]);
            }
        }
    }
}

/// The best `k` finite logits, best first. Which of several equal ones take part
/// is left open.
pub fn top_candidates(logits: &[u32], k: usize) -> (v: Vec<Candidate>)
    requires
        logits@.len() <= u32::MAX,
        0 < k,
    ensures
        is_top(logits@, k as int, logits@.len() as int, v@),
{
    let n: usize = logits.len();
    let mut v: Vec<Candidate> = Vec::new();
    let mut i: usize = 0;
    while i < n
        invariant
            i <= n,
            n == logits@.len(),
            n <= u32::MAX,
            0 < k,
            is_top(logits@, k as int, i as int, v@),
        decreases n - i,
    {
        let b: u32 = logits[i];
        let ghost before = v@;
        if b % 0x8000_0000 < 0x7F80_0000 {
            let c = Candidate { id: i as u32, logit: b };
            place(&mut v, c, k);
            proof {
                if before.len() < k {
                    let p = choose|p: int| #[trigger] placed_at(before, v@, c, p);
                    lemma_step(logits@, k as int, i as int, before, v@, c, p, v@);
                } else if v@ != before || rank(c.logit) > rank(before[k - 1].logit) {
                    let (p, w) = choose|p: int, w: Seq<Candidate>| #[trigger]
                        placed_at(before, w, c, p) && p < k && v@ == w.take(k as int);
                    lemma_step(logits@, k as int, i as int, before, w, c, p, v@);
                } else {
                    lemma_kept(logits@, k as int, i as int, v@);
                }
            }
        } else {
            proof {
                lemma_passed(logits@, k as int, i as int, v@);
            }
        }
        i = i + 1;
    }
    v
}

proof fn lemma_kept(logits: Seq<u32>, k: int, n: int, v: Seq<Candidate>)
    requires
        0 < k,
        0 <= n < logits.len(),
        is_top(logits, k, n, v),
        v.len() == k,
        rank(logits[n]) <= rank(v[k - 1].logit),
    ensures
        is_top(logits, k, n + 1, v),
{
    assert forall|i: int| 0 <= i < v.len() implies stands(logits, #[trigger] v[i]) && v[i].id < n
        + 1 by {}
}

proof fn lemma_passed(logits: Seq<u32>, k: int, n: int, v: Seq<Candidate>)
    requires
        0 < k,
        0 <= n < logits.len(),
        is_top(logits, k, n, v),
        !finite(logits[n]),
    ensures
        is_top(logits, k, n + 1, v),
{
    assert forall|i: int| 0 <= i < v.len() implies stands(logits, #[trigger] v[i]) && v[i].id < n
        + 1 by {}
}

/// The tokens to penalize, in order and as often as they occur: those of the
/// recent window that have a logit.
pub open spec fn repeats(recent: Seq<u32>, window: int, vocab: int) -> Seq<u32> {
    let start = if recent.len() < window {
        0
    } else {
        recent.len() - window
    };
    recent.skip(start).filter(|t: u32| t < vocab)
}

pub fn penalized(recent: &[u32], window: usize, vocab: usize) -> (r: Vec<u32>)
    ensures
        r@ == repeats(recent@, window as int, vocab as int),
{
    let n: usize = recent.len();
    let start: usize = if n < window { 0 } else { n - window };
    let ghost tail = recent@.skip(start as int);
    let ghost keep = |t: u32| t < vocab;
    let mut r: Vec<u32> = Vec::new();
    let mut i: usize = start;
    assert(tail.take(0) =~= Seq::empty());
    proof {
        reveal(Seq::filter);
    }
    while i < n
        invariant
            start <= i <= n,
            n == recent@.len(),
            tail == recent@.skip(start as int),
            keep == (|t: u32| t < vocab),
            r@ == tail.take(i - start).filter(keep),
        decreases n - i,
    {
        proof {
            let next = tail.take(i - start + 1);
            assert(next.drop_last() =~= tail.take(i - start));
            assert(next.last() == recent@[i as int]);
            reveal(Seq::filter);
        }
        let t: u32 = recent[i];
        if (t as usize) < vocab {
            r.push(t);
        }
        i = i + 1;
    }
    assert(tail.take(n - start) =~= tail);
    r
}

// ---------------------------------------------------------------------------
// Sampler
// ---------------------------------------------------------------------------
/// How the next token is found.
#[derive(Debug)]
pub enum Choice {
    /// It is this one.
    Take(u32),
    /// It is drawn from these, best first, with 24 random bits.
    Draw { candidates: Vec<Candidate>, dice: u32 },
}

#[derive(Debug)]
pub struct Sampler {
    pub cfg: Sampling,
    pub rng: Rng,
}

/// How many candidates take part.
pub open spec fn width_of(top_k: usize, len: int) -> int {
    if top_k < 1 {
        1
    } else if top_k > len {
        len
    } else {
        top_k as int
    }
}

impl Sampler {
    pub open spec fn wf(&self) -> bool {
        self.rng.wf()
    }

    pub fn new(cfg: Sampling) -> (s: Sampler)
        ensures
            s.wf(),
            s.cfg == cfg,
            s.rng.state == seeded(cfg.seed),
    {
        Sampler { rng: Rng::new(cfg.seed), cfg }
    }

    pub fn config(&self) -> (r: &Sampling)
        ensures
            *r == self.cfg,
    {
        &self.cfg
    }

    /// Narrow the next token down, by logits that the repetition penalty has been
    /// applied to. Without temperature, and where no logit is finite, it is the
    /// greatest; otherwise it is drawn from the best. Random bits are only used up by
    /// a draw.
    pub fn sample(&mut self, logits: &[u32]) -> (r: Choice)
        requires
            old(self).wf(),
            logits@.len() <= u32::MAX,
            0 < logits@.len() || at_most_zero(old(self).cfg.temperature),
        ensures
            final(self).wf(),
            final(self).cfg == old(self).cfg,
            match r {
                Choice::Take(id) => {
                    &&& if logits@.len() > 0 {
                        is_argmax(logits@, id as int)
                    } else {
                        id == 0
                    }
                    &&& at_most_zero(old(self).cfg.temperature) || forall|i: int|
                        0 <= i < logits@.len() ==> !finite(#[trigger] logits@[i])
                    &&& final(self).rng == old(self).rng
                },
                Choice::Draw { candidates, dice } => {
                    &&& !at_most_zero(old(self).cfg.temperature)
                    &&& 0 < candidates@.len()
                    &&& is_top(
                        logits@,
                        width_of(old(self).cfg.top_k, logits@.len() as int),
                        logits@.len() as int,
                        candidates@,
                    )
                    &&& 1 <= old(self).cfg.top_k <= numbered(logits@).len() ==> candidates@.len()
                        == old(self).cfg.top_k
                    &&& numbered(logits@).len() <= old(self).cfg.top_k ==> candidates@.len()
                        == numbered(logits@).len()
                    &&& final(self).rng.state == shifted(old(self).rng.state)
                    &&& dice == drawn(shifted(old(self).rng.state))
                },
            },
    {
        if self.cfg.is_greedy() {
            return Choice::Take(argmax(logits));
        }
        let n: usize = logits.len();
        let k: usize = if self.cfg.top_k < 1 {
            1
        } else if self.cfg.top_k > n {
            n
        } else {
            self.cfg.top_k
        };
        let candidates = top_candidates(logits, k);
        if candidates.len() == 0 {
            assert forall|i: int| 0 <= i < logits@.len() implies !finite(#[trigger] logits@[i]) by {
                assert(!includes(candidates@, i));
            }
            return Choice::Take(argmax(logits));
        }
        proof {
            a_draw_is_among_the_best(logits@, self.cfg.top_k, candidates@);
        }
        let dice: u32 = self.rng.next_bits();
        Choice::Draw { candidates, dice }
    }
}

/// The tokens whose logits are numbers: the eight bits of the exponent are not all set.
pub open spec fn numbered(logits: Seq<u32>) -> Set<int> {
    Set::new(|t: int| 0 <= t < logits.len() && logits[t] / 0x80_0000 % 0x100 != 0xFF)
}

/// The bits `a` stand for no greater a number than the bits `b`: of two numbers above
/// zero the one with fewer bits is smaller, of two below zero the one with more, and
/// what is below zero is smaller than what is not.
pub open spec fn not_above(a: u32, b: u32) -> bool {
    if a < 0x8000_0000 {
        a <= b < 0x8000_0000
    } else {
        b < 0x8000_0000 || b <= a
    }
}

proof fn lemma_finite(b: u32)
    ensures
        finite(b) == (b / 0x80_0000 % 0x100 != 0xFF),
{
    let e = b as int / 0x80_0000;
    let m = b as int % 0x80_0000;
    assert(b == e * 0x80_0000 + m && 0 <= m < 0x80_0000 && 0 <= e < 0x200);
    assert(e % 0x100 == if e < 0x100 {
        e
    } else {
        e - 0x100
    });
    assert(b as int % 0x8000_0000 == (e % 0x100) * 0x80_0000 + m);
}

proof fn lemma_rank(a: u32, b: u32)
    ensures
        (rank(a) <= rank(b)) == not_above(a, b),
        rank(a) == rank(b) ==> a == b,
{
}

/// A draw is among as many tokens as the limit says, at least one, or as many as have
/// numbers for logits; none of them twice, each with its own logit, and no token that is
/// left out has a greater one.
pub proof fn a_draw_is_among_the_best(logits: Seq<u32>, top_k: usize, v: Seq<Candidate>)
    requires
        0 < logits.len() <= u32::MAX,
        is_top(logits, width_of(top_k, logits.len() as int), logits.len() as int, v),
    ensures
        numbered(logits).finite(),
        top_k <= 1 && 0 < numbered(logits).len() ==> v.len() == 1,
        1 <= top_k <= numbered(logits).len() ==> v.len() == top_k,
        numbered(logits).len() <= top_k ==> v.len() == numbered(logits).len(),
        forall|i: int|
            0 <= i < v.len() ==> numbered(logits).contains((#[trigger] v[i]).id as int)
                && v[i].logit == logits[v[i].id as int],
        forall|i: int, j: int|
            0 <= i < j < v.len() ==> (#[trigger] v[i]).id != (#[trigger] v[j]).id && not_above(
                v[j].logit,
                v[i].logit,
            ),
        forall|i: int, t: int|
            #![trigger v[i], logits[t]]
            0 <= i < v.len() && numbered(logits).contains(t) && (forall|j: int|
                0 <= j < v.len() ==> (#[trigger] v[j]).id != t) ==> not_above(
                logits[t],
                v[i].logit,
            ),
{
    let n = logits.len() as int;
    let k = width_of(top_k, n);
    let all = numbered(logits);
    let ids = v.map_values(|c: Candidate| c.id as int);
    vstd::set_lib::lemma_int_range(0, n);
    assert(all.subset_of(vstd::set_lib::set_int_range(0, n)));
    vstd::set_lib::lemma_len_subset(all, vstd::set_lib::set_int_range(0, n));
    assert(ids.no_duplicates()) by {
        assert forall|i: int, j: int| 0 <= i < j < ids.len() implies ids[i] != ids[j] by {
            assert(v[i].id != v[j].id);
        }
    }
    ids.unique_seq_to_set();
    assert forall|i: int| 0 <= i < v.len() implies all.contains((#[trigger] v[i]).id as int)
        && v[i].logit == logits[v[i].id as int] by {
        assert(stands(logits, v[i]));
        lemma_finite(v[i].logit);
    }
    assert forall|i: int, j: int| 0 <= i < j < v.len() implies (#[trigger] v[i]).id != (
    #[trigger] v[j]).id && not_above(v[j].logit, v[i].logit) by {
        lemma_rank(v[j].logit, v[i].logit);
    }
    assert(ids.to_set().subset_of(all)) by {
        assert forall|t: int| ids.to_set().contains(t) implies all.contains(t) by {
            let i = choose|i: int| 0 <= i < ids.len() && ids[i] == t;
            assert(v[i].id == t);
        }
    }
    vstd::set_lib::lemma_len_subset(ids.to_set(), all);
    if v.len() < k {
        assert(all.subset_of(ids.to_set())) by {
            assert forall|t: int| all.contains(t) implies ids.to_set().contains(t) by {
                lemma_finite(logits[t]);
                assert(includes(v, t));
                let i = choose|i: int| 0 <= i < v.len() && (#[trigger] v[i]).id == t;
                assert(ids[i] == t);
                assert(ids.contains(t));
            }
        }
        assert(all =~= ids.to_set());
    }
    assert forall|i: int, t: int|
        #![trigger v[i], logits[t]]
        0 <= i < v.len() && all.contains(t) && (forall|j: int|
            0 <= j < v.len() ==> (#[trigger] v[j]).id != t) implies not_above(
        logits[t],
        v[i].logit,
    ) by {
        lemma_finite(logits[t]);
        assert(!includes(v, t));
        assert(rank(logits[t]) <= rank(v[k - 1].logit));
        if i < k - 1 {
            assert(rank(v[i].logit) >= rank(v[k - 1].logit));
        }
        lemma_rank(logits[t], v[i].logit);
    }
}

/// The token that is taken without a draw has the greatest logit, and no token behind it
/// has the same.
pub proof fn the_greatest_is_taken(v: Seq<u32>, i: int)
    requires
        is_argmax(v, i),
    ensures
        0 <= i < v.len(),
        forall|j: int| 0 <= j < v.len() ==> not_above(#[trigger] v[j], v[i]),
        forall|j: int| i < j < v.len() ==> (#[trigger] v[j]) != v[i],
{
    assert forall|j: int| 0 <= j < v.len() implies not_above(#[trigger] v[j], v[i]) by {
        lemma_rank(v[j], v[i]);
    }
}

/// The penalty falls on the window and on all of it: whatever came before the last
/// `window` tokens is passed over, and each token of the window that is in the
/// vocabulary is named as often as it stands there, in order.
pub proof fn the_penalty_falls_on_the_window(before: Seq<u32>, tail: Seq<u32>, vocab: int)
    ensures
        repeats(before + tail, tail.len() as int, vocab) == tail.filter(|t: u32| t < vocab),
        forall|window: int|
            window >= tail.len() ==> #[trigger] repeats(tail, window, vocab) == tail.filter(
                |t: u32| t < vocab,
            ),
{
    assert((before + tail).skip(before.len() as int) =~= tail);
    assert(tail.skip(0) =~= tail);
}

/// The bits of a single that is neither zero, nor subnormal, nor out of range, as a
/// double of the same value.
pub open spec fn widened(b: u32) -> u64 {
    let (sign, e, m) = (b / 0x8000_0000, b / 0x80_0000 % 0x100, b % 0x80_0000);
    (sign * 0x8000_0000_0000_0000 + (e + 896) * 0x10_0000_0000_0000 + m * 0x2000_0000) as u64
}

/// Without temperature means: of a single, that its bits are those of no greater a
/// number than zero, and not those of no number at all; of a double, the same as of the
/// single of its value.
pub proof fn greedy_means_no_temperature(b: u32)
    ensures
        at_most_zero(FloatBits::Single(b)) == (not_above(b, 0) && b % 0x8000_0000 <= 0x7F80_0000),
        0 < b / 0x80_0000 % 0x100 < 0xFF ==> at_most_zero(FloatBits::Double(widened(b)))
            == at_most_zero(FloatBits::Single(b)) && FloatBits::Double(widened(b)).positive()
            == FloatBits::Single(b).positive(),
        at_most_zero(FloatBits::Double(0)) && at_most_zero(
            FloatBits::Double(0x8000_0000_0000_0000),
        ),
        FloatBits::Single(b).positive() == (0 < b <= 0x7F80_0000),
{
    let e = b as int / 0x80_0000 % 0x100;
    let m = b as int % 0x80_0000;
    let sign = b as int / 0x8000_0000;
    if 0 < e < 0xFF {
        lemma_finite(b);
        assert(b as int == sign * 0x8000_0000 + b as int % 0x8000_0000);
        let w = sign * 0x8000_0000_0000_0000 + (e + 896) * 0x10_0000_0000_0000 + m * 0x2000_0000;
        assert(0 <= sign <= 1);
        assert(widened(b) == w as u64);
    }
}

/// A token without a finite logit is never drawn.
pub proof fn suppressed_tokens_are_never_drawn(
    logits: Seq<u32>,
    k: int,
    candidates: Seq<Candidate>,
    id: int,
)
    requires
        is_top(logits, k, logits.len() as int, candidates),
        0 <= id < logits.len(),
        !finite(logits[id]),
    ensures
        !includes(candidates, id),
{
    if includes(candidates, id) {
        let i = choose|i: int| 0 <= i < candidates.len() && (#[trigger] candidates[i]).id == id;
        assert(stands(logits, candidates[i]));
    }
}

} // verus!
