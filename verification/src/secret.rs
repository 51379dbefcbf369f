//! Memory that leaves nothing behind.
//!
//! A buffer here is overwritten in full before it is let go of or used again: a
//! shorter conversation never leaves the tail of a longer one behind it. Keeping
//! the pages out of swap, and zeroing what the allocator takes back, is up to the
//! program around the library.

use crate::text;
use vstd::arithmetic::power2::{lemma_pow2_unfold, pow2};
use vstd::prelude::*;
use vstd::utf8::{decode_utf8, encode_utf8, valid_utf8};

verus! {

/// A type with a value of all zero bits.
pub trait Zero: Copy {
    spec fn none() -> Self;

    fn zero() -> (r: Self)
        ensures
            r == Self::none(),
    ;
}

impl Zero for u8 {
    open spec fn none() -> u8 {
        0
    }

    fn zero() -> (r: u8) {
        0
    }
}

impl Zero for u32 {
    open spec fn none() -> u32 {
        0
    }

    fn zero() -> (r: u32) {
        0
    }
}

/// Nothing but zeros.
pub open spec fn blank<T: Zero>(n: nat) -> Seq<T> {
    Seq::new(n, |i: int| T::none())
}

/// Overwrite a slice in place.
pub fn zero_slice<T: Zero>(s: &mut [T])
    ensures
        final(s)@ == blank::<T>(old(s)@.len()),
{
    let n: usize = s.len();
    let mut i: usize = 0;
    while i < n
        invariant
            i <= n,
            n == s@.len(),
            s@.len() == old(s)@.len(),
            forall|j: int| 0 <= j < i ==> s@[j] == T::none(),
        decreases n - i,
    {
        s[i] = T::zero();
        i = i + 1;
    }
    assert(s@ =~= blank::<T>(old(s)@.len()));
}

/// Overwrite a buffer in place.
pub fn zero_vec<T: Zero>(v: &mut Vec<T>)
    ensures
        final(v)@ == blank::<T>(old(v)@.len()),
{
    zero_slice(v.as_mut_slice());
}

/// The smallest power of two that is at least `need`, and not below a floor of
/// 1024.
pub open spec fn is_capacity(cap: int, need: int) -> bool {
    &&& need <= cap
    &&& 1024 <= cap
    &&& cap == 1024 || exists|k: nat| cap == 2 * #[trigger] pow2(k) && pow2(k) < need
    &&& exists|k: nat| cap == #[trigger] pow2(k)
}

/// The capacity for `need` items.
fn capacity_for(need: usize) -> (cap: usize)
    requires
        need <= usize::MAX / 2 + 1,
    ensures
        is_capacity(cap as int, need as int),
{
    let mut cap: usize = 1024;
    let ghost mut k: nat = 10;
    proof {
        vstd::arithmetic::power2::lemma2_to64();
    }
    while cap < need
        invariant
            need <= usize::MAX / 2 + 1,
            1024 <= cap,
            cap == pow2(k),
            k >= 10,
            cap == 1024 || exists|j: nat| cap == 2 * #[trigger] pow2(j) && pow2(j) < need,
        decreases 2 * need - cap,
    {
        proof {
            lemma_pow2_unfold(k + 1);
            assert(cap * 2 == 2 * pow2(k));
            k = k + 1;
        }
        cap = cap * 2;
    }
    cap
}

/// A growable buffer that is overwritten before it is released.
///
/// Used for the state that lives longest: the resident prompt token ids, which are
/// kept between turns so that prefix reuse works, and which decode losslessly back
/// to the conversation.
pub struct SecretVec<T: Zero> {
    /// The whole allocation, of which the first `len` are in use.
    pub cells: Vec<T>,
    pub len: usize,
}

impl<T: Zero> View for SecretVec<T> {
    type V = Seq<T>;

    open spec fn view(&self) -> Seq<T> {
        self.cells@.take(self.len as int)
    }
}

impl<T: Zero> SecretVec<T> {
    /// The cells behind those in use hold nothing: no conversation shows through behind
    /// a shorter one.
    pub open spec fn wf(&self) -> bool {
        &&& self.len <= self.cells@.len()
        &&& forall|i: int|
            self.len <= i < self.cells@.len() ==> #[trigger] self.cells@[i] == T::none()
    }

    pub fn new() -> (r: Self)
        ensures
            r.wf(),
            r@ == Seq::<T>::empty(),
            r.cells@.len() == 0,
    {
        let r = SecretVec { cells: Vec::new(), len: 0 };
        assert(r@ =~= Seq::empty());
        r
    }

    /// Make room for `need` items. What was there is overwritten once it has been
    /// copied.
    fn grow(&mut self, need: usize)
        requires
            old(self).wf(),
            need <= usize::MAX / 2 + 1,
        ensures
            final(self).wf(),
            final(self)@ == old(self)@,
            final(self).len == old(self).len,
            need <= old(self).cells@.len() ==> final(self).cells@ == old(self).cells@,
            need > old(self).cells@.len() ==> is_capacity(
                final(self).cells@.len() as int,
                need as int,
            ) && final(self).cells@ == old(self)@ + blank::<T>(
                (final(self).cells@.len() - old(self).len) as nat,
            ),
    {
        if need <= self.cells.len() {
            return;
        }
        let cap: usize = capacity_for(need);
        let len: usize = self.len;
        // All at once: a block that grew would leave its smaller ones behind.
        let mut cells: Vec<T> = Vec::with_capacity(cap);
        let mut i: usize = 0;
        while i < cap
            invariant
                i <= cap,
                len == self.len,
                len < need <= cap || len <= cap,
                self.wf(),
                self.cells@ == old(self).cells@,
                cells@.len() == i,
                forall|j: int| 0 <= j < i && j < len ==> cells@[j] == self.cells@[j],
                forall|j: int| len <= j < i ==> cells@[j] == T::none(),
            decreases cap - i,
        {
            let x: T = if i < len { self.cells[i] } else { T::zero() };
            cells.push(x);
            i = i + 1;
        }
        zero_vec(&mut self.cells);
        self.cells = cells;
        assert(self@ =~= old(self)@);
        assert(self.cells@ =~= old(self)@ + blank::<T>((cap - len) as nat));
    }

    /// Make room for `more` items behind those in use. A need beyond the largest
    /// power of two has no capacity, and changes nothing.
    fn reserve(&mut self, more: usize)
        requires
            old(self).wf(),
        ensures
            final(self).wf(),
            final(self)@ == old(self)@,
            final(self).len == old(self).len,
            ({
                let need = old(self).len + more;
                if old(self).cells@.len() < need <= usize::MAX / 2 + 1 {
                    is_capacity(final(self).cells@.len() as int, need) && final(self).cells@ == old(
                        self,
                    )@ + blank::<T>((final(self).cells@.len() - old(self).len) as nat)
                } else {
                    final(self).cells@ == old(self).cells@
                }
            }),
    {
        let top: usize = usize::MAX / 2 + 1;
        if self.len <= top && more <= top - self.len {
            self.grow(self.len + more);
        }
    }

    /// Put `v` behind the items in use.
    fn append(&mut self, v: T)
        requires
            old(self).wf(),
        ensures
            final(self).wf(),
            final(self)@ == old(self)@.push(v),
            final(self).len == old(self).len + 1,
            old(self).len < old(self).cells@.len() ==> final(self).cells@
                == old(self).cells@.update(old(self).len as int, v),
    {
        let len: usize = self.len;
        let cap: usize = self.cells.len();
        if len < cap {
            self.cells.set(len, v);
            self.len = len + 1;
        } else {
            self.cells.push(v);
            self.len = self.cells.len();
        }
        assert(self@ =~= old(self)@.push(v));
    }

    pub fn push(&mut self, v: T)
        requires
            old(self).wf(),
        ensures
            final(self).wf(),
            final(self)@ == old(self)@.push(v),
            forall|i: int|
                final(self).len <= i < final(self).cells@.len() ==> #[trigger] final(self).cells@[i]
                    == T::none(),
    {
        self.reserve(1);
        self.append(v);
    }

    pub fn extend_from_slice(&mut self, s: &[T])
        requires
            old(self).wf(),
        ensures
            final(self).wf(),
            final(self)@ == old(self)@ + s@,
            forall|i: int|
                final(self).len <= i < final(self).cells@.len() ==> #[trigger] final(self).cells@[i]
                    == T::none(),
    {
        let n: usize = s.len();
        self.reserve(n);
        let ghost start = self@;
        let mut i: usize = 0;
        assert(start + s@.take(0) =~= start);
        while i < n
            invariant
                i <= n,
                n == s@.len(),
                self.wf(),
                self@ == start + s@.take(i as int),
            decreases n - i,
        {
            self.append(s[i]);
            i = i + 1;
            assert(self@ =~= start + s@.take(i as int));
        }
        assert(s@.take(n as int) =~= s@);
    }

    /// Wipe whatever is here and take `s` instead.
    pub fn replace(&mut self, s: &[T])
        requires
            old(self).wf(),
        ensures
            final(self).wf(),
            final(self)@ == s@,
            forall|i: int|
                s@.len() <= i < final(self).cells@.len() ==> #[trigger] final(self).cells@[i]
                    == T::none(),
    {
        self.wipe();
        self.extend_from_slice(s);
        assert(Seq::<T>::empty() + s@ =~= s@);
    }

    /// Overwrite the whole allocation, not just the live prefix: a shorter prompt
    /// must not leave the tail of a longer one behind it.
    pub fn wipe(&mut self)
        requires
            old(self).wf(),
        ensures
            final(self).wf(),
            final(self)@ == Seq::<T>::empty(),
            final(self).cells@ == blank::<T>(old(self).cells@.len()),
    {
        zero_vec(&mut self.cells);
        self.len = 0;
        assert(self@ =~= Seq::empty());
    }

    pub fn len(&self) -> (r: usize)
        requires
            self.wf(),
        ensures
            r == self@.len(),
    {
        self.len
    }

    pub fn is_empty(&self) -> (r: bool)
        requires
            self.wf(),
        ensures
            r == (self@.len() == 0),
    {
        self.len == 0
    }

    pub fn as_slice(&self) -> (r: &[T])
        requires
            self.wf(),
        ensures
            r@ == self@,
    {
        let r = vstd::slice::slice_subrange(self.cells.as_slice(), 0, self.len);
        assert(r@ =~= self@);
        r
    }
}

/// A self-zeroing string, for accumulating generated text.
pub struct SecretString {
    pub bytes: SecretVec<u8>,
}

impl View for SecretString {
    type V = Seq<char>;

    open spec fn view(&self) -> Seq<char> {
        decode_utf8(self.bytes@)
    }
}

impl SecretString {
    /// Only ever fed whole strings, so the bytes stay well formed.
    pub open spec fn wf(&self) -> bool {
        self.bytes.wf() && valid_utf8(self.bytes@)
    }

    pub fn new() -> (r: Self)
        ensures
            r.wf(),
            r@ == Seq::<char>::empty(),
    {
        let r = SecretString { bytes: SecretVec::new() };
        assert(r@ =~= Seq::empty());
        r
    }

    pub fn push_str(&mut self, s: &str)
        requires
            old(self).wf(),
        ensures
            final(self).wf(),
            final(self)@ == old(self)@ + s@,
            final(self).bytes@ == old(self).bytes@ + encode_utf8(s@),
    {
        self.bytes.extend_from_slice(s.as_bytes());
        proof {
            let b = encode_utf8(s@);
            vstd::utf8::encode_utf8_valid_utf8(s@);
            vstd::utf8::encode_utf8_decode_utf8(s@);
            vstd::utf8::valid_utf8_concat(old(self).bytes@, b);
            crate::tokenizer::roundtrip::lemma_prefix_of_concat(old(self).bytes@, b);
        }
    }

    pub fn as_str(&self) -> (r: &str)
        requires
            self.wf(),
        ensures
            r@ == self@,
    {
        match text::utf8(self.bytes.as_slice()) {
            Ok(s) => s,
            Err(_) => "",
        }
    }

    pub fn contains(&self, needle: &str) -> (r: bool)
        requires
            self.wf(),
        ensures
            r == (text::find_at(self@, 0, needle@) is Some),
    {
        let c = text::chars_of(self.as_str());
        text::find_from(c.as_slice(), 0, needle).is_some()
    }

    pub fn wipe(&mut self)
        requires
            old(self).wf(),
        ensures
            final(self).wf(),
            final(self)@ == Seq::<char>::empty(),
            final(self).bytes.cells@ == blank::<u8>(old(self).bytes.cells@.len()),
    {
        self.bytes.wipe();
        assert(self@ =~= Seq::empty());
    }

    pub fn len(&self) -> (r: usize)
        requires
            self.wf(),
        ensures
            r == self.bytes@.len(),
    {
        self.bytes.len()
    }

    pub fn is_empty(&self) -> (r: bool)
        requires
            self.wf(),
        ensures
            r == (self.bytes@.len() == 0),
    {
        self.bytes.is_empty()
    }
}

} // verus!
