//! The queue of merge candidates: the best-ranked pair comes out first, and of
//! equally ranked ones the left-most.

use vstd::multiset::Multiset;
use vstd::prelude::*;

verus! {

/// A pair of adjacent symbols that a merge applies to.
#[derive(Debug, Clone, Copy, PartialEq, Eq, Structural)]
pub struct Bigram {
    pub rank: u32,
    pub left: usize,
    pub right: usize,
    pub left_id: u32,
    pub right_id: u32,
    pub merged: u32,
}

/// `a` comes out no later than `b`.
pub open spec fn precedes(a: Bigram, b: Bigram) -> bool {
    a.rank < b.rank || a.rank == b.rank && a.left <= b.left
}

fn comes_first(a: &Bigram, b: &Bigram) -> (r: bool)
    ensures
        r == precedes(*a, *b),
{
    a.rank < b.rank || a.rank == b.rank && a.left <= b.left
}

/// A binary heap.
pub struct Heap {
    items: Vec<Bigram>,
}

/// The parent of node `i`.
pub open spec fn parent(i: int) -> int {
    (i - 1) / 2
}

/// No node comes out before its parent.
pub open spec fn ordered(s: Seq<Bigram>) -> bool {
    forall|i: int| 0 < i < s.len() ==> precedes(s[parent(i)], #[trigger] s[i])
}

/// Ordered but for node `hole` and its parent.
pub open spec fn ordered_below(s: Seq<Bigram>, hole: int) -> bool {
    &&& forall|i: int| 0 < i < s.len() && i != hole ==> precedes(s[parent(i)], #[trigger] s[i])
    &&& forall|i: int|
        0 < i < s.len() && parent(i) == hole && hole > 0 ==> precedes(
            s[parent(hole)],
            #[trigger] s[i],
        )
}

/// Ordered but for node `hole` and its children.
pub open spec fn ordered_above(s: Seq<Bigram>, hole: int) -> bool {
    &&& forall|i: int|
        0 < i < s.len() && parent(i) != hole ==> precedes(s[parent(i)], #[trigger] s[i])
    &&& forall|i: int|
        0 < i < s.len() && parent(i) == hole && hole > 0 ==> precedes(
            s[parent(hole)],
            #[trigger] s[i],
        )
}

proof fn lemma_update(s: Seq<Bigram>, i: int, x: Bigram)
    requires
        0 <= i < s.len(),
    ensures
        s.update(i, x).to_multiset() == s.to_multiset().remove(s[i]).insert(x),
{
    vstd::seq_lib::to_multiset_remove(s, i);
    vstd::seq_lib::to_multiset_insert(s.remove(i), i, x);
    assert(s.remove(i).insert(i, x) =~= s.update(i, x));
}

proof fn lemma_swap(s: Seq<Bigram>, i: int, j: int)
    requires
        0 <= i < s.len(),
        0 <= j < s.len(),
    ensures
        s.update(i, s[j]).update(j, s[i]).to_multiset() == s.to_multiset(),
{
    broadcast use vstd::seq_lib::group_to_multiset_ensures;

    lemma_update(s, i, s[j]);
    lemma_update(s.update(i, s[j]), j, s[i]);
    assert(s.contains(s[i]) && s.contains(s[j]));
    assert(s.update(i, s[j]).update(j, s[i]).to_multiset() =~= s.to_multiset());
}

/// The root comes out before every node.
proof fn lemma_root(s: Seq<Bigram>, i: int)
    requires
        ordered(s),
        0 <= i < s.len(),
    ensures
        precedes(s[0], s[i]),
    decreases i,
{
    if i > 0 {
        lemma_root(s, parent(i));
        assert(precedes(s[parent(i)], s[i]));
    }
}

impl View for Heap {
    type V = Multiset<Bigram>;

    closed spec fn view(&self) -> Multiset<Bigram> {
        self.items@.to_multiset()
    }
}

impl Heap {
    pub closed spec fn wf(&self) -> bool {
        ordered(self.items@)
    }

    pub fn new() -> (h: Heap)
        ensures
            h.wf(),
            h@ == Multiset::<Bigram>::empty(),
    {
        let h = Heap { items: Vec::new() };
        proof {
            broadcast use vstd::seq_lib::group_to_multiset_ensures;

            assert(h@ =~= Multiset::<Bigram>::empty());
        }
        h
    }

    /// Add a pair.
    pub fn push(&mut self, x: Bigram)
        requires
            old(self).wf(),
        ensures
            final(self).wf(),
            final(self)@ == old(self)@.insert(x),
    {
        let ghost before = self.items@;
        self.items.push(x);
        proof {
            vstd::seq_lib::to_multiset_build(before, x);
        }
        let ghost all = self.items@.to_multiset();
        let mut i: usize = self.items.len() - 1;
        while i > 0 && !comes_first(&self.items[(i - 1) / 2], &self.items[i])
            invariant
                i < self.items@.len(),
                ordered_below(self.items@, i as int),
                self.items@.to_multiset() == all,
            decreases i,
        {
            let p: usize = (i - 1) / 2;
            let ghost s = self.items@;
            let a = self.items[p];
            let b = self.items[i];
            self.items[p] = b;
            self.items[i] = a;
            proof {
                lemma_swap(s, p as int, i as int);
                assert(self.items@ =~= s.update(p as int, s[i as int]).update(
                    i as int,
                    s[p as int],
                ));
                let t = self.items@;
                assert forall|k: int| 0 < k < t.len() && k != p implies precedes(
                    t[parent(k)],
                    #[trigger] t[k],
                ) by {
                    if k == i {
                    } else if parent(k) == i {
                        assert(precedes(s[p as int], s[k]));
                    } else if parent(k) == p {
                        assert(precedes(s[p as int], s[k]));
                    } else {
                        assert(precedes(s[parent(k)], s[k]));
                    }
                }
                assert forall|k: int|
                    0 < k < t.len() && parent(k) == p && p > 0 implies precedes(
                    t[parent(p as int)],
                    #[trigger] t[k],
                ) by {
                    assert(precedes(s[parent(p as int)], s[p as int]));
                    if k != i {
                        assert(precedes(s[p as int], s[k]));
                    }
                }
            }
            i = p;
        }
        assert(ordered(self.items@));
    }

    /// Take out the pair that comes first.
    pub fn pop(&mut self) -> (r: Option<Bigram>)
        requires
            old(self).wf(),
        ensures
            final(self).wf(),
            match r {
                None => old(self)@.len() == 0 && final(self)@ == old(self)@,
                Some(x) => {
                    &&& old(self)@.count(x) > 0
                    &&& forall|y: Bigram| #[trigger] old(self)@.count(y) > 0 ==> precedes(x, y)
                    &&& final(self)@ == old(self)@.remove(x)
                },
            },
    {
        broadcast use vstd::seq_lib::group_to_multiset_ensures;

        let ghost before = self.items@;
        let n: usize = self.items.len();
        if n == 0 {
            return None;
        }
        let x = self.items[0];
        proof {
            assert(before.contains(before[0]));
            assert forall|y: Bigram| #[trigger] old(self)@.count(y) > 0 implies precedes(x, y) by {
                assert(before.contains(y));
                let k = choose|k: int| 0 <= k < before.len() && before[k] == y;
                lemma_root(before, k);
            }
        }
        let last = self.items[n - 1];
        self.items.pop();
        proof {
            assert(self.items@ =~= before.remove(n - 1));
            vstd::seq_lib::to_multiset_remove(before, n - 1);
        }
        if n == 1 {
            return Some(x);
        }
        let ghost mid = self.items@;
        self.items[0] = last;
        proof {
            lemma_update(mid, 0, last);
            assert(mid.contains(mid[0]));
            assert(before.contains(before[n - 1]));
            assert(self.items@.to_multiset() =~= old(self)@.remove(x));
            let t = self.items@;
            assert forall|k: int| 0 < k < t.len() && parent(k) != 0 implies precedes(
                t[parent(k)],
                #[trigger] t[k],
            ) by {
                assert(precedes(before[parent(k)], before[k]));
            }
        }
        self.sift_down();
        Some(x)
    }

    /// Let the root sink to where it belongs.
    fn sift_down(&mut self)
        requires
            old(self).items@.len() > 0,
            ordered_above(old(self).items@, 0),
        ensures
            final(self).wf(),
            final(self)@ == old(self)@,
    {
        let ghost all = self.items@.to_multiset();
        let n: usize = self.items.len();
        let mut i: usize = 0;
        loop
            invariant
                n == self.items@.len(),
                i < n,
                ordered_above(self.items@, i as int),
                self.items@.to_multiset() == all,
                all == old(self)@,
            decreases n - i,
        {
            let ghost s = self.items@;
            if i >= n / 2 {
                assert(ordered(s)) by {
                    assert forall|k: int| 0 < k < s.len() implies precedes(
                        s[parent(k)],
                        #[trigger] s[k],
                    ) by {
                        assert(parent(k) != i);
                    }
                }
                return;
            }
            let l: usize = 2 * i + 1;
            let r: usize = l + 1;
            let c: usize = if r < n && comes_first(&self.items[r], &self.items[l]) {
                r
            } else {
                l
            };
            if comes_first(&self.items[i], &self.items[c]) {
                assert(ordered(s)) by {
                    assert forall|k: int| 0 < k < s.len() implies precedes(
                        s[parent(k)],
                        #[trigger] s[k],
                    ) by {
                        if parent(k) == i {
                            assert(k == l || k == r);
                        }
                    }
                }
                return;
            }
            let a = self.items[i];
            let b = self.items[c];
            self.items[i] = b;
            self.items[c] = a;
            proof {
                lemma_swap(s, i as int, c as int);
                assert(self.items@ =~= s.update(i as int, s[c as int]).update(
                    c as int,
                    s[i as int],
                ));
                let t = self.items@;
                assert forall|k: int| 0 < k < t.len() && parent(k) != c implies precedes(
                    t[parent(k)],
                    #[trigger] t[k],
                ) by {
                    if parent(k) == i {
                        assert(k == l || k == r);
                    } else if k == i {
                        assert(precedes(s[parent(i as int)], s[c as int]));
                    } else {
                        assert(precedes(s[parent(k)], s[k]));
                    }
                }
                assert forall|k: int|
                    0 < k < t.len() && parent(k) == c && c > 0 implies precedes(
                    t[parent(c as int)],
                    #[trigger] t[k],
                ) by {
                    assert(parent(c as int) == i);
                    assert(precedes(s[parent(k)], s[k]));
                }
            }
            i = c;
        }
    }
}

} // verus!
