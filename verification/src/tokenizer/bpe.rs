//! Rank-ordered merging: the best-ranked adjacent pair is merged first, and of
//! equally ranked ones the left-most, until no pair of the table is left.

use crate::tokenizer::heap::{precedes, Bigram, Heap};
use std::collections::HashMap;
use vstd::multiset::Multiset;
use vstd::prelude::*;

verus! {

broadcast use vstd::std_specs::hash::group_hash_axioms;

/// A pair of token ids as one number.
pub open spec fn pair_key(l: u32, r: u32) -> u64 {
    (l * 0x1_0000_0000 + r) as u64
}

pub fn key_of(l: u32, r: u32) -> (k: u64)
    ensures
        k == pair_key(l, r),
{
    l as u64 * 0x1_0000_0000 + r as u64
}

/// Different pairs have different numbers.
pub proof fn pair_keys_differ(l: u32, r: u32, l2: u32, r2: u32)
    requires
        pair_key(l, r) == pair_key(l2, r2),
    ensures
        l == l2 && r == r2,
{
}

/// The rank of a pair and what it merges to.
#[derive(Debug, Clone, Copy, PartialEq, Eq, Structural)]
pub struct Merge {
    pub rank: u32,
    pub to: u32,
}

/// The merges, by pair.
pub type Merges = Map<u64, Merge>;

/// A symbol: the token it stands for, if any, and the character it began with.
#[verifier::ext_equal]
pub ghost struct Symbol {
    pub id: Option<u32>,
    pub c: char,
}

/// The table's entry for the pair at `k`.
pub open spec fn merge_of(m: Merges, s: Seq<Symbol>, k: int) -> Option<Merge> {
    if 0 <= k && k + 1 < s.len() && s[k].id is Some && s[k + 1].id is Some && m.contains_key(
        pair_key(s[k].id->0, s[k + 1].id->0),
    ) {
        Some(m[pair_key(s[k].id->0, s[k + 1].id->0)])
    } else {
        None
    }
}

/// The best pair among the first `n` positions.
pub open spec fn best_to(m: Merges, s: Seq<Symbol>, n: int) -> Option<int>
    decreases n,
{
    if n <= 0 {
        None
    } else {
        let b = best_to(m, s, n - 1);
        match merge_of(m, s, n - 1) {
            None => b,
            Some(e) => if b is Some && merge_of(m, s, b->0)->0.rank <= e.rank {
                b
            } else {
                Some(n - 1)
            },
        }
    }
}

/// The pair to merge next.
pub open spec fn best(m: Merges, s: Seq<Symbol>) -> Option<int> {
    best_to(m, s, s.len() - 1)
}

/// The pair at `k` is of the table, no pair has a better rank, and none further
/// left an equal one.
pub open spec fn is_best(m: Merges, s: Seq<Symbol>, k: int) -> bool {
    &&& merge_of(m, s, k) is Some
    &&& forall|j: int|
        (#[trigger] merge_of(m, s, j)) is Some ==> merge_of(m, s, k)->0.rank < merge_of(m, s, j)->0.rank
            || merge_of(m, s, k)->0.rank == merge_of(m, s, j)->0.rank && k <= j
}

proof fn lemma_best_to(m: Merges, s: Seq<Symbol>, n: int)
    ensures
        match best_to(m, s, n) {
            Some(k) => {
                &&& 0 <= k < n
                &&& merge_of(m, s, k) is Some
                &&& forall|j: int|
                    0 <= j < n && (#[trigger] merge_of(m, s, j)) is Some ==> merge_of(
                        m,
                        s,
                        k,
                    )->0.rank < merge_of(m, s, j)->0.rank || merge_of(m, s, k)->0.rank == merge_of(
                        m,
                        s,
                        j,
                    )->0.rank && k <= j
            },
            None => forall|j: int| 0 <= j < n ==> (#[trigger] merge_of(m, s, j)) is None,
        },
    decreases n,
{
    if n > 0 {
        lemma_best_to(m, s, n - 1);
    }
}

/// The pair merged next is the one that no pair comes before.
pub proof fn best_is_best(m: Merges, s: Seq<Symbol>, k: int)
    ensures
        best(m, s) == Some(k) <==> is_best(m, s, k),
        best(m, s) is None <==> forall|j: int| (#[trigger] merge_of(m, s, j)) is None,
{
    lemma_best_to(m, s, s.len() - 1);
    if is_best(m, s, k) {
        assert(merge_of(m, s, k) is Some);
        let b = best(m, s)->0;
        assert(merge_of(m, s, b) is Some);
    }
}

/// The symbols with the pair at `k` merged.
pub open spec fn merged_at(m: Merges, s: Seq<Symbol>, k: int) -> Seq<Symbol> {
    s.update(k, Symbol { id: Some(merge_of(m, s, k)->0.to), c: s[k].c }).remove(k + 1)
}

/// All merges, in order.
pub open spec fn bpe(m: Merges, s: Seq<Symbol>) -> Seq<Symbol>
    decreases s.len(),
    via bpe_decreases
{
    match best(m, s) {
        None => s,
        Some(k) => bpe(m, merged_at(m, s, k)),
    }
}

#[via_fn]
proof fn bpe_decreases(m: Merges, s: Seq<Symbol>) {
    lemma_best_to(m, s, s.len() - 1);
}

// ---------------------------------------------------------------------------
// Merging in place
// ---------------------------------------------------------------------------
/// No neighbour.
pub const END: usize = usize::MAX;

#[derive(Debug, Clone, Copy)]
pub struct Sym {
    pub id: Option<u32>,
    pub c: char,
    pub prev: usize,
    pub next: usize,
    pub alive: bool,
}

/// The neighbours of the symbol at position `i` are its neighbours in `order`.
pub open spec fn links_at(v: Seq<Sym>, order: Seq<int>, i: int) -> bool {
    &&& v[order[i]].next == (if i + 1 < order.len() {
        order[i + 1]
    } else {
        END as int
    })
    &&& v[order[i]].prev == (if i > 0 {
        order[i - 1]
    } else {
        END as int
    })
}

/// `order` lists symbols in order, starting with the first.
pub open spec fn ascending(n: int, order: Seq<int>) -> bool {
    &&& 0 < order.len()
    &&& order[0] == 0
    &&& forall|i: int| 0 <= i < order.len() ==> 0 <= #[trigger] order[i] < n
    &&& forall|i: int, j: int| 0 <= i < j < order.len() ==> #[trigger] order[i] < #[trigger] order[j]
}

/// `order` lists the symbols that are alive, in order, and the links agree.
#[verifier::opaque]
pub open spec fn linked(v: Seq<Sym>, order: Seq<int>) -> bool {
    &&& ascending(v.len() as int, order)
    &&& forall|x: int| 0 <= x < v.len() ==> ((#[trigger] v[x]).alive <==> order.contains(x))
    &&& forall|i: int| 0 <= i < order.len() ==> #[trigger] links_at(v, order, i)
}

/// The symbols that are alive.
pub open spec fn current(v: Seq<Sym>, order: Seq<int>) -> Seq<Symbol> {
    Seq::new(order.len(), |i: int| Symbol { id: v[order[i]].id, c: v[order[i]].c })
}

/// The candidate for the pair at `k`.
pub open spec fn candidate(m: Merges, v: Seq<Sym>, order: Seq<int>, k: int) -> Bigram {
    let s = current(v, order);
    let e = merge_of(m, s, k)->0;
    Bigram {
        rank: e.rank,
        left: order[k] as usize,
        right: order[k + 1] as usize,
        left_id: s[k].id->0,
        right_id: s[k + 1].id->0,
        merged: e.to,
    }
}

/// A candidate that was one at some time: its entry is the table's.
pub open spec fn from_table(m: Merges, n: int, e: Bigram) -> bool {
    &&& e.left < n
    &&& e.right < n
    &&& m.contains_key(pair_key(e.left_id, e.right_id))
    &&& m[pair_key(e.left_id, e.right_id)] == (Merge { rank: e.rank, to: e.merged })
}

/// Every pair of the table is queued.
pub open spec fn queued(m: Merges, v: Seq<Sym>, order: Seq<int>, h: Multiset<Bigram>) -> bool {
    &&& forall|e: Bigram| #[trigger] h.count(e) > 0 ==> from_table(m, v.len() as int, e)
    &&& forall|k: int|
        (#[trigger] merge_of(m, current(v, order), k)) is Some ==> h.count(
            candidate(m, v, order, k),
        ) > 0
}

/// Whether the pair is still there as it was.
pub open spec fn fresh(v: Seq<Sym>, e: Bigram) -> bool {
    &&& v[e.left as int].alive
    &&& v[e.right as int].alive
    &&& v[e.left as int].next == e.right
    &&& v[e.left as int].id == Some(e.left_id)
    &&& v[e.right as int].id == Some(e.right_id)
}

fn is_id(id: Option<u32>, want: u32) -> (r: bool)
    ensures
        r == (id == Some(want)),
{
    match id {
        Some(x) => x == want,
        None => false,
    }
}

/// Queue the pair of symbols `l` and `r` where the table has it.
fn push_bigram(
    merges: &HashMap<u64, Merge>,
    syms: &Vec<Sym>,
    l: usize,
    r: usize,
    heap: &mut Heap,
)
    requires
        old(heap).wf(),
        l < syms@.len(),
        r < syms@.len(),
    ensures
        final(heap).wf(),
        ({
            let (a, b) = (syms@[l as int].id, syms@[r as int].id);
            if a is Some && b is Some && merges@.contains_key(pair_key(a->0, b->0)) {
                let e = merges@[pair_key(a->0, b->0)];
                final(heap)@ == old(heap)@.insert(
                    Bigram {
                        rank: e.rank,
                        left: l,
                        right: r,
                        left_id: a->0,
                        right_id: b->0,
                        merged: e.to,
                    },
                )
            } else {
                final(heap)@ == old(heap)@
            }
        }),
{
    let li: u32 = match syms[l].id {
        Some(x) => x,
        None => {
            return;
        },
    };
    let ri: u32 = match syms[r].id {
        Some(x) => x,
        None => {
            return;
        },
    };
    match merges.get(&key_of(li, ri)) {
        Some(e) => {
            heap.push(
                Bigram {
                    rank: e.rank,
                    left: l,
                    right: r,
                    left_id: li,
                    right_id: ri,
                    merged: e.to,
                },
            );
        },
        None => {},
    }
}

proof fn lemma_position(order: Seq<int>, x: int) -> (k: int)
    requires
        order.contains(x),
    ensures
        0 <= k < order.len(),
        order[k] == x,
{
    choose|k: int| 0 <= k < order.len() && order[k] == x
}

/// A fresh pair stands at some position, with the table's entry.
proof fn lemma_fresh(m: Merges, v: Seq<Sym>, order: Seq<int>, e: Bigram) -> (k: int)
    requires
        linked(v, order),
        from_table(m, v.len() as int, e),
        fresh(v, e),
        v.len() <= usize::MAX,
    ensures
        0 <= k,
        k + 1 < order.len(),
        order[k] == e.left,
        order[k + 1] == e.right,
        merge_of(m, current(v, order), k) == Some(Merge { rank: e.rank, to: e.merged }),
        candidate(m, v, order, k) == e,
{
    reveal(linked);
    let k = lemma_position(order, e.left as int);
    assert(links_at(v, order, k));
    k
}

/// A pair of the table is fresh.
proof fn lemma_current_is_fresh(m: Merges, v: Seq<Sym>, order: Seq<int>, k: int)
    requires
        linked(v, order),
        v.len() <= usize::MAX,
        merge_of(m, current(v, order), k) is Some,
    ensures
        fresh(v, candidate(m, v, order, k)),
{
    reveal(linked);
    assert(order.contains(order[k]) && order.contains(order[k + 1]));
    assert(links_at(v, order, k));
}

/// What the links around a pair are.
proof fn lemma_around(v: Seq<Sym>, order: Seq<int>, k: int)
    requires
        linked(v, order),
        0 <= k,
        k + 1 < order.len(),
    ensures
        0 <= order[k] < order[k + 1] < v.len(),
        ascending(v.len() as int, order),
        v[order[k + 1]].next == (if k + 2 < order.len() {
            order[k + 2]
        } else {
            END as int
        }),
        k + 2 < order.len() ==> order[k + 1] < order[k + 2] < v.len(),
        v[order[k]].prev == (if k > 0 {
            order[k - 1]
        } else {
            END as int
        }),
        k > 0 ==> 0 <= order[k - 1] < order[k],
{
    reveal(linked);
    assert(links_at(v, order, k) && links_at(v, order, k + 1));
}

/// `w` is `v` after the merge of the pair at `k`.
pub open spec fn did_merge(
    m: Merges,
    v: Seq<Sym>,
    order: Seq<int>,
    k: int,
    w: Seq<Sym>,
) -> bool {
    let (l, r) = (order[k], order[k + 1]);
    let nxt = v[r].next;
    &&& w.len() == v.len()
    &&& w[l] == (Sym { id: Some(merge_of(m, current(v, order), k)->0.to), next: nxt, ..v[l] })
    &&& w[r] == (Sym { alive: false, ..v[r] })
    &&& nxt != END ==> w[nxt as int] == (Sym { prev: l as usize, ..v[nxt as int] })
    &&& forall|x: int|
        0 <= x < v.len() && x != l && x != r && x != nxt ==> #[trigger] w[x] == v[x]
}

/// The position in `order` of position `i` of `order` without `k + 1`.
pub open spec fn shifted(i: int, k: int) -> int {
    if i <= k {
        i
    } else {
        i + 1
    }
}

proof fn lemma_removed(n: int, order: Seq<int>, k: int)
    requires
        ascending(n, order),
        0 <= k,
        k + 1 < order.len(),
    ensures
        ascending(n, order.remove(k + 1)),
        forall|i: int|
            0 <= i < order.len() - 1 ==> #[trigger] order.remove(k + 1)[i] == order[shifted(i, k)],
{
    let o = order.remove(k + 1);
    assert forall|i: int, j: int| 0 <= i < j < o.len() implies #[trigger] o[i] < #[trigger] o[j] by {
        assert(order[shifted(i, k)] < order[shifted(j, k)]);
    }
}

/// What a merge leaves at each position.
proof fn lemma_left_at(
    m: Merges,
    v: Seq<Sym>,
    order: Seq<int>,
    k: int,
    w: Seq<Sym>,
    i: int,
)
    requires
        linked(v, order),
        0 <= k,
        k + 1 < order.len(),
        did_merge(m, v, order, k, w),
        v.len() <= usize::MAX,
        0 <= i < order.len() - 1,
    ensures
        links_at(w, order.remove(k + 1), i),
        w[order.remove(k + 1)[i]].alive,
        w[order.remove(k + 1)[i]].c == v[order[shifted(i, k)]].c,
        i != k ==> w[order.remove(k + 1)[i]].id == v[order[shifted(i, k)]].id,
        i == k ==> w[order.remove(k + 1)[i]].id == Some(
            merge_of(m, current(v, order), k)->0.to,
        ),
{
    reveal(linked);
    lemma_around(v, order, k);
    lemma_removed(v.len() as int, order, k);
    let o = order.remove(k + 1);
    let a = shifted(i, k);
    assert(links_at(v, order, a));
    assert(order.contains(order[a]));
    assert(v[order[a]].alive);
    assert(o[i] == order[a]);
    if i + 1 < o.len() {
        assert(o[i + 1] == order[shifted(i + 1, k)]);
    }
    if i > 0 {
        assert(o[i - 1] == order[shifted(i - 1, k)]);
    }
    if a < k {
        assert(order[a] < order[k]);
        assert(order[a] < order[k + 1]);
        if k + 2 < order.len() {
            assert(order[a] < order[k + 2]);
        }
    } else if a == k {
        if k + 2 < order.len() {
            assert(order[k] < order[k + 2]);
        }
    } else if a == k + 2 {
        assert(order[k] < order[a]);
    } else {
        assert(order[k] < order[a]);
        assert(order[k + 1] < order[a]);
        assert(order[k + 2] < order[a]);
    }
}

/// One merge keeps the links, and makes the next symbols.
proof fn lemma_merge(m: Merges, v: Seq<Sym>, order: Seq<int>, k: int, w: Seq<Sym>)
    requires
        linked(v, order),
        v.len() <= usize::MAX,
        0 <= k,
        k + 1 < order.len(),
        did_merge(m, v, order, k, w),
    ensures
        linked(w, order.remove(k + 1)),
        current(w, order.remove(k + 1)) == merged_at(m, current(v, order), k),
{
    let o = order.remove(k + 1);
    lemma_around(v, order, k);
    lemma_removed(v.len() as int, order, k);
    assert forall|x: int| 0 <= x < w.len() implies ((#[trigger] w[x]).alive <==> o.contains(x)) by {
        if o.contains(x) {
            let i = lemma_position(o, x);
            lemma_left_at(m, v, order, k, w, i);
        } else {
            reveal(linked);
            assert(v[x].alive <==> order.contains(x));
            if order.contains(x) {
                let a = lemma_position(order, x);
                if a < k + 1 {
                    assert(o[a] == x);
                } else if a > k + 1 {
                    assert(o[a - 1] == order[shifted(a - 1, k)]);
                }
                assert(x == order[k + 1]);
            } else {
                assert(order.contains(order[k]));
                if k + 2 < order.len() {
                    assert(order.contains(order[k + 2]));
                }
            }
        }
    }
    assert forall|i: int| 0 <= i < o.len() implies #[trigger] links_at(w, o, i) by {
        lemma_left_at(m, v, order, k, w, i);
    }
    reveal(linked);
    let t = current(w, o);
    let want = merged_at(m, current(v, order), k);
    assert forall|i: int| 0 <= i < t.len() implies #[trigger] t[i] == want[i] by {
        lemma_left_at(m, v, order, k, w, i);
    }
    assert(t =~= want);
}

/// The symbols as they were made.
pub open spec fn seeded(v: Seq<Sym>) -> Seq<Symbol> {
    v.map_values(|x: Sym| Symbol { id: x.id, c: x.c })
}

pub open spec fn counting(n: nat) -> Seq<int> {
    Seq::new(n, |i: int| i)
}

/// Link the symbols up, one behind the other.
fn link(syms: &mut Vec<Sym>)
    requires
        old(syms)@.len() > 0,
    ensures
        final(syms)@.len() == old(syms)@.len(),
        linked(final(syms)@, counting(final(syms)@.len())),
        current(final(syms)@, counting(final(syms)@.len())) == seeded(old(syms)@),
{
    let ghost before = syms@;
    let n: usize = syms.len();
    let mut i: usize = 0;
    while i < n
        invariant
            i <= n,
            n == syms@.len(),
            n == before.len(),
            forall|k: int|
                0 <= k < n ==> (#[trigger] syms@[k]).id == before[k].id && syms@[k].c
                    == before[k].c,
            forall|k: int|
                0 <= k < i ==> (#[trigger] syms@[k]).alive && syms@[k].prev == (if k > 0 {
                    k - 1
                } else {
                    END as int
                }) && syms@[k].next == (if k + 1 < n {
                    k + 1
                } else {
                    END as int
                }),
        decreases n - i,
    {
        let s = syms[i];
        let prev: usize = if i == 0 { END } else { i - 1 };
        let next: usize = if i + 1 == n { END } else { i + 1 };
        syms[i] = Sym { id: s.id, c: s.c, prev, next, alive: true };
        i = i + 1;
    }
    let ghost o = counting(n as nat);
    assert forall|x: int| 0 <= x < n implies #[trigger] o.contains(x) by {
        assert(o[x] == x);
    }
    assert(current(syms@, o) =~= seeded(before));
    assert(linked(syms@, o)) by {
        reveal(linked);
        assert forall|i: int| 0 <= i < o.len() implies #[trigger] links_at(syms@, o, i) by {
            assert(o[i] == i);
        }
    }
}

/// Apply every merge. The symbols that stay alive, in order, are what the merges
/// leave.
#[verifier::rlimit(60)]
pub fn merge_all(merges: &HashMap<u64, Merge>, syms: &mut Vec<Sym>) -> (order: Ghost<
    Seq<int>,
>)
    requires
        old(syms)@.len() > 0,
    ensures
        final(syms)@.len() == old(syms)@.len(),
        linked(final(syms)@, order@),
        current(final(syms)@, order@) == bpe(merges@, seeded(old(syms)@)),
{
    let ghost goal = bpe(merges@, seeded(syms@));
    let ghost m = merges@;
    let n: usize = syms.len();
    link(syms);
    let ghost mut order = counting(n as nat);
    let mut heap = Heap::new();
    let mut i: usize = 0;
    while i + 1 < n
        invariant
            i < n,
            n == syms@.len(),
            m == merges@,
            heap.wf(),
            linked(syms@, order),
            order == counting(n as nat),
            forall|e: Bigram| #[trigger] heap@.count(e) > 0 ==> from_table(m, n as int, e),
            forall|k: int|
                k < i && (#[trigger] merge_of(m, current(syms@, order), k)) is Some
                    ==> heap@.count(candidate(m, syms@, order, k)) > 0,
        decreases n - i,
    {
        let ghost h = heap@;
        push_bigram(merges, syms, i, i + 1, &mut heap);
        proof {
            assert(order[i as int] == i && order[i + 1] == i + 1);
            let s = current(syms@, order);
            if merge_of(m, s, i as int) is Some {
                let e = candidate(m, syms@, order, i as int);
                assert(heap@ == h.insert(e));
            }
        }
        i = i + 1;
    }
    loop
        invariant
            n == syms@.len(),
            n == old(syms)@.len(),
            m == merges@,
            heap.wf(),
            linked(syms@, order),
            queued(m, syms@, order, heap@),
            goal == bpe(m, seeded(old(syms)@)),
            bpe(m, current(syms@, order)) == goal,
        decreases 3 * order.len() + heap@.len(),
    {
        let ghost h = heap@;
        let ghost v = syms@;
        let ghost s = current(v, order);
        let bg = match heap.pop() {
            Some(b) => b,
            None => {
                proof {
                    assert forall|k: int| (#[trigger] merge_of(m, s, k)) is None by {
                        if merge_of(m, s, k) is Some {
                            assert(h.count(candidate(m, v, order, k)) > 0);
                        }
                    }
                    best_is_best(m, s, 0);
                }
                return Ghost(order);
            },
        };
        assert(from_table(m, n as int, bg));
        let (l, r) = (bg.left, bg.right);
        if !syms[l].alive || !syms[r].alive || syms[l].next != r || !is_id(
            syms[l].id,
            bg.left_id,
        ) || !is_id(syms[r].id, bg.right_id) {
            proof {
                assert(!fresh(v, bg));
                assert forall|k: int| (#[trigger] merge_of(m, s, k)) is Some implies heap@.count(
                    candidate(m, v, order, k),
                ) > 0 by {
                    lemma_current_is_fresh(m, v, order, k);
                    assert(h.count(candidate(m, v, order, k)) > 0);
                }
            }
            continue ;
        }
        let ghost k = lemma_fresh(m, v, order, bg);
        proof {
            assert forall|j: int| (#[trigger] merge_of(m, s, j)) is Some implies merge_of(
                m,
                s,
                k,
            )->0.rank < merge_of(m, s, j)->0.rank || merge_of(m, s, k)->0.rank == merge_of(m, s, j)->0.rank
                && k <= j by {
                let e = candidate(m, v, order, j);
                assert(h.count(e) > 0);
                assert(precedes(bg, e));
                if j < k {
                    lemma_around(v, order, k);
                    assert(order[j] < order[k]);
                }
            }
            best_is_best(m, s, k);
        }
        proof {
            lemma_around(v, order, k);
        }
        let left = syms[l];
        let right = syms[r];
        let nxt: usize = right.next;
        syms[l] = Sym { id: Some(bg.merged), c: left.c, prev: left.prev, next: nxt, alive: left.alive };
        syms[r] = Sym { id: right.id, c: right.c, prev: right.prev, next: nxt, alive: false };
        if nxt != END {
            let third = syms[nxt];
            syms[nxt] = Sym { id: third.id, c: third.c, prev: l, next: third.next, alive: third.alive };
        }
        let ghost w = syms@;
        let ghost o = order.remove(k + 1);
        proof {
            assert(did_merge(m, v, order, k, w));
            lemma_merge(m, v, order, k, w);
        }
        let ghost t = current(w, o);
        let ghost h1 = heap@;
        if nxt != END {
            push_bigram(merges, syms, l, nxt, &mut heap);
        }
        let ghost h2 = heap@;
        let prv: usize = left.prev;
        if prv != END {
            push_bigram(merges, syms, prv, l, &mut heap);
        }
        proof {
            lemma_requeued(m, v, order, k, w, h, bg, h1, h2, heap@);
            order = o;
        }
    }
}

/// After a merge, with the new neighbours queued, every pair of the table is
/// queued again.
proof fn lemma_requeued(
    m: Merges,
    v: Seq<Sym>,
    order: Seq<int>,
    k: int,
    w: Seq<Sym>,
    h: Multiset<Bigram>,
    bg: Bigram,
    h1: Multiset<Bigram>,
    h2: Multiset<Bigram>,
    h3: Multiset<Bigram>,
)
    requires
        linked(v, order),
        v.len() <= usize::MAX,
        w.len() == v.len(),
        queued(m, v, order, h),
        merge_of(m, current(v, order), k) is Some,
        bg == candidate(m, v, order, k),
        h1 == h.remove(bg),
        h.count(bg) > 0,
        linked(w, order.remove(k + 1)),
        current(w, order.remove(k + 1)) == merged_at(m, current(v, order), k),
        ({
            let o = order.remove(k + 1);
            let t = current(w, o);
            &&& if merge_of(m, t, k) is Some {
                h2 == h1.insert(candidate(m, w, o, k))
            } else {
                h2 == h1
            }
            &&& if merge_of(m, t, k - 1) is Some {
                h3 == h2.insert(candidate(m, w, o, k - 1))
            } else {
                h3 == h2
            }
        }),
    ensures
        queued(m, w, order.remove(k + 1), h3),
        3 * order.remove(k + 1).len() + h3.len() < 3 * order.len() + h.len(),
{
    let o = order.remove(k + 1);
    let s = current(v, order);
    let t = current(w, o);
    lemma_around(v, order, k);
    lemma_removed(v.len() as int, order, k);
    assert forall|e: Bigram| #[trigger] h3.count(e) > 0 implies from_table(
        m,
        w.len() as int,
        e,
    ) by {
        if h.count(e) > 0 {
        } else if h2.count(e) == 0 {
            assert(e == candidate(m, w, o, k - 1));
            assert(order[k - 1] == o[k - 1] && order[k] == o[k]);
        } else {
            assert(e == candidate(m, w, o, k));
            assert(o[k] == order[k] && o[k + 1] == order[k + 2]);
        }
    }
    assert forall|j: int| (#[trigger] merge_of(m, t, j)) is Some implies h3.count(
        candidate(m, w, o, j),
    ) > 0 by {
        if j < k - 1 {
            assert(t[j] == s[j] && t[j + 1] == s[j + 1]);
            assert(merge_of(m, s, j) is Some);
            assert(o[j] == order[j] && o[j + 1] == order[j + 1]);
            let e = candidate(m, v, order, j);
            assert(candidate(m, w, o, j) == e);
            assert(h.count(e) > 0);
            assert(order[j] < order[k]);
        } else if j > k {
            assert(t[j] == s[j + 1] && t[j + 1] == s[j + 2]);
            assert(merge_of(m, s, j + 1) is Some);
            assert(o[j] == order[j + 1] && o[j + 1] == order[j + 2]);
            let e = candidate(m, v, order, j + 1);
            assert(candidate(m, w, o, j) == e);
            assert(h.count(e) > 0);
            assert(order[k] < order[j + 1]);
        }
    }
}

/// One merge at a time: of all the neighbours that the table joins, those of the lowest
/// rank are joined first, and of those the leftmost. What comes of the symbols is what
/// comes of them with these two joined.
pub proof fn the_leftmost_of_the_lowest_rank_goes_first(
    m: Merges,
    s: Seq<Symbol>,
    k: int,
    t: Seq<Symbol>,
)
    requires
        0 <= k,
        k + 1 < s.len(),
        s[k].id is Some && s[k + 1].id is Some,
        m.contains_key(pair_key(s[k].id->0, s[k + 1].id->0)),
        forall|j: int|
            #![trigger s[j]]
            0 <= j && j + 1 < s.len() && s[j].id is Some && s[j + 1].id is Some && m.contains_key(
                pair_key(s[j].id->0, s[j + 1].id->0),
            ) ==> {
                let a = m[pair_key(s[k].id->0, s[k + 1].id->0)].rank;
                let b = m[pair_key(s[j].id->0, s[j + 1].id->0)].rank;
                a < b || a == b && k <= j
            },
        t.len() == s.len() - 1,
        forall|i: int| 0 <= i < k ==> #[trigger] t[i] == s[i],
        forall|i: int| k < i < t.len() ==> #[trigger] t[i] == s[i + 1],
        t[k].id == Some(m[pair_key(s[k].id->0, s[k + 1].id->0)].to),
        t[k].c == s[k].c,
    ensures
        bpe(m, s) == bpe(m, t),
{
    assert forall|j: int| (#[trigger] merge_of(m, s, j)) is Some implies merge_of(m, s, k)->0.rank
        < merge_of(m, s, j)->0.rank || merge_of(m, s, k)->0.rank == merge_of(m, s, j)->0.rank && k
        <= j by {
        assert(s[j].id is Some);
    }
    best_is_best(m, s, k);
    let u = merged_at(m, s, k);
    assert forall|i: int| 0 <= i < t.len() implies #[trigger] t[i] == u[i] by {}
    assert(t =~= u);
}

/// In the end no two neighbours are left that the table joins.
pub proof fn nothing_is_left_to_merge(m: Merges, s: Seq<Symbol>, j: int)
    requires
        0 <= j,
        j + 1 < bpe(m, s).len(),
    ensures
        ({
            let t = bpe(m, s);
            t[j].id is None || t[j + 1].id is None || !m.contains_key(
                pair_key(t[j].id->0, t[j + 1].id->0),
            )
        }),
    decreases s.len(),
{
    lemma_best_to(m, s, s.len() - 1);
    match best(m, s) {
        None => {
            assert(merge_of(m, s, j) is None);
        },
        Some(k) => {
            nothing_is_left_to_merge(m, merged_at(m, s, k), j);
        },
    }
}

} // verus!
