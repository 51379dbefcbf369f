//! Ordered checks: of several things that can go wrong, the first is reported.

use vstd::prelude::*;

verus! {

/// The first error in the list.
pub open spec fn first_error<E>(s: Seq<Option<E>>) -> Option<E>
    decreases s.len(),
{
    if s.len() == 0 {
        None
    } else if s[0] is Some {
        s[0]
    } else {
        first_error(s.drop_first())
    }
}

/// The error of a result.
pub open spec fn err_of<T, E>(r: Result<T, E>) -> Option<E> {
    match r {
        Ok(_) => None,
        Err(e) => Some(e),
    }
}

/// `None` where the condition holds, else the error.
pub open spec fn unless<E>(ok: bool, e: E) -> Option<E> {
    if ok {
        None
    } else {
        Some(e)
    }
}

/// An error that no error stands before is the first one.
pub proof fn lemma_first_error<E>(s: Seq<Option<E>>, k: int)
    requires
        0 <= k < s.len(),
        s[k] is Some,
        forall|j: int| 0 <= j < k ==> #[trigger] s[j] is None,
    ensures
        first_error(s) == s[k],
    decreases k,
{
    if k > 0 {
        assert(s[0] is None);
        let t = s.drop_first();
        assert forall|j: int| 0 <= j < k - 1 implies #[trigger] t[j] is None by {
            assert(s[j + 1] is None);
        }
        lemma_first_error(t, k - 1);
    }
}

/// Without an error there is no first one.
pub proof fn lemma_no_error<E>(s: Seq<Option<E>>)
    requires
        forall|j: int| 0 <= j < s.len() ==> #[trigger] s[j] is None,
    ensures
        first_error(s) is None,
    decreases s.len(),
{
    if s.len() > 0 {
        assert(s[0] is None);
        let t = s.drop_first();
        assert forall|j: int| 0 <= j < t.len() implies #[trigger] t[j] is None by {
            assert(s[j + 1] is None);
        }
        lemma_no_error(t);
    }
}

/// Errors in one list come before errors in the next.
pub proof fn lemma_first_error_concat<E>(a: Seq<Option<E>>, b: Seq<Option<E>>)
    ensures
        first_error(a + b) == if first_error(a) is Some {
            first_error(a)
        } else {
            first_error(b)
        },
    decreases a.len(),
{
    if a.len() == 0 {
        assert(a + b =~= b);
    } else {
        assert((a + b)[0] == a[0]);
        if a[0] is None {
            assert((a + b).drop_first() =~= a.drop_first() + b);
            lemma_first_error_concat(a.drop_first(), b);
        }
    }
}

/// There is no error exactly when there is none at any place.
pub proof fn no_error_exactly_when<E>(s: Seq<Option<E>>)
    ensures
        first_error(s) is None <==> forall|j: int| 0 <= j < s.len() ==> #[trigger] s[j] is None,
    decreases s.len(),
{
    if s.len() > 0 {
        let t = s.drop_first();
        no_error_exactly_when(t);
        if first_error(s) is None {
            assert forall|j: int| 0 <= j < s.len() implies #[trigger] s[j] is None by {
                if j > 0 {
                    assert(t[j - 1] is None);
                }
            }
        } else if s[0] is None {
            let j = choose|j: int| 0 <= j < t.len() && !(#[trigger] t[j] is None);
            assert(s[j + 1] is Some);
        }
    }
}

} // verus!
