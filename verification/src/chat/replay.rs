//! What is written for a tool call is what is read back.

use crate::chat::call::{
    call_of, deeper, ends_run, integer, key_run, list_at, literal, object_at, past_space,
    quote_end, quoted_run, run_end, value_at, CallView,
};
use crate::chat::dsl::{
    call_text, comma, entries_text, key_text, list_text, number_text, value_text, QUOTE,
};
use crate::hub::number;
use crate::json::{
    ascending, float_char, float_literal, float_text, inserted, lemma_entry_wf, lemma_item_wf,
    printed, Entries, JsonView, Number,
};
use crate::text::{self, decimal, find_at, lemma_find_at, matches_at, trimmed, white};
use vstd::prelude::*;

verus! {

/// `s` can stand between quote markers: it holds none itself.
pub open spec fn quotable(s: Seq<char>) -> bool {
    find_at(s, 0, QUOTE@) is None
}

/// `k` can stand as a bare key: nothing in it opens a quote or ends it before the
/// colon, and it has no whitespace at its ends.
pub open spec fn bare_key(k: Seq<char>) -> bool {
    &&& run_end(k.push(':'), 0, 0, true) == k.len()
    &&& !matches_at(k, 0, QUOTE@)
    &&& trimmed(k) == k
    &&& k.len() > 0 ==> k[0] != '}'
}

/// A key that is read as it was written.
pub open spec fn restorable_key(k: Seq<char>, bare: bool) -> bool {
    if bare {
        bare_key(k)
    } else {
        quotable(k) && trimmed(k) == k
    }
}

/// A value that is read as it was written. An unsigned number beyond the signed
/// range is read as a floating-point one.
pub open spec fn restorable(v: JsonView) -> bool
    decreases v,
{
    match v {
        JsonView::Text(s) => quotable(s),
        JsonView::Number(Number::Pos(u)) => u <= 0x7FFF_FFFF_FFFF_FFFF,
        JsonView::List(a) => forall|i: int| 0 <= i < a.len() ==> restorable(#[trigger] a[i]),
        JsonView::Object(e) => forall|i: int|
            0 <= i < e.len() ==> restorable_key((#[trigger] e[i]).0, false) && restorable(e[i].1),
        _ => true,
    }
}

/// A name and arguments that are read as they were written.
pub open spec fn restorable_call(name: Seq<char>, args: JsonView) -> bool {
    &&& name.len() > 0
    &&& trimmed(name) == name
    &&& !name.contains('{')
    &&& args matches JsonView::Object(e) && forall|i: int|
        0 <= i < e.len() ==> restorable_key((#[trigger] e[i]).0, true) && restorable(e[i].1)
}

/// The text of every floating-point number in `v` reads back as that number.
pub open spec fn floats_read_back(v: JsonView) -> bool
    decreases v,
{
    match v {
        JsonView::Number(Number::Float(b)) => float_text(printed(v)) && float_literal(printed(v))
            == Some(b),
        JsonView::List(a) => forall|i: int| 0 <= i < a.len() ==> floats_read_back(#[trigger] a[i]),
        JsonView::Object(e) => forall|i: int|
            0 <= i < e.len() ==> floats_read_back((#[trigger] e[i]).1),
        _ => true,
    }
}

// ---------------------------------------------------------------------------
// Pieces
// ---------------------------------------------------------------------------
/// A value may end here.
spec fn stops(s: Seq<char>, p: int) -> bool {
    p == s.len() || (0 <= p < s.len() && (s[p] == ',' || s[p] == ']' || s[p] == '}'))
}

/// No bracket, separator or whitespace.
spec fn plain(c: char) -> bool {
    !white(c) && c != '{' && c != '[' && c != '}' && c != ']' && c != ','
}

/// A run of plain characters ends where a value may end.
proof fn lemma_plain_run(s: Seq<char>, i: int, e: int)
    requires
        0 <= i <= e <= s.len(),
        stops(s, e),
        forall|k: int| i <= k < e ==> plain(#[trigger] s[k]),
    ensures
        run_end(s, i, 0, false) == e,
    decreases e - i,
{
    if i < e {
        assert(plain(s[i]));
        lemma_plain_run(s, i + 1, e);
    }
}

/// Nothing to trim.
proof fn lemma_nothing_to_trim(t: Seq<char>)
    requires
        t.len() > 0,
        !white(t[0]),
        !white(t.last()),
    ensures
        trimmed(t) == t,
{
}

/// The first quote marker behind a text that holds none is the one put there.
proof fn lemma_quote_end(s: Seq<char>, i: int, t: Seq<char>)
    requires
        0 <= i,
        quotable(t),
        matches_at(s, i, t + QUOTE@),
    ensures
        quote_end(s, i) == i + t.len(),
        quoted_run(s, i) == (t, i + t.len() + QUOTE@.len()),
{
    reveal_strlit("<|\"|>");
    let q = QUOTE@;
    let n = t.len();
    let both = t + q;
    let part = s.subrange(i, i + both.len());
    assert(part == both);
    assert forall|k: int| 0 <= k < both.len() implies s[i + k] == #[trigger] both[k] by {
        assert(part[k] == s[i + k]);
    }
    assert(matches_at(s, i + n, q)) by {
        assert(s.subrange(i + n, i + n + q.len()) =~= q) by {
            assert forall|k: int| 0 <= k < q.len() implies s[i + n + k] == q[k] by {
                assert(both[n + k] == q[k]);
            }
        }
    }
    lemma_find_at(s, i, q);
    lemma_find_at(t, 0, q);
    let p = quote_end(s, i);
    if p < i + n {
        assert(matches_at(s, p, q));
        let at = p - i;
        let found = s.subrange(p, p + q.len());
        assert(found == q);
        if at + q.len() <= n {
            assert(t.subrange(at, at + q.len()) =~= q) by {
                assert forall|k: int| 0 <= k < q.len() implies t[at + k] == q[k] by {
                    assert(both[at + k] == t[at + k]);
                    assert(found[k] == s[p + k]);
                }
            }
            assert(matches_at(t, at, q));
            assert(false);
        } else {
            // The markers would overlap, but only the first character opens one.
            let k = n - at;
            assert(0 < k < q.len());
            assert(both[n as int] == q[0]);
            assert(found[k] == s[p + k]);
            assert(q[k] == '<');
            assert(false);
        }
    }
    assert(s.subrange(i, i + n) =~= t) by {
        assert forall|k: int| 0 <= k < n implies s[i + k] == t[k] by {
            assert(both[k] == t[k]);
        }
    }
}

/// Reading the decimal digits of a number gives the number.
proof fn lemma_decimal(n: nat)
    ensures
        number(decimal(n)) == Some(n as int),
        decimal(n).len() > 0,
        forall|i: int| 0 <= i < decimal(n).len() ==> '0' <= #[trigger] decimal(n)[i] <= '9',
    decreases n,
{
    let d = decimal(n);
    if n < 10 {
        assert(d.drop_last() =~= Seq::empty());
        assert(number(d.drop_last()) == Some(0int));
    } else {
        lemma_decimal(n / 10);
        assert(d.drop_last() =~= decimal(n / 10));
        assert forall|i: int| 0 <= i < d.len() implies '0' <= #[trigger] d[i] <= '9' by {
            if i < d.len() - 1 {
                assert(d[i] == decimal(n / 10)[i]);
            }
        }
    }
}

/// A text with a character that is no digit is no number.
proof fn lemma_not_number(s: Seq<char>, i: int)
    requires
        0 <= i < s.len(),
        !('0' <= s[i] <= '9'),
    ensures
        number(s) is None,
    decreases s.len(),
{
    if i < s.len() - 1 {
        lemma_not_number(s.drop_last(), i);
    }
}

/// What a number is written as reads as that number, and holds nothing that could
/// end it.
proof fn lemma_number_text(n: Number)
    requires
        n.wf(),
        restorable(JsonView::Number(n)),
        floats_read_back(JsonView::Number(n)),
    ensures
        literal(number_text(n)) == JsonView::Number(n),
        number_text(n).len() > 0,
        forall|i: int| 0 <= i < number_text(n).len() ==> plain(#[trigger] number_text(n)[i]),
        forall|i: int| 0 <= i < number_text(n).len() ==> #[trigger] number_text(n)[i] != '<',
{
    let t = number_text(n);
    reveal_strlit("true");
    reveal_strlit("false");
    reveal_strlit("null");
    match n {
        Number::Pos(u) => {
            lemma_decimal(u as nat);
            assert('0' <= t[0] <= '9');
            assert(integer(t) == Some(u as int));
        },
        Number::Neg(i) => {
            lemma_decimal((-i) as nat);
            let d = decimal((-i) as nat);
            assert(t == seq!['-'] + d);
            assert(t.skip(1) =~= d);
            assert(t[0] == '-');
            assert(integer(t) == Some(i as int));
            assert forall|k: int| 0 <= k < t.len() implies plain(#[trigger] t[k]) && t[k] != '<' by {
                if k > 0 {
                    assert(t[k] == d[k - 1]);
                }
            }
        },
        Number::Float(b) => {
            let p = choose|i: int| 0 <= i < t.len() && (#[trigger] t[i] == '.' || t[i] == 'e');
            assert(float_char(t[0]));
            assert(integer(t) is None) by {
                if t[0] == '-' || t[0] == '+' {
                    assert(t.skip(1)[p - 1] == t[p]);
                    lemma_not_number(t.skip(1), p - 1);
                } else {
                    lemma_not_number(t, p);
                }
            }
            assert forall|k: int| 0 <= k < t.len() implies plain(#[trigger] t[k]) && t[k] != '<' by {
                assert(float_char(t[k]));
            }
        },
    }
}

/// An unquoted value is read up to where it may end.
proof fn lemma_bare_value(s: Seq<char>, i: int, t: Seq<char>)
    requires
        0 <= i,
        t.len() > 0,
        t[0] != '<',
        forall|k: int| 0 <= k < t.len() ==> plain(#[trigger] t[k]),
        matches_at(s, i, t),
        stops(s, i + t.len()),
    ensures
        value_at(s, i) == (literal(t), i + t.len()),
{
    reveal_strlit("<|\"|>");
    let e = i + t.len();
    let part = s.subrange(i, e);
    assert forall|k: int| i <= k < e implies #[trigger] s[k] == t[k - i] by {
        assert(part[k - i] == s[k]);
    }
    assert forall|k: int| i <= k < e implies plain(#[trigger] s[k]) by {
        assert(s[k] == t[k - i]);
    }
    assert(s[i] == t[0]);
    assert(past_space(s, i) == i);
    assert(!matches_at(s, i, QUOTE@)) by {
        if matches_at(s, i, QUOTE@) {
            assert(s.subrange(i, i + QUOTE@.len())[0] == s[i]);
        }
    }
    lemma_plain_run(s, i, e);
    assert(plain(t[t.len() - 1]));
    lemma_nothing_to_trim(t);
}

/// No value starts with a character that would be skipped or end a list.
proof fn lemma_first_char(v: JsonView)
    requires
        v.wf(),
        restorable(v),
        floats_read_back(v),
    ensures
        value_text(v).len() > 0,
        !white(value_text(v)[0]),
        value_text(v)[0] != ']',
        value_text(v)[0] != '}',
        value_text(v)[0] != ',',
{
    reveal_strlit("<|\"|>");
    reveal_strlit("true");
    reveal_strlit("false");
    reveal_strlit("null");
    match v {
        JsonView::Number(n) => {
            lemma_number_text(n);
            assert(plain(number_text(n)[0]));
        },
        _ => {},
    }
}

// ---------------------------------------------------------------------------
// Values
// ---------------------------------------------------------------------------
/// The first `k` items are what the text of all of them starts with.
proof fn lemma_list_prefix(a: Seq<JsonView>, k: int, n: int)
    requires
        0 <= k <= n <= a.len(),
    ensures
        list_text(a, k).len() <= list_text(a, n).len(),
        list_text(a, n).take(list_text(a, k).len() as int) == list_text(a, k),
    decreases n - k,
{
    if k < n {
        lemma_list_prefix(a, k, n - 1);
        assert(list_text(a, n).take(list_text(a, k).len() as int) =~= list_text(a, n - 1).take(
            list_text(a, k).len() as int,
        ));
    } else {
        assert(list_text(a, n).take(list_text(a, k).len() as int) =~= list_text(a, k));
    }
}

/// The first `k` entries are what the text of all of them starts with.
proof fn lemma_entries_prefix(e: Entries, k: int, n: int, bare: bool)
    requires
        0 <= k <= n <= e.len(),
    ensures
        entries_text(e, k, bare).len() <= entries_text(e, n, bare).len(),
        entries_text(e, n, bare).take(entries_text(e, k, bare).len() as int) == entries_text(
            e,
            k,
            bare,
        ),
    decreases n - k,
{
    let m = entries_text(e, k, bare).len() as int;
    if k < n {
        lemma_entries_prefix(e, k, n - 1, bare);
        assert(entries_text(e, n, bare).take(m) =~= entries_text(e, n - 1, bare).take(m));
    } else {
        assert(entries_text(e, n, bare).take(m) =~= entries_text(e, k, bare));
    }
}

/// `t` stands in `s` at `i`, and so does each part of it in its place.
proof fn lemma_part(s: Seq<char>, i: int, t: Seq<char>, from: int, part: Seq<char>)
    requires
        matches_at(s, i, t),
        matches_at(t, from, part),
    ensures
        matches_at(s, i + from, part),
{
    let a = s.subrange(i + from, i + from + part.len());
    let b = t.subrange(from, from + part.len());
    assert forall|k: int| 0 <= k < part.len() implies #[trigger] a[k] == b[k] by {
        assert(s.subrange(i, i + t.len())[from + k] == s[i + from + k]);
    }
    assert(a =~= b);
}

/// Where the text of item `k` starts, behind the items before it.
spec fn item_at(a: Seq<JsonView>, k: int) -> int {
    list_text(a, k).len() as int + comma(k > 0).len()
}

/// What stands behind the first items of a list.
proof fn lemma_item_place(s: Seq<char>, i: int, a: Seq<JsonView>, k: int)
    requires
        0 <= i,
        0 <= k < a.len(),
        matches_at(s, i, list_text(a, a.len() as int)),
    ensures
        matches_at(s, i + item_at(a, k), value_text(a[k])),
        list_text(a, k + 1).len() == item_at(a, k) + value_text(a[k]).len(),
        k > 0 ==> s[i + list_text(a, k).len()] == ',',
        i + list_text(a, k + 1).len() <= s.len(),
{
    let n = a.len() as int;
    let all = list_text(a, n);
    let here = list_text(a, k + 1);
    let x = value_text(a[k]);
    let at = item_at(a, k);
    lemma_list_prefix(a, k + 1, n);
    assert(matches_at(all, 0, here)) by {
        assert(all.subrange(0, here.len() as int) =~= all.take(here.len() as int));
    }
    lemma_part(s, i, all, 0, here);
    assert(here == list_text(a, k) + comma(k + 1 > 1) + x);
    assert(matches_at(here, at, x)) by {
        assert(here.subrange(at, at + x.len()) =~= x);
    }
    lemma_part(s, i, here, at, x);
    if k > 0 {
        let c = list_text(a, k).len() as int;
        assert(here[c] == ',');
        assert(s.subrange(i, i + here.len())[c] == s[i + c]);
    }
}

/// Where the text of entry `k` starts, behind the entries before it.
spec fn entry_at(e: Entries, k: int, bare: bool) -> int {
    entries_text(e, k, bare).len() as int + comma(k > 0).len()
}

/// What stands behind the first entries of an object.
proof fn lemma_entry_place(s: Seq<char>, i: int, e: Entries, k: int, bare: bool)
    requires
        0 <= i,
        0 <= k < e.len(),
        matches_at(s, i, entries_text(e, e.len() as int, bare)),
    ensures
        matches_at(s, i + entry_at(e, k, bare), key_text(e[k].0, bare) + seq![':']),
        matches_at(
            s,
            i + entry_at(e, k, bare) + key_text(e[k].0, bare).len() + 1,
            value_text(e[k].1),
        ),
        entries_text(e, k + 1, bare).len() == entry_at(e, k, bare) + key_text(e[k].0, bare).len()
            + 1 + value_text(e[k].1).len(),
        k > 0 ==> s[i + entries_text(e, k, bare).len()] == ',',
        i + entries_text(e, k + 1, bare).len() <= s.len(),
{
    let n = e.len() as int;
    let all = entries_text(e, n, bare);
    let here = entries_text(e, k + 1, bare);
    let key = key_text(e[k].0, bare);
    let x = value_text(e[k].1);
    let at = entry_at(e, k, bare);
    lemma_entries_prefix(e, k + 1, n, bare);
    assert(matches_at(all, 0, here)) by {
        assert(all.subrange(0, here.len() as int) =~= all.take(here.len() as int));
    }
    lemma_part(s, i, all, 0, here);
    assert(here == entries_text(e, k, bare) + comma(k + 1 > 1) + key + seq![':'] + x);
    assert(matches_at(here, at, key + seq![':'])) by {
        assert(here.subrange(at, at + key.len() + 1) =~= key + seq![':']);
    }
    lemma_part(s, i, here, at, key + seq![':']);
    assert(matches_at(here, at + key.len() + 1, x)) by {
        assert(here.subrange(at + key.len() + 1, at + key.len() + 1 + x.len()) =~= x);
    }
    lemma_part(s, i, here, at + key.len() + 1, x);
    if k > 0 {
        let c = entries_text(e, k, bare).len() as int;
        assert(here[c] == ',');
        assert(s.subrange(i, i + here.len())[c] == s[i + c]);
    }
}

/// A key behind all others goes to the end.
proof fn lemma_inserted_last(e: Entries, key: Seq<char>, v: JsonView)
    requires
        forall|i: int| 0 <= i < e.len() ==> text::before((#[trigger] e[i]).0, key),
    ensures
        inserted(e, key, v) == e.push((key, v)),
    decreases e.len(),
{
    if e.len() > 0 {
        let rest = e.drop_first();
        assert forall|i: int| 0 <= i < rest.len() implies text::before(
            (#[trigger] rest[i]).0,
            key,
        ) by {
            assert(rest[i] == e[i + 1]);
        }
        lemma_inserted_last(rest, key, v);
        assert(seq![e[0]] + rest.push((key, v)) =~= e.push((key, v)));
    } else {
        assert(seq![(key, v)] =~= e.push((key, v)));
    }
}

/// A bare key ends at the colon behind it.
proof fn lemma_bare_run(s: Seq<char>, i: int, k: Seq<char>, j: int, depth: int)
    requires
        0 <= i,
        0 <= j <= k.len(),
        matches_at(s, i, k.push(':')),
        run_end(k.push(':'), j, depth, true) == k.len(),
    ensures
        run_end(s, i + j, depth, true) == i + k.len(),
    decreases k.len() - j,
{
    let t = k.push(':');
    assert(s.subrange(i, i + t.len())[j] == s[i + j]);
    if j < k.len() {
        if deeper(depth, t[j]) == 0 && ends_run(t[j], true) {
            assert(false);
        } else {
            lemma_bare_run(s, i, k, j + 1, deeper(depth, t[j]));
        }
    } else {
        let d = deeper(depth, ':');
        assert(run_end(t, t.len() as int, d, true) == t.len());
        assert(d == 0);
    }
}

/// A key is read as it was written.
proof fn lemma_key(s: Seq<char>, i: int, key: Seq<char>, bare: bool)
    requires
        0 <= i,
        restorable_key(key, bare),
        matches_at(s, i, key_text(key, bare) + seq![':']),
    ensures
        past_space(s, i) == i,
        i + key_text(key, bare).len() < s.len(),
        s[i] != '}',
        key_run(s, i).0 == key,
        key_run(s, i).1 == i + key_text(key, bare).len(),
        s[i + key_text(key, bare).len()] == ':',
{
    reveal_strlit("<|\"|>");
    let q = QUOTE@;
    let t = key_text(key, bare) + seq![':'];
    let n = key_text(key, bare).len();
    let part = s.subrange(i, i + t.len());
    assert(part[0] == s[i]);
    assert(part[n as int] == s[i + n]);
    if bare {
        assert(t =~= key.push(':'));
        if key.len() > 0 {
            assert(!white(key[0])) by {
                if white(key[0]) {
                    lemma_trimmed_shorter(key);
                }
            }
        }
        lemma_bare_run(s, i, key, 0, 0);
        assert(!matches_at(s, i, q)) by {
            if matches_at(s, i, q) {
                let found = s.subrange(i, i + q.len());
                if q.len() <= key.len() {
                    assert(key.subrange(0, q.len() as int) =~= q) by {
                        assert forall|k: int| 0 <= k < q.len() implies key[k] == q[k] by {
                            assert(found[k] == s[i + k]);
                            assert(part[k] == s[i + k]);
                        }
                    }
                } else {
                    assert(found[n as int] == s[i + n]);
                    assert(q[n as int] == ':');
                }
            }
        }
        assert(s.subrange(i, i + n) =~= key) by {
            assert forall|k: int| 0 <= k < n implies s[i + k] == key[k] by {
                assert(part[k] == s[i + k]);
            }
        }
    } else {
        assert(matches_at(t, 0, q)) by {
            assert(t.subrange(0, q.len() as int) =~= q);
        }
        lemma_part(s, i, t, 0, q);
        assert(matches_at(t, q.len() as int, key + q)) by {
            assert(t.subrange(q.len() as int, q.len() as int + (key + q).len()) =~= key + q);
        }
        lemma_part(s, i, t, q.len() as int, key + q);
        lemma_quote_end(s, i + q.len(), key);
    }
}

/// Trimming whitespace in front leaves less.
proof fn lemma_trimmed_shorter(t: Seq<char>)
    requires
        t.len() > 0,
        white(t[0]),
    ensures
        trimmed(t).len() < t.len(),
{
    lemma_trimmed_len(t.drop_first());
}

proof fn lemma_trimmed_len(t: Seq<char>)
    ensures
        trimmed_start_len(t),
        text::trimmed_end(text::trimmed_start(t)).len() <= t.len(),
    decreases t.len(),
{
    if t.len() > 0 && white(t[0]) {
        lemma_trimmed_len(t.drop_first());
    } else {
        lemma_trimmed_end_len(t);
    }
}

spec fn trimmed_start_len(t: Seq<char>) -> bool {
    text::trimmed_start(t).len() <= t.len()
}

proof fn lemma_trimmed_end_len(t: Seq<char>)
    ensures
        text::trimmed_end(t).len() <= t.len(),
    decreases t.len(),
{
    if t.len() > 0 && white(t.last()) {
        lemma_trimmed_end_len(t.drop_last());
    }
}

/// A value is read as it was written.
proof fn lemma_value(s: Seq<char>, i: int, v: JsonView)
    requires
        0 <= i,
        v.wf(),
        restorable(v),
        floats_read_back(v),
        matches_at(s, i, value_text(v)),
        stops(s, i + value_text(v).len()),
    ensures
        value_at(s, i) == (v, i + value_text(v).len()),
    decreases v, 0int,
{
    reveal_strlit("<|\"|>");
    let t = value_text(v);
    let part = s.subrange(i, i + t.len());
    lemma_first_char(v);
    assert(part[0] == s[i]);
    assert(past_space(s, i) == i);
    match v {
        JsonView::Text(x) => {
            let q = QUOTE@;
            assert(matches_at(t, 0, q)) by {
                assert(t.subrange(0, q.len() as int) =~= q);
            }
            lemma_part(s, i, t, 0, q);
            assert(matches_at(t, q.len() as int, x + q)) by {
                assert(t.subrange(q.len() as int, q.len() as int + (x + q).len()) =~= x + q);
            }
            lemma_part(s, i, t, q.len() as int, x + q);
            lemma_quote_end(s, i + q.len(), x);
        },
        JsonView::Bool(b) => {
            reveal_strlit("true");
            reveal_strlit("false");
            lemma_bare_value(s, i, t);
        },
        JsonView::Null => {
            reveal_strlit("true");
            reveal_strlit("false");
            reveal_strlit("null");
            lemma_bare_value(s, i, t);
        },
        JsonView::Number(n) => {
            lemma_number_text(n);
            lemma_bare_value(s, i, t);
        },
        JsonView::List(a) => {
            let l = list_text(a, a.len() as int);
            assert(t == seq!['['] + l + seq![']']);
            assert(t[0] == '[');
            assert(matches_at(t, 1, l)) by {
                assert(t.subrange(1, 1int + l.len()) =~= l);
            }
            lemma_part(s, i, t, 1, l);
            assert(part[1int + l.len()] == s[i + 1 + l.len()]);
            lemma_no_quote(s, i, '[');
            lemma_list(s, i + 1, a, 0);
            assert(a.take(0) =~= Seq::empty());
        },
        JsonView::Object(e) => {
            let l = entries_text(e, e.len() as int, false);
            assert(t == seq!['{'] + l + seq!['}']);
            assert(t[0] == '{');
            assert(matches_at(t, 1, l)) by {
                assert(t.subrange(1, 1int + l.len()) =~= l);
            }
            lemma_part(s, i, t, 1, l);
            let end = i + 1 + l.len();
            assert(part[1int + l.len()] == s[end]);
            lemma_no_quote(s, i, '{');
            lemma_object(s, i + 1, e, 0, false);
            assert(e.take(0) =~= Seq::empty());
            assert(s.subrange(end, end + 1) =~= seq!['}']);
        },
    }
}

proof fn lemma_no_quote(s: Seq<char>, i: int, c: char)
    requires
        0 <= i < s.len(),
        s[i] == c,
        c != '<',
    ensures
        !matches_at(s, i, QUOTE@),
{
    reveal_strlit("<|\"|>");
    if matches_at(s, i, QUOTE@) {
        assert(s.subrange(i, i + QUOTE@.len())[0] == s[i]);
    }
}

proof fn lemma_item(a: Seq<JsonView>, k: int)
    requires
        0 <= k < a.len(),
        restorable(JsonView::List(a)),
        floats_read_back(JsonView::List(a)),
    ensures
        restorable(a[k]),
        floats_read_back(a[k]),
{
    reveal_with_fuel(restorable, 2);
    reveal_with_fuel(floats_read_back, 2);
    let v = JsonView::List(a);
    assert(restorable(v->List_0[k]));
}

proof fn lemma_entry(e: Entries, k: int)
    requires
        0 <= k < e.len(),
        floats_read_back(JsonView::Object(e)),
    ensures
        floats_read_back(e[k].1),
{
    reveal_with_fuel(floats_read_back, 2);
    let v = JsonView::Object(e);
    assert(floats_read_back(v->Object_0[k].1));
}

/// The entries before `k`, with entry `k` put in, are those up to it.
proof fn lemma_entry_joins(e: Entries, k: int)
    requires
        0 <= k < e.len(),
        ascending(e),
    ensures
        inserted(e.take(k), e[k].0, e[k].1) == e.take(k + 1),
{
    let before = e.take(k);
    let key = e[k].0;
    assert forall|j: int| 0 <= j < before.len() implies text::before(
        (#[trigger] before[j]).0,
        key,
    ) by {
        assert(before[j] == e[j]);
        assert(text::before(e[j].0, e[k].0));
    }
    lemma_inserted_last(before, key, e[k].1);
    assert(before.push((key, e[k].1)) =~= e.take(k + 1));
}

/// The items from `k` on are read as they were written.
proof fn lemma_list(s: Seq<char>, i: int, a: Seq<JsonView>, k: int)
    requires
        0 <= i,
        0 <= k <= a.len(),
        k < a.len() || a.len() == 0,
        JsonView::List(a).wf(),
        restorable(JsonView::List(a)),
        floats_read_back(JsonView::List(a)),
        matches_at(s, i, list_text(a, a.len() as int)),
        i + list_text(a, a.len() as int).len() < s.len(),
        s[i + list_text(a, a.len() as int).len()] == ']',
    ensures
        list_at(s, i + item_at(a, k), a.take(k)) == (
            a,
            i + list_text(a, a.len() as int).len() + 1,
        ),
    decreases a, a.len() - k,
{
    let n = a.len() as int;
    let end = i + list_text(a, n).len();
    if n == 0 {
        assert(a.take(k) =~= a);
        assert(past_space(s, end) == end);
    } else {
        let at = i + item_at(a, k);
        let x = value_text(a[k]);
        lemma_item_place(s, i, a, k);
        lemma_item_wf(a, k);
        lemma_item(a, k);
        lemma_first_char(a[k]);
        assert(s.subrange(at, at + x.len())[0] == s[at]);
        assert(past_space(s, at) == at);
        let p = at + x.len();
        assert(a.take(k).push(a[k]) =~= a.take(k + 1));
        if k + 1 < n {
            lemma_item_place(s, i, a, k + 1);
            assert(s[p] == ',');
            lemma_value(s, at, a[k]);
            assert(past_space(s, p) == p);
            lemma_list(s, i, a, k + 1);
        } else {
            lemma_value(s, at, a[k]);
            assert(past_space(s, p) == p);
            assert(a.take(k + 1) =~= a);
            assert(s.subrange(p, p + 1) =~= seq![']']);
        }
    }
}

/// The entries from `k` on are read as they were written.
#[verifier::spinoff_prover]
#[verifier::rlimit(30)]
proof fn lemma_object(s: Seq<char>, i: int, e: Entries, k: int, bare: bool)
    requires
        0 <= i,
        0 <= k <= e.len(),
        k < e.len() || e.len() == 0,
        JsonView::Object(e).wf(),
        forall|j: int|
            0 <= j < e.len() ==> restorable_key((#[trigger] e[j]).0, bare) && restorable(e[j].1),
        floats_read_back(JsonView::Object(e)),
        matches_at(s, i, entries_text(e, e.len() as int, bare)),
        i + entries_text(e, e.len() as int, bare).len() == s.len() || (i + entries_text(
            e,
            e.len() as int,
            bare,
        ).len() < s.len() && s[i + entries_text(e, e.len() as int, bare).len()] == '}'),
    ensures
        object_at(s, i + entry_at(e, k, bare), e.take(k)) == (
            e,
            i + entries_text(e, e.len() as int, bare).len(),
        ),
    decreases e, e.len() - k,
{
    let n = e.len() as int;
    let end = i + entries_text(e, n, bare).len();
    if n == 0 {
        assert(e.take(k) =~= e);
        assert(past_space(s, end) == end);
    } else {
        let at = i + entry_at(e, k, bare);
        let key = e[k].0;
        let v = e[k].1;
        let colon = at + key_text(key, bare).len();
        lemma_entry_place(s, i, e, k, bare);
        lemma_key(s, at, key, bare);
        lemma_entry_wf(e, k);
        lemma_entry(e, k);
        let p = colon + 1 + value_text(v).len();
        lemma_entry_joins(e, k);
        assert(decreases_to!(e => e[k]));
        if k + 1 < n {
            lemma_entry_place(s, i, e, k + 1, bare);
            assert(s[p] == ',');
            lemma_value(s, colon + 1, v);
            assert(past_space(s, p) == p);
            lemma_object(s, i, e, k + 1, bare);
        } else {
            lemma_value(s, colon + 1, v);
            assert(past_space(s, p) == p);
            assert(e.take(k + 1) =~= e);
        }
    }
}

/// A call is read as it was written.
pub proof fn calls_read_back(name: Seq<char>, args: JsonView)
    requires
        args.wf(),
        floats_read_back(args),
        restorable_call(name, args),
    ensures
        call_of(call_text(name, args)) == Some(CallView { name, arguments: args }),
{
    reveal_strlit("call:");
    reveal_strlit("{");
    reveal_strlit("}");
    let e = args->Object_0;
    let n = e.len() as int;
    let inner = entries_text(e, n, true);
    let body = call_text(name, args);
    let rest = name + seq!['{'] + inner + seq!['}'];
    assert(body =~= "call:"@ + rest);
    assert(body.skip(5) =~= rest);
    assert(body.take(5) =~= "call:"@);
    assert(text::without_prefix(body, "call:"@) == Some(rest));
    let open = name.len() as int;
    lemma_find_at(rest, 0, "{"@);
    assert(matches_at(rest, open, "{"@)) by {
        assert(rest.subrange(open, open + 1) =~= "{"@);
    }
    let p = find_at(rest, 0, "{"@)->0;
    if p < open {
        assert(rest.subrange(p, p + 1)[0] == rest[p]);
        assert(name[p] == '{');
        assert(name.contains('{'));
    }
    assert(p == open);
    assert(rest.take(open) =~= name);
    let tail = rest.skip(open + 1);
    assert(tail =~= inner + seq!['}']);
    assert(text::without_suffix(tail, "}"@) == Some(inner)) by {
        assert(tail.skip(tail.len() - 1) =~= "}"@);
        assert(tail.take(tail.len() - 1) =~= inner);
    }
    assert(inner.subrange(0, inner.len() as int) =~= inner);
    assert(e.take(0) =~= Seq::empty());
    lemma_object(inner, 0, e, 0, true);
}

} // verus!
