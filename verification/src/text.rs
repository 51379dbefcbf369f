//! Strings as sequences of characters.
//!
//! Parsing works on character positions, so the helpers here take and return
//! slices of characters and say what they find in terms of `Seq<char>`.

use vstd::prelude::*;
use vstd::utf8::{
    decode_utf8, length_of_first_scalar, pop_first_scalar, valid_first_scalar, valid_utf8,
};

verus! {

/// `String::push` appends one character to the end of the string.
pub assume_specification[ std::string::String::push ](s: &mut std::string::String, c: char)
    ensures
        final(s)@ == old(s)@.push(c),
;

/// `String::push_str` appends the characters of the argument.
pub assume_specification[ std::string::String::push_str ](s: &mut std::string::String, t: &core::primitive::str)
    ensures
        final(s)@ == old(s)@ + t@,
;

/// `char::from_u32`: the character with this code point, unless it is a surrogate
/// or beyond the last one.
pub assume_specification[ char::from_u32 ](i: u32) -> (r: Option<char>)
    ensures
        match r {
            Some(c) => c as u32 == i,
            None => 0xD800 <= i <= 0xDFFF || i > 0x10FFFF,
        },
;

/// `==` on `str`: whether two strings hold the same characters.
#[verifier::external_body]
pub(crate) fn str_eq(a: &str, b: &str) -> (r: bool)
    ensures
        r == (a@ == b@),
{
    a == b
}

/// Length of the longest well-formed start of `b`.
pub open spec fn valid_prefix(b: Seq<u8>) -> int
    decreases b.len(),
{
    if b.len() > 0 && valid_first_scalar(b) {
        length_of_first_scalar(b) + valid_prefix(pop_first_scalar(b))
    } else {
        0
    }
}

/// `b` is the start of one character, cut short.
pub open spec fn cut_short(b: Seq<u8>) -> bool {
    exists|x: Seq<u8>| #[trigger] completes(b, x)
}

/// `x` makes one character of `b`.
pub open spec fn completes(b: Seq<u8>, x: Seq<u8>) -> bool {
    &&& x.len() > 0
    &&& valid_first_scalar(b + x)
    &&& length_of_first_scalar(b + x) == b.len() + x.len()
}

/// `std::str::from_utf8`: the text of well-formed bytes; of others, how many bytes
/// are up to the first that is not, and whether what follows could be a character
/// whose last bytes are still to come (`Utf8Error::valid_up_to` and `error_len`).
#[verifier::external_body]
pub(crate) fn utf8(bytes: &[u8]) -> (r: Result<&str, (usize, bool)>)
    ensures
        match r {
            Ok(s) => valid_utf8(bytes@) && s@ == decode_utf8(bytes@),
            Err((n, cut)) => {
                &&& !valid_utf8(bytes@)
                &&& n == valid_prefix(bytes@)
                &&& cut == cut_short(bytes@.skip(n as int))
            },
        },
{
    std::str::from_utf8(bytes).map_err(|e| (e.valid_up_to(), e.error_len().is_none()))
}

/// The well-formed start is well formed, and lies within the bytes.
pub proof fn lemma_valid_prefix(b: Seq<u8>)
    ensures
        0 <= valid_prefix(b) <= b.len(),
        valid_utf8(b.take(valid_prefix(b))),
        valid_utf8(b) ==> valid_prefix(b) == b.len(),
        valid_prefix(b) < b.len() ==> !valid_first_scalar(b.skip(valid_prefix(b))),
    decreases b.len(),
{
    if b.len() > 0 && valid_first_scalar(b) {
        let n = length_of_first_scalar(b);
        let rest = pop_first_scalar(b);
        lemma_valid_prefix(rest);
        let k = valid_prefix(rest);
        let whole = b.take(n + k);
        assert(rest =~= b.skip(n));
        assert(pop_first_scalar(whole) =~= rest.take(k));
        assert(valid_first_scalar(whole)) by {
            assert(forall|i: int| 0 <= i < n ==> whole[i] == b[i]);
        }
        assert(b.skip(n + k) =~= rest.skip(k));
    } else {
        assert(b.take(0) =~= Seq::empty());
        assert(b.skip(0) =~= b);
    }
}

/// The characters of `s`, in order.
pub fn chars_of(s: &str) -> (v: Vec<char>)
    ensures
        v@ == s@,
{
    let mut v: Vec<char> = Vec::new();
    for c in it: s.chars()
        invariant
            it.seq() == s@,
            v@ == s@.subrange(0, it.index() as int),
    {
        v.push(c);
        assert(v@ =~= s@.subrange(0, it.index() + 1));
    }
    assert(s@.subrange(0, s@.len() as int) =~= s@);
    v
}

/// The string made of `chars`.
pub fn string_of(chars: &[char]) -> (s: String)
    ensures
        s@ == chars@,
{
    let mut s = String::new();
    push_chars(&mut s, chars);
    assert(s@ =~= chars@);
    s
}

/// Append `chars` to `s`.
pub fn push_chars(s: &mut String, chars: &[char])
    ensures
        final(s)@ == old(s)@ + chars@,
{
    let mut i: usize = 0;
    assert(s@ =~= old(s)@ + chars@.subrange(0, 0));
    while i < chars.len()
        invariant
            0 <= i <= chars@.len(),
            s@ == old(s)@ + chars@.subrange(0, i as int),
        decreases chars@.len() - i,
    {
        s.push(chars[i]);
        assert(chars@.subrange(0, i + 1) =~= chars@.subrange(0, i as int).push(chars@[i as int]));
        assert(s@ =~= old(s)@ + chars@.subrange(0, i + 1));
        i = i + 1;
    }
    assert(chars@.subrange(0, i as int) =~= chars@);
}

/// The characters `chars[from..to]` as a string.
pub fn slice_string(chars: &[char], from: usize, to: usize) -> (s: String)
    requires
        from <= to <= chars@.len(),
    ensures
        s@ == chars@.subrange(from as int, to as int),
{
    string_of(vstd::slice::slice_subrange(chars, from, to))
}

/// Whether two sequences of characters are the same.
pub fn chars_eq(a: &[char], b: &[char]) -> (r: bool)
    ensures
        r == (a@ == b@),
{
    if a.len() != b.len() {
        return false;
    }
    let mut i: usize = 0;
    while i < a.len()
        invariant
            0 <= i <= a@.len(),
            a@.len() == b@.len(),
            forall|j: int| 0 <= j < i ==> a@[j] == b@[j],
        decreases a@.len() - i,
    {
        if a[i] != b[i] {
            return false;
        }
        i = i + 1;
    }
    assert(a@ =~= b@);
    true
}

/// `needle` stands in `hay` at position `pos`.
pub open spec fn matches_at(hay: Seq<char>, pos: int, needle: Seq<char>) -> bool {
    0 <= pos && pos + needle.len() <= hay.len() && hay.subrange(pos, pos + needle.len()) == needle
}

/// Whether `needle` stands in `hay` at position `pos`.
pub fn is_at(hay: &[char], pos: usize, needle: &str) -> (r: bool)
    ensures
        r == matches_at(hay@, pos as int, needle@),
{
    let n = chars_of(needle);
    if pos > hay.len() || n.len() > hay.len() - pos {
        return false;
    }
    let r = chars_eq(vstd::slice::slice_subrange(hay, pos, pos + n.len()), n.as_slice());
    r
}

/// The first position at or after `from` where `needle` stands.
pub open spec fn find_at(hay: Seq<char>, from: int, needle: Seq<char>) -> Option<int>
    decreases hay.len() - from + 1,
{
    if from > hay.len() {
        None
    } else if matches_at(hay, from, needle) {
        Some(from)
    } else {
        find_at(hay, from + 1, needle)
    }
}

/// What `find_at` finds is an occurrence, and the first one.
pub proof fn lemma_find_at(hay: Seq<char>, from: int, needle: Seq<char>)
    requires
        0 <= from,
    ensures
        match find_at(hay, from, needle) {
            Some(p) => from <= p && p + needle.len() <= hay.len() && matches_at(hay, p, needle)
                && forall|q: int| from <= q < p ==> !matches_at(hay, q, needle),
            None => forall|q: int| from <= q ==> !matches_at(hay, q, needle),
        },
    decreases hay.len() - from + 1,
{
    if from <= hay.len() && !matches_at(hay, from, needle) {
        lemma_find_at(hay, from + 1, needle);
    }
}

/// The first position at or after `from` where `needle` stands, if there is one.
pub fn find_from(hay: &[char], from: usize, needle: &str) -> (r: Option<usize>)
    ensures
        match r {
            Some(p) => find_at(hay@, from as int, needle@) == Some(p as int),
            None => find_at(hay@, from as int, needle@) is None,
        },
        r is Some ==> from <= r->0 && r->0 + needle@.len() <= hay@.len(),
{
    let mut i: usize = from;
    while i <= hay.len()
        invariant
            from <= i,
            i <= hay@.len() + 1 || i == from,
            find_at(hay@, from as int, needle@) == find_at(hay@, i as int, needle@),
        decreases hay@.len() + 1 - i,
    {
        if is_at(hay, i, needle) {
            return Some(i);
        }
        if i == hay.len() {
            assert(find_at(hay@, i + 1, needle@) is None);
            return None;
        }
        i = i + 1;
    }
    None
}

/// `hay` from `from` on, with every occurrence of `needle` replaced, left to right.
pub open spec fn replaced_from(
    hay: Seq<char>,
    from: int,
    needle: Seq<char>,
    with: Seq<char>,
) -> Seq<char>
    decreases hay.len() - from,
    when 0 <= from && needle.len() > 0
    via replaced_decreases
{
    match find_at(hay, from, needle) {
        None => hay.skip(from),
        Some(p) => hay.subrange(from, p) + with + replaced_from(
            hay,
            p + needle.len(),
            needle,
            with,
        ),
    }
}

#[via_fn]
proof fn replaced_decreases(hay: Seq<char>, from: int, needle: Seq<char>, with: Seq<char>) {
    if from <= hay.len() {
        lemma_find_at(hay, from, needle);
    }
}

/// `hay` with every occurrence of `needle` replaced by `with`.
pub fn replace(hay: &str, needle: &str, with: &str) -> (r: String)
    requires
        needle@.len() > 0,
    ensures
        r@ == replaced_from(hay@, 0, needle@, with@),
{
    let c = chars_of(hay);
    let n = chars_of(needle).len();
    let len: usize = c.len();
    let mut out = String::new();
    let mut from: usize = 0;
    let ghost whole = replaced_from(hay@, 0, needle@, with@);
    assert(out@ + whole =~= whole);
    loop
        invariant
            from <= len,
            len == hay@.len(),
            c@ == hay@,
            n == needle@.len(),
            n > 0,
            whole == replaced_from(hay@, 0, needle@, with@),
            whole == out@ + replaced_from(hay@, from as int, needle@, with@),
        decreases len - from,
    {
        let ghost before = out@;
        match find_from(c.as_slice(), from, needle) {
            None => {
                push_chars(&mut out, vstd::slice::slice_subrange(c.as_slice(), from, len));
                assert(hay@.skip(from as int) =~= hay@.subrange(from as int, len as int));
                return out;
            },
            Some(p) => {
                push_chars(&mut out, vstd::slice::slice_subrange(c.as_slice(), from, p));
                out.push_str(with);
                let ghost rest = replaced_from(hay@, p + n, needle@, with@);
                assert(out@ + rest =~= before + (hay@.subrange(from as int, p as int) + with@
                    + rest));
                from = p + n;
            },
        }
    }
}

/// The parts of `hay` from `from` on, between the occurrences of `sep`.
pub open spec fn parts_from(hay: Seq<char>, from: int, sep: Seq<char>) -> Seq<Seq<char>>
    decreases hay.len() - from,
    when 0 <= from && sep.len() > 0
    via parts_decrease
{
    match find_at(hay, from, sep) {
        None => seq![hay.skip(from)],
        Some(p) => seq![hay.subrange(from, p)] + parts_from(hay, p + sep.len(), sep),
    }
}

#[via_fn]
proof fn parts_decrease(hay: Seq<char>, from: int, sep: Seq<char>) {
    if from <= hay.len() {
        lemma_find_at(hay, from, sep);
    }
}

/// The parts of `hay` between the occurrences of `sep`.
pub fn split(hay: &str, sep: &str) -> (r: Vec<String>)
    requires
        sep@.len() > 0,
    ensures
        views(r@) == parts_from(hay@, 0, sep@),
{
    let c = chars_of(hay);
    let n: usize = chars_of(sep).len();
    let len: usize = c.len();
    let mut out: Vec<String> = Vec::new();
    let mut from: usize = 0;
    let ghost whole = parts_from(hay@, 0, sep@);
    assert(views(out@) + whole =~= whole);
    loop
        invariant
            from <= len,
            len == hay@.len(),
            c@ == hay@,
            n == sep@.len(),
            n > 0,
            whole == parts_from(hay@, 0, sep@),
            whole == views(out@) + parts_from(hay@, from as int, sep@),
        decreases len - from,
    {
        let ghost before = views(out@);
        match find_from(c.as_slice(), from, sep) {
            None => {
                let part = slice_string(c.as_slice(), from, len);
                assert(part@ =~= hay@.skip(from as int));
                out.push(part);
                assert(views(out@) =~= before + seq![hay@.skip(from as int)]);
                return out;
            },
            Some(p) => {
                let part = slice_string(c.as_slice(), from, p);
                let ghost x = part@;
                out.push(part);
                proof {
                    let rest = parts_from(hay@, p + n, sep@);
                    assert(views(out@) =~= before.push(x));
                    assert(before + (seq![x] + rest) =~= views(out@) + rest);
                }
                from = p + n;
            },
        }
    }
}

/// `s` up to the first `mark`, or all of it.
pub open spec fn up_to(s: Seq<char>, mark: Seq<char>) -> Seq<char> {
    match find_at(s, 0, mark) {
        Some(p) => s.take(p),
        None => s,
    }
}

/// `s` up to the first `mark`, or all of it.
pub fn cut_at(s: &str, mark: &str) -> (r: String)
    ensures
        r@ == up_to(s@, mark@),
{
    let c = chars_of(s);
    match find_from(c.as_slice(), 0, mark) {
        Some(p) => {
            let t = slice_string(c.as_slice(), 0, p);
            assert(t@ =~= s@.take(p as int));
            t
        },
        None => s.to_owned(),
    }
}

/// `s` without `suffix` at its end, where it ends so.
pub open spec fn without_suffix(s: Seq<char>, suffix: Seq<char>) -> Option<Seq<char>> {
    if matches_at(s, s.len() - suffix.len(), suffix) {
        Some(s.take(s.len() - suffix.len()))
    } else {
        None
    }
}

/// `s` without `suffix` at its end, where it ends so.
pub fn strip_suffix(s: &str, suffix: &str) -> (r: Option<String>)
    ensures
        match r {
            Some(t) => without_suffix(s@, suffix@) == Some(t@),
            None => without_suffix(s@, suffix@) is None,
        },
{
    let c = chars_of(s);
    let n = chars_of(suffix).len();
    if n > c.len() {
        return None;
    }
    if is_at(c.as_slice(), c.len() - n, suffix) {
        let t = slice_string(c.as_slice(), 0, c.len() - n);
        assert(t@ =~= s@.take(s@.len() - suffix@.len()));
        Some(t)
    } else {
        None
    }
}

/// `s` without `prefix` at its start, where it starts so.
pub open spec fn without_prefix(s: Seq<char>, prefix: Seq<char>) -> Option<Seq<char>> {
    if matches_at(s, 0, prefix) {
        Some(s.skip(prefix.len() as int))
    } else {
        None
    }
}

/// `s` without `prefix` at its start, where it starts so.
pub fn strip_prefix(s: &str, prefix: &str) -> (r: Option<String>)
    ensures
        match r {
            Some(t) => without_prefix(s@, prefix@) == Some(t@),
            None => without_prefix(s@, prefix@) is None,
        },
{
    let c = chars_of(s);
    if is_at(c.as_slice(), 0, prefix) {
        let n = chars_of(prefix).len();
        let t = slice_string(c.as_slice(), n, c.len());
        assert(t@ =~= s@.skip(prefix@.len() as int));
        Some(t)
    } else {
        None
    }
}

/// Whitespace: the Unicode property of that name.
pub open spec fn white(c: char) -> bool {
    let u = c as u32;
    0x9 <= u <= 0xD || u == 0x20 || u == 0x85 || u == 0xA0 || u == 0x1680 || 0x2000 <= u <= 0x200A
        || u == 0x2028 || u == 0x2029 || u == 0x202F || u == 0x205F || u == 0x3000
}

/// Whether `c` is whitespace.
pub fn is_white(c: char) -> (r: bool)
    ensures
        r == white(c),
{
    let u: u32 = c as u32;
    (0x9 <= u && u <= 0xD) || u == 0x20 || u == 0x85 || u == 0xA0 || u == 0x1680 || (0x2000 <= u
        && u <= 0x200A) || u == 0x2028 || u == 0x2029 || u == 0x202F || u == 0x205F || u == 0x3000
}

/// Without whitespace in front.
pub open spec fn trimmed_start(s: Seq<char>) -> Seq<char>
    decreases s.len(),
{
    if s.len() > 0 && white(s[0]) {
        trimmed_start(s.drop_first())
    } else {
        s
    }
}

/// Without whitespace behind.
pub open spec fn trimmed_end(s: Seq<char>) -> Seq<char>
    decreases s.len(),
{
    if s.len() > 0 && white(s.last()) {
        trimmed_end(s.drop_last())
    } else {
        s
    }
}

/// Without whitespace at either end.
pub open spec fn trimmed(s: Seq<char>) -> Seq<char> {
    trimmed_end(trimmed_start(s))
}

/// The part of `c` without whitespace at either end.
pub fn trim_chars(c: &[char]) -> (r: &[char])
    ensures
        r@ == trimmed(c@),
{
    let n: usize = c.len();
    let mut from: usize = 0;
    assert(c@.subrange(0, n as int) =~= c@);
    while from < n && is_white(c[from])
        invariant
            from <= n,
            n == c@.len(),
            trimmed_start(c@) == trimmed_start(c@.subrange(from as int, n as int)),
        decreases n - from,
    {
        assert(c@.subrange(from as int, n as int).drop_first() =~= c@.subrange(
            from + 1,
            n as int,
        ));
        from = from + 1;
    }
    let ghost rest = c@.subrange(from as int, n as int);
    let mut to: usize = n;
    while from < to && is_white(c[to - 1])
        invariant
            from <= to <= n,
            n == c@.len(),
            trimmed_end(rest) == trimmed_end(c@.subrange(from as int, to as int)),
        decreases to - from,
    {
        assert(c@.subrange(from as int, to as int).drop_last() =~= c@.subrange(
            from as int,
            to - 1,
        ));
        to = to - 1;
    }
    vstd::slice::slice_subrange(c, from, to)
}

/// `s` without whitespace at either end.
pub fn trim(s: &str) -> (r: String)
    ensures
        r@ == trimmed(s@),
{
    let c = chars_of(s);
    string_of(trim_chars(c.as_slice()))
}

/// `a` comes before `b` in the order of code points.
pub open spec fn before(a: Seq<char>, b: Seq<char>) -> bool
    decreases a.len(),
{
    if b.len() == 0 {
        false
    } else if a.len() == 0 {
        true
    } else {
        a[0] < b[0] || a[0] == b[0] && before(a.drop_first(), b.drop_first())
    }
}

/// Whether `a` comes before `b` in the order of code points.
pub fn is_before(a: &str, b: &str) -> (r: bool)
    ensures
        r == before(a@, b@),
{
    let x = chars_of(a);
    let y = chars_of(b);
    let mut i: usize = 0;
    assert(a@.skip(0) =~= a@);
    assert(b@.skip(0) =~= b@);
    while i < x.len() && i < y.len()
        invariant
            x@ == a@,
            y@ == b@,
            i <= x@.len(),
            i <= y@.len(),
            before(a@, b@) == before(a@.skip(i as int), b@.skip(i as int)),
        decreases x@.len() - i,
    {
        assert(a@.skip(i as int).drop_first() =~= a@.skip(i + 1));
        assert(b@.skip(i as int).drop_first() =~= b@.skip(i + 1));
        if x[i] < y[i] {
            return true;
        }
        if x[i] != y[i] {
            return false;
        }
        i = i + 1;
    }
    i < y.len()
}

/// The order is one: of different strings exactly one comes first, and coming
/// first carries over.
pub proof fn lemma_before(a: Seq<char>, b: Seq<char>)
    ensures
        !before(a, a),
        a != b ==> before(a, b) != before(b, a),
    decreases a.len(),
{
    if a.len() > 0 {
        lemma_before(a.drop_first(), a.drop_first());
        if b.len() > 0 {
            lemma_before(a.drop_first(), b.drop_first());
            if a[0] == b[0] && a.drop_first() == b.drop_first() {
                assert(a =~= seq![a[0]] + a.drop_first());
                assert(b =~= seq![b[0]] + b.drop_first());
            }
        }
    } else if b.len() == 0 {
        assert(a =~= b);
    }
}

pub proof fn lemma_before_transitive(a: Seq<char>, b: Seq<char>, c: Seq<char>)
    requires
        before(a, b),
        before(b, c),
    ensures
        before(a, c),
    decreases a.len(),
{
    if a.len() > 0 && b.len() > 0 && c.len() > 0 && a[0] == b[0] && b[0] == c[0] {
        lemma_before_transitive(a.drop_first(), b.drop_first(), c.drop_first());
    }
}

/// What `str::to_uppercase` makes of a string.
pub uninterp spec fn uppercase(s: Seq<char>) -> Seq<char>;

/// An ASCII letter in upper case; other characters as they are.
pub open spec fn ascii_upper(c: char) -> char {
    if 'a' <= c <= 'z' {
        (c as u32 - 32) as char
    } else {
        c
    }
}

/// `str::to_uppercase`: the upper-case equivalent of a string. Beyond ASCII, where
/// letters map one to one, what it is is only named.
#[verifier::external_body]
pub(crate) fn to_upper(s: &str) -> (r: String)
    ensures
        r@ == uppercase(s@),
        (forall|i: int| 0 <= i < s@.len() ==> #[trigger] s@[i] as u32 <= 0x7F) ==> r@
            == s@.map_values(|c: char| ascii_upper(c)),
{
    s.to_uppercase()
}

/// The digit character for `d`.
pub open spec fn digit(d: int) -> char {
    if d == 0 {
        '0'
    } else if d == 1 {
        '1'
    } else if d == 2 {
        '2'
    } else if d == 3 {
        '3'
    } else if d == 4 {
        '4'
    } else if d == 5 {
        '5'
    } else if d == 6 {
        '6'
    } else if d == 7 {
        '7'
    } else if d == 8 {
        '8'
    } else {
        '9'
    }
}

pub(crate) fn digit_char(d: u64) -> (c: char)
    requires
        d < 10,
    ensures
        c == digit(d as int),
{
    if d == 0 {
        '0'
    } else if d == 1 {
        '1'
    } else if d == 2 {
        '2'
    } else if d == 3 {
        '3'
    } else if d == 4 {
        '4'
    } else if d == 5 {
        '5'
    } else if d == 6 {
        '6'
    } else if d == 7 {
        '7'
    } else if d == 8 {
        '8'
    } else {
        '9'
    }
}

/// `n` in decimal, without leading zeros.
pub open spec fn decimal(n: nat) -> Seq<char>
    decreases n,
{
    if n < 10 {
        seq![digit(n as int)]
    } else {
        decimal(n / 10).push(digit((n % 10) as int))
    }
}

/// No two numbers are written alike.
pub proof fn lemma_decimal_one_to_one(a: nat, b: nat)
    requires
        a != b,
    ensures
        decimal(a) != decimal(b),
    decreases a + b,
{
    lemma_decimal_len(a);
    lemma_decimal_len(b);
    if a >= 10 && b >= 10 {
        if a / 10 != b / 10 {
            lemma_decimal_one_to_one(a / 10, b / 10);
        }
        let x = decimal(a);
        let y = decimal(b);
        if x == y {
            assert(x.drop_last() =~= decimal(a / 10));
            assert(y.drop_last() =~= decimal(b / 10));
            assert(x.last() == y.last());
        }
    } else if a >= 10 {
        lemma_decimal_len(a / 10);
    } else if b >= 10 {
        lemma_decimal_len(b / 10);
    } else {
        assert(decimal(a)[0] != decimal(b)[0]);
    }
}

proof fn lemma_decimal_len(a: nat)
    ensures
        decimal(a).len() > 0,
{
}

/// `n` in decimal, without leading zeros.
pub fn decimal_string(n: u64) -> (s: String)
    ensures
        s@ == decimal(n as nat),
    decreases n,
{
    if n < 10 {
        let mut s = String::new();
        s.push(digit_char(n));
        assert(s@ =~= seq![digit(n as int)]);
        s
    } else {
        let mut s = decimal_string(n / 10);
        s.push(digit_char(n % 10));
        s
    }
}

/// `a`, then `n` in decimal, then `b`.
pub open spec fn numbered(a: Seq<char>, n: nat, b: Seq<char>) -> Seq<char> {
    a + decimal(n) + b
}

/// `a`, then `n` in decimal, then `b`.
pub fn numbered_string(a: &str, n: usize, b: &str) -> (s: String)
    ensures
        s@ == numbered(a@, n as nat, b@),
{
    let mut s = String::new();
    s.push_str(a);
    let d = decimal_string(n as u64);
    s.push_str(d.as_str());
    s.push_str(b);
    assert(s@ =~= numbered(a@, n as nat, b@));
    s
}

/// `a`, then `n` in decimal.
pub open spec fn tagged(a: Seq<char>, n: nat) -> Seq<char> {
    a + decimal(n)
}

/// `a`, then `n` in decimal.
pub fn tagged_string(a: &str, n: usize) -> (s: String)
    ensures
        s@ == tagged(a@, n as nat),
{
    let mut s = String::new();
    s.push_str(a);
    let d = decimal_string(n as u64);
    s.push_str(d.as_str());
    assert(s@ =~= tagged(a@, n as nat));
    s
}

/// The views of the strings, in order.
pub open spec fn views(v: Seq<String>) -> Seq<Seq<char>> {
    v.map_values(|s: String| s@)
}

} // verus!
