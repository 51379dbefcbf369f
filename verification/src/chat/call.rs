//! Reading tool calls in the gemma4 syntax.
//!
//! The grammar is small but not JSON: keys are bare, and only `<|"|>`-delimited
//! runs are strings. Anything unquoted that does not parse as a literal is kept as
//! a string, so a malformed call degrades instead of being dropped.

use crate::chat::dsl::QUOTE;
use crate::hub::{lemma_number_nonneg, number};
use crate::json::{
    self, entries, finite_literal, inserted, items, lemma_inserted_wf, lemma_item_wf,
    lemma_list_view, lemma_object_view, Entries, Entry, Json, JsonView, Number,
};
use crate::text::{self, matches_at, white};
use vstd::prelude::*;

verus! {

#[derive(Debug)]
pub struct ToolCall {
    pub name: String,
    pub arguments: Json,
}

#[verifier::ext_equal]
pub ghost struct CallView {
    pub name: Seq<char>,
    pub arguments: JsonView,
}

impl View for ToolCall {
    type V = CallView;

    open spec fn view(&self) -> CallView {
        CallView { name: self.name@, arguments: self.arguments@ }
    }
}

/// Every call has arguments that JSON has.
pub open spec fn calls_wf(v: Seq<CallView>) -> bool {
    forall|i: int| 0 <= i < v.len() ==> (#[trigger] v[i]).arguments.wf()
}

pub open spec fn call_views(v: Seq<ToolCall>) -> Seq<CallView> {
    v.map_values(|c: ToolCall| c@)
}

// ---------------------------------------------------------------------------
// Literals
// ---------------------------------------------------------------------------
/// A signed 64-bit number: an optional sign, then digits.
pub open spec fn integer(s: Seq<char>) -> Option<int> {
    let neg = s.len() > 0 && s[0] == '-';
    let digits = if s.len() > 0 && (s[0] == '-' || s[0] == '+') {
        s.skip(1)
    } else {
        s
    };
    match number(digits) {
        Some(n) => if digits.len() == 0 {
            None
        } else if neg && n <= 0x8000_0000_0000_0000 {
            Some(-n)
        } else if !neg && n <= 0x7FFF_FFFF_FFFF_FFFF {
            Some(n)
        } else {
            None
        },
        None => None,
    }
}

pub open spec fn integer_value(i: int) -> JsonView {
    JsonView::Number(
        if i < 0 {
            Number::Neg(i as i64)
        } else {
            Number::Pos(i as u64)
        },
    )
}

/// What an unquoted run stands for: a literal if it is one, otherwise a string.
pub open spec fn literal(t: Seq<char>) -> JsonView {
    if t == "true"@ {
        JsonView::Bool(true)
    } else if t == "false"@ {
        JsonView::Bool(false)
    } else if t == "null"@ {
        JsonView::Null
    } else {
        match integer(t) {
            Some(i) => integer_value(i),
            None => match finite_literal(t) {
                Some(Some(bits)) => JsonView::Number(Number::Float(bits)),
                Some(None) => JsonView::Null,
                None => JsonView::Text(t),
            },
        }
    }
}

fn parse_integer(c: &[char]) -> (r: Option<i64>)
    ensures
        match r {
            Some(i) => integer(c@) == Some(i as int),
            None => integer(c@) is None,
        },
{
    let n: usize = c.len();
    let neg: bool = n > 0 && c[0] == '-';
    let from: usize = if n > 0 && (c[0] == '-' || c[0] == '+') { 1 } else { 0 };
    let digits = text::string_of(vstd::slice::slice_subrange(c, from, n));
    proof {
        if from == 0 {
            assert(digits@ =~= c@);
        } else {
            assert(digits@ =~= c@.skip(1));
        }
    }
    if from == n {
        return None;
    }
    if n > from && c[from] == '+' {
        proof {
            lemma_no_sign(digits@);
        }
        return None;
    }
    assert(digits@[0] == c@[from as int]);
    proof {
        lemma_number_nonneg(digits@);
    }
    match crate::hub::parse_u64(digits.as_str()) {
        Some(u) => {
            if neg {
                if u < 0x8000_0000_0000_0000 {
                    Some(-(u as i64))
                } else if u == 0x8000_0000_0000_0000 {
                    Some(i64::MIN)
                } else {
                    None
                }
            } else if u <= 0x7FFF_FFFF_FFFF_FFFF {
                Some(u as i64)
            } else {
                None
            }
        },
        None => None,
    }
}

/// A sign is no digit.
proof fn lemma_no_sign(s: Seq<char>)
    requires
        s.len() > 0,
        s[0] == '+',
    ensures
        number(s) is None,
    decreases s.len(),
{
    if s.len() > 1 {
        lemma_no_sign(s.drop_last());
    }
}

fn parse_literal(c: &[char]) -> (r: Json)
    ensures
        r@ == literal(c@),
        r@.wf(),
{
    let t = text::string_of(c);
    if text::str_eq(t.as_str(), "true") {
        return Json::Bool(true);
    }
    if text::str_eq(t.as_str(), "false") {
        return Json::Bool(false);
    }
    if text::str_eq(t.as_str(), "null") {
        return Json::Null;
    }
    match parse_integer(c) {
        Some(i) => if i < 0 {
            Json::Number(Number::Neg(i))
        } else {
            Json::Number(Number::Pos(i as u64))
        },
        None => match json::parse_float(t.as_str()) {
            Some(Some(bits)) => Json::Number(Number::Float(bits)),
            Some(None) => Json::Null,
            None => Json::Text(t),
        },
    }
}

// ---------------------------------------------------------------------------
// Grammar
// ---------------------------------------------------------------------------
/// First position at or after `i` that is no whitespace.
pub open spec fn past_space(s: Seq<char>, i: int) -> int
    decreases s.len() - i,
{
    if 0 <= i < s.len() && white(s[i]) {
        past_space(s, i + 1)
    } else {
        i
    }
}

/// Behind `tok`, where it stands at `i`.
pub open spec fn eat(s: Seq<char>, i: int, tok: Seq<char>) -> int {
    if matches_at(s, i, tok) {
        i + tok.len()
    } else {
        i
    }
}

/// Where the next quote marker stands; the end where there is none.
pub open spec fn quote_end(s: Seq<char>, i: int) -> int {
    match text::find_at(s, i, QUOTE@) {
        Some(p) => p,
        None => s.len() as int,
    }
}

/// How deep the nesting is behind `c`.
pub open spec fn deeper(depth: int, c: char) -> int {
    if c == '{' || c == '[' {
        depth + 1
    } else if (c == '}' || c == ']') && depth > 0 {
        depth - 1
    } else {
        depth
    }
}

/// A character that ends a bare run: a colon ends a key; a comma or a closing
/// bracket a value.
pub open spec fn ends_run(c: char, key: bool) -> bool {
    if key {
        c == ':'
    } else {
        c == ',' || c == '}' || c == ']'
    }
}

/// Where a bare run from `i` on ends, with nested structures kept whole.
pub open spec fn run_end(s: Seq<char>, i: int, depth: int, key: bool) -> int
    decreases s.len() - i,
{
    if i >= s.len() {
        s.len() as int
    } else if deeper(depth, s[i]) == 0 && ends_run(s[i], key) {
        i
    } else {
        run_end(s, i + 1, deeper(depth, s[i]), key)
    }
}

/// A quoted string from `i` on, where its opening marker ends, and the position
/// behind its closing one.
pub open spec fn quoted_run(s: Seq<char>, i: int) -> (Seq<char>, int) {
    (s.subrange(i, quote_end(s, i)), eat(s, quote_end(s, i), QUOTE@))
}

/// The value at `i`, and the position behind it.
pub open spec fn value_at(s: Seq<char>, i: int) -> (JsonView, int)
    decreases s.len() - i, 0int,
    when 0 <= i
{
    let j = past_space(s, i);
    if j < i {
        (JsonView::Null, i)
    } else if matches_at(s, j, QUOTE@) {
        let (t, p) = quoted_run(s, j + QUOTE@.len());
        (JsonView::Text(t), p)
    } else if j < s.len() && s[j] == '[' {
        let (a, p) = list_at(s, j + 1, Seq::empty());
        (JsonView::List(a), p)
    } else if j < s.len() && s[j] == '{' {
        let (m, p) = object_at(s, j + 1, Seq::empty());
        (JsonView::Object(m), eat(s, p, seq!['}']))
    } else {
        let e = run_end(s, j, 0, false);
        (literal(text::trimmed(s.subrange(j, e))), e)
    }
}

/// The items from `i` on, behind those before, and the position behind the list.
pub open spec fn list_at(s: Seq<char>, i: int, acc: Seq<JsonView>) -> (Seq<JsonView>, int)
    decreases s.len() - i, 1int,
    when 0 <= i
{
    let j = past_space(s, i);
    if j < i || j >= s.len() {
        (acc, j)
    } else if s[j] == ']' {
        (acc, j + 1)
    } else {
        let (v, p) = value_at(s, j);
        let q = past_space(s, p);
        if j <= q < s.len() && s[q] == ',' {
            list_at(s, q + 1, acc.push(v))
        } else {
            (acc.push(v), eat(s, q, seq![']']))
        }
    }
}

/// The key at `i`, and the position behind it.
pub open spec fn key_run(s: Seq<char>, i: int) -> (Seq<char>, int) {
    if matches_at(s, i, QUOTE@) {
        quoted_run(s, i + QUOTE@.len())
    } else {
        (s.subrange(i, run_end(s, i, 0, true)), run_end(s, i, 0, true))
    }
}

/// The entries from `i` on, put to those before, and the position behind them:
/// `key:value` pairs until the input runs out or a closing brace is hit.
pub open spec fn object_at(s: Seq<char>, i: int, acc: Entries) -> (Entries, int)
    decreases s.len() - i, 1int,
    when 0 <= i
{
    let j = past_space(s, i);
    if j < i || j >= s.len() || s[j] == '}' {
        (acc, j)
    } else {
        let (key, k) = key_run(s, j);
        if !(j <= k < s.len() && s[k] == ':') {
            (acc, k)
        } else {
            let (v, p) = value_at(s, k + 1);
            let acc2 = inserted(acc, text::trimmed(key), v);
            let q = past_space(s, p);
            if k < q < s.len() && s[q] == ',' {
                object_at(s, q + 1, acc2)
            } else {
                (acc2, q)
            }
        }
    }
}

/// A `call:NAME{...}` body.
pub open spec fn call_of(body: Seq<char>) -> Option<CallView> {
    match text::without_prefix(body, "call:"@) {
        None => None,
        Some(rest) => match text::find_at(rest, 0, "{"@) {
            None => None,
            Some(open) => {
                let name = text::trimmed(rest.take(open));
                let tail = rest.skip(open + 1);
                let inner = match text::without_suffix(tail, "}"@) {
                    Some(x) => x,
                    None => tail,
                };
                if name.len() == 0 {
                    None
                } else {
                    Some(
                        CallView {
                            name,
                            arguments: JsonView::Object(object_at(inner, 0, Seq::empty()).0),
                        },
                    )
                }
            },
        },
    }
}

// ---------------------------------------------------------------------------
// Parser
// ---------------------------------------------------------------------------
fn skip_space(s: &[char], i: usize) -> (r: usize)
    requires
        i <= s@.len(),
    ensures
        r == past_space(s@, i as int),
        i <= r <= s@.len(),
{
    let n: usize = s.len();
    let mut j: usize = i;
    while j < n && text::is_white(s[j])
        invariant
            i <= j <= n,
            n == s@.len(),
            past_space(s@, i as int) == past_space(s@, j as int),
        decreases n - j,
    {
        j = j + 1;
    }
    j
}

fn skip_quote(s: &[char], i: usize) -> (r: usize)
    requires
        i <= s@.len(),
    ensures
        r == eat(s@, i as int, QUOTE@),
        i <= r <= s@.len(),
{
    let n: usize = s.len();
    if text::is_at(s, i, QUOTE) {
        proof {
            reveal_strlit("<|\"|>");
            assert(i + 5 <= n);
        }
        i + 5
    } else {
        i
    }
}

fn skip_char(s: &[char], i: usize, c: char) -> (r: usize)
    requires
        i <= s@.len(),
    ensures
        r == eat(s@, i as int, seq![c]),
        i <= r <= s@.len(),
{
    let n: usize = s.len();
    proof {
        if i < n {
            assert(s@.subrange(i as int, i + 1) =~= seq![s@[i as int]]);
            if s@[i as int] != c {
                assert(seq![s@[i as int]][0] != seq![c][0]);
            }
        }
    }
    if i < n && s[i] == c {
        i + 1
    } else {
        i
    }
}

fn end_of_quote(s: &[char], i: usize) -> (r: usize)
    requires
        i <= s@.len(),
    ensures
        r == quote_end(s@, i as int),
        i <= r <= s@.len(),
{
    match text::find_from(s, i, QUOTE) {
        Some(p) => p,
        None => s.len(),
    }
}

fn end_of_run(s: &[char], i: usize, key: bool) -> (r: usize)
    requires
        i <= s@.len(),
    ensures
        r == run_end(s@, i as int, 0, key),
        i <= r <= s@.len(),
{
    let n: usize = s.len();
    let mut depth: usize = 0;
    let mut j: usize = i;
    while j < n
        invariant
            i <= j <= n,
            n == s@.len(),
            depth <= j,
            run_end(s@, i as int, 0, key) == run_end(s@, j as int, depth as int, key),
        decreases n - j,
    {
        let c: char = s[j];
        if c == '{' || c == '[' {
            depth = depth + 1;
        } else if (c == '}' || c == ']') && depth > 0 {
            depth = depth - 1;
        }
        let ends: bool = if key { c == ':' } else { c == ',' || c == '}' || c == ']' };
        if depth == 0 && ends {
            return j;
        }
        j = j + 1;
    }
    n
}

/// A list with one more well-formed item is well formed.
proof fn lemma_pushed_wf(a: Seq<JsonView>, x: JsonView)
    requires
        JsonView::List(a).wf(),
        x.wf(),
    ensures
        JsonView::List(a.push(x)).wf(),
{
    let b = a.push(x);
    assert forall|i: int| 0 <= i < b.len() implies (#[trigger] b[i]).wf() by {
        if i < a.len() {
            lemma_item_wf(a, i);
        }
    }
    reveal_with_fuel(JsonView::wf, 2);
}

fn parse_value(s: &[char], i: usize) -> (r: (Json, usize))
    requires
        i <= s@.len(),
    ensures
        (r.0@, r.1 as int) == value_at(s@, i as int),
        r.0@.wf(),
        i <= r.1 <= s@.len(),
    decreases s@.len() - i, 0int,
{
    let n: usize = s.len();
    let j: usize = skip_space(s, i);
    if text::is_at(s, j, QUOTE) {
        proof {
            reveal_strlit("<|\"|>");
        }
        let start: usize = j + 5;
        let end: usize = end_of_quote(s, start);
        let t = text::slice_string(s, start, end);
        return (Json::Text(t), skip_quote(s, end));
    }
    if j < n && s[j] == '[' {
        let (a, p) = parse_list(s, j + 1);
        proof {
            lemma_list_view(a);
        }
        return (Json::List(a), p);
    }
    if j < n && s[j] == '{' {
        let (m, p) = parse_object(s, j + 1);
        proof {
            lemma_object_view(m);
        }
        return (Json::Object(m), skip_char(s, p, '}'));
    }
    let e: usize = end_of_run(s, j, false);
    let run = vstd::slice::slice_subrange(s, j, e);
    (parse_literal(text::trim_chars(run)), e)
}

fn parse_list(s: &[char], i: usize) -> (r: (Vec<Json>, usize))
    requires
        i <= s@.len(),
    ensures
        (items(r.0@), r.1 as int) == list_at(s@, i as int, Seq::empty()),
        JsonView::List(items(r.0@)).wf(),
        i <= r.1 <= s@.len(),
    decreases s@.len() - i, 1int,
{
    let n: usize = s.len();
    let mut a: Vec<Json> = Vec::new();
    let mut at: usize = i;
    assert(items(a@) =~= Seq::empty());
    loop
        invariant
            i <= at <= n,
            n == s@.len(),
            list_at(s@, i as int, Seq::empty()) == list_at(s@, at as int, items(a@)),
            JsonView::List(items(a@)).wf(),
        decreases n - at,
    {
        let ghost acc = items(a@);
        let j: usize = skip_space(s, at);
        if j >= n {
            return (a, j);
        }
        if s[j] == ']' {
            return (a, j + 1);
        }
        let (v, p) = parse_value(s, j);
        let ghost x = v@;
        a.push(v);
        proof {
            assert(items(a@) =~= acc.push(x));
            lemma_pushed_wf(acc, x);
        }
        let q: usize = skip_space(s, p);
        if q < n && s[q] == ',' {
            at = q + 1;
        } else {
            return (a, skip_char(s, q, ']'));
        }
    }
}

fn parse_object(s: &[char], i: usize) -> (r: (Vec<Entry>, usize))
    requires
        i <= s@.len(),
    ensures
        (entries(r.0@), r.1 as int) == object_at(s@, i as int, Seq::empty()),
        JsonView::Object(entries(r.0@)).wf(),
        i <= r.1 <= s@.len(),
    decreases s@.len() - i, 1int,
{
    let n: usize = s.len();
    let mut m: Vec<Entry> = Vec::new();
    let mut at: usize = i;
    assert(entries(m@) =~= Seq::empty());
    loop
        invariant
            i <= at <= n,
            n == s@.len(),
            object_at(s@, i as int, Seq::empty()) == object_at(s@, at as int, entries(m@)),
            JsonView::Object(entries(m@)).wf(),
        decreases n - at,
    {
        let j: usize = skip_space(s, at);
        if j >= n || s[j] == '}' {
            return (m, j);
        }
        let (key, k) = parse_key(s, j);
        if !(k < n && s[k] == ':') {
            return (m, k);
        }
        let (v, p) = parse_value(s, k + 1);
        proof {
            lemma_inserted_wf(entries(m@), key@, v@);
        }
        json::insert(&mut m, key, v);
        let q: usize = skip_space(s, p);
        if q < n && s[q] == ',' {
            at = q + 1;
        } else {
            return (m, q);
        }
    }
}

/// The key at `i`, trimmed, and the position behind it.
fn parse_key(s: &[char], i: usize) -> (r: (String, usize))
    requires
        i <= s@.len(),
    ensures
        r.0@ == text::trimmed(key_run(s@, i as int).0),
        r.1 == key_run(s@, i as int).1,
        i <= r.1 <= s@.len(),
{
    let n: usize = s.len();
    if text::is_at(s, i, QUOTE) {
        proof {
            reveal_strlit("<|\"|>");
            assert(i + 5 <= n);
        }
        let start: usize = i + 5;
        let end: usize = end_of_quote(s, start);
        let run = vstd::slice::slice_subrange(s, start, end);
        (text::string_of(text::trim_chars(run)), skip_quote(s, end))
    } else {
        let end: usize = end_of_run(s, i, true);
        let run = vstd::slice::slice_subrange(s, i, end);
        (text::string_of(text::trim_chars(run)), end)
    }
}

/// Parse a `call:NAME{...}` body into a name and an argument object.
pub fn parse_call(body: &str) -> (r: Option<ToolCall>)
    ensures
        match r {
            Some(c) => call_of(body@) == Some(c@) && c@.arguments.wf(),
            None => call_of(body@) is None,
        },
{
    let rest = match text::strip_prefix(body, "call:") {
        Some(r) => r,
        None => {
            return None;
        },
    };
    proof {
        reveal_strlit("{");
    }
    let c = text::chars_of(rest.as_str());
    let n: usize = c.len();
    let open: usize = match text::find_from(c.as_slice(), 0, "{") {
        Some(p) => p,
        None => {
            return None;
        },
    };
    let head = vstd::slice::slice_subrange(c.as_slice(), 0, open);
    assert(head@ =~= rest@.take(open as int));
    let name = text::string_of(text::trim_chars(head));
    let tail = text::slice_string(c.as_slice(), open + 1, n);
    assert(tail@ =~= rest@.skip(open + 1));
    let inner = match text::strip_suffix(tail.as_str(), "}") {
        Some(x) => x,
        None => tail,
    };
    if name.as_str().is_empty() {
        return None;
    }
    let s = text::chars_of(inner.as_str());
    let (m, _) = parse_object(s.as_slice(), 0);
    proof {
        lemma_object_view(m);
    }
    Some(ToolCall { name, arguments: Json::Object(m) })
}

// ---------------------------------------------------------------------------
// Calls in ordinary text
// ---------------------------------------------------------------------------
/// Behind the brace that closes the one at which the walk began, from `i` on.
pub open spec fn closing(t: Seq<char>, i: int, depth: int) -> Option<int>
    decreases t.len() - i,
{
    if i >= t.len() {
        None
    } else if t[i] == '{' {
        closing(t, i + 1, depth + 1)
    } else if t[i] == '}' {
        if depth == 1 {
            Some(i + 1)
        } else {
            closing(t, i + 1, depth - 1)
        }
    } else {
        closing(t, i + 1, depth)
    }
}

#[verifier::ext_equal]
pub ghost struct FoundView {
    pub start: int,
    pub end: int,
    pub call: CallView,
}

/// A call in a text: the characters `start..end`.
#[derive(Debug)]
pub struct Found {
    pub start: usize,
    pub end: usize,
    pub call: ToolCall,
}

impl View for Found {
    type V = FoundView;

    open spec fn view(&self) -> FoundView {
        FoundView { start: self.start as int, end: self.end as int, call: self.call@ }
    }
}

pub open spec fn found_views(v: Seq<Found>) -> Seq<FoundView> {
    v.map_values(|f: Found| f@)
}

/// The calls in `t` from `from` on: `call:` up to the brace that closes the first
/// one behind it, where that parses.
pub open spec fn bare_calls(t: Seq<char>, from: int) -> Seq<FoundView>
    decreases t.len() - from,
    when 0 <= from
    via bare_calls_decrease
{
    match text::find_at(t, from, "call:"@) {
        None => Seq::empty(),
        Some(start) => match text::find_at(t, start, "{"@) {
            None => Seq::empty(),
            Some(open) => match closing(t, open, 0) {
                None => Seq::empty(),
                Some(end) => match call_of(t.subrange(start, end)) {
                    Some(call) => seq![FoundView { start, end, call }] + bare_calls(t, end),
                    None => bare_calls(t, open + 1),
                },
            },
        },
    }
}

/// A closing brace lies within the text, behind where the walk began.
pub proof fn lemma_closing(t: Seq<char>, i: int, depth: int)
    requires
        0 <= i,
    ensures
        closing(t, i, depth) is Some ==> i < closing(t, i, depth)->0 <= t.len(),
    decreases t.len() - i,
{
    if i < t.len() {
        lemma_closing(t, i + 1, depth + 1);
        lemma_closing(t, i + 1, depth - 1);
        lemma_closing(t, i + 1, depth);
    }
}

#[via_fn]
proof fn bare_calls_decrease(t: Seq<char>, from: int) {
    text::lemma_find_at(t, from, "call:"@);
    reveal_strlit("{");
    match text::find_at(t, from, "call:"@) {
        None => {},
        Some(start) => {
            text::lemma_find_at(t, start, "{"@);
            match text::find_at(t, start, "{"@) {
                None => {},
                Some(open) => {
                    lemma_closing(t, open, 0);
                },
            }
        },
    }
}

fn find_closing(t: &Vec<char>, open: usize) -> (r: Option<usize>)
    requires
        open < t@.len(),
        t@[open as int] == '{',
    ensures
        match r {
            Some(e) => closing(t@, open as int, 0) == Some(e as int) && open < e <= t@.len(),
            None => closing(t@, open as int, 0) is None,
        },
{
    let n: usize = t.len();
    let mut depth: usize = 0;
    let mut i: usize = open;
    while i < n
        invariant
            open <= i <= n,
            n == t@.len(),
            depth <= i,
            i > open ==> depth > 0,
            open < n,
            t@[open as int] == '{',
            closing(t@, open as int, 0) == closing(t@, i as int, depth as int),
        decreases n - i,
    {
        let c: char = t[i];
        if c == '{' {
            depth = depth + 1;
        } else if c == '}' {
            if depth == 1 {
                return Some(i + 1);
            }
            depth = depth - 1;
        }
        i = i + 1;
    }
    None
}

/// Find `call:NAME{...}` sequences in ordinary text.
///
/// The model sometimes emits a call without wrapping it in control tokens, in
/// which case it arrives as plain content. The places are handed out alongside the
/// parsed calls so that the caller can excise them.
pub fn find_bare_calls(t: &str) -> (out: Vec<Found>)
    ensures
        found_views(out@) == bare_calls(t@, 0),
        forall|i: int| 0 <= i < out@.len() ==> (#[trigger] out@[i]).call@.arguments.wf(),
{
    let c = text::chars_of(t);
    let n: usize = c.len();
    let mut out: Vec<Found> = Vec::new();
    let mut from: usize = 0;
    let ghost all = bare_calls(t@, 0);
    assert(found_views(out@) + all =~= all);
    loop
        invariant
            from <= n,
            n == c@.len(),
            c@ == t@,
            all == bare_calls(t@, 0),
            all == found_views(out@) + bare_calls(t@, from as int),
            forall|i: int| 0 <= i < out@.len() ==> (#[trigger] out@[i]).call@.arguments.wf(),
        decreases n - from,
    {
        let ghost before = found_views(out@);
        proof {
            reveal_strlit("{");
            assert(before + Seq::<FoundView>::empty() =~= before);
        }
        let start: usize = match text::find_from(c.as_slice(), from, "call:") {
            Some(p) => p,
            None => {
                return out;
            },
        };
        let open: usize = match text::find_from(c.as_slice(), start, "{") {
            Some(p) => p,
            None => {
                return out;
            },
        };
        proof {
            text::lemma_find_at(t@, start as int, "{"@);
            assert(t@.subrange(open as int, open + 1)[0] == '{');
        }
        let end: usize = match find_closing(&c, open) {
            Some(e) => e,
            None => {
                return out;
            },
        };
        let body = text::slice_string(c.as_slice(), start, end);
        match parse_call(body.as_str()) {
            Some(call) => {
                let ghost f = FoundView { start: start as int, end: end as int, call: call@ };
                out.push(Found { start, end, call });
                proof {
                    let rest = bare_calls(t@, end as int);
                    assert(found_views(out@) =~= before.push(f));
                    assert(before + (seq![f] + rest) =~= found_views(out@) + rest);
                }
                from = end;
            },
            None => {
                from = open + 1;
            },
        }
    }
}

} // verus!
