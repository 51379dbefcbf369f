//! JSON values.

use crate::text;
use serde_json::Value as Tree;
use vstd::prelude::*;

verus! {

#[derive(Debug, Clone, Copy, PartialEq, Eq, Structural)]
pub enum Number {
    Pos(u64),
    /// Always less than zero.
    Neg(i64),
    /// A finite double-precision number, as bits.
    Float(u64),
}

impl Number {
    /// A negative number is less than zero, and a floating-point one finite.
    pub open spec fn wf(self) -> bool {
        match self {
            Number::Pos(_) => true,
            Number::Neg(i) => i < 0,
            Number::Float(b) => b / 0x10_0000_0000_0000 % 0x800 != 0x7FF,
        }
    }
}

#[derive(Debug)]
pub enum Json {
    Null,
    Bool(bool),
    Number(Number),
    Text(String),
    List(Vec<Json>),
    /// Sorted by key, each key once.
    Object(Vec<Entry>),
}

#[derive(Debug)]
pub struct Entry {
    pub key: String,
    pub value: Json,
}

/// The entries of an object.
pub type Entries = Seq<(Seq<char>, JsonView)>;

#[verifier::ext_equal]
pub ghost enum JsonView {
    Null,
    Bool(bool),
    Number(Number),
    Text(Seq<char>),
    List(Seq<JsonView>),
    Object(Seq<(Seq<char>, JsonView)>),
}

impl Json {
    /// What the value says.
    pub open spec fn model(&self) -> JsonView
        decreases self,
    {
        match self {
            Json::Null => JsonView::Null,
            Json::Bool(b) => JsonView::Bool(*b),
            Json::Number(n) => JsonView::Number(*n),
            Json::Text(s) => JsonView::Text(s@),
            Json::List(v) => JsonView::List(
                Seq::new(
                    v@.len(),
                    |i: int|
                        if 0 <= i < v@.len() {
                            v@[i].model()
                        } else {
                            JsonView::Null
                        },
                ),
            ),
            Json::Object(v) => JsonView::Object(
                Seq::new(
                    v@.len(),
                    |i: int|
                        if 0 <= i < v@.len() {
                            (v@[i].key@, v@[i].value.model())
                        } else {
                            (Seq::empty(), JsonView::Null)
                        },
                ),
            ),
        }
    }
}

impl View for Json {
    type V = JsonView;

    open spec fn view(&self) -> JsonView {
        self.model()
    }
}

/// The items of a list.
pub open spec fn items(v: Seq<Json>) -> Seq<JsonView> {
    Seq::new(v.len(), |i: int| v[i]@)
}

/// The entries of an object.
pub open spec fn entries(v: Seq<Entry>) -> Entries {
    Seq::new(v.len(), |i: int| (v[i].key@, v[i].value@))
}

/// What a list looks like.
pub proof fn lemma_list_view(l: Vec<Json>)
    ensures
        Json::List(l)@ == JsonView::List(items(l@)),
{
    reveal_with_fuel(Json::model, 2);
    assert(Json::List(l)@->List_0 =~= items(l@));
}

/// What an object looks like.
pub proof fn lemma_object_view(o: Vec<Entry>)
    ensures
        Json::Object(o)@ == JsonView::Object(entries(o@)),
{
    reveal_with_fuel(Json::model, 2);
    assert(Json::Object(o)@->Object_0 =~= entries(o@));
}

/// The keys ascend.
pub open spec fn ascending(e: Entries) -> bool {
    forall|i: int, j: int|
        0 <= i < j < e.len() ==> text::before((#[trigger] e[i]).0, (#[trigger] e[j]).0)
}

impl JsonView {
    /// Every object in the value is sorted, with each key once, and every number
    /// is one that JSON has.
    pub open spec fn wf(self) -> bool
        decreases self,
    {
        match self {
            JsonView::Number(n) => n.wf(),
            JsonView::List(v) => forall|i: int| 0 <= i < v.len() ==> (#[trigger] v[i]).wf(),
            JsonView::Object(e) => ascending(e) && forall|i: int|
                0 <= i < e.len() ==> (#[trigger] e[i]).1.wf(),
            _ => true,
        }
    }

    /// The value under a key of an object.
    pub open spec fn get(self, key: Seq<char>) -> Option<JsonView> {
        match self {
            JsonView::Object(e) => lookup(e, key),
            _ => None,
        }
    }

    pub open spec fn as_text(self) -> Option<Seq<char>> {
        match self {
            JsonView::Text(s) => Some(s),
            _ => None,
        }
    }
}

/// Every part of a well-formed value is well formed.
pub proof fn lemma_item_wf(a: Seq<JsonView>, i: int)
    requires
        JsonView::List(a).wf(),
        0 <= i < a.len(),
    ensures
        a[i].wf(),
{
    reveal_with_fuel(JsonView::wf, 2);
    let v = JsonView::List(a);
    assert(v->List_0[i].wf());
}

/// Every part of a well-formed value is well formed.
pub proof fn lemma_entry_wf(e: Entries, i: int)
    requires
        JsonView::Object(e).wf(),
        0 <= i < e.len(),
    ensures
        e[i].1.wf(),
{
    reveal_with_fuel(JsonView::wf, 2);
    let v = JsonView::Object(e);
    assert(v->Object_0[i].1.wf());
}

/// The value under `key`.
pub open spec fn lookup(e: Entries, key: Seq<char>) -> Option<JsonView>
    decreases e.len(),
{
    if e.len() == 0 {
        None
    } else if e[0].0 == key {
        Some(e[0].1)
    } else {
        lookup(e.drop_first(), key)
    }
}

/// The entries with `key` set to `value`.
pub open spec fn inserted(e: Entries, key: Seq<char>, value: JsonView) -> Entries
    decreases e.len(),
{
    if e.len() == 0 {
        seq![(key, value)]
    } else if text::before(e[0].0, key) {
        seq![e[0]] + inserted(e.drop_first(), key, value)
    } else if e[0].0 == key {
        seq![(key, value)] + e.drop_first()
    } else {
        seq![(key, value)] + e
    }
}

/// Insertion keeps keys in order, and is found again.
pub proof fn insertion_is_found(e: Entries, key: Seq<char>, value: JsonView, other: Seq<char>)
    requires
        ascending(e),
    ensures
        ascending(inserted(e, key, value)),
        lookup(inserted(e, key, value), other) == if other == key {
            Some(value)
        } else {
            lookup(e, other)
        },
        forall|i: int|
            0 <= i < inserted(e, key, value).len() ==> (#[trigger] inserted(e, key, value)[i]).0
                == key || e.contains(inserted(e, key, value)[i]),
        forall|i: int|
            0 <= i < inserted(e, key, value).len() ==> (#[trigger] inserted(e, key, value)[i]).1
                == value || e.contains(inserted(e, key, value)[i]),
    decreases e.len(),
{
    let r = inserted(e, key, value);
    if e.len() == 0 {
        assert(r.drop_first() =~= Seq::empty());
        assert(lookup(r.drop_first(), other) is None);
    } else {
        let rest = e.drop_first();
        text::lemma_before(e[0].0, key);
        assert(ascending(rest)) by {
            assert forall|i: int, j: int| 0 <= i < j < rest.len() implies text::before(
                (#[trigger] rest[i]).0,
                (#[trigger] rest[j]).0,
            ) by {
                assert(text::before(e[i + 1].0, e[j + 1].0));
            }
        }
        insertion_is_found(rest, key, value, other);
        assert forall|i: int| 0 <= i < rest.len() implies e.contains(#[trigger] rest[i]) by {
            assert(e[i + 1] == rest[i]);
        }
        if text::before(e[0].0, key) {
            let t = inserted(rest, key, value);
            assert(r.drop_first() =~= t);
            assert(e.contains(e[0]));
            assert forall|i: int, j: int| 0 <= i < j < r.len() implies text::before(
                (#[trigger] r[i]).0,
                (#[trigger] r[j]).0,
            ) by {
                assert(r[j] == t[j - 1]);
                if i > 0 {
                    assert(r[i] == t[i - 1]);
                } else if t[j - 1].0 != key {
                    let k = choose|k: int| 0 <= k < rest.len() && rest[k] == t[j - 1];
                    assert(text::before(e[0].0, e[k + 1].0));
                }
            }
            assert forall|i: int| 0 <= i < r.len() implies ((#[trigger] r[i]).0 == key
                || e.contains(r[i])) && (r[i].1 == value || e.contains(r[i])) by {
                if i > 0 {
                    assert(r[i] == t[i - 1]);
                }
            }
        } else if e[0].0 == key {
            assert(r.drop_first() =~= rest);
            assert forall|i: int, j: int| 0 <= i < j < r.len() implies text::before(
                (#[trigger] r[i]).0,
                (#[trigger] r[j]).0,
            ) by {
                assert(text::before(e[i].0, e[j].0));
            }
        } else {
            assert(r.drop_first() =~= e);
            assert forall|i: int, j: int| 0 <= i < j < r.len() implies text::before(
                (#[trigger] r[i]).0,
                (#[trigger] r[j]).0,
            ) by {
                if i > 0 {
                    assert(text::before(e[i - 1].0, e[j - 1].0));
                } else if j > 1 {
                    assert(text::before(e[0].0, e[j - 1].0));
                    text::lemma_before_transitive(key, e[0].0, e[j - 1].0);
                }
            }
        }
    }
}

/// Set `key` to `value`.
pub fn insert(m: &mut Vec<Entry>, key: String, value: Json)
    ensures
        entries(final(m)@) == inserted(entries(old(m)@), key@, value@),
{
    let ghost all = entries(m@);
    let n: usize = m.len();
    let mut i: usize = 0;
    assert(all.skip(0) =~= all);
    assert(all.take(0) + inserted(all, key@, value@) =~= inserted(all, key@, value@));
    while i < n
        invariant
            i <= n,
            n == m@.len(),
            m@ == old(m)@,
            all == entries(m@),
            inserted(all, key@, value@) == all.take(i as int) + inserted(
                all.skip(i as int),
                key@,
                value@,
            ),
        decreases n - i,
    {
        let ghost here = all.skip(i as int);
        assert(here[0] == (m@[i as int].key@, m@[i as int].value@));
        assert(here.drop_first() =~= all.skip(i + 1));
        if text::is_before(m[i].key.as_str(), key.as_str()) {
            assert(all.take(i as int) + (seq![here[0]] + inserted(all.skip(i + 1), key@, value@))
                =~= all.take(i + 1) + inserted(all.skip(i + 1), key@, value@));
            i = i + 1;
        } else if text::str_eq(m[i].key.as_str(), key.as_str()) {
            let ghost k = key@;
            let ghost x = value@;
            m[i] = Entry { key, value };
            assert(entries(m@) =~= all.take(i as int) + (seq![(k, x)] + all.skip(i + 1)));
            return;
        } else {
            let ghost k = key@;
            let ghost x = value@;
            m.insert(i, Entry { key, value });
            assert(entries(m@) =~= all.take(i as int) + (seq![(k, x)] + here));
            return;
        }
    }
    let ghost k = key@;
    let ghost x = value@;
    m.push(Entry { key, value });
    assert(all.skip(n as int) =~= Seq::empty());
    assert(entries(m@) =~= all.take(n as int) + seq![(k, x)]);
}

/// Setting a key to a well-formed value leaves an object well formed.
pub proof fn lemma_inserted_wf(e: Entries, key: Seq<char>, value: JsonView)
    requires
        JsonView::Object(e).wf(),
        value.wf(),
    ensures
        JsonView::Object(inserted(e, key, value)).wf(),
{
    insertion_is_found(e, key, value, key);
    let r = inserted(e, key, value);
    assert forall|i: int| 0 <= i < r.len() implies (#[trigger] r[i]).1.wf() by {
        if r[i].1 != value {
            let j = choose|j: int| 0 <= j < e.len() && e[j] == r[i];
            lemma_entry_wf(e, j);
        }
    }
    reveal_with_fuel(JsonView::wf, 2);
}

/// The entries that fields come to, set one after the other.
pub open spec fn collected(fields: Entries) -> Entries
    decreases fields.len(),
{
    if fields.len() == 0 {
        Seq::empty()
    } else {
        inserted(collected(fields.drop_last()), fields.last().0, fields.last().1)
    }
}

/// An object with these fields.
pub open spec fn object(fields: Entries) -> JsonView {
    JsonView::Object(collected(fields))
}

/// An object in the making.
pub struct Fields {
    pub entries: Vec<Entry>,
    pub fields: Ghost<Entries>,
}

impl Fields {
    pub open spec fn wf(&self) -> bool {
        &&& entries(self.entries@) == collected(self.fields@)
        &&& object(self.fields@).wf()
    }

    pub fn new() -> (r: Fields)
        ensures
            r.wf(),
            r.fields@ == Entries::empty(),
    {
        let r = Fields { entries: Vec::new(), fields: Ghost(Seq::empty()) };
        assert(entries(r.entries@) =~= Seq::empty());
        r
    }

    pub fn put(&mut self, key: &str, value: Json)
        requires
            old(self).wf(),
            value@.wf(),
        ensures
            final(self).wf(),
            final(self).fields@ == old(self).fields@.push((key@, value@)),
    {
        let ghost f = self.fields@.push((key@, value@));
        proof {
            lemma_inserted_wf(collected(self.fields@), key@, value@);
            assert(f.drop_last() =~= self.fields@);
        }
        insert(&mut self.entries, key.to_owned(), value);
        self.fields = Ghost(f);
    }

    pub fn put_text(&mut self, key: &str, value: &str)
        requires
            old(self).wf(),
        ensures
            final(self).wf(),
            final(self).fields@ == old(self).fields@.push((key@, JsonView::Text(value@))),
    {
        self.put(key, Json::text(value));
    }

    pub fn put_number(&mut self, key: &str, value: u64)
        requires
            old(self).wf(),
        ensures
            final(self).wf(),
            final(self).fields@ == old(self).fields@.push(
                (key@, JsonView::Number(Number::Pos(value))),
            ),
    {
        self.put(key, Json::Number(Number::Pos(value)));
    }

    pub fn finish(self) -> (r: Json)
        requires
            self.wf(),
        ensures
            r@ == object(self.fields@),
            r@.wf(),
    {
        proof {
            lemma_object_view(self.entries);
        }
        Json::Object(self.entries)
    }
}

/// A list of one.
pub fn list_of(v: Json) -> (r: Json)
    requires
        v@.wf(),
    ensures
        r@ == JsonView::List(seq![v@]),
        r@.wf(),
{
    let mut a: Vec<Json> = Vec::new();
    a.push(v);
    proof {
        lemma_list_view(a);
        assert(items(a@) =~= seq![v@]);
        reveal_with_fuel(JsonView::wf, 2);
    }
    Json::List(a)
}

impl Json {
    /// The value under a key of an object.
    pub fn get(&self, key: &str) -> (r: Option<&Json>)
        ensures
            match r {
                Some(v) => self@.get(key@) == Some(v@),
                None => self@.get(key@) is None,
            },
    {
        match self {
            Json::Object(m) => {
                proof {
                    lemma_object_view(*m);
                }
                find(m, key)
            },
            _ => None,
        }
    }

    pub fn as_str(&self) -> (r: Option<&str>)
        ensures
            match r {
                Some(s) => self@.as_text() == Some(s@),
                None => self@.as_text() is None,
            },
    {
        match self {
            Json::Text(s) => Some(s.as_str()),
            _ => None,
        }
    }

    pub fn text(s: &str) -> (r: Json)
        ensures
            r@ == JsonView::Text(s@),
    {
        Json::Text(s.to_owned())
    }
}

/// The value under a key.
pub fn find<'a>(m: &'a Vec<Entry>, key: &str) -> (r: Option<&'a Json>)
    ensures
        match r {
            Some(v) => lookup(entries(m@), key@) == Some(v@),
            None => lookup(entries(m@), key@) is None,
        },
{
    let ghost all = entries(m@);
    let mut i: usize = 0;
    assert(all.skip(0) =~= all);
    while i < m.len()
        invariant
            i <= m@.len(),
            all == entries(m@),
            lookup(all, key@) == lookup(all.skip(i as int), key@),
        decreases m@.len() - i,
    {
        assert(all.skip(i as int)[0] == (m@[i as int].key@, m@[i as int].value@));
        assert(all.skip(i as int).drop_first() =~= all.skip(i + 1));
        if text::str_eq(m[i].key.as_str(), key) {
            return Some(&m[i].value);
        }
        i = i + 1;
    }
    None
}

// ---------------------------------------------------------------------------
// Text
// ---------------------------------------------------------------------------
/// The value that a JSON text stands for, if it is one.
pub uninterp spec fn read(s: Seq<char>) -> Option<JsonView>;

/// The compact JSON text of a value.
pub uninterp spec fn printed(v: JsonView) -> Seq<char>;

/// `str::parse` to a double-precision number: the bits that a decimal literal reads
/// as, and `None` where it is none.
pub uninterp spec fn float_literal(s: Seq<char>) -> Option<u64>;

/// What a decimal floating-point literal stands for in JSON: `None` where it is none,
/// and within that `None` where the number is not finite.
pub open spec fn finite_literal(s: Seq<char>) -> Option<Option<u64>> {
    match float_literal(s) {
        Some(b) => Some(
            if Number::Float(b).wf() {
                Some(b)
            } else {
                None
            },
        ),
        None => None,
    }
}

/// `serde_json::Value`: a JSON value.
#[verifier::external_type_specification]
#[verifier::external_body]
pub struct ExValue(Tree);

/// What a `serde_json::Value` holds.
pub uninterp spec fn held(v: Tree) -> JsonView;

/// A `serde_json::Value` taken apart, part by part. Its maps are sorted by key,
/// with each key once.
#[verifier::external_body]
fn from_value(v: Tree) -> (r: Json)
    ensures
        r@ == held(v),
        r@.wf(),
{
    match v {
        Tree::Null => Json::Null,
        Tree::Bool(b) => Json::Bool(b),
        Tree::Number(n) => Json::Number(match (n.as_u64(), n.as_i64()) {
            (Some(u), _) => Number::Pos(u),
            (None, Some(i)) => Number::Neg(i),
            (None, None) => Number::Float(bytemuck::cast(n.as_f64().unwrap_or_default())),
        }),
        Tree::String(s) => Json::Text(s),
        Tree::Array(a) => Json::List(a.into_iter().map(from_value).collect()),
        Tree::Object(m) => Json::Object(
            m.into_iter().map(|(key, v)| Entry { key, value: from_value(v) }).collect()),
    }
}

/// A `serde_json::Value` put together, part by part. Its maps keep each key once
/// and its numbers are finite, so a value that is not well formed is refused.
#[verifier::external_body]
fn to_value(v: &Json) -> (r: Tree)
    requires
        v@.wf(),
    ensures
        held(r) == v@,
{
    match v {
        Json::Null => Tree::Null,
        Json::Bool(b) => Tree::Bool(*b),
        Json::Number(Number::Pos(u)) => Tree::from(*u),
        Json::Number(Number::Neg(i)) => Tree::from(*i),
        Json::Number(Number::Float(b)) => serde_json::Number::from_f64(bytemuck::cast(*b)).into(),
        Json::Text(s) => Tree::String(s.clone()),
        Json::List(a) => Tree::Array(a.iter().map(to_value).collect()),
        Json::Object(m) => Tree::Object(
            m.iter().map(|e| (e.key.clone(), to_value(&e.value))).collect(),
        ),
    }
}

/// `serde_json::from_str`: the value of a JSON text, if it is one. What it is, is
/// only named.
#[verifier::external_body]
fn value_of_text(s: &str) -> (r: Option<Tree>)
    ensures
        match r {
            Some(v) => read(s@) == Some(held(v)),
            None => read(s@) is None,
        },
{
    serde_json::from_str(s).ok()
}

/// The text of a floating-point number: digits, with a point or an exponent.
pub open spec fn float_text(s: Seq<char>) -> bool {
    &&& forall|i: int| 0 <= i < s.len() ==> float_char(#[trigger] s[i])
    &&& exists|i: int| 0 <= i < s.len() && (#[trigger] s[i] == '.' || s[i] == 'e')
}

pub open spec fn float_char(c: char) -> bool {
    '0' <= c <= '9' || c == '-' || c == '+' || c == '.' || c == 'e'
}

/// `serde_json::Value::to_string`: the compact JSON text of a value. What it is,
/// is only named; of a floating-point number it has a point or an exponent, and
/// reads back as the same number.
#[verifier::external_body]
fn text_of_value(v: &Tree) -> (r: String)
    ensures
        r@ == printed(held(*v)),
        held(*v) matches JsonView::Number(Number::Float(b)) ==> float_text(r@) && float_literal(r@)
            == Some(b),
{
    v.to_string()
}

/// The value of a JSON text, if it is one.
pub fn parse(s: &str) -> (r: Option<Json>)
    ensures
        match r {
            Some(v) => read(s@) == Some(v@) && v@.wf(),
            None => read(s@) is None,
        },
{
    match value_of_text(s) {
        Some(v) => Some(from_value(v)),
        None => None,
    }
}

/// The compact JSON text of a value.
pub fn print(v: &Json) -> (r: String)
    requires
        v@.wf(),
    ensures
        r@ == printed(v@),
        v@ matches JsonView::Number(Number::Float(b)) ==> float_text(r@) && float_literal(r@)
            == Some(b),
{
    text_of_value(&to_value(v))
}

/// `str::parse` to a double-precision number, and `serde_json::Number::from_f64`,
/// which keeps it if it is finite and refuses it otherwise. What a literal reads as,
/// is only named.
#[verifier::external_body]
pub(crate) fn parse_float(s: &str) -> (r: Option<Option<u64>>)
    ensures
        r == finite_literal(s@),
{
    match s.parse() {
        Ok(x) => Some(
            serde_json::Number::from_f64(x).and_then(|n| n.as_f64()).map(bytemuck::cast),
        ),
        Err(_) => None,
    }
}

} // verus!
