//! The gemma4 tool-calling syntax.
//!
//! The model does not emit JSON for tool calls. It uses a compact syntax where
//! keys are bare, strings are delimited by the single token `<|"|>`, and
//! everything else is written literally:
//!
//! ```text
//! <|tool_call>call:read_file{path:<|"|>src/main.rs<|"|>,limit:20}<tool_call|>
//! ```
//!
//! Tool *declarations* use a matching shape:
//!
//! ```text
//! <|tool>declaration:read_file{description:<|"|>…<|"|>,parameters:{...}}<tool|>
//! ```

use crate::chat::call::{call_of, CallView};
use crate::chat::replay::{calls_read_back, floats_read_back, restorable_call};
use crate::json::{
    self, entries, items, lemma_entry_wf, lemma_item_wf, lemma_list_view, lemma_object_view, lookup,
    printed, read, Entries, Entry, Json, JsonView, Number,
};
use crate::text;
use vstd::prelude::*;

verus! {

/// The string-quote marker. It is a single vocabulary token, so it can never be
/// produced by ordinary text and is unambiguous as a delimiter.
pub const QUOTE: &'static str = "<|\"|>";

// ---------------------------------------------------------------------------
// Encoding
// ---------------------------------------------------------------------------
pub open spec fn quoted(s: Seq<char>) -> Seq<char> {
    QUOTE@ + s + QUOTE@
}

fn push_quoted(out: &mut String, s: &str)
    ensures
        final(out)@ == old(out)@ + quoted(s@),
{
    out.push_str(QUOTE);
    out.push_str(s);
    out.push_str(QUOTE);
    assert(out@ =~= old(out)@ + quoted(s@));
}

/// An integer in decimal.
pub open spec fn signed_decimal(i: int) -> Seq<char> {
    if i < 0 {
        seq!['-'] + text::decimal((-i) as nat)
    } else {
        text::decimal(i as nat)
    }
}

pub open spec fn number_text(n: Number) -> Seq<char> {
    match n {
        Number::Pos(u) => text::decimal(u as nat),
        Number::Neg(i) => signed_decimal(i as int),
        Number::Float(_) => printed(JsonView::Number(n)),
    }
}

fn number_string(n: Number) -> (s: String)
    requires
        n.wf(),
    ensures
        s@ == number_text(n),
        floats_read_back(JsonView::Number(n)),
{
    match n {
        Number::Pos(u) => text::decimal_string(u),
        Number::Neg(i) => {
            let mut s = String::new();
            s.push('-');
            let m: u64 = if i == i64::MIN { 0x8000_0000_0000_0000 } else { (-i) as u64 };
            s.push_str(text::decimal_string(m).as_str());
            assert(s@ =~= signed_decimal(i as int));
            s
        },
        Number::Float(_) => json::print(&Json::Number(n)),
    }
}

/// A value in the model's argument syntax.
pub open spec fn value_text(v: JsonView) -> Seq<char>
    decreases v, 0int,
{
    match v {
        JsonView::Text(s) => quoted(s),
        JsonView::Bool(b) => if b {
            "true"@
        } else {
            "false"@
        },
        JsonView::Null => "null"@,
        JsonView::Number(n) => number_text(n),
        JsonView::List(a) => seq!['['] + list_text(a, a.len() as int) + seq![']'],
        JsonView::Object(e) => seq!['{'] + entries_text(e, e.len() as int, false) + seq!['}'],
    }
}

/// The first `n` items, separated by commas.
pub open spec fn list_text(a: Seq<JsonView>, n: int) -> Seq<char>
    decreases a, n,
{
    if n <= 0 || n > a.len() {
        Seq::empty()
    } else {
        list_text(a, n - 1) + comma(n > 1) + value_text(a[n - 1])
    }
}

/// A key: bare for a parameter, quoted inside an argument.
pub open spec fn key_text(key: Seq<char>, bare: bool) -> Seq<char> {
    if bare {
        key
    } else {
        quoted(key)
    }
}

/// The first `n` entries, separated by commas.
pub open spec fn entries_text(e: Entries, n: int, bare: bool) -> Seq<char>
    decreases e, n,
{
    if n <= 0 || n > e.len() {
        Seq::empty()
    } else {
        entries_text(e, n - 1, bare) + comma(n > 1) + key_text(e[n - 1].0, bare) + seq![':']
            + value_text(e[n - 1].1)
    }
}

/// A separator, where one is needed.
pub open spec fn comma(needed: bool) -> Seq<char> {
    if needed {
        seq![',']
    } else {
        Seq::empty()
    }
}

/// Render a value in the model's argument syntax. Object keys inside argument
/// values are quoted; parameter names in declarations are not.
pub fn encode_value(v: &Json, out: &mut String)
    requires
        v@.wf(),
    ensures
        final(out)@ == old(out)@ + value_text(v@),
        floats_read_back(v@),
    decreases v,
{
    let ghost start = out@;
    match v {
        Json::Text(s) => push_quoted(out, s.as_str()),
        Json::Bool(b) => out.push_str(if *b { "true" } else { "false" }),
        Json::Null => out.push_str("null"),
        Json::Number(n) => {
            let s = number_string(*n);
            out.push_str(s.as_str());
        },
        Json::List(a) => {
            let ghost all = items(a@);
            proof {
                lemma_list_view(*a);
            }
            out.push('[');
            let n: usize = a.len();
            let mut i: usize = 0;
            assert(out@ =~= start + seq!['['] + list_text(all, 0));
            while i < n
                invariant
                    i <= n,
                    n == a@.len(),
                    all == items(a@),
                    v == Json::List(*a),
                    v@ == JsonView::List(all),
                    v@.wf(),
                    out@ == start + seq!['['] + list_text(all, i as int),
                    forall|k: int| 0 <= k < i ==> floats_read_back(#[trigger] all[k]),
                decreases n - i,
            {
                let ghost before = out@;
                if i > 0 {
                    out.push(',');
                }
                proof {
                    lemma_item_wf(all, i as int);
                }
                assert(all[i as int] == a@[i as int]@);
                encode_value(&a[i], out);
                i = i + 1;
                assert(out@ =~= start + seq!['['] + list_text(all, i as int));
            }
            out.push(']');
            assert(out@ =~= start + value_text(v@));
        },
        Json::Object(m) => {
            let ghost all = entries(m@);
            proof {
                lemma_object_view(*m);
            }
            out.push('{');
            let n: usize = m.len();
            let mut i: usize = 0;
            assert(out@ =~= start + seq!['{'] + entries_text(all, 0, false));
            while i < n
                invariant
                    i <= n,
                    n == m@.len(),
                    all == entries(m@),
                    v == Json::Object(*m),
                    v@ == JsonView::Object(all),
                    v@.wf(),
                    out@ == start + seq!['{'] + entries_text(all, i as int, false),
                    forall|k: int| 0 <= k < i ==> floats_read_back((#[trigger] all[k]).1),
                decreases n - i,
            {
                if i > 0 {
                    out.push(',');
                }
                proof {
                    lemma_entry_wf(all, i as int);
                }
                assert(all[i as int] == (m@[i as int].key@, m@[i as int].value@));
                push_quoted(out, m[i].key.as_str());
                out.push(':');
                encode_value(&m[i].value, out);
                i = i + 1;
                assert(out@ =~= start + seq!['{'] + entries_text(all, i as int, false));
            }
            out.push('}');
            assert(out@ =~= start + value_text(v@));
        },
    }
}

/// Append the entries of an object, keys bare.
fn push_arguments(m: &Vec<Entry>, out: &mut String)
    requires
        JsonView::Object(entries(m@)).wf(),
    ensures
        final(out)@ == old(out)@ + entries_text(entries(m@), m@.len() as int, true),
        floats_read_back(JsonView::Object(entries(m@))),
{
    let ghost all = entries(m@);
    let ghost start = out@;
    let n: usize = m.len();
    let mut i: usize = 0;
    assert(out@ =~= start + entries_text(all, 0, true));
    while i < n
        invariant
            i <= n,
            n == m@.len(),
            all == entries(m@),
            JsonView::Object(all).wf(),
            out@ == start + entries_text(all, i as int, true),
            forall|k: int| 0 <= k < i ==> floats_read_back((#[trigger] all[k]).1),
        decreases n - i,
    {
        if i > 0 {
            out.push(',');
        }
        proof {
            lemma_entry_wf(all, i as int);
        }
        assert(all[i as int] == (m@[i as int].key@, m@[i as int].value@));
        out.push_str(m[i].key.as_str());
        out.push(':');
        encode_value(&m[i].value, out);
        i = i + 1;
        assert(out@ =~= start + entries_text(all, i as int, true));
    }
}

/// A tool call: the name, and the arguments of an object. Anything else has none.
pub open spec fn call_text(name: Seq<char>, args: JsonView) -> Seq<char> {
    "call:"@ + name + seq!['{'] + (match args {
        JsonView::Object(e) => entries_text(e, e.len() as int, true),
        _ => Seq::empty(),
    }) + seq!['}']
}

/// Encode a tool call the model previously made, for conversation replay. Where
/// nothing in it is taken for syntax, it is read back as it was.
pub fn encode_call(name: &str, args: &Json) -> (out: String)
    requires
        args@.wf(),
    ensures
        out@ == call_text(name@, args@),
        restorable_call(name@, args@) ==> call_of(out@) == Some(
            (CallView { name: name@, arguments: args@ }),
        ),
{
    let mut out = "call:".to_owned();
    out.push_str(name);
    out.push('{');
    match args {
        Json::Object(m) => {
            proof {
                lemma_object_view(*m);
            }
            push_arguments(m, &mut out);
        },
        _ => {},
    }
    out.push('}');
    assert(out@ =~= call_text(name@, args@));
    proof {
        if restorable_call(name@, args@) {
            calls_read_back(name@, args@);
        }
    }
    out
}

/// A tool result, from what it reads as: an object's entries; anything else is
/// wrapped as a value.
pub open spec fn response_text(
    name: Seq<char>,
    content: Seq<char>,
    value: Option<JsonView>,
) -> Seq<char> {
    "response:"@ + name + match value {
        Some(JsonView::Object(e)) => seq!['{'] + entries_text(e, e.len() as int, true) + seq!['}'],
        _ => "{value:"@ + quoted(content) + seq!['}'],
    }
}

/// Encode a tool result block body from what its content was read as.
pub fn encode_parsed_response(name: &str, content: &str, value: &Option<Json>) -> (out: String)
    requires
        value is Some ==> value->0@.wf(),
    ensures
        out@ == response_text(
            name@,
            content@,
            match value {
                Some(v) => Some(v@),
                None => None,
            },
        ),
{
    let mut out = "response:".to_owned();
    out.push_str(name);
    match value {
        Some(Json::Object(m)) => {
            proof {
                lemma_object_view(*m);
            }
            out.push('{');
            push_arguments(m, &mut out);
            out.push('}');
        },
        _ => {
            out.push_str("{value:");
            push_quoted(&mut out, content);
            out.push('}');
        },
    }
    assert(out@ =~= response_text(
        name@,
        content@,
        match value {
            Some(v) => Some(v@),
            None => None,
        },
    ));
    out
}

/// Encode a tool result block body.
pub fn encode_response(name: &str, content: &str) -> (out: String)
    ensures
        out@ == response_text(name@, content@, read(content@)),
{
    let value = json::parse(content);
    encode_parsed_response(name, content, &value)
}

// ---------------------------------------------------------------------------
// Declarations
// ---------------------------------------------------------------------------
/// The position of a key; the number of entries where it is not there.
pub open spec fn key_at(e: Entries, key: Seq<char>) -> int
    decreases e.len(),
{
    if e.len() == 0 || e[0].0 == key {
        0
    } else {
        1 + key_at(e.drop_first(), key)
    }
}

proof fn lemma_key_at(e: Entries, key: Seq<char>)
    ensures
        0 <= key_at(e, key) <= e.len(),
        lookup(e, key) == if key_at(e, key) < e.len() {
            Some(e[key_at(e, key)].1)
        } else {
            None
        },
    decreases e.len(),
{
    if e.len() > 0 && e[0].0 != key {
        lemma_key_at(e.drop_first(), key);
    }
}

/// The type that a schema names, in upper case.
pub open spec fn type_of(v: JsonView, default: Seq<char>) -> Seq<char> {
    text::uppercase(
        match v.get("type"@) {
            Some(JsonView::Text(s)) => s,
            _ => default,
        },
    )
}

fn type_name_of(v: &Json, default: &str) -> (r: String)
    ensures
        r@ == type_of(v@, default@),
{
    match v.get("type") {
        Some(t) => match t.as_str() {
            Some(s) => text::to_upper(s),
            None => text::to_upper(default),
        },
        None => text::to_upper(default),
    }
}

/// The description of a schema, where it has one.
pub open spec fn description_part(v: JsonView) -> Seq<char> {
    match v.get("description"@) {
        Some(JsonView::Text(d)) => "description:"@ + quoted(d),
        _ => Seq::empty(),
    }
}

/// What a schema says beyond its description and type: the values of an
/// enumeration, the items of an array, the properties of an object.
pub open spec fn detail_part(v: JsonView) -> Seq<char>
    decreases v, 0int,
{
    let ty = type_of(v, "string"@);
    match v {
        JsonView::Object(e) => {
            let i = if ty == "STRING"@ {
                key_at(e, "enum"@)
            } else if ty == "ARRAY"@ {
                key_at(e, "items"@)
            } else {
                key_at(e, "properties"@)
            };
            if 0 <= i < e.len() {
                match e[i].1 {
                    JsonView::List(a) => if ty == "STRING"@ {
                        "enum:"@ + value_text(e[i].1)
                    } else {
                        Seq::empty()
                    },
                    JsonView::Object(inner) => if ty == "ARRAY"@ {
                        "items:{type:"@ + quoted(type_of(e[i].1, "string"@)) + seq!['}']
                    } else if ty == "OBJECT"@ {
                        "properties:{"@ + properties_text(inner, inner.len() as int) + seq!['}']
                    } else {
                        Seq::empty()
                    },
                    _ => Seq::empty(),
                }
            } else {
                Seq::empty()
            }
        },
        _ => Seq::empty(),
    }
}

/// `a` and `b` with a comma between them, where both are there.
pub open spec fn both(a: Seq<char>, b: Seq<char>) -> Seq<char> {
    a + comma(a.len() > 0 && b.len() > 0) + b
}

/// One parameter.
pub open spec fn property_text(name: Seq<char>, v: JsonView) -> Seq<char>
    decreases v, 1int,
{
    let parts = both(description_part(v), detail_part(v));
    name + ":{"@ + both(parts, "type:"@ + quoted(type_of(v, "string"@))) + seq!['}']
}

/// The first `n` parameters, separated by commas.
pub open spec fn properties_text(e: Entries, n: int) -> Seq<char>
    decreases e, n,
{
    if n <= 0 || n > e.len() {
        Seq::empty()
    } else {
        properties_text(e, n - 1) + comma(n > 1) + property_text(e[n - 1].0, e[n - 1].1)
    }
}

fn push_description(v: &Json, out: &mut String) -> (wrote: bool)
    ensures
        final(out)@ == old(out)@ + description_part(v@),
        wrote == (description_part(v@).len() > 0),
{
    proof {
        reveal_strlit("description:");
    }
    match v.get("description") {
        Some(d) => match d.as_str() {
            Some(s) => {
                out.push_str("description:");
                push_quoted(out, s);
                assert(out@ =~= old(out)@ + description_part(v@));
                true
            },
            None => {
                assert(out@ =~= old(out)@ + description_part(v@));
                false
            },
        },
        None => {
            assert(out@ =~= old(out)@ + description_part(v@));
            false
        },
    }
}

fn as_object(v: &Json) -> (r: Option<&Vec<Entry>>)
    ensures
        match r {
            Some(m) => v@ == JsonView::Object(entries(m@)) && *v == Json::Object(*m),
            None => !(v@ is Object),
        },
{
    match v {
        Json::Object(m) => {
            proof {
                lemma_object_view(*m);
            }
            Some(m)
        },
        _ => None,
    }
}

/// Write what a schema says beyond its description and type, with a comma in front
/// where something stands before it.
fn push_detail(v: &Json, ty: &String, wrote: bool, out: &mut String) -> (more: bool)
    requires
        v@.wf(),
        ty@ == type_of(v@, "string"@),
    ensures
        final(out)@ == old(out)@ + comma(wrote && detail_part(v@).len() > 0) + detail_part(v@),
        more == (detail_part(v@).len() > 0),
    decreases v@, 0int,
{
    proof {
        reveal_strlit("enum:");
        reveal_strlit("items:{type:");
        reveal_strlit("properties:{");
        reveal_strlit("STRING");
        reveal_strlit("ARRAY");
        reveal_strlit("OBJECT");
    }
    let m = match as_object(v) {
        Some(m) => m,
        None => {
            assert(out@ =~= old(out)@ + comma(false) + detail_part(v@));
            return false;
        },
    };
    let ghost e = entries(m@);
    proof {
        lemma_key_at(e, "enum"@);
        lemma_key_at(e, "items"@);
        lemma_key_at(e, "properties"@);
        assert("STRING"@.len() == 6 && "ARRAY"@.len() == 5 && "OBJECT"@.len() == 6);
        assert("STRING"@[0] == 'S' && "OBJECT"@[0] == 'O');
    }
    if text::str_eq(ty.as_str(), "STRING") {
        match json::find(m, "enum") {
            Some(x) => match x {
                Json::List(a) => {
                    proof {
                        lemma_list_view(*a);
                        let k = key_at(e, "enum"@);
                        lemma_entry_wf(e, k);
                    }
                    if wrote {
                        out.push(',');
                    }
                    out.push_str("enum:");
                    encode_value(x, out);
                    assert(out@ =~= old(out)@ + comma(wrote) + detail_part(v@));
                    return true;
                },
                _ => {},
            },
            None => {},
        }
    } else if text::str_eq(ty.as_str(), "ARRAY") {
        match json::find(m, "items") {
            Some(x) => match as_object(x) {
                Some(_) => {
                    if wrote {
                        out.push(',');
                    }
                    out.push_str("items:{type:");
                    let t = type_name_of(x, "string");
                    push_quoted(out, t.as_str());
                    out.push('}');
                    assert(out@ =~= old(out)@ + comma(wrote) + detail_part(v@));
                    return true;
                },
                None => {},
            },
            None => {},
        }
    } else if text::str_eq(ty.as_str(), "OBJECT") {
        match json::find(m, "properties") {
            Some(x) => match as_object(x) {
                Some(inner) => {
                    proof {
                        let k = key_at(e, "properties"@);
                        lemma_entry_wf(e, k);
                        assert(e[k].1 == JsonView::Object(entries(inner@)));
                        assert(decreases_to!(v@ => e));
                        assert(decreases_to!(e => e[k]));
                        assert(decreases_to!(e[k] => e[k].1));
                        assert(decreases_to!(e[k].1 => entries(inner@)));
                    }
                    if wrote {
                        out.push(',');
                    }
                    out.push_str("properties:{");
                    encode_properties(inner, out);
                    out.push('}');
                    assert(out@ =~= old(out)@ + comma(wrote) + detail_part(v@));
                    return true;
                },
                None => {},
            },
            None => {},
        }
    }
    assert(detail_part(v@).len() == 0);
    assert(out@ =~= old(out)@ + comma(false) + detail_part(v@));
    false
}

/// Write one parameter.
fn push_property(entry: &Entry, out: &mut String)
    requires
        entry.value@.wf(),
    ensures
        final(out)@ == old(out)@ + property_text(entry.key@, entry.value@),
    decreases entry.value@, 1int,
{
    proof {
        reveal_strlit("type:");
    }
    let v = &entry.value;
    let ghost start = out@;
    let ghost parts = both(description_part(v@), detail_part(v@));
    out.push_str(entry.key.as_str());
    out.push_str(":{");
    let ghost head = out@;
    let wrote: bool = push_description(v, out);
    let ty = type_name_of(v, "string");
    let more: bool = push_detail(v, &ty, wrote, out);
    assert(out@ =~= head + parts);
    assert((parts.len() > 0) == (wrote || more));
    if wrote || more {
        out.push(',');
    }
    out.push_str("type:");
    push_quoted(out, ty.as_str());
    let ghost last = "type:"@ + quoted(ty@);
    assert(out@ =~= head + both(parts, last));
    out.push('}');
    assert(out@ =~= start + property_text(entry.key@, v@));
}

/// Encode a JSON-Schema `properties` map as the model's parameter syntax.
fn encode_properties(props: &Vec<Entry>, out: &mut String)
    requires
        JsonView::Object(entries(props@)).wf(),
    ensures
        final(out)@ == old(out)@ + properties_text(entries(props@), props@.len() as int),
    decreases entries(props@), 1int,
{
    let ghost all = entries(props@);
    let ghost start = out@;
    let n: usize = props.len();
    let mut i: usize = 0;
    assert(out@ =~= start + properties_text(all, 0));
    while i < n
        invariant
            i <= n,
            n == props@.len(),
            all == entries(props@),
            JsonView::Object(all).wf(),
            out@ == start + properties_text(all, i as int),
        decreases n - i,
    {
        if i > 0 {
            out.push(',');
        }
        let entry = &props[i];
        proof {
            lemma_entry_wf(all, i as int);
            assert(all[i as int] == (entry.key@, entry.value@));
            assert(decreases_to!(all => all[i as int]));
            assert(decreases_to!(all[i as int] => all[i as int].1));
        }
        push_property(entry, out);
        i = i + 1;
        assert(out@ =~= start + properties_text(all, i as int));
    }
}

/// The names of the required parameters; what is no text counts as empty.
pub open spec fn required_text(a: Seq<JsonView>, n: int) -> Seq<char>
    decreases n,
{
    if n <= 0 {
        Seq::empty()
    } else {
        required_text(a, n - 1) + comma(n > 1) + quoted(
            match a[n - 1] {
                JsonView::Text(s) => s,
                _ => Seq::empty(),
            },
        )
    }
}

/// The parameters of a tool, where they are an object.
pub open spec fn parameters_text(params: JsonView) -> Seq<char> {
    match params {
        JsonView::Object(e) => {
            ",parameters:{"@ + (match lookup(e, "properties"@) {
                Some(JsonView::Object(p)) => "properties:{"@ + properties_text(p, p.len() as int)
                    + "},"@,
                _ => Seq::empty(),
            }) + (match lookup(e, "required"@) {
                Some(JsonView::List(a)) => "required:["@ + required_text(a, a.len() as int)
                    + "],"@,
                _ => Seq::empty(),
            }) + "type:"@ + quoted(type_of(params, "object"@)) + seq!['}']
        },
        _ => Seq::empty(),
    }
}

pub open spec fn declaration_text(
    name: Seq<char>,
    description: Seq<char>,
    params: JsonView,
) -> Seq<char> {
    "declaration:"@ + name + "{description:"@ + quoted(description) + parameters_text(params)
        + seq!['}']
}

fn push_required(a: &Vec<Json>, out: &mut String)
    ensures
        final(out)@ == old(out)@ + required_text(items(a@), a@.len() as int),
{
    let ghost all = items(a@);
    let ghost start = out@;
    let n: usize = a.len();
    let mut i: usize = 0;
    assert(out@ =~= start + required_text(all, 0));
    while i < n
        invariant
            i <= n,
            n == a@.len(),
            all == items(a@),
            out@ == start + required_text(all, i as int),
        decreases n - i,
    {
        if i > 0 {
            out.push(',');
        }
        assert(all[i as int] == a@[i as int]@);
        match a[i].as_str() {
            Some(s) => push_quoted(out, s),
            None => {
                let none = String::new();
                assert(none@ =~= Seq::empty());
                push_quoted(out, none.as_str());
            },
        }
        i = i + 1;
        assert(out@ =~= start + required_text(all, i as int));
    }
}

proof fn lemma_lookup_wf(e: Entries, key: Seq<char>)
    requires
        JsonView::Object(e).wf(),
    ensures
        lookup(e, key) is Some ==> lookup(e, key)->0.wf(),
{
    lemma_key_at(e, key);
    if key_at(e, key) < e.len() {
        lemma_entry_wf(e, key_at(e, key));
    }
}

fn push_parameters(params: &Json, out: &mut String)
    requires
        params@.wf(),
    ensures
        final(out)@ == old(out)@ + parameters_text(params@),
{
    let ghost start = out@;
    let m = match as_object(params) {
        Some(m) => m,
        None => {
            assert(out@ =~= start + Seq::empty());
            return;
        },
    };
    let ghost e = entries(m@);
    proof {
        lemma_lookup_wf(e, "properties"@);
    }
    out.push_str(",parameters:{");
    let ghost a = out@;
    match json::find(m, "properties") {
        Some(x) => match as_object(x) {
            Some(props) => {
                out.push_str("properties:{");
                encode_properties(props, out);
                out.push_str("},");
            },
            None => {},
        },
        None => {},
    }
    let ghost props_part = match lookup(e, "properties"@) {
        Some(JsonView::Object(p)) => "properties:{"@ + properties_text(p, p.len() as int) + "},"@,
        _ => Seq::empty(),
    };
    assert(out@ =~= a + props_part);
    let ghost b = out@;
    match json::find(m, "required") {
        Some(x) => match x {
            Json::List(req) => {
                proof {
                    lemma_list_view(*req);
                }
                out.push_str("required:[");
                push_required(req, out);
                out.push_str("],");
            },
            _ => {},
        },
        None => {},
    }
    let ghost req_part = match lookup(e, "required"@) {
        Some(JsonView::List(r)) => "required:["@ + required_text(r, r.len() as int) + "],"@,
        _ => Seq::empty(),
    };
    assert(out@ =~= b + req_part);
    out.push_str("type:");
    let ty = type_name_of(params, "object");
    push_quoted(out, ty.as_str());
    out.push('}');
    assert(out@ =~= start + parameters_text(params@));
}

/// Encode one tool declaration body (without the surrounding control tokens).
pub fn encode_declaration(name: &str, description: &str, params: &Json) -> (out: String)
    requires
        params@.wf(),
    ensures
        out@ == declaration_text(name@, description@, params@),
{
    let mut out = "declaration:".to_owned();
    out.push_str(name);
    out.push_str("{description:");
    push_quoted(&mut out, description);
    push_parameters(params, &mut out);
    out.push('}');
    assert(out@ =~= declaration_text(name@, description@, params@));
    out
}

} // verus!
