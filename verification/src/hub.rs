//! Fetching checkpoints from Hugging Face.
//!
//! A transfer of many gigabytes *will* be interrupted, and a checkpoint that
//! arrives short is worse than one that does not arrive at all. So a download is
//! resumable, and nothing is called finished until the byte count, the published
//! hash and the parsed tensor table agree.

use crate::text;
use sha2::Digest;
use vstd::prelude::*;

pub mod args;
pub mod fetch;
pub mod progress;

verus! {

// ---------------------------------------------------------------------------
// Addresses
// ---------------------------------------------------------------------------
/// Gemma 4 12B, Q4_K_M: the address that this project has been developed against.
pub const GEMMA4_URL: &'static str = "https://huggingface.co/yuxinlu1/gemma-4-12B-agentic-fable5-composer2.5-v2-3.5x-tau2-GGUF/resolve/main/gemma4-v2-Q4_K_M.gguf";

/// Qwen 3.8 27B, Q6_K: the address that this project has been developed against.
pub const QWEN35_URL: &'static str = "https://huggingface.co/OBLITERATUS/Qwen3.8-27B-OBLITERATED/resolve/main/Qwen3.8-27B-OBLITERATED-Q6_K.gguf";

/// Gemma 4 E4B, Q4_K_M. The file's name is that of the model that the window opens by
/// default. The repository is a guess after that name: it is on no record here, and
/// nothing has been fetched from it.
pub const GEMMA4_E4B_Q4_URL: &'static str = "https://huggingface.co/ggml-org/gemma-4-E4B-it-GGUF/resolve/main/gemma-4-E4B-it-Q4_K_M.gguf";

/// Gemma 4 E4B, Q8_0. File and repository are guesses after the Q4_K_M file: they are on
/// no record here, and nothing has been fetched from there.
pub const GEMMA4_E4B_URL: &'static str = "https://huggingface.co/ggml-org/gemma-4-E4B-it-GGUF/resolve/main/gemma-4-E4B-it-Q8_0.gguf";

/// The vision tower of Gemma 4 E4B. The file's name is the one that image input is
/// documented with. The repository is a guess after it: it is on no record here, and
/// nothing has been fetched from it.
pub const GEMMA4_E4B_MMPROJ_URL: &'static str = "https://huggingface.co/ggml-org/gemma-4-E4B-it-GGUF/resolve/main/mmproj-gemma-4-E4B-it-BF16.gguf";

/// Qwen3 0.6B, Q8_0. File and repository are guesses after the model's name and its
/// publisher's: they are on no record here, and nothing has been fetched from there.
pub const QWEN3_URL: &'static str = "https://huggingface.co/Qwen/Qwen3-0.6B-GGUF/resolve/main/Qwen3-0.6B-Q8_0.gguf";

/// A name for a checkpoint, so that it need not be an address.
#[derive(Debug, Clone, Copy)]
pub struct Alias {
    pub name: &'static str,
    pub url: &'static str,
    /// The address is known to serve the checkpoint. Where it is not, whoever fetches
    /// should be told.
    pub confirmed: bool,
}

#[verifier::ext_equal]
pub ghost struct AliasView {
    pub name: Seq<char>,
    pub url: Seq<char>,
    pub confirmed: bool,
}

impl View for Alias {
    type V = AliasView;

    open spec fn view(&self) -> AliasView {
        AliasView { name: self.name@, url: self.url@, confirmed: self.confirmed }
    }
}

/// The checkpoints that have a name; those whose address is confirmed come first.
pub open spec fn alias_table() -> Seq<AliasView> {
    seq![
        AliasView { name: "gemma4"@, url: GEMMA4_URL@, confirmed: true },
        AliasView { name: "qwen35"@, url: QWEN35_URL@, confirmed: true },
        AliasView { name: "gemma4-e4b-q4"@, url: GEMMA4_E4B_Q4_URL@, confirmed: false },
        AliasView { name: "gemma4-e4b"@, url: GEMMA4_E4B_URL@, confirmed: false },
        AliasView { name: "gemma4-e4b-mmproj"@, url: GEMMA4_E4B_MMPROJ_URL@, confirmed: false },
        AliasView { name: "qwen3-0.6b"@, url: QWEN3_URL@, confirmed: false },
    ]
}

/// The aliases, in order.
pub fn aliases() -> (v: Vec<Alias>)
    ensures
        v@.map_values(|a: Alias| a@) == alias_table(),
{
    let v = vec![
        Alias { name: "gemma4", url: GEMMA4_URL, confirmed: true },
        Alias { name: "qwen35", url: QWEN35_URL, confirmed: true },
        Alias { name: "gemma4-e4b-q4", url: GEMMA4_E4B_Q4_URL, confirmed: false },
        Alias { name: "gemma4-e4b", url: GEMMA4_E4B_URL, confirmed: false },
        Alias { name: "gemma4-e4b-mmproj", url: GEMMA4_E4B_MMPROJ_URL, confirmed: false },
        Alias { name: "qwen3-0.6b", url: QWEN3_URL, confirmed: false },
    ];
    assert(v@.map_values(|a: Alias| a@) =~= alias_table());
    v
}

/// The entry of a name, from `i` on.
pub open spec fn entry_from(name: Seq<char>, i: int) -> Option<AliasView>
    decreases alias_table().len() - i,
{
    if i < 0 || i >= alias_table().len() {
        None
    } else if alias_table()[i].name == name {
        Some(alias_table()[i])
    } else {
        entry_from(name, i + 1)
    }
}

/// What a name stands for, if it is an alias.
pub fn alias(name: &str) -> (r: Option<Alias>)
    ensures
        match r {
            Some(a) => entry_from(name@, 0) == Some(a@),
            None => entry_from(name@, 0) is None,
        },
{
    let all = aliases();
    let n: usize = all.len();
    let ghost views = all@.map_values(|a: Alias| a@);
    let mut i: usize = 0;
    while i < n
        invariant
            i <= n,
            n == all@.len(),
            views == all@.map_values(|a: Alias| a@),
            views == alias_table(),
            entry_from(name@, 0) == entry_from(name@, i as int),
        decreases n - i,
    {
        assert(alias_table()[i as int] == all@[i as int]@);
        if text::str_eq(all[i].name, name) {
            return Some(all[i]);
        }
        i = i + 1;
    }
    assert(entry_from(name@, n as int) is None);
    None
}

#[derive(Debug)]
pub enum HubError {
    /// Not `hf:<owner>/<repo>/<file>`; what stands behind `hf:`.
    BadShorthand(String),
    /// Not a known alias, shorthand or https URL.
    Unknown(String),
    /// The server answered a probe with neither a success nor a redirect.
    Status(u16),
}

#[verifier::ext_equal]
pub ghost enum HubErrorView {
    BadShorthand(Seq<char>),
    Unknown(Seq<char>),
    Status(u16),
}

impl View for HubError {
    type V = HubErrorView;

    open spec fn view(&self) -> HubErrorView {
        match self {
            HubError::BadShorthand(s) => HubErrorView::BadShorthand(s@),
            HubError::Unknown(s) => HubErrorView::Unknown(s@),
            HubError::Status(n) => HubErrorView::Status(*n),
        }
    }
}

/// Owner, repository and file of a shorthand: up to the first slash, up to the
/// second, and everything behind it.
pub open spec fn shorthand(s: Seq<char>) -> Option<(Seq<char>, Seq<char>, Seq<char>)> {
    match text::find_at(s, 0, "/"@) {
        None => None,
        Some(a) => match text::find_at(s, a + 1, "/"@) {
            None => None,
            Some(b) => Some((s.take(a), s.subrange(a + 1, b), s.skip(b + 1))),
        },
    }
}

/// What serves the bytes that `spec` names.
pub open spec fn url_of(name: Seq<char>) -> Result<Seq<char>, HubErrorView> {
    match entry_from(name, 0) {
        Some(a) => Ok(a.url),
        None => match text::without_prefix(name, "hf:"@) {
            Some(rest) => match shorthand(rest) {
                None => Err(HubErrorView::BadShorthand(rest)),
                Some((owner, repo, file)) => Ok(
                    "https://huggingface.co/"@ + owner + "/"@ + repo + "/resolve/main/"@ + file,
                ),
            },
            None => if text::matches_at(name, 0, "https://"@) {
                Ok(
                    text::replaced_from(
                        text::replaced_from(name, 0, "/blob/"@, "/resolve/"@),
                        0,
                        "/blame/"@,
                        "/resolve/"@,
                    ),
                )
            } else {
                Err(HubErrorView::Unknown(name))
            },
        },
    }
}

/// Every alias resolves to its address, and that is an https one.
pub proof fn aliases_resolve(i: int)
    requires
        0 <= i < alias_table().len(),
    ensures
        url_of(alias_table()[i].name) == Ok::<Seq<char>, HubErrorView>(alias_table()[i].url),
        text::matches_at(alias_table()[i].url, 0, "https://"@),
{
    reveal_strlit("gemma4");
    reveal_strlit("qwen35");
    reveal_strlit("gemma4-e4b-q4");
    reveal_strlit("gemma4-e4b");
    reveal_strlit("gemma4-e4b-mmproj");
    reveal_strlit("qwen3-0.6b");
    reveal_with_fuel(entry_from, 7);
    assert("gemma4"@[0] != "qwen35"@[0]);
    assert("gemma4-e4b"@[0] != "qwen3-0.6b"@[0]);
    assert(entry_from(alias_table()[i].name, 0) == Some(alias_table()[i]));
    reveal_strlit("https://");
    reveal_strlit("https://huggingface.co/yuxinlu1/gemma-4-12B-agentic-fable5-composer2.5-v2-3.5x-tau2-GGUF/resolve/main/gemma4-v2-Q4_K_M.gguf");
    reveal_strlit("https://huggingface.co/OBLITERATUS/Qwen3.8-27B-OBLITERATED/resolve/main/Qwen3.8-27B-OBLITERATED-Q6_K.gguf");
    reveal_strlit("https://huggingface.co/ggml-org/gemma-4-E4B-it-GGUF/resolve/main/gemma-4-E4B-it-Q4_K_M.gguf");
    reveal_strlit("https://huggingface.co/ggml-org/gemma-4-E4B-it-GGUF/resolve/main/gemma-4-E4B-it-Q8_0.gguf");
    reveal_strlit("https://huggingface.co/ggml-org/gemma-4-E4B-it-GGUF/resolve/main/mmproj-gemma-4-E4B-it-BF16.gguf");
    reveal_strlit("https://huggingface.co/Qwen/Qwen3-0.6B-GGUF/resolve/main/Qwen3-0.6B-Q8_0.gguf");
    assert(alias_table()[i].url.subrange(0, 8) =~= "https://"@);
}

/// Turn an alias, a `hf:owner/repo/file` shorthand, or any Hugging Face file URL
/// into something that serves bytes.
///
/// The URL the website hands out is a `/blob/` or `/blame/` page, which returns
/// HTML; rewriting to `/resolve/` is the whole difference.
pub fn resolve_url(name: &str) -> (r: Result<String, HubError>)
    ensures
        match (r, url_of(name@)) {
            (Ok(u), Ok(v)) => u@ == v,
            (Err(e), Err(f)) => e@ == f,
            _ => false,
        },
{
    if let Some(a) = alias(name) {
        return Ok(a.url.to_owned());
    }
    match text::strip_prefix(name, "hf:") {
        Some(rest) => {
            return expand(rest);
        },
        None => {},
    }
    let c = text::chars_of(name);
    if !text::is_at(c.as_slice(), 0, "https://") {
        return Err(HubError::Unknown(name.to_owned()));
    }
    proof {
        reveal_strlit("/blob/");
        reveal_strlit("/blame/");
    }
    let a = text::replace(name, "/blob/", "/resolve/");
    Ok(text::replace(a.as_str(), "/blame/", "/resolve/"))
}

fn expand(rest: String) -> (r: Result<String, HubError>)
    ensures
        match (r, shorthand(rest@)) {
            (Ok(u), Some((owner, repo, file))) => u@ == "https://huggingface.co/"@ + owner + "/"@
                + repo + "/resolve/main/"@ + file,
            (Err(e), None) => e@ == HubErrorView::BadShorthand(rest@),
            _ => false,
        },
{
    proof {
        reveal_strlit("/");
    }
    let c = text::chars_of(rest.as_str());
    let n: usize = c.len();
    let a: usize = match text::find_from(c.as_slice(), 0, "/") {
        Some(p) => p,
        None => {
            return Err(HubError::BadShorthand(rest));
        },
    };
    let b: usize = match text::find_from(c.as_slice(), a + 1, "/") {
        Some(p) => p,
        None => {
            return Err(HubError::BadShorthand(rest));
        },
    };
    let owner = text::slice_string(c.as_slice(), 0, a);
    let repo = text::slice_string(c.as_slice(), a + 1, b);
    let file = text::slice_string(c.as_slice(), b + 1, n);
    assert(owner@ =~= rest@.take(a as int));
    assert(file@ =~= rest@.skip(b + 1));
    let mut s = "https://huggingface.co/".to_owned();
    s.push_str(owner.as_str());
    s.push_str("/");
    s.push_str(repo.as_str());
    s.push_str("/resolve/main/");
    s.push_str(file.as_str());
    Ok(s)
}

// ---------------------------------------------------------------------------
// What is at the other end
// ---------------------------------------------------------------------------
/// What a server answered to a `HEAD` request that stops at redirects.
///
/// The headers that describe the *file* are on the redirect. Followed, it gives
/// the headers of another server, whose `etag` has the same shape and is not the
/// hash of the file.
#[derive(Debug)]
pub struct HeadReply {
    pub status: u16,
    pub linked_size: Option<String>,
    pub content_length: Option<String>,
    pub linked_etag: Option<String>,
    pub etag: Option<String>,
}

#[derive(Debug)]
pub struct Remote {
    pub url: String,
    pub size: u64,
    /// SHA-256 as published, when it is published.
    pub sha256: Option<String>,
    pub filename: String,
}

/// The number that decimal digits stand for.
pub open spec fn number(s: Seq<char>) -> Option<int>
    decreases s.len(),
{
    if s.len() == 0 {
        Some(0)
    } else if '0' <= s.last() <= '9' {
        match number(s.drop_last()) {
            Some(n) => Some(n * 10 + (s.last() as int - '0' as int)),
            None => None,
        }
    } else {
        None
    }
}

/// An unsigned 64-bit number: an optional plus sign, then digits.
pub open spec fn parsed(s: Seq<char>) -> Option<u64> {
    let digits = if s.len() > 0 && s[0] == '+' {
        s.skip(1)
    } else {
        s
    };
    match number(digits) {
        Some(n) => if digits.len() > 0 && n <= u64::MAX {
            Some(n as u64)
        } else {
            None
        },
        None => None,
    }
}

proof fn lemma_number(s: Seq<char>, k: int)
    requires
        0 <= k <= s.len(),
    ensures
        number(s.take(k)) is None ==> number(s) is None,
        number(s) is Some ==> number(s.take(k)) is Some && 0 <= number(s.take(k))->0 <= number(
            s,
        )->0,
    decreases s.len() - k,
{
    if k < s.len() {
        assert(s.take(k + 1).drop_last() =~= s.take(k));
        lemma_number(s, k + 1);
        lemma_number_nonneg(s.take(k));
    } else {
        assert(s.take(k) =~= s);
        lemma_number_nonneg(s);
    }
}

/// Digits stand for no negative number.
pub proof fn lemma_number_nonneg(s: Seq<char>)
    ensures
        number(s) is Some ==> number(s)->0 >= 0,
    decreases s.len(),
{
    if s.len() > 0 {
        lemma_number_nonneg(s.drop_last());
    }
}

/// Parse an unsigned 64-bit number.
pub fn parse_u64(s: &str) -> (r: Option<u64>)
    ensures
        r == parsed(s@),
{
    let c = text::chars_of(s);
    let n: usize = c.len();
    let from: usize = if n > 0 && c[0] == '+' { 1 } else { 0 };
    let ghost digits = s@.skip(from as int);
    assert(from == 0 ==> digits =~= s@);
    if from == n {
        return None;
    }
    let mut v: u64 = 0;
    let mut i: usize = from;
    assert(digits.take(0) =~= Seq::empty());
    while i < n
        invariant
            from <= i <= n,
            n == s@.len(),
            c@ == s@,
            from < n,
            digits == s@.skip(from as int),
            digits == (if s@[0] == '+' {
                s@.skip(1)
            } else {
                s@
            }),
            number(digits.take(i - from)) == Some(v as int),
        decreases n - i,
    {
        proof {
            let k = i - from;
            assert(digits.take(k + 1).drop_last() =~= digits.take(k));
            assert(digits.take(k + 1).last() == s@[i as int]);
            lemma_number(digits, k + 1);
        }
        let x: char = c[i];
        if !('0' <= x && x <= '9') {
            return None;
        }
        let d: u64 = (x as u32 - '0' as u32) as u64;
        match v.checked_mul(10) {
            Some(w) => match w.checked_add(d) {
                Some(y) => {
                    v = y;
                },
                None => {
                    return None;
                },
            },
            None => {
                return None;
            },
        }
        i = i + 1;
    }
    assert(digits.take(n - from) =~= digits);
    Some(v)
}

/// Without quotation marks at either end.
pub open spec fn unquoted(s: Seq<char>) -> Seq<char>
    decreases s.len(),
{
    if s.len() > 0 && s[0] == '"' {
        unquoted(s.drop_first())
    } else if s.len() > 0 && s.last() == '"' {
        unquoted(s.drop_last())
    } else {
        s
    }
}

/// Without weak-validator marks in front.
pub open spec fn strong(s: Seq<char>) -> Seq<char>
    decreases s.len(),
{
    if s.len() >= 2 && s[0] == 'W' && s[1] == '/' {
        strong(s.skip(2))
    } else {
        s
    }
}

pub open spec fn is_hex(c: char) -> bool {
    '0' <= c <= '9' || 'a' <= c <= 'f' || 'A' <= c <= 'F'
}

/// An entity tag as a SHA-256, where it has the shape of one.
pub open spec fn tag_hash(tag: Seq<char>) -> Option<Seq<char>> {
    let s = strong(unquoted(tag));
    if s.len() == 64 && forall|i: int| 0 <= i < s.len() ==> is_hex(#[trigger] s[i]) {
        Some(s)
    } else {
        None
    }
}

fn hash_of_tag(tag: &str) -> (r: Option<String>)
    ensures
        match r {
            Some(h) => tag_hash(tag@) == Some(h@),
            None => tag_hash(tag@) is None,
        },
{
    let c = text::chars_of(tag);
    let mut from: usize = 0;
    let mut to: usize = c.len();
    assert(tag@.subrange(0, to as int) =~= tag@);
    while from < to && c[from] == '"'
        invariant
            from <= to <= c@.len(),
            c@ == tag@,
            unquoted(tag@) == unquoted(tag@.subrange(from as int, to as int)),
        decreases to - from,
    {
        assert(tag@.subrange(from as int, to as int).drop_first() =~= tag@.subrange(
            from + 1,
            to as int,
        ));
        from = from + 1;
    }
    while from < to && c[to - 1] == '"'
        invariant
            from <= to <= c@.len(),
            c@ == tag@,
            from < to ==> c@[from as int] != '"',
            unquoted(tag@) == unquoted(tag@.subrange(from as int, to as int)),
        decreases to - from,
    {
        assert(tag@.subrange(from as int, to as int).drop_last() =~= tag@.subrange(
            from as int,
            to - 1,
        ));
        to = to - 1;
    }
    let ghost bare = tag@.subrange(from as int, to as int);
    assert(unquoted(tag@) == bare);
    let ghost start = from;
    while to - from >= 2 && c[from] == 'W' && c[from + 1] == '/'
        invariant
            from <= to <= c@.len(),
            c@ == tag@,
            strong(bare) == strong(tag@.subrange(from as int, to as int)),
        decreases to - from,
    {
        assert(tag@.subrange(from as int, to as int).skip(2) =~= tag@.subrange(
            from + 2,
            to as int,
        ));
        from = from + 2;
    }
    let ghost s = tag@.subrange(from as int, to as int);
    assert(strong(bare) == s);
    if to - from != 64 {
        return None;
    }
    let mut i: usize = from;
    while i < to
        invariant
            from <= i <= to <= c@.len(),
            c@ == tag@,
            s == tag@.subrange(from as int, to as int),
            s == strong(unquoted(tag@)),
            forall|k: int| 0 <= k < i - from ==> is_hex(#[trigger] s[k]),
        decreases to - i,
    {
        let x: char = c[i];
        if !(('0' <= x && x <= '9') || ('a' <= x && x <= 'f') || ('A' <= x && x <= 'F')) {
            assert(!is_hex(s[i - from]));
            return None;
        }
        i = i + 1;
    }
    Some(text::slice_string(c.as_slice(), from, to))
}

/// Behind the last occurrence of `c`; everything where there is none.
pub open spec fn after_last(s: Seq<char>, c: char) -> Seq<char>
    decreases s.len(),
{
    if s.len() == 0 || s.last() == c {
        Seq::empty()
    } else {
        after_last(s.drop_last(), c).push(s.last())
    }
}

/// Before the first occurrence of `c`; everything where there is none.
pub open spec fn before_first(s: Seq<char>, c: char) -> Seq<char>
    decreases s.len(),
{
    if s.len() == 0 || s[0] == c {
        Seq::empty()
    } else {
        seq![s[0]] + before_first(s.drop_first(), c)
    }
}

/// The file name that an address ends in.
pub open spec fn file_of(url: Seq<char>) -> Seq<char> {
    let last = after_last(url, '/');
    if last.len() == 0 {
        "model.gguf"@
    } else {
        before_first(last, '?')
    }
}

proof fn lemma_after_last(s: Seq<char>, c: char, k: int)
    requires
        0 <= k <= s.len(),
        forall|i: int| k <= i < s.len() ==> s[i] != c,
        k == 0 || s[k - 1] == c,
    ensures
        after_last(s, c) == s.skip(k),
    decreases s.len(),
{
    if s.len() == 0 || s.last() == c {
        assert(k == s.len());
        assert(s.skip(k) =~= Seq::empty());
    } else {
        assert(k < s.len());
        lemma_after_last(s.drop_last(), c, k);
        assert(s.drop_last().skip(k).push(s.last()) =~= s.skip(k));
    }
}

proof fn lemma_before_first(s: Seq<char>, c: char, k: int)
    requires
        0 <= k <= s.len(),
        forall|i: int| 0 <= i < k ==> s[i] != c,
        k == s.len() || s[k] == c,
    ensures
        before_first(s, c) == s.take(k),
    decreases s.len(),
{
    if s.len() == 0 || s[0] == c {
        assert(k == 0);
        assert(s.take(k) =~= Seq::empty());
    } else {
        assert(k > 0);
        lemma_before_first(s.drop_first(), c, k - 1);
        assert(seq![s[0]] + s.drop_first().take(k - 1) =~= s.take(k));
    }
}

fn file_name(url: &str) -> (r: String)
    ensures
        r@ == file_of(url@),
{
    let c = text::chars_of(url);
    let n: usize = c.len();
    let mut from: usize = n;
    while from > 0 && c[from - 1] != '/'
        invariant
            from <= n,
            n == c@.len(),
            forall|i: int| from <= i < n ==> c@[i] != '/',
        decreases from,
    {
        from = from - 1;
    }
    proof {
        lemma_after_last(url@, '/', from as int);
    }
    if from == n {
        return "model.gguf".to_owned();
    }
    let mut to: usize = from;
    while to < n && c[to] != '?'
        invariant
            from <= to <= n,
            n == c@.len(),
            forall|i: int| from <= i < to ==> c@[i] != '?',
        decreases n - to,
    {
        to = to + 1;
    }
    proof {
        lemma_before_first(url@.skip(from as int), '?', to - from);
        assert(url@.skip(from as int).take(to - from) =~= url@.subrange(from as int, to as int));
    }
    text::slice_string(c.as_slice(), from, to)
}

pub open spec fn opt_chars(s: Option<String>) -> Option<Seq<char>> {
    match s {
        Some(x) => Some(x@),
        None => None,
    }
}

pub open spec fn redirected(status: u16) -> bool {
    300 <= status < 400
}

/// The first that is there; the second counts only where nothing was redirected.
pub open spec fn preferred(
    first: Option<String>,
    second: Option<String>,
    status: u16,
) -> Option<Seq<char>> {
    if first is Some {
        opt_chars(first)
    } else if redirected(status) {
        None
    } else {
        opt_chars(second)
    }
}

/// The size of the file: what the reply says of the linked object, else, without
/// a redirect, its own length; 0 where neither says.
pub open spec fn size_of(h: HeadReply) -> u64 {
    match preferred(h.linked_size, h.content_length, h.status) {
        Some(s) => match parsed(s) {
            Some(n) => n,
            None => 0,
        },
        None => 0,
    }
}

/// The published hash: the linked object's tag, else, without a redirect, the
/// reply's own, where it has the shape of a SHA-256.
pub open spec fn hash_of(h: HeadReply) -> Option<Seq<char>> {
    match preferred(h.linked_etag, h.etag, h.status) {
        Some(s) => tag_hash(s),
        None => None,
    }
}

fn pick<'a>(first: &'a Option<String>, second: &'a Option<String>, status: u16) -> (r: Option<
    &'a str,
>)
    ensures
        match r {
            Some(s) => preferred(*first, *second, status) == Some(s@),
            None => preferred(*first, *second, status) is None,
        },
{
    match first {
        Some(s) => Some(s.as_str()),
        None => if 300 <= status && status < 400 {
            None
        } else {
            match second {
                Some(s) => Some(s.as_str()),
                None => None,
            }
        },
    }
}

/// What a probe of `url` says of the file.
pub fn probe(url: &str, reply: &HeadReply) -> (r: Result<Remote, HubError>)
    ensures
        if !(200 <= reply.status < 300) && !redirected(reply.status) {
            r matches Err(e) && e@ == HubErrorView::Status(reply.status)
        } else {
            &&& r matches Ok(x)
            &&& x.url@ == url@
            &&& x.size == size_of(*reply)
            &&& opt_chars(x.sha256) == hash_of(*reply)
            &&& x.filename@ == file_of(url@)
        },
{
    if !(200 <= reply.status && reply.status < 300) && !(300 <= reply.status && reply.status
        < 400) {
        return Err(HubError::Status(reply.status));
    }
    let size: u64 = match pick(&reply.linked_size, &reply.content_length, reply.status) {
        Some(s) => match parse_u64(s) {
            Some(n) => n,
            None => 0,
        },
        None => 0,
    };
    let sha256 = match pick(&reply.linked_etag, &reply.etag, reply.status) {
        Some(s) => hash_of_tag(s),
        None => None,
    };
    Ok(Remote { url: url.to_owned(), size, sha256, filename: file_name(url) })
}

// ---------------------------------------------------------------------------
// Hashing
// ---------------------------------------------------------------------------
/// `sha2::Sha256`: a hash in progress.
#[verifier::external_type_specification]
#[verifier::external_body]
pub struct ExSha256(sha2::Sha256);

/// The bytes that a hash in progress has taken in.
pub uninterp spec fn absorbed(h: sha2::Sha256) -> Seq<u8>;

/// The SHA-256 of some bytes.
pub uninterp spec fn sha256(bytes: Seq<u8>) -> Seq<u8>;

/// `Sha256::new`: a hash that has taken in nothing.
#[verifier::external_body]
fn hash_start() -> (h: sha2::Sha256)
    ensures
        absorbed(h) == Seq::<u8>::empty(),
{
    sha2::Sha256::new()
}

/// `Digest::update`: take in more bytes, behind those before.
#[verifier::external_body]
fn hash_more(h: &mut sha2::Sha256, bytes: &[u8])
    ensures
        absorbed(*final(h)) == absorbed(*old(h)) + bytes@,
{
    h.update(bytes);
}

/// `Digest::finalize` on a copy: the 32 bytes of the hash of all that was taken
/// in. What they are is only named.
#[verifier::external_body]
fn hash_end(h: &sha2::Sha256) -> (r: Vec<u8>)
    ensures
        r@ == sha256(absorbed(*h)),
        r@.len() == 32,
{
    h.clone().finalize().to_vec()
}

/// A lower-case hexadecimal digit.
pub open spec fn nibble(d: int) -> char {
    if d < 10 {
        text::digit(d)
    } else if d == 10 {
        'a'
    } else if d == 11 {
        'b'
    } else if d == 12 {
        'c'
    } else if d == 13 {
        'd'
    } else if d == 14 {
        'e'
    } else {
        'f'
    }
}

fn nibble_char(d: u8) -> (c: char)
    requires
        d < 16,
    ensures
        c == nibble(d as int),
{
    if d < 10 {
        text::digit_char(d as u64)
    } else if d == 10 {
        'a'
    } else if d == 11 {
        'b'
    } else if d == 12 {
        'c'
    } else if d == 13 {
        'd'
    } else if d == 14 {
        'e'
    } else {
        'f'
    }
}

/// Bytes in hexadecimal, two digits each.
pub open spec fn hex_of(bytes: Seq<u8>) -> Seq<char> {
    Seq::new(
        2 * bytes.len(),
        |i: int|
            if i % 2 == 0 {
                nibble(bytes[i / 2] as int / 16)
            } else {
                nibble(bytes[i / 2] as int % 16)
            },
    )
}

/// Bytes in hexadecimal, two digits each.
pub fn hex(bytes: &[u8]) -> (s: String)
    ensures
        s@ == hex_of(bytes@),
{
    let n: usize = bytes.len();
    let mut s = String::new();
    let mut i: usize = 0;
    assert(s@ =~= hex_of(bytes@).take(0));
    while i < n
        invariant
            i <= n,
            n == bytes@.len(),
            s@ == hex_of(bytes@).take(2 * i),
        decreases n - i,
    {
        s.push(nibble_char(bytes[i] / 16));
        s.push(nibble_char(bytes[i] % 16));
        i = i + 1;
        assert(s@ =~= hex_of(bytes@).take(2 * i));
    }
    assert(s@ =~= hex_of(bytes@));
    s
}

/// A SHA-256 in progress.
pub struct Hasher {
    inner: sha2::Sha256,
}

impl Hasher {
    /// The bytes taken in so far.
    pub closed spec fn bytes(&self) -> Seq<u8> {
        absorbed(self.inner)
    }

    pub fn new() -> (h: Hasher)
        ensures
            h.bytes() == Seq::<u8>::empty(),
    {
        Hasher { inner: hash_start() }
    }

    pub fn update(&mut self, bytes: &[u8])
        ensures
            final(self).bytes() == old(self).bytes() + bytes@,
    {
        hash_more(&mut self.inner, bytes);
    }

    /// The hash of everything taken in so far, in hexadecimal.
    pub fn digest_so_far(&self) -> (r: String)
        ensures
            r@ == hex_of(sha256(self.bytes())),
    {
        let digest = hash_end(&self.inner);
        hex(digest.as_slice())
    }
}

} // verus!
