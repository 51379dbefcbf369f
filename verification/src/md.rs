//! Markdown replies, as elements.
//!
//! The parser's events are folded into a small tree and the tree is turned into
//! elements. No markup text is ever built: raw HTML in a reply is shown as text,
//! and links are styled but lead nowhere.

use crate::text::{self, white};
use pulldown_cmark::Event as Mark;
use vstd::prelude::*;

verus! {

// ---------------------------------------------------------------------------
// Events
// ---------------------------------------------------------------------------
/// What an element opens with.
#[derive(Debug)]
pub enum Opening {
    Paragraph,
    Heading(u8),
    Quote,
    /// A fenced code block and what stands behind the fence.
    Fenced(String),
    Indented,
    List(Option<u64>),
    Item,
    Emphasis,
    Strong,
    Strikethrough,
    Link,
    Table,
    Head,
    Row,
    Cell,
    Other,
}

#[verifier::ext_equal]
pub ghost enum OpeningView {
    Paragraph,
    Heading(u8),
    Quote,
    Fenced(Seq<char>),
    Indented,
    List(Option<u64>),
    Item,
    Emphasis,
    Strong,
    Strikethrough,
    Link,
    Table,
    Head,
    Row,
    Cell,
    Other,
}

impl View for Opening {
    type V = OpeningView;

    open spec fn view(&self) -> OpeningView {
        match self {
            Opening::Paragraph => OpeningView::Paragraph,
            Opening::Heading(n) => OpeningView::Heading(*n),
            Opening::Quote => OpeningView::Quote,
            Opening::Fenced(s) => OpeningView::Fenced(s@),
            Opening::Indented => OpeningView::Indented,
            Opening::List(n) => OpeningView::List(*n),
            Opening::Item => OpeningView::Item,
            Opening::Emphasis => OpeningView::Emphasis,
            Opening::Strong => OpeningView::Strong,
            Opening::Strikethrough => OpeningView::Strikethrough,
            Opening::Link => OpeningView::Link,
            Opening::Table => OpeningView::Table,
            Opening::Head => OpeningView::Head,
            Opening::Row => OpeningView::Row,
            Opening::Cell => OpeningView::Cell,
            Opening::Other => OpeningView::Other,
        }
    }
}

/// Something that is not an element.
#[derive(Debug)]
pub enum Words {
    Text(String),
    Html(String),
    InlineHtml(String),
    InlineMath(String),
    DisplayMath(String),
    Code(String),
    Footnote(String),
}

#[verifier::ext_equal]
pub ghost enum WordsView {
    Text(Seq<char>),
    Html(Seq<char>),
    InlineHtml(Seq<char>),
    InlineMath(Seq<char>),
    DisplayMath(Seq<char>),
    Code(Seq<char>),
    Footnote(Seq<char>),
}

impl View for Words {
    type V = WordsView;

    open spec fn view(&self) -> WordsView {
        match self {
            Words::Text(s) => WordsView::Text(s@),
            Words::Html(s) => WordsView::Html(s@),
            Words::InlineHtml(s) => WordsView::InlineHtml(s@),
            Words::InlineMath(s) => WordsView::InlineMath(s@),
            Words::DisplayMath(s) => WordsView::DisplayMath(s@),
            Words::Code(s) => WordsView::Code(s@),
            Words::Footnote(s) => WordsView::Footnote(s@),
        }
    }
}

#[derive(Debug, Clone, Copy, PartialEq, Eq, Structural)]
pub enum Sign {
    Close,
    SoftBreak,
    HardBreak,
    Rule,
    Task(bool),
}

/// One step of a document.
#[derive(Debug)]
pub enum Step {
    Open(Opening),
    Say(Words),
    Sign(Sign),
}

#[verifier::ext_equal]
pub ghost enum StepView {
    Open(OpeningView),
    Say(WordsView),
    Sign(Sign),
}

impl View for Step {
    type V = StepView;

    open spec fn view(&self) -> StepView {
        match self {
            Step::Open(o) => StepView::Open(o@),
            Step::Say(w) => StepView::Say(w@),
            Step::Sign(s) => StepView::Sign(*s),
        }
    }
}

pub open spec fn step_views(v: Seq<Step>) -> Seq<StepView> {
    v.map_values(|s: Step| s@)
}

/// `pulldown_cmark::Event`: one step of a document.
#[verifier::external_type_specification]
#[verifier::external_body]
pub struct ExMark<'a>(Mark<'a>);

/// What an event holds.
pub uninterp spec fn held(e: Mark<'_>) -> StepView;

/// The steps of a Markdown document, read with the extensions that the bits of
/// `options` name.
pub uninterp spec fn markdown(src: Seq<char>, options: u32) -> Seq<StepView>;

/// The bit of `pulldown_cmark::Options` for tables.
pub const TABLES: u32 = 2;

/// The bit for strikethrough.
pub const STRIKETHROUGH: u32 = 8;

/// The bit for task lists.
pub const TASK_LISTS: u32 = 16;

/// The extensions that replies are read with.
pub const EXTENSIONS: u32 = TABLES + STRIKETHROUGH + TASK_LISTS;

pub open spec fn marks_held(v: Seq<Mark<'_>>) -> Seq<StepView> {
    Seq::new(v.len(), |i: int| held(v[i]))
}

/// `pulldown_cmark::Parser::new_ext`: the events of a document, read with the
/// extensions that the bits of `options` name. Which they are, is only named.
#[verifier::external_body]
fn events<'a>(src: &'a str, options: u32) -> (r: Vec<Mark<'a>>)
    ensures
        marks_held(r@) == markdown(src@, options),
{
    let options = pulldown_cmark::Options::from_bits_truncate(options);
    pulldown_cmark::Parser::new_ext(src, options).collect()
}

/// A block that an event opens.
pub open spec fn block_of(s: StepView) -> Option<OpeningView> {
    match s {
        StepView::Open(o) => match o {
            OpeningView::Paragraph | OpeningView::Heading(_) | OpeningView::Quote
            | OpeningView::Fenced(_) | OpeningView::Indented | OpeningView::List(_)
            | OpeningView::Item => Some(o),
            _ => None,
        },
        _ => None,
    }
}

/// A span or a part of a table that an event opens.
pub open spec fn span_of(s: StepView) -> Option<OpeningView> {
    match s {
        StepView::Open(o) => match o {
            OpeningView::Emphasis | OpeningView::Strong | OpeningView::Strikethrough
            | OpeningView::Link | OpeningView::Table | OpeningView::Head | OpeningView::Row
            | OpeningView::Cell => Some(o),
            _ => None,
        },
        _ => None,
    }
}

pub open spec fn opt_opening(o: Option<Opening>) -> Option<OpeningView> {
    match o {
        Some(x) => Some(x@),
        None => None,
    }
}

/// `pulldown_cmark::Event::Start` with a block, taken apart.
#[verifier::external_body]
fn block(e: &Mark<'_>) -> (r: Option<Opening>)
    ensures
        opt_opening(r) == block_of(held(*e)),
{
    match e {
        Mark::Start(pulldown_cmark::Tag::Paragraph) => Some(Opening::Paragraph),
        Mark::Start(pulldown_cmark::Tag::Heading { level, .. }) => Some(Opening::Heading(*level as u8)),
        Mark::Start(pulldown_cmark::Tag::BlockQuote(_)) => Some(Opening::Quote),
        Mark::Start(pulldown_cmark::Tag::CodeBlock(pulldown_cmark::CodeBlockKind::Fenced(s))) => Some(Opening::Fenced(s.to_string())),
        Mark::Start(pulldown_cmark::Tag::CodeBlock(_)) => Some(Opening::Indented),
        Mark::Start(pulldown_cmark::Tag::List(n)) => Some(Opening::List(*n)),
        Mark::Start(pulldown_cmark::Tag::Item) => Some(Opening::Item),
        _ => None,
    }
}

/// `pulldown_cmark::Event::Start` with a span or a part of a table, taken apart.
#[verifier::external_body]
fn span(e: &Mark<'_>) -> (r: Option<Opening>)
    ensures
        opt_opening(r) == span_of(held(*e)),
{
    match e {
        Mark::Start(pulldown_cmark::Tag::Emphasis) => Some(Opening::Emphasis),
        Mark::Start(pulldown_cmark::Tag::Strong) => Some(Opening::Strong),
        Mark::Start(pulldown_cmark::Tag::Strikethrough) => Some(Opening::Strikethrough),
        Mark::Start(pulldown_cmark::Tag::Link { .. }) => Some(Opening::Link),
        Mark::Start(pulldown_cmark::Tag::Table(_)) => Some(Opening::Table),
        Mark::Start(pulldown_cmark::Tag::TableHead) => Some(Opening::Head),
        Mark::Start(pulldown_cmark::Tag::TableRow) => Some(Opening::Row),
        Mark::Start(pulldown_cmark::Tag::TableCell) => Some(Opening::Cell),
        _ => None,
    }
}

/// The events of `pulldown_cmark` that hold text, taken apart.
#[verifier::external_body]
fn words(e: &Mark<'_>) -> (r: Option<Words>)
    ensures
        match r {
            Some(w) => held(*e) == StepView::Say(w@),
            None => held(*e) !is Say,
        },
{
    match e {
        Mark::Text(t) => Some(Words::Text(t.to_string())),
        Mark::Html(t) => Some(Words::Html(t.to_string())),
        Mark::InlineHtml(t) => Some(Words::InlineHtml(t.to_string())),
        Mark::InlineMath(t) => Some(Words::InlineMath(t.to_string())),
        Mark::DisplayMath(t) => Some(Words::DisplayMath(t.to_string())),
        Mark::Code(t) => Some(Words::Code(t.to_string())),
        Mark::FootnoteReference(t) => Some(Words::Footnote(t.to_string())),
        _ => None,
    }
}

/// The events of `pulldown_cmark` that hold no text, taken apart.
#[verifier::external_body]
fn sign(e: &Mark<'_>) -> (r: Option<Sign>)
    ensures
        match r {
            Some(s) => held(*e) == StepView::Sign(s),
            None => held(*e) !is Sign,
        },
{
    match e {
        Mark::End(_) => Some(Sign::Close),
        Mark::SoftBreak => Some(Sign::SoftBreak),
        Mark::HardBreak => Some(Sign::HardBreak),
        Mark::Rule => Some(Sign::Rule),
        Mark::TaskListMarker(done) => Some(Sign::Task(*done)),
        _ => None,
    }
}

/// The step that an event is.
fn step(e: &Mark<'_>) -> (r: Step)
    ensures
        r@ == held(*e),
{
    if let Some(w) = words(e) {
        return Step::Say(w);
    }
    if let Some(s) = sign(e) {
        return Step::Sign(s);
    }
    if let Some(o) = block(e) {
        return Step::Open(o);
    }
    if let Some(o) = span(e) {
        return Step::Open(o);
    }
    Step::Open(Opening::Other)
}

// ---------------------------------------------------------------------------
// The tree
// ---------------------------------------------------------------------------
#[derive(Debug)]
pub enum Kind {
    Root,
    P,
    H(u8),
    Quote,
    Code(String),
    Ul,
    Ol(u64),
    Li,
    Em,
    Strong,
    Del,
    Link,
    Table,
    Row { head: bool },
    Cell,
    Span,
}

#[derive(Debug)]
pub enum Node {
    El(Kind, Vec<Node>),
    Text(String),
    Code(String),
    Break,
    Rule,
}

#[verifier::ext_equal]
pub ghost enum KindView {
    Root,
    P,
    H(u8),
    Quote,
    Code(Seq<char>),
    Ul,
    Ol(u64),
    Li,
    Em,
    Strong,
    Del,
    Link,
    Table,
    Row { head: bool },
    Cell,
    Span,
}

#[verifier::ext_equal]
pub ghost enum NodeView {
    El(KindView, Seq<NodeView>),
    Text(Seq<char>),
    Code(Seq<char>),
    Break,
    Rule,
}

impl View for Kind {
    type V = KindView;

    open spec fn view(&self) -> KindView {
        match self {
            Kind::Root => KindView::Root,
            Kind::P => KindView::P,
            Kind::H(n) => KindView::H(*n),
            Kind::Quote => KindView::Quote,
            Kind::Code(s) => KindView::Code(s@),
            Kind::Ul => KindView::Ul,
            Kind::Ol(n) => KindView::Ol(*n),
            Kind::Li => KindView::Li,
            Kind::Em => KindView::Em,
            Kind::Strong => KindView::Strong,
            Kind::Del => KindView::Del,
            Kind::Link => KindView::Link,
            Kind::Table => KindView::Table,
            Kind::Row { head } => KindView::Row { head: *head },
            Kind::Cell => KindView::Cell,
            Kind::Span => KindView::Span,
        }
    }
}

impl Node {
    pub open spec fn model(&self) -> NodeView
        decreases self,
    {
        match self {
            Node::El(k, kids) => NodeView::El(
                k@,
                Seq::new(
                    kids@.len(),
                    |i: int|
                        if 0 <= i < kids@.len() {
                            kids@[i].model()
                        } else {
                            NodeView::Break
                        },
                ),
            ),
            Node::Text(s) => NodeView::Text(s@),
            Node::Code(s) => NodeView::Code(s@),
            Node::Break => NodeView::Break,
            Node::Rule => NodeView::Rule,
        }
    }
}

impl View for Node {
    type V = NodeView;

    open spec fn view(&self) -> NodeView {
        self.model()
    }
}

pub open spec fn node_views(v: Seq<Node>) -> Seq<NodeView> {
    Seq::new(v.len(), |i: int| v[i]@)
}

/// What an element looks like.
pub proof fn lemma_el_view(k: Kind, kids: Vec<Node>)
    ensures
        Node::El(k, kids)@ == NodeView::El(k@, node_views(kids@)),
{
    reveal_with_fuel(Node::model, 2);
    assert(Node::El(k, kids)@->El_1 =~= node_views(kids@));
}

/// Where the word that starts at `i` ends.
pub open spec fn word_end(s: Seq<char>, i: int) -> int
    decreases s.len() - i,
{
    if 0 <= i < s.len() && !white(s[i]) {
        word_end(s, i + 1)
    } else {
        i
    }
}

/// The first word of a text.
pub open spec fn first_word(s: Seq<char>) -> Seq<char> {
    let t = text::trimmed(s);
    t.take(word_end(t, 0))
}

fn take_word(s: &str) -> (r: String)
    ensures
        r@ == first_word(s@),
{
    let t = text::trim(s);
    let c = text::chars_of(t.as_str());
    let n: usize = c.len();
    let mut i: usize = 0;
    while i < n && !text::is_white(c[i])
        invariant
            i <= n,
            n == c@.len(),
            c@ == t@,
            word_end(t@, 0) == word_end(t@, i as int),
        decreases n - i,
    {
        i = i + 1;
    }
    let r = text::slice_string(c.as_slice(), 0, i);
    assert(r@ =~= t@.take(i as int));
    r
}

/// The element that an opening opens.
pub open spec fn kind_of(o: OpeningView) -> KindView {
    match o {
        OpeningView::Paragraph => KindView::P,
        OpeningView::Heading(n) => KindView::H(
            if 1 <= n <= 3 {
                n
            } else {
                4
            },
        ),
        OpeningView::Quote => KindView::Quote,
        OpeningView::Fenced(s) => KindView::Code(first_word(s)),
        OpeningView::Indented => KindView::Code(Seq::empty()),
        OpeningView::List(None) => KindView::Ul,
        OpeningView::List(Some(n)) => KindView::Ol(n),
        OpeningView::Item => KindView::Li,
        OpeningView::Emphasis => KindView::Em,
        OpeningView::Strong => KindView::Strong,
        OpeningView::Strikethrough => KindView::Del,
        OpeningView::Link => KindView::Link,
        OpeningView::Table => KindView::Table,
        OpeningView::Head => KindView::Row { head: true },
        OpeningView::Row => KindView::Row { head: false },
        OpeningView::Cell => KindView::Cell,
        OpeningView::Other => KindView::Span,
    }
}

fn open_kind(o: &Opening) -> (r: Kind)
    ensures
        r@ == kind_of(o@),
{
    match o {
        Opening::Paragraph => Kind::P,
        Opening::Heading(n) => Kind::H(if 1 <= *n && *n <= 3 { *n } else { 4 }),
        Opening::Quote => Kind::Quote,
        Opening::Fenced(s) => Kind::Code(take_word(s.as_str())),
        Opening::Indented => {
            let s = String::new();
            assert(s@ =~= Seq::empty());
            Kind::Code(s)
        },
        Opening::List(None) => Kind::Ul,
        Opening::List(Some(n)) => Kind::Ol(*n),
        Opening::Item => Kind::Li,
        Opening::Emphasis => Kind::Em,
        Opening::Strong => Kind::Strong,
        Opening::Strikethrough => Kind::Del,
        Opening::Link => Kind::Link,
        Opening::Table => Kind::Table,
        Opening::Head => Kind::Row { head: true },
        Opening::Row => Kind::Row { head: false },
        Opening::Cell => Kind::Cell,
        Opening::Other => Kind::Span,
    }
}

/// What words are shown as. Markup and formulas are shown as they are.
pub open spec fn words_node(w: WordsView) -> NodeView {
    match w {
        WordsView::Code(s) => NodeView::Code(s),
        WordsView::Footnote(s) => NodeView::Text("["@ + s + "]"@),
        WordsView::Text(s) => NodeView::Text(s),
        WordsView::Html(s) => NodeView::Text(s),
        WordsView::InlineHtml(s) => NodeView::Text(s),
        WordsView::InlineMath(s) => NodeView::Text(s),
        WordsView::DisplayMath(s) => NodeView::Text(s),
    }
}

pub const DONE: &'static str = "\u{2611} ";

pub const TO_DO: &'static str = "\u{2610} ";

/// What a sign is shown as, unless it closes an element.
pub open spec fn sign_node(s: Sign) -> NodeView {
    match s {
        Sign::SoftBreak => NodeView::Text(" "@),
        Sign::HardBreak => NodeView::Break,
        Sign::Rule => NodeView::Rule,
        Sign::Task(done) => NodeView::Text(
            if done {
                DONE@
            } else {
                TO_DO@
            },
        ),
        Sign::Close => NodeView::Break,
    }
}

fn say(w: &Words) -> (r: Node)
    ensures
        r@ == words_node(w@),
{
    match w {
        Words::Code(s) => Node::Code(s.as_str().to_owned()),
        Words::Footnote(s) => {
            let mut t = "[".to_owned();
            t.push_str(s.as_str());
            t.push_str("]");
            Node::Text(t)
        },
        Words::Text(s) => Node::Text(s.as_str().to_owned()),
        Words::Html(s) => Node::Text(s.as_str().to_owned()),
        Words::InlineHtml(s) => Node::Text(s.as_str().to_owned()),
        Words::InlineMath(s) => Node::Text(s.as_str().to_owned()),
        Words::DisplayMath(s) => Node::Text(s.as_str().to_owned()),
    }
}

fn show_sign(s: Sign) -> (r: Node)
    ensures
        r@ == sign_node(s),
{
    match s {
        Sign::SoftBreak => Node::Text(" ".to_owned()),
        Sign::HardBreak => Node::Break,
        Sign::Rule => Node::Rule,
        Sign::Task(done) => Node::Text(if done { DONE.to_owned() } else { TO_DO.to_owned() }),
        Sign::Close => Node::Break,
    }
}

/// An element in the making.
pub struct Frame {
    pub kind: Kind,
    pub kids: Vec<Node>,
}

#[verifier::ext_equal]
pub ghost struct FrameView {
    pub kind: KindView,
    pub kids: Seq<NodeView>,
}

impl View for Frame {
    type V = FrameView;

    open spec fn view(&self) -> FrameView {
        FrameView { kind: self.kind@, kids: node_views(self.kids@) }
    }
}

pub open spec fn frame_views(v: Seq<Frame>) -> Seq<FrameView> {
    v.map_values(|f: Frame| f@)
}

/// A node put into the innermost element.
pub open spec fn put(st: Seq<FrameView>, n: NodeView) -> Seq<FrameView> {
    st.drop_last().push(FrameView { kind: st.last().kind, kids: st.last().kids.push(n) })
}

/// The innermost element closed.
pub open spec fn closed(st: Seq<FrameView>) -> Seq<FrameView> {
    put(st.drop_last(), NodeView::El(st.last().kind, st.last().kids))
}

/// The open elements after a step. What closes nothing is passed over.
pub open spec fn stepped(st: Seq<FrameView>, s: StepView) -> Seq<FrameView> {
    match s {
        StepView::Open(o) => st.push(FrameView { kind: kind_of(o), kids: Seq::empty() }),
        StepView::Say(w) => put(st, words_node(w)),
        StepView::Sign(Sign::Close) => if st.len() > 1 {
            closed(st)
        } else {
            st
        },
        StepView::Sign(x) => put(st, sign_node(x)),
    }
}

/// The open elements after some steps.
pub open spec fn folded(steps: Seq<StepView>) -> Seq<FrameView>
    decreases steps.len(),
{
    if steps.len() == 0 {
        seq![FrameView { kind: KindView::Root, kids: Seq::empty() }]
    } else {
        stepped(folded(steps.drop_last()), steps.last())
    }
}

/// Everything closed. A reply still streaming in can leave elements open.
pub open spec fn all_closed(st: Seq<FrameView>) -> Seq<FrameView>
    decreases st.len(),
{
    if st.len() <= 1 {
        st
    } else {
        all_closed(closed(st))
    }
}

/// The tree of a document.
pub open spec fn tree(steps: Seq<StepView>) -> Seq<NodeView> {
    all_closed(folded(steps)).last().kids
}

proof fn lemma_folded(steps: Seq<StepView>)
    ensures
        folded(steps).len() >= 1,
    decreases steps.len(),
{
    if steps.len() > 0 {
        lemma_folded(steps.drop_last());
    }
}

fn push_node(st: &mut Vec<Frame>, n: Node)
    requires
        old(st)@.len() > 0,
    ensures
        frame_views(final(st)@) == put(frame_views(old(st)@), n@),
{
    let ghost before = frame_views(st@);
    let ghost x = n@;
    match st.pop() {
        Some(f) => {
            let ghost k = f.kind@;
            let ghost had = node_views(f.kids@);
            let mut kids = f.kids;
            kids.push(n);
            assert(node_views(kids@) =~= had.push(x));
            let g = Frame { kind: f.kind, kids };
            assert(before.last() == FrameView { kind: k, kids: had });
            st.push(g);
            assert(frame_views(st@) =~= put(before, x));
        },
        None => {},
    }
}

fn close(st: &mut Vec<Frame>)
    requires
        old(st)@.len() > 1,
    ensures
        frame_views(final(st)@) == closed(frame_views(old(st)@)),
{
    let ghost before = frame_views(st@);
    match st.pop() {
        Some(f) => {
            proof {
                lemma_el_view(f.kind, f.kids);
            }
            assert(before.last() == f@);
            assert(frame_views(st@) =~= before.drop_last());
            push_node(st, Node::El(f.kind, f.kids));
        },
        None => {},
    }
}

/// The tree of a document, from its steps.
pub fn build(steps: &[Step]) -> (r: Vec<Node>)
    ensures
        node_views(r@) == tree(step_views(steps@)),
{
    let ghost all = step_views(steps@);
    let mut st: Vec<Frame> = Vec::new();
    st.push(Frame { kind: Kind::Root, kids: Vec::new() });
    assert(all.take(0) =~= Seq::empty());
    assert(node_views(st@[0].kids@) =~= Seq::empty());
    assert(frame_views(st@) =~= folded(all.take(0)));
    let n: usize = steps.len();
    let mut i: usize = 0;
    while i < n
        invariant
            i <= n,
            n == steps@.len(),
            all == step_views(steps@),
            frame_views(st@) == folded(all.take(i as int)),
        decreases n - i,
    {
        let ghost before = frame_views(st@);
        proof {
            lemma_folded(all.take(i as int));
            assert(before.len() == st@.len());
            assert(all.take(i + 1).drop_last() =~= all.take(i as int));
            assert(all[i as int] == steps@[i as int]@);
        }
        match &steps[i] {
            Step::Open(o) => {
                let f = Frame { kind: open_kind(o), kids: Vec::new() };
                assert(node_views(f.kids@) =~= Seq::empty());
                let ghost x = f@;
                st.push(f);
                assert(frame_views(st@) =~= before.push(x));
            },
            Step::Say(w) => push_node(&mut st, say(w)),
            Step::Sign(s) => match *s {
                Sign::Close => {
                    if st.len() > 1 {
                        close(&mut st);
                    }
                },
                _ => push_node(&mut st, show_sign(*s)),
            },
        }
        i = i + 1;
    }
    assert(all.take(n as int) =~= all);
    let ghost open = frame_views(st@);
    proof {
        lemma_folded(all);
        assert(open.len() == st@.len());
    }
    while st.len() > 1
        invariant
            st@.len() >= 1,
            all_closed(open) == all_closed(frame_views(st@)),
        decreases st@.len(),
    {
        let ghost before = frame_views(st@);
        close(&mut st);
        assert(frame_views(st@).len() == st@.len());
    }
    let ghost last = frame_views(st@);
    match st.pop() {
        Some(f) => {
            assert(last.last() == f@);
            f.kids
        },
        None => Vec::new(),
    }
}

/// A reply's Markdown as a tree.
pub fn parse(src: &str) -> (r: Vec<Node>)
    ensures
        node_views(r@) == tree(markdown(src@, EXTENSIONS)),
{
    let marks = events(src, EXTENSIONS);
    let ghost all = marks_held(marks@);
    let n: usize = marks.len();
    let mut steps: Vec<Step> = Vec::new();
    let mut i: usize = 0;
    while i < n
        invariant
            i <= n,
            n == marks@.len(),
            all == marks_held(marks@),
            step_views(steps@) == all.take(i as int),
        decreases n - i,
    {
        let ghost before = step_views(steps@);
        let s = step(&marks[i]);
        let ghost x = s@;
        steps.push(s);
        assert(step_views(steps@) =~= before.push(x));
        assert(before.push(x) =~= all.take(i + 1));
        i = i + 1;
    }
    assert(all.take(n as int) =~= all);
    build(steps.as_slice())
}

// ---------------------------------------------------------------------------
// Nothing is lost
// ---------------------------------------------------------------------------
/// The text of a node, in order.
pub open spec fn node_text(n: NodeView) -> Seq<char>
    decreases n, 0int,
{
    match n {
        NodeView::El(_, kids) => nodes_text(kids, kids.len() as int),
        NodeView::Text(s) => s,
        NodeView::Code(s) => s,
        _ => Seq::empty(),
    }
}

/// The text of the first `n` nodes.
pub open spec fn nodes_text(v: Seq<NodeView>, n: int) -> Seq<char>
    decreases v, n,
{
    if n <= 0 || n > v.len() {
        Seq::empty()
    } else {
        nodes_text(v, n - 1) + node_text(v[n - 1])
    }
}

/// The text of a step.
pub open spec fn step_text(s: StepView) -> Seq<char> {
    match s {
        StepView::Open(_) => Seq::empty(),
        StepView::Say(w) => node_text(words_node(w)),
        StepView::Sign(x) => node_text(sign_node(x)),
    }
}

pub open spec fn steps_text(steps: Seq<StepView>) -> Seq<char>
    decreases steps.len(),
{
    if steps.len() == 0 {
        Seq::empty()
    } else {
        steps_text(steps.drop_last()) + step_text(steps.last())
    }
}

/// The text of the open elements, outermost first.
spec fn stack_text(st: Seq<FrameView>) -> Seq<char>
    decreases st.len(),
{
    if st.len() == 0 {
        Seq::empty()
    } else {
        stack_text(st.drop_last()) + nodes_text(st.last().kids, st.last().kids.len() as int)
    }
}

proof fn lemma_nodes_prefix(v: Seq<NodeView>, x: NodeView, n: int)
    requires
        n <= v.len(),
    ensures
        nodes_text(v.push(x), n) == nodes_text(v, n),
    decreases n,
{
    if n > 0 {
        lemma_nodes_prefix(v, x, n - 1);
    }
}

proof fn lemma_put_text(st: Seq<FrameView>, n: NodeView)
    requires
        st.len() > 0,
    ensures
        stack_text(put(st, n)) == stack_text(st) + node_text(n),
{
    let p = put(st, n);
    let kids = st.last().kids;
    assert(p.drop_last() =~= st.drop_last());
    lemma_nodes_prefix(kids, n, kids.len() as int);
    assert(nodes_text(kids.push(n), kids.len() as int + 1) == nodes_text(
        kids.push(n),
        kids.len() as int,
    ) + node_text(n));
    assert(stack_text(p) =~= stack_text(st) + node_text(n));
}

proof fn lemma_closed_text(st: Seq<FrameView>)
    requires
        st.len() > 1,
    ensures
        stack_text(closed(st)) == stack_text(st),
{
    lemma_put_text(st.drop_last(), NodeView::El(st.last().kind, st.last().kids));
}

proof fn lemma_all_closed_text(st: Seq<FrameView>)
    requires
        st.len() >= 1,
    ensures
        stack_text(all_closed(st)) == stack_text(st),
        all_closed(st).len() == 1,
    decreases st.len(),
{
    if st.len() > 1 {
        lemma_closed_text(st);
        lemma_all_closed_text(closed(st));
    }
}

proof fn lemma_folded_text(steps: Seq<StepView>)
    ensures
        stack_text(folded(steps)) == steps_text(steps),
    decreases steps.len(),
{
    reveal_with_fuel(stack_text, 2);
    if steps.len() == 0 {
        let st = folded(steps);
        assert(st.drop_last() =~= Seq::empty());
        assert(stack_text(st) =~= Seq::empty());
    } else {
        let before = folded(steps.drop_last());
        lemma_folded(steps.drop_last());
        lemma_folded_text(steps.drop_last());
        match steps.last() {
            StepView::Open(o) => {
                let f = FrameView { kind: kind_of(o), kids: Seq::empty() };
                assert(before.push(f).drop_last() =~= before);
                assert(stack_text(before.push(f)) =~= stack_text(before));
                assert(steps_text(steps) =~= steps_text(steps.drop_last()));
            },
            StepView::Say(w) => {
                lemma_put_text(before, words_node(w));
            },
            StepView::Sign(Sign::Close) => {
                if before.len() > 1 {
                    lemma_closed_text(before);
                }
                assert(steps_text(steps) =~= steps_text(steps.drop_last()));
            },
            StepView::Sign(x) => {
                lemma_put_text(before, sign_node(x));
            },
        }
    }
}

/// The tree of a document holds its whole text, in order, whether or not every
/// element was closed.
pub proof fn text_is_kept(steps: Seq<StepView>)
    ensures
        nodes_text(tree(steps), tree(steps).len() as int) == steps_text(steps),
{
    reveal_with_fuel(stack_text, 2);
    let st = folded(steps);
    lemma_folded(steps);
    lemma_folded_text(steps);
    lemma_all_closed_text(st);
    let one = all_closed(st);
    assert(one.drop_last() =~= Seq::empty());
    assert(stack_text(one) =~= nodes_text(tree(steps), tree(steps).len() as int));
}

// ---------------------------------------------------------------------------
// Elements
// ---------------------------------------------------------------------------
/// What is drawn.
#[derive(Debug)]
pub enum Shown {
    Text(String),
    El { tag: &'static str, class: String, kids: Vec<Shown> },
}

#[verifier::ext_equal]
pub ghost enum ShownView {
    Text(Seq<char>),
    El { tag: Seq<char>, class: Seq<char>, kids: Seq<ShownView> },
}

impl Shown {
    pub open spec fn model(&self) -> ShownView
        decreases self,
    {
        match self {
            Shown::Text(s) => ShownView::Text(s@),
            Shown::El { tag, class, kids } => ShownView::El {
                tag: tag@,
                class: class@,
                kids: Seq::new(
                    kids@.len(),
                    |i: int|
                        if 0 <= i < kids@.len() {
                            kids@[i].model()
                        } else {
                            ShownView::Text(Seq::empty())
                        },
                ),
            },
        }
    }
}

impl View for Shown {
    type V = ShownView;

    open spec fn view(&self) -> ShownView {
        self.model()
    }
}

pub open spec fn shown_views(v: Seq<Shown>) -> Seq<ShownView> {
    Seq::new(v.len(), |i: int| v[i]@)
}

proof fn lemma_shown_view(tag: &'static str, class: String, kids: Vec<Shown>)
    ensures
        (Shown::El { tag, class, kids })@ == (ShownView::El {
            tag: tag@,
            class: class@,
            kids: shown_views(kids@),
        }),
{
    reveal_with_fuel(Shown::model, 2);
    let v = (Shown::El { tag, class, kids })@;
    assert(v->kids =~= shown_views(kids@));
}

pub open spec fn element(tag: Seq<char>, class: Seq<char>, kids: Seq<ShownView>) -> ShownView {
    ShownView::El { tag, class, kids }
}

pub(crate) fn make(tag: &'static str, class: &str, kids: Vec<Shown>) -> (r: Shown)
    ensures
        r@ == element(tag@, class@, shown_views(kids@)),
{
    let class = class.to_owned();
    proof {
        lemma_shown_view(tag, class, kids);
    }
    Shown::El { tag, class, kids }
}

/// The tag and the class of an element that is nothing but its children.
pub open spec fn dress(k: KindView) -> (Seq<char>, Seq<char>) {
    match k {
        KindView::Root | KindView::Span => ("span"@, ""@),
        KindView::P => ("p"@, ""@),
        KindView::H(n) => ("div"@, "h h"@ + text::decimal(n as nat)),
        KindView::Quote => ("div"@, "quote"@),
        KindView::Li => ("div"@, ""@),
        KindView::Em => ("em"@, ""@),
        KindView::Strong => ("strong"@, ""@),
        KindView::Del => ("span"@, "del"@),
        KindView::Link => ("span"@, "link"@),
        KindView::Table => ("div"@, "table"@),
        KindView::Row { head } => (
            "div"@,
            if head {
                "tr th"@
            } else {
                "tr"@
            },
        ),
        KindView::Cell => ("div"@, "td"@),
        KindView::Code(_) => ("div"@, "codeblock"@),
        KindView::Ul | KindView::Ol(_) => ("div"@, "list"@),
    }
}

fn dressed(k: &Kind) -> (r: (&'static str, String))
    ensures
        (r.0@, r.1@) == dress(k@),
{
    match k {
        Kind::Root => ("span", "".to_owned()),
        Kind::Span => ("span", "".to_owned()),
        Kind::P => ("p", "".to_owned()),
        Kind::H(n) => {
            let mut s = "h h".to_owned();
            s.push_str(text::decimal_string(*n as u64).as_str());
            ("div", s)
        },
        Kind::Quote => ("div", "quote".to_owned()),
        Kind::Li => ("div", "".to_owned()),
        Kind::Em => ("em", "".to_owned()),
        Kind::Strong => ("strong", "".to_owned()),
        Kind::Del => ("span", "del".to_owned()),
        Kind::Link => ("span", "link".to_owned()),
        Kind::Table => ("div", "table".to_owned()),
        Kind::Row { head } => ("div", if *head { "tr th".to_owned() } else { "tr".to_owned() }),
        Kind::Cell => ("div", "td".to_owned()),
        Kind::Code(_) => ("div", "codeblock".to_owned()),
        Kind::Ul => ("div", "list".to_owned()),
        Kind::Ol(_) => ("div", "list".to_owned()),
    }
}

/// The code in a block: its text, without the last line break.
pub open spec fn code_of(kids: Seq<NodeView>, n: int) -> Seq<char>
    decreases n,
{
    if n <= 0 {
        Seq::empty()
    } else {
        code_of(kids, n - 1) + match kids[n - 1] {
            NodeView::Text(s) => s,
            _ => Seq::empty(),
        }
    }
}

pub open spec fn code_text(kids: Seq<NodeView>) -> Seq<char> {
    let all = code_of(kids, kids.len() as int);
    match text::without_suffix(all, "\n"@) {
        Some(s) => s,
        None => all,
    }
}

fn code_string(kids: &Vec<Node>) -> (r: String)
    ensures
        r@ == code_text(node_views(kids@)),
{
    let ghost all = node_views(kids@);
    let n: usize = kids.len();
    let mut s = String::new();
    let mut i: usize = 0;
    assert(s@ =~= code_of(all, 0));
    while i < n
        invariant
            i <= n,
            n == kids@.len(),
            all == node_views(kids@),
            s@ == code_of(all, i as int),
        decreases n - i,
    {
        assert(all[i as int] == kids@[i as int]@);
        match &kids[i] {
            Node::Text(t) => s.push_str(t.as_str()),
            _ => {
                assert(s@ + Seq::<char>::empty() =~= s@);
            },
        }
        i = i + 1;
    }
    match text::strip_suffix(s.as_str(), "\n") {
        Some(t) => t,
        None => s,
    }
}

/// What stands before item `i` of a list.
pub open spec fn marker(k: KindView, i: int) -> Seq<char> {
    match k {
        KindView::Ol(start) => text::decimal(start.wrapping_add(i as u64) as nat) + "."@,
        _ => "\u{2022}"@,
    }
}

fn marker_string(k: &Kind, i: usize) -> (r: String)
    ensures
        r@ == marker(k@, i as int),
{
    match k {
        Kind::Ol(start) => {
            let mut s = text::decimal_string(start.wrapping_add(i as u64));
            s.push_str(".");
            s
        },
        _ => "\u{2022}".to_owned(),
    }
}

/// A node as it is drawn.
pub open spec fn rendered(n: NodeView) -> ShownView
    decreases n, 1int, 0int,
{
    match n {
        NodeView::Text(s) => ShownView::Text(s),
        NodeView::Code(s) => element("span"@, "icode"@, seq![ShownView::Text(s)]),
        NodeView::Break => element("br"@, ""@, Seq::empty()),
        NodeView::Rule => element("div"@, "hr"@, Seq::empty()),
        NodeView::El(k, kids) => element(dress(k).0, dress(k).1, inside(k, kids)),
    }
}

/// What an element holds.
pub open spec fn inside(k: KindView, kids: Seq<NodeView>) -> Seq<ShownView>
    decreases kids, kids.len() + 1, 1int,
{
    match k {
        KindView::Code(lang) => seq![
            element(
                "div"@,
                "codehead"@,
                seq![
                    ShownView::Text(
                        if lang.len() == 0 {
                            "code"@
                        } else {
                            lang
                        },
                    ),
                ],
            ),
            element("pre"@, ""@, seq![ShownView::Text(code_text(kids))]),
        ],
        KindView::Ul | KindView::Ol(_) => listed(k, kids, kids.len() as int),
        _ => all_rendered(kids, kids.len() as int),
    }
}

/// The first `n` nodes as they are drawn.
pub open spec fn all_rendered(v: Seq<NodeView>, n: int) -> Seq<ShownView>
    decreases v, n, 0int,
{
    if n <= 0 || n > v.len() {
        Seq::empty()
    } else {
        all_rendered(v, n - 1).push(rendered(v[n - 1]))
    }
}

/// The first `n` items of a list as they are drawn.
pub open spec fn listed(k: KindView, v: Seq<NodeView>, n: int) -> Seq<ShownView>
    decreases v, n, 0int,
{
    if n <= 0 || n > v.len() {
        Seq::empty()
    } else {
        listed(k, v, n - 1).push(
            item(
                marker(k, n - 1),
                match v[n - 1] {
                    NodeView::El(KindView::Li, c) => all_rendered(c, c.len() as int),
                    other => seq![rendered(other)],
                },
            ),
        )
    }
}

/// An item of a list.
pub open spec fn item(mark: Seq<char>, body: Seq<ShownView>) -> ShownView {
    element(
        "div"@,
        "li"@,
        seq![
            element("span"@, "marker"@, seq![ShownView::Text(mark)]),
            element("div"@, "libody"@, body),
        ],
    )
}

pub(crate) fn one(v: Shown) -> (r: Vec<Shown>)
    ensures
        shown_views(r@) == seq![v@],
{
    let ghost x = v@;
    let mut r: Vec<Shown> = Vec::new();
    r.push(v);
    assert(shown_views(r@) =~= seq![x]);
    r
}

fn two(a: Shown, b: Shown) -> (r: Vec<Shown>)
    ensures
        shown_views(r@) == seq![a@, b@],
{
    let ghost x = a@;
    let ghost y = b@;
    let mut r: Vec<Shown> = Vec::new();
    r.push(a);
    r.push(b);
    assert(shown_views(r@) =~= seq![x, y]);
    r
}

fn make_item(mark: String, body: Vec<Shown>) -> (r: Shown)
    ensures
        r@ == item(mark@, shown_views(body@)),
{
    let mark = make("span", "marker", one(Shown::Text(mark)));
    make("div", "li", two(mark, make("div", "libody", body)))
}

pub(crate) fn none() -> (r: Vec<Shown>)
    ensures
        shown_views(r@) == Seq::<ShownView>::empty(),
{
    let r: Vec<Shown> = Vec::new();
    assert(shown_views(r@) =~= Seq::empty());
    r
}

/// A node as it is drawn.
pub fn render(n: &Node) -> (r: Shown)
    ensures
        r@ == rendered(n@),
    decreases n, 1int,
{
    match n {
        Node::Text(s) => Shown::Text(s.as_str().to_owned()),
        Node::Code(s) => make("span", "icode", one(Shown::Text(s.as_str().to_owned()))),
        Node::Break => make("br", "", none()),
        Node::Rule => make("div", "hr", none()),
        Node::El(k, kids) => {
            proof {
                lemma_el_view(*k, *kids);
            }
            let (tag, class) = dressed(k);
            let inner = render_inside(k, kids);
            make(tag, class.as_str(), inner)
        },
    }
}

fn render_inside(k: &Kind, kids: &Vec<Node>) -> (r: Vec<Shown>)
    ensures
        shown_views(r@) == inside(k@, node_views(kids@)),
    decreases kids, 1int,
{
    match k {
        Kind::Code(lang) => {
            let label = if lang.as_str().is_empty() {
                "code".to_owned()
            } else {
                lang.as_str().to_owned()
            };
            let head = make("div", "codehead", one(Shown::Text(label)));
            let body = make("pre", "", one(Shown::Text(code_string(kids))));
            two(head, body)
        },
        Kind::Ul => render_items(k, kids),
        Kind::Ol(_) => render_items(k, kids),
        _ => render_all(kids),
    }
}

/// Nodes as they are drawn.
pub fn render_all(v: &Vec<Node>) -> (r: Vec<Shown>)
    ensures
        shown_views(r@) == all_rendered(node_views(v@), v@.len() as int),
    decreases v, 0int,
{
    let ghost all = node_views(v@);
    let n: usize = v.len();
    let mut r: Vec<Shown> = Vec::new();
    let mut i: usize = 0;
    assert(shown_views(r@) =~= all_rendered(all, 0));
    while i < n
        invariant
            i <= n,
            n == v@.len(),
            all == node_views(v@),
            shown_views(r@) == all_rendered(all, i as int),
        decreases n - i,
    {
        let ghost before = shown_views(r@);
        assert(all[i as int] == v@[i as int]@);
        let x = render(&v[i]);
        let ghost y = x@;
        r.push(x);
        i = i + 1;
        assert(shown_views(r@) =~= before.push(y));
    }
    r
}

fn render_items(k: &Kind, v: &Vec<Node>) -> (r: Vec<Shown>)
    ensures
        shown_views(r@) == listed(k@, node_views(v@), v@.len() as int),
    decreases v, 0int,
{
    let ghost all = node_views(v@);
    let n: usize = v.len();
    let mut r: Vec<Shown> = Vec::new();
    let mut i: usize = 0;
    assert(shown_views(r@) =~= listed(k@, all, 0));
    while i < n
        invariant
            i <= n,
            n == v@.len(),
            all == node_views(v@),
            shown_views(r@) == listed(k@, all, i as int),
        decreases n - i,
    {
        let ghost before = shown_views(r@);
        assert(all[i as int] == v@[i as int]@);
        let body = match &v[i] {
            Node::El(Kind::Li, c) => {
                proof {
                    lemma_el_view(Kind::Li, *c);
                }
                assert(all[i as int] == NodeView::El(KindView::Li, node_views(c@)));
                render_all(c)
            },
            other => {
                assert(!(all[i as int] matches NodeView::El(KindView::Li, _))) by {
                    match *other {
                        Node::El(a, b) => {
                            lemma_el_view(a, b);
                        },
                        _ => {},
                    }
                }
                one(render(other))
            },
        };
        assert(shown_views(body@) == match all[i as int] {
            NodeView::El(KindView::Li, c) => all_rendered(c, c.len() as int),
            x => seq![rendered(x)],
        });
        let x = make_item(marker_string(k, i), body);
        let ghost y = x@;
        r.push(x);
        i = i + 1;
        assert(shown_views(r@) =~= before.push(y));
    }
    r
}

/// A reply's Markdown as elements.
pub fn show(src: &str) -> (r: Shown)
    ensures
        r@ == element(
            "div"@,
            "md"@,
            all_rendered(tree(markdown(src@, EXTENSIONS)), tree(markdown(src@, EXTENSIONS)).len() as int),
        ),
{
    let nodes = parse(src);
    make("div", "md", render_all(&nodes))
}

} // verus!
