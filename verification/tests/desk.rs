use llmoxide::browser::{resident, Parsed, Reading, Session, FIRST_PREFIX};
use llmoxide::chat::Special;
use llmoxide::clip::Clip;
use llmoxide::engine::{Ask, ChatFormat, Engine, EngineError, Event, FinishReason, Phase, Told};
use llmoxide::header::Header;
use llmoxide::md::{parse, render, show, Kind, Node, Shown};
use llmoxide::repl::{banner, command, Command, Heard, Repl};
use llmoxide::talk::{to_message, Role, Turn};
use llmoxide::text::{
    cut_at, decimal_string, find_from, is_before, replace, split, strip_prefix, strip_suffix, trim,
};
use llmoxide::tokenizer::Tokenizer;
use llmoxide::window::{
    choose_model, describe, env_usize, token, Flow, Reply, Status, Window, DEFAULT_MODEL,
};

/// A GGUF file in the making.
#[derive(Default)]
struct Build {
    meta: Vec<u8>,
    n_meta: u64,
    infos: Vec<u8>,
    n_infos: u64,
    data: Vec<u8>,
}

#[allow(dead_code)]
impl Build {
    fn string(v: &mut Vec<u8>, s: &str) {
        v.extend_from_slice(&(s.len() as u64).to_le_bytes());
        v.extend_from_slice(s.as_bytes());
    }

    fn key(&mut self, key: &str, ty: u32) {
        self.n_meta += 1;
        Self::string(&mut self.meta, key);
        self.meta.extend_from_slice(&ty.to_le_bytes());
    }

    fn number(mut self, key: &str, v: u32) -> Self {
        self.key(key, 4);
        self.meta.extend_from_slice(&v.to_le_bytes());
        self
    }

    fn single(mut self, key: &str, v: f32) -> Self {
        self.key(key, 6);
        self.meta.extend_from_slice(&v.to_le_bytes());
        self
    }

    fn flag(mut self, key: &str, v: bool) -> Self {
        self.key(key, 7);
        self.meta.push(v as u8);
        self
    }

    fn text(mut self, key: &str, v: &str) -> Self {
        self.key(key, 8);
        Self::string(&mut self.meta, v);
        self
    }

    fn texts(mut self, key: &str, v: &[&str]) -> Self {
        self.key(key, 9);
        self.meta.extend_from_slice(&8u32.to_le_bytes());
        self.meta.extend_from_slice(&(v.len() as u64).to_le_bytes());
        for s in v {
            Self::string(&mut self.meta, s);
        }
        self
    }

    fn numbers(mut self, key: &str, v: &[u32]) -> Self {
        self.key(key, 9);
        self.meta.extend_from_slice(&4u32.to_le_bytes());
        self.meta.extend_from_slice(&(v.len() as u64).to_le_bytes());
        for n in v {
            self.meta.extend_from_slice(&n.to_le_bytes());
        }
        self
    }

    fn flags(mut self, key: &str, v: &[bool]) -> Self {
        self.key(key, 9);
        self.meta.extend_from_slice(&7u32.to_le_bytes());
        self.meta.extend_from_slice(&(v.len() as u64).to_le_bytes());
        for b in v {
            self.meta.push(*b as u8);
        }
        self
    }

    fn tensor(mut self, name: &str, dims: &[u64], ty: u32, data: &[u8]) -> Self {
        self.n_infos += 1;
        Self::string(&mut self.infos, name);
        self.infos.extend_from_slice(&(dims.len() as u32).to_le_bytes());
        for d in dims {
            self.infos.extend_from_slice(&d.to_le_bytes());
        }
        self.infos.extend_from_slice(&ty.to_le_bytes());
        self.infos.extend_from_slice(&(self.data.len() as u64).to_le_bytes());
        self.data.extend_from_slice(data);
        while self.data.len() % 32 != 0 {
            self.data.push(0);
        }
        self
    }

    fn finish(self) -> Vec<u8> {
        let mut v = b"GGUF".to_vec();
        v.extend_from_slice(&3u32.to_le_bytes());
        v.extend_from_slice(&self.n_infos.to_le_bytes());
        v.extend_from_slice(&self.n_meta.to_le_bytes());
        v.extend_from_slice(&self.meta);
        v.extend_from_slice(&self.infos);
        while v.len() % 32 != 0 {
            v.push(0);
        }
        v.extend_from_slice(&self.data);
        v
    }
}

const SPECIALS: [&str; 20] = [
    "<|turn>", "<turn|>", "<|channel>", "<channel|>", "<|think|>", "<|tool>", "<tool|>",
    "<|tool_call>", "<tool_call|>", "<|tool_response>", "<tool_response|>", "<|\"|>",
    "<|im_start|>", "<|im_end|>", "<think>", "</think>", "<tool_call>", "</tool_call>",
    "<tool_response>", "</tool_response>",
];

/// A vocabulary of characters, bytes and control tokens.
fn vocabulary() -> Tokenizer {
    let bytes: Vec<String> = (0..256).map(|b| format!("<0x{b:02X}>")).collect();
    let mut tokens: Vec<&str> = vec!["<pad>", "<eos>", "<bos>", "<unk>"];
    tokens.extend(SPECIALS);
    let mut kinds = vec![3u32; tokens.len()];
    let ascii: Vec<String> = (33..127u8).map(|b| (b as char).to_string()).collect();
    tokens.push("\u{2581}");
    tokens.extend(ascii.iter().map(|s| s.as_str()));
    kinds.extend(vec![1u32; 95]);
    for b in &bytes {
        tokens.push(b);
        kinds.push(6);
    }
    let file = Build::default()
        .text("tokenizer.ggml.model", "llama")
        .texts("tokenizer.ggml.tokens", &tokens)
        .numbers("tokenizer.ggml.token_type", &kinds)
        .finish();
    let h = Header::parse(&file).unwrap_or_else(|e| panic!("{e:?}"));
    match Tokenizer::from_gguf(&h) {
        Ok(t) => t,
        Err(e) => panic!("{e:?}"),
    }
}

#[allow(dead_code)]
/// What ids spell, control tokens included.
fn spell(t: &Tokenizer, ids: &[u32]) -> String {
    ids.iter()
        .map(|&id| match t.kind(id).is_control() {
            true => t.token_text(id).to_string(),
            false => t.decode(&[id]),
        })
        .collect()
}

#[allow(dead_code)]
/// The ids of a text in which control tokens are spelled out.
fn unspell(t: &Tokenizer, s: &str) -> Vec<u32> {
    let mut ids = Vec::new();
    let mut rest = s;
    'next: while !rest.is_empty() {
        for name in SPECIALS.iter().chain(&["<eos>"]) {
            if let Some(r) = rest.strip_prefix(name) {
                ids.push(t.id_of(name).unwrap());
                rest = r;
                continue 'next;
            }
        }
        let n = rest.chars().next().unwrap().len_utf8();
        ids.extend(t.encode(&rest[..n], false));
        rest = &rest[n..];
    }
    ids
}

#[test]
fn unterminated_fence_still_closes() {
    let nodes = parse("Here:\n\n```rust\nfn main() {");
    assert!(matches!(&nodes[1], Node::El(Kind::Code(l), _) if l == "rust"));
}

#[test]
fn ordered_list_keeps_its_start() {
    let nodes = parse("3. a\n4. b");
    assert!(matches!(&nodes[0], Node::El(Kind::Ol(3), items) if items.len() == 2));
}

/// The text of a drawing.
fn text_of(s: &Shown) -> String {
    match s {
        Shown::Text(t) => t.clone(),
        Shown::El { kids, .. } => kids.iter().map(text_of).collect(),
    }
}

fn markup(s: &Shown) -> String {
    match s {
        Shown::Text(t) => t.clone(),
        Shown::El { tag, class, kids } => {
            let inner: String = kids.iter().map(markup).collect();
            format!("<{tag} {class}>{inner}</{tag}>")
        }
    }
}

#[test]
fn markdown_is_drawn_as_elements() {
    let s = show("# T\n\na *b* **c** ~~d~~ `e`\n\n---");
    assert_eq!(
        markup(&s),
        "<div md><div h h1>T</div><p >a <em >b</em> <strong >c</strong> <span del>d</span> \
         <span icode>e</span></p><div hr></div></div>"
    );
    let s = show("```\nx\n```");
    assert_eq!(
        markup(&s),
        "<div md><div codeblock><div codehead>code</div><pre >x</pre></div></div>"
    );
    let s = show("2. a\n3. b");
    assert_eq!(
        markup(&s),
        "<div md><div list><div li><span marker>2.</span><div libody>a</div></div>\
         <div li><span marker>3.</span><div libody>b</div></div></div></div>"
    );
    let s = show("| a | b |\n|---|---|\n| 1 | 2 |");
    assert_eq!(
        markup(&s),
        "<div md><div table><div tr th><div td>a</div><div td>b</div></div>\
         <div tr><div td>1</div><div td>2</div></div></div></div>"
    );
    let s = show("- [x] done\n- [ ] open\n\n> q\n\n[l](http://x)");
    let m = markup(&s);
    assert!(m.contains("\u{2611} done") && m.contains("\u{2610} open"), "{m}");
    assert!(m.contains("<div quote><p >q</p></div>") && m.contains("<span link>l</span>"), "{m}");
}

#[test]
fn raw_markup_is_shown_as_text() {
    let s = show("a <b>c</b> <script>x</script>");
    assert_eq!(text_of(&s), "a <b>c</b> <script>x</script>");
    assert!(!markup(&s).contains("<b >"));
    assert!(matches!(render(&Node::Break), Shown::El { tag: "br", .. }));
}

fn ready() -> Window {
    let mut w = Window::new();
    w.pick("m.gguf".into());
    w.finish_load(Some(Ok("m".into())));
    w
}

#[test]
fn nothing_is_sent_without_a_model_or_a_text() {
    let mut w = Window::new();
    w.type_in("hi".into());
    assert!(w.send().is_none());
    let mut w = ready();
    w.type_in("  \n".into());
    assert!(w.send().is_none());
    w.type_in("hi".into());
    assert!(w.key(true, true).is_none() && w.key(false, false).is_none());
    assert!(w.key(true, false).is_some());
    w.type_in("again".into());
    assert!(w.send().is_none(), "a reply is still coming in");
}

#[test]
fn a_turn_is_streamed_and_replaced_by_the_finished_text() {
    let mut w = ready();
    w.type_in(" hi \n".into());
    let req = w.press_send().unwrap();
    assert_eq!((req.messages.len(), req.max_tokens), (1, 2048));
    assert_eq!(req.messages[0].text(), "hi");
    assert_eq!((w.draft.as_str(), w.focus), ("", 1));
    w.hear(Reply::Token("a".into()));
    w.hear(Reply::Token("b".into()));
    assert_eq!(w.turns[1].text, "ab");
    w.hear(Reply::Done("AB".into()));
    assert_eq!(w.turns[1].text, "AB");
    assert!(!w.running);
    w.type_in("more".into());
    assert_eq!(w.send().unwrap().messages.len(), 3);
}

#[test]
fn a_failed_turn_hands_the_question_back() {
    let mut w = ready();
    w.type_in(" hi ".into());
    w.send();
    w.hear(Reply::Token("half".into()));
    w.hear(Reply::Error("gone".into()));
    assert!(w.turns.is_empty() && !w.running);
    assert_eq!((w.draft.as_str(), w.error.as_deref()), ("hi", Some("gone")));
    assert!(markup(&w.log()).contains("<div error>error: gone</div>"));
}

#[test]
fn stopping_keeps_what_was_said_and_hears_no_more() {
    let mut w = ready();
    w.type_in("hi".into());
    w.send();
    assert!(markup(&w.log()).contains("<div msg assistant>\u{2026}</div>"));
    w.hear(Reply::Token("half".into()));
    w.stop();
    w.hear(Reply::Token("more".into()));
    assert_eq!(w.turns[1].text, "half");
    w.wipe();
    assert!(w.turns.is_empty() && w.draft.is_empty() && w.error.is_none());
    assert!(matches!(w.status, Status::Ready(_)));
}

#[test]
fn the_status_line_follows_the_model() {
    let mut w = Window::new();
    assert_eq!(w.status_line(), ("status", "no model loaded".into()));
    assert!(w.no_model() && w.can_pick());
    assert!(text_of(&w.log()).starts_with("Choose a model"));
    w.pick("m.gguf".into());
    assert_eq!(w.status_line(), ("status", "loading m.gguf\u{2026}".into()));
    assert!(!w.can_pick());
    w.finish_load(Some(Err("no".into())));
    assert_eq!(w.status_line(), ("status err", "failed to load: no".into()));
    w.finish_load(None);
    assert!(w.status_line().1.ends_with("engine thread died while loading"));
    w.finish_load(Some(Ok("m \u{b7} CPU".into())));
    assert_eq!(w.status_line(), ("status", "m \u{b7} CPU".into()));
    w.refocus();
    assert_eq!(w.focus, 1);
    assert_eq!(describe("m", None, 16), "m \u{b7} CPU \u{b7} ctx 16");
    assert_eq!(describe("m", Some("M1"), 16), "m \u{b7} M1 \u{b7} ctx 16");
}

#[test]
fn tokens_flow_until_the_window_closes() {
    assert_eq!(token(true, "x"), Flow::Stop);
    assert_eq!(token(false, ""), Flow::Continue);
    assert_eq!(token(false, "x"), Flow::Send);
    assert_eq!(choose_model(Some("a".into()), Some("b".into()), true).as_deref(), Some("a"));
    assert_eq!(choose_model(None, Some("b".into()), true).as_deref(), Some("b"));
    assert_eq!(choose_model(None, None, true).as_deref(), Some(DEFAULT_MODEL));
    assert_eq!(choose_model(None, None, false), None);
    assert_eq!((env_usize(Some("12"), 3), env_usize(Some("x"), 3), env_usize(None, 3)), (12, 3, 3));
}

#[test]
fn lines_are_commands_or_questions() {
    assert!(matches!(command(" \n"), Command::Nothing));
    assert!(matches!(command("/quit\n"), Command::Quit));
    assert!(matches!(command("/exit"), Command::Quit));
    assert!(matches!(command("/help"), Command::Help));
    assert!(matches!(command("/wipe"), Command::Wipe));
    assert!(matches!(command("/new"), Command::New));
    assert!(matches!(command(" hi there\n"), Command::Say(s) if s == "hi there"));
    assert!(banner(4096).contains("context 4096; heap zeroed"));
}

#[test]
fn the_prompt_keeps_answers_and_drops_failures() {
    let mut r = Repl::new();
    let req = r.say("hi".into());
    assert_eq!(req.messages[0].role, "user");
    let mut out = String::new();
    assert!(matches!(Repl::hear(&mut out, Event::Prefill { tokens: 1, cached: 0 }), Heard::More));
    assert!(matches!(Repl::hear(&mut out, Event::Token { id: 1, text: "yo".into() }), Heard::More));
    assert_eq!(out, "yo");
    let done = Event::Done {
        completion: llmoxide::chat::Completion {
            content: "Yo.".into(),
            reasoning: String::new(),
            tool_calls: vec![],
        },
        generated: 1,
        reason: FinishReason::Stop,
    };
    assert!(matches!(Repl::hear(&mut out, done), Heard::Over));
    assert_eq!(out, "Yo.");
    r.answered(out);
    assert_eq!(r.say("more".into()).messages.len(), 3);
    let mut out = String::new();
    assert!(matches!(Repl::hear(&mut out, Event::Error("e".into())), Heard::Failed(e) if e == "e"));
    r.failed();
    assert_eq!(r.history.len(), 2);
    r.clear();
    assert!(r.history.is_empty());
    let m = to_message(&Turn { role: Role::Assistant, text: "t".into() });
    assert_eq!((m.role.as_str(), m.text()), ("assistant", "t".into()));
}

#[test]
fn only_an_own_copy_is_taken_off_the_clipboard() {
    let mut c = Clip::new();
    assert!(!c.forget(Some("x")));
    c.copy("x", true);
    assert!(c.forget(Some("x")));
    c.copy("x", true);
    assert!(!c.forget(Some("y")));
    c.copy("x", false);
    assert!(!c.forget(Some("")));
    c.copy("x", true);
    assert!(!c.forget(None));
    // A copy that failed leaves the one before it to be taken back.
    c.copy("x", true);
    c.copy("y", false);
    assert!(c.forget(Some("x")));
}

#[test]
fn a_header_is_read_from_a_growing_prefix() {
    let file = Build::default()
        .text("pad", &"x".repeat(17 << 20))
        .tensor("t", &[4], 0, &[0u8; 16])
        .finish();
    let mut r = Reading::new(file.len() as u64);
    assert_eq!(r.len(), FIRST_PREFIX);
    assert!(matches!(r.read(&file[..r.len() as usize]), Ok(Parsed::More)));
    assert_eq!(r.len(), file.len() as u64);
    let h = match r.read(&file) {
        Ok(Parsed::Header(h)) => h,
        _ => panic!("not read"),
    };
    assert_eq!(h.tensors.len(), 1);
    let mut r = Reading::new(30);
    assert!(r.read(&file[..30]).is_err());
}

#[test]
fn only_small_tensors_are_kept() {
    let file = Build::default()
        .tensor("a", &[4], 0, &[0u8; 16])
        .tensor("b", &[256], 12, &[0u8; 144])
        .tensor("c", &[4], 30, &[0u8; 8])
        .tensor("d", &[4], 1, &[0u8; 8])
        .finish();
    let h = Header::parse(&file).unwrap_or_else(|e| panic!("{e:?}"));
    assert!(h.check_bounds(file.len() as u64).is_ok());
    assert_eq!(resident(&h, file.len() as u64).unwrap(), [0, 3]);
    let file = Build::default().tensor("a", &[1 << 28], 0, &[0u8; 16]).finish();
    let h = Header::parse(&file).unwrap_or_else(|e| panic!("{e:?}"));
    assert!(h.check_bounds(1 << 40).is_ok());
    assert_eq!(resident(&h, 1 << 40), Err(1 << 30));
}

fn session(context: usize) -> Session {
    let tok = vocabulary();
    let sp = Special::new(&tok).unwrap();
    let end = tok.id_of("<turn|>").unwrap();
    let engine = Engine::new(tok, ChatFormat::Gemma4(sp), context, 16, vec![end]);
    Session::new(engine, Default::default())
}

#[test]
fn a_session_answers_stops_and_forgets() {
    let mut s = session(4096);
    let (mut run, mut next) = s.begin("Hi".into(), 100).unwrap_or_else(|e| panic!("{e:?}"));
    let mut ids = s.engine.tok.encode("Yo!", false);
    ids.reverse();
    // The page asks to stop after two tokens.
    let mut left = 2;
    loop {
        let told = match next {
            Ask::Sample if left == 0 => break,
            Ask::Sample => {
                left -= 1;
                Told::Sampled(ids.pop().unwrap())
            }
            Ask::Send(Event::Token { .. }) => Told::Sent(true),
            Ask::Finish(_) | Ask::Quit => panic!("over"),
            _ => Told::Ready,
        };
        next = s.engine.tell(&mut run, told);
    }
    assert_eq!(
        s.info("A", "m", "4.60"),
        "A \u{b7} m \u{b7} 4.60 GB of weights resident \u{b7} context 4096"
    );
    assert!(run.text.bytes.cells.starts_with(b"Yo"));
    assert_eq!(s.finish(&mut run), "Yo");
    assert!(!run.text.bytes.cells.is_empty());
    assert!(run.text.bytes.cells.iter().all(|b| *b == 0));
    assert_eq!(s.turns(), 2);
    assert!(s.begin("More".into(), 100).is_ok());
    assert_eq!(s.turns(), 3);
    s.fail();
    assert_eq!(s.turns(), 2);
    s.wipe();
    assert_eq!(s.turns(), 0);
    assert!(s.engine.cached.is_empty());
    assert!(!s.engine.cached.cells.is_empty());
    assert!(s.engine.cached.cells.iter().all(|id| *id == 0));
    let mut s = session(32);
    let long = "a question that is too long for this context".to_string();
    assert!(matches!(s.begin(long, 1), Err(EngineError::PromptTooLong { context: 32, .. })));
    assert_eq!(s.turns(), 0);
}

#[test]
fn a_reply_does_not_outlive_its_run() {
    // One run reaches its limit, one loses its listener, one is ended from outside.
    for way in 0..3 {
        let mut s = session(4096);
        let (mut run, mut next) = s.begin("Hi".into(), 2).unwrap_or_else(|e| panic!("{e:?}"));
        let mut ids = s.engine.tok.encode("Yo!", false);
        ids.reverse();
        let mut said = false;
        loop {
            let told = match next {
                Ask::Sample => Told::Sampled(ids.pop().unwrap()),
                Ask::Send(Event::Token { .. }) => {
                    said = run.text.bytes.cells.iter().any(|b| *b != 0);
                    if way == 2 {
                        run.end();
                        break;
                    }
                    Told::Sent(way == 0)
                }
                Ask::Finish(_) | Ask::Quit => break,
                _ => Told::Ready,
            };
            next = s.engine.tell(&mut run, told);
        }
        assert!(said && run.phase == Phase::Over);
        assert!(!run.text.bytes.cells.is_empty());
        assert!(run.text.bytes.cells.iter().all(|b| *b == 0));
    }
}

#[test]
fn texts_are_cut_and_compared_by_character() {
    assert_eq!(trim(" \u{3000}a b\n"), "a b");
    assert_eq!(split("a,,b", ","), ["a", "", "b"]);
    assert_eq!(replace("aaa", "aa", "b"), "ba");
    assert_eq!(cut_at("ab|c|d", "|"), "ab");
    assert_eq!(strip_prefix("\u{e9}a", "\u{e9}").as_deref(), Some("a"));
    assert_eq!(strip_suffix("a.gguf", ".gguf").as_deref(), Some("a"));
    assert_eq!(strip_suffix("a", ".gguf"), None);
    assert_eq!(decimal_string(u64::MAX), "18446744073709551615");
    let hay: Vec<char> = "h\u{e9}llo".chars().collect();
    assert_eq!(find_from(&hay, 0, "llo"), Some(2));
    assert!(is_before("a", "b") && is_before("a", "aa") && !is_before("b", "a"));
}

#[test]
fn a_conversation_survives_a_switch_but_not_a_wipe() {
    let mut w = ready();
    w.type_in("hi".into());
    w.send();
    w.hear(Reply::Done("hello".into()));
    w.pick("other.gguf".into());
    w.finish_load(Some(Ok("other".into())));
    assert_eq!(w.turns.len(), 2);
    w.type_in("again".into());
    let req = w.send().unwrap();
    assert_eq!(req.messages.len(), 3);
    assert_eq!(req.messages[1].text(), "hello");
    w.wipe();
    assert_eq!(markup(&w.log()), markup(&ready().log()));
    assert!(w.send().is_none());
}
