use llmoxide::chat::call::ToolCall;
use llmoxide::chat::{Completion, FunctionDef, Message, Special, Tool};
use llmoxide::engine::{
    reusable_prefix, unwrap_calls, Ask, ChatFormat, Engine, EngineError, Event, FinishReason,
    GenerateRequest, Told,
};
use llmoxide::gguf::FloatBits;
use llmoxide::header::Header;
use llmoxide::json::{parse, print, Json};
use llmoxide::sample::Sampling;
use llmoxide::server::{
    api_tool_calls, build_job, list_models, opening_frame, stream_frames, unmatched, wiped,
    ApiError, ChatRequest, Collected, StopField,
};
use llmoxide::tokenizer::Tokenizer;

/// A GGUF file in the making.
#[derive(Default)]
struct Build {
    meta: Vec<u8>,
    n_meta: u64,
    infos: Vec<u8>,
    n_infos: u64,
    data: Vec<u8>,
}

#[allow(dead_code)]
impl Build {
    fn string(v: &mut Vec<u8>, s: &str) {
        v.extend_from_slice(&(s.len() as u64).to_le_bytes());
        v.extend_from_slice(s.as_bytes());
    }

    fn key(&mut self, key: &str, ty: u32) {
        self.n_meta += 1;
        Self::string(&mut self.meta, key);
        self.meta.extend_from_slice(&ty.to_le_bytes());
    }

    fn number(mut self, key: &str, v: u32) -> Self {
        self.key(key, 4);
        self.meta.extend_from_slice(&v.to_le_bytes());
        self
    }

    fn single(mut self, key: &str, v: f32) -> Self {
        self.key(key, 6);
        self.meta.extend_from_slice(&v.to_le_bytes());
        self
    }

    fn flag(mut self, key: &str, v: bool) -> Self {
        self.key(key, 7);
        self.meta.push(v as u8);
        self
    }

    fn text(mut self, key: &str, v: &str) -> Self {
        self.key(key, 8);
        Self::string(&mut self.meta, v);
        self
    }

    fn texts(mut self, key: &str, v: &[&str]) -> Self {
        self.key(key, 9);
        self.meta.extend_from_slice(&8u32.to_le_bytes());
        self.meta.extend_from_slice(&(v.len() as u64).to_le_bytes());
        for s in v {
            Self::string(&mut self.meta, s);
        }
        self
    }

    fn numbers(mut self, key: &str, v: &[u32]) -> Self {
        self.key(key, 9);
        self.meta.extend_from_slice(&4u32.to_le_bytes());
        self.meta.extend_from_slice(&(v.len() as u64).to_le_bytes());
        for n in v {
            self.meta.extend_from_slice(&n.to_le_bytes());
        }
        self
    }

    fn flags(mut self, key: &str, v: &[bool]) -> Self {
        self.key(key, 9);
        self.meta.extend_from_slice(&7u32.to_le_bytes());
        self.meta.extend_from_slice(&(v.len() as u64).to_le_bytes());
        for b in v {
            self.meta.push(*b as u8);
        }
        self
    }

    fn tensor(mut self, name: &str, dims: &[u64], ty: u32, data: &[u8]) -> Self {
        self.n_infos += 1;
        Self::string(&mut self.infos, name);
        self.infos.extend_from_slice(&(dims.len() as u32).to_le_bytes());
        for d in dims {
            self.infos.extend_from_slice(&d.to_le_bytes());
        }
        self.infos.extend_from_slice(&ty.to_le_bytes());
        self.infos.extend_from_slice(&(self.data.len() as u64).to_le_bytes());
        self.data.extend_from_slice(data);
        while self.data.len() % 32 != 0 {
            self.data.push(0);
        }
        self
    }

    fn finish(self) -> Vec<u8> {
        let mut v = b"GGUF".to_vec();
        v.extend_from_slice(&3u32.to_le_bytes());
        v.extend_from_slice(&self.n_infos.to_le_bytes());
        v.extend_from_slice(&self.n_meta.to_le_bytes());
        v.extend_from_slice(&self.meta);
        v.extend_from_slice(&self.infos);
        while v.len() % 32 != 0 {
            v.push(0);
        }
        v.extend_from_slice(&self.data);
        v
    }
}

const SPECIALS: [&str; 20] = [
    "<|turn>", "<turn|>", "<|channel>", "<channel|>", "<|think|>", "<|tool>", "<tool|>",
    "<|tool_call>", "<tool_call|>", "<|tool_response>", "<tool_response|>", "<|\"|>",
    "<|im_start|>", "<|im_end|>", "<think>", "</think>", "<tool_call>", "</tool_call>",
    "<tool_response>", "</tool_response>",
];

/// A vocabulary of characters, bytes and control tokens.
fn vocabulary() -> Tokenizer {
    let bytes: Vec<String> = (0..256).map(|b| format!("<0x{b:02X}>")).collect();
    let mut tokens: Vec<&str> = vec!["<pad>", "<eos>", "<bos>", "<unk>"];
    tokens.extend(SPECIALS);
    let mut kinds = vec![3u32; tokens.len()];
    let ascii: Vec<String> = (33..127u8).map(|b| (b as char).to_string()).collect();
    tokens.push("\u{2581}");
    tokens.extend(ascii.iter().map(|s| s.as_str()));
    kinds.extend(vec![1u32; 95]);
    for b in &bytes {
        tokens.push(b);
        kinds.push(6);
    }
    let file = Build::default()
        .text("tokenizer.ggml.model", "llama")
        .texts("tokenizer.ggml.tokens", &tokens)
        .numbers("tokenizer.ggml.token_type", &kinds)
        .finish();
    let h = Header::parse(&file).unwrap_or_else(|e| panic!("{e:?}"));
    match Tokenizer::from_gguf(&h) {
        Ok(t) => t,
        Err(e) => panic!("{e:?}"),
    }
}

/// What ids spell, control tokens included.
fn spell(t: &Tokenizer, ids: &[u32]) -> String {
    ids.iter()
        .map(|&id| match t.kind(id).is_control() {
            true => t.token_text(id).to_string(),
            false => t.decode(&[id]),
        })
        .collect()
}

/// The ids of a text in which control tokens are spelled out.
fn unspell(t: &Tokenizer, s: &str) -> Vec<u32> {
    let mut ids = Vec::new();
    let mut rest = s;
    'next: while !rest.is_empty() {
        for name in SPECIALS.iter().chain(&["<eos>"]) {
            if let Some(r) = rest.strip_prefix(name) {
                ids.push(t.id_of(name).unwrap());
                rest = r;
                continue 'next;
            }
        }
        let n = rest.chars().next().unwrap().len_utf8();
        ids.extend(t.encode(&rest[..n], false));
        rest = &rest[n..];
    }
    ids
}

fn message(role: &str, text: &str) -> Message {
    Message {
        role: role.into(),
        content: Some(Json::Text(text.into())),
        tool_calls: vec![],
        tool_call_id: None,
        name: None,
        reasoning: None,
    }
}

fn tool(name: &str) -> Tool {
    Tool {
        kind: "function".into(),
        function: FunctionDef {
            name: name.into(),
            description: "Say it".into(),
            parameters: json(r#"{"type":"object","properties":{}}"#),
        },
    }
}

fn json(s: &str) -> Json {
    parse(s).unwrap()
}

#[test]
fn stop_accepts_string_or_array() {
    let one = StopField::One("END".into());
    assert_eq!(one.into_vec(), vec!["END".to_string()]);
    let many = StopField::Many(vec!["a".into(), "b".into()]);
    assert_eq!(many.into_vec(), vec!["a".to_string(), "b".to_string()]);
    let none = StopField::Absent;
    assert!(none.into_vec().is_empty());
}

#[test]
fn tool_calls_get_distinct_ids_and_json_arguments() {
    let calls = api_tool_calls(&[
        ToolCall {
            name: "a".into(),
            arguments: json(r#"{"x": 1}"#),
        },
        ToolCall {
            name: "b".into(),
            arguments: json("{}"),
        },
    ]);
    assert_eq!(calls[0].id, "call_0");
    assert_eq!(calls[1].id, "call_1");
    // Clients parse `arguments` as a JSON string, not an object.
    assert_eq!(calls[0].function.arguments, r#"{"x":1}"#);
}

fn request() -> ChatRequest {
    ChatRequest {
        model: "m".into(),
        messages: vec![message("user", "hi")],
        tools: vec![],
        stream: true,
        temperature: None,
        top_p: None,
        top_k: None,
        seed: None,
        max_tokens: None,
        stop: StopField::Absent,
        enable_thinking: None,
    }
}

#[test]
fn what_a_client_leaves_open_is_filled_in() {
    let d = Sampling { top_k: 7, ..Default::default() };
    let (job, stream) = build_job(&d, request());
    assert!(stream && !job.enable_thinking);
    assert_eq!((job.max_tokens, job.sampling.top_k), (2048, 7));
    let mut r = request();
    r.temperature = Some(FloatBits::Single(0));
    r.top_k = Some(3);
    r.seed = Some(9);
    r.max_tokens = Some(5);
    r.stop = StopField::One("x".into());
    let (job, _) = build_job(&d, r);
    assert_eq!((job.sampling.top_k, job.sampling.seed, job.max_tokens), (3, 9, 5));
    assert!(job.sampling.is_greedy());
    assert_eq!(job.stop, ["x"]);
}

fn completion(content: &str) -> Completion {
    Completion { content: content.into(), reasoning: String::new(), tool_calls: vec![] }
}

#[test]
fn events_are_collected_into_a_reply() {
    let mut c = Collected::new();
    assert!(!c.take(Event::Prefill { tokens: 10, cached: 4 }));
    assert!(!c.take(Event::Token { id: 1, text: "a".into() }));
    assert!(c.take(Event::Done {
        completion: completion("answer"),
        generated: 3,
        reason: FinishReason::Stop,
    }));
    let v = c.reply("m").unwrap();
    let s = print(&v);
    assert!(s.contains(r#""content":"answer""#), "{s}");
    assert!(s.contains(r#""finish_reason":"stop""#), "{s}");
    assert!(s.contains(r#""total_tokens":13"#), "{s}");
    let mut c = Collected::new();
    assert!(c.take(Event::Error("broken".into())));
    assert_eq!(c.reply("m").unwrap_err().client, "broken");
    assert!(Collected::new().reply("m").is_err());
}

#[test]
fn a_stream_is_a_frame_per_event() {
    let s = print(&opening_frame("m"));
    assert!(s.contains(r#""delta":{"role":"assistant"}"#), "{s}");
    let (f, over) = stream_frames("m", &Event::Token { id: 1, text: "hey".into() });
    assert!(!over && f.len() == 1);
    assert!(print(&f[0]).contains(r#""content":"hey""#));
    let (f, over) = stream_frames("m", &Event::Token { id: 1, text: "".into() });
    assert!(!over && f.is_empty());
    let done = Event::Done { completion: completion("x"), generated: 1, reason: FinishReason::Length };
    let (f, over) = stream_frames("m", &done);
    assert!(over);
    assert!(print(f.last().unwrap()).contains(r#""finish_reason":"length""#));
}

#[test]
fn small_answers_have_their_shape() {
    assert_eq!(print(&wiped(true)), r#"{"wiped":true}"#);
    let s = print(&list_models("m", 4096));
    assert!(s.contains(r#""id":"m""#) && s.contains("4096"), "{s}");
    assert!(print(&unmatched("GET", "/x")).contains("no route for GET /x"));
    let e = ApiError::split("shown".into(), "logged".into());
    assert_eq!(print(&e.body()), r#"{"error":{"message":"shown","type":"server_error"}}"#);
    assert_eq!(ApiError::new("both".into()).log, "both");
    assert_eq!(FinishReason::ToolCalls.as_str(), "tool_calls");
}

#[test]
fn only_a_whole_cache_is_reused() {
    assert_eq!(reusable_prefix(&[1, 2], &[1, 2, 3]), 2);
    assert_eq!(reusable_prefix(&[1, 2], &[1, 2]), 0);
    assert_eq!(reusable_prefix(&[1, 9], &[1, 2, 3]), 0);
    assert_eq!(reusable_prefix(&[], &[1]), 0);
}

#[test]
fn bare_calls_of_declared_tools_are_promoted() {
    let c = unwrap_calls(completion("Sure. call:f{a:1}"), &vec![tool("f")]);
    assert_eq!(c.tool_calls.len(), 1);
    assert_eq!(c.content, "Sure.");
    let c = unwrap_calls(completion("Sure. call:g{a:1}"), &vec![tool("f")]);
    assert!(c.tool_calls.is_empty());
}

fn engine(context: usize) -> Engine {
    let tok = vocabulary();
    let sp = Special::new(&tok).unwrap();
    let end = tok.id_of("<turn|>").unwrap();
    Engine::new(tok, ChatFormat::Gemma4(sp), context, 16, vec![end, 1])
}

fn ask(text: &str, max_tokens: usize) -> GenerateRequest {
    GenerateRequest {
        messages: vec![message("user", text)],
        tools: vec![],
        sampling: Default::default(),
        max_tokens,
        enable_thinking: false,
        stop: vec![],
    }
}

/// Run a request, sampling the given ids. What the backend was given, the text that
/// was sent and how it ended.
fn drive(e: &mut Engine, req: GenerateRequest, mut ids: Vec<u32>) -> (Vec<Vec<u32>>, String, Event) {
    ids.reverse();
    let (mut run, mut next) = e.start(req).unwrap_or_else(|e| panic!("{e:?}"));
    let (mut given, mut text) = (Vec::new(), String::new());
    loop {
        let told = match next {
            Ask::Reset => {
                given.clear();
                Told::Ready
            }
            Ask::Send(Event::Prefill { .. }) => Told::Ready,
            Ask::Send(Event::Token { text: t, .. }) => {
                text.push_str(&t);
                Told::Sent(true)
            }
            Ask::Send(_) => panic!("not while running"),
            Ask::Forward(v) => {
                given.push(v);
                Told::Ready
            }
            Ask::Sample => Told::Sampled(ids.pop().unwrap()),
            Ask::Finish(ev) => return (given, text, ev),
            Ask::Quit => panic!("nobody left"),
        };
        next = e.tell(&mut run, told);
    }
}

#[test]
fn a_run_prefills_in_chunks_and_streams() {
    let mut e = engine(4096);
    let mut ids = e.tok.encode("Yo", false);
    ids.push(e.eog[0]);
    let (given, text, ev) = drive(&mut e, ask("Hi", 100), ids);
    assert_eq!(text, "Yo");
    assert!(given.iter().all(|v| v.len() <= 16));
    match ev {
        Event::Done { completion, generated, reason } => {
            assert_eq!((completion.content.as_str(), generated), ("Yo", 3));
            assert_eq!(reason, FinishReason::Stop);
        }
        _ => panic!("not done"),
    }
    // What is cached is what the backend was given.
    assert_eq!(e.cached.as_slice(), given.concat());
    e.wipe();
    assert!(e.cached.is_empty() && e.cached.cells.iter().all(|w| *w == 0));
}

#[test]
fn a_second_turn_only_prefills_what_is_new() {
    let mut e = engine(4096);
    let close = e.eog[0];
    let mut ids = e.tok.encode("Yo", false);
    ids.push(close);
    drive(&mut e, ask("Hi", 100), ids);
    let before = e.cached.len();
    let mut again = ask("Hi", 100);
    let mut next = e.cached.as_slice().to_vec();
    next.push(0);
    assert_eq!(reusable_prefix(e.cached.as_slice(), &next), before);
    again.messages[0] = message("user", "Other");
    let (given, _, _) = drive(&mut e, again, vec![close]);
    // Another conversation starts over.
    assert_eq!(e.cached.as_slice(), given.concat());
}

#[test]
fn length_and_stop_strings_end_a_run() {
    let mut e = engine(4096);
    let ids = e.tok.encode("abcdef", false);
    let (_, text, ev) = drive(&mut e, ask("Hi", 3), ids.clone());
    assert_eq!(text, "abc");
    assert!(matches!(ev, Event::Done { reason: FinishReason::Length, generated: 3, .. }));
    let mut req = ask("Hi", 100);
    req.stop = vec!["cd".into()];
    let (_, text, ev) = drive(&mut e, req, ids);
    assert_eq!(text, "abcd");
    assert!(matches!(ev, Event::Done { reason: FinishReason::Stop, generated: 4, .. }));
}

#[test]
fn a_prompt_past_the_context_is_refused() {
    let mut e = engine(32);
    match e.start(ask("a rather long question, as questions go", 10)) {
        Err(EngineError::PromptTooLong { tokens, context }) => {
            assert!(tokens + 8 >= 32);
            assert_eq!(context, 32);
        }
        Ok(_) => panic!("accepted"),
    }
    assert!(e.cached.is_empty());
}

#[test]
fn a_client_that_hangs_up_ends_the_run() {
    let mut e = engine(4096);
    let (mut run, mut next) = e.start(ask("Hi", 10)).unwrap_or_else(|e| panic!("{e:?}"));
    loop {
        let told = match next {
            Ask::Sample => Told::Sampled(100),
            Ask::Send(Event::Token { .. }) => Told::Sent(false),
            Ask::Quit => return,
            Ask::Finish(_) => panic!("finished"),
            _ => Told::Ready,
        };
        next = e.tell(&mut run, told);
    }
}
