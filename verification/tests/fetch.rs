use llmoxide::hub::args::{flag, Options};
use llmoxide::hub::fetch::{find_twin, range_header, Ask, Entry, Fetch, FetchError, Told};
use llmoxide::hub::progress::{bar_width, clock, term_width, unit, Frame, Progress, SECOND};
use llmoxide::hub::{alias, aliases, hex, parse_u64, probe, resolve_url, HeadReply, Hasher, HubError, Remote};

#[test]
fn names_resolve_to_urls() {
    assert!(resolve_url("gemma4").unwrap().starts_with("https://huggingface.co/"));
    assert!(resolve_url("gemma4").unwrap().ends_with(".gguf"));
    assert_eq!(resolve_url("https://x.org/a.gguf").unwrap(), "https://x.org/a.gguf");
    assert_eq!(
        resolve_url("hf:me/model/a.gguf").unwrap(),
        "https://huggingface.co/me/model/resolve/main/a.gguf"
    );
    assert!(matches!(resolve_url("hf:nothing"), Err(HubError::BadShorthand(_))));
    assert!(matches!(resolve_url("nonsense"), Err(HubError::Unknown(n)) if n == "nonsense"));
}

#[test]
fn pages_of_the_website_resolve_to_files() {
    let file = "https://huggingface.co/me/model/resolve/main/a.gguf";
    for page in ["blob", "blame", "resolve"] {
        let url = format!("https://huggingface.co/me/model/{page}/main/a.gguf");
        assert_eq!(resolve_url(&url).unwrap(), file);
    }
    // Every page segment is rewritten, and only whole segments.
    assert_eq!(
        resolve_url("https://x.org/blob/a/blob/b/blame/blobs/a.gguf").unwrap(),
        "https://x.org/resolve/a/resolve/b/resolve/blobs/a.gguf"
    );
    assert!(matches!(resolve_url("http://x.org/blob/a.gguf"), Err(HubError::Unknown(_))));
}

fn reply(status: u16) -> HeadReply {
    HeadReply {
        status,
        linked_size: Some("1000".into()),
        content_length: Some("5".into()),
        linked_etag: Some(format!("\"{}\"", "ab".repeat(32))),
        etag: None,
    }
}

#[test]
fn a_probe_reads_size_and_hash() {
    let r = probe("https://x.org/d/a.gguf?download=true", &reply(302)).unwrap();
    assert_eq!((r.size, r.filename.as_str()), (1000, "a.gguf"));
    assert_eq!(r.sha256.as_deref(), Some("ab".repeat(32).as_str()));
    let mut plain = reply(200);
    plain.linked_size = None;
    plain.linked_etag = Some("\"short\"".into());
    let r = probe("https://x.org/a.gguf", &plain).unwrap();
    assert_eq!((r.size, r.sha256), (5, None));
    assert!(matches!(probe("https://x.org/a", &reply(404)), Err(HubError::Status(404))));
}

#[test]
fn hashing_is_sha_256() {
    let mut h = Hasher::new();
    h.update(b"a");
    h.update(b"bc");
    assert_eq!(
        h.digest_so_far(),
        "ba7816bf8f01cfea414140de5dae2223b00361a396177a9cb410ff61f20015ad"
    );
    assert_eq!(hex(&[0, 0x1f, 0xff]), "001fff");
}

#[test]
fn numbers_are_digits_with_an_optional_plus() {
    assert_eq!(parse_u64("+12"), Some(12));
    assert_eq!(parse_u64("18446744073709551615"), Some(u64::MAX));
    for bad in ["", "+", "-1", "1 ", "18446744073709551616"] {
        assert_eq!(parse_u64(bad), None, "{bad}");
    }
}

fn remote(size: u64, sha256: Option<&str>) -> Remote {
    Remote {
        url: "https://x.org/a.gguf".into(),
        size,
        sha256: sha256.map(|s| s.to_string()),
        filename: "a.gguf".into(),
    }
}

const ABC: &str = "ba7816bf8f01cfea414140de5dae2223b00361a396177a9cb410ff61f20015ad";

#[test]
fn a_download_is_hashed_checked_and_renamed() {
    let (mut f, ask) = Fetch::new(&remote(3, Some(ABC)), false, true, true);
    assert!(matches!(ask, Ask::DestLength));
    assert!(matches!(f.tell(Told::Length(None)), Ask::FindTwin));
    assert!(matches!(f.tell(Told::Found(false)), Ask::PartLength));
    // One byte is there already; it is hashed before more is asked for.
    assert!(matches!(f.tell(Told::Length(Some(1))), Ask::ReadPart { upto: 1 }));
    f.absorb(b"a");
    assert!(matches!(f.tell(Told::Did), Ask::OpenPart { len: 1 }));
    assert!(matches!(f.tell(Told::Did), Ask::Get { from: 1 }));
    assert!(matches!(f.tell(Told::Status(206)), Ask::ReadBody));
    f.absorb(b"bc");
    assert!(matches!(f.tell(Told::Did), Ask::SyncPart));
    assert!(matches!(f.tell(Told::Length(Some(3))), Ask::ParsePart));
    assert!(matches!(f.tell(Told::Parsed(true)), Ask::RenamePart));
    assert!(matches!(f.tell(Told::Did), Ask::Done { already_had_it: false }));
}

#[test]
fn a_server_that_ignores_the_range_starts_over() {
    let (mut f, _) = Fetch::new(&remote(3, Some(ABC)), false, true, true);
    f.tell(Told::Length(None));
    f.tell(Told::Found(false));
    f.tell(Told::Length(Some(1)));
    f.absorb(b"z");
    f.tell(Told::Did);
    f.tell(Told::Did);
    assert!(matches!(f.tell(Told::Status(200)), Ask::RestartPart));
    assert!(matches!(f.tell(Told::Did), Ask::ReadBody));
    f.absorb(b"abc");
    f.tell(Told::Did);
    assert!(matches!(f.tell(Told::Length(Some(3))), Ask::ParsePart));
    assert!(matches!(f.tell(Told::Parsed(false)), Ask::Fail(FetchError::NotGguf)));
}

#[test]
fn what_is_short_or_wrong_is_not_renamed() {
    let body = |size: u64, sha: Option<&str>, bytes: &[u8]| {
        let (mut f, ask) = Fetch::new(&remote(size, sha), true, true, true);
        assert!(matches!(ask, Ask::OpenPart { len: 0 }));
        f.tell(Told::Did);
        f.tell(Told::Status(200));
        f.absorb(bytes);
        f.tell(Told::Did);
        f.tell(Told::Length(Some(bytes.len() as u64)))
    };
    assert!(matches!(body(3, Some(ABC), b"ab"), Ask::Fail(FetchError::Short { got: 2, want: 3 })));
    assert!(matches!(body(3, Some(ABC), b"abd"), Ask::Fail(FetchError::HashMismatch { .. })));
    assert!(matches!(body(3, None, b"abd"), Ask::ParsePart));
    let (mut f, _) = Fetch::new(&remote(3, None), true, true, true);
    f.tell(Told::Did);
    assert!(matches!(f.tell(Told::Status(500)), Ask::Fail(FetchError::Status(500))));
}

#[test]
fn a_file_that_is_there_is_kept_or_reported() {
    let (mut f, _) = Fetch::new(&remote(3, Some(ABC)), false, true, true);
    assert!(matches!(f.tell(Told::Length(Some(3))), Ask::HashDest));
    assert!(matches!(f.tell(Told::Hash(ABC.into())), Ask::Done { already_had_it: true }));
    let (mut f, _) = Fetch::new(&remote(3, Some(ABC)), false, true, true);
    f.tell(Told::Length(Some(3)));
    assert!(matches!(f.tell(Told::Hash("00".into())), Ask::Fail(FetchError::OtherFile { .. })));
    let (mut f, _) = Fetch::new(&remote(3, Some(ABC)), false, true, true);
    assert!(matches!(
        f.tell(Told::Length(Some(9))),
        Ask::Fail(FetchError::WrongLength { have: 9, want: 3 })
    ));
}

#[test]
fn a_twin_is_a_finished_file_of_the_same_size() {
    let e = |is_dest, is_file, is_part, len| Entry { is_dest, is_file, is_part, len };
    let all = [e(true, true, false, 3), e(false, true, true, 3), e(false, true, false, 3)];
    assert_eq!(find_twin(&all, 3), Some(2));
    assert_eq!(find_twin(&all, 4), None);
    let (mut f, _) = Fetch::new(&remote(3, Some(ABC)), false, true, true);
    f.tell(Told::Length(None));
    assert!(matches!(f.tell(Told::Found(true)), Ask::HashTwin));
    assert!(matches!(f.tell(Told::Hash(ABC.into())), Ask::LinkTwin));
    assert!(matches!(f.tell(Told::Did), Ask::Done { already_had_it: true }));
    assert_eq!(range_header(5).as_deref(), Some("bytes=5-"));
    assert_eq!(range_header(0), None);
}

#[test]
fn arguments_are_flags_and_names() {
    let args: Vec<String> =
        ["--dir", "d", "--force", "gemma4", "--no-verify"].iter().map(|s| s.to_string()).collect();
    let o = Options::parse(&args);
    assert!(o.force && !o.verify && o.adopt && !o.help);
    assert_eq!((o.dir.as_str(), o.specs.len()), ("d", 1));
    assert_eq!(o.specs[0], "gemma4");
    assert_eq!(flag(&args, "--dir").as_deref(), Some("d"));
    assert_eq!(flag(&args, "--none"), None);
    let o = Options::parse(&[]);
    assert_eq!((o.dir.as_str(), o.specs.len()), ("models", 6));
    assert_eq!(o.specs[..2], ["gemma4".to_string(), "qwen35".to_string()]);
}

#[test]
fn a_meter_draws_now_and_then() {
    let mut m = Progress::new(100, true, 10 * SECOND);
    let (f, s) = m.draw(true, 10 * SECOND);
    assert!(matches!(f, Frame::Bar { stalled: false }) && s.is_none());
    m.add(50, 10 * SECOND + 1);
    assert!(matches!(m.draw(false, 10 * SECOND + 2).0, Frame::Nothing));
    let (f, s) = m.draw(false, 11 * SECOND);
    assert!(matches!(f, Frame::Bar { stalled: false }));
    let s = s.unwrap();
    assert_eq!((s.bytes, s.nanos), (50, SECOND));
    assert!(matches!(m.draw(true, 20 * SECOND).0, Frame::Bar { stalled: true }));
    assert!(m.finish() && !m.finish());
    let mut m = Progress::new(100, false, 10 * SECOND).at(40, 10 * SECOND);
    assert!(matches!(m.draw(true, 10 * SECOND).0, Frame::Line));
    assert!(matches!(m.draw(false, 11 * SECOND).0, Frame::Nothing));
    assert_eq!(m.done, 40);
}

#[test]
fn lines_fit_the_terminal() {
    assert_eq!((term_width(Some(120)), term_width(Some(10)), term_width(None)), (120, 80, 80));
    assert_eq!((bar_width(80, 10, 30), bar_width(20, 10, 30), bar_width(500, 1, 1)), (36, 8, 40));
    assert_eq!((clock(59), clock(61), clock(3661)), ("0:59".into(), "1:01".into(), "1:01:01".into()));
    assert_eq!(unit(512), ("B", 1));
}

#[test]
fn every_alias_has_an_address() {
    let names =
        ["gemma4", "qwen35", "gemma4-e4b-q4", "gemma4-e4b", "gemma4-e4b-mmproj", "qwen3-0.6b"];
    assert_eq!(aliases().iter().map(|a| a.name).collect::<Vec<_>>(), names);
    for a in aliases() {
        assert_eq!(resolve_url(a.name).unwrap(), a.url);
        assert!(a.url.starts_with("https://") && a.url.ends_with(".gguf"));
        assert_eq!(alias(a.name).unwrap().confirmed, ["gemma4", "qwen35"].contains(&a.name));
    }
    assert!(alias("gemma").is_none());
}
