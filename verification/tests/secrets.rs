use llmoxide::secret::{zero_slice, zero_vec, SecretString, SecretVec};

#[test]
fn wipe_clears_the_whole_allocation_not_just_the_live_prefix() {
    let mut v = SecretVec::<u32>::new();
    v.extend_from_slice(&[0xDEAD_BEEF; 2000]);
    v.wipe();
    // A shorter follow-up must not leave the tail of the longer one behind.
    v.extend_from_slice(&[1, 2, 3]);
    let all = &v.cells;
    assert!(all.len() >= 2000);
    assert_eq!(&all[..3], &[1, 2, 3]);
    assert!(
        all[3..].iter().all(|w| *w == 0),
        "tail of the wiped conversation survived"
    );
}

#[test]
fn secret_vec_round_trips() {
    let mut v = SecretVec::<u32>::new();
    for i in 0..5000u32 {
        v.push(i);
    }
    assert_eq!(v.len(), 5000);
    assert_eq!(v.as_slice()[4999], 4999);
    v.replace(&[7, 8, 9]);
    assert_eq!(v.as_slice(), &[7, 8, 9]);
}

#[test]
fn secret_string_accumulates_and_wipes() {
    let mut s = SecretString::new();
    s.push_str("the quick ");
    s.push_str("brown fox");
    assert!(s.contains("quick brown"));
    s.wipe();
    assert!(s.is_empty());
    assert_eq!(s.as_str(), "");
}

#[test]
fn zero_slice_overwrites() {
    let mut v = vec![0xFFu8; 100];
    zero_slice(&mut v);
    assert!(v.iter().all(|b| *b == 0));
}

#[test]
fn a_shorter_replacement_leaves_nothing_of_the_longer() {
    let mut v = SecretVec::<u8>::new();
    v.extend_from_slice(b"attack at dawn");
    v.replace(b"no");
    assert_eq!(v.as_slice(), b"no");
    assert!(v.cells[2..].iter().all(|b| *b == 0));
    assert!(!v.is_empty());
    let mut w = vec![1u32; 3];
    zero_vec(&mut w);
    assert_eq!(w, [0, 0, 0]);
}

#[test]
fn secret_string_holds_any_text() {
    let mut s = SecretString::new();
    s.push_str("caf\u{e9} \u{1F600}");
    assert_eq!(s.as_str(), "caf\u{e9} \u{1F600}");
    assert_eq!(s.len(), 10);
    assert!(s.contains("\u{e9} ") && !s.contains("e "));
}
