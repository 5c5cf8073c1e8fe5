use synote::codec::{decode, encode};
use synote::error::ErrorKind;
use synote::note::Note;
use synote::time::Timestamp;

fn sample_note() -> Note {
    Note {
        id: 0x550e8400e29b41d4a716446655440000u128,
        title: String::from("Groceries"),
        content: String::from("milk, eggs"),
        created_at: Timestamp { secs: 1714564800, nanos: 0 },
        updated_at: Timestamp { secs: 1714568400, nanos: 250_000_000 },
        path: String::from("lists/groceries.md"),
    }
}

#[test]
fn encode_exact_layout() {
    let text = encode(&sample_note());
    let expected = "---\n\
        id: 550e8400-e29b-41d4-a716-446655440000\n\
        title: Groceries\n\
        created_at: 2024-05-01T12:00:00+00:00\n\
        updated_at: 2024-05-01T13:00:00.250+00:00\n\
        ---\n\n\
        milk, eggs";
    assert_eq!(text, expected);
}

#[test]
fn round_trip_basic() {
    let note = sample_note();
    let text = encode(&note);
    let back = decode(&text, note.path.clone()).expect("round trip should decode");
    assert_eq!(back.id, note.id);
    assert_eq!(back.title, note.title);
    assert_eq!(back.content, note.content);
    assert_eq!(back.created_at, note.created_at);
    assert_eq!(back.updated_at, note.updated_at);
    assert_eq!(back.path, note.path);
}

#[test]
fn round_trip_multiline_content_with_delimiter() {
    let mut note = sample_note();
    note.content = String::from("first line\n---\nsecond: part\nthird");
    let text = encode(&note);
    let back = decode(&text, note.path.clone()).expect("body may hold delimiter lines");
    assert_eq!(back.content, note.content);
    assert_eq!(back.title, note.title);
}

#[test]
fn round_trip_empty_title_and_content() {
    let mut note = sample_note();
    note.title = String::new();
    note.content = String::new();
    let text = encode(&note);
    let back = decode(&text, note.path.clone()).expect("empty fields decode");
    assert_eq!(back.title, "");
    assert_eq!(back.content, "");
}

#[test]
fn decode_missing_frontmatter_fails() {
    let r = decode("just some text, no delimiters", String::from("a.md"));
    match r {
        Err(e) => assert_eq!(e.kind, ErrorKind::InvalidFormat),
        Ok(_) => panic!("decoding without frontmatter must fail"),
    }
}

#[test]
fn decode_single_delimiter_fails() {
    let r = decode("---\nid: only one fence", String::from("a.md"));
    match r {
        Err(e) => assert_eq!(e.kind, ErrorKind::InvalidFormat),
        Ok(_) => panic!("one delimiter is not enough"),
    }
}

#[test]
fn decode_bad_uuid_fails() {
    let text = "---\nid: not-a-uuid\ntitle: t\ncreated_at: 2024-05-01T12:00:00+00:00\nupdated_at: 2024-05-01T12:00:00+00:00\n---\n\nbody";
    let r = decode(text, String::from("a.md"));
    match r {
        Err(e) => assert_eq!(e.kind, ErrorKind::InvalidFormat),
        Ok(_) => panic!("an invalid id must fail the record"),
    }
}

#[test]
fn decode_bad_timestamp_fails() {
    let text = "---\nid: 550e8400-e29b-41d4-a716-446655440000\ntitle: t\ncreated_at: yesterday\nupdated_at: 2024-05-01T12:00:00+00:00\n---\n\nbody";
    let r = decode(text, String::from("a.md"));
    match r {
        Err(e) => assert_eq!(e.kind, ErrorKind::InvalidFormat),
        Ok(_) => panic!("an invalid instant must fail the record"),
    }
}

#[test]
fn decode_missing_required_key_fails() {
    let text = "---\nid: 550e8400-e29b-41d4-a716-446655440000\ntitle: t\ncreated_at: 2024-05-01T12:00:00+00:00\n---\n\nbody";
    let r = decode(text, String::from("a.md"));
    match r {
        Err(e) => assert_eq!(e.kind, ErrorKind::InvalidFormat),
        Ok(_) => panic!("a record without updated_at must fail"),
    }
}

#[test]
fn decode_unknown_keys_ignored_and_values_trimmed() {
    let text = "---\n  id:   550e8400-e29b-41d4-a716-446655440000  \ncolor: blue\ntitle:   spaced out  \ncreated_at: 2024-05-01T12:00:00+00:00\nupdated_at: 2024-05-01T13:00:00+00:00\n---\n\n  body text  ";
    let n = decode(text, String::from("a.md")).expect("unknown keys are ignored");
    assert_eq!(n.title, "spaced out");
    assert_eq!(n.content, "body text");
    assert_eq!(n.id, 0x550e8400e29b41d4a716446655440000u128);
}

#[test]
fn decode_last_key_wins() {
    let text = "---\nid: 550e8400-e29b-41d4-a716-446655440000\ntitle: first\ntitle: second\ncreated_at: 2024-05-01T12:00:00+00:00\nupdated_at: 2024-05-01T13:00:00+00:00\n---\n\nb";
    let n = decode(text, String::from("a.md")).expect("decodes");
    assert_eq!(n.title, "second");
}

#[test]
fn decode_accepts_uppercase_uuid_text() {
    let text = "---\nid: 550E8400-E29B-41D4-A716-446655440000\ntitle: t\ncreated_at: 2024-05-01T12:00:00+00:00\nupdated_at: 2024-05-01T13:00:00+00:00\n---\n\nb";
    let n = decode(text, String::from("a.md")).expect("uuid parser accepts upper case");
    assert_eq!(n.id, 0x550e8400e29b41d4a716446655440000u128);
}

#[test]
fn timestamp_now_is_valid_and_ordered() {
    let a = synote::time::Timestamp::now();
    let b = synote::time::Timestamp::now();
    assert!(a.nanos < 1_000_000_000);
    assert!(a.le(&b) || b.le(&a));
}
