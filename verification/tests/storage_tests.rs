use synote::codec::encode;
use synote::error::{AppError, ErrorKind};
use synote::note::Note;
use synote::storage::{NoteFile, NoteStorage};
use synote::time::Timestamp;

fn engine() -> NoteStorage {
    NoteStorage::new(String::from("notes"))
}

fn make_note(id: u128, title: &str, content: &str, secs: i64, path: &str) -> Note {
    Note {
        id,
        title: String::from(title),
        content: String::from(content),
        created_at: Timestamp { secs, nanos: 0 },
        updated_at: Timestamp { secs, nanos: 0 },
        path: String::from(path),
    }
}

/// Applies a write command to an in-memory snapshot, as the filesystem layer
/// would to the real tree.
fn apply_write(files: &mut Vec<NoteFile>, path: String, contents: String) {
    for f in files.iter_mut() {
        if f.path == path {
            f.text = contents;
            return;
        }
    }
    files.push(NoteFile { path, text: contents });
}

#[test]
fn create_then_get_finds_the_note() {
    let st = engine();
    let note = make_note(7, "First", "hello world", 1_700_000_000, "first.md");
    let (stored, cmd) = st.create(note);
    assert_eq!(cmd.path, "first.md");
    let mut files: Vec<NoteFile> = Vec::new();
    apply_write(&mut files, cmd.path, cmd.contents);
    let got = st.get(&files, 7).expect("created note is found");
    assert_eq!(got.id, stored.id);
    assert_eq!(got.title, "First");
    assert_eq!(got.content, "hello world");
    assert_eq!(got.path, "first.md");
}

#[test]
fn get_unknown_id_is_not_found() {
    let st = engine();
    let files: Vec<NoteFile> = Vec::new();
    match st.get(&files, 42) {
        Err(e) => assert_eq!(e.kind, ErrorKind::NotFound),
        Ok(_) => panic!("an empty store holds nothing"),
    }
}

#[test]
fn get_is_idempotent_without_writes() {
    let st = engine();
    let mut files: Vec<NoteFile> = Vec::new();
    let (_, cmd) = st.create(make_note(9, "Same", "stays", 1_700_000_100, "same.md"));
    apply_write(&mut files, cmd.path, cmd.contents);
    let a = st.get(&files, 9).expect("found once");
    let b = st.get(&files, 9).expect("found twice");
    assert_eq!(a.id, b.id);
    assert_eq!(a.title, b.title);
    assert_eq!(a.content, b.content);
    assert_eq!(a.created_at, b.created_at);
    assert_eq!(a.updated_at, b.updated_at);
    assert_eq!(a.path, b.path);
}

#[test]
fn list_sorts_by_updated_at_descending() {
    let st = engine();
    let mut files: Vec<NoteFile> = Vec::new();
    for (id, secs, path) in [(1u128, 100i64, "a.md"), (2, 300, "b.md"), (3, 200, "c.md")] {
        let (_, cmd) = st.create(make_note(id, "t", "c", secs, path));
        apply_write(&mut files, cmd.path, cmd.contents);
    }
    let listed = st.list(&files);
    let ids: Vec<u128> = listed.iter().map(|n| n.id).collect();
    assert_eq!(ids, vec![2, 3, 1]);
}

#[test]
fn update_preserves_path_id_created_at() {
    let st = engine();
    let mut files: Vec<NoteFile> = Vec::new();
    let (_, cmd) = st.create(make_note(5, "Groceries", "milk, eggs", 1_700_000_000, "g.md"));
    apply_write(&mut files, cmd.path, cmd.contents);

    let mut patched = st.get(&files, 5).expect("found");
    let created_before = patched.created_at;
    patched.update_at(
        None,
        Some(String::from("milk, eggs, bread")),
        Timestamp { secs: 1_700_000_050, nanos: 0 },
    );
    // even a caller-supplied wrong path must not relocate the file
    patched.path = String::from("elsewhere.md");
    let (updated, cmd2) = st.update(&files, 5, patched).expect("update succeeds");
    assert_eq!(cmd2.path, "g.md");
    assert_eq!(updated.path, "g.md");
    assert_eq!(updated.id, 5);
    assert_eq!(updated.created_at, created_before);
    assert_eq!(updated.title, "Groceries");
    assert_eq!(updated.content, "milk, eggs, bread");
    assert!(updated.created_at.le(&updated.updated_at));
    assert_ne!(updated.updated_at, created_before);

    apply_write(&mut files, cmd2.path, cmd2.contents);
    let back = st.get(&files, 5).expect("still found at the same path");
    assert_eq!(back.path, "g.md");
    assert_eq!(back.content, "milk, eggs, bread");
    assert_eq!(back.created_at, created_before);
}

#[test]
fn update_unknown_id_is_not_found() {
    let st = engine();
    let files: Vec<NoteFile> = Vec::new();
    let note = make_note(11, "x", "y", 1_700_000_000, "x.md");
    match st.update(&files, 11, note) {
        Err(e) => assert_eq!(e.kind, ErrorKind::NotFound),
        Ok(_) => panic!("updating a missing note must fail"),
    }
}

#[test]
fn delete_then_get_is_not_found() {
    let st = engine();
    let mut files: Vec<NoteFile> = Vec::new();
    let (_, cmd) = st.create(make_note(8, "Bye", "soon gone", 1_700_000_000, "bye.md"));
    apply_write(&mut files, cmd.path, cmd.contents);
    let path = st.delete(&files, 8).expect("delete resolves the note");
    assert_eq!(path, "bye.md");
    files.retain(|f| f.path != path);
    match st.get(&files, 8) {
        Err(e) => assert_eq!(e.kind, ErrorKind::NotFound),
        Ok(_) => panic!("a deleted note must be gone"),
    }
    assert!(st.list(&files).is_empty());
}

#[test]
fn delete_unknown_id_is_not_found() {
    let st = engine();
    let files: Vec<NoteFile> = Vec::new();
    match st.delete(&files, 77) {
        Err(e) => assert_eq!(e.kind, ErrorKind::NotFound),
        Ok(_) => panic!("deleting a missing note must fail"),
    }
}

#[test]
fn search_matches_title_and_content_case_insensitively() {
    let st = engine();
    let mut files: Vec<NoteFile> = Vec::new();
    for (id, title, content, secs, path) in [
        (1u128, "Shopping List", "EGGS and flour", 100i64, "a.md"),
        (2, "Diary", "nothing happened", 200, "b.md"),
        (3, "eggs benedict", "recipe", 300, "c.md"),
    ] {
        let (_, cmd) = st.create(make_note(id, title, content, secs, path));
        apply_write(&mut files, cmd.path, cmd.contents);
    }
    let hits = st.search(&files, "eGGs");
    let ids: Vec<u128> = hits.iter().map(|n| n.id).collect();
    assert_eq!(ids, vec![3, 1]);
}

#[test]
fn search_empty_query_matches_everything() {
    let st = engine();
    let mut files: Vec<NoteFile> = Vec::new();
    for (id, secs, path) in [(1u128, 100i64, "a.md"), (2, 200, "b.md")] {
        let (_, cmd) = st.create(make_note(id, "t", "c", secs, path));
        apply_write(&mut files, cmd.path, cmd.contents);
    }
    assert_eq!(st.search(&files, "").len(), 2);
}

#[test]
fn search_no_match_is_empty() {
    let st = engine();
    let mut files: Vec<NoteFile> = Vec::new();
    let (_, cmd) = st.create(make_note(1, "alpha", "beta", 100, "a.md"));
    apply_write(&mut files, cmd.path, cmd.contents);
    assert!(st.search(&files, "gamma").is_empty());
}

#[test]
fn corrupt_and_foreign_files_are_skipped_not_fatal() {
    let st = engine();
    let mut files: Vec<NoteFile> = Vec::new();
    let (_, cmd) = st.create(make_note(4, "Good", "kept", 1_700_000_000, "good.md"));
    apply_write(&mut files, cmd.path, cmd.contents);
    files.push(NoteFile {
        path: String::from("broken.md"),
        text: String::from("this is not a note record at all"),
    });
    files.push(NoteFile {
        path: String::from("bad-id.md"),
        text: String::from(
            "---\nid: zzz\ncreated_at: 2024-05-01T12:00:00+00:00\nupdated_at: 2024-05-01T12:00:00+00:00\n---\n\nx",
        ),
    });
    files.push(NoteFile { path: String::from("readme.txt"), text: String::from("not markdown") });
    let listed = st.list(&files);
    assert_eq!(listed.len(), 1);
    assert_eq!(listed[0].id, 4);
    let found = st.search(&files, "kept");
    assert_eq!(found.len(), 1);
    match st.get(&files, 999) {
        Err(e) => assert_eq!(e.kind, ErrorKind::NotFound),
        Ok(_) => panic!("corrupt files must not decode"),
    }
}

#[test]
fn note_new_defaults_path_to_id_derived_name() {
    let note = Note::new(String::from("t"), String::from("c"), None);
    assert!(note.path.ends_with(".md"));
    assert_eq!(note.path.len(), 39);
    let stem = &note.path[..36];
    let parsed = uuid::Uuid::parse_str(stem).expect("default path stem is the id text");
    assert_eq!(parsed.as_u128(), note.id);
    assert_eq!(note.created_at, note.updated_at);

    let explicit = Note::new(String::from("t"), String::from("c"), Some(String::from("sub/dir/n.md")));
    assert_eq!(explicit.path, "sub/dir/n.md");
}

#[test]
fn fresh_notes_draw_distinct_ids() {
    let a = Note::new(String::from("a"), String::new(), None);
    let b = Note::new(String::from("b"), String::new(), None);
    assert_ne!(a.id, b.id);
}

#[test]
fn note_update_patches_only_supplied_fields() {
    let mut note = make_note(12, "Title", "Content", 1_700_000_000, "n.md");
    let created = note.created_at;
    note.update(Some(String::from("New title")), None);
    assert_eq!(note.title, "New title");
    assert_eq!(note.content, "Content");
    assert_eq!(note.id, 12);
    assert_eq!(note.path, "n.md");
    assert_eq!(note.created_at, created);
    note.update(None, Some(String::from("New content")));
    assert_eq!(note.title, "New title");
    assert_eq!(note.content, "New content");
    assert_eq!(note.created_at, created);
}

#[test]
fn error_kinds_are_distinct() {
    assert_eq!(AppError::not_found().kind, ErrorKind::NotFound);
    assert_eq!(AppError::invalid_format().kind, ErrorKind::InvalidFormat);
    assert_eq!(AppError::io_failure().kind, ErrorKind::IoFailure);
    assert_ne!(ErrorKind::NotFound, ErrorKind::IoFailure);
}

#[test]
fn config_defaults() {
    let c = synote::config::Config::default();
    assert_eq!(c.server.host, "127.0.0.1");
    assert_eq!(c.server.port, 8080);
    assert_eq!(c.storage.notes_dir, "./data/notes");
    assert_eq!(synote::config::default_host(), "127.0.0.1");
    assert_eq!(synote::config::default_port(), 8080);
    assert_eq!(synote::config::default_notes_dir(), "./data/notes");
}

#[test]
fn encoded_note_round_trips_through_engine_write(){
    // the write command carries exactly the codec's layout
    let st = engine();
    let note = make_note(6, "Layout", "body", 1_700_000_000, "l.md");
    let (_, cmd) = st.create(note.clone_note());
    assert_eq!(cmd.contents, encode(&note));
}
