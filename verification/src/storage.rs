//! The storage engine: every operation is decided over an explicit snapshot
//! of the files under the root directory - there is no index, a lookup is a
//! full scan. The caller walks the tree, hands the snapshot in, and carries
//! out the write and delete commands the engine returns.

use vstd::prelude::*;
use crate::codec::{decode, decode_spec, encode, encode_spec};
use crate::error::{AppError, ErrorKind};
use crate::note::{Note, NoteView};
use crate::textutil::{contains_seq, lower_of, lowercase, str_contains};

verus! {

broadcast use {vstd::seq_lib::group_to_multiset_ensures, vstd::seq_lib::group_filter_ensures};

/// One file under the storage root, as the scanner saw it: its path relative
/// to the root, and its raw text.
pub struct NoteFile {
    pub path: String,
    pub text: String,
}

/// A write the engine decided on: put `contents` into the file at `path`
/// (relative to the root), creating parent directories as needed.
pub struct WriteCommand {
    pub path: String,
    pub contents: String,
}

/// Parameters of the search endpoint.
pub struct SearchQuery {
    pub q: String,
}

/// The engine: it owns the root directory name; all reads go through file
/// snapshots taken below that root.
pub struct NoteStorage {
    pub notes_dir: String,
}

/// Only files with the `.md` extension take part in a scan.
pub open spec fn is_md_path(p: Seq<char>) -> bool {
    p.len() >= 3 && p[p.len() - 3] == '.' && p[p.len() - 2] == 'm' && p[p.len() - 1] == 'd'
}

/// The note a scanned file contributes: `.md` files that decode, nothing
/// else; a malformed file is skipped, never an error.
pub open spec fn file_note(f: NoteFile) -> Option<NoteView> {
    if is_md_path(f.path@) {
        decode_spec(f.text@, f.path@)
    } else {
        None
    }
}

/// Every note the snapshot holds, in scan order.
pub open spec fn decoded_notes(files: Seq<NoteFile>) -> Seq<NoteView>
    decreases files.len(),
{
    if files.len() == 0 {
        Seq::<NoteView>::empty()
    } else {
        match file_note(files[0]) {
            Some(nv) => seq![nv] + decoded_notes(files.drop_first()),
            None => decoded_notes(files.drop_first()),
        }
    }
}

/// The first note in scan order whose id matches, if any.
pub open spec fn find_note(files: Seq<NoteFile>, id: u128) -> Option<NoteView>
    decreases files.len(),
{
    if files.len() == 0 {
        None
    } else {
        match file_note(files[0]) {
            Some(nv) => if nv.id == id {
                Some(nv)
            } else {
                find_note(files.drop_first(), id)
            },
            None => find_note(files.drop_first(), id),
        }
    }
}

pub open spec fn views_of(s: Seq<Note>) -> Seq<NoteView> {
    s.map_values(|n: Note| n@)
}

/// Most recently updated first.
pub open spec fn sorted_desc(s: Seq<NoteView>) -> bool {
    forall|i: int, j: int|
        0 <= i <= j < s.len() ==> (#[trigger] s[j]).updated_at.le_spec((#[trigger] s[i]).updated_at)
}

/// The search predicate: the case-folded query is a substring of the
/// case-folded title or of the case-folded content.
pub open spec fn note_matches(nv: NoteView, q: Seq<char>) -> bool {
    contains_seq(lower_of(nv.title), lower_of(q)) || contains_seq(
        lower_of(nv.content),
        lower_of(q),
    )
}

/// The notes of the snapshot that match the query, in scan order.
pub open spec fn matching_notes(files: Seq<NoteFile>, q: Seq<char>) -> Seq<NoteView> {
    decoded_notes(files).filter(|nv: NoteView| note_matches(nv, q))
}

proof fn lemma_filter_all(s: Seq<NoteView>, pred: spec_fn(NoteView) -> bool)
    requires
        forall|i: int| 0 <= i < s.len() ==> pred(#[trigger] s[i]),
    ensures
        s.filter(pred) == s,
    decreases s.len(),
{
    reveal(Seq::filter);
    if s.len() > 0 {
        lemma_filter_all(s.drop_last(), pred);
        assert(s.drop_last().push(s.last()) =~= s);
    }
}

fn is_md_file(p: &str) -> (r: bool)
    ensures
        r == is_md_path(p@),
{
    let n = p.unicode_len();
    if n < 3 {
        return false;
    }
    p.get_char(n - 3) == '.' && p.get_char(n - 2) == 'm' && p.get_char(n - 1) == 'd'
}

proof fn lemma_decoded_notes_push(s: Seq<NoteFile>, f: NoteFile)
    ensures
        decoded_notes(s.push(f)) == decoded_notes(s) + (match file_note(f) {
            Some(nv) => seq![nv],
            None => Seq::<NoteView>::empty(),
        }),
    decreases s.len(),
{
    let sf = s.push(f);
    let added = (match file_note(f) {
        Some(nv) => seq![nv],
        None => Seq::<NoteView>::empty(),
    });
    if s.len() == 0 {
        assert(sf.len() == 1);
        assert(sf[0] == f);
        assert(sf.drop_first() =~= Seq::<NoteFile>::empty());
        assert(decoded_notes(sf.drop_first()) =~= Seq::<NoteView>::empty());
        assert(decoded_notes(s) =~= Seq::<NoteView>::empty());
        assert(decoded_notes(sf) =~= added);
        assert(decoded_notes(sf) =~= decoded_notes(s) + added);
    } else {
        lemma_decoded_notes_push(s.drop_first(), f);
        assert(sf[0] == s[0]);
        assert(sf.drop_first() =~= s.drop_first().push(f));
        assert(decoded_notes(sf.drop_first()) == decoded_notes(s.drop_first().push(f)));
        match file_note(s[0]) {
            Some(nv0) => {
                assert(decoded_notes(sf) == seq![nv0] + decoded_notes(sf.drop_first()));
                assert(decoded_notes(s) == seq![nv0] + decoded_notes(s.drop_first()));
                assert(seq![nv0] + (decoded_notes(s.drop_first()) + added) =~= (seq![nv0]
                    + decoded_notes(s.drop_first())) + added);
                assert(decoded_notes(sf) =~= decoded_notes(s) + added);
            },
            None => {
                assert(decoded_notes(sf) == decoded_notes(sf.drop_first()));
                assert(decoded_notes(s) == decoded_notes(s.drop_first()));
                assert(decoded_notes(sf) =~= decoded_notes(s) + added);
            },
        }
    }
}

/// Collects, in scan order, every note the snapshot decodes to.
fn scan_notes(files: &Vec<NoteFile>) -> (r: Vec<Note>)
    ensures
        views_of(r@) == decoded_notes(files@),
{
    let mut out: Vec<Note> = Vec::new();
    let mut i: usize = 0;
    while i < files.len()
        invariant
            i <= files@.len(),
            views_of(out@) == decoded_notes(files@.take(i as int)),
        decreases files@.len() - i,
    {
        let f = &files[i];
        proof {
            assert(files@.take(i as int + 1) =~= files@.take(i as int).push(files@[i as int]));
            lemma_decoded_notes_push(files@.take(i as int), files@[i as int]);
        }
        if is_md_file(f.path.as_str()) {
            match decode(f.text.as_str(), f.path.clone()) {
                Ok(n) => {
                    out.push(n);
                    proof {
                        assert(views_of(out@) =~= decoded_notes(files@.take(i as int + 1)));
                    }
                },
                Err(_) => {
                    proof {
                        assert(views_of(out@) =~= decoded_notes(files@.take(i as int + 1)));
                    }
                },
            }
        } else {
            proof {
                assert(views_of(out@) =~= decoded_notes(files@.take(i as int + 1)));
            }
        }
        i += 1;
    }
    proof {
        assert(files@.take(files@.len() as int) =~= files@);
    }
    out
}

fn index_of_max(notes: &Vec<Note>) -> (r: usize)
    requires
        notes@.len() > 0,
    ensures
        r < notes@.len(),
        forall|k: int|
            0 <= k < notes@.len() ==> (#[trigger] notes@[k])@.updated_at.le_spec(
                notes@[r as int]@.updated_at,
            ),
{
    let mut best: usize = 0;
    let mut i: usize = 1;
    while i < notes.len()
        invariant
            best < i <= notes@.len(),
            forall|k: int|
                0 <= k < i ==> (#[trigger] notes@[k])@.updated_at.le_spec(
                    notes@[best as int]@.updated_at,
                ),
        decreases notes@.len() - i,
    {
        if notes[best].updated_at.le(&notes[i].updated_at) {
            best = i;
        }
        i += 1;
    }
    best
}

/// Sorts by update instant, most recent first; a permutation of the input,
/// with ties left in whatever order the selection visits them.
fn sort_notes(notes: Vec<Note>) -> (r: Vec<Note>)
    ensures
        views_of(r@).to_multiset() == views_of(notes@).to_multiset(),
        sorted_desc(views_of(r@)),
{
    let ghost orig = views_of(notes@).to_multiset();
    let mut rem = notes;
    let mut out: Vec<Note> = Vec::new();
    while rem.len() > 0
        invariant
            views_of(out@).to_multiset().add(views_of(rem@).to_multiset()) == orig,
            sorted_desc(views_of(out@)),
            forall|a: int, b: int|
                0 <= a < out@.len() && 0 <= b < rem@.len() ==> (#[trigger] rem@[b])@.updated_at.le_spec(
                    (#[trigger] out@[a])@.updated_at,
                ),
        decreases rem@.len(),
    {
        let mi = index_of_max(&rem);
        let ghost old_rem = rem@;
        let ghost old_out = out@;
        let n = rem.remove(mi);
        out.push(n);
        proof {
            let v = old_rem[mi as int]@;
            assert(views_of(rem@) =~= views_of(old_rem).remove(mi as int));
            assert(views_of(old_rem).remove(mi as int).to_multiset() =~= views_of(
                old_rem,
            ).to_multiset().remove(v));
            assert(views_of(out@) =~= views_of(old_out).push(n@));
            assert(views_of(old_out).push(n@).to_multiset() =~= views_of(
                old_out,
            ).to_multiset().insert(n@));
            assert(views_of(old_rem)[mi as int] == v);
            assert(views_of(old_rem).to_multiset().contains(v));
            assert(views_of(out@).to_multiset().add(views_of(rem@).to_multiset()) =~= orig);
        }
    }
    out
}

impl NoteStorage {
    /// An engine over the given root directory name.
    pub fn new(notes_dir: String) -> (r: Self)
        ensures
            r.notes_dir == notes_dir,
    {
        NoteStorage { notes_dir }
    }

    /// Decides a create: the note is stored verbatim, encoded at its own
    /// path.
    pub fn create(&self, note: Note) -> (r: (Note, WriteCommand))
        requires
            note.valid(),
        ensures
            r.0@ == note@,
            r.1.path@ == note@.path,
            r.1.contents@ == encode_spec(note@),
    {
        let contents = encode(&note);
        let path = note.path.clone();
        (note, WriteCommand { path, contents })
    }

    /// Finds the note with the given id: the first match in scan order;
    /// `NotFound` when the whole snapshot has none. A second call over the
    /// same snapshot returns the same result - the outcome is a function of
    /// the snapshot and the id alone.
    pub fn get(&self, files: &Vec<NoteFile>, id: u128) -> (r: Result<Note, AppError>)
        ensures
            find_note(files@, id) matches Some(nv) ==> (r matches Ok(n) && n@ == nv),
            find_note(files@, id) is None ==> (r matches Err(e) && e.kind == ErrorKind::NotFound),
    {
        let mut i: usize = 0;
        proof {
            assert(files@.skip(0) =~= files@);
        }
        while i < files.len()
            invariant
                i <= files@.len(),
                find_note(files@, id) == find_note(files@.skip(i as int), id),
            decreases files@.len() - i,
        {
            let f = &files[i];
            proof {
                assert(files@.skip(i as int)[0] == files@[i as int]);
                assert(files@.skip(i as int).drop_first() =~= files@.skip(i as int + 1));
            }
            if is_md_file(f.path.as_str()) {
                match decode(f.text.as_str(), f.path.clone()) {
                    Ok(n) => {
                        if n.id == id {
                            return Ok(n);
                        }
                    },
                    Err(_) => {},
                }
            }
            i += 1;
        }
        proof {
            assert(files@.skip(files@.len() as int) =~= Seq::<NoteFile>::empty());
        }
        Err(AppError::not_found())
    }

    /// Lists every note the snapshot holds, most recently updated first;
    /// files that are not `.md` or do not decode are left out, and never
    /// fail the call.
    pub fn list(&self, files: &Vec<NoteFile>) -> (r: Vec<Note>)
        ensures
            views_of(r@).to_multiset() == decoded_notes(files@).to_multiset(),
            sorted_desc(views_of(r@)),
    {
        let notes = scan_notes(files);
        sort_notes(notes)
    }

    /// Decides an update: the stored note's path always wins, so the write
    /// lands on the file the note already lives in; everything else is taken
    /// from the caller's patched note. `NotFound` when the id resolves to
    /// nothing.
    pub fn update(&self, files: &Vec<NoteFile>, id: u128, note: Note) -> (r: Result<
        (Note, WriteCommand),
        AppError,
    >)
        requires
            note.valid(),
        ensures
            find_note(files@, id) matches Some(stored) ==> (r matches Ok(p) && p.0@ == (NoteView {
                path: stored.path,
                ..note@
            }) && p.1.path@ == stored.path && p.1.contents@ == encode_spec(p.0@)),
            find_note(files@, id) is None ==> (r matches Err(e) && e.kind == ErrorKind::NotFound),
    {
        let stored = match self.get(files, id) {
            Ok(n) => n,
            Err(e) => {
                return Err(e);
            },
        };
        let mut kept = note;
        kept.path = stored.path;
        let contents = encode(&kept);
        let path = kept.path.clone();
        Ok((kept, WriteCommand { path, contents }))
    }

    /// Decides a delete: the path of the note the id resolves to, for the
    /// caller to remove; `NotFound` when the id resolves to nothing.
    pub fn delete(&self, files: &Vec<NoteFile>, id: u128) -> (r: Result<String, AppError>)
        ensures
            find_note(files@, id) matches Some(nv) ==> (r matches Ok(p) && p@ == nv.path),
            find_note(files@, id) is None ==> (r matches Err(e) && e.kind == ErrorKind::NotFound),
    {
        let note = match self.get(files, id) {
            Ok(n) => n,
            Err(e) => {
                return Err(e);
            },
        };
        Ok(note.path)
    }

    /// Filters the listing by the search predicate: exactly the notes whose
    /// case-folded title or content has the case-folded query as a
    /// substring, most recently updated first. An empty query matches every
    /// note.
    pub fn search(&self, files: &Vec<NoteFile>, query: &str) -> (r: Vec<Note>)
        ensures
            views_of(r@).to_multiset() == matching_notes(files@, query@).to_multiset(),
            sorted_desc(views_of(r@)),
            forall|i: int| 0 <= i < r@.len() ==> note_matches((#[trigger] r@[i])@, query@),
            query@.len() == 0 ==> views_of(r@).to_multiset() == decoded_notes(
                files@,
            ).to_multiset(),
    {
        let scanned = scan_notes(files);
        let qlow = lowercase(query);
        let mut kept: Vec<Note> = Vec::new();
        let mut i: usize = 0;
        while i < scanned.len()
            invariant
                i <= scanned@.len(),
                qlow@ == lower_of(query@),
                views_of(scanned@) == decoded_notes(files@),
                views_of(kept@) == views_of(scanned@.take(i as int)).filter(
                    |nv: NoteView| note_matches(nv, query@),
                ),
            decreases scanned@.len() - i,
        {
            let n = &scanned[i];
            let title_low = lowercase(n.title.as_str());
            let mut hit = str_contains(title_low.as_str(), qlow.as_str());
            if !hit {
                let content_low = lowercase(n.content.as_str());
                hit = str_contains(content_low.as_str(), qlow.as_str());
            }
            proof {
                reveal(Seq::filter);
                assert(views_of(scanned@.take(i as int + 1)) =~= views_of(
                    scanned@.take(i as int),
                ).push(scanned@[i as int]@));
                assert(views_of(scanned@.take(i as int + 1)).drop_last() =~= views_of(
                    scanned@.take(i as int),
                ));
            }
            if hit {
                kept.push(scanned[i].clone_note());
                proof {
                    assert(views_of(kept@) =~= views_of(scanned@.take(i as int + 1)).filter(
                        |nv: NoteView| note_matches(nv, query@),
                    ));
                }
            } else {
                proof {
                    assert(views_of(kept@) =~= views_of(scanned@.take(i as int + 1)).filter(
                        |nv: NoteView| note_matches(nv, query@),
                    ));
                }
            }
            i += 1;
        }
        proof {
            assert(scanned@.take(scanned@.len() as int) =~= scanned@);
            if query@.len() == 0 {
                assert(qlow@.len() == 0);
                assert forall|k: int|
                    0 <= k < views_of(scanned@).len() implies note_matches(
                    #[trigger] views_of(scanned@)[k],
                    query@,
                ) by {
                    assert(qlow@ =~= Seq::<char>::empty());
                    crate::textutil::lemma_empty_contained(
                        lower_of(views_of(scanned@)[k].title),
                    );
                }
                lemma_filter_all(views_of(scanned@), |nv: NoteView| note_matches(nv, query@));
            }
        }
        let r = sort_notes(kept);
        proof {
            assert forall|k: int| 0 <= k < r@.len() implies note_matches((#[trigger] r@[k])@, query@) by {
                assert(views_of(r@)[k] == r@[k]@);
                assert(views_of(r@).to_multiset().contains(r@[k]@));
                let m = matching_notes(files@, query@);
                assert(m.to_multiset().contains(r@[k]@));
                let j = choose|j: int| 0 <= j < m.len() && m[j] == r@[k]@;
                assert(note_matches(m[j], query@));
            }
        }
        r
    }
}

/// Reads do not disturb the store: two `get` calls over the same snapshot
/// resolve the same note - the result is a function of the snapshot and the
/// id alone, so either both fail or both return this one value.
pub proof fn lemma_get_idempotent(files: Seq<NoteFile>, id: u128, n1: NoteView, n2: NoteView)
    requires
        find_note(files, id) == Some(n1),
        find_note(files, id) == Some(n2),
    ensures
        n1 == n2,
{
}

/// The lookup fails exactly when no scanned file decodes to a note with the
/// id: in particular, once the note's file is gone (and no other file
/// carries its id), a get over the new snapshot reports `NotFound`.
pub proof fn lemma_find_note_none(files: Seq<NoteFile>, id: u128)
    ensures
        find_note(files, id) is None <==> (forall|k: int|
            0 <= k < files.len() ==> !((#[trigger] file_note(files[k])) matches Some(nv)
                && nv.id == id)),
    decreases files.len(),
{
    if files.len() == 0 {
    } else {
        lemma_find_note_none(files.drop_first(), id);
        assert forall|k: int| 1 <= k < files.len() implies file_note(files[k]) == file_note(
            files.drop_first()[k - 1],
        ) by {
            assert(files.drop_first()[k - 1] == files[k]);
        }
        if find_note(files, id) is None {
            assert forall|k: int|
                0 <= k < files.len() implies !((#[trigger] file_note(files[k])) matches Some(nv)
                && nv.id == id) by {
                if k > 0 {
                    assert(files.drop_first()[k - 1] == files[k]);
                }
            }
        } else {
        }
    }
}

/// Everything listed comes from a file that decodes: a malformed file
/// contributes nothing to a listing or a search.
pub proof fn lemma_listed_from_file(files: Seq<NoteFile>, nv: NoteView)
    requires
        decoded_notes(files).contains(nv),
    ensures
        exists|k: int| 0 <= k < files.len() && file_note(files[k]) == Some(nv),
    decreases files.len(),
{
    if files.len() == 0 {
    } else {
        match file_note(files[0]) {
            Some(head) => {
                if head == nv {
                    assert(0 <= 0 < files.len() && file_note(files[0]) == Some(nv));
                } else {
                    assert(decoded_notes(files)[0] == head);
                    let i = choose|i: int|
                        0 <= i < decoded_notes(files).len() && decoded_notes(files)[i] == nv;
                    assert(decoded_notes(files.drop_first())[i - 1] == nv);
                    lemma_listed_from_file(files.drop_first(), nv);
                    let k = choose|k: int|
                        0 <= k < files.drop_first().len() && file_note(files.drop_first()[k])
                            == Some(nv);
                    assert(files.drop_first()[k] == files[k + 1]);
                    assert(file_note(files[k + 1]) == Some(nv));
                }
            },
            None => {
                lemma_listed_from_file(files.drop_first(), nv);
                let k = choose|k: int|
                    0 <= k < files.drop_first().len() && file_note(files.drop_first()[k]) == Some(
                        nv,
                    );
                assert(files.drop_first()[k] == files[k + 1]);
                assert(file_note(files[k + 1]) == Some(nv));
            },
        }
    }
}

/// Search misses nothing: every note the snapshot holds that satisfies the
/// search predicate is among the results.
pub proof fn lemma_search_complete(
    files: Seq<NoteFile>,
    q: Seq<char>,
    results: Seq<NoteView>,
    nv: NoteView,
)
    requires
        results.to_multiset() == matching_notes(files, q).to_multiset(),
        decoded_notes(files).contains(nv),
        note_matches(nv, q),
    ensures
        results.contains(nv),
{
    broadcast use vstd::seq_lib::group_to_multiset_ensures;

    let all = decoded_notes(files);
    let i = choose|i: int| 0 <= i < all.len() && all[i] == nv;
    all.lemma_filter_contains(|m: NoteView| note_matches(m, q), i);
    assert(matching_notes(files, q).contains(nv));
    assert(matching_notes(files, q).to_multiset().contains(nv));
    assert(results.to_multiset().contains(nv));
}

} // verus!
