//! The note record and its patch operations.

use vstd::prelude::*;
use crate::ids::{uuid_generate, uuid_format, uuid_str_of};
use crate::time::Timestamp;

verus! {

/// The persisted unit: an immutable id, free-text title and body, creation
/// and last-update instants, and the file path (relative to the storage
/// root) that acts as the note's physical identity.
pub struct Note {
    pub id: u128,
    pub title: String,
    pub content: String,
    pub created_at: Timestamp,
    pub updated_at: Timestamp,
    pub path: String,
}

/// The mathematical image of a note: every text field as a character
/// sequence.
pub struct NoteView {
    pub id: u128,
    pub title: Seq<char>,
    pub content: Seq<char>,
    pub created_at: Timestamp,
    pub updated_at: Timestamp,
    pub path: Seq<char>,
}

impl View for Note {
    type V = NoteView;

    open spec fn view(&self) -> NoteView {
        NoteView {
            id: self.id,
            title: self.title@,
            content: self.content@,
            created_at: self.created_at,
            updated_at: self.updated_at,
            path: self.path@,
        }
    }
}

impl Note {
    /// Both instants lie in the range the text form covers.
    pub open spec fn valid(self) -> bool {
        self.created_at.valid() && self.updated_at.valid()
    }

    pub fn clone_note(&self) -> (r: Note)
        ensures
            r@ == self@,
    {
        Note {
            id: self.id,
            title: self.title.clone(),
            content: self.content.clone(),
            created_at: self.created_at,
            updated_at: self.updated_at,
            path: self.path.clone(),
        }
    }

    /// A fresh note: a newly drawn id, both instants set to the current
    /// time, and the path defaulted to `<id>.md` when none is supplied.
    pub fn new(title: String, content: String, path: Option<String>) -> (r: Note)
        ensures
            r.title == title,
            r.content == content,
            r.created_at == r.updated_at,
            r.valid(),
            path matches Some(p) ==> r.path == p,
            path is None ==> r.path@ == uuid_str_of(r.id) + ".md"@,
    {
        let id = uuid_generate();
        let now = Timestamp::now();
        let path: String = match path {
            Some(p) => p,
            None => uuid_format(id).concat(".md"),
        };
        Note { id, title, content, created_at: now, updated_at: now, path }
    }

    /// Applies a patch at the given instant: title and content are replaced
    /// only where supplied, the update instant is refreshed, and the id,
    /// creation instant and path never move.
    pub fn update_at(&mut self, title: Option<String>, content: Option<String>, now: Timestamp)
        requires
            now.valid(),
        ensures
            final(self).id == old(self).id,
            final(self).created_at == old(self).created_at,
            final(self).path == old(self).path,
            final(self).updated_at == now,
            title matches Some(t) ==> final(self).title == t,
            title is None ==> final(self).title == old(self).title,
            content matches Some(c) ==> final(self).content == c,
            content is None ==> final(self).content == old(self).content,
    {
        if let Some(new_title) = title {
            self.title = new_title;
        }
        if let Some(new_content) = content {
            self.content = new_content;
        }
        self.updated_at = now;
    }

    /// Applies a patch at the current time.
    pub fn update(&mut self, title: Option<String>, content: Option<String>)
        ensures
            final(self).id == old(self).id,
            final(self).created_at == old(self).created_at,
            final(self).path == old(self).path,
            final(self).updated_at.valid(),
            title matches Some(t) ==> final(self).title == t,
            title is None ==> final(self).title == old(self).title,
            content matches Some(c) ==> final(self).content == c,
            content is None ==> final(self).content == old(self).content,
    {
        let now = Timestamp::now();
        self.update_at(title, content, now);
    }
}

/// A note's identity survives any chain of patches: each patch keeps the
/// id, the creation instant and the path (as `update_at` ensures), so after
/// arbitrarily many patches all three still equal the values the note was
/// created with, while the update instant is simply that of the last patch.
pub proof fn lemma_patch_chain_keeps_identity(first: NoteView, mid: NoteView, last: NoteView)
    requires
        mid.id == first.id,
        mid.created_at == first.created_at,
        mid.path == first.path,
        last.id == mid.id,
        last.created_at == mid.created_at,
        last.path == mid.path,
    ensures
        last.id == first.id,
        last.created_at == first.created_at,
        last.path == first.path,
{
}

/// Body of a request to create a note.
pub struct CreateNoteRequest {
    pub title: String,
    pub content: String,
    pub path: Option<String>,
}

/// Body of a request to patch a note: each field stands alone, and an absent
/// field leaves the stored value untouched.
pub struct UpdateNoteRequest {
    pub title: Option<String>,
    pub content: Option<String>,
}

} // verus!
