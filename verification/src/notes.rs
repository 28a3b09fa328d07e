//! The data model: a note, the mathematical view of a note, and the closed
//! set of errors a store operation can report.

use vstd::prelude::*;

verus! {

/// One user-authored record.  The `id` is an opaque identifier assigned by
/// the caller (duplicates are permitted and preserved); `content` is
/// arbitrary text that the store never interprets.
#[derive(Clone, Debug, PartialEq, Eq)]
pub struct Note {
    pub id: String,
    pub content: String,
}

/// The mathematical view of a [`Note`]: both fields as character sequences.
#[verifier::ext_equal]
pub ghost struct SpecNote {
    pub id: Seq<char>,
    pub content: Seq<char>,
}

impl View for Note {
    type V = SpecNote;

    open spec fn view(&self) -> SpecNote {
        SpecNote { id: self.id@, content: self.content@ }
    }
}

impl Note {
    /// Builds a note from its two fields.
    pub fn new(id: String, content: String) -> (r: Note)
        ensures
            r@ == (SpecNote { id: id@, content: content@ }),
    {
        Note { id, content }
    }
}

/// The views of a sequence of notes, in order.
pub open spec fn note_views(notes: Seq<Note>) -> Seq<SpecNote> {
    notes.map_values(|n: Note| n@)
}

/// What a store operation can report, one kind per failure class: the
/// filesystem failed (with the underlying cause as text), the collection
/// could not be rendered (unreachable for well-formed notes, kept so the
/// taxonomy is closed), or the on-disk content exists but does not parse.
#[derive(Clone, Debug, PartialEq, Eq)]
pub enum StoreError {
    Io(String),
    Serialization,
    Deserialization,
}

} // verus!
