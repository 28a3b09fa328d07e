//! The store core: what loading means for any state of the storage
//! location, deterministic path resolution from the environment-mode flag,
//! and a model of the atomic replace-on-write save protocol with its
//! guarantees.
//!
//! The filesystem calls themselves (reading the file, writing the sibling
//! temporary file, the rename, reading the mode flag) live with the caller;
//! everything the caller must decide is computed and proved here.

use vstd::prelude::*;
use vstd::string::StringExecFns;
use crate::laws::lemma_round_trip;
use crate::notes::Note;
use crate::notes::SpecNote;
use crate::notes::StoreError;
use crate::notes::note_views;
use crate::parse::parse_notes;
use crate::parse::spec_parse;
use crate::ser::spec_serialize;

verus! {

/// What loading resolves to for a given state of the storage location:
/// an absent file and an empty file both stand for the empty collection
/// ("never saved yet" is not an error); anything else must parse.
pub open spec fn spec_load(content: Option<Seq<char>>) -> Option<Seq<SpecNote>> {
    match content {
        None => Some(Seq::empty()),
        Some(s) => if s.len() == 0 {
            Some(Seq::empty())
        } else {
            spec_parse(s)
        },
    }
}

/// The view of the optional file content handed in by the caller.
pub open spec fn content_view(content: Option<&str>) -> Option<Seq<char>> {
    match content {
        None => None,
        Some(s) => Some(s@),
    }
}

/// Turns what was found at the storage location into a collection of notes:
/// `None` stands for "no file exists there".  Absence and emptiness load as
/// the empty collection; content that does not conform to the persisted
/// format is reported as corruption, never silently discarded.
pub fn load_from_content(content: Option<&str>) -> (r: Result<Vec<Note>, StoreError>)
    ensures
        match r {
            Ok(ns) => spec_load(content_view(content)) == Some(note_views(ns@)),
            Err(e) => spec_load(content_view(content)) is None && e
                == StoreError::Deserialization,
        },
{
    match content {
        None => {
            let out: Vec<Note> = Vec::new();
            proof {
                assert(note_views(out@) =~= Seq::<SpecNote>::empty());
            }
            Ok(out)
        },
        Some(s) => {
            if s.unicode_len() == 0 {
                let out: Vec<Note> = Vec::new();
                proof {
                    assert(note_views(out@) =~= Seq::<SpecNote>::empty());
                }
                Ok(out)
            } else {
                parse_notes(s)
            }
        },
    }
}

/// The storage path used in development mode, kept outside the directories
/// a build-watch tool monitors.
pub open spec fn spec_dev_path() -> Seq<char> {
    "./notes-dev.json"@
}

/// The storage path used in production mode.
pub open spec fn spec_prod_path() -> Seq<char> {
    "notes.json"@
}

/// Resolves the storage path from the environment-mode flag.  A pure
/// function: the caller reads the flag once and passes it in.
pub fn resolve_path(dev_mode: bool) -> (r: String)
    ensures
        r@ == if dev_mode {
            spec_dev_path()
        } else {
            spec_prod_path()
        },
{
    if dev_mode {
        String::from_str("./notes-dev.json")
    } else {
        String::from_str("notes.json")
    }
}

/// Path isolation: the development path and the production path never
/// collide.
pub proof fn lemma_path_isolation()
    ensures
        spec_dev_path() != spec_prod_path(),
{
    reveal_strlit("./notes-dev.json");
    reveal_strlit("notes.json");
    assert(spec_dev_path().len() != spec_prod_path().len());
}

/// The storage directory as the save protocol sees it: the target file and
/// its sibling temporary file, each either absent or holding full textual
/// content.  Writes of whole files and the rename are the only steps, so a
/// reader of the target never observes a partial mix.
pub ghost struct DiskState {
    pub target: Option<Seq<char>>,
    pub temp: Option<Seq<char>>,
}

/// Step one of a save: write the complete new content to the temporary
/// file.  The target is untouched.
pub open spec fn write_temp(d: DiskState, content: Seq<char>) -> DiskState {
    DiskState { target: d.target, temp: Some(content) }
}

/// Step two of a save: atomically rename the temporary file over the
/// target.  After this step the old target content is never observable
/// again.
pub open spec fn commit_rename(d: DiskState) -> DiskState
    recommends
        d.temp is Some,
{
    DiskState { target: d.temp, temp: None }
}

/// A whole save of a collection: serialize, write the temporary file,
/// rename it over the target.
pub open spec fn save_to(d: DiskState, notes: Seq<SpecNote>) -> DiskState {
    commit_rename(write_temp(d, spec_serialize(notes)))
}

/// Atomicity under interruption: a save that stops after writing the
/// temporary file but before the rename leaves the target's content exactly
/// as it was.
pub proof fn lemma_interrupted_save_preserves_target(d: DiskState, notes: Seq<SpecNote>)
    ensures
        write_temp(d, spec_serialize(notes)).target == d.target,
{
}

/// After the rename, the target holds exactly the new serialized content,
/// whatever it held before.
pub proof fn lemma_commit_replaces(d: DiskState, notes: Seq<SpecNote>)
    ensures
        save_to(d, notes).target == Some(spec_serialize(notes)),
{
}

/// Round trip through the disk: loading what a completed save left behind
/// yields the saved collection, order preserved.
pub proof fn lemma_save_then_load(d: DiskState, notes: Seq<SpecNote>)
    ensures
        spec_load(save_to(d, notes).target) == Some(notes),
{
    lemma_round_trip(notes);
    assert(spec_serialize(notes).len() > 0);
}

/// Idempotence: saving the same collection twice in a row leaves the same
/// target as saving it once, and loading after either save yields that
/// collection.
pub proof fn lemma_save_idempotent(d: DiskState, notes: Seq<SpecNote>)
    ensures
        save_to(save_to(d, notes), notes).target == save_to(d, notes).target,
        spec_load(save_to(save_to(d, notes), notes).target) == Some(notes),
        spec_load(save_to(d, notes).target) == Some(notes),
{
    lemma_save_then_load(d, notes);
    lemma_save_then_load(save_to(d, notes), notes);
}

/// Absence tolerance: if nothing was ever saved at the resolved location,
/// loading yields the empty collection, not an error.
pub proof fn lemma_load_absent()
    ensures
        spec_load(None) == Some(Seq::<SpecNote>::empty()),
{
}

} // verus!
