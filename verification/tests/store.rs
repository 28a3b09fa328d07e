//! Tests of loading semantics, path resolution, and save idempotence
//! through the public interface.

use note_store::Note;
use note_store::StoreError;
use note_store::load_from_content;
use note_store::resolve_path;
use note_store::serialize_notes;

fn note(id: &str, content: &str) -> Note {
    Note { id: id.to_string(), content: content.to_string() }
}

#[test]
fn absent_file_loads_as_empty_collection() {
    let r = load_from_content(None).unwrap();
    assert_eq!(r, Vec::<Note>::new());
}

#[test]
fn empty_file_loads_as_empty_collection() {
    let r = load_from_content(Some("")).unwrap();
    assert_eq!(r, Vec::<Note>::new());
}

#[test]
fn saved_content_loads_back() {
    let notes = vec![note("1", "hello")];
    let s = serialize_notes(&notes);
    let back = load_from_content(Some(&s)).unwrap();
    assert_eq!(back, notes);
}

#[test]
fn corrupt_content_is_reported_not_discarded() {
    let r = load_from_content(Some("not json"));
    assert_eq!(r.unwrap_err(), StoreError::Deserialization);
    let r2 = load_from_content(Some("{bad"));
    assert_eq!(r2.unwrap_err(), StoreError::Deserialization);
}

#[test]
fn saving_twice_loads_the_same_collection_both_times() {
    let notes = vec![note("a", "one"), note("b", "two")];
    let first = serialize_notes(&notes);
    let second = serialize_notes(&notes);
    assert_eq!(first, second);
    assert_eq!(load_from_content(Some(&first)).unwrap(), notes);
    assert_eq!(load_from_content(Some(&second)).unwrap(), notes);
}

#[test]
fn dev_and_prod_paths_are_distinct() {
    let dev = resolve_path(true);
    let prod = resolve_path(false);
    assert_eq!(dev, "./notes-dev.json");
    assert_eq!(prod, "notes.json");
    assert_ne!(dev, prod);
}

#[test]
fn error_kinds_are_distinguishable() {
    let io = StoreError::Io("disk full".to_string());
    assert!(matches!(io, StoreError::Io(_)));
    assert_ne!(io, StoreError::Deserialization);
    assert_ne!(StoreError::Serialization, StoreError::Deserialization);
}
