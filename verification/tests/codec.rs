//! Tests of the serializer and parser through the public interface.

use note_store::Note;
use note_store::StoreError;
use note_store::parse_notes;
use note_store::serialize_notes;

fn note(id: &str, content: &str) -> Note {
    Note { id: id.to_string(), content: content.to_string() }
}

#[test]
fn serializes_single_note_exactly() {
    let notes = vec![note("1", "hello")];
    let s = serialize_notes(&notes);
    assert_eq!(s, "[{\"id\":\"1\",\"content\":\"hello\"}]");
}

#[test]
fn serializes_empty_collection_exactly() {
    let notes: Vec<Note> = Vec::new();
    let s = serialize_notes(&notes);
    assert_eq!(s, "[]");
}

#[test]
fn serializes_two_notes_exactly() {
    let notes = vec![note("a1", "buy milk"), note("b2", "call mom")];
    let s = serialize_notes(&notes);
    assert_eq!(s, "[{\"id\":\"a1\",\"content\":\"buy milk\"},{\"id\":\"b2\",\"content\":\"call mom\"}]");
}

#[test]
fn round_trip_single_note() {
    let notes = vec![note("1", "hello")];
    let s = serialize_notes(&notes);
    let back = parse_notes(&s).unwrap();
    assert_eq!(back, notes);
}

#[test]
fn round_trip_empty_collection() {
    let notes: Vec<Note> = Vec::new();
    let s = serialize_notes(&notes);
    let back = parse_notes(&s).unwrap();
    assert_eq!(back, notes);
}

#[test]
fn round_trip_preserves_order_and_duplicates() {
    let notes = vec![note("z", "last"), note("a", "first"), note("z", "again")];
    let s = serialize_notes(&notes);
    let back = parse_notes(&s).unwrap();
    assert_eq!(back, notes);
}

#[test]
fn round_trip_quotes_and_backslashes() {
    let notes = vec![note("q", "say \"hi\" \\ bye \\\\ end")];
    let s = serialize_notes(&notes);
    let back = parse_notes(&s).unwrap();
    assert_eq!(back, notes);
}

#[test]
fn round_trip_control_characters() {
    let notes = vec![note("c", "line\nbreak\ttab\rret \u{1} \u{8} \u{c} \u{1f} end")];
    let s = serialize_notes(&notes);
    let back = parse_notes(&s).unwrap();
    assert_eq!(back, notes);
}

#[test]
fn round_trip_non_ascii_text() {
    let notes = vec![note("u", "déjà vu — 手紙 🙂")];
    let s = serialize_notes(&notes);
    let back = parse_notes(&s).unwrap();
    assert_eq!(back, notes);
}

#[test]
fn round_trip_empty_fields() {
    let notes = vec![note("", "")];
    let s = serialize_notes(&notes);
    assert_eq!(s, "[{\"id\":\"\",\"content\":\"\"}]");
    let back = parse_notes(&s).unwrap();
    assert_eq!(back, notes);
}

#[test]
fn control_characters_are_escaped_in_output() {
    let notes = vec![note("c", "a\nb\u{1}c")];
    let s = serialize_notes(&notes);
    assert_eq!(s, "[{\"id\":\"c\",\"content\":\"a\\u000ab\\u0001c\"}]");
}

#[test]
fn parses_whitespace_between_tokens() {
    let text = " [ {\n\t\"id\" : \"1\" ,\r \"content\" : \"hello\" } ] ";
    let back = parse_notes(text).unwrap();
    assert_eq!(back, vec![note("1", "hello")]);
}

#[test]
fn parses_fields_in_either_order() {
    let text = "[{\"content\":\"hello\",\"id\":\"1\"}]";
    let back = parse_notes(text).unwrap();
    assert_eq!(back, vec![note("1", "hello")]);
}

#[test]
fn parses_standard_escapes() {
    let text = "[{\"id\":\"e\",\"content\":\"a\\n\\t\\r\\b\\f\\/\\\\\\\" z\"}]";
    let back = parse_notes(text).unwrap();
    assert_eq!(back, vec![note("e", "a\n\t\r\u{8}\u{c}/\\\" z")]);
}

#[test]
fn parses_unicode_escapes() {
    let text = "[{\"id\":\"u\",\"content\":\"\\u0041\\u00e9\\u4F60\"}]";
    let back = parse_notes(text).unwrap();
    assert_eq!(back, vec![note("u", "Aé你")]);
}

#[test]
fn rejects_plain_text() {
    let r = parse_notes("not json");
    assert_eq!(r.unwrap_err(), StoreError::Deserialization);
}

#[test]
fn rejects_truncated_object() {
    let r = parse_notes("{bad");
    assert_eq!(r.unwrap_err(), StoreError::Deserialization);
}

#[test]
fn rejects_empty_string() {
    let r = parse_notes("");
    assert_eq!(r.unwrap_err(), StoreError::Deserialization);
}

#[test]
fn rejects_truncated_array() {
    let r = parse_notes("[{\"id\":\"1\",\"content\":\"hello\"}");
    assert_eq!(r.unwrap_err(), StoreError::Deserialization);
}

#[test]
fn rejects_trailing_garbage() {
    let r = parse_notes("[] x");
    assert_eq!(r.unwrap_err(), StoreError::Deserialization);
}

#[test]
fn rejects_unknown_field() {
    let r = parse_notes("[{\"id\":\"1\",\"title\":\"hello\"}]");
    assert_eq!(r.unwrap_err(), StoreError::Deserialization);
}

#[test]
fn rejects_repeated_field() {
    let r = parse_notes("[{\"id\":\"1\",\"id\":\"2\"}]");
    assert_eq!(r.unwrap_err(), StoreError::Deserialization);
}

#[test]
fn rejects_non_string_value() {
    let r = parse_notes("[{\"id\":1,\"content\":\"hello\"}]");
    assert_eq!(r.unwrap_err(), StoreError::Deserialization);
}

#[test]
fn rejects_unterminated_string() {
    let r = parse_notes("[{\"id\":\"1\",\"content\":\"oops}]");
    assert_eq!(r.unwrap_err(), StoreError::Deserialization);
}

#[test]
fn rejects_bad_escape() {
    let r = parse_notes("[{\"id\":\"1\",\"content\":\"a\\x\"}]");
    assert_eq!(r.unwrap_err(), StoreError::Deserialization);
}

#[test]
fn rejects_surrogate_escape() {
    let r = parse_notes("[{\"id\":\"1\",\"content\":\"\\uD800\"}]");
    assert_eq!(r.unwrap_err(), StoreError::Deserialization);
}

#[test]
fn rejects_raw_control_character() {
    let r = parse_notes("[{\"id\":\"1\",\"content\":\"a\u{1}b\"}]");
    assert_eq!(r.unwrap_err(), StoreError::Deserialization);
}
