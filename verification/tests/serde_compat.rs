//! Cross-checks against serde_json: what this crate writes is valid JSON
//! with the expected structure, and what serde_json writes for the same
//! data parses back here.

use note_store::Note;
use note_store::parse_notes;
use note_store::serialize_notes;

fn note(id: &str, content: &str) -> Note {
    Note { id: id.to_string(), content: content.to_string() }
}

#[test]
fn output_is_valid_json_with_expected_structure() {
    let notes = vec![note("a1", "buy milk"), note("b2", "say \"hi\"\nline two")];
    let s = serialize_notes(&notes);
    let v: serde_json::Value = serde_json::from_str(&s).unwrap();
    let arr = v.as_array().unwrap();
    assert_eq!(arr.len(), 2);
    assert_eq!(arr[0].get("id").unwrap().as_str().unwrap(), "a1");
    assert_eq!(arr[0].get("content").unwrap().as_str().unwrap(), "buy milk");
    assert_eq!(arr[1].get("id").unwrap().as_str().unwrap(), "b2");
    assert_eq!(arr[1].get("content").unwrap().as_str().unwrap(), "say \"hi\"\nline two");
    assert_eq!(arr[0].as_object().unwrap().len(), 2);
}

#[test]
fn control_characters_survive_a_serde_json_read() {
    let notes = vec![note("c", "a\u{1}b\u{1f}c\nd")];
    let s = serialize_notes(&notes);
    let v: serde_json::Value = serde_json::from_str(&s).unwrap();
    let arr = v.as_array().unwrap();
    assert_eq!(arr[0].get("content").unwrap().as_str().unwrap(), "a\u{1}b\u{1f}c\nd");
}

#[test]
fn serde_json_output_parses_back_here() {
    let mut obj = serde_json::Map::new();
    obj.insert("id".to_string(), serde_json::Value::String("x9".to_string()));
    obj.insert(
        "content".to_string(),
        serde_json::Value::String("tabs\there \"quoted\" \\ done".to_string()),
    );
    let doc = serde_json::Value::Array(vec![serde_json::Value::Object(obj)]);
    let text = serde_json::to_string(&doc).unwrap();
    let back = parse_notes(&text).unwrap();
    assert_eq!(back, vec![note("x9", "tabs\there \"quoted\" \\ done")]);
}

#[test]
fn serde_json_pretty_output_parses_back_here() {
    let mut obj = serde_json::Map::new();
    obj.insert("id".to_string(), serde_json::Value::String("p".to_string()));
    obj.insert("content".to_string(), serde_json::Value::String("pretty".to_string()));
    let doc = serde_json::Value::Array(vec![serde_json::Value::Object(obj)]);
    let text = serde_json::to_string_pretty(&doc).unwrap();
    let back = parse_notes(&text).unwrap();
    assert_eq!(back, vec![note("p", "pretty")]);
}
