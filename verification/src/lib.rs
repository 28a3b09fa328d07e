//! A hardened persistence core for a note-taking application.
//!
//! Notes are kept as an ordered collection and persisted as a UTF-8 JSON
//! array of objects with two string fields, `id` and `content`.  The codec
//! (serializer and parser) is verified: serializing any collection and
//! parsing the result yields the original collection, order preserved, and
//! content that does not parse is reported as corruption rather than being
//! silently discarded.  The atomic replace-on-write protocol that keeps the
//! on-disk file from ever being observed half-written is modelled and proved
//! here as well; the filesystem calls themselves live with the caller.

pub mod chars;
pub mod laws;
pub mod notes;
pub mod parse;
pub mod ser;
pub mod store;

pub use notes::Note;
pub use notes::SpecNote;
pub use notes::StoreError;
pub use parse::parse_notes;
pub use ser::serialize_notes;
pub use store::load_from_content;
pub use store::resolve_path;
