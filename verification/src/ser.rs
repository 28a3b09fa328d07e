//! The serializer: the exact character sequence that a collection of notes
//! is persisted as, and the executable function that produces it.
//!
//! The persisted form is a JSON array of objects with the two string fields
//! `id` and `content`, in collection order, with no insignificant
//! whitespace.  String content is escaped minimally: `"` and `\` with a
//! backslash, control characters as `\u00XX`, everything else verbatim.

use vstd::prelude::*;
use vstd::string::StringExecFns;
use crate::chars::hex_char;
use crate::chars::hex_char_of;
use crate::chars::push_char;
use crate::chars::str_to_chars;
use crate::notes::Note;
use crate::notes::SpecNote;
use crate::notes::note_views;

verus! {

/// The escaped form of one character inside a JSON string literal.
pub open spec fn escape_char(c: char) -> Seq<char> {
    if c == '"' {
        seq!['\\', '"']
    } else if c == '\\' {
        seq!['\\', '\\']
    } else if (c as u32) < 0x20 {
        seq!['\\', 'u', '0', '0', hex_char(c as u32 / 16), hex_char(c as u32 % 16)]
    } else {
        seq![c]
    }
}

/// The escaped form of a whole string body.
pub open spec fn escape_string(s: Seq<char>) -> Seq<char>
    decreases s.len(),
{
    if s.len() == 0 {
        Seq::empty()
    } else {
        escape_char(s[0]) + escape_string(s.drop_first())
    }
}

/// A JSON string literal: the escaped body between double quotes.
pub open spec fn quoted(s: Seq<char>) -> Seq<char> {
    seq!['"'] + escape_string(s) + seq!['"']
}

/// The serialized form of one note.
pub open spec fn ser_note(n: SpecNote) -> Seq<char> {
    "{\"id\":"@ + quoted(n.id) + ",\"content\":"@ + quoted(n.content) + "}"@
}

/// The serialized forms of the notes, joined with commas.
pub open spec fn ser_items(notes: Seq<SpecNote>) -> Seq<char>
    decreases notes.len(),
{
    if notes.len() == 0 {
        Seq::empty()
    } else if notes.len() == 1 {
        ser_note(notes[0])
    } else {
        ser_note(notes[0]) + seq![','] + ser_items(notes.drop_first())
    }
}

/// The full serialized form of a collection: the joined items between
/// square brackets.
pub open spec fn spec_serialize(notes: Seq<SpecNote>) -> Seq<char> {
    seq!['['] + ser_items(notes) + seq![']']
}

/// Escaping distributes over appending one character at the end.
pub proof fn lemma_escape_push(s: Seq<char>, c: char)
    ensures
        escape_string(s.push(c)) == escape_string(s) + escape_char(c),
    decreases s.len(),
{
    if s.len() == 0 {
        assert(s.push(c)[0] == c);
        assert(s.push(c).drop_first() =~= Seq::<char>::empty());
        assert(escape_string(s.push(c)) == escape_char(c) + escape_string(Seq::<char>::empty()));
        assert(escape_string(Seq::<char>::empty()) == Seq::<char>::empty());
        assert(escape_char(c) + Seq::<char>::empty() =~= escape_char(c));
        assert(escape_string(s) + escape_char(c) =~= escape_char(c));
        assert(escape_string(s.push(c)) == escape_string(s) + escape_char(c));
    } else {
        lemma_escape_push(s.drop_first(), c);
        assert(s.push(c).drop_first() =~= s.drop_first().push(c));
        assert(s.push(c)[0] == s[0]);
        assert(escape_string(s.push(c)) == escape_char(s[0]) + escape_string(
            s.drop_first().push(c),
        ));
        assert(escape_string(s.drop_first().push(c)) == escape_string(s.drop_first()) + escape_char(
            c,
        ));
        assert(escape_char(s[0]) + (escape_string(s.drop_first()) + escape_char(c)) =~= (escape_char(
            s[0],
        ) + escape_string(s.drop_first())) + escape_char(c));
        assert(escape_string(s) == escape_char(s[0]) + escape_string(s.drop_first()));
        assert(escape_string(s.push(c)) == escape_string(s) + escape_char(c));
    }
}

/// Joining distributes over appending one note at the end.
pub proof fn lemma_ser_items_push(notes: Seq<SpecNote>, n: SpecNote)
    ensures
        ser_items(notes.push(n)) == if notes.len() == 0 {
            ser_note(n)
        } else {
            ser_items(notes) + seq![','] + ser_note(n)
        },
    decreases notes.len(),
{
    if notes.len() == 0 {
        assert(notes.push(n)[0] == n);
        assert(notes.push(n).len() == 1);
    } else {
        lemma_ser_items_push(notes.drop_first(), n);
        assert(notes.push(n).drop_first() =~= notes.drop_first().push(n));
        assert(notes.push(n)[0] == notes[0]);
        if notes.len() == 1 {
            assert(ser_items(notes.push(n)) == ser_note(notes[0]) + seq![','] + ser_items(
                notes.drop_first().push(n),
            ));
            assert(ser_items(notes.drop_first().push(n)) == ser_note(n));
            assert(ser_items(notes) == ser_note(notes[0]));
        } else {
            assert(ser_items(notes.push(n)) == ser_note(notes[0]) + seq![','] + ser_items(
                notes.drop_first().push(n),
            ));
            assert(ser_items(notes.drop_first().push(n)) == ser_items(notes.drop_first())
                + seq![','] + ser_note(n));
            assert(ser_note(notes[0]) + seq![','] + (ser_items(notes.drop_first()) + seq![',']
                + ser_note(n)) =~= (ser_note(notes[0]) + seq![','] + ser_items(notes.drop_first()))
                + seq![','] + ser_note(n));
            assert(ser_items(notes) == ser_note(notes[0]) + seq![','] + ser_items(
                notes.drop_first(),
            ));
        }
    }
}

/// Appends the escaped body of `s` to `out`.
fn emit_escaped(out: &mut String, s: &str)
    ensures
        final(out)@ == old(out)@ + escape_string(s@),
{
    let ghost out0: Seq<char> = out@;
    let cs = str_to_chars(s);
    let mut i: usize = 0;
    assert(out0 + escape_string(s@.subrange(0, 0)) =~= out0);
    while i < cs.len()
        invariant
            i <= cs@.len(),
            cs@ == s@,
            out@ == out0 + escape_string(s@.subrange(0, i as int)),
        decreases cs@.len() - i,
    {
        let c = cs[i];
        let ghost prefix = s@.subrange(0, i as int);
        if c == '"' {
            push_char(out, '\\');
            push_char(out, '"');
        } else if c == '\\' {
            push_char(out, '\\');
            push_char(out, '\\');
        } else if (c as u32) < 0x20 {
            let u = c as u32;
            push_char(out, '\\');
            push_char(out, 'u');
            push_char(out, '0');
            push_char(out, '0');
            push_char(out, hex_char_of(u / 16));
            push_char(out, hex_char_of(u % 16));
        } else {
            push_char(out, c);
        }
        proof {
            lemma_escape_push(prefix, c);
            assert(s@.subrange(0, i as int + 1) =~= prefix.push(c));
            assert(out@ =~= out0 + escape_string(s@.subrange(0, i as int + 1)));
        }
        i = i + 1;
    }
    assert(s@.subrange(0, s@.len() as int) =~= s@);
}

/// Appends the serialized form of one note to `out`.
fn emit_note(out: &mut String, n: &Note)
    ensures
        final(out)@ == old(out)@ + ser_note(n@),
{
    let ghost out0: Seq<char> = out@;
    out.append("{\"id\":");
    push_char(out, '"');
    emit_escaped(out, n.id.as_str());
    push_char(out, '"');
    out.append(",\"content\":");
    push_char(out, '"');
    emit_escaped(out, n.content.as_str());
    push_char(out, '"');
    out.append("}");
    proof {
        assert(out@ =~= out0 + ser_note(n@));
    }
}

/// Serializes a collection of notes to its persisted textual form.
pub fn serialize_notes(notes: &Vec<Note>) -> (r: String)
    ensures
        r@ == spec_serialize(note_views(notes@)),
{
    let mut out = String::new();
    push_char(&mut out, '[');
    let mut i: usize = 0;
    assert(out@ =~= seq!['['] + ser_items(note_views(notes@).subrange(0, 0)));
    while i < notes.len()
        invariant
            i <= notes@.len(),
            out@ == seq!['['] + ser_items(note_views(notes@).subrange(0, i as int)),
        decreases notes@.len() - i,
    {
        let ghost prefix = note_views(notes@).subrange(0, i as int);
        if i > 0 {
            push_char(&mut out, ',');
        }
        emit_note(&mut out, &notes[i]);
        proof {
            lemma_ser_items_push(prefix, notes@[i as int]@);
            assert(note_views(notes@).subrange(0, i as int + 1) =~= prefix.push(
                notes@[i as int]@,
            ));
            assert(out@ =~= seq!['['] + ser_items(note_views(notes@).subrange(0, i as int + 1)));
        }
        i = i + 1;
    }
    push_char(&mut out, ']');
    proof {
        assert(note_views(notes@).subrange(0, notes@.len() as int) =~= note_views(notes@));
        assert(out@ =~= spec_serialize(note_views(notes@)));
    }
    out
}

} // verus!
