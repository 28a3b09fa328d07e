//! The round-trip argument: parsing the serialized form of any collection
//! of notes gives back exactly that collection.
//!
//! The proof walks the grammar: an escaped string body parses back to the
//! original characters, a serialized note object parses back to the note,
//! a serialized item run parses back to the item sequence, and the whole
//! document parses back to the whole collection.

use vstd::prelude::*;
use crate::chars::hex_char;
use crate::chars::is_hex_digit;
use crate::chars::hex_val;
use crate::chars::lemma_hex_digit_round_trip;
use crate::chars::is_ws;
use crate::notes::SpecNote;
use crate::parse::matches_at;
use crate::parse::parse_items;
use crate::parse::parse_key;
use crate::parse::parse_object;
use crate::parse::parse_str_body;
use crate::parse::parse_string;
use crate::parse::skip_ws;
use crate::parse::spec_parse;
use crate::parse::unescape_simple;
use crate::ser::escape_char;
use crate::ser::escape_string;
use crate::ser::quoted;
use crate::ser::ser_items;
use crate::ser::ser_note;
use crate::ser::spec_serialize;

verus! {

/// An escaped string body followed by a closing quote parses back to the
/// original characters.
proof fn lemma_parse_escaped(t: Seq<char>, i: int, s: Seq<char>)
    requires
        0 <= i,
        i + escape_string(s).len() + 1 <= t.len(),
        t.subrange(i, i + escape_string(s).len()) == escape_string(s),
        t[i + escape_string(s).len()] == '"',
    ensures
        parse_str_body(t, i) == Some((s, i + escape_string(s).len() + 1)),
    decreases s.len(),
{
    let m = escape_string(s).len() as int;
    if s.len() == 0 {
        assert(m == 0);
        assert(t[i] == '"');
        assert(parse_str_body(t, i) == Some((Seq::<char>::empty(), i + 1)));
        assert(s =~= Seq::<char>::empty());
    } else {
        let c = s[0];
        let s2 = s.drop_first();
        let ec = escape_char(c);
        let el = ec.len() as int;
        let m2 = escape_string(s2).len() as int;
        assert(escape_string(s) == ec + escape_string(s2));
        assert(m == el + m2);
        // Every character of the region is the corresponding escaped character.
        assert forall|k: int| 0 <= k < m implies t[i + k] == escape_string(s)[k] by {
            assert(t.subrange(i, i + m)[k] == t[i + k]);
            assert(t.subrange(i, i + m)[k] == escape_string(s)[k]);
        }
        assert forall|k: int| 0 <= k < el implies t[i + k] == ec[k] by {
            assert(escape_string(s)[k] == ec[k]);
        }
        // The tail region holds the escaped tail, ready for the induction.
        let i2 = i + el;
        assert(t.subrange(i2, i2 + m2) =~= escape_string(s2)) by {
            assert forall|k: int| 0 <= k < m2 implies t.subrange(i2, i2 + m2)[k] == escape_string(
                s2,
            )[k] by {
                assert(t.subrange(i2, i2 + m2)[k] == t[i2 + k]);
                assert(t[i + (el + k)] == escape_string(s)[el + k]);
                assert(escape_string(s)[el + k] == escape_string(s2)[k]);
            }
        }
        assert(t[i2 + m2] == '"');
        lemma_parse_escaped(t, i2, s2);
        if c == '"' {
            assert(ec == seq!['\\', '"']);
            assert(ec[0] == '\\' && ec[1] == '"');
            assert(t[i + 0] == ec[0] && t[i + 1] == ec[1]);
            assert(t[i] == '\\' && t[i + 1] == '"');
            assert(unescape_simple('"') == '"');
            assert(parse_str_body(t, i) == Some((seq![c] + s2, i2 + m2 + 1)));
            assert(seq![c] + s2 =~= s);
        } else if c == '\\' {
            assert(ec == seq!['\\', '\\']);
            assert(ec[0] == '\\' && ec[1] == '\\');
            assert(t[i + 0] == ec[0] && t[i + 1] == ec[1]);
            assert(t[i] == '\\' && t[i + 1] == '\\');
            assert(unescape_simple('\\') == '\\');
            assert(parse_str_body(t, i) == Some((seq![c] + s2, i2 + m2 + 1)));
            assert(seq![c] + s2 =~= s);
        } else if (c as u32) < 0x20 {
            let u = c as u32;
            assert(ec == seq!['\\', 'u', '0', '0', hex_char(u / 16), hex_char(u % 16)]);
            assert(ec[0] == '\\' && ec[1] == 'u' && ec[2] == '0' && ec[3] == '0' && ec[4]
                == hex_char(u / 16) && ec[5] == hex_char(u % 16));
            assert(t[i + 0] == ec[0] && t[i + 1] == ec[1] && t[i + 2] == ec[2] && t[i + 3] == ec[3]
                && t[i + 4] == ec[4] && t[i + 5] == ec[5]);
            assert(t[i] == '\\' && t[i + 1] == 'u');
            assert(t[i + 2] == '0' && t[i + 3] == '0');
            assert(t[i + 4] == hex_char(u / 16) && t[i + 5] == hex_char(u % 16));
            assert(u / 16 < 16 && u % 16 < 16);
            lemma_hex_digit_round_trip(u / 16);
            lemma_hex_digit_round_trip(u % 16);
            assert(is_hex_digit('0') && hex_val('0') == 0);
            let val = hex_val(t[i + 2]) * 4096 + hex_val(t[i + 3]) * 256 + hex_val(t[i + 4]) * 16
                + hex_val(t[i + 5]);
            assert(val == (u / 16) * 16 + u % 16);
            assert(u == 16 * (u / 16) + u % 16) by {
                vstd::arithmetic::div_mod::lemma_fundamental_div_mod(u as int, 16);
            }
            assert(val == u);
            assert(!(0xD800 <= val <= 0xDFFF));
            assert(((val as u32) as char) == c) by {
                vstd::utf8::char_u32_cast(c, u);
            }
            assert(parse_str_body(t, i) == Some((seq![c] + s2, i2 + m2 + 1)));
            assert(seq![c] + s2 =~= s);
        } else {
            assert(ec == seq![c]);
            assert(ec[0] == c);
            assert(t[i + 0] == ec[0]);
            assert(t[i] == c);
            assert(parse_str_body(t, i) == Some((seq![c] + s2, i2 + m2 + 1)));
            assert(seq![c] + s2 =~= s);
        }
    }
}

/// A serialized string literal parses back to the original characters.
proof fn lemma_parse_quoted(t: Seq<char>, i: int, s: Seq<char>)
    requires
        0 <= i,
        i + quoted(s).len() <= t.len(),
        t.subrange(i, i + quoted(s).len()) == quoted(s),
    ensures
        parse_string(t, i) == Some((s, i + quoted(s).len())),
{
    let m = escape_string(s).len() as int;
    assert(quoted(s).len() == m + 2);
    assert forall|k: int| 0 <= k < m + 2 implies t[i + k] == quoted(s)[k] by {
        assert(t.subrange(i, i + m + 2)[k] == t[i + k]);
        assert(t.subrange(i, i + m + 2)[k] == quoted(s)[k]);
    }
    assert(quoted(s)[0] == '"');
    assert(t[i + 0] == quoted(s)[0]);
    assert(t[i] == '"');
    assert(t.subrange(i + 1, i + 1 + m) =~= escape_string(s)) by {
        assert forall|k: int| 0 <= k < m implies t.subrange(i + 1, i + 1 + m)[k] == escape_string(
            s,
        )[k] by {
            assert(t.subrange(i + 1, i + 1 + m)[k] == t[i + 1 + k]);
            assert(quoted(s)[1 + k] == escape_string(s)[k]);
        }
    }
    assert(t[i + 1 + m] == quoted(s)[1 + m]);
    assert(quoted(s)[1 + m] == '"');
    lemma_parse_escaped(t, i + 1, s);
}

/// A serialized note object parses back to the original note.
proof fn lemma_parse_object_of_ser(t: Seq<char>, i: int, n: SpecNote)
    requires
        0 <= i,
        i + ser_note(n).len() <= t.len(),
        t.subrange(i, i + ser_note(n).len()) == ser_note(n),
    ensures
        parse_object(t, i) == Some((n, i + ser_note(n).len())),
{
    reveal_strlit("{\"id\":");
    reveal_strlit(",\"content\":");
    reveal_strlit("}");
    reveal_strlit("\"id\"");
    reveal_strlit("\"content\"");
    let mi = escape_string(n.id).len() as int;
    let mc = escape_string(n.content).len() as int;
    let sn = ser_note(n);
    let ll = sn.len() as int;
    assert("{\"id\":"@.len() == 6);
    assert(",\"content\":"@.len() == 11);
    assert(ll == mi + mc + 22);
    assert forall|k: int| 0 <= k < ll implies t[i + k] == sn[k] by {
        assert(t.subrange(i, i + ll)[k] == t[i + k]);
        assert(t.subrange(i, i + ll)[k] == sn[k]);
    }
    // The leading brace and the id key.
    assert(sn[0] == '{');
    assert(sn[1] == '"' && sn[2] == 'i' && sn[3] == 'd' && sn[4] == '"' && sn[5] == ':');
    assert(t[i] == '{');
    assert(!is_ws(t[i + 1]));
    assert(skip_ws(t, i + 1) == i + 1);
    assert(matches_at(t, i + 1, "\"id\""@)) by {
        assert(t.subrange(i + 1, i + 5) =~= "\"id\""@) by {
            assert(t.subrange(i + 1, i + 5)[0] == t[i + 1]);
            assert(t.subrange(i + 1, i + 5)[1] == t[i + 2]);
            assert(t.subrange(i + 1, i + 5)[2] == t[i + 3]);
            assert(t.subrange(i + 1, i + 5)[3] == t[i + 4]);
        }
    }
    assert(parse_key(t, i + 1) == Some((true, i + 5)));
    // The colon and the id value.
    assert(t[i + 5] == ':' && !is_ws(t[i + 5]));
    assert(skip_ws(t, i + 5) == i + 5);
    assert(sn[6] == quoted(n.id)[0]);
    assert(quoted(n.id)[0] == '"');
    assert(t[i + 6] == '"' && !is_ws(t[i + 6]));
    assert(skip_ws(t, i + 6) == i + 6);
    assert(t.subrange(i + 6, i + 6 + (mi + 2)) =~= quoted(n.id)) by {
        assert forall|k: int| 0 <= k < mi + 2 implies t.subrange(i + 6, i + 6 + (mi + 2))[k]
            == quoted(n.id)[k] by {
            assert(t.subrange(i + 6, i + 6 + (mi + 2))[k] == t[i + 6 + k]);
            assert(sn[6 + k] == quoted(n.id)[k]);
        }
    }
    lemma_parse_quoted(t, i + 6, n.id);
    let p = i + mi + 8;
    assert(parse_string(t, i + 6) == Some((n.id, p)));
    // The comma and the content key.
    assert(sn[mi + 8] == ',' && sn[mi + 9] == '"' && sn[mi + 10] == 'c' && sn[mi + 11] == 'o' && sn[
        mi + 12
    ] == 'n' && sn[mi + 13] == 't' && sn[mi + 14] == 'e' && sn[mi + 15] == 'n' && sn[mi + 16] == 't'
        && sn[mi + 17] == '"' && sn[mi + 18] == ':');
    assert(t[p] == ',' && !is_ws(t[p]));
    assert(skip_ws(t, p) == p);
    assert(t[p + 1] == '"' && !is_ws(t[p + 1]));
    assert(skip_ws(t, p + 1) == p + 1);
    assert(!matches_at(t, p + 1, "\"id\""@)) by {
        if matches_at(t, p + 1, "\"id\""@) {
            assert(t.subrange(p + 1, p + 5)[1] == t[p + 2]);
        }
    }
    assert(matches_at(t, p + 1, "\"content\""@)) by {
        assert(t.subrange(p + 1, p + 10) =~= "\"content\""@) by {
            assert forall|k: int| 0 <= k < 9 implies t.subrange(p + 1, p + 10)[k] == "\"content\""@[k] by {
                assert(t.subrange(p + 1, p + 10)[k] == t[p + 1 + k]);
                assert(t[i + (mi + 9 + k)] == sn[mi + 9 + k]);
            }
        }
    }
    assert(parse_key(t, p + 1) == Some((false, p + 10)));
    // The colon and the content value.
    assert(t[p + 10] == ':' && !is_ws(t[p + 10]));
    assert(skip_ws(t, p + 10) == p + 10);
    assert(sn[mi + 19] == quoted(n.content)[0]);
    assert(quoted(n.content)[0] == '"');
    assert(t[p + 11] == '"' && !is_ws(t[p + 11]));
    assert(skip_ws(t, p + 11) == p + 11);
    assert(t.subrange(p + 11, p + 11 + (mc + 2)) =~= quoted(n.content)) by {
        assert forall|k: int| 0 <= k < mc + 2 implies t.subrange(p + 11, p + 11 + (mc + 2))[k]
            == quoted(n.content)[k] by {
            assert(t.subrange(p + 11, p + 11 + (mc + 2))[k] == t[p + 11 + k]);
            assert(sn[mi + 19 + k] == quoted(n.content)[k]);
        }
    }
    lemma_parse_quoted(t, p + 11, n.content);
    let q = p + mc + 13;
    assert(parse_string(t, p + 11) == Some((n.content, q)));
    // The closing brace.
    assert(sn[mi + mc + 21] == '}');
    assert(t[q] == '}' && !is_ws(t[q]));
    assert(skip_ws(t, q) == q);
    assert(q < t.len());
    assert(parse_object(t, i) == Some((SpecNote { id: n.id, content: n.content }, q + 1)));
    assert(SpecNote { id: n.id, content: n.content } =~= n);
    assert(q + 1 == i + ll);
}

/// A nonempty serialized item run parses back to the original notes.
proof fn lemma_parse_items_of_ser(t: Seq<char>, i: int, notes: Seq<SpecNote>)
    requires
        notes.len() >= 1,
        0 <= i,
        i + ser_items(notes).len() + 1 <= t.len(),
        t.subrange(i, i + ser_items(notes).len()) == ser_items(notes),
        t[i + ser_items(notes).len()] == ']',
    ensures
        parse_items(t, i) == Some((notes, i + ser_items(notes).len() + 1)),
    decreases notes.len(),
{
    reveal_strlit("{\"id\":");
    let si = ser_items(notes);
    let tl = si.len() as int;
    assert forall|k: int| 0 <= k < tl implies t[i + k] == si[k] by {
        assert(t.subrange(i, i + tl)[k] == t[i + k]);
        assert(t.subrange(i, i + tl)[k] == si[k]);
    }
    if notes.len() == 1 {
        assert(si == ser_note(notes[0]));
        lemma_parse_object_of_ser(t, i, notes[0]);
        assert(parse_object(t, i) == Some((notes[0], i + tl)));
        assert(t[i + tl] == ']' && !is_ws(t[i + tl]));
        assert(skip_ws(t, i + tl) == i + tl);
        assert(i + tl < t.len());
        assert(parse_items(t, i) == Some((seq![notes[0]], i + tl + 1)));
        assert(seq![notes[0]] =~= notes);
    } else {
        let rest = notes.drop_first();
        let l0 = ser_note(notes[0]).len() as int;
        let rl = ser_items(rest).len() as int;
        assert(si == ser_note(notes[0]) + seq![','] + ser_items(rest));
        assert(tl == l0 + 1 + rl);
        // The first object's region.
        assert(t.subrange(i, i + l0) =~= ser_note(notes[0])) by {
            assert forall|k: int| 0 <= k < l0 implies t.subrange(i, i + l0)[k] == ser_note(
                notes[0],
            )[k] by {
                assert(t.subrange(i, i + l0)[k] == t[i + k]);
                assert(si[k] == ser_note(notes[0])[k]);
            }
        }
        lemma_parse_object_of_ser(t, i, notes[0]);
        assert(parse_object(t, i) == Some((notes[0], i + l0)));
        // The comma after it.
        assert(si[l0] == ',');
        assert(t[i + l0] == ',' && !is_ws(t[i + l0]));
        assert(skip_ws(t, i + l0) == i + l0);
        assert(i + l0 < t.len());
        // The rest of the run begins with the next object's brace.
        assert(ser_items(rest)[0] == '{') by {
            if rest.len() == 1 {
                assert(ser_items(rest) == ser_note(rest[0]));
            } else {
                assert(ser_items(rest) == ser_note(rest[0]) + seq![','] + ser_items(
                    rest.drop_first(),
                ));
            }
            assert(ser_note(rest[0])[0] == '{');
        }
        assert(si[l0 + 1] == ser_items(rest)[0]);
        assert(t[i + l0 + 1] == '{' && !is_ws(t[i + l0 + 1]));
        assert(skip_ws(t, i + l0 + 1) == i + l0 + 1);
        let m = i + l0 + 1;
        assert(t.subrange(m, m + rl) =~= ser_items(rest)) by {
            assert forall|k: int| 0 <= k < rl implies t.subrange(m, m + rl)[k] == ser_items(
                rest,
            )[k] by {
                assert(t.subrange(m, m + rl)[k] == t[m + k]);
                assert(t[i + (l0 + 1 + k)] == si[l0 + 1 + k]);
                assert(si[l0 + 1 + k] == ser_items(rest)[k]);
            }
        }
        assert(t[m + rl] == ']');
        lemma_parse_items_of_ser(t, m, rest);
        assert(parse_items(t, m) == Some((rest, m + rl + 1)));
        assert(parse_items(t, i) == Some((seq![notes[0]] + rest, m + rl + 1)));
        assert(seq![notes[0]] + rest =~= notes);
        assert(m + rl + 1 == i + tl + 1);
    }
}

/// Round trip: parsing the serialized form of any collection of notes,
/// including the empty one, gives back exactly that collection, in order.
pub proof fn lemma_round_trip(notes: Seq<SpecNote>)
    ensures
        spec_parse(spec_serialize(notes)) == Some(notes),
{
    reveal_strlit("{\"id\":");
    let t = spec_serialize(notes);
    let si = ser_items(notes);
    let tl = si.len() as int;
    assert(t == seq!['['] + si + seq![']']);
    assert(t.len() == tl + 2);
    assert(t[0] == '[' && !is_ws(t[0]));
    assert(skip_ws(t, 0) == 0);
    if notes.len() == 0 {
        assert(tl == 0);
        assert(t[1] == ']' && !is_ws(t[1]));
        assert(skip_ws(t, 1) == 1);
        assert(skip_ws(t, 2) == 2);
        assert(spec_parse(t) == Some(Seq::<SpecNote>::empty()));
        assert(Seq::<SpecNote>::empty() =~= notes);
    } else {
        assert(si[0] == '{') by {
            if notes.len() == 1 {
                assert(si == ser_note(notes[0]));
            } else {
                assert(si == ser_note(notes[0]) + seq![','] + ser_items(notes.drop_first()));
            }
            assert(ser_note(notes[0])[0] == '{');
        }
        assert(t[1] == '{' && !is_ws(t[1]));
        assert(skip_ws(t, 1) == 1);
        assert(t[1] != ']');
        assert(t.subrange(1, 1 + tl) =~= si) by {
            assert forall|k: int| 0 <= k < tl implies t.subrange(1, 1 + tl)[k] == si[k] by {
                assert(t.subrange(1, 1 + tl)[k] == t[1 + k]);
                assert(t[1 + k] == si[k]);
            }
        }
        assert(t[1 + tl] == ']');
        lemma_parse_items_of_ser(t, 1, notes);
        assert(parse_items(t, 1) == Some((notes, tl + 2)));
        assert(skip_ws(t, tl + 2) == tl + 2);
        assert(spec_parse(t) == Some(notes));
    }
}

} // verus!
