//! The parser: a character-level definition of the accepted on-disk grammar
//! (a JSON array of two-field note objects, with insignificant whitespace
//! and the standard string escapes), and the executable parser proved to
//! implement it exactly.
//!
//! Every spec function here takes the full character sequence and a start
//! index and yields the parsed value together with the index just past what
//! was consumed, or `None` when the text does not conform.

use vstd::prelude::*;
use crate::chars::char_from_u32;
use crate::chars::chars_to_string;
use crate::chars::hex_digit_char;
use crate::chars::hex_val;
use crate::chars::hex_value;
use crate::chars::is_hex_digit;
use crate::chars::is_ws;
use crate::chars::str_to_chars;
use crate::chars::ws_char;
use crate::notes::Note;
use crate::notes::SpecNote;
use crate::notes::StoreError;
use crate::notes::note_views;

verus! {

/// The first index at or after `i` that does not hold insignificant
/// whitespace (or the end of the text).
pub open spec fn skip_ws(s: Seq<char>, i: int) -> int
    decreases s.len() - i,
{
    if 0 <= i < s.len() && is_ws(s[i]) {
        skip_ws(s, i + 1)
    } else {
        i
    }
}

/// The character a simple backslash escape stands for.
pub open spec fn unescape_simple(e: char) -> char {
    if e == 'n' {
        '\n'
    } else if e == 't' {
        '\t'
    } else if e == 'r' {
        '\r'
    } else if e == 'b' {
        '\u{0008}'
    } else if e == 'f' {
        '\u{000C}'
    } else {
        e
    }
}

/// Parses the body of a JSON string literal starting just after the opening
/// quote: the decoded characters and the index just past the closing quote.
pub open spec fn parse_str_body(s: Seq<char>, i: int) -> Option<(Seq<char>, int)>
    decreases s.len() - i,
{
    if i < 0 || i >= s.len() {
        None
    } else if s[i] == '"' {
        Some((Seq::empty(), i + 1))
    } else if s[i] == '\\' {
        if i + 1 >= s.len() {
            None
        } else {
            let e = s[i + 1];
            if e == '"' || e == '\\' || e == '/' || e == 'n' || e == 't' || e == 'r' || e == 'b'
                || e == 'f' {
                match parse_str_body(s, i + 2) {
                    Some((rest, j)) => Some((seq![unescape_simple(e)] + rest, j)),
                    None => None,
                }
            } else if e == 'u' {
                if i + 6 <= s.len() && is_hex_digit(s[i + 2]) && is_hex_digit(s[i + 3])
                    && is_hex_digit(s[i + 4]) && is_hex_digit(s[i + 5]) {
                    let val = hex_val(s[i + 2]) * 4096 + hex_val(s[i + 3]) * 256 + hex_val(
                        s[i + 4],
                    ) * 16 + hex_val(s[i + 5]);
                    if 0xD800 <= val <= 0xDFFF {
                        None
                    } else {
                        match parse_str_body(s, i + 6) {
                            Some((rest, j)) => Some((seq![((val as u32) as char)] + rest, j)),
                            None => None,
                        }
                    }
                } else {
                    None
                }
            } else {
                None
            }
        }
    } else if (s[i] as u32) < 0x20 {
        None
    } else {
        match parse_str_body(s, i + 1) {
            Some((rest, j)) => Some((seq![s[i]] + rest, j)),
            None => None,
        }
    }
}

/// Parses a complete JSON string literal at `i`.
pub open spec fn parse_string(s: Seq<char>, i: int) -> Option<(Seq<char>, int)> {
    if 0 <= i < s.len() && s[i] == '"' {
        parse_str_body(s, i + 1)
    } else {
        None
    }
}

/// Whether `pat` occurs in `s` starting at `i`.
pub open spec fn matches_at(s: Seq<char>, i: int, pat: Seq<char>) -> bool {
    0 <= i && i + pat.len() <= s.len() && s.subrange(i, i + pat.len()) == pat
}

/// Parses one of the two field names; `true` stands for `id`.
pub open spec fn parse_key(s: Seq<char>, i: int) -> Option<(bool, int)> {
    if matches_at(s, i, "\"id\""@) {
        Some((true, i + 4))
    } else if matches_at(s, i, "\"content\""@) {
        Some((false, i + 9))
    } else {
        None
    }
}

/// Parses one note object at `i`: a brace-enclosed pair of the `id` and
/// `content` fields, in either order, each a string literal.
pub open spec fn parse_object(s: Seq<char>, i: int) -> Option<(SpecNote, int)> {
    if !(0 <= i < s.len() && s[i] == '{') {
        None
    } else {
        match parse_key(s, skip_ws(s, i + 1)) {
            None => None,
            Some((first_id, a)) => {
                let b = skip_ws(s, a);
                if !(b < s.len() && s[b] == ':') {
                    None
                } else {
                    match parse_string(s, skip_ws(s, b + 1)) {
                        None => None,
                        Some((v1, p)) => {
                            let cpos = skip_ws(s, p);
                            if !(cpos < s.len() && s[cpos] == ',') {
                                None
                            } else {
                                match parse_key(s, skip_ws(s, cpos + 1)) {
                                    None => None,
                                    Some((second_id, a2)) => {
                                        if second_id == first_id {
                                            None
                                        } else {
                                            let b2 = skip_ws(s, a2);
                                            if !(b2 < s.len() && s[b2] == ':') {
                                                None
                                            } else {
                                                match parse_string(s, skip_ws(s, b2 + 1)) {
                                                    None => None,
                                                    Some((v2, q)) => {
                                                        let e = skip_ws(s, q);
                                                        if !(e < s.len() && s[e] == '}') {
                                                            None
                                                        } else if first_id {
                                                            Some(
                                                                (
                                                                    SpecNote {
                                                                        id: v1,
                                                                        content: v2,
                                                                    },
                                                                    e + 1,
                                                                ),
                                                            )
                                                        } else {
                                                            Some(
                                                                (
                                                                    SpecNote {
                                                                        id: v2,
                                                                        content: v1,
                                                                    },
                                                                    e + 1,
                                                                ),
                                                            )
                                                        }
                                                    },
                                                }
                                            }
                                        }
                                    },
                                }
                            }
                        },
                    }
                }
            },
        }
    }
}

/// Wherever skipping whitespace lands, it lands at or after the start, no
/// further than the end, and never on whitespace.
pub proof fn lemma_skip_ws_bounds(s: Seq<char>, i: int)
    ensures
        i <= skip_ws(s, i),
        i <= s.len() ==> skip_ws(s, i) <= s.len(),
        0 <= i && skip_ws(s, i) < s.len() ==> !is_ws(s[skip_ws(s, i)]),
    decreases s.len() - i,
{
    if 0 <= i < s.len() && is_ws(s[i]) {
        lemma_skip_ws_bounds(s, i + 1);
    }
}

/// A successful string-body parse consumes at least one character and stays
/// within the text.
pub proof fn lemma_parse_str_body_bounds(s: Seq<char>, i: int)
    ensures
        parse_str_body(s, i) matches Some((v, j)) ==> i < j <= s.len(),
    decreases s.len() - i,
{
    if i < 0 || i >= s.len() {
    } else if s[i] == '"' {
    } else if s[i] == '\\' {
        if i + 1 >= s.len() {
        } else {
            let e = s[i + 1];
            if e == '"' || e == '\\' || e == '/' || e == 'n' || e == 't' || e == 'r' || e == 'b'
                || e == 'f' {
                lemma_parse_str_body_bounds(s, i + 2);
            } else if e == 'u' && i + 6 <= s.len() {
                lemma_parse_str_body_bounds(s, i + 6);
            }
        }
    } else if (s[i] as u32) < 0x20 {
    } else {
        lemma_parse_str_body_bounds(s, i + 1);
    }
}

/// A successful string parse consumes at least two characters and stays
/// within the text.
pub proof fn lemma_parse_string_bounds(s: Seq<char>, i: int)
    ensures
        parse_string(s, i) matches Some((v, j)) ==> i < j <= s.len(),
{
    if 0 <= i < s.len() && s[i] == '"' {
        lemma_parse_str_body_bounds(s, i + 1);
    }
}

/// A successful key parse consumes at least one character and stays within
/// the text.
pub proof fn lemma_parse_key_bounds(s: Seq<char>, i: int)
    ensures
        parse_key(s, i) matches Some((b, a)) ==> i < a <= s.len(),
{
    reveal_strlit("\"id\"");
    reveal_strlit("\"content\"");
}

/// A successful object parse consumes at least one character and stays
/// within the text.
pub proof fn lemma_parse_object_bounds(s: Seq<char>, i: int)
    ensures
        parse_object(s, i) matches Some((n, j)) ==> i < j <= s.len(),
{
    if 0 <= i < s.len() && s[i] == '{' {
        lemma_skip_ws_bounds(s, i + 1);
        let k1 = skip_ws(s, i + 1);
        lemma_parse_key_bounds(s, k1);
        match parse_key(s, k1) {
            None => {},
            Some((first_id, a)) => {
                lemma_skip_ws_bounds(s, a);
                let b = skip_ws(s, a);
                if b < s.len() && s[b] == ':' {
                    lemma_skip_ws_bounds(s, b + 1);
                    lemma_parse_string_bounds(s, skip_ws(s, b + 1));
                    match parse_string(s, skip_ws(s, b + 1)) {
                        None => {},
                        Some((v1, p)) => {
                            lemma_skip_ws_bounds(s, p);
                            let cpos = skip_ws(s, p);
                            if cpos < s.len() && s[cpos] == ',' {
                                lemma_skip_ws_bounds(s, cpos + 1);
                                let k2 = skip_ws(s, cpos + 1);
                                lemma_parse_key_bounds(s, k2);
                                match parse_key(s, k2) {
                                    None => {},
                                    Some((second_id, a2)) => {
                                        lemma_skip_ws_bounds(s, a2);
                                        let b2 = skip_ws(s, a2);
                                        if b2 < s.len() && s[b2] == ':' {
                                            lemma_skip_ws_bounds(s, b2 + 1);
                                            lemma_parse_string_bounds(s, skip_ws(s, b2 + 1));
                                            match parse_string(s, skip_ws(s, b2 + 1)) {
                                                None => {},
                                                Some((v2, q)) => {
                                                    lemma_skip_ws_bounds(s, q);
                                                },
                                            }
                                        }
                                    },
                                }
                            }
                        },
                    }
                }
            },
        }
    }
}

/// Parses a comma-separated run of note objects, starting at the first
/// object, up to and including the closing bracket.
pub open spec fn parse_items(s: Seq<char>, i: int) -> Option<(Seq<SpecNote>, int)>
    decreases s.len() - i,
{
    match parse_object(s, i) {
        None => None,
        Some((n, j)) => {
            proof {
                lemma_parse_object_bounds(s, i);
                lemma_skip_ws_bounds(s, j);
            }
            let k = skip_ws(s, j);
            if k < s.len() && s[k] == ',' {
                proof {
                    lemma_skip_ws_bounds(s, k + 1);
                }
                match parse_items(s, skip_ws(s, k + 1)) {
                    Some((rest, e)) => Some((seq![n] + rest, e)),
                    None => None,
                }
            } else if k < s.len() && s[k] == ']' {
                Some((seq![n], k + 1))
            } else {
                None
            }
        },
    }
}

/// A successful item-run parse stays within the text.
pub proof fn lemma_parse_items_bounds(s: Seq<char>, i: int)
    ensures
        parse_items(s, i) matches Some((ns, e)) ==> i < e <= s.len(),
    decreases s.len() - i,
{
    lemma_parse_object_bounds(s, i);
    match parse_object(s, i) {
        None => {},
        Some((n, j)) => {
            lemma_skip_ws_bounds(s, j);
            let k = skip_ws(s, j);
            if k < s.len() && s[k] == ',' {
                lemma_skip_ws_bounds(s, k + 1);
                lemma_parse_items_bounds(s, skip_ws(s, k + 1));
            }
        },
    }
}

/// Parses a complete document: one array of note objects and nothing else.
pub open spec fn spec_parse(s: Seq<char>) -> Option<Seq<SpecNote>> {
    let i = skip_ws(s, 0);
    if i < s.len() && s[i] == '[' {
        let j = skip_ws(s, i + 1);
        if j < s.len() && s[j] == ']' {
            if skip_ws(s, j + 1) == s.len() {
                Some(Seq::empty())
            } else {
                None
            }
        } else {
            match parse_items(s, j) {
                Some((ns, e)) => if skip_ws(s, e) == s.len() {
                    Some(ns)
                } else {
                    None
                },
                None => None,
            }
        }
    } else {
        None
    }
}

/// Executable whitespace skipping.
fn sk_ws(v: &Vec<char>, i: usize) -> (r: usize)
    requires
        i <= v@.len(),
    ensures
        r as int == skip_ws(v@, i as int),
        i <= r <= v@.len(),
{
    let mut r: usize = i;
    while r < v.len() && ws_char(v[r])
        invariant
            i <= r <= v@.len(),
            skip_ws(v@, i as int) == skip_ws(v@, r as int),
        decreases v@.len() - r,
    {
        r = r + 1;
    }
    r
}

/// Executable version of [`unescape_simple`].
fn unescape_simple_exec(e: char) -> (c: char)
    ensures
        c == unescape_simple(e),
{
    if e == 'n' {
        '\n'
    } else if e == 't' {
        '\t'
    } else if e == 'r' {
        '\r'
    } else if e == 'b' {
        '\u{0008}'
    } else if e == 'f' {
        '\u{000C}'
    } else {
        e
    }
}

/// Executable string-literal parsing.
fn p_string(v: &Vec<char>, i: usize) -> (r: Option<(Vec<char>, usize)>)
    requires
        i <= v@.len(),
    ensures
        match r {
            Some((out, j)) => parse_string(v@, i as int) == Some((out@, j as int)) && i < j
                <= v@.len(),
            None => parse_string(v@, i as int) is None,
        },
{
    if i >= v.len() || v[i] != '"' {
        return None;
    }
    let mut acc: Vec<char> = Vec::new();
    let mut k: usize = i + 1;
    proof {
        assert(acc@ + Seq::<char>::empty() =~= Seq::<char>::empty());
    }
    loop
        invariant
            i + 1 <= k <= v@.len(),
            i < v@.len(),
            v@[i as int] == '"',
            parse_str_body(v@, i as int + 1) == (match parse_str_body(v@, k as int) {
                Some((t, e)) => Some((acc@ + t, e)),
                None => None::<(Seq<char>, int)>,
            }),
        decreases v@.len() - k,
    {
        if k >= v.len() {
            return None;
        }
        let c = v[k];
        let ghost acc0 = acc@;
        if c == '"' {
            proof {
                assert(parse_str_body(v@, k as int) == Some((Seq::<char>::empty(), k as int + 1)));
                assert(acc@ + Seq::<char>::empty() =~= acc@);
                lemma_parse_str_body_bounds(v@, i as int + 1);
            }
            return Some((acc, k + 1));
        } else if c == '\\' {
            if v.len() - k < 2 {
                return None;
            }
            let e = v[k + 1];
            if e == '"' || e == '\\' || e == '/' || e == 'n' || e == 't' || e == 'r' || e == 'b'
                || e == 'f' {
                let d = unescape_simple_exec(e);
                acc.push(d);
                proof {
                    match parse_str_body(v@, k as int + 2) {
                        Some((t, j2)) => {
                            assert(acc0 + (seq![d] + t) =~= acc@ + t);
                        },
                        None => {},
                    }
                }
                k = k + 2;
            } else if e == 'u' {
                if v.len() - k < 6 {
                    return None;
                }
                let h3 = v[k + 2];
                let h2 = v[k + 3];
                let h1 = v[k + 4];
                let h0 = v[k + 5];
                if !(hex_digit_char(h3) && hex_digit_char(h2) && hex_digit_char(h1)
                    && hex_digit_char(h0)) {
                    return None;
                }
                let val: u32 = hex_value(h3) * 4096 + hex_value(h2) * 256 + hex_value(h1) * 16
                    + hex_value(h0);
                if 0xD800 <= val && val <= 0xDFFF {
                    return None;
                }
                let copt = char_from_u32(val);
                match copt {
                    Some(cc) => {
                        proof {
                            vstd::utf8::char_u32_cast(cc, val);
                        }
                        acc.push(cc);
                        proof {
                            match parse_str_body(v@, k as int + 6) {
                                Some((t, j2)) => {
                                    assert(acc0 + (seq![cc] + t) =~= acc@ + t);
                                },
                                None => {},
                            }
                        }
                        k = k + 6;
                    },
                    None => {
                        proof {
                            assert(false);
                        }
                        return None;
                    },
                }
            } else {
                return None;
            }
        } else if (c as u32) < 0x20 {
            return None;
        } else {
            acc.push(c);
            proof {
                match parse_str_body(v@, k as int + 1) {
                    Some((t, j2)) => {
                        assert(acc0 + (seq![c] + t) =~= acc@ + t);
                    },
                    None => {},
                }
            }
            k = k + 1;
        }
    }
}

/// Executable field-name parsing; `true` stands for `id`.
fn p_key(v: &Vec<char>, i: usize) -> (r: Option<(bool, usize)>)
    requires
        i <= v@.len(),
    ensures
        match r {
            Some((is_id, a)) => parse_key(v@, i as int) == Some((is_id, a as int)) && i < a
                <= v@.len(),
            None => parse_key(v@, i as int) is None,
        },
{
    proof {
        reveal_strlit("\"id\"");
        reveal_strlit("\"content\"");
    }
    if v.len() - i >= 4 && v[i] == '"' && v[i + 1] == 'i' && v[i + 2] == 'd' && v[i + 3] == '"' {
        proof {
            assert(v@.subrange(i as int, i as int + 4) =~= "\"id\""@);
        }
        Some((true, i + 4))
    } else if v.len() - i >= 9 && v[i] == '"' && v[i + 1] == 'c' && v[i + 2] == 'o' && v[i + 3]
        == 'n' && v[i + 4] == 't' && v[i + 5] == 'e' && v[i + 6] == 'n' && v[i + 7] == 't' && v[i
        + 8] == '"' {
        proof {
            assert(!matches_at(v@, i as int, "\"id\""@)) by {
                if matches_at(v@, i as int, "\"id\""@) {
                    assert(v@.subrange(i as int, i as int + 4)[1] == v@[i as int + 1]);
                }
            }
            assert(v@.subrange(i as int, i as int + 9) =~= "\"content\""@);
        }
        Some((false, i + 9))
    } else {
        proof {
            assert(!matches_at(v@, i as int, "\"id\""@)) by {
                if matches_at(v@, i as int, "\"id\""@) {
                    assert(v@.subrange(i as int, i as int + 4)[0] == v@[i as int]);
                    assert(v@.subrange(i as int, i as int + 4)[1] == v@[i as int + 1]);
                    assert(v@.subrange(i as int, i as int + 4)[2] == v@[i as int + 2]);
                    assert(v@.subrange(i as int, i as int + 4)[3] == v@[i as int + 3]);
                }
            }
            assert(!matches_at(v@, i as int, "\"content\""@)) by {
                if matches_at(v@, i as int, "\"content\""@) {
                    assert(v@.subrange(i as int, i as int + 9)[0] == v@[i as int]);
                    assert(v@.subrange(i as int, i as int + 9)[1] == v@[i as int + 1]);
                    assert(v@.subrange(i as int, i as int + 9)[2] == v@[i as int + 2]);
                    assert(v@.subrange(i as int, i as int + 9)[3] == v@[i as int + 3]);
                    assert(v@.subrange(i as int, i as int + 9)[4] == v@[i as int + 4]);
                    assert(v@.subrange(i as int, i as int + 9)[5] == v@[i as int + 5]);
                    assert(v@.subrange(i as int, i as int + 9)[6] == v@[i as int + 6]);
                    assert(v@.subrange(i as int, i as int + 9)[7] == v@[i as int + 7]);
                    assert(v@.subrange(i as int, i as int + 9)[8] == v@[i as int + 8]);
                }
            }
        }
        None
    }
}

/// Executable note-object parsing.
fn p_object(v: &Vec<char>, i: usize) -> (r: Option<(Note, usize)>)
    requires
        i <= v@.len(),
    ensures
        match r {
            Some((n, j)) => parse_object(v@, i as int) == Some((n@, j as int)) && i < j <= v@.len(),
            None => parse_object(v@, i as int) is None,
        },
{
    if i >= v.len() || v[i] != '{' {
        return None;
    }
    let k1 = sk_ws(v, i + 1);
    let (first_id, a) = match p_key(v, k1) {
        Some(x) => x,
        None => {
            return None;
        },
    };
    let b = sk_ws(v, a);
    if b >= v.len() || v[b] != ':' {
        return None;
    }
    let v1pos = sk_ws(v, b + 1);
    let (s1, p) = match p_string(v, v1pos) {
        Some(x) => x,
        None => {
            return None;
        },
    };
    let cpos = sk_ws(v, p);
    if cpos >= v.len() || v[cpos] != ',' {
        return None;
    }
    let k2 = sk_ws(v, cpos + 1);
    let (second_id, a2) = match p_key(v, k2) {
        Some(x) => x,
        None => {
            return None;
        },
    };
    if second_id == first_id {
        return None;
    }
    let b2 = sk_ws(v, a2);
    if b2 >= v.len() || v[b2] != ':' {
        return None;
    }
    let v2pos = sk_ws(v, b2 + 1);
    let (s2, q) = match p_string(v, v2pos) {
        Some(x) => x,
        None => {
            return None;
        },
    };
    let e = sk_ws(v, q);
    if e >= v.len() || v[e] != '}' {
        return None;
    }
    let note = if first_id {
        Note { id: chars_to_string(&s1), content: chars_to_string(&s2) }
    } else {
        Note { id: chars_to_string(&s2), content: chars_to_string(&s1) }
    };
    proof {
        if first_id {
            assert(note@ =~= SpecNote { id: s1@, content: s2@ });
        } else {
            assert(note@ =~= SpecNote { id: s2@, content: s1@ });
        }
    }
    Some((note, e + 1))
}

/// Executable item-run parsing.
fn p_items(v: &Vec<char>, i: usize) -> (r: Option<(Vec<Note>, usize)>)
    requires
        i <= v@.len(),
    ensures
        match r {
            Some((ns, e)) => parse_items(v@, i as int) == Some((note_views(ns@), e as int)) && i < e
                <= v@.len(),
            None => parse_items(v@, i as int) is None,
        },
{
    let mut acc: Vec<Note> = Vec::new();
    let mut cur: usize = i;
    proof {
        match parse_items(v@, i as int) {
            Some((ns, e)) => {
                assert(note_views(acc@) + ns =~= ns);
            },
            None => {},
        }
    }
    loop
        invariant
            i <= cur <= v@.len(),
            parse_items(v@, i as int) == (match parse_items(v@, cur as int) {
                Some((ns, e)) => Some((note_views(acc@) + ns, e)),
                None => None::<(Seq<SpecNote>, int)>,
            }),
        decreases v@.len() - cur,
    {
        let ghost acc0 = acc@;
        let (n, j) = match p_object(v, cur) {
            Some(x) => x,
            None => {
                return None;
            },
        };
        let k = sk_ws(v, j);
        if k < v.len() && v[k] == ',' {
            let m = sk_ws(v, k + 1);
            acc.push(n);
            proof {
                assert(note_views(acc@) =~= note_views(acc0) + seq![n@]);
                match parse_items(v@, m as int) {
                    Some((rest, e)) => {
                        assert(parse_items(v@, cur as int) == Some((seq![n@] + rest, e)));
                        assert(note_views(acc0) + (seq![n@] + rest) =~= note_views(acc@) + rest);
                    },
                    None => {},
                }
            }
            cur = m;
        } else if k < v.len() && v[k] == ']' {
            acc.push(n);
            proof {
                assert(note_views(acc@) =~= note_views(acc0) + seq![n@]);
                assert(parse_items(v@, cur as int) == Some((seq![n@], k as int + 1)));
                assert(note_views(acc0) + seq![n@] =~= note_views(acc@));
                lemma_parse_items_bounds(v@, i as int);
            }
            return Some((acc, k + 1));
        } else {
            return None;
        }
    }
}

/// Parses the persisted textual form back into a collection of notes.
///
/// Succeeds exactly on text that conforms to the accepted grammar; anything
/// else, including the empty string, is reported as corruption.
pub fn parse_notes(s: &str) -> (r: Result<Vec<Note>, StoreError>)
    ensures
        match r {
            Ok(ns) => spec_parse(s@) == Some(note_views(ns@)),
            Err(e) => spec_parse(s@) is None && e == StoreError::Deserialization,
        },
{
    let v = str_to_chars(s);
    let i = sk_ws(&v, 0);
    if i >= v.len() || v[i] != '[' {
        return Err(StoreError::Deserialization);
    }
    let j = sk_ws(&v, i + 1);
    if j < v.len() && v[j] == ']' {
        let t = sk_ws(&v, j + 1);
        if t == v.len() {
            let out: Vec<Note> = Vec::new();
            proof {
                assert(note_views(out@) =~= Seq::<SpecNote>::empty());
            }
            return Ok(out);
        } else {
            return Err(StoreError::Deserialization);
        }
    }
    match p_items(&v, j) {
        Some((ns, e)) => {
            let t = sk_ws(&v, e);
            if t == v.len() {
                Ok(ns)
            } else {
                Err(StoreError::Deserialization)
            }
        },
        None => Err(StoreError::Deserialization),
    }
}

} // verus!
