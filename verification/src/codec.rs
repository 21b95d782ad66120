//! The overlay's durable form: a pretty-printed JSON array of
//! `{test_name, recording_name, participant_name}` objects, rendered and
//! read back here.
//!
//! The reader tolerates whitespace and the usual string escapes, expects
//! the three keys in their rendered order, and treats anything else —
//! including `\u` escapes at or above the surrogate range — as unreadable,
//! which callers turn into the empty overlay.

use vstd::prelude::*;

use crate::overlay::DisabledSlice;

verus! {

/// The whitespace the reader skips between tokens.
pub open spec fn is_json_ws(c: char) -> bool {
    c == ' ' || c == '\t' || c == '\r' || c == '\n'
}

/// The position after any whitespace run starting at `i`.
pub open spec fn sp_ws(s: Seq<char>, i: int) -> int
    decreases s.len() - i
        when 0 <= i <= s.len()
{
    if i < s.len() && is_json_ws(s[i]) {
        sp_ws(s, i + 1)
    } else {
        i
    }
}

/// The position after `lit`, when the text carries it at `i`.
pub open spec fn sp_expect(s: Seq<char>, i: int, lit: Seq<char>) -> Option<int> {
    if 0 <= i && i + lit.len() <= s.len() && s.subrange(i, i + lit.len()) == lit {
        Some(i + lit.len())
    } else {
        None
    }
}

/// One lowercase hex digit.
pub open spec fn hex_char(d: int) -> char
    recommends
        0 <= d < 16,
{
    if d < 10 {
        ((48 + d) as u8) as char
    } else {
        ((87 + d) as u8) as char
    }
}

/// The value of a hex digit, if it is one.
pub open spec fn hex_val(c: char) -> Option<int> {
    if 48 <= c as int <= 57 {
        Some(c as int - 48)
    } else if 97 <= c as int <= 102 {
        Some(c as int - 87)
    } else if 65 <= c as int <= 70 {
        Some(c as int - 55)
    } else {
        None
    }
}

/// The character a single-letter escape stands for.
pub open spec fn unescape_code(e: char) -> Option<char> {
    if e == '"' {
        Some('"')
    } else if e == '\\' {
        Some('\\')
    } else if e == '/' {
        Some('/')
    } else if e == 'b' {
        Some((8u8) as char)
    } else if e == 'f' {
        Some((12u8) as char)
    } else if e == 'n' {
        Some('\n')
    } else if e == 'r' {
        Some('\r')
    } else if e == 't' {
        Some('\t')
    } else {
        None
    }
}

/// How a character is written inside a rendered string value.
pub open spec fn esc_char(c: char) -> Seq<char> {
    if c == '"' {
        seq!['\\', '"']
    } else if c == '\\' {
        seq!['\\', '\\']
    } else if c == '\n' {
        seq!['\\', 'n']
    } else if c == '\r' {
        seq!['\\', 'r']
    } else if c == '\t' {
        seq!['\\', 't']
    } else if (c as int) < 32 {
        seq!['\\', 'u', '0', '0', hex_char(c as int / 16), hex_char(c as int % 16)]
    } else {
        seq![c]
    }
}

/// A whole string value, escaped character by character.
pub open spec fn esc_str(x: Seq<char>) -> Seq<char>
    decreases x.len(),
{
    if x.len() == 0 {
        Seq::empty()
    } else {
        esc_char(x[0]) + esc_str(x.drop_first())
    }
}

/// The characters of a string value from `i` up to its closing quote,
/// unescaped, with the position after the quote.
pub open spec fn sp_chars(s: Seq<char>, i: int) -> Option<(Seq<char>, int)>
    decreases s.len() - i
        when 0 <= i <= s.len()
{
    if i >= s.len() {
        None
    } else if s[i] == '"' {
        Some((Seq::empty(), i + 1))
    } else if s[i] == '\\' {
        if i + 2 > s.len() {
            None
        } else {
            let e = s[i + 1];
            if e == 'u' {
                if i + 6 > s.len() {
                    None
                } else {
                    match (hex_val(s[i + 2]), hex_val(s[i + 3]), hex_val(s[i + 4]), hex_val(
                        s[i + 5],
                    )) {
                        (Some(h1), Some(h2), Some(h3), Some(h4)) => {
                            let code = h1 * 4096 + h2 * 256 + h3 * 16 + h4;
                            if code >= 0xD800 {
                                None
                            } else {
                                match sp_chars(s, i + 6) {
                                    Some(r) => Some((seq![code as char] + r.0, r.1)),
                                    None => None,
                                }
                            }
                        },
                        _ => None,
                    }
                }
            } else {
                match unescape_code(e) {
                    Some(c) => match sp_chars(s, i + 2) {
                        Some(r) => Some((seq![c] + r.0, r.1)),
                        None => None,
                    },
                    None => None,
                }
            }
        }
    } else if (s[i] as int) < 32 {
        None
    } else {
        match sp_chars(s, i + 1) {
            Some(r) => Some((seq![s[i]] + r.0, r.1)),
            None => None,
        }
    }
}

/// One `"key": "value"` field: the quoted key literal, a colon, and a
/// string value, with whitespace allowed between tokens.
pub open spec fn sp_field(s: Seq<char>, i: int, key: Seq<char>) -> Option<(Seq<char>, int)>
    recommends
        0 <= i <= s.len(),
{
    let j = sp_ws(s, i);
    match sp_expect(s, j, key) {
        Some(j2) => {
            let j3 = sp_ws(s, j2);
            match sp_expect(s, j3, ":"@) {
                Some(j4) => {
                    let j5 = sp_ws(s, j4);
                    match sp_expect(s, j5, "\""@) {
                        Some(j6) => sp_chars(s, j6),
                        None => None,
                    }
                },
                None => None,
            }
        },
        None => None,
    }
}

/// One slice object: the three fields in rendered order.
pub open spec fn sp_object(s: Seq<char>, i: int) -> Option<
    ((Seq<char>, Seq<char>, Seq<char>), int),
>
    recommends
        0 <= i <= s.len(),
{
    let j = sp_ws(s, i);
    match sp_expect(s, j, "{"@) {
        Some(j1) => match sp_field(s, j1, "\"test_name\""@) {
            Some((v1, e1)) => {
                let j2 = sp_ws(s, e1);
                match sp_expect(s, j2, ","@) {
                    Some(j3) => match sp_field(s, j3, "\"recording_name\""@) {
                        Some((v2, e2)) => {
                            let j4 = sp_ws(s, e2);
                            match sp_expect(s, j4, ","@) {
                                Some(j5) => match sp_field(s, j5, "\"participant_name\""@) {
                                    Some((v3, e3)) => {
                                        let j6 = sp_ws(s, e3);
                                        match sp_expect(s, j6, "}"@) {
                                            Some(e) => Some(((v1, v2, v3), e)),
                                            None => None,
                                        }
                                    },
                                    None => None,
                                },
                                None => None,
                            }
                        },
                        None => None,
                    },
                    None => None,
                }
            },
            None => None,
        },
        None => None,
    }
}

/// Everything consumed by a successful parse lies after its start and
/// within the text.
pub proof fn lemma_sp_ws_bounds(s: Seq<char>, i: int)
    requires
        0 <= i <= s.len(),
    ensures
        i <= sp_ws(s, i) <= s.len(),
    decreases s.len() - i,
{
    if i < s.len() && is_json_ws(s[i]) {
        lemma_sp_ws_bounds(s, i + 1);
    }
}

proof fn lemma_sp_chars_bounds(s: Seq<char>, i: int)
    requires
        0 <= i <= s.len(),
        sp_chars(s, i) is Some,
    ensures
        i < (sp_chars(s, i)->0).1 <= s.len(),
    decreases s.len() - i,
{
    if i >= s.len() {
    } else if s[i] == '"' {
    } else if s[i] == '\\' {
        let e = s[i + 1];
        if e == 'u' {
            lemma_sp_chars_bounds(s, i + 6);
        } else {
            lemma_sp_chars_bounds(s, i + 2);
        }
    } else if (s[i] as int) < 32 {
    } else {
        lemma_sp_chars_bounds(s, i + 1);
    }
}

proof fn lemma_sp_field_bounds(s: Seq<char>, i: int, key: Seq<char>)
    requires
        0 <= i <= s.len(),
        sp_field(s, i, key) is Some,
    ensures
        i < (sp_field(s, i, key)->0).1 <= s.len(),
{
    let j = sp_ws(s, i);
    lemma_sp_ws_bounds(s, i);
    let j2 = sp_expect(s, j, key)->0;
    let j3 = sp_ws(s, j2);
    lemma_sp_ws_bounds(s, j2);
    let j4 = sp_expect(s, j3, ":"@)->0;
    let j5 = sp_ws(s, j4);
    lemma_sp_ws_bounds(s, j4);
    reveal_strlit(":");
    reveal_strlit("\"");
    let j6 = sp_expect(s, j5, "\""@)->0;
    lemma_sp_chars_bounds(s, j6);
}

proof fn lemma_sp_object_bounds(s: Seq<char>, i: int)
    requires
        0 <= i <= s.len(),
        sp_object(s, i) is Some,
    ensures
        i < (sp_object(s, i)->0).1 <= s.len(),
{
    reveal_strlit("{");
    reveal_strlit(",");
    reveal_strlit("}");
    let j = sp_ws(s, i);
    lemma_sp_ws_bounds(s, i);
    let j1 = sp_expect(s, j, "{"@)->0;
    lemma_sp_field_bounds(s, j1, "\"test_name\""@);
    let e1 = (sp_field(s, j1, "\"test_name\""@)->0).1;
    let j2 = sp_ws(s, e1);
    lemma_sp_ws_bounds(s, e1);
    let j3 = sp_expect(s, j2, ","@)->0;
    lemma_sp_field_bounds(s, j3, "\"recording_name\""@);
    let e2 = (sp_field(s, j3, "\"recording_name\""@)->0).1;
    let j4 = sp_ws(s, e2);
    lemma_sp_ws_bounds(s, e2);
    let j5 = sp_expect(s, j4, ","@)->0;
    lemma_sp_field_bounds(s, j5, "\"participant_name\""@);
    let e3 = (sp_field(s, j5, "\"participant_name\""@)->0).1;
    let j6 = sp_ws(s, e3);
    lemma_sp_ws_bounds(s, e3);
}

/// The objects of the array from `i` on, up to and including the closing
/// bracket.
pub open spec fn sp_elements(s: Seq<char>, i: int) -> Option<
    (Seq<(Seq<char>, Seq<char>, Seq<char>)>, int),
>
    decreases s.len() - i
        when 0 <= i <= s.len()
        via sp_elements_dec
{
    match sp_object(s, i) {
        Some((tr, j)) => {
            let j2 = sp_ws(s, j);
            if j2 < s.len() && s[j2] == ',' {
                match sp_elements(s, j2 + 1) {
                    Some((rest, e)) => Some((seq![tr] + rest, e)),
                    None => None,
                }
            } else if j2 < s.len() && s[j2] == ']' {
                Some((seq![tr], j2 + 1))
            } else {
                None
            }
        },
        None => None,
    }
}

#[via_fn]
proof fn sp_elements_dec(s: Seq<char>, i: int) {
    match sp_object(s, i) {
        Some((tr, j)) => {
            lemma_sp_object_bounds(s, i);
            lemma_sp_ws_bounds(s, j);
        },
        None => {},
    }
}

/// The whole document: one array of slice objects and nothing else.
pub open spec fn sp_doc(s: Seq<char>) -> Option<Seq<(Seq<char>, Seq<char>, Seq<char>)>> {
    let j = sp_ws(s, 0);
    match sp_expect(s, j, "["@) {
        Some(j1) => {
            let j2 = sp_ws(s, j1);
            if j2 < s.len() && s[j2] == ']' {
                if sp_ws(s, j2 + 1) == s.len() {
                    Some(Seq::empty())
                } else {
                    None
                }
            } else {
                match sp_elements(s, j1) {
                    Some((v, e)) => if sp_ws(s, e) == s.len() {
                        Some(v)
                    } else {
                        None
                    },
                    None => None,
                }
            }
        },
        None => None,
    }
}

/// The fixed text from an entry's start to its first value.
pub open spec fn ent_a() -> Seq<char> {
    "  "@ + "{"@ + "\n    "@ + "\"test_name\""@ + ":"@ + " "@ + "\""@
}

/// The fixed text between the first and second values.
pub open spec fn ent_b() -> Seq<char> {
    "\""@ + ","@ + "\n    "@ + "\"recording_name\""@ + ":"@ + " "@ + "\""@
}

/// The fixed text between the second and third values.
pub open spec fn ent_c() -> Seq<char> {
    "\""@ + ","@ + "\n    "@ + "\"participant_name\""@ + ":"@ + " "@ + "\""@
}

/// The fixed text after the third value.
pub open spec fn ent_d() -> Seq<char> {
    "\""@ + "\n  "@ + "}"@
}

/// One rendered slice object.
pub open spec fn render_entry(tr: (Seq<char>, Seq<char>, Seq<char>)) -> Seq<char> {
    ent_a() + esc_str(tr.0) + ent_b() + esc_str(tr.1) + ent_c() + esc_str(tr.2) + ent_d()
}

/// The rendered objects, comma-and-newline separated.
pub open spec fn render_entries(v: Seq<(Seq<char>, Seq<char>, Seq<char>)>) -> Seq<char>
    decreases v.len(),
{
    if v.len() == 0 {
        Seq::empty()
    } else if v.len() == 1 {
        render_entry(v[0])
    } else {
        render_entry(v[0]) + ","@ + "\n"@ + render_entries(v.drop_first())
    }
}

/// The rendered document.
pub open spec fn render_doc(v: Seq<(Seq<char>, Seq<char>, Seq<char>)>) -> Seq<char> {
    if v.len() == 0 {
        "["@ + "]"@
    } else {
        "["@ + "\n"@ + render_entries(v) + "\n"@ + "]"@
    }
}

/// Relies on `String::push`: appends exactly one character.
#[verifier::external_body]
fn push_char(s: &mut String, c: char)
    ensures
        final(s)@ == old(s)@.push(c),
{
    s.push(c);
}

/// One lowercase hex digit as a character.
fn hex_char_exec(d: u32) -> (c: char)
    requires
        d < 16,
    ensures
        c == hex_char(d as int),
{
    let c: char = match d {
        0 => '0',
        1 => '1',
        2 => '2',
        3 => '3',
        4 => '4',
        5 => '5',
        6 => '6',
        7 => '7',
        8 => '8',
        9 => '9',
        10 => 'a',
        11 => 'b',
        12 => 'c',
        13 => 'd',
        14 => 'e',
        _ => 'f',
    };
    c
}

/// Writes `s` escaped onto the end of `out`.  As a side product the walk
/// witnesses that the string holds only real character values.
fn push_escaped(out: &mut String, s: &str)
    ensures
        final(out)@ == old(out)@ + esc_str(s@),
        text_valid(s@),
{
    let len: usize = s.unicode_len();
    let mut i: usize = 0;
    proof {
        assert(s@.skip(0) =~= s@);
    }
    while i < len
        invariant
            i <= len,
            len == s@.len(),
            old(out)@ + esc_str(s@) == out@ + esc_str(s@.skip(i as int)),
            forall|j: int| 0 <= j < i ==> char_ok(#[trigger] s@[j]),
        decreases len - i,
    {
        let ghost pre: Seq<char> = out@;
        let c = s.get_char(i);
        proof {
            assert(s@.skip(i as int)[0] == c);
            assert(s@.skip(i as int).drop_first() =~= s@.skip(i + 1));
            assert(char_ok(c));
            assert(s@[i as int] == c);
        }
        if c == '"' {
            out.append("\\\"");
            proof {
                reveal_strlit("\\\"");
                assert("\\\""@ =~= esc_char(c));
            }
        } else if c == '\\' {
            out.append("\\\\");
            proof {
                reveal_strlit("\\\\");
                assert("\\\\"@ =~= esc_char(c));
            }
        } else if c == '\n' {
            out.append("\\n");
            proof {
                reveal_strlit("\\n");
                assert("\\n"@ =~= esc_char(c));
            }
        } else if c == '\r' {
            out.append("\\r");
            proof {
                reveal_strlit("\\r");
                assert("\\r"@ =~= esc_char(c));
            }
        } else if c == '\t' {
            out.append("\\t");
            proof {
                reveal_strlit("\\t");
                assert("\\t"@ =~= esc_char(c));
            }
        } else if (c as u32) < 32 {
            out.append("\\u00");
            let u = c as u32;
            push_char(out, hex_char_exec(u / 16));
            push_char(out, hex_char_exec(u % 16));
            proof {
                reveal_strlit("\\u00");
                assert(out@ =~= pre + esc_char(c));
            }
        } else {
            push_char(out, c);
            proof {
                assert(out@ =~= pre + esc_char(c));
            }
        }
        proof {
            assert(out@ =~= pre + esc_char(c));
            assert(pre + (esc_char(c) + esc_str(s@.skip(i + 1))) =~= (pre + esc_char(c))
                + esc_str(s@.skip(i + 1)));
        }
        i = i + 1;
    }
    proof {
        assert(s@.skip(len as int) =~= Seq::<char>::empty());
        assert(out@ + esc_str(s@.skip(len as int)) =~= out@);
    }
}

/// The keys of a slice vector, in order.
pub open spec fn slice_keys(v: Seq<DisabledSlice>) -> Seq<(Seq<char>, Seq<char>, Seq<char>)> {
    v.map_values(|d: DisabledSlice| d.key())
}

/// Writes one rendered entry onto the end of `out`.
#[verifier::rlimit(100)]
fn push_entry(out: &mut String, d: &DisabledSlice)
    ensures
        final(out)@ == old(out)@ + render_entry(d.key()),
        text_valid(d.test_name@),
        text_valid(d.recording_name@),
        text_valid(d.participant_name@),
{
    out.append("  ");
    out.append("{");
    out.append("\n    ");
    out.append("\"test_name\"");
    out.append(":");
    out.append(" ");
    out.append("\"");
    proof {
        assert(out@ =~= old(out)@ + ent_a());
    }
    push_escaped(out, d.test_name.as_str());
    proof {
        assert(out@ =~= old(out)@ + ent_a() + esc_str(d.test_name@));
    }
    out.append("\"");
    out.append(",");
    out.append("\n    ");
    out.append("\"recording_name\"");
    out.append(":");
    out.append(" ");
    out.append("\"");
    proof {
        assert(out@ =~= old(out)@ + ent_a() + esc_str(d.test_name@) + ent_b());
    }
    push_escaped(out, d.recording_name.as_str());
    proof {
        assert(out@ =~= old(out)@ + ent_a() + esc_str(d.test_name@) + ent_b() + esc_str(
            d.recording_name@,
        ));
    }
    out.append("\"");
    out.append(",");
    out.append("\n    ");
    out.append("\"participant_name\"");
    out.append(":");
    out.append(" ");
    out.append("\"");
    proof {
        assert(out@ =~= old(out)@ + ent_a() + esc_str(d.test_name@) + ent_b() + esc_str(
            d.recording_name@,
        ) + ent_c());
    }
    push_escaped(out, d.participant_name.as_str());
    out.append("\"");
    out.append("\n  ");
    out.append("}");
    proof {
        assert(out@ =~= old(out)@ + ent_a() + esc_str(d.test_name@) + ent_b() + esc_str(
            d.recording_name@,
        ) + ent_c() + esc_str(d.participant_name@) + ent_d());
        assert(final(out)@ =~= old(out)@ + render_entry(d.key()));
    }
}

/// Renders the overlay as its durable, pretty-printed document.  The walk
/// over the names also witnesses that every rendered triple is made of
/// real character values, the hypothesis of the round-trip law.
pub fn render_disabled_slices(slices: &Vec<DisabledSlice>) -> (r: String)
    ensures
        r@ == render_doc(slice_keys(slices@)),
        triples_valid(slice_keys(slices@)),
{
    let ghost keys: Seq<(Seq<char>, Seq<char>, Seq<char>)> = slice_keys(slices@);
    let mut out = String::new();
    if slices.len() == 0 {
        out.append("[");
        out.append("]");
        proof {
            assert(out@ =~= render_doc(keys));
        }
        return out;
    }
    out.append("[");
    out.append("\n");
    let mut i: usize = 0;
    proof {
        assert(keys.skip(0) =~= keys);
        assert(out@ + render_entries(keys.skip(0)) + "\n"@ + "]"@ =~= render_doc(keys));
    }
    while i < slices.len()
        invariant
            i <= slices@.len(),
            slices@.len() > 0,
            keys == slice_keys(slices@),
            keys.len() == slices@.len(),
            out@ + render_entries(keys.skip(i as int)) + "\n"@ + "]"@ == render_doc(keys),
            forall|j: int|
                0 <= j < i ==> text_valid((#[trigger] keys[j]).0) && text_valid(keys[j].1)
                    && text_valid(keys[j].2),
        decreases slices@.len() - i,
    {
        let ghost pre: Seq<char> = out@;
        push_entry(&mut out, &slices[i]);
        proof {
            assert(keys.skip(i as int)[0] == keys[i as int]);
            assert(keys[i as int] == slices@[i as int].key());
        }
        if i + 1 < slices.len() {
            out.append(",");
            out.append("\n");
            proof {
                let tail = keys.skip(i as int);
                assert(tail.len() > 1);
                assert(tail.drop_first() =~= keys.skip(i + 1));
                assert(render_entries(tail) == render_entry(tail[0]) + ","@ + "\n"@
                    + render_entries(keys.skip(i + 1)));
                assert(out@ =~= pre + render_entry(keys[i as int]) + ","@ + "\n"@);
                assert(out@ + render_entries(keys.skip(i + 1)) =~= pre + render_entries(
                    keys.skip(i as int),
                ));
                assert(out@ + render_entries(keys.skip(i + 1)) + "\n"@ + "]"@ =~= pre
                    + render_entries(keys.skip(i as int)) + "\n"@ + "]"@);
            }
        } else {
            proof {
                let tail = keys.skip(i as int);
                assert(tail.len() == 1);
                assert(render_entries(tail) == render_entry(tail[0]));
                assert(keys.skip(i + 1) =~= Seq::<(Seq<char>, Seq<char>, Seq<char>)>::empty());
                assert(out@ =~= pre + render_entry(keys[i as int]));
                assert(out@ + render_entries(keys.skip(i + 1)) =~= pre + render_entries(
                    keys.skip(i as int),
                ));
                assert(out@ + render_entries(keys.skip(i + 1)) + "\n"@ + "]"@ =~= pre
                    + render_entries(keys.skip(i as int)) + "\n"@ + "]"@);
            }
        }
        i = i + 1;
    }
    out.append("\n");
    out.append("]");
    proof {
        assert(keys.skip(slices@.len() as int) =~= Seq::<(Seq<char>, Seq<char>, Seq<char>)>::empty());
        assert(out@ =~= render_doc(keys));
    }
    out
}

/// Relies on `char::from_u32`: every scalar below the surrogate range is a
/// character with exactly that value.
#[verifier::external_body]
fn char_from_scalar(u: u32) -> (c: char)
    requires
        u < 0xD800,
    ensures
        c as int == u as int,
{
    char::from_u32(u).unwrap()
}

/// The characters of `text`, one slot each.
fn chars_of(text: &str) -> (cv: Vec<char>)
    ensures
        cv@ == text@,
{
    let len: usize = text.unicode_len();
    let mut cv: Vec<char> = Vec::new();
    let mut i: usize = 0;
    while i < len
        invariant
            i <= len,
            len == text@.len(),
            cv@ == text@.take(i as int),
            decreases len - i,
    {
        cv.push(text.get_char(i));
        proof {
            assert(text@.take(i + 1) =~= text@.take(i as int).push(text@[i as int]));
        }
        i = i + 1;
    }
    proof {
        assert(text@.take(len as int) =~= text@);
    }
    cv
}

/// Skips whitespace from `i`.
fn skip_ws(cv: &Vec<char>, i: usize) -> (r: usize)
    requires
        i <= cv@.len(),
    ensures
        r as int == sp_ws(cv@, i as int),
        i <= r <= cv@.len(),
{
    let mut j: usize = i;
    while j < cv.len()
        invariant
            i <= j <= cv@.len(),
            sp_ws(cv@, i as int) == sp_ws(cv@, j as int),
        decreases cv@.len() - j,
    {
        let c = cv[j];
        if !(c == ' ' || c == '\t' || c == '\r' || c == '\n') {
            return j;
        }
        j = j + 1;
    }
    j
}

/// Consumes the literal `lit` at `i`, if the text carries it there.
fn expect_lit(cv: &Vec<char>, i: usize, lit: &str) -> (r: Option<usize>)
    requires
        i <= cv@.len(),
    ensures
        r is Some <==> sp_expect(cv@, i as int, lit@) is Some,
        r is Some ==> r->0 as int == sp_expect(cv@, i as int, lit@)->0 && i <= r->0 <= cv@.len(),
{
    let n: usize = lit.unicode_len();
    if cv.len() - i < n {
        return None;
    }
    let mut k: usize = 0;
    while k < n
        invariant
            k <= n,
            n == lit@.len(),
            i + n <= cv@.len(),
            cv@.len() <= usize::MAX,
            forall|m: int| 0 <= m < k ==> cv@[i + m] == lit@[m],
        decreases n - k,
    {
        if !(cv[i + k] == lit.get_char(k)) {
            proof {
                let sub = cv@.subrange(i as int, i + lit@.len());
                assert(sub[k as int] == cv@[i + k]);
                assert(sub != lit@);
            }
            return None;
        }
        k = k + 1;
    }
    proof {
        let sub = cv@.subrange(i as int, i + lit@.len());
        assert forall|m: int| 0 <= m < sub.len() implies sub[m] == lit@[m] by {
            assert(sub[m] == cv@[i + m]);
        }
        assert(sub =~= lit@);
    }
    Some(i + n)
}

/// Whether the character is an unescaped control character.
fn is_control_char(c: char) -> (r: bool)
    ensures
        r == ((c as int) < 32),
{
    (c as u32) < 32
}

/// The value of one hex digit.
fn hex_val_exec(c: char) -> (r: Option<u32>)
    ensures
        match r {
            Some(v) => hex_val(c) == Some(v as int) && v < 16,
            None => hex_val(c) is None,
        },
{
    let u = c as u32;
    if 48 <= u && u <= 57 {
        Some(u - 48)
    } else if 97 <= u && u <= 102 {
        Some(u - 87)
    } else if 65 <= u && u <= 70 {
        Some(u - 55)
    } else {
        None
    }
}

/// Reads a string value's characters up to its closing quote.
fn parse_chars(cv: &Vec<char>, i: usize) -> (r: Option<(String, usize)>)
    requires
        i <= cv@.len(),
    ensures
        r is Some <==> sp_chars(cv@, i as int) is Some,
        r is Some ==> (r->0).0@ == (sp_chars(cv@, i as int)->0).0 && (r->0).1 as int == (sp_chars(
            cv@,
            i as int,
        )->0).1 && (r->0).1 <= cv@.len(),
    decreases cv@.len() - i,
{
    if i >= cv.len() {
        return None;
    }
    let c = cv[i];
    if c == '"' {
        let s = String::new();
        proof {
            assert(s@ =~= (sp_chars(cv@, i as int)->0).0);
        }
        return Some((s, i + 1));
    }
    if c == '\\' {
        if cv.len() - i < 2 {
            return None;
        }
        let e = cv[i + 1];
        if e == 'u' {
            if cv.len() - i < 6 {
                return None;
            }
            let h1 = hex_val_exec(cv[i + 2]);
            let h2 = hex_val_exec(cv[i + 3]);
            let h3 = hex_val_exec(cv[i + 4]);
            let h4 = hex_val_exec(cv[i + 5]);
            match (h1, h2, h3, h4) {
                (Some(a), Some(b), Some(cc), Some(d)) => {
                    let code: u32 = a * 4096 + b * 256 + cc * 16 + d;
                    if code >= 0xD800 {
                        return None;
                    }
                    let ch = char_from_scalar(code);
                    match parse_chars(cv, i + 6) {
                        Some(rest) => {
                            let mut s = String::new();
                            push_char(&mut s, ch);
                            s.append(rest.0.as_str());
                            proof {
                                assert(ch == (code as int) as char);
                                assert(s@ =~= seq![(code as int) as char] + rest.0@);
                            }
                            Some((s, rest.1))
                        },
                        None => None,
                    }
                },
                _ => None,
            }
        } else {
            let dec: Option<char> = if e == '"' {
                Some('"')
            } else if e == '\\' {
                Some('\\')
            } else if e == '/' {
                Some('/')
            } else if e == 'b' {
                Some('\u{0008}')
            } else if e == 'f' {
                Some('\u{000C}')
            } else if e == 'n' {
                Some('\n')
            } else if e == 'r' {
                Some('\r')
            } else if e == 't' {
                Some('\t')
            } else {
                None
            };
            proof {
                assert(dec == unescape_code(e));
            }
            match dec {
                Some(ch) => {
                    match parse_chars(cv, i + 2) {
                        Some(rest) => {
                            let mut s = String::new();
                            push_char(&mut s, ch);
                            s.append(rest.0.as_str());
                            proof {
                                assert(s@ =~= seq![ch] + rest.0@);
                            }
                            Some((s, rest.1))
                        },
                        None => None,
                    }
                },
                None => None,
            }
        }
    } else if is_control_char(c) {
        None
    } else {
        match parse_chars(cv, i + 1) {
            Some(rest) => {
                let mut s = String::new();
                push_char(&mut s, c);
                s.append(rest.0.as_str());
                proof {
                    assert(s@ =~= seq![c] + rest.0@);
                }
                Some((s, rest.1))
            },
            None => None,
        }
    }
}

/// Reads one `"key": "value"` field.
fn parse_field(cv: &Vec<char>, i: usize, key: &str) -> (r: Option<(String, usize)>)
    requires
        i <= cv@.len(),
    ensures
        r is Some <==> sp_field(cv@, i as int, key@) is Some,
        r is Some ==> (r->0).0@ == (sp_field(cv@, i as int, key@)->0).0 && (r->0).1 as int == (
        sp_field(cv@, i as int, key@)->0).1 && (r->0).1 <= cv@.len(),
{
    let j = skip_ws(cv, i);
    let j2 = match expect_lit(cv, j, key) {
        Some(j2) => j2,
        None => {
            return None;
        },
    };
    let j3 = skip_ws(cv, j2);
    let j4 = match expect_lit(cv, j3, ":") {
        Some(j4) => j4,
        None => {
            return None;
        },
    };
    let j5 = skip_ws(cv, j4);
    let j6 = match expect_lit(cv, j5, "\"") {
        Some(j6) => j6,
        None => {
            return None;
        },
    };
    parse_chars(cv, j6)
}

/// Reads one slice object.
fn parse_object(cv: &Vec<char>, i: usize) -> (r: Option<(DisabledSlice, usize)>)
    requires
        i <= cv@.len(),
    ensures
        r is Some <==> sp_object(cv@, i as int) is Some,
        r is Some ==> (r->0).0.key() == (sp_object(cv@, i as int)->0).0 && (r->0).1 as int == (
        sp_object(cv@, i as int)->0).1 && i < (r->0).1 <= cv@.len(),
{
    let j = skip_ws(cv, i);
    let j1 = match expect_lit(cv, j, "{") {
        Some(j1) => j1,
        None => {
            return None;
        },
    };
    let f1 = match parse_field(cv, j1, "\"test_name\"") {
        Some(f) => f,
        None => {
            return None;
        },
    };
    let j2 = skip_ws(cv, f1.1);
    let j3 = match expect_lit(cv, j2, ",") {
        Some(j3) => j3,
        None => {
            return None;
        },
    };
    let f2 = match parse_field(cv, j3, "\"recording_name\"") {
        Some(f) => f,
        None => {
            return None;
        },
    };
    let j4 = skip_ws(cv, f2.1);
    let j5 = match expect_lit(cv, j4, ",") {
        Some(j5) => j5,
        None => {
            return None;
        },
    };
    let f3 = match parse_field(cv, j5, "\"participant_name\"") {
        Some(f) => f,
        None => {
            return None;
        },
    };
    let j6 = skip_ws(cv, f3.1);
    let e = match expect_lit(cv, j6, "}") {
        Some(e) => e,
        None => {
            return None;
        },
    };
    proof {
        lemma_sp_object_bounds(cv@, i as int);
    }
    Some((DisabledSlice::new(f1.0, f2.0, f3.0), e))
}

/// Reads the array's objects from `i` through the closing bracket.
#[verifier::rlimit(60)]
fn parse_elements(cv: &Vec<char>, i: usize) -> (r: Option<(Vec<DisabledSlice>, usize)>)
    requires
        i <= cv@.len(),
    ensures
        r is Some <==> sp_elements(cv@, i as int) is Some,
        r is Some ==> {
            let sp = sp_elements(cv@, i as int)->0;
            &&& slice_keys((r->0).0@) == sp.0
            &&& (r->0).1 as int == sp.1
            &&& (r->0).1 <= cv@.len()
        },
    decreases cv@.len() - i,
{
    let ob = match parse_object(cv, i) {
        Some(ob) => ob,
        None => {
            return None;
        },
    };
    let j2 = skip_ws(cv, ob.1);
    if j2 < cv.len() && cv[j2] == ',' {
        match parse_elements(cv, j2 + 1) {
            Some(rest) => {
                let mut v: Vec<DisabledSlice> = Vec::new();
                v.push(ob.0);
                let mut rest_v = rest.0;
                let mut k: usize = 0;
                let ghost rest_snap: Seq<DisabledSlice> = rest_v@;
                while k < rest_v.len()
                    invariant
                        i <= cv@.len(),
                        k <= rest_v@.len(),
                        rest_v@ == rest_snap,
                        v@.len() == 1 + k,
                        forall|m: int| 0 <= m < k ==> (#[trigger] v@[m + 1]).key() == rest_snap[m].key(),
                        v@[0].key() == (sp_elements(cv@, i as int)->0).0[0],
                        sp_elements(cv@, i as int) is Some,
                        (sp_elements(cv@, i as int)->0).0 == seq![v@[0].key()] + slice_keys(
                            rest_snap,
                        ),
                    decreases rest_v@.len() - k,
                {
                    v.push(rest_v[k].duplicate());
                    k = k + 1;
                }
                proof {
                    let spv = (sp_elements(cv@, i as int)->0).0;
                    assert(spv == seq![v@[0].key()] + slice_keys(rest_snap));
                    assert(slice_keys(v@).len() == 1 + rest_snap.len());
                    assert forall|m: int| 0 <= m < slice_keys(v@).len() implies slice_keys(
                        v@,
                    )[m] == spv[m] by {
                        assert(slice_keys(v@)[m] == v@[m].key());
                        if m == 0 {
                            assert(spv[0] == v@[0].key());
                        } else {
                            assert(v@[(m - 1) + 1].key() == rest_snap[m - 1].key());
                            assert(v@[m].key() == rest_snap[m - 1].key());
                            assert(slice_keys(rest_snap)[m - 1] == rest_snap[m - 1].key());
                            assert(spv[m] == slice_keys(rest_snap)[m - 1]);
                        }
                    }
                    assert(slice_keys(v@) =~= spv);
                }
                Some((v, rest.1))
            },
            None => None,
        }
    } else if j2 < cv.len() && cv[j2] == ']' {
        let mut v: Vec<DisabledSlice> = Vec::new();
        v.push(ob.0);
        proof {
            assert(sp_object(cv@, i as int) is Some);
            assert(cv@[j2 as int] == ']');
            assert(!(cv@[j2 as int] == ','));
            assert(sp_elements(cv@, i as int) is Some);
            assert((sp_elements(cv@, i as int)->0).0 =~= seq![
                (sp_object(cv@, i as int)->0).0,
            ]);
            assert(v@ =~= seq![(sp_object(cv@, i as int)->0).0].map_values(
                |k: (Seq<char>, Seq<char>, Seq<char>)| v@[0],
            ).update(0, v@[0]));
            assert(v@[0].key() == (sp_object(cv@, i as int)->0).0);
            assert(slice_keys(v@).len() == 1);
            assert(slice_keys(v@)[0] == v@[0].key());
            assert(slice_keys(v@) =~= (sp_elements(cv@, i as int)->0).0);
        }
        Some((v, j2 + 1))
    } else {
        None
    }
}

/// Reads a whole overlay document; anything malformed reads as nothing.
pub fn parse_disabled_slices(text: &str) -> (r: Option<Vec<DisabledSlice>>)
    ensures
        r is Some <==> sp_doc(text@) is Some,
        r is Some ==> slice_keys(r->0@) == sp_doc(text@)->0,
{
    let cv = chars_of(text);
    let j = skip_ws(&cv, 0);
    let j1 = match expect_lit(&cv, j, "[") {
        Some(j1) => j1,
        None => {
            return None;
        },
    };
    let j2 = skip_ws(&cv, j1);
    if j2 < cv.len() && cv[j2] == ']' {
        if skip_ws(&cv, j2 + 1) == cv.len() {
            let v: Vec<DisabledSlice> = Vec::new();
            proof {
                assert(slice_keys(v@) =~= sp_doc(text@)->0);
            }
            return Some(v);
        }
        return None;
    }
    match parse_elements(&cv, j1) {
        Some(els) => {
            if skip_ws(&cv, els.1) == cv.len() {
                Some(els.0)
            } else {
                None
            }
        },
        None => None,
    }
}

/// A real character value: in range and not a surrogate.  True of every
/// character an actual string can hold.
pub open spec fn char_ok(c: char) -> bool {
    &&& 0 <= (c as int)
    &&& (c as int) <= 0x10FFFF
    &&& ((c as int) < 0xD800 || 0xE000 <= (c as int))
}

/// Every position holds a real character value; stated explicitly because
/// a mathematical character sequence is not so constrained.
pub open spec fn text_valid(x: Seq<char>) -> bool {
    forall|k: int| 0 <= k < x.len() ==> char_ok(#[trigger] x[k])
}

/// A whitespace run ends exactly at the first non-whitespace position.
proof fn lemma_sp_ws_run(s: Seq<char>, i: int, j: int)
    requires
        0 <= i <= j <= s.len(),
        forall|k: int| i <= k < j ==> is_json_ws(#[trigger] s[k]),
        j == s.len() || !is_json_ws(s[j]),
    ensures
        sp_ws(s, i) == j,
    decreases j - i,
{
    if i < j {
        assert(is_json_ws(s[i]));
        lemma_sp_ws_run(s, i + 1, j);
    }
}

/// Reading back one hex digit yields its value.
proof fn lemma_hex_roundtrip(d: int)
    requires
        0 <= d < 16,
    ensures
        hex_val(hex_char(d)) == Some(d),
{
    if d < 10 {
        assert(hex_char(d) as int == 48 + d);
    } else {
        assert(hex_char(d) as int == 87 + d);
    }
}

/// A rendered string value reads back to itself: the escaped characters
/// followed by the closing quote parse to exactly the original characters.
proof fn lemma_sp_chars_render(s: Seq<char>, i: int, x: Seq<char>)
    requires
        text_valid(x),
        0 <= i,
        i + esc_str(x).len() + 1 <= s.len(),
        s.subrange(i, i + esc_str(x).len()) == esc_str(x),
        s[i + esc_str(x).len()] == '"',
    ensures
        sp_chars(s, i) == Some((x, i + esc_str(x).len() + 1)),
    decreases x.len(),
{
    let e = esc_str(x);
    if x.len() == 0 {
        assert(s[i] == '"');
        assert(sp_chars(s, i) == Some((Seq::<char>::empty(), i + 1)));
        assert(Seq::<char>::empty() =~= x);
    } else {
        let c = x[0];
        let ec = esc_char(c);
        let rest = esc_str(x.drop_first());
        assert(e == ec + rest);
        assert forall|m: int| 0 <= m < ec.len() implies s[i + m] == ec[m] by {
            assert(s.subrange(i, i + e.len())[m] == s[i + m]);
            assert(e[m] == ec[m]);
        }
        let i2 = i + ec.len();
        assert(s.subrange(i2, i2 + rest.len()) =~= rest) by {
            assert forall|m: int| 0 <= m < rest.len() implies s.subrange(i2, i2 + rest.len())[m]
                == rest[m] by {
                assert(s.subrange(i2, i2 + rest.len())[m] == s[i2 + m]);
                assert(s.subrange(i, i + e.len())[ec.len() + m] == s[i + ec.len() + m]);
                assert(e[ec.len() + m] == rest[m]);
            }
        }
        assert(s[i2 + rest.len()] == '"');
        assert(text_valid(x.drop_first())) by {
            assert forall|k: int| 0 <= k < x.drop_first().len() implies char_ok(
                #[trigger] x.drop_first()[k],
            ) by {
                assert(x.drop_first()[k] == x[k + 1]);
            }
        }
        lemma_sp_chars_render(s, i2, x.drop_first());
        assert(sp_chars(s, i2) == Some((x.drop_first(), i2 + rest.len() + 1)));
        assert(char_ok(c)) by {
            assert(x[0] == c);
        }
        assert(s[i + 0] == ec[0]);
        if c == '"' {
            assert(s[i] == '\\' && s[i + 1] == '"');
            assert(unescape_code('"') == Some('"'));
            assert(seq![c] + x.drop_first() =~= x);
        } else if c == '\\' {
            assert(s[i] == '\\' && s[i + 1] == '\\');
            assert(seq![c] + x.drop_first() =~= x);
        } else if c == '\n' {
            assert(s[i] == '\\' && s[i + 1] == 'n');
            assert(seq![c] + x.drop_first() =~= x);
        } else if c == '\r' {
            assert(s[i] == '\\' && s[i + 1] == 'r');
            assert(seq![c] + x.drop_first() =~= x);
        } else if c == '\t' {
            assert(s[i] == '\\' && s[i + 1] == 't');
            assert(seq![c] + x.drop_first() =~= x);
        } else if (c as int) < 32 {
            assert(s[i] == '\\' && s[i + 1] == 'u' && s[i + 2] == '0' && s[i + 3] == '0');
            assert(s[i + 4] == hex_char(c as int / 16));
            assert(s[i + 5] == hex_char(c as int % 16));
            assert(hex_val('0') == Some(0int));
            lemma_hex_roundtrip(c as int / 16);
            lemma_hex_roundtrip(c as int % 16);
            let code = 0 * 4096 + 0 * 256 + (c as int / 16) * 16 + c as int % 16;
            assert(code == c as int);
            assert((code as char) == c);
            assert(i2 == i + 6);
            assert(seq![c] + x.drop_first() =~= x);
        } else {
            assert(s[i + 0] == c);
            assert(s[i] == c);
            assert(c != '"' && c != '\\');
            assert((s[i] as int) >= 32);
            assert(seq![c] + x.drop_first() =~= x);
        }
    }
}

/// The fixed opening of an object's body, from its brace to the first
/// value's opening quote.
pub open spec fn obj_head() -> Seq<char> {
    "{"@ + "\n    "@ + "\"test_name\""@ + ":"@ + " "@ + "\""@
}

/// An object's rendered body: everything but the leading indentation.
pub open spec fn obj_text(tr: (Seq<char>, Seq<char>, Seq<char>)) -> Seq<char> {
    obj_head() + esc_str(tr.0) + ent_b() + esc_str(tr.1) + ent_c() + esc_str(tr.2) + ent_d()
}

/// An entry is its indentation plus its body.
proof fn lemma_entry_split(tr: (Seq<char>, Seq<char>, Seq<char>))
    ensures
        render_entry(tr) == "  "@ + obj_text(tr),
{
    assert(render_entry(tr) =~= "  "@ + obj_text(tr));
}

/// A part of a matched range matches the same part of the pattern.
proof fn lemma_subrange_slice(s: Seq<char>, q: int, t: Seq<char>, a: int, b: int)
    requires
        0 <= q,
        q + t.len() <= s.len(),
        s.subrange(q, q + t.len()) == t,
        0 <= a <= b <= t.len(),
    ensures
        s.subrange(q + a, q + b) == t.subrange(a, b),
{
    assert(s.subrange(q + a, q + b) =~= t.subrange(a, b)) by {
        assert forall|m: int| 0 <= m < b - a implies s.subrange(q + a, q + b)[m] == t.subrange(
            a,
            b,
        )[m] by {
            assert(s.subrange(q, q + t.len())[a + m] == s[q + a + m]);
        }
    }
}

/// One character of a matched range.
proof fn lemma_subrange_char(s: Seq<char>, q: int, t: Seq<char>, m: int)
    requires
        0 <= q,
        q + t.len() <= s.len(),
        s.subrange(q, q + t.len()) == t,
        0 <= m < t.len(),
    ensures
        s[q + m] == t[m],
{
    assert(s.subrange(q, q + t.len())[m] == s[q + m]);
}

/// The body of one field as it is rendered, for a given quoted key.
pub open spec fn field_text(key: Seq<char>, x: Seq<char>) -> Seq<char> {
    "\n    "@ + key + ":"@ + " "@ + "\""@ + esc_str(x)
}

/// A rendered field reads back to its value.
#[verifier::rlimit(100)]
#[verifier::spinoff_prover]
proof fn lemma_sp_field_render(s: Seq<char>, p: int, key: Seq<char>, x: Seq<char>)
    requires
        text_valid(x),
        key.len() > 0,
        key[0] == '"',
        0 <= p,
        p + field_text(key, x).len() + 1 <= s.len(),
        s.subrange(p, p + field_text(key, x).len()) == field_text(key, x),
        s[p + field_text(key, x).len()] == '"',
    ensures
        sp_field(s, p, key) == Some((x, p + field_text(key, x).len() + 1)),
{
    reveal_strlit("\n    ");
    reveal_strlit(":");
    reveal_strlit(" ");
    reveal_strlit("\"");
    assert("\n    "@ =~= seq!['\n', ' ', ' ', ' ', ' ']);
    assert(":"@ =~= seq![':']);
    assert(" "@ =~= seq![' ']);
    assert("\""@ =~= seq!['"']);
    let ft = field_text(key, x);
    let kn = key.len() as int;
    assert(ft.len() == 5 + kn + 3 + esc_str(x).len());
    assert forall|m: int| 0 <= m < 5 implies s[p + m] == "\n    "@[m] by {
        lemma_subrange_char(s, p, ft, m);
        assert(ft[m] == "\n    "@[m]);
    }
    assert(s[p + 0] == '\n' && s[p + 1] == ' ' && s[p + 2] == ' ' && s[p + 3] == ' ' && s[p + 4]
        == ' ');
    assert(s[p + 5] == key[0]) by {
        lemma_subrange_char(s, p, ft, 5);
        assert(ft[5] == key[0]);
    }
    assert forall|k: int| p <= k < p + 5 implies is_json_ws(#[trigger] s[k]) by {
        if k == p {
        } else if k == p + 1 {
        } else if k == p + 2 {
        } else if k == p + 3 {
        } else {
            assert(k == p + 4);
        }
    }
    assert(!is_json_ws('"'));
    lemma_sp_ws_run(s, p, p + 5);
    assert(s.subrange(p + 5, p + 5 + kn) =~= key) by {
        lemma_subrange_slice(s, p, ft, 5, 5 + kn);
        assert(ft.subrange(5, 5 + kn) =~= key);
    }
    assert(sp_expect(s, p + 5, key) == Some(p + 5 + kn));
    let q1 = p + 5 + kn;
    assert(s[q1 + 0] == ':') by {
        lemma_subrange_char(s, p, ft, 5 + kn);
        assert(ft[5 + kn] == ':');
    }
    assert(!is_json_ws(':'));
    lemma_sp_ws_run(s, q1, q1);
    assert(s.subrange(q1, q1 + 1) =~= ":"@) by {
        lemma_subrange_slice(s, p, ft, 5 + kn, 5 + kn + 1);
        assert(ft.subrange(5 + kn, 5 + kn + 1) =~= ":"@);
    }
    assert(sp_expect(s, q1, ":"@) == Some(q1 + 1));
    let q2 = q1 + 1;
    assert(s[q2 + 0] == ' ' && s[q2 + 1] == '"') by {
        lemma_subrange_char(s, p, ft, 5 + kn + 1);
        lemma_subrange_char(s, p, ft, 5 + kn + 2);
        assert(ft[5 + kn + 1] == ' ');
        assert(ft[5 + kn + 2] == '"');
    }
    assert forall|k: int| q2 <= k < q2 + 1 implies is_json_ws(#[trigger] s[k]) by {
        assert(k == q2);
        assert(s[q2 + 0] == ' ');
    }
    lemma_sp_ws_run(s, q2, q2 + 1);
    assert(s.subrange(q2 + 1, q2 + 2) =~= "\""@) by {
        lemma_subrange_slice(s, p, ft, 5 + kn + 2, 5 + kn + 3);
        assert(ft.subrange(5 + kn + 2, 5 + kn + 3) =~= "\""@);
    }
    assert(sp_expect(s, q2 + 1, "\""@) == Some(q2 + 2));
    let q3 = q2 + 2;
    assert(s.subrange(q3, q3 + esc_str(x).len()) =~= esc_str(x)) by {
        lemma_subrange_slice(s, p, ft, 5 + kn + 3, ft.len() as int);
        assert(ft.subrange(5 + kn + 3, ft.len() as int) =~= esc_str(x));
    }
    assert(s[q3 + esc_str(x).len()] == '"');
    lemma_sp_chars_render(s, q3, x);
    assert(sp_chars(s, q3) == Some((x, q3 + esc_str(x).len() + 1)));
}

/// A rendered object body, behind any whitespace, reads back to its
/// triple.
#[verifier::rlimit(100)]
#[verifier::spinoff_prover]
proof fn lemma_sp_object_render(s: Seq<char>, i: int, q: int, tr: (Seq<char>, Seq<char>, Seq<char>))
    requires
        text_valid(tr.0),
        text_valid(tr.1),
        text_valid(tr.2),
        0 <= i <= q,
        q + obj_text(tr).len() <= s.len(),
        forall|k: int| i <= k < q ==> is_json_ws(#[trigger] s[k]),
        s.subrange(q, q + obj_text(tr).len()) == obj_text(tr),
    ensures
        sp_object(s, i) == Some((tr, q + obj_text(tr).len())),
{
    reveal_strlit("{");
    reveal_strlit(",");
    reveal_strlit("}");
    reveal_strlit("\"");
    reveal_strlit("\n  ");
    reveal_strlit("\n    ");
    reveal_strlit(":");
    reveal_strlit(" ");
    reveal_strlit("\"test_name\"");
    reveal_strlit("\"recording_name\"");
    reveal_strlit("\"participant_name\"");
    assert("{"@ =~= seq!['{']);
    assert(","@ =~= seq![',']);
    assert("}"@ =~= seq!['}']);
    assert("\""@ =~= seq!['"']);
    assert("\n  "@ =~= seq!['\n', ' ', ' ']);
    assert("\n    "@ =~= seq!['\n', ' ', ' ', ' ', ' ']);
    assert(":"@ =~= seq![':']);
    assert(" "@ =~= seq![' ']);
    assert("\"test_name\""@ =~= seq!['"', 't', 'e', 's', 't', '_', 'n', 'a', 'm', 'e', '"']);
    assert("\"recording_name\""@ =~= seq![
        '"', 'r', 'e', 'c', 'o', 'r', 'd', 'i', 'n', 'g', '_', 'n', 'a', 'm', 'e', '"',
    ]);
    assert("\"participant_name\""@ =~= seq![
        '"', 'p', 'a', 'r', 't', 'i', 'c', 'i', 'p', 'a', 'n', 't', '_', 'n', 'a', 'm', 'e', '"',
    ]);
    let ot = obj_text(tr);
    let e0 = esc_str(tr.0).len() as int;
    let e1l = esc_str(tr.1).len() as int;
    let e2l = esc_str(tr.2).len() as int;
    assert(obj_head().len() == 1 + 5 + 11 + 1 + 1 + 1);
    assert(ent_b().len() == 2 + 5 + 16 + 1 + 1 + 1);
    assert(ent_c().len() == 2 + 5 + 18 + 1 + 1 + 1);
    assert(ent_d().len() == 1 + 3 + 1);
    assert(s[q + 0] == '{') by {
        lemma_subrange_char(s, q, ot, 0);
        assert(ot[0] == '{');
    }
    assert(!is_json_ws('{'));
    lemma_sp_ws_run(s, i, q);
    assert(s.subrange(q, q + 1) =~= "{"@) by {
        lemma_subrange_slice(s, q, ot, 0, 1);
        assert(ot.subrange(0, 1) =~= "{"@);
    }
    assert(sp_expect(s, q, "{"@) == Some(q + 1));
    // first field
    let p1 = q + 1;
    let f1 = field_text("\"test_name\""@, tr.0);
    assert((f1.len() as int) == 5 + 11 + 3 + e0);
    assert(s.subrange(p1, p1 + (f1.len() as int)) =~= f1) by {
        lemma_subrange_slice(s, q, ot, 1, 1 + (f1.len() as int));
        assert(ot.subrange(1, 1 + (f1.len() as int)) =~= f1);
    }
    assert(s[p1 + (f1.len() as int)] == '"') by {
        lemma_subrange_char(s, q, ot, 1 + (f1.len() as int));
        assert(ot[1 + (f1.len() as int)] == '"');
    }
    assert("\"test_name\""@[0] == '"');
    lemma_sp_field_render(s, p1, "\"test_name\""@, tr.0);
    let x1 = p1 + (f1.len() as int) + 1;
    assert(sp_field(s, p1, "\"test_name\""@) == Some((tr.0, x1)));
    // separator
    assert(x1 == q + 1 + 5 + 11 + 3 + e0 + 1);
    assert(s[x1 + 0] == ',') by {
        lemma_subrange_char(s, q, ot, x1 - q);
        assert(ot[x1 - q] == ',');
    }
    assert(!is_json_ws(','));
    lemma_sp_ws_run(s, x1, x1);
    assert(s.subrange(x1, x1 + 1) =~= ","@) by {
        lemma_subrange_slice(s, q, ot, x1 - q, x1 - q + 1);
        assert(ot.subrange(x1 - q, x1 - q + 1) =~= ","@);
    }
    assert(sp_expect(s, x1, ","@) == Some(x1 + 1));
    // second field
    let p2 = x1 + 1;
    let f2 = field_text("\"recording_name\""@, tr.1);
    assert((f2.len() as int) == 5 + 16 + 3 + e1l);
    assert(s.subrange(p2, p2 + (f2.len() as int)) =~= f2) by {
        lemma_subrange_slice(s, q, ot, p2 - q, p2 - q + (f2.len() as int));
        assert(ot.subrange(p2 - q, p2 - q + (f2.len() as int)) =~= f2);
    }
    assert(s[p2 + (f2.len() as int)] == '"') by {
        lemma_subrange_char(s, q, ot, p2 - q + (f2.len() as int));
        assert(ot[p2 - q + (f2.len() as int)] == '"');
    }
    assert("\"recording_name\""@[0] == '"');
    lemma_sp_field_render(s, p2, "\"recording_name\""@, tr.1);
    let x2 = p2 + (f2.len() as int) + 1;
    assert(sp_field(s, p2, "\"recording_name\""@) == Some((tr.1, x2)));
    // separator
    assert(s[x2 + 0] == ',') by {
        lemma_subrange_char(s, q, ot, x2 - q);
        assert(ot[x2 - q] == ',');
    }
    lemma_sp_ws_run(s, x2, x2);
    assert(s.subrange(x2, x2 + 1) =~= ","@) by {
        lemma_subrange_slice(s, q, ot, x2 - q, x2 - q + 1);
        assert(ot.subrange(x2 - q, x2 - q + 1) =~= ","@);
    }
    assert(sp_expect(s, x2, ","@) == Some(x2 + 1));
    // third field
    let p3 = x2 + 1;
    let f3 = field_text("\"participant_name\""@, tr.2);
    assert((f3.len() as int) == 5 + 18 + 3 + e2l);
    assert(s.subrange(p3, p3 + (f3.len() as int)) =~= f3) by {
        lemma_subrange_slice(s, q, ot, p3 - q, p3 - q + (f3.len() as int));
        assert(ot.subrange(p3 - q, p3 - q + (f3.len() as int)) =~= f3);
    }
    assert(s[p3 + (f3.len() as int)] == '"') by {
        lemma_subrange_char(s, q, ot, p3 - q + (f3.len() as int));
        assert(ot[p3 - q + (f3.len() as int)] == '"');
    }
    assert("\"participant_name\""@[0] == '"');
    lemma_sp_field_render(s, p3, "\"participant_name\""@, tr.2);
    let x3 = p3 + (f3.len() as int) + 1;
    assert(sp_field(s, p3, "\"participant_name\""@) == Some((tr.2, x3)));
    // closing brace behind its newline and indent
    assert(s[x3 + 0] == '\n' && s[x3 + 1] == ' ' && s[x3 + 2] == ' ' && s[x3 + 3] == '}') by {
        lemma_subrange_char(s, q, ot, x3 - q);
        lemma_subrange_char(s, q, ot, x3 - q + 1);
        lemma_subrange_char(s, q, ot, x3 - q + 2);
        lemma_subrange_char(s, q, ot, x3 - q + 3);
        assert(ot[x3 - q] == '\n');
        assert(ot[x3 - q + 1] == ' ');
        assert(ot[x3 - q + 2] == ' ');
        assert(ot[x3 - q + 3] == '}');
    }
    assert forall|k: int| x3 <= k < x3 + 3 implies is_json_ws(#[trigger] s[k]) by {
        if k == x3 {
        } else if k == x3 + 1 {
        } else {
            assert(k == x3 + 2);
        }
    }
    assert(!is_json_ws('}'));
    lemma_sp_ws_run(s, x3, x3 + 3);
    assert(s.subrange(x3 + 3, x3 + 4) =~= "}"@) by {
        lemma_subrange_slice(s, q, ot, x3 - q + 3, x3 - q + 4);
        assert(ot.subrange(x3 - q + 3, x3 - q + 4) =~= "}"@);
    }
    assert(sp_expect(s, x3 + 3, "}"@) == Some(x3 + 4));
    assert(x3 + 4 == q + ot.len());
}

/// Every component of every triple is made of real character values.
pub open spec fn triples_valid(v: Seq<(Seq<char>, Seq<char>, Seq<char>)>) -> bool {
    forall|i: int|
        0 <= i < v.len() ==> text_valid((#[trigger] v[i]).0) && text_valid(v[i].1) && text_valid(
            v[i].2,
        )
}

/// The first rendered entry behind `p` parses as one object.
#[verifier::rlimit(100)]
#[verifier::spinoff_prover]
proof fn lemma_elements_head(s: Seq<char>, p: int, v: Seq<(Seq<char>, Seq<char>, Seq<char>)>)
    requires
        triples_valid(v),
        v.len() >= 1,
        0 <= p,
        p + 1 + render_entries(v).len() + 2 <= s.len(),
        s.subrange(p, p + 1 + render_entries(v).len() + 2) == "\n"@ + render_entries(v) + "\n"@
            + "]"@,
    ensures
        sp_object(s, p) == Some((v[0], p + 3 + obj_text(v[0]).len())),
    decreases v.len(),
{
    reveal_strlit("\n");
    reveal_strlit(",");
    reveal_strlit("  ");
    assert("\n"@ =~= seq!['\n']);
    assert(","@ =~= seq![',']);
    assert("  "@ =~= seq![' ', ' ']);
    let tr = v[0];
    lemma_entry_split(tr);
    let t = "\n"@ + render_entries(v) + "\n"@ + "]"@;
    let ol = obj_text(tr).len() as int;
    if v.len() == 1 {
        assert(render_entries(v) == render_entry(tr));
    } else {
        assert(render_entries(v) == render_entry(tr) + ","@ + "\n"@ + render_entries(
            v.drop_first(),
        ));
    }
    assert(s[p + 0] == '\n' && s[p + 1] == ' ' && s[p + 2] == ' ') by {
        lemma_subrange_char(s, p, t, 0);
        lemma_subrange_char(s, p, t, 1);
        lemma_subrange_char(s, p, t, 2);
    }
    assert forall|k: int| p <= k < p + 3 implies is_json_ws(#[trigger] s[k]) by {
        if k == p {
        } else if k == p + 1 {
        } else {
            assert(k == p + 2);
        }
    }
    assert(s.subrange(p + 3, p + 3 + ol) =~= obj_text(tr)) by {
        assert forall|m: int| 0 <= m < ol implies s.subrange(p + 3, p + 3 + ol)[m] == obj_text(
            tr,
        )[m] by {
            lemma_subrange_char(s, p, t, 3 + m);
            assert(t[3 + m] == obj_text(tr)[m]);
        }
    }
    lemma_sp_object_render(s, p, p + 3, tr);
}

/// Rendered entries followed by the closing newline and bracket read back
/// to exactly the entries.
#[verifier::rlimit(100)]
#[verifier::spinoff_prover]
proof fn lemma_sp_elements_render(s: Seq<char>, p: int, v: Seq<(Seq<char>, Seq<char>, Seq<char>)>)
    requires
        triples_valid(v),
        v.len() >= 1,
        0 <= p,
        p + 1 + render_entries(v).len() + 2 <= s.len(),
        s.subrange(p, p + 1 + render_entries(v).len() + 2) == "\n"@ + render_entries(v) + "\n"@
            + "]"@,
    ensures
        sp_elements(s, p) == Some((v, p + 1 + render_entries(v).len() + 2)),
    decreases v.len(),
{
    reveal_strlit("\n");
    reveal_strlit("]");
    reveal_strlit(",");
    reveal_strlit("  ");
    assert("\n"@ =~= seq!['\n']);
    assert("]"@ =~= seq![']']);
    assert(","@ =~= seq![',']);
    assert("  "@ =~= seq![' ', ' ']);
    let tr = v[0];
    lemma_entry_split(tr);
    let t = "\n"@ + render_entries(v) + "\n"@ + "]"@;
    let tn = t.len() as int;
    let ol = obj_text(tr).len() as int;
    lemma_elements_head(s, p, v);
    let e = p + 3 + ol;
    assert(sp_object(s, p) == Some((tr, e)));
    if v.len() == 1 {
        assert(render_entries(v) == render_entry(tr));
        assert(t =~= seq!['\n', ' ', ' '] + obj_text(tr) + seq!['\n', ']']);
        assert(s[e + 0] == '\n' && s[e + 1] == ']') by {
            lemma_subrange_char(s, p, t, 3 + ol);
            lemma_subrange_char(s, p, t, 3 + ol + 1);
        }
        assert forall|k: int| e <= k < e + 1 implies is_json_ws(#[trigger] s[k]) by {
            assert(k == e);
        }
        assert(!is_json_ws(']'));
        lemma_sp_ws_run(s, e, e + 1);
        assert(!(s[e + 1] == ','));
        assert(sp_elements(s, p) == Some((seq![tr], e + 2)));
        assert(seq![tr] =~= v);
    } else {
        let rest = v.drop_first();
        assert(render_entries(v) == render_entry(tr) + ","@ + "\n"@ + render_entries(rest));
        assert(t =~= seq!['\n', ' ', ' '] + obj_text(tr) + seq![','] + ("\n"@ + render_entries(
            rest,
        ) + "\n"@ + "]"@));
        assert(s[e + 0] == ',') by {
            lemma_subrange_char(s, p, t, 3 + ol);
        }
        assert(!is_json_ws(','));
        lemma_sp_ws_run(s, e, e);
        let p2 = e + 1;
        assert(triples_valid(rest)) by {
            assert forall|m: int|
                0 <= m < rest.len() implies text_valid((#[trigger] rest[m]).0) && text_valid(
                rest[m].1,
            ) && text_valid(rest[m].2) by {
                assert(rest[m] == v[m + 1]);
            }
        }
        assert(s.subrange(p2, p2 + 1 + render_entries(rest).len() + 2) =~= "\n"@
            + render_entries(rest) + "\n"@ + "]"@) by {
            assert forall|m: int|
                0 <= m < 1 + render_entries(rest).len() + 2 implies s.subrange(
                p2,
                p2 + 1 + render_entries(rest).len() + 2,
            )[m] == ("\n"@ + render_entries(rest) + "\n"@ + "]"@)[m] by {
                lemma_subrange_char(s, p, t, p2 - p + m);
                assert(t[p2 - p + m] == ("\n"@ + render_entries(rest) + "\n"@ + "]"@)[m]);
            }
        }
        lemma_sp_elements_render(s, p2, rest);
        assert(sp_elements(s, p2) == Some((rest, p2 + 1 + render_entries(rest).len() + 2)));
        assert(seq![tr] + rest =~= v);
        assert(p2 + 1 + render_entries(rest).len() + 2 == p + 1 + render_entries(v).len() + 2);
    }
}

/// The set of triples occurring in a parsed document.
pub open spec fn triple_set(v: Seq<(Seq<char>, Seq<char>, Seq<char>)>) -> Set<
    (Seq<char>, Seq<char>, Seq<char>),
> {
    Set::new(|k: (Seq<char>, Seq<char>, Seq<char>)| v.contains(k))
}

/// A slice vector's key sequence names the same set as its key membership.
pub proof fn lemma_triple_set_of_slices(sl: Seq<DisabledSlice>)
    ensures
        triple_set(slice_keys(sl)) == crate::overlay::key_set(sl),
{
    assert forall|k: (Seq<char>, Seq<char>, Seq<char>)|
        triple_set(slice_keys(sl)).contains(k) <==> crate::overlay::key_set(sl).contains(k) by {
        if slice_keys(sl).contains(k) {
            let w = choose|w: int| 0 <= w < slice_keys(sl).len() && slice_keys(sl)[w] == k;
            assert(sl[w].key() == k);
        }
        if crate::overlay::key_in(sl, k) {
            let w = choose|w: int| 0 <= w < sl.len() && (#[trigger] sl[w]).key() == k;
            assert(slice_keys(sl)[w] == k);
        }
    }
    assert(triple_set(slice_keys(sl)) =~= crate::overlay::key_set(sl));
}

/// The persistence round trip, end to end: rendering an overlay's slices
/// and reading the document back yields slices carrying exactly the same
/// keys, in the same order.
pub fn persist_round_trip(slices: &Vec<DisabledSlice>) -> (r: Vec<DisabledSlice>)
    ensures
        slice_keys(r@) == slice_keys(slices@),
{
    let text = render_disabled_slices(slices);
    proof {
        lemma_overlay_doc_round_trip(slice_keys(slices@));
    }
    match parse_disabled_slices(text.as_str()) {
        Some(v) => v,
        None => {
            proof {
                assert(false);
            }
            Vec::new()
        },
    }
}

/// Rebuilds the overlay from its durable text.  A document that reads back
/// gives exactly its triples' set; an unreadable one gives the empty
/// overlay, never an error.
pub fn overlay_from_text(text: &str) -> (r: crate::overlay::DisabledStore)
    ensures
        match sp_doc(text@) {
            Some(v) => r@ == triple_set(v),
            None => r@ == Set::<(Seq<char>, Seq<char>, Seq<char>)>::empty(),
        },
{
    match parse_disabled_slices(text) {
        Some(slices) => {
            proof {
                lemma_triple_set_of_slices(slices@);
            }
            crate::overlay::DisabledStore::from_slices(slices)
        },
        None => crate::overlay::DisabledStore::new(),
    }
}

/// The non-empty document reads back to its triples.
#[verifier::rlimit(100)]
#[verifier::spinoff_prover]
proof fn lemma_doc_nonempty(v: Seq<(Seq<char>, Seq<char>, Seq<char>)>)
    requires
        triples_valid(v),
        v.len() >= 1,
    ensures
        sp_doc(render_doc(v)) == Some(v),
{
    reveal_strlit("[");
    reveal_strlit("]");
    reveal_strlit("\n");
    reveal_strlit("  ");
    assert("["@ =~= seq!['[']);
    assert("]"@ =~= seq![']']);
    assert("\n"@ =~= seq!['\n']);
    assert("  "@ =~= seq![' ', ' ']);
    let s = render_doc(v);
    let tr = v[0];
    lemma_entry_split(tr);
    if v.len() == 1 {
        assert(render_entries(v) == render_entry(tr));
    } else {
        assert(render_entries(v) == render_entry(tr) + ","@ + "\n"@ + render_entries(
            v.drop_first(),
        ));
    }
    assert(render_entries(v).len() >= 2);
    assert(render_entries(v)[0] == ' ' && render_entries(v)[1] == ' ');
    assert(s =~= "["@ + ("\n"@ + render_entries(v) + "\n"@ + "]"@));
    assert(s[0] == '[');
    assert(!is_json_ws('['));
    lemma_sp_ws_run(s, 0, 0);
    assert(s.subrange(0, 1) =~= "["@);
    assert(sp_expect(s, 0, "["@) == Some(1int));
    let body = "\n"@ + render_entries(v) + "\n"@ + "]"@;
    assert(s.subrange(1, 1 + body.len() as int) =~= body) by {
        assert forall|m: int| 0 <= m < body.len() implies s.subrange(
            1,
            1 + body.len() as int,
        )[m] == body[m] by {
            assert(s[1 + m] == body[m]);
        }
    }
    lemma_sp_elements_render(s, 1, v);
    let e: int = 1 + 1 + render_entries(v).len() as int + 2;
    assert(sp_elements(s, 1) == Some((v, e)));
    assert(e == s.len());
    // the bracket-lookahead sees the first entry's brace, not a closing one
    assert(s[1] == '\n' && s[2] == ' ' && s[3] == ' ') by {
        lemma_subrange_char(s, 1, body, 0);
        lemma_subrange_char(s, 1, body, 1);
        lemma_subrange_char(s, 1, body, 2);
    }
    assert(s[4] == '{') by {
        lemma_subrange_char(s, 1, body, 3);
        assert(body[3] == render_entries(v)[2]);
        reveal_strlit("{");
        assert("{"@ =~= seq!['{']);
        assert(obj_text(tr).len() >= 1);
        assert(render_entry(tr)[2] == obj_text(tr)[0]);
        assert(render_entries(v)[2] == render_entry(tr)[2]);
        assert(obj_text(tr)[0] == '{');
    }
    assert forall|k: int| 1 <= k < 4 implies is_json_ws(#[trigger] s[k]) by {
        if k == 1 {
        } else if k == 2 {
        } else {
            assert(k == 3);
        }
    }
    assert(!is_json_ws('{'));
    lemma_sp_ws_run(s, 1, 4);
    assert(!(s[4] == ']'));
    lemma_sp_ws_run(s, e, e);
    assert(sp_doc(s) == Some(v));
}

/// Persisting an overlay and reading it back yields the overlay unchanged:
/// the rendered document parses to exactly the rendered triples.  Together
/// with the store's set semantics this is the persistence round trip.
pub proof fn lemma_overlay_doc_round_trip(v: Seq<(Seq<char>, Seq<char>, Seq<char>)>)
    requires
        triples_valid(v),
    ensures
        sp_doc(render_doc(v)) == Some(v),
{
    reveal_strlit("[");
    reveal_strlit("]");
    assert("["@ =~= seq!['[']);
    assert("]"@ =~= seq![']']);
    let s = render_doc(v);
    if v.len() == 0 {
        assert(s =~= seq!['[', ']']);
        assert(!is_json_ws('['));
        lemma_sp_ws_run(s, 0, 0);
        assert(s.subrange(0, 1) =~= "["@);
        assert(sp_expect(s, 0, "["@) == Some(1int));
        assert(!is_json_ws(']'));
        lemma_sp_ws_run(s, 1, 1);
        assert(s[1] == ']');
        lemma_sp_ws_run(s, 2, 2);
        assert(sp_doc(s) == Some(Seq::<(Seq<char>, Seq<char>, Seq<char>)>::empty()));
        assert(Seq::<(Seq<char>, Seq<char>, Seq<char>)>::empty() =~= v);
    } else {
        lemma_doc_nonempty(v);
    }
}

} // verus!
