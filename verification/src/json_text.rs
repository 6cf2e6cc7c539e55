//! JSON text of the overlay and readout channels.
//!
//! Strings are escaped the way the overlay consumer expects: quote,
//! backslash, newline, carriage return and tab get their two-character
//! escapes, other control characters a `\u00XX` escape with lowercase hex
//! digits, and every other character stands for itself.
use vstd::prelude::*;

verus! {

broadcast use vstd::string::group_string_axioms;

/// `std::string::String::push`: appends one character.
#[verifier::external_body]
fn string_push(s: &mut String, c: char)
    ensures
        final(s)@ == old(s)@.push(c),
{
    s.push(c);
}

/// Lowercase hex digit of `d` (`0 <= d < 16`).
pub open spec fn hex_digit(d: int) -> char {
    if d < 10 {
        (('0' as int) + d) as char
    } else {
        (('a' as int) + d - 10) as char
    }
}

/// The escape of one character.
pub open spec fn escape_char(c: char) -> Seq<char> {
    if c == '"' {
        seq!['\\', '"']
    } else if c == '\\' {
        seq!['\\', '\\']
    } else if c == '\n' {
        seq!['\\', 'n']
    } else if c == '\r' {
        seq!['\\', 'r']
    } else if c == '\t' {
        seq!['\\', 't']
    } else if (c as int) < 0x20 {
        seq!['\\', 'u', '0', '0', hex_digit((c as int) / 16), hex_digit((c as int) % 16)]
    } else {
        seq![c]
    }
}

/// The escape of a character sequence: each character's escape in order.
pub open spec fn escaped(s: Seq<char>) -> Seq<char>
    decreases s.len(),
{
    if s.len() == 0 {
        seq![]
    } else {
        escaped(s.drop_last()) + escape_char(s.last())
    }
}

fn hex_char(d: u32) -> (c: char)
    requires
        d < 16,
    ensures
        c == hex_digit(d as int),
{
    match d {
        0 => '0',
        1 => '1',
        2 => '2',
        3 => '3',
        4 => '4',
        5 => '5',
        6 => '6',
        7 => '7',
        8 => '8',
        9 => '9',
        10 => 'a',
        11 => 'b',
        12 => 'c',
        13 => 'd',
        14 => 'e',
        _ => 'f',
    }
}

/// Append the escape of `c` to `out`.
fn push_escaped_char(out: &mut String, c: char)
    ensures
        final(out)@ == old(out)@ + escape_char(c),
{
    if c == '"' {
        string_push(out, '\\');
        string_push(out, '"');
    } else if c == '\\' {
        string_push(out, '\\');
        string_push(out, '\\');
    } else if c == '\n' {
        string_push(out, '\\');
        string_push(out, 'n');
    } else if c == '\r' {
        string_push(out, '\\');
        string_push(out, 'r');
    } else if c == '\t' {
        string_push(out, '\\');
        string_push(out, 't');
    } else if (c as u32) < 0x20 {
        let v = c as u32;
        string_push(out, '\\');
        string_push(out, 'u');
        string_push(out, '0');
        string_push(out, '0');
        string_push(out, hex_char(v / 16));
        string_push(out, hex_char(v % 16));
    } else {
        string_push(out, c);
    }
    assert(out@ =~= old(out)@ + escape_char(c));
}

/// Append the escape of `s` to `out`.
pub fn push_escaped(out: &mut String, s: &str)
    ensures
        final(out)@ == old(out)@ + escaped(s@),
{
    let ghost start = out@;
    assert(s@.take(s@.len() as int) =~= s@);
    for c in it: s.chars()
        invariant
            it.seq() == s@,
            out@ == start + escaped(it.seq().take(it.index() as int)),
    {
        proof {
            let i = it.index() as int;
            assert(it.seq().take(i + 1).drop_last() =~= it.seq().take(i));
            assert(it.seq().take(i + 1).last() == c);
        }
        push_escaped_char(out, c);
    }
}

/// The JSON-escaped copy of `s`.
pub fn json_escape(s: &str) -> (r: String)
    ensures
        r@ == escaped(s@),
{
    let mut out = String::new();
    push_escaped(&mut out, s);
    out
}

/// Text before a HUD row's label.
pub open spec fn hud_label_open() -> Seq<char> {
    seq!['{', '"', 'l', 'a', 'b', 'e', 'l', '"', ':', '"']
}

/// Text between a HUD row's label and value.
pub open spec fn hud_value_open() -> Seq<char> {
    seq!['"', ',', '"', 'v', 'a', 'l', 'u', 'e', '"', ':', '"']
}

/// Text after a HUD row's value.
pub open spec fn hud_row_close() -> Seq<char> {
    seq!['"', '}']
}

/// One HUD row: `{"label":"<label>","value":"<value>"}` with both escaped.
pub open spec fn hud_row(label: Seq<char>, value: Seq<char>) -> Seq<char> {
    hud_label_open() + escaped(label) + hud_value_open() + escaped(value) + hud_row_close()
}

/// The rows of a HUD readout, comma-separated.
pub open spec fn hud_rows(rows: Seq<(Seq<char>, Seq<char>)>) -> Seq<char>
    decreases rows.len(),
{
    if rows.len() == 0 {
        seq![]
    } else if rows.len() == 1 {
        hud_row(rows[0].0, rows[0].1)
    } else {
        hud_rows(rows.drop_last()) + seq![','] + hud_row(rows.last().0, rows.last().1)
    }
}

/// A single row is its object alone.
pub proof fn lemma_hud_rows_single(r: (Seq<char>, Seq<char>))
    ensures
        hud_rows(seq![r]) == hud_row(r.0, r.1),
{
}

/// Joining two non-empty runs of rows puts exactly one comma between them:
/// consecutive row objects are always separated by one `,`.
pub proof fn lemma_hud_rows_concat(a: Seq<(Seq<char>, Seq<char>)>, b: Seq<(Seq<char>, Seq<char>)>)
    requires
        a.len() > 0,
        b.len() > 0,
    ensures
        hud_rows(a + b) == hud_rows(a) + seq![','] + hud_rows(b),
    decreases b.len(),
{
    let ab = a + b;
    assert(ab.drop_last() =~= a + b.drop_last());
    assert(ab.last() == b.last());
    if b.len() == 1 {
        assert(b.drop_last() =~= Seq::<(Seq<char>, Seq<char>)>::empty());
        assert(a + b.drop_last() =~= a);
        assert(b[0] == b.last());
        assert(hud_rows(ab) =~= hud_rows(a) + seq![','] + hud_rows(b));
    } else {
        lemma_hud_rows_concat(a, b.drop_last());
        assert(hud_rows(ab) =~= hud_rows(a) + seq![','] + hud_rows(b));
    }
}

/// A HUD readout: `[` then the rows, comma-separated, then `]`.
pub open spec fn hud_json_spec(rows: Seq<(Seq<char>, Seq<char>)>) -> Seq<char> {
    seq!['['] + hud_rows(rows) + seq![']']
}

/// The views of HUD label/value pairs.
pub open spec fn row_views(rows: Seq<(String, String)>) -> Seq<(Seq<char>, Seq<char>)> {
    rows.map_values(|r: (String, String)| (r.0@, r.1@))
}

/// Serialize HUD rows to `[{"label":"..","value":".."}, ...]`.
pub fn hud_json(rows: &[(String, String)]) -> (r: String)
    ensures
        r@ == hud_json_spec(row_views(rows@)),
{
    let mut out = String::new();
    string_push(&mut out, '[');
    let n = rows.len();
    let mut i: usize = 0;
    while i < n
        invariant
            n == rows@.len(),
            i <= n,
            out@ == seq!['['] + hud_rows(row_views(rows@).subrange(0, i as int)),
        decreases n - i,
    {
        let ghost before = out@;
        if i > 0 {
            string_push(&mut out, ',');
        }
        let label = rows[i].0.as_str();
        let value = rows[i].1.as_str();
        proof {
            reveal_strlit("{\"label\":\"");
            reveal_strlit("\",\"value\":\"");
            reveal_strlit("\"}");
        }
        out.append("{\"label\":\"");
        push_escaped(&mut out, label);
        out.append("\",\"value\":\"");
        push_escaped(&mut out, value);
        out.append("\"}");
        proof {
            let vs = row_views(rows@);
            let pre = vs.subrange(0, i as int);
            let next = vs.subrange(0, i + 1);
            assert(next.drop_last() =~= pre);
            assert(next.last() == (rows@[i as int].0@, rows@[i as int].1@));
            assert("{\"label\":\""@ =~= hud_label_open());
            assert("\",\"value\":\""@ =~= hud_value_open());
            assert("\"}"@ =~= hud_row_close());
            if i == 0 {
                assert(out@ =~= seq!['['] + hud_rows(next));
            } else {
                assert(out@ =~= seq!['['] + hud_rows(next));
            }
        }
        i += 1;
    }
    string_push(&mut out, ']');
    assert(row_views(rows@).subrange(0, n as int) =~= row_views(rows@));
    out
}

proof fn lemma_escape_char_printable(c: char)
    ensures
        forall|j: int| 0 <= j < escape_char(c).len() ==> (#[trigger] escape_char(c)[j] as int) >= 0x20,
{
    let e = escape_char(c);
    if (c as int) < 0x20 && c != '"' && c != '\\' && c != '\n' && c != '\r' && c != '\t' {
        let hi = (c as int) / 16;
        let lo = (c as int) % 16;
        assert(0 <= hi < 16 && 0 <= lo < 16);
        assert(hex_digit(hi) as int >= 0x30);
        assert(hex_digit(lo) as int >= 0x30);
        assert(e =~= seq!['\\', 'u', '0', '0', hex_digit(hi), hex_digit(lo)]);
    }
}

/// No character of an escape is a raw control character.
pub proof fn lemma_escaped_has_no_control_chars(s: Seq<char>)
    ensures
        forall|k: int| 0 <= k < escaped(s).len() ==> (#[trigger] escaped(s)[k] as int) >= 0x20,
    decreases s.len(),
{
    if s.len() > 0 {
        lemma_escaped_has_no_control_chars(s.drop_last());
        let a = escaped(s.drop_last());
        let e = escape_char(s.last());
        lemma_escape_char_printable(s.last());
        assert forall|k: int| 0 <= k < escaped(s).len() implies (#[trigger] escaped(s)[k] as int)
            >= 0x20 by {
            if k >= a.len() {
                assert(escaped(s)[k] == e[k - a.len()]);
            } else {
                assert(escaped(s)[k] == a[k]);
            }
        }
    }
}

/// Escaping works piecewise: the escape of a concatenation is the
/// concatenation of the escapes.
pub proof fn lemma_escaped_concat(a: Seq<char>, b: Seq<char>)
    ensures
        escaped(a + b) == escaped(a) + escaped(b),
    decreases b.len(),
{
    if b.len() == 0 {
        assert(a + b =~= a);
        assert(escaped(a) + escaped(b) =~= escaped(a));
    } else {
        lemma_escaped_concat(a, b.drop_last());
        assert((a + b).drop_last() =~= a + b.drop_last());
        assert((a + b).last() == b.last());
        assert(escaped(a + b) =~= escaped(a) + escaped(b));
    }
}

/// Text without quotes, backslashes or control characters is its own escape.
pub proof fn lemma_plain_text_unchanged(s: Seq<char>)
    requires
        forall|k: int|
            0 <= k < s.len() ==> (#[trigger] s[k] as int) >= 0x20 && s[k] != '"' && s[k] != '\\',
    ensures
        escaped(s) == s,
    decreases s.len(),
{
    if s.len() > 0 {
        lemma_plain_text_unchanged(s.drop_last());
        assert(s.last() == s[s.len() - 1]);
        assert(escaped(s) =~= s);
    }
}

/// Value of a JSON hex digit (either case), or -1.
pub open spec fn hex_value(c: char) -> int {
    let v = c as int;
    if 0x30 <= v <= 0x39 {
        v - 0x30
    } else if 0x61 <= v <= 0x66 {
        v - 0x61 + 10
    } else if 0x41 <= v <= 0x46 {
        v - 0x41 + 10
    } else {
        -1
    }
}

/// Value of the four hex digits `t[k..k + 4]`, or -1 if one is not a digit.
pub open spec fn hex4(t: Seq<char>, k: int) -> int {
    if hex_value(t[k]) < 0 || hex_value(t[k + 1]) < 0 || hex_value(t[k + 2]) < 0 || hex_value(
        t[k + 3],
    ) < 0 {
        -1
    } else {
        4096 * hex_value(t[k]) + 256 * hex_value(t[k + 1]) + 16 * hex_value(t[k + 2]) + hex_value(
            t[k + 3],
        )
    }
}

/// The character a two-character JSON escape `\e` stands for.
pub open spec fn short_escape(e: char) -> Option<char> {
    if e == '"' {
        Some('"')
    } else if e == '\\' {
        Some('\\')
    } else if e == '/' {
        Some('/')
    } else if e == 'b' {
        Some(8 as char)
    } else if e == 'f' {
        Some(12 as char)
    } else if e == 'n' {
        Some('\n')
    } else if e == 'r' {
        Some('\r')
    } else if e == 't' {
        Some('\t')
    } else {
        None
    }
}

/// `c` in front of a decoded text, if there is one.
pub open spec fn prepend(c: char, r: Option<Seq<char>>) -> Option<Seq<char>> {
    match r {
        Some(s) => Some(seq![c] + s),
        None => None,
    }
}

/// The text that JSON string contents `t` (what stands between the quotes)
/// denote under RFC 8259, or `None` if `t` is not valid contents: a raw
/// quote or control character, an unknown escape, or a lone surrogate.
pub open spec fn json_unescape(t: Seq<char>) -> Option<Seq<char>>
    decreases t.len(),
{
    if t.len() == 0 {
        Some(seq![])
    } else if t[0] == '\\' {
        if t.len() < 2 {
            None
        } else if t[1] == 'u' {
            if t.len() < 6 || hex4(t, 2) < 0 {
                None
            } else if 0xDC00 <= hex4(t, 2) <= 0xDFFF {
                None
            } else if 0xD800 <= hex4(t, 2) <= 0xDBFF {
                if t.len() < 12 || t[6] != '\\' || t[7] != 'u' || !(0xDC00 <= hex4(t, 8) <= 0xDFFF) {
                    None
                } else {
                    prepend(
                        (0x10000 + (hex4(t, 2) - 0xD800) * 1024 + (hex4(t, 8) - 0xDC00)) as char,
                        json_unescape(t.skip(12)),
                    )
                }
            } else {
                prepend(hex4(t, 2) as char, json_unescape(t.skip(6)))
            }
        } else {
            match short_escape(t[1]) {
                Some(d) => prepend(d, json_unescape(t.skip(2))),
                None => None,
            }
        }
    } else if t[0] == '"' || (t[0] as int) < 0x20 {
        None
    } else {
        prepend(t[0], json_unescape(t.skip(1)))
    }
}

/// The text a JSON string literal `t` (quotes included) denotes, or `None`.
pub open spec fn json_string_value(t: Seq<char>) -> Option<Seq<char>> {
    if t.len() >= 2 && t[0] == '"' && t[t.len() - 1] == '"' {
        json_unescape(t.subrange(1, t.len() - 1))
    } else {
        None
    }
}

proof fn lemma_hex_digit_value(d: int)
    requires
        0 <= d < 16,
    ensures
        hex_value(hex_digit(d)) == d,
{
}

/// Decoding an escaped character in front of more contents gives the
/// character in front of what the rest decodes to.
proof fn lemma_unescape_char(c: char, t: Seq<char>)
    ensures
        json_unescape(escape_char(c) + t) == prepend(c, json_unescape(t)),
{
    let e = escape_char(c);
    let u = e + t;
    assert(u.skip(e.len() as int) =~= t);
    assert(u[0] == e[0]);
    if e.len() >= 2 {
        assert(u[1] == e[1]);
    }
    if (c as int) < 0x20 && c != '"' && c != '\\' && c != '\n' && c != '\r' && c != '\t' {
        let hi = (c as int) / 16;
        let lo = (c as int) % 16;
        lemma_hex_digit_value(hi);
        lemma_hex_digit_value(lo);
        lemma_hex_digit_value(0);
        assert(u[2] == '0' && u[3] == '0' && u[4] == hex_digit(hi) && u[5] == hex_digit(lo));
        assert(hex4(u, 2) == c as int);
        assert((c as int) as char == c);
    }
}

/// Round trip: the escape of any text, wrapped in double quotes, is a JSON
/// string literal that denotes exactly that text.
pub proof fn lemma_escape_round_trip(s: Seq<char>)
    ensures
        json_unescape(escaped(s)) == Some(s),
        json_string_value(seq!['"'] + escaped(s) + seq!['"']) == Some(s),
    decreases s.len(),
{
    if s.len() == 0 {
        assert(escaped(s) =~= seq![]);
        assert(s =~= seq![]);
    } else {
        let c = s[0];
        let rest = s.skip(1);
        assert(s =~= seq![c] + rest);
        lemma_escaped_concat(seq![c], rest);
        assert(seq![c].drop_last() =~= Seq::<char>::empty());
        assert(escaped(Seq::<char>::empty()) =~= Seq::<char>::empty());
        assert(seq![c].last() == c);
        assert(escaped(seq![c]) =~= escape_char(c));
        lemma_escape_round_trip(rest);
        lemma_unescape_char(c, escaped(rest));
        assert(seq![c] + rest == s);
    }
    let lit = seq!['"'] + escaped(s) + seq!['"'];
    assert(lit.subrange(1, lit.len() - 1) =~= escaped(s));
}

} // verus!
