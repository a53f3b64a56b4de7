//! The sidecar record and its text form. Records are written as JSON, one
//! member per line, in the layout that serde_json's pretty printer gives
//! them; any JSON object holding the six members is read back.
use crate::text::{
    chars_equal, chars_of, code, decimal, digit_char, digit_value, fixed_at,
    fixed_digits, is_digit, lemma_decimal, lemma_digit_run, lemma_fixed_digits,
    lemma_pow10_20, number_at, pow10, push_decimal, push_fixed, string_of, take_fixed,
    take_number,
};
use crate::timestamp::Timestamp;
use vstd::prelude::*;

verus! {

/// The durable description of one snapshot, stored in its sidecar file.
#[derive(Clone, Debug, PartialEq, Eq)]
pub struct SnapshotMetadata {
    pub id: String,
    pub game_id: String,
    pub timestamp: Timestamp,
    pub name: String,
    pub size: u64,
    pub file_count: usize,
}

/// Why a sidecar text was refused.
#[derive(Clone, Copy, Debug, PartialEq, Eq, Structural)]
pub enum CodecError {
    /// The text is not the encoding of any record.
    CorruptMetadata,
}

impl SnapshotMetadata {
    pub open spec fn valid(&self) -> bool {
        self.timestamp.wf()
    }
}

pub open spec fn hex_char(d: int) -> char {
    if d < 10 {
        digit_char(d)
    } else {
        ((d + 87) as u8) as char
    }
}

pub open spec fn is_hex(c: char) -> bool {
    is_digit(c) || (97 <= code(c) <= 102)
}

pub open spec fn hex_value(c: char) -> int {
    if is_digit(c) {
        digit_value(c)
    } else {
        code(c) - 87
    }
}

/// How one character stands inside a JSON string.
pub open spec fn escaped(c: char) -> Seq<char> {
    if c == '"' {
        seq!['\\', '"']
    } else if c == '\\' {
        seq!['\\', '\\']
    } else if code(c) == 8 {
        seq!['\\', 'b']
    } else if code(c) == 12 {
        seq!['\\', 'f']
    } else if code(c) == 10 {
        seq!['\\', 'n']
    } else if code(c) == 13 {
        seq!['\\', 'r']
    } else if code(c) == 9 {
        seq!['\\', 't']
    } else if code(c) < 32 {
        seq!['\\', 'u', '0', '0', hex_char(code(c) / 16), hex_char(code(c) % 16)]
    } else {
        seq![c]
    }
}

pub open spec fn escaped_text(s: Seq<char>) -> Seq<char>
    decreases s.len(),
{
    if s.len() == 0 {
        Seq::empty()
    } else {
        escaped_text(s.drop_last()) + escaped(s.last())
    }
}

/// A JSON string literal holding `s`.
#[verifier::opaque]
pub open spec fn quoted(s: Seq<char>) -> Seq<char> {
    seq!['"'] + escaped_text(s) + seq!['"']
}

/// Fraction of a second: none, or three, six or nine digits, the fewest
/// that hold it exactly.
pub open spec fn fraction_text(ns: nat) -> Seq<char> {
    if ns == 0 {
        Seq::empty()
    } else if ns % 1_000_000 == 0 {
        seq!['.'] + fixed_digits(ns / 1_000_000, 3)
    } else if ns % 1000 == 0 {
        seq!['.'] + fixed_digits(ns / 1000, 6)
    } else {
        seq!['.'] + fixed_digits(ns, 9)
    }
}

/// An instant in RFC 3339 form, in UTC, as `YYYY-MM-DDTHH:MM:SS[.fff]Z`.
#[verifier::opaque]
pub open spec fn stamp_text(t: Timestamp) -> Seq<char> {
    fixed_digits(t.year as nat, 4) + seq!['-'] + fixed_digits(t.month as nat, 2) + seq!['-']
        + fixed_digits(t.day as nat, 2) + seq!['T'] + fixed_digits(t.hour as nat, 2) + seq![':']
        + fixed_digits(t.minute as nat, 2) + seq![':'] + fixed_digits(t.second as nat, 2)
        + fraction_text(t.nanosecond as nat) + seq!['Z']
}

/// One member of the sidecar object on its own line: indentation, the
/// quoted key, a colon and a space, then the value's text.
pub open spec fn member_text(key: Seq<char>, value: Seq<char>) -> Seq<char> {
    seq!['\n', ' ', ' '] + quoted(key) + seq![':', ' '] + value
}

/// The sidecar text of a record.
#[verifier::opaque]
pub open spec fn encoding(m: SnapshotMetadata) -> Seq<char> {
    seq!['{'] + member_text(KEY_ID@, quoted(m.id@)) + seq![','] + member_text(
        KEY_GAME@,
        quoted(m.game_id@),
    ) + seq![','] + member_text(KEY_TIME@, quoted(stamp_text(m.timestamp))) + seq![',']
        + member_text(KEY_LABEL@, quoted(m.name@)) + seq![','] + member_text(
        KEY_BYTES@,
        decimal(m.size as nat),
    ) + seq![','] + member_text(KEY_COUNT@, decimal(m.file_count as nat)) + seq!['\n', '}']
}

/// Reads the characters of a JSON string body from `i` up to its closing
/// quote, with `acc` read so far; gives the text and the position after the quote.
pub open spec fn unquote_from(t: Seq<char>, i: int, acc: Seq<char>) -> Option<(Seq<char>, int)>
    decreases t.len() - i,
{
    if i < 0 || i >= t.len() {
        None
    } else if t[i] == '"' {
        Some((acc, i + 1))
    } else if t[i] == '\\' {
        if i + 1 >= t.len() {
            None
        } else {
            let e = t[i + 1];
            if e == '"' || e == '\\' || e == '/' {
                unquote_from(t, i + 2, acc.push(e))
            } else if e == 'b' {
                unquote_from(t, i + 2, acc.push(8u8 as char))
            } else if e == 'f' {
                unquote_from(t, i + 2, acc.push(12u8 as char))
            } else if e == 'n' {
                unquote_from(t, i + 2, acc.push(10u8 as char))
            } else if e == 'r' {
                unquote_from(t, i + 2, acc.push(13u8 as char))
            } else if e == 't' {
                unquote_from(t, i + 2, acc.push(9u8 as char))
            } else if e == 'u' && t.len() - i >= 6 && t[i + 2] == '0' && t[i + 3] == '0' && is_hex(
                t[i + 4],
            ) && is_hex(t[i + 5]) {
                unquote_from(
                    t,
                    i + 6,
                    acc.push(((hex_value(t[i + 4]) * 16 + hex_value(t[i + 5])) as u8) as char),
                )
            } else {
                None
            }
        }
    } else {
        unquote_from(t, i + 1, acc.push(t[i]))
    }
}

/// The JSON string whose opening quote is at `p`.
pub open spec fn unquote(t: Seq<char>, p: int) -> Option<(Seq<char>, int)> {
    unquote_from(t, p + 1, Seq::empty())
}

pub open spec fn parts_valid(y: nat, mo: nat, d: nat, h: nat, mi: nat, s: nat, ns: nat) -> bool {
    (Timestamp {
        year: y as u32,
        month: mo as u32,
        day: d as u32,
        hour: h as u32,
        minute: mi as u32,
        second: s as u32,
        nanosecond: ns as u32,
    }).wf() && y <= 9999 && mo <= 12 && d <= 31 && h < 24 && mi < 60 && s < 60 && ns
        < 1_000_000_000
}

/// The fraction of a second at `p`, just after the seconds, and the position
/// of the closing `Z`.
pub open spec fn fraction_at(t: Seq<char>, p: int) -> (nat, int) {
    if 0 <= p < t.len() && t[p] == '.' {
        if fixed_at(t, p + 1, 9) is Some {
            (fixed_at(t, p + 1, 9)->0, p + 10)
        } else if fixed_at(t, p + 1, 6) is Some {
            (fixed_at(t, p + 1, 6)->0 * 1000, p + 7)
        } else if fixed_at(t, p + 1, 3) is Some {
            (fixed_at(t, p + 1, 3)->0 * 1_000_000, p + 4)
        } else {
            (0, p)
        }
    } else {
        (0, p)
    }
}

/// The instant written at `p` and the position after it.
pub open spec fn stamp_at(t: Seq<char>, p: int) -> Option<(Timestamp, int)> {
    let y = fixed_at(t, p, 4);
    let mo = fixed_at(t, p + 5, 2);
    let d = fixed_at(t, p + 8, 2);
    let h = fixed_at(t, p + 11, 2);
    let mi = fixed_at(t, p + 14, 2);
    let s = fixed_at(t, p + 17, 2);
    let (ns, z) = fraction_at(t, p + 19);
    if z < t.len() && t[z] == 'Z' && p + 19 <= t.len() && t[p + 4] == '-' && t[p + 7] == '-'
        && t[p + 10] == 'T' && t[p + 13] == ':' && t[p + 16] == ':' && y is Some && mo is Some && d is Some && h is Some && mi is Some && s is Some && parts_valid(
        y->0,
        mo->0,
        d->0,
        h->0,
        mi->0,
        s->0,
        ns,
    ) {
        Some(
            (
                Timestamp {
                    year: y->0 as u32,
                    month: mo->0 as u32,
                    day: d->0 as u32,
                    hour: h->0 as u32,
                    minute: mi->0 as u32,
                    second: s->0 as u32,
                    nanosecond: ns as u32,
                },
                z + 1,
            ),
        )
    } else {
        None
    }
}

fn hex_digit(d: u32) -> (r: char)
    requires
        d < 16,
    ensures
        r == hex_char(d as int),
{
    if d < 10 {
        ((d as u8) + 48) as char
    } else {
        ((d as u8) + 87) as char
    }
}

fn push_escaped(out: &mut Vec<char>, c: char)
    ensures
        final(out)@ == old(out)@ + escaped(c),
{
    let v = c as u32;
    if c == '"' {
        out.push('\\');
        out.push('"');
    } else if c == '\\' {
        out.push('\\');
        out.push('\\');
    } else if v == 8 {
        out.push('\\');
        out.push('b');
    } else if v == 12 {
        out.push('\\');
        out.push('f');
    } else if v == 10 {
        out.push('\\');
        out.push('n');
    } else if v == 13 {
        out.push('\\');
        out.push('r');
    } else if v == 9 {
        out.push('\\');
        out.push('t');
    } else if v < 32 {
        out.push('\\');
        out.push('u');
        out.push('0');
        out.push('0');
        out.push(hex_digit(v / 16));
        out.push(hex_digit(v % 16));
    } else {
        out.push(c);
    }
    assert(final(out)@ =~= old(out)@ + escaped(c));
}

fn push_quoted_chars(out: &mut Vec<char>, cs: &Vec<char>)
    ensures
        final(out)@ == old(out)@ + quoted(cs@),
{
    out.push('"');
    let ghost start = out@;
    let mut i: usize = 0;
    while i < cs.len()
        invariant
            i <= cs@.len(),
            out@ == start + escaped_text(cs@.subrange(0, i as int)),
        decreases cs@.len() - i,
    {
        proof {
            let pre = cs@.subrange(0, i + 1);
            assert(pre.drop_last() =~= cs@.subrange(0, i as int));
        }
        push_escaped(out, cs[i]);
        i = i + 1;
        assert(out@ =~= start + escaped_text(cs@.subrange(0, i as int)));
    }
    assert(cs@.subrange(0, i as int) =~= cs@);
    out.push('"');
    reveal(quoted);
    assert(final(out)@ =~= old(out)@ + quoted(cs@));
}

fn push_quoted(out: &mut Vec<char>, s: &str)
    ensures
        final(out)@ == old(out)@ + quoted(s@),
{
    let cs = chars_of(s);
    push_quoted_chars(out, &cs);
}

fn push_key(out: &mut Vec<char>, key: &str)
    ensures
        final(out)@ == old(out)@ + seq!['\n', ' ', ' '] + quoted(key@) + seq![':', ' '],
{
    out.push('\n');
    out.push(' ');
    out.push(' ');
    push_quoted(out, key);
    out.push(':');
    out.push(' ');
    assert(final(out)@ =~= old(out)@ + seq!['\n', ' ', ' '] + quoted(key@) + seq![':', ' ']);
}

fn push_fraction(out: &mut Vec<char>, ns: u32)
    ensures
        final(out)@ == old(out)@ + fraction_text(ns as nat),
{
    if ns == 0 {
    } else if ns % 1_000_000 == 0 {
        out.push('.');
        push_fixed(out, (ns / 1_000_000) as u64, 3);
    } else if ns % 1000 == 0 {
        out.push('.');
        push_fixed(out, (ns / 1000) as u64, 6);
    } else {
        out.push('.');
        push_fixed(out, ns as u64, 9);
    }
    assert(final(out)@ =~= old(out)@ + fraction_text(ns as nat));
}

fn push_stamp(out: &mut Vec<char>, t: &Timestamp)
    ensures
        final(out)@ == old(out)@ + stamp_text(*t),
{
    push_fixed(out, t.year as u64, 4);
    out.push('-');
    push_fixed(out, t.month as u64, 2);
    out.push('-');
    push_fixed(out, t.day as u64, 2);
    out.push('T');
    push_fixed(out, t.hour as u64, 2);
    out.push(':');
    push_fixed(out, t.minute as u64, 2);
    out.push(':');
    push_fixed(out, t.second as u64, 2);
    push_fraction(out, t.nanosecond);
    out.push('Z');
    reveal(stamp_text);
    assert(final(out)@ =~= old(out)@ + stamp_text(*t));
}

/// The sidecar text of `m`, as characters.
pub fn encode_chars(m: &SnapshotMetadata) -> (r: Vec<char>)
    ensures
        r@ == encoding(*m),
{
    let mut out: Vec<char> = Vec::new();
    out.push('{');
    push_key(&mut out, KEY_ID);
    push_quoted(&mut out, m.id.as_str());
    out.push(',');
    push_key(&mut out, KEY_GAME);
    push_quoted(&mut out, m.game_id.as_str());
    out.push(',');
    push_key(&mut out, KEY_TIME);
    let mut stamp: Vec<char> = Vec::new();
    push_stamp(&mut stamp, &m.timestamp);
    assert(stamp@ =~= stamp_text(m.timestamp));
    push_quoted_chars(&mut out, &stamp);
    out.push(',');
    push_key(&mut out, KEY_LABEL);
    push_quoted(&mut out, m.name.as_str());
    out.push(',');
    push_key(&mut out, KEY_BYTES);
    push_decimal(&mut out, m.size);
    out.push(',');
    push_key(&mut out, KEY_COUNT);
    push_decimal(&mut out, m.file_count as u64);
    out.push('\n');
    out.push('}');
    reveal(encoding);
    assert(out@ =~= encoding(*m));
    out
}

/// The sidecar text of `m`.
pub fn encode(m: &SnapshotMetadata) -> (r: String)
    ensures
        r@ == encoding(*m),
{
    let cs = encode_chars(m);
    string_of(&cs)
}

fn is_hex_char(c: char) -> (r: bool)
    ensures
        r == is_hex(c),
{
    let v = c as u32;
    (48 <= v && v <= 57) || (97 <= v && v <= 102)
}

fn hex_value_of(c: char) -> (r: u32)
    requires
        is_hex(c),
    ensures
        r == hex_value(c),
        r < 16,
{
    let v = c as u32;
    if v <= 57 {
        v - 48
    } else {
        v - 87
    }
}

/// Reads the JSON string whose opening quote is at `p`.
fn take_quoted(t: &Vec<char>, p: usize) -> (r: Option<(Vec<char>, usize)>)
    ensures
        r matches Some((v, e)) ==> unquote(t@, p as int) == Some((v@, e as int)) && e <= t@.len(),
        r is None ==> unquote(t@, p as int) is None,
{
    if p >= t.len() {
        return None;
    }
    let mut i: usize = p + 1;
    let mut out: Vec<char> = Vec::new();
    while i < t.len()
        invariant
            p < i,
            unquote(t@, p as int) == unquote_from(t@, i as int, out@),
        decreases t@.len() - i,
    {
        let c = t[i];
        if c == '"' {
            return Some((out, i + 1));
        } else if c == '\\' {
            if i + 1 >= t.len() {
                return None;
            }
            let e = t[i + 1];
            if e == '"' || e == '\\' || e == '/' {
                out.push(e);
            } else if e == 'b' {
                out.push(8u8 as char);
            } else if e == 'f' {
                out.push(12u8 as char);
            } else if e == 'n' {
                out.push(10u8 as char);
            } else if e == 'r' {
                out.push(13u8 as char);
            } else if e == 't' {
                out.push(9u8 as char);
            } else if e == 'u' && t.len() - i >= 6 && t[i + 2] == '0' && t[i + 3] == '0'
                && is_hex_char(t[i + 4]) && is_hex_char(t[i + 5]) {
                let v = hex_value_of(t[i + 4]) * 16 + hex_value_of(t[i + 5]);
                out.push((v as u8) as char);
                i = i + 6;
                continue;
            } else {
                return None;
            }
            i = i + 2;
        } else {
            out.push(c);
            i = i + 1;
        }
    }
    None
}

fn take_fraction(t: &Vec<char>, p: usize) -> (r: (u32, usize))
    requires
        p < t@.len(),
    ensures
        fraction_at(t@, p as int) == (r.0 as nat, r.1 as int),
{
    let n = t.len();
    if t[p] == '.' {
        if let Some(v) = take_fixed(t, p + 1, 9) {
            proof { crate::text::lemma_digits_value_bound(t@.subrange(p + 1, p + 10)); reveal_with_fuel(pow10, 10); }
            return (v as u32, p + 10);
        }
        if let Some(v) = take_fixed(t, p + 1, 6) {
            proof { crate::text::lemma_digits_value_bound(t@.subrange(p + 1, p + 7)); reveal_with_fuel(pow10, 7); }
            return ((v as u32) * 1000, p + 7);
        }
        if let Some(v) = take_fixed(t, p + 1, 3) {
            proof { crate::text::lemma_digits_value_bound(t@.subrange(p + 1, p + 4)); reveal_with_fuel(pow10, 4); }
            return ((v as u32) * 1_000_000, p + 4);
        }
    }
    (0, p)
}

/// Reads the instant written at `p`.
fn take_stamp(t: &Vec<char>, p: usize) -> (r: Option<(Timestamp, usize)>)
    ensures
        r matches Some((v, e)) ==> stamp_at(t@, p as int) == Some((v, e as int)) && e <= t@.len(),
        r is None ==> stamp_at(t@, p as int) is None,
{
    if p >= t.len() || t.len() - p < 20 {
        return None;
    }
    let y = take_fixed(t, p, 4);
    let mo = take_fixed(t, p + 5, 2);
    let d = take_fixed(t, p + 8, 2);
    let h = take_fixed(t, p + 11, 2);
    let mi = take_fixed(t, p + 14, 2);
    let s = take_fixed(t, p + 17, 2);
    let (ns, z) = take_fraction(t, p + 19);
    if z >= t.len() || t[z] != 'Z' || t[p + 4] != '-' || t[p + 7] != '-' || t[p + 10] != 'T'
        || t[p + 13] != ':' || t[p + 16] != ':' {
        return None;
    }
    let e = z + 1;
    match (y, mo, d, h, mi, s) {
        (Some(y), Some(mo), Some(d), Some(h), Some(mi), Some(s)) => {
            proof {
                crate::text::lemma_digits_value_bound(t@.subrange(p as int, p + 4));
                crate::text::lemma_digits_value_bound(t@.subrange(p + 5, p + 7));
                crate::text::lemma_digits_value_bound(t@.subrange(p + 8, p + 10));
                crate::text::lemma_digits_value_bound(t@.subrange(p + 11, p + 13));
                crate::text::lemma_digits_value_bound(t@.subrange(p + 14, p + 16));
                crate::text::lemma_digits_value_bound(t@.subrange(p + 17, p + 19));
                reveal_with_fuel(pow10, 5);
            }
            match Timestamp::from_parts(y as i32, mo as u32, d as u32, h as u32, mi as u32, s as u32, ns) {
                Some(ts) => Some((ts, e)),
                None => None,
            }
        },
        _ => None,
    }
}

proof fn lemma_escaped_text_front(s: Seq<char>)
    requires
        s.len() > 0,
    ensures
        escaped_text(s) == escaped(s[0]) + escaped_text(s.drop_first()),
    decreases s.len(),
{
    if s.len() == 1 {
        assert(s.drop_last() =~= Seq::<char>::empty());
        assert(s.drop_first() =~= Seq::<char>::empty());
        assert(escaped_text(s.drop_first()) =~= Seq::<char>::empty());
        assert(escaped_text(s) =~= escaped(s[0]));
    } else {
        lemma_escaped_text_front(s.drop_last());
        assert(s.drop_last().drop_first() =~= s.drop_first().drop_last());
        assert(s.drop_first().last() == s.last());
        assert(escaped_text(s) =~= escaped(s[0]) + escaped_text(s.drop_first()));
    }
}

proof fn lemma_unquote_step(t: Seq<char>, i: int, acc: Seq<char>, c: char)
    requires
        0 <= i,
        i + escaped(c).len() < t.len(),
        t.subrange(i, i + escaped(c).len()) == escaped(c),
    ensures
        unquote_from(t, i, acc) == unquote_from(t, i + escaped(c).len(), acc.push(c)),
{
    let e = escaped(c);
    assert forall|j: int| 0 <= j < e.len() implies t[i + j] == #[trigger] e[j] by {
        assert(t.subrange(i, i + e.len())[j] == t[i + j]);
    }
    if c == '"' || c == '\\' {
        assert(t[i] == '\\');
        assert(t[i + 1] == c);
    } else if code(c) == 8 || code(c) == 12 || code(c) == 10 || code(c) == 13 || code(c) == 9 {
        assert(t[i] == '\\');
        if code(c) == 8 {
            assert(c == 8u8 as char);
            assert(t[i + 1] == 'b');
        } else if code(c) == 12 {
            assert(c == 12u8 as char);
            assert(t[i + 1] == 'f');
        } else if code(c) == 10 {
            assert(c == 10u8 as char);
            assert(t[i + 1] == 'n');
        } else if code(c) == 13 {
            assert(c == 13u8 as char);
            assert(t[i + 1] == 'r');
        } else {
            assert(c == 9u8 as char);
            assert(t[i + 1] == 't');
        }
    } else if code(c) < 32 {
        let hi = code(c) / 16;
        let lo = code(c) % 16;
        assert(t[i] == '\\');
        assert(t[i + 1] == 'u');
        assert(t[i + 2] == '0');
        assert(t[i + 3] == '0');
        assert(t[i + 4] == hex_char(hi));
        assert(t[i + 5] == hex_char(lo));
        assert(is_hex(t[i + 4]));
        assert(is_hex(t[i + 5]));
        assert(hex_value(hex_char(hi)) == hi);
        assert(hex_value(hex_char(lo)) == lo);
        assert(hi * 16 + lo == code(c));
        assert(((code(c) as u8) as char) == c);
        assert(e.len() == 6);
    } else {
        assert(e =~= seq![c]);
        assert(e[0] == c);
        assert(t[i] == c);
        assert(e.len() == 1);
    }
    assert(unquote_from(t, i, acc) == unquote_from(t, i + e.len(), acc.push(c)));
}

proof fn lemma_unquote_from(t: Seq<char>, i: int, acc: Seq<char>, s: Seq<char>)
    requires
        0 <= i,
        i + escaped_text(s).len() < t.len(),
        t.subrange(i, i + escaped_text(s).len()) == escaped_text(s),
        t[i + escaped_text(s).len()] == '"',
    ensures
        unquote_from(t, i, acc) == Some((acc + s, i + escaped_text(s).len() + 1)),
    decreases s.len(),
{
    if s.len() == 0 {
        assert(acc + s =~= acc);
    } else {
        lemma_escaped_text_front(s);
        let c = s[0];
        let k = escaped(c).len() as int;
        let rest = s.drop_first();
        let n = escaped_text(s).len() as int;
        assert(t.subrange(i, i + k) =~= t.subrange(i, i + n).subrange(0, k));
        assert(escaped_text(s).subrange(0, k) =~= escaped(c));
        assert(t.subrange(i + k, i + n) =~= t.subrange(i, i + n).subrange(k, n));
        assert(escaped_text(s).subrange(k, n) =~= escaped_text(rest));
        lemma_unquote_step(t, i, acc, c);
        lemma_unquote_from(t, i + k, acc.push(c), rest);
        assert(acc.push(c) + rest =~= acc + s);
    }
}

proof fn lemma_unquote_quoted(t: Seq<char>, p: int, s: Seq<char>)
    requires
        0 <= p,
        p + quoted(s).len() <= t.len(),
        t.subrange(p, p + quoted(s).len()) == quoted(s),
    ensures
        unquote(t, p) == Some((s, p + quoted(s).len())),
{
    reveal(quoted);
    let n = escaped_text(s).len() as int;
    let q = quoted(s);
    assert(t.subrange(p + 1, p + 1 + n) =~= t.subrange(p, p + q.len()).subrange(1, 1 + n));
    assert(q.subrange(1, 1 + n) =~= escaped_text(s));
    assert(t[p + 1 + n] == t.subrange(p, p + q.len())[1 + n]);
    lemma_unquote_from(t, p + 1, Seq::empty(), s);
    assert(Seq::<char>::empty() + s =~= s);
}

proof fn lemma_number_at(t: Seq<char>, p: int, n: nat)
    requires
        0 <= p,
        n <= u64::MAX,
        p + decimal(n).len() < t.len(),
        t.subrange(p, p + decimal(n).len()) == decimal(n),
        !is_digit(t[p + decimal(n).len()]),
    ensures
        number_at(t, p) == Some((n, p + decimal(n).len())),
{
    lemma_pow10_20();
    lemma_decimal(n);
    lemma_digit_run(t, p, 21, decimal(n).len());
}

proof fn lemma_fixed_at(t: Seq<char>, p: int, n: nat, k: nat)
    requires
        0 <= p,
        n < pow10(k),
        p + k <= t.len(),
        t.subrange(p, p + k) == fixed_digits(n, k),
    ensures
        fixed_at(t, p, k) == Some(n),
{
    lemma_fixed_digits(n, k);
}

proof fn lemma_not_all_digits(t: Seq<char>, p: int, k: nat, j: int)
    requires
        0 <= p,
        0 <= j < k,
        !is_digit(t[p + j]),
    ensures
        fixed_at(t, p, k) is None,
{
    if p + k <= t.len() {
        assert(t.subrange(p, p + k)[j] == t[p + j]);
    }
}

proof fn lemma_stamp_at(t: Seq<char>, p: int, ts: Timestamp)
    requires
        ts.wf(),
        0 <= p,
        p + stamp_text(ts).len() <= t.len(),
        t.subrange(p, p + stamp_text(ts).len()) == stamp_text(ts),
    ensures
        stamp_at(t, p) == Some((ts, p + stamp_text(ts).len())),
{
    reveal(stamp_text);
    let st = stamp_text(ts);
    reveal_with_fuel(pow10, 10);
    lemma_fixed_digits(ts.year as nat, 4);
    lemma_fixed_digits(ts.month as nat, 2);
    lemma_fixed_digits(ts.day as nat, 2);
    lemma_fixed_digits(ts.hour as nat, 2);
    lemma_fixed_digits(ts.minute as nat, 2);
    lemma_fixed_digits(ts.second as nat, 2);
    let ns = ts.nanosecond as nat;
    let fr = fraction_text(ns);
    assert forall|j: int| 0 <= j < st.len() implies t[p + j] == #[trigger] st[j] by {
        assert(t.subrange(p, p + st.len())[j] == t[p + j]);
    }
    assert(st.len() == 20 + fr.len());
    assert(st.subrange(0, 4) =~= fixed_digits(ts.year as nat, 4));
    assert(st.subrange(5, 7) =~= fixed_digits(ts.month as nat, 2));
    assert(st.subrange(8, 10) =~= fixed_digits(ts.day as nat, 2));
    assert(st.subrange(11, 13) =~= fixed_digits(ts.hour as nat, 2));
    assert(st.subrange(14, 16) =~= fixed_digits(ts.minute as nat, 2));
    assert(st.subrange(17, 19) =~= fixed_digits(ts.second as nat, 2));
    assert(t.subrange(p, p + 4) =~= st.subrange(0, 4));
    assert(t.subrange(p + 5, p + 7) =~= st.subrange(5, 7));
    assert(t.subrange(p + 8, p + 10) =~= st.subrange(8, 10));
    assert(t.subrange(p + 11, p + 13) =~= st.subrange(11, 13));
    assert(t.subrange(p + 14, p + 16) =~= st.subrange(14, 16));
    assert(t.subrange(p + 17, p + 19) =~= st.subrange(17, 19));
    assert(t.subrange(p + 5, p + 7) =~= fixed_digits(ts.month as nat, 2));
    assert(t.subrange(p + 8, p + 10) =~= fixed_digits(ts.day as nat, 2));
    assert(t.subrange(p + 11, p + 13) =~= fixed_digits(ts.hour as nat, 2));
    assert(t.subrange(p + 14, p + 16) =~= fixed_digits(ts.minute as nat, 2));
    assert(t.subrange(p + 17, p + 19) =~= fixed_digits(ts.second as nat, 2));
    lemma_fixed_at(t, p, ts.year as nat, 4);
    lemma_fixed_at(t, p + 5, ts.month as nat, 2);
    lemma_fixed_at(t, p + 8, ts.day as nat, 2);
    lemma_fixed_at(t, p + 11, ts.hour as nat, 2);
    lemma_fixed_at(t, p + 14, ts.minute as nat, 2);
    lemma_fixed_at(t, p + 17, ts.second as nat, 2);
    let q = p + 19;
    assert(st[4] == '-' && st[7] == '-' && st[10] == 'T' && st[13] == ':' && st[16] == ':');
    assert(t[p + 4] == '-' && t[p + 7] == '-' && t[p + 10] == 'T' && t[p + 13] == ':' && t[p + 16] == ':');
    assert(st[19 + fr.len() as int] == 'Z');
    assert(t[p + 19 + fr.len() as int] == 'Z');
    assert(fr.len() > 0 ==> st[19] == '.');
    assert(fr.len() == 4 ==> st[23] == 'Z');
    assert(fr.len() == 7 ==> st[26] == 'Z');
    assert(fr.len() > 0 ==> st.subrange(20, 19 + fr.len() as int) =~= fr.subrange(1, fr.len() as int));
    if ns == 0 {
        assert(t[q] == 'Z');
        assert(fraction_at(t, q) == (0nat, q));
    } else if ns % 1_000_000 == 0 {
        let v = ns / 1_000_000;
        assert(v < 1000);
        lemma_fixed_digits(v, 3);
        assert(t[q] == '.');
        assert(t[q + 4] == 'Z');
        lemma_not_all_digits(t, q + 1, 9, 3);
        lemma_not_all_digits(t, q + 1, 6, 3);
        assert(t.subrange(q + 1, q + 4) =~= st.subrange(20, 19 + 4 as int));
        assert(fr.subrange(1, fr.len() as int) =~= fixed_digits(v, 3));
        assert(t.subrange(q + 1, q + 4) =~= fixed_digits(v, 3));
        lemma_fixed_at(t, q + 1, v, 3);
        assert(v * 1_000_000 == ns);
        assert(fraction_at(t, q) == (ns, q + 4));
    } else if ns % 1000 == 0 {
        let v = ns / 1000;
        assert(v < 1_000_000);
        lemma_fixed_digits(v, 6);
        assert(t[q] == '.');
        assert(t[q + 7] == 'Z');
        lemma_not_all_digits(t, q + 1, 9, 6);
        assert(t.subrange(q + 1, q + 7) =~= st.subrange(20, 19 + 7 as int));
        assert(fr.subrange(1, fr.len() as int) =~= fixed_digits(v, 6));
        assert(t.subrange(q + 1, q + 7) =~= fixed_digits(v, 6));
        lemma_fixed_at(t, q + 1, v, 6);
        assert(v * 1000 == ns);
        assert(fraction_at(t, q) == (ns, q + 7));
    } else {
        lemma_fixed_digits(ns, 9);
        assert(t[q] == '.');
        assert(t.subrange(q + 1, q + 10) =~= st.subrange(20, 19 + 10 as int));
        assert(fr.subrange(1, fr.len() as int) =~= fixed_digits(ns, 9));
        assert(t.subrange(q + 1, q + 10) =~= fixed_digits(ns, 9));
        lemma_fixed_at(t, q + 1, ns, 9);
        assert(fraction_at(t, q) == (ns, q + 10));
    }
}

/// The encoding depends on the fields' contents alone.
pub proof fn lemma_encoding_views(a: SnapshotMetadata, b: SnapshotMetadata)
    requires
        a.id@ == b.id@,
        a.game_id@ == b.game_id@,
        a.timestamp == b.timestamp,
        a.name@ == b.name@,
        a.size == b.size,
        a.file_count == b.file_count,
    ensures
        encoding(a) == encoding(b),
{
    reveal(encoding);
}

/// Names of the record's members in the sidecar object.
pub const KEY_ID: &'static str = "id";

pub const KEY_GAME: &'static str = "game_id";

pub const KEY_TIME: &'static str = "timestamp";

pub const KEY_LABEL: &'static str = "name";

pub const KEY_BYTES: &'static str = "size";

pub const KEY_COUNT: &'static str = "file_count";

/// The members found so far: id, game id, instant, name, size, file count.
pub type Found = (
    Option<Seq<char>>,
    Option<Seq<char>>,
    Option<Timestamp>,
    Option<Seq<char>>,
    Option<nat>,
    Option<nat>,
);

pub open spec fn is_ws(c: char) -> bool {
    c == ' ' || c == '\n' || c == '\r' || c == '\t'
}

/// The first position at or after `i` that is not JSON whitespace.
pub open spec fn skip_ws(t: Seq<char>, i: int) -> int
    decreases t.len() - i,
{
    if 0 <= i < t.len() && is_ws(t[i]) {
        skip_ws(t, i + 1)
    } else {
        i
    }
}

/// The JSON string starting at `p`, and the position after it.
pub open spec fn string_at(t: Seq<char>, p: int) -> Option<(Seq<char>, int)> {
    if 0 <= p < t.len() && t[p] == '"' {
        unquote(t, p)
    } else {
        None
    }
}

pub open spec fn is_token_char(c: char) -> bool {
    is_digit(c) || (97 <= code(c) <= 122) || c == '-' || c == '+' || c == '.' || c == 'E'
}

/// The end of the number or literal (`true`, `false`, `null`) at `i`.
pub open spec fn token_end(t: Seq<char>, i: int) -> int
    decreases t.len() - i,
{
    if 0 <= i < t.len() && is_token_char(t[i]) {
        token_end(t, i + 1)
    } else {
        i
    }
}

/// The position after the bracket that closes an object or array whose
/// body starts at `i`, `depth` brackets deep, strings skipped whole.
pub open spec fn nested_end(t: Seq<char>, i: int, depth: nat, in_str: bool, esc: bool) -> Option<int>
    decreases t.len() - i,
{
    if i < 0 || i >= t.len() {
        None
    } else if in_str {
        if esc {
            nested_end(t, i + 1, depth, true, false)
        } else if t[i] == '\\' {
            nested_end(t, i + 1, depth, true, true)
        } else if t[i] == '"' {
            nested_end(t, i + 1, depth, false, false)
        } else {
            nested_end(t, i + 1, depth, true, false)
        }
    } else if t[i] == '"' {
        nested_end(t, i + 1, depth, true, false)
    } else if t[i] == '{' || t[i] == '[' {
        nested_end(t, i + 1, depth + 1, false, false)
    } else if t[i] == '}' || t[i] == ']' {
        if depth <= 1 {
            Some(i + 1)
        } else {
            nested_end(t, i + 1, (depth - 1) as nat, false, false)
        }
    } else {
        nested_end(t, i + 1, depth, false, false)
    }
}

/// The end of a member value that the record does not use.
pub open spec fn value_end(t: Seq<char>, i: int) -> Option<int> {
    if 0 <= i < t.len() && t[i] == '"' {
        match unquote(t, i) {
            Some((_, e)) => Some(e),
            None => None,
        }
    } else if 0 <= i < t.len() && (t[i] == '{' || t[i] == '[') {
        nested_end(t, i + 1, 1, false, false)
    } else if token_end(t, i) > i {
        Some(token_end(t, i))
    } else {
        None
    }
}

/// The instant held by the JSON string at `p`.
pub open spec fn stamp_string_at(t: Seq<char>, p: int) -> Option<(Timestamp, int)> {
    match string_at(t, p) {
        Some((s, e)) => match stamp_at(s, 0) {
            Some((ts, z)) => if z == s.len() {
                Some((ts, e))
            } else {
                None
            },
            None => None,
        },
        None => None,
    }
}

/// Reads the value of member `key` at `v` into `f`; a member met twice is refused.
pub open spec fn member_value(t: Seq<char>, v: int, key: Seq<char>, f: Found) -> Option<(Found, int)> {
    if key == KEY_ID@ {
        if f.0 is Some { None } else {
            match string_at(t, v) { Some((x, e)) => Some(((Some(x), f.1, f.2, f.3, f.4, f.5), e)), None => None }
        }
    } else if key == KEY_GAME@ {
        if f.1 is Some { None } else {
            match string_at(t, v) { Some((x, e)) => Some(((f.0, Some(x), f.2, f.3, f.4, f.5), e)), None => None }
        }
    } else if key == KEY_TIME@ {
        if f.2 is Some { None } else {
            match stamp_string_at(t, v) { Some((x, e)) => Some(((f.0, f.1, Some(x), f.3, f.4, f.5), e)), None => None }
        }
    } else if key == KEY_LABEL@ {
        if f.3 is Some { None } else {
            match string_at(t, v) { Some((x, e)) => Some(((f.0, f.1, f.2, Some(x), f.4, f.5), e)), None => None }
        }
    } else if key == KEY_BYTES@ {
        if f.4 is Some { None } else {
            match number_at(t, v) { Some((x, e)) => Some(((f.0, f.1, f.2, f.3, Some(x), f.5), e)), None => None }
        }
    } else if key == KEY_COUNT@ {
        if f.5 is Some { None } else {
            match number_at(t, v) { Some((x, e)) => Some(((f.0, f.1, f.2, f.3, f.4, Some(x)), e)), None => None }
        }
    } else {
        match value_end(t, v) { Some(e) => Some((f, e)), None => None }
    }
}

/// Reads the members of an object from `i` (just after `{` or a comma) up
/// to and past its closing `}`; `fuel` bounds the number of members.
pub open spec fn members(t: Seq<char>, i: int, f: Found, fuel: nat) -> Option<(Found, int)>
    decreases fuel,
{
    if fuel == 0 {
        None
    } else {
        match string_at(t, skip_ws(t, i)) {
            None => None,
            Some((key, e1)) => {
                let c = skip_ws(t, e1);
                if !(0 <= c < t.len() && t[c] == ':') {
                    None
                } else {
                    match member_value(t, skip_ws(t, c + 1), key, f) {
                        None => None,
                        Some((f2, e2)) => {
                            let j = skip_ws(t, e2);
                            if 0 <= j < t.len() && t[j] == ',' {
                                members(t, j + 1, f2, (fuel - 1) as nat)
                            } else if 0 <= j < t.len() && t[j] == '}' {
                                Some((f2, j + 1))
                            } else {
                                None
                            }
                        },
                    }
                }
            },
        }
    }
}

/// The record fields of a sidecar text: a JSON object, with any whitespace
/// and members in any order, holding each of the six members once (`id`,
/// `game_id`, `name` strings; `timestamp` an RFC 3339 UTC instant string;
/// `size`, `file_count` unsigned integers) and any other members besides.
pub open spec fn parse_record(t: Seq<char>) -> Option<RecordFields> {
    let i = skip_ws(t, 0);
    if !(0 <= i < t.len() && t[i] == '{') {
        None
    } else {
        match members(t, i + 1, (None, None, None, None, None, None), t.len()) {
            None => None,
            Some((f, e)) => if skip_ws(t, e) == t.len() && f.0 is Some && f.1 is Some && f.2 is Some
                && f.3 is Some && f.4 is Some && f.5 is Some && f.5->0 <= usize::MAX && f.2->0.wf() {
                Some((f.0->0, f.1->0, f.2->0, f.3->0, f.4->0, f.5->0))
            } else {
                None
            },
        }
    }
}

/// A record's fields as plain values: id, game id, instant, name, size, file count.
pub type RecordFields = (Seq<char>, Seq<char>, Timestamp, Seq<char>, nat, nat);

/// The fields of a record, as `parse_record` gives them.
pub open spec fn record_fields(m: SnapshotMetadata) -> RecordFields {
    (m.id@, m.game_id@, m.timestamp, m.name@, m.size as nat, m.file_count as nat)
}

struct Fields {
    id: Option<Vec<char>>,
    game_id: Option<Vec<char>>,
    timestamp: Option<Timestamp>,
    name: Option<Vec<char>>,
    size: Option<u64>,
    file_count: Option<u64>,
}

spec fn text_view(o: Option<Vec<char>>) -> Option<Seq<char>> {
    match o {
        Some(v) => Some(v@),
        None => None,
    }
}

spec fn nat_view(o: Option<u64>) -> Option<nat> {
    match o {
        Some(v) => Some(v as nat),
        None => None,
    }
}

spec fn fields_view(f: Fields) -> Found {
    (text_view(f.id), text_view(f.game_id), f.timestamp, text_view(f.name), nat_view(f.size), nat_view(f.file_count))
}

fn ws_end(t: &Vec<char>, i: usize) -> (r: usize)
    ensures
        r == skip_ws(t@, i as int),
        i <= t@.len() ==> r <= t@.len(),
{
    let mut j = i;
    while j < t.len() && (t[j] == ' ' || t[j] == '\n' || t[j] == '\r' || t[j] == '\t')
        invariant
            i <= j,
            i <= t@.len() ==> j <= t@.len(),
            skip_ws(t@, i as int) == skip_ws(t@, j as int),
        decreases t@.len() - j,
    {
        j = j + 1;
    }
    j
}

fn take_string(t: &Vec<char>, p: usize) -> (r: Option<(Vec<char>, usize)>)
    ensures
        r matches Some((v, e)) ==> string_at(t@, p as int) == Some((v@, e as int)) && e <= t@.len(),
        r is None ==> string_at(t@, p as int) is None,
{
    if p < t.len() && t[p] == '"' {
        take_quoted(t, p)
    } else {
        None
    }
}

fn is_token(c: char) -> (r: bool)
    ensures
        r == is_token_char(c),
{
    let v = c as u32;
    (48 <= v && v <= 57) || (97 <= v && v <= 122) || c == '-' || c == '+' || c == '.' || c == 'E'
}

fn skip_nested(t: &Vec<char>, i: usize) -> (r: Option<usize>)
    requires
        i >= 1,
    ensures
        r matches Some(e) ==> nested_end(t@, i as int, 1, false, false) == Some(e as int) && e <= t@.len(),
        r is None ==> nested_end(t@, i as int, 1, false, false) is None,
{
    let mut j = i;
    let mut depth: usize = 1;
    let mut in_str = false;
    let mut esc = false;
    while j < t.len()
        invariant
            1 <= i <= j,
            depth >= 1,
            depth <= j - i + 1,
            esc ==> in_str,
            nested_end(t@, i as int, 1, false, false) == nested_end(t@, j as int, depth as nat, in_str, esc),
        decreases t@.len() - j,
    {
        let c = t[j];
        if in_str {
            if esc {
                esc = false;
            } else if c == '\\' {
                esc = true;
            } else if c == '"' {
                in_str = false;
            }
        } else if c == '"' {
            in_str = true;
        } else if c == '{' || c == '[' {
            depth = depth + 1;
        } else if c == '}' || c == ']' {
            if depth <= 1 {
                return Some(j + 1);
            }
            depth = depth - 1;
        }
        j = j + 1;
    }
    None
}

fn skip_value(t: &Vec<char>, i: usize) -> (r: Option<usize>)
    ensures
        r matches Some(e) ==> value_end(t@, i as int) == Some(e as int) && e <= t@.len(),
        r is None ==> value_end(t@, i as int) is None,
{
    if i < t.len() && t[i] == '"' {
        match take_quoted(t, i) {
            Some((_, e)) => Some(e),
            None => None,
        }
    } else if i < t.len() && (t[i] == '{' || t[i] == '[') {
        skip_nested(t, i + 1)
    } else {
        let mut j = i;
        while j < t.len() && is_token(t[j])
            invariant
                i <= j,
                i < t@.len() ==> j <= t@.len(),
                token_end(t@, i as int) == token_end(t@, j as int),
            decreases t@.len() - j,
        {
            j = j + 1;
        }
        if j > i {
            Some(j)
        } else {
            None
        }
    }
}

fn take_stamp_string(t: &Vec<char>, p: usize) -> (r: Option<(Timestamp, usize)>)
    ensures
        r matches Some((v, e)) ==> stamp_string_at(t@, p as int) == Some((v, e as int)) && e <= t@.len(),
        r is None ==> stamp_string_at(t@, p as int) is None,
{
    match take_string(t, p) {
        Some((s, e)) => match take_stamp(&s, 0) {
            Some((ts, z)) => if z == s.len() {
                Some((ts, e))
            } else {
                None
            },
            None => None,
        },
        None => None,
    }
}

fn key_is(key: &Vec<char>, name: &str) -> (r: bool)
    ensures
        r == (key@ == name@),
{
    chars_equal(key, &chars_of(name))
}

fn take_member_value(t: &Vec<char>, v: usize, key: &Vec<char>, f: Fields) -> (r: Option<(Fields, usize)>)
    ensures
        r matches Some((g, e)) ==> member_value(t@, v as int, key@, fields_view(f)) == Some((fields_view(g), e as int)) && e <= t@.len(),
        r is None ==> member_value(t@, v as int, key@, fields_view(f)) is None,
{
    let mut f = f;
    if key_is(key, KEY_ID) {
        if f.id.is_some() { return None; }
        match take_string(t, v) { Some((x, e)) => { f.id = Some(x); Some((f, e)) }, None => None }
    } else if key_is(key, KEY_GAME) {
        if f.game_id.is_some() { return None; }
        match take_string(t, v) { Some((x, e)) => { f.game_id = Some(x); Some((f, e)) }, None => None }
    } else if key_is(key, KEY_TIME) {
        if f.timestamp.is_some() { return None; }
        match take_stamp_string(t, v) { Some((x, e)) => { f.timestamp = Some(x); Some((f, e)) }, None => None }
    } else if key_is(key, KEY_LABEL) {
        if f.name.is_some() { return None; }
        match take_string(t, v) { Some((x, e)) => { f.name = Some(x); Some((f, e)) }, None => None }
    } else if key_is(key, KEY_BYTES) {
        if f.size.is_some() { return None; }
        match take_number(t, v) { Some((x, e)) => { f.size = Some(x); Some((f, e)) }, None => None }
    } else if key_is(key, KEY_COUNT) {
        if f.file_count.is_some() { return None; }
        match take_number(t, v) { Some((x, e)) => { f.file_count = Some(x); Some((f, e)) }, None => None }
    } else {
        match skip_value(t, v) { Some(e) => Some((f, e)), None => None }
    }
}

fn take_members(t: &Vec<char>, i: usize) -> (r: Option<(Fields, usize)>)
    requires
        i <= t@.len(),
    ensures
        r matches Some((g, e)) ==> members(t@, i as int, (None, None, None, None, None, None), t@.len()) == Some((fields_view(g), e as int)) && e <= t@.len(),
        r is None ==> members(t@, i as int, (None, None, None, None, None, None), t@.len()) is None,
{
    let mut f = Fields { id: None, game_id: None, timestamp: None, name: None, size: None, file_count: None };
    let mut pos = i;
    let mut fuel = t.len();
    while fuel > 0
        invariant
            pos <= t@.len(),
            members(t@, i as int, (None, None, None, None, None, None), t@.len()) == members(t@, pos as int, fields_view(f), fuel as nat),
        decreases fuel,
    {
        let k0 = ws_end(t, pos);
        let (key, e1) = match take_string(t, k0) { Some(x) => x, None => return None };
        let c = ws_end(t, e1);
        if !(c < t.len() && t[c] == ':') {
            return None;
        }
        let v = ws_end(t, c + 1);
        let (g, e2) = match take_member_value(t, v, &key, f) { Some(x) => x, None => return None };
        let j = ws_end(t, e2);
        if j < t.len() && t[j] == ',' {
            f = g;
            pos = j + 1;
            fuel = fuel - 1;
        } else if j < t.len() && t[j] == '}' {
            return Some((g, j + 1));
        } else {
            return None;
        }
    }
    None
}

/// Reads a record from its sidecar text; see `parse_record` for what is accepted.
pub fn decode(text: &str) -> (r: Result<SnapshotMetadata, CodecError>)
    ensures
        r matches Ok(m) ==> m.valid() && parse_record(text@) == Some(record_fields(m)),
        r is Err ==> parse_record(text@) is None,
{
    let t = chars_of(text);
    let i = ws_end(&t, 0);
    if !(i < t.len() && t[i] == '{') {
        return Err(CodecError::CorruptMetadata);
    }
    let (f, e) = match take_members(&t, i + 1) {
        Some(x) => x,
        None => return Err(CodecError::CorruptMetadata),
    };
    if ws_end(&t, e) != t.len() {
        return Err(CodecError::CorruptMetadata);
    }
    match (f.id, f.game_id, f.timestamp, f.name, f.size, f.file_count) {
        (Some(id), Some(game_id), Some(timestamp), Some(name), Some(size), Some(count)) => {
            if count > usize::MAX as u64 || !timestamp.is_valid() {
                return Err(CodecError::CorruptMetadata);
            }
            Ok(
                SnapshotMetadata {
                    id: string_of(&id),
                    game_id: string_of(&game_id),
                    timestamp,
                    name: string_of(&name),
                    size,
                    file_count: count as usize,
                },
            )
        },
        _ => Err(CodecError::CorruptMetadata),
    }
}

/// The places of six members laid out as in `encoding`.
proof fn lemma_six(a1: Seq<char>, a2: Seq<char>, a3: Seq<char>, a4: Seq<char>, a5: Seq<char>, a6: Seq<char>)
    ensures
        ({
            let t = seq!['{'] + a1 + seq![','] + a2 + seq![','] + a3 + seq![','] + a4 + seq![','] + a5
                + seq![','] + a6 + seq!['\n', '}'];
            let i1 = 1int;
            let i2 = i1 + a1.len() + 1;
            let i3 = i2 + a2.len() + 1;
            let i4 = i3 + a3.len() + 1;
            let i5 = i4 + a4.len() + 1;
            let i6 = i5 + a5.len() + 1;
            &&& t.len() == i6 + a6.len() + 2
            &&& t[0] == '{'
            &&& t.subrange(i1, i1 + a1.len()) == a1 && t[i1 + a1.len()] == ','
            &&& t.subrange(i2, i2 + a2.len()) == a2 && t[i2 + a2.len()] == ','
            &&& t.subrange(i3, i3 + a3.len()) == a3 && t[i3 + a3.len()] == ','
            &&& t.subrange(i4, i4 + a4.len()) == a4 && t[i4 + a4.len()] == ','
            &&& t.subrange(i5, i5 + a5.len()) == a5 && t[i5 + a5.len()] == ','
            &&& t.subrange(i6, i6 + a6.len()) == a6 && t[i6 + a6.len()] == '\n'
            &&& t[i6 + a6.len() + 1] == '}'
        }),
{
    let t = seq!['{'] + a1 + seq![','] + a2 + seq![','] + a3 + seq![','] + a4 + seq![','] + a5
        + seq![','] + a6 + seq!['\n', '}'];
    let i1 = 1int;
    let i2 = i1 + a1.len() + 1;
    let i3 = i2 + a2.len() + 1;
    let i4 = i3 + a3.len() + 1;
    let i5 = i4 + a4.len() + 1;
    let i6 = i5 + a5.len() + 1;
    assert(t.subrange(i1, i1 + a1.len()) =~= a1);
    assert(t.subrange(i2, i2 + a2.len()) =~= a2);
    assert(t.subrange(i3, i3 + a3.len()) =~= a3);
    assert(t.subrange(i4, i4 + a4.len()) =~= a4);
    assert(t.subrange(i5, i5 + a5.len()) =~= a5);
    assert(t.subrange(i6, i6 + a6.len()) =~= a6);
}

/// The steps of `members` over one member laid out by `member_text`.
proof fn lemma_member(t: Seq<char>, i: int, k: Seq<char>, v: Seq<char>, f: Found, f2: Found, fuel: nat)
    requires
        0 <= i,
        fuel > 0,
        v.len() > 0,
        !is_ws(v[0]),
        i + member_text(k, v).len() + 1 < t.len(),
        t.subrange(i, i + member_text(k, v).len()) == member_text(k, v),
        member_value(t, i + 5 + quoted(k).len(), k, f) == Some((f2, i + member_text(k, v).len())),
    ensures
        t[i + member_text(k, v).len()] == ',' ==> members(t, i, f, fuel) == members(
            t,
            i + member_text(k, v).len() + 1,
            f2,
            (fuel - 1) as nat,
        ),
        t[i + member_text(k, v).len()] == '\n' && t[i + member_text(k, v).len() + 1] == '}'
            ==> members(t, i, f, fuel) == Some((f2, i + member_text(k, v).len() + 2)),
{
    reveal(quoted);
    let mt = member_text(k, v);
    let q = quoted(k);
    assert forall|j: int| 0 <= j < mt.len() implies t[i + j] == #[trigger] mt[j] by {
        assert(t.subrange(i, i + mt.len())[j] == t[i + j]);
    }
    assert(mt[0] == '\n' && mt[1] == ' ' && mt[2] == ' ');
    assert(mt[3] == q[0]);
    assert(skip_ws(t, i + 2) == skip_ws(t, i + 3));
    assert(skip_ws(t, i + 1) == skip_ws(t, i + 3));
    assert(skip_ws(t, i) == i + 3);
    assert(t.subrange(i + 3, i + 3 + q.len()) =~= mt.subrange(3, 3 + q.len() as int));
    assert(mt.subrange(3, 3 + q.len() as int) =~= q);
    lemma_unquote_quoted(t, i + 3, k);
    let e1 = i + 3 + q.len();
    assert(mt[3 + q.len() as int] == ':');
    assert(mt[4 + q.len() as int] == ' ');
    assert(mt[5 + q.len() as int] == v[0]);
    assert(t[e1 + 2] == v[0]);
    assert(skip_ws(t, e1) == e1);
    assert(skip_ws(t, e1 + 2) == e1 + 2);
    assert(skip_ws(t, e1 + 1) == e1 + 2);
    let e2 = i + mt.len();
    if t[e2] == '\n' && t[e2 + 1] == '}' {
        assert(skip_ws(t, e2 + 1) == e2 + 1);
        assert(skip_ws(t, e2) == e2 + 1);
    } else if t[e2] == ',' {
        assert(skip_ws(t, e2) == e2);
    }
}

proof fn lemma_quoted_start(s: Seq<char>)
    ensures
        quoted(s).len() > 0,
        quoted(s)[0] == '"',
{
    reveal(quoted);
}

proof fn lemma_value_place(t: Seq<char>, i: int, k: Seq<char>, v: Seq<char>)
    requires
        0 <= i,
        i + member_text(k, v).len() <= t.len(),
        t.subrange(i, i + member_text(k, v).len()) == member_text(k, v),
    ensures
        t.subrange(i + 5 + quoted(k).len(), i + member_text(k, v).len()) == v,
        i + member_text(k, v).len() == i + 5 + quoted(k).len() + v.len(),
{
    let mt = member_text(k, v);
    let p = 5 + quoted(k).len();
    assert(mt.subrange(p as int, mt.len() as int) =~= v);
    assert(t.subrange(i + p, i + mt.len()) =~= t.subrange(i, i + mt.len()).subrange(p as int, mt.len() as int));
}

proof fn lemma_keys()
    ensures
        KEY_ID@ != KEY_GAME@ && KEY_ID@ != KEY_TIME@ && KEY_ID@ != KEY_LABEL@ && KEY_ID@ != KEY_BYTES@
            && KEY_ID@ != KEY_COUNT@,
        KEY_GAME@ != KEY_TIME@ && KEY_GAME@ != KEY_LABEL@ && KEY_GAME@ != KEY_BYTES@ && KEY_GAME@
            != KEY_COUNT@,
        KEY_TIME@ != KEY_LABEL@ && KEY_TIME@ != KEY_BYTES@ && KEY_TIME@ != KEY_COUNT@,
        KEY_LABEL@ != KEY_BYTES@ && KEY_LABEL@ != KEY_COUNT@,
        KEY_BYTES@ != KEY_COUNT@,
{
    reveal_strlit("id");
    reveal_strlit("game_id");
    reveal_strlit("timestamp");
    reveal_strlit("name");
    reveal_strlit("size");
    reveal_strlit("file_count");
    assert(KEY_ID@.len() != KEY_GAME@.len());
    assert(KEY_ID@.len() != KEY_TIME@.len());
    assert(KEY_ID@.len() != KEY_LABEL@.len());
    assert(KEY_ID@.len() != KEY_BYTES@.len());
    assert(KEY_ID@.len() != KEY_COUNT@.len());
    assert(KEY_GAME@.len() != KEY_TIME@.len());
    assert(KEY_GAME@.len() != KEY_LABEL@.len());
    assert(KEY_GAME@.len() != KEY_BYTES@.len());
    assert(KEY_GAME@.len() != KEY_COUNT@.len());
    assert(KEY_TIME@.len() != KEY_LABEL@.len());
    assert(KEY_TIME@.len() != KEY_BYTES@.len());
    assert(KEY_TIME@.len() != KEY_COUNT@.len());
    assert(KEY_LABEL@[0] != KEY_BYTES@[0]);
    assert(KEY_LABEL@.len() != KEY_COUNT@.len());
    assert(KEY_BYTES@.len() != KEY_COUNT@.len());
}

/// One string member of a record's encoding, read.
proof fn lemma_string_member(t: Seq<char>, i: int, k: Seq<char>, s: Seq<char>)
    requires
        0 <= i,
        i + member_text(k, quoted(s)).len() <= t.len(),
        t.subrange(i, i + member_text(k, quoted(s)).len()) == member_text(k, quoted(s)),
    ensures
        string_at(t, i + 5 + quoted(k).len()) == Some((s, i + member_text(k, quoted(s)).len())),
        quoted(s).len() > 0 && !is_ws(quoted(s)[0]),
{
    lemma_value_place(t, i, k, quoted(s));
    lemma_quoted_start(s);
    let p = i + 5 + quoted(k).len();
    assert(t[p] == t.subrange(p, p + quoted(s).len())[0]);
    lemma_unquote_quoted(t, p, s);
}

/// One number member of a record's encoding, read.
proof fn lemma_number_member(t: Seq<char>, i: int, k: Seq<char>, n: nat)
    requires
        0 <= i,
        n <= u64::MAX,
        i + member_text(k, decimal(n)).len() < t.len(),
        t.subrange(i, i + member_text(k, decimal(n)).len()) == member_text(k, decimal(n)),
        !is_digit(t[i + member_text(k, decimal(n)).len()]),
    ensures
        number_at(t, i + 5 + quoted(k).len()) == Some((n, i + member_text(k, decimal(n)).len())),
        decimal(n).len() > 0 && !is_ws(decimal(n)[0]),
{
    lemma_value_place(t, i, k, decimal(n));
    lemma_decimal(n);
    assert(is_digit(decimal(n)[0]));
    lemma_number_at(t, i + 5 + quoted(k).len(), n);
}

/// The instant member of a record's encoding, read.
proof fn lemma_stamp_member(t: Seq<char>, i: int, k: Seq<char>, ts: Timestamp)
    requires
        0 <= i,
        ts.wf(),
        i + member_text(k, quoted(stamp_text(ts))).len() <= t.len(),
        t.subrange(i, i + member_text(k, quoted(stamp_text(ts))).len()) == member_text(k, quoted(stamp_text(ts))),
    ensures
        stamp_string_at(t, i + 5 + quoted(k).len()) == Some((ts, i + member_text(k, quoted(stamp_text(ts))).len())),
        quoted(stamp_text(ts)).len() > 0 && !is_ws(quoted(stamp_text(ts))[0]),
{
    let st = stamp_text(ts);
    lemma_string_member(t, i, k, st);
    assert(st.subrange(0, st.len() as int) =~= st);
    lemma_stamp_at(st, 0, ts);
}

/// The encoding of a valid record reads back as that record's fields.
#[verifier::rlimit(100)]
pub proof fn lemma_round_trip(m: SnapshotMetadata)
    requires
        m.valid(),
    ensures
        parse_record(encoding(m)) == Some(record_fields(m)),
{
    reveal(encoding);
    lemma_keys();
    let t = encoding(m);
    let st = stamp_text(m.timestamp);
    let v1 = quoted(m.id@);
    let v2 = quoted(m.game_id@);
    let v3 = quoted(st);
    let v4 = quoted(m.name@);
    let v5 = decimal(m.size as nat);
    let v6 = decimal(m.file_count as nat);
    let a1 = member_text(KEY_ID@, v1);
    let a2 = member_text(KEY_GAME@, v2);
    let a3 = member_text(KEY_TIME@, v3);
    let a4 = member_text(KEY_LABEL@, v4);
    let a5 = member_text(KEY_BYTES@, v5);
    let a6 = member_text(KEY_COUNT@, v6);
    lemma_six(a1, a2, a3, a4, a5, a6);
    assert(t == seq!['{'] + a1 + seq![','] + a2 + seq![','] + a3 + seq![','] + a4 + seq![','] + a5
        + seq![','] + a6 + seq!['\n', '}']);
    let i1 = 1int;
    let i2 = i1 + a1.len() + 1;
    let i3 = i2 + a2.len() + 1;
    let i4 = i3 + a3.len() + 1;
    let i5 = i4 + a4.len() + 1;
    let i6 = i5 + a5.len() + 1;
    let f0: Found = (None, None, None, None, None, None);
    let f1: Found = (Some(m.id@), None, None, None, None, None);
    let f2: Found = (Some(m.id@), Some(m.game_id@), None, None, None, None);
    let f3: Found = (Some(m.id@), Some(m.game_id@), Some(m.timestamp), None, None, None);
    let f4: Found = (Some(m.id@), Some(m.game_id@), Some(m.timestamp), Some(m.name@), None, None);
    let f5: Found = (Some(m.id@), Some(m.game_id@), Some(m.timestamp), Some(m.name@), Some(m.size as nat), None);
    let f6: Found = (Some(m.id@), Some(m.game_id@), Some(m.timestamp), Some(m.name@), Some(m.size as nat), Some(m.file_count as nat));
    lemma_string_member(t, i1, KEY_ID@, m.id@);
    assert(member_value(t, i1 + 5 + quoted(KEY_ID@).len(), KEY_ID@, f0) == Some((f1, i1 + a1.len())));
    lemma_string_member(t, i2, KEY_GAME@, m.game_id@);
    assert(member_value(t, i2 + 5 + quoted(KEY_GAME@).len(), KEY_GAME@, f1) == Some((f2, i2 + a2.len())));
    lemma_stamp_member(t, i3, KEY_TIME@, m.timestamp);
    assert(member_value(t, i3 + 5 + quoted(KEY_TIME@).len(), KEY_TIME@, f2) == Some((f3, i3 + a3.len())));
    lemma_string_member(t, i4, KEY_LABEL@, m.name@);
    assert(member_value(t, i4 + 5 + quoted(KEY_LABEL@).len(), KEY_LABEL@, f3) == Some((f4, i4 + a4.len())));
    lemma_number_member(t, i5, KEY_BYTES@, m.size as nat);
    assert(member_value(t, i5 + 5 + quoted(KEY_BYTES@).len(), KEY_BYTES@, f4) == Some((f5, i5 + a5.len())));
    lemma_number_member(t, i6, KEY_COUNT@, m.file_count as nat);
    assert(member_value(t, i6 + 5 + quoted(KEY_COUNT@).len(), KEY_COUNT@, f5) == Some((f6, i6 + a6.len())));
    let n = t.len();
    lemma_member(t, i1, KEY_ID@, v1, f0, f1, n);
    lemma_member(t, i2, KEY_GAME@, v2, f1, f2, (n - 1) as nat);
    lemma_member(t, i3, KEY_TIME@, v3, f2, f3, (n - 2) as nat);
    lemma_member(t, i4, KEY_LABEL@, v4, f3, f4, (n - 3) as nat);
    lemma_member(t, i5, KEY_BYTES@, v5, f4, f5, (n - 4) as nat);
    lemma_member(t, i6, KEY_COUNT@, v6, f5, f6, (n - 5) as nat);
    assert(skip_ws(t, 0) == 0);
    assert(skip_ws(t, n as int) == n);
}

} // verus!
