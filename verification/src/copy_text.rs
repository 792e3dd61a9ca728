//! Field encoding for PostgreSQL `COPY ... FROM STDIN` text format.

use vstd::prelude::*;

use crate::decimal::{push_signed_decimal, signed_decimal};
use crate::text::{chars_of, string_from_chars};

verus! {

/// How one character is written in a COPY text field.
pub open spec fn escape_char(c: char) -> Seq<char> {
    if c == '\\' {
        seq!['\\', '\\']
    } else if c == '\t' {
        seq!['\\', 't']
    } else if c == '\n' {
        seq!['\\', 'n']
    } else if c == '\r' {
        seq!['\\', 'r']
    } else {
        seq![c]
    }
}

/// A text value escaped for a COPY text field, character by character.
pub open spec fn spec_escape(s: Seq<char>) -> Seq<char>
    decreases s.len(),
{
    if s.len() == 0 {
        Seq::empty()
    } else {
        spec_escape(s.drop_last()) + escape_char(s.last())
    }
}

/// The COPY text-format null marker.
pub open spec fn copy_null() -> Seq<char> {
    seq!['\\', 'N']
}

/// Reads an escaped field back: a backslash and a code stand for the character
/// they encode.
pub open spec fn spec_unescape(s: Seq<char>) -> Seq<char>
    decreases s.len(),
{
    if s.len() == 0 {
        Seq::empty()
    } else if s[0] == '\\' && s.len() >= 2 {
        let c = if s[1] == 't' {
            '\t'
        } else if s[1] == 'n' {
            '\n'
        } else if s[1] == 'r' {
            '\r'
        } else {
            s[1]
        };
        seq![c] + spec_unescape(s.skip(2))
    } else {
        seq![s[0]] + spec_unescape(s.skip(1))
    }
}

/// Escapes text for PostgreSQL COPY text format: backslash, tab, newline and
/// carriage return become two-character escapes.
pub fn escape_copy_text(s: &str) -> (r: String)
    ensures
        r@ == spec_escape(s@),
{
    let cs = chars_of(s);
    let mut out: Vec<char> = Vec::new();
    let mut i: usize = 0;
    while i < cs.len()
        invariant
            i <= cs@.len(),
            cs@ == s@,
            out@ == spec_escape(cs@.take(i as int)),
        decreases cs@.len() - i,
    {
        let ch = cs[i];
        if ch == '\\' {
            out.push('\\');
            out.push('\\');
        } else if ch == '\t' {
            out.push('\\');
            out.push('t');
        } else if ch == '\n' {
            out.push('\\');
            out.push('n');
        } else if ch == '\r' {
            out.push('\\');
            out.push('r');
        } else {
            out.push(ch);
        }
        assert(cs@.take(i + 1).drop_last() == cs@.take(i as int));
        i = i + 1;
        assert(out@ =~= spec_escape(cs@.take(i as int)));
    }
    assert(cs@.take(cs@.len() as int) == cs@);
    string_from_chars(out.as_slice())
}

/// Encodes an optional text field: `\N` for null, the escaped text otherwise.
pub fn copy_field(value: Option<&str>) -> (r: String)
    ensures
        r@ == (match value {
            None => copy_null(),
            Some(s) => spec_escape(s@),
        }),
{
    match value {
        None => {
            let mut v: Vec<char> = Vec::new();
            v.push('\\');
            v.push('N');
            assert(v@ =~= copy_null());
            string_from_chars(v.as_slice())
        },
        Some(s) => escape_copy_text(s),
    }
}

/// Encodes a required text field.
pub fn copy_field_req(value: &str) -> (r: String)
    ensures
        r@ == spec_escape(value@),
{
    escape_copy_text(value)
}

/// Encodes an optional small integer field in decimal, `\N` for null.
pub fn copy_field_i16(value: Option<i16>) -> (r: String)
    ensures
        r@ == (match value {
            None => copy_null(),
            Some(v) => spec_escape(signed_decimal(v as int)),
        }),
{
    match value {
        None => copy_field(None),
        Some(v) => {
            let mut ds: Vec<char> = Vec::new();
            push_signed_decimal(&mut ds, v as i64);
            assert(ds@ =~= signed_decimal(v as int));
            let text = string_from_chars(ds.as_slice());
            copy_field(Some(text.as_str()))
        },
    }
}

/// Lower-case hexadecimal digit for `d` (0 through 15).
pub open spec fn hex_digit(d: int) -> char {
    if d < 10 {
        (d + 48) as char
    } else {
        (d + 87) as char
    }
}

/// Two lower-case hexadecimal digits per byte, in order.
pub open spec fn spec_hex(bytes: Seq<u8>) -> Seq<char>
    decreases bytes.len(),
{
    if bytes.len() == 0 {
        Seq::empty()
    } else {
        spec_hex(bytes.drop_last()) + seq![
            hex_digit((bytes.last() / 16) as int),
            hex_digit((bytes.last() % 16) as int),
        ]
    }
}

fn hex_digit_exec(d: u8) -> (c: char)
    requires
        d < 16,
    ensures
        c == hex_digit(d as int),
{
    if d < 10 {
        (48u8 + d) as char
    } else {
        (87u8 + d) as char
    }
}

/// Renders bytes as lower-case hexadecimal, two digits per byte.
pub fn hex_bytes(bytes: &[u8]) -> (r: String)
    ensures
        r@ == spec_hex(bytes@),
{
    let mut out: Vec<char> = Vec::new();
    let mut i: usize = 0;
    while i < bytes.len()
        invariant
            i <= bytes@.len(),
            out@ == spec_hex(bytes@.take(i as int)),
        decreases bytes@.len() - i,
    {
        let b = bytes[i];
        out.push(hex_digit_exec(b / 16));
        out.push(hex_digit_exec(b % 16));
        assert(bytes@.take(i + 1).drop_last() == bytes@.take(i as int));
        i = i + 1;
        assert(out@ =~= spec_hex(bytes@.take(i as int)));
    }
    assert(bytes@.take(bytes@.len() as int) == bytes@);
    string_from_chars(out.as_slice())
}

/// Law: an escaped field holds no raw tab, newline or carriage return, so it never
/// splits a COPY row or column.
pub proof fn lemma_escape_has_no_separators(s: Seq<char>)
    ensures
        forall|i: int|
            0 <= i < spec_escape(s).len() ==> #[trigger] spec_escape(s)[i] != '\t'
                && spec_escape(s)[i] != '\n' && spec_escape(s)[i] != '\r',
    decreases s.len(),
{
    if s.len() > 0 {
        lemma_escape_has_no_separators(s.drop_last());
        let a = spec_escape(s.drop_last());
        let b = escape_char(s.last());
        assert forall|i: int| 0 <= i < (a + b).len() implies #[trigger] (a + b)[i] != '\t' && (a
            + b)[i] != '\n' && (a + b)[i] != '\r' by {
            if i >= a.len() {
                assert((a + b)[i] == b[i - a.len()]);
            } else {
                assert((a + b)[i] == a[i]);
            }
        }
    }
}

proof fn lemma_unescape_append(s: Seq<char>, c: char)
    ensures
        spec_unescape(spec_escape(s) + escape_char(c)) == spec_unescape(spec_escape(s)) + seq![c],
    decreases s.len(),
{
    lemma_unescape_concat(spec_escape(s), escape_char(c), s);
    let e = escape_char(c);
    if c == '\\' || c == '\t' || c == '\n' || c == '\r' {
        assert(e.skip(2) =~= Seq::<char>::empty());
    } else {
        assert(e.skip(1) =~= Seq::<char>::empty());
    }
    assert(spec_unescape(Seq::<char>::empty()) == Seq::<char>::empty());
}

proof fn lemma_unescape_concat(a: Seq<char>, b: Seq<char>, s: Seq<char>)
    requires
        a == spec_escape(s),
    ensures
        spec_unescape(a + b) == spec_unescape(a) + spec_unescape(b),
    decreases s.len(),
{
    if s.len() == 0 {
        assert(a + b == b);
    } else {
        // Split off the escape of the first character.
        let first = escape_char(s[0]);
        let rest = s.drop_first();
        lemma_escape_first(s);
        assert(a == first + spec_escape(rest));
        lemma_unescape_concat(spec_escape(rest), b, rest);
        let k = first.len() as int;
        assert((a + b).skip(k) == spec_escape(rest) + b);
        assert(a.skip(k) == spec_escape(rest));
        assert((a + b)[0] == a[0]);
        if k == 2 {
            assert((a + b)[1] == a[1]);
        }
        if s[0] == '\\' {
            assert(a.len() >= 2);
        }
    }
}

proof fn lemma_escape_first(s: Seq<char>)
    requires
        s.len() > 0,
    ensures
        spec_escape(s) == escape_char(s[0]) + spec_escape(s.drop_first()),
    decreases s.len(),
{
    if s.len() == 1 {
        assert(s.drop_last() =~= Seq::<char>::empty());
        assert(s.drop_first() =~= Seq::<char>::empty());
    } else {
        lemma_escape_first(s.drop_last());
        assert(s.drop_last().drop_first() == s.drop_first().drop_last());
        assert(s.drop_first().last() == s.last());
        assert(s.drop_last()[0] == s[0]);
    }
}

/// Law: reading an escaped field back gives the text that was escaped.
pub proof fn lemma_escape_round_trip(s: Seq<char>)
    ensures
        spec_unescape(spec_escape(s)) == s,
    decreases s.len(),
{
    if s.len() > 0 {
        lemma_escape_round_trip(s.drop_last());
        lemma_unescape_append(s.drop_last(), s.last());
        assert(s.drop_last().push(s.last()) == s);
    } else {
        assert(spec_unescape(Seq::<char>::empty()) == Seq::<char>::empty());
    }
}

} // verus!
