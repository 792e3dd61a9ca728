//! Keyset pagination cursors for game search: "DATE|ID".

use vstd::prelude::*;

use crate::decimal::{lemma_parse_signed_decimal, parse_i64, push_signed_decimal, signed_decimal, spec_parse_i64, is_digit};
use crate::text::{chars_of, lemma_split_on_nonempty, pieces_view, split_chars, split_on, string_from_chars, sub_chars};

verus! {

/// The cursor text for a game date (empty when absent) and a game id.
pub open spec fn spec_encode_cursor(game_date: Option<Seq<char>>, id: i64) -> Seq<char> {
    let d = match game_date {
        Some(s) => s,
        None => Seq::empty(),
    };
    d + seq!['|'] + signed_decimal(id as int)
}

/// Splits at the last '|': the text before it and the text after it.
pub open spec fn split_last_bar(c: Seq<char>) -> Option<(Seq<char>, Seq<char>)> {
    let pieces = split_on(c, '|');
    if pieces.len() < 2 {
        None
    } else {
        let after = pieces.last();
        Some((c.take(c.len() - after.len() - 1), after))
    }
}

/// The (date, id) a cursor names: the id after the last '|' must parse as an `i64`,
/// and an empty date part means no date.
pub open spec fn spec_decode_cursor(c: Seq<char>) -> Option<(Option<Seq<char>>, i64)> {
    match split_last_bar(c) {
        None => None,
        Some((date, id_text)) => match spec_parse_i64(id_text) {
            None => None,
            Some(id) => Some((if date.len() == 0 { None } else { Some(date) }, id)),
        },
    }
}

/// Builds the cursor "DATE|ID" (an absent date gives "|ID").
pub fn encode_cursor(game_date: Option<&str>, id: i64) -> (s: String)
    ensures
        s@ == spec_encode_cursor(
            match game_date {
                Some(d) => Some(d@),
                None => None,
            },
            id,
        ),
{
    let mut out: Vec<char> = match game_date {
        Some(d) => chars_of(d),
        None => Vec::new(),
    };
    out.push('|');
    push_signed_decimal(&mut out, id);
    string_from_chars(out.as_slice())
}

proof fn lemma_split_last_piece(s: Seq<char>, sep: char)
    ensures
        split_on(s, sep).len() >= 1,
        split_on(s, sep).last().len() <= s.len(),
        split_on(s, sep).len() >= 2 ==> split_on(s, sep).last().len() < s.len(),
    decreases s.len(),
{
    lemma_split_on_nonempty(s, sep);
    if s.len() > 0 {
        lemma_split_last_piece(s.drop_last(), sep);
    }
}

/// Parses a cursor back into its optional date and id.
pub fn decode_cursor(cursor: &str) -> (r: Option<(Option<String>, i64)>)
    ensures
        r is Some <==> spec_decode_cursor(cursor@) is Some,
        r matches Some((d, id)) ==> spec_decode_cursor(cursor@) == Some(
            (
                match d {
                    Some(s) => Some(s@),
                    None => None,
                },
                id,
            ),
        ),
{
    let cs = chars_of(cursor);
    let pieces = split_chars(cs.as_slice(), '|');
    proof {
        lemma_split_last_piece(cursor@, '|');
    }
    if pieces.len() < 2 {
        return None;
    }
    let last = pieces.len() - 1;
    let after = &pieces[last];
    assert(after@ == split_on(cursor@, '|').last());
    let cut = cs.len() - after.len() - 1;
    let date = sub_chars(cs.as_slice(), 0, cut);
    assert(date@ == cursor@.take(cursor@.len() - after@.len() - 1));
    match parse_i64(after.as_slice()) {
        None => None,
        Some(id) => {
            if date.len() == 0 {
                Some((None, id))
            } else {
                Some((Some(string_from_chars(date.as_slice())), id))
            }
        },
    }
}

proof fn lemma_split_on_append_plain(a: Seq<char>, t: Seq<char>, sep: char)
    requires
        forall|i: int| 0 <= i < t.len() ==> #[trigger] t[i] != sep,
    ensures
        split_on(a + seq![sep] + t, sep).len() >= 2,
        split_on(a + seq![sep] + t, sep).last() == t,
    decreases t.len(),
{
    let s = a + seq![sep] + t;
    lemma_split_on_nonempty(a, sep);
    if t.len() == 0 {
        assert(s == a.push(sep));
        assert(s.drop_last() == a);
    } else {
        lemma_split_on_append_plain(a, t.drop_last(), sep);
        assert(s.drop_last() == a + seq![sep] + t.drop_last());
        assert(s.last() == t.last());
        assert(t.drop_last().push(t.last()) == t);
    }
}

/// Law: decoding an encoded cursor gives back its id, and its date unless the date
/// was empty or absent.
pub proof fn lemma_cursor_round_trip(game_date: Option<Seq<char>>, id: i64)
    ensures
        spec_decode_cursor(spec_encode_cursor(game_date, id)) == Some(
            (
                match game_date {
                    Some(d) => if d.len() == 0 {
                        None
                    } else {
                        Some(d)
                    },
                    None => None,
                },
                id,
            ),
        ),
{
    let d = match game_date {
        Some(s) => s,
        None => Seq::<char>::empty(),
    };
    let t = signed_decimal(id as int);
    assert forall|i: int| 0 <= i < t.len() implies #[trigger] t[i] != '|' by {
        lemma_signed_decimal_no_bar(id as int, i);
    }
    lemma_split_on_append_plain(d, t, '|');
    let c = spec_encode_cursor(game_date, id);
    assert(c == d + seq!['|'] + t);
    assert(c.take(c.len() - t.len() - 1) == d);
    lemma_parse_signed_decimal(id);
}

proof fn lemma_signed_decimal_no_bar(n: int, i: int)
    requires
        0 <= i < signed_decimal(n).len(),
    ensures
        signed_decimal(n)[i] != '|',
{
    let m = if n < 0 { (-n) as nat } else { n as nat };
    crate::decimal::lemma_decimal_digits_all_digits(m);
    if n < 0 {
        if i > 0 {
            assert(signed_decimal(n)[i] == crate::decimal::decimal_digits(m)[i - 1]);
            assert(is_digit(crate::decimal::decimal_digits(m)[i - 1]));
        }
    } else {
        assert(is_digit(crate::decimal::decimal_digits(m)[i]));
    }
}

} // verus!
