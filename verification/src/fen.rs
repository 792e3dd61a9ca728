//! FEN piece-placement parsing for board rendering.

use vstd::prelude::*;

use crate::decimal::{digit_value, is_digit};
use crate::text::{
    chars_of, is_whitespace, pieces_view, skip_whitespace_forward, split_chars, split_on,
    str_equal, string_from_chars, sub_chars, trim_start,
};

verus! {

/// Whether `c` is an ASCII letter.
pub open spec fn is_ascii_alpha(c: char) -> bool {
    ('a' <= c && c <= 'z') || ('A' <= c && c <= 'Z')
}

/// Number of leading characters of `s` that are not whitespace.
pub open spec fn token_len(s: Seq<char>) -> nat
    decreases s.len(),
{
    if s.len() > 0 && !is_whitespace(s[0]) {
        1 + token_len(s.drop_first())
    } else {
        0
    }
}

/// The piece-placement field: the first whitespace-separated token of the FEN,
/// or the whole text when it has none.
pub open spec fn fen_placement(fen: Seq<char>) -> Seq<char> {
    let t = trim_start(fen);
    if t.len() == 0 {
        fen
    } else {
        t.take(token_len(t) as int)
    }
}

/// The rank descriptions of the placement field, eighth rank first.
pub open spec fn fen_ranks(fen: Seq<char>) -> Seq<Seq<char>> {
    split_on(fen_placement(fen), '/')
}

/// The file cursor after reading the characters of one rank description:
/// digits skip that many files, letters occupy one file while files remain.
pub open spec fn rank_cursor(cs: Seq<char>) -> int
    decreases cs.len(),
{
    if cs.len() == 0 {
        0
    } else {
        let f = rank_cursor(cs.drop_last());
        let c = cs.last();
        if is_digit(c) {
            f + digit_value(c)
        } else if is_ascii_alpha(c) && f < 8 {
            f + 1
        } else {
            f
        }
    }
}

/// The piece a rank description puts on `file`, if any.
pub open spec fn rank_cell(cs: Seq<char>, file: int) -> Option<char>
    decreases cs.len(),
{
    if cs.len() == 0 {
        None
    } else {
        let f = rank_cursor(cs.drop_last());
        let c = cs.last();
        if !is_digit(c) && is_ascii_alpha(c) && f < 8 && f == file {
            Some(c)
        } else {
            rank_cell(cs.drop_last(), file)
        }
    }
}

/// The content of square `idx` (a1 = 0 … h8 = 63) described by `fen`.
pub open spec fn fen_square(fen: Seq<char>, idx: int) -> Option<char> {
    let k = 7 - idx / 8;
    if k < fen_ranks(fen).len() {
        rank_cell(fen_ranks(fen)[k], idx % 8)
    } else {
        None
    }
}

/// The file cursor of each of the first eight ranks stays within a byte,
/// as the parser's counter requires.
pub open spec fn fen_cursor_in_range(fen: Seq<char>) -> bool {
    forall|k: int|
        0 <= k < 8 && k < fen_ranks(fen).len() ==> rank_cursor(#[trigger] fen_ranks(fen)[k])
            <= 255
}

proof fn lemma_rank_cursor_monotone(cs: Seq<char>, j: int)
    requires
        0 <= j <= cs.len(),
    ensures
        0 <= rank_cursor(cs.take(j)) <= rank_cursor(cs),
    decreases cs.len() - j,
{
    if j < cs.len() {
        lemma_rank_cursor_monotone(cs, j + 1);
        assert(cs.take(j + 1).drop_last() == cs.take(j));
        lemma_rank_cursor_nonneg(cs.take(j));
        let c = cs.take(j + 1).last();
        if is_digit(c) {
            assert(digit_value(c) >= 0);
        }
    } else {
        assert(cs.take(j) == cs);
        lemma_rank_cursor_nonneg(cs);
    }
}

proof fn lemma_rank_cursor_nonneg(cs: Seq<char>)
    ensures
        rank_cursor(cs) >= 0,
    decreases cs.len(),
{
    if cs.len() > 0 {
        lemma_rank_cursor_nonneg(cs.drop_last());
    }
}

/// Token bounds of the placement field within `cs`.
fn placement_chars(cs: &Vec<char>) -> (p: Vec<char>)
    ensures
        p@ == fen_placement(cs@),
{
    let n = cs.len();
    let a = skip_whitespace_forward(cs.as_slice(), 0, n);
    assert(cs@.subrange(0, n as int) == cs@);
    if a == n {
        return sub_chars(cs.as_slice(), 0, n);
    }
    let mut b = a;
    while b < n && !crate::text::char_is_whitespace(cs[b])
        invariant
            a <= b <= n == cs@.len(),
            token_len(cs@.subrange(a as int, n as int)) == (b - a) + token_len(
                cs@.subrange(b as int, n as int),
            ),
        decreases n - b,
    {
        assert(cs@.subrange(b as int, n as int).drop_first() == cs@.subrange(b + 1, n as int));
        b = b + 1;
    }
    let ghost t = cs@.subrange(a as int, n as int);
    assert(t.take(token_len(t) as int) == cs@.subrange(a as int, b as int));
    sub_chars(cs.as_slice(), a, b)
}

/// Parses the piece-placement field of a FEN into 64 cells (a1 = 0 … h8 = 63).
pub fn fen_to_squares(fen: &str) -> (squares: [Option<char>; 64])
    requires
        fen_cursor_in_range(fen@),
    ensures
        forall|i: int| 0 <= i < 64 ==> #[trigger] squares@[i] == fen_square(fen@, i),
{
    let cs = chars_of(fen);
    let placement = placement_chars(&cs);
    let ranks = split_chars(placement.as_slice(), '/');
    let ghost rs = fen_ranks(fen@);
    assert(pieces_view(ranks@) == rs);
    let mut squares: [Option<char>; 64] = [None; 64];
    let mut k: usize = 0;
    while k < ranks.len() && k < 8
        invariant
            pieces_view(ranks@) == rs,
            rs == fen_ranks(fen@),
            fen_cursor_in_range(fen@),
            k <= 8,
            k <= rs.len(),
            forall|i: int|
                0 <= i < 64 ==> #[trigger] squares@[i] == (if 7 - i / 8 < k {
                    rank_cell(rs[7 - i / 8], i % 8)
                } else {
                    None::<char>
                }),
        decreases 8 - k,
    {
        let seg = &ranks[k];
        assert(seg@ == rs[k as int]);
        assert(rank_cursor(rs[k as int]) <= 255);
        let rank: usize = 7 - k;
        let mut file: u8 = 0;
        let mut j: usize = 0;
        while j < seg.len()
            invariant
                seg@ == rs[k as int],
                rank_cursor(seg@) <= 255,
                k < 8,
                rank == 7 - k,
                j <= seg@.len(),
                file as int == rank_cursor(seg@.take(j as int)),
                forall|i: int|
                    0 <= i < 64 ==> #[trigger] squares@[i] == (if 7 - i / 8 < k {
                        rank_cell(rs[7 - i / 8], i % 8)
                    } else if 7 - i / 8 == k {
                        rank_cell(seg@.take(j as int), i % 8)
                    } else {
                        None::<char>
                    }),
            decreases seg@.len() - j,
        {
            let ch = seg[j];
            proof {
                assert(seg@.take(j + 1).drop_last() == seg@.take(j as int));
                assert(seg@.take(j + 1).last() == ch);
                lemma_rank_cursor_monotone(seg@, j + 1);
            }
            if '0' <= ch && ch <= '9' {
                let d: u8 = ((ch as u32) - 48) as u8;
                file = file + d;
            } else if ('a' <= ch && ch <= 'z') || ('A' <= ch && ch <= 'Z') {
                if file < 8 {
                    let idx: usize = rank * 8 + file as usize;
                    squares[idx] = Some(ch);
                    file = file + 1;
                }
            }
            j = j + 1;
        }
        assert(seg@.take(j as int) == seg@);
        k = k + 1;
    }
    proof {
        assert forall|i: int| 0 <= i < 64 implies #[trigger] squares@[i] == fen_square(
            fen@,
            i,
        ) by {
            if 7 - i / 8 >= k && 7 - i / 8 < rs.len() {
                // Only ranks past the eighth remain, and they describe no square.
                assert(false);
            }
        }
    }
    squares
}

/// Whether the FEN character is a white piece (an ASCII capital letter).
pub fn is_white_piece(ch: char) -> (b: bool)
    ensures
        b == ('A' <= ch && ch <= 'Z'),
{
    'A' <= ch && ch <= 'Z'
}

/// Algebraic name of square `idx`: file letter, then rank digit.
/// The rank is taken from `idx / 8` reduced to a byte (a `u8` cast).
pub open spec fn spec_index_to_algebraic(idx: int) -> Seq<char> {
    seq![((idx % 8) + 97) as char, (((idx / 8) % 256) + 49) as char]
}

/// Converts a square index to algebraic notation (0 becomes "a1").
pub fn index_to_algebraic(idx: usize) -> (s: String)
    requires
        (idx / 8) % 256 <= 206,
    ensures
        s@ == spec_index_to_algebraic(idx as int),
{
    let rank: u8 = ((idx / 8) % 256) as u8;
    let file: u8 = (idx % 8) as u8;
    let mut v: Vec<char> = Vec::new();
    v.push((97u8 + file) as char);
    v.push((49u8 + rank) as char);
    assert(v@ =~= spec_index_to_algebraic(idx as int));
    string_from_chars(v.as_slice())
}

/// Lower-case file letter for a file character, if it names a board file.
pub open spec fn file_of(c: char) -> Option<int> {
    if 'a' <= c && c <= 'h' {
        Some(c as int - 97)
    } else if 'A' <= c && c <= 'H' {
        Some(c as int - 65)
    } else {
        None
    }
}

/// The square index named by algebraic notation, if it names one.
pub open spec fn spec_algebraic_to_index(alg: Seq<char>) -> Option<int> {
    if alg.len() == 2 && file_of(alg[0]) is Some && '1' <= alg[1] && alg[1] <= '8' {
        Some((alg[1] as int - 49) * 8 + file_of(alg[0])->0)
    } else {
        None
    }
}

/// Parses algebraic notation (file letter in either case, rank digit) to a square index.
pub fn algebraic_to_index(alg: &str) -> (r: Option<usize>)
    ensures
        r matches Some(i) ==> spec_algebraic_to_index(alg@) == Some(i as int),
        r is None ==> spec_algebraic_to_index(alg@) is None,
{
    let cs = chars_of(alg);
    if cs.len() != 2 {
        return None;
    }
    let f = cs[0];
    let r = cs[1];
    let file: usize = if 'a' <= f && f <= 'h' {
        ((f as u32) - 97) as usize
    } else if 'A' <= f && f <= 'H' {
        ((f as u32) - 65) as usize
    } else {
        return None;
    };
    if '1' <= r && r <= '8' {
        Some((((r as u32) - 49) as usize) * 8 + file)
    } else {
        None
    }
}

/// Law: every square's algebraic name parses back to the square.
pub proof fn lemma_algebraic_round_trip(idx: int)
    requires
        0 <= idx < 64,
    ensures
        spec_algebraic_to_index(spec_index_to_algebraic(idx)) == Some(idx),
{
    let s = spec_index_to_algebraic(idx);
    assert(s[0] as int == idx % 8 + 97);
    assert(s[1] as int == idx / 8 + 49);
}

/// Law: a parsed square name renders back as the same name with a lower-case file.
pub proof fn lemma_index_round_trip(alg: Seq<char>)
    requires
        spec_algebraic_to_index(alg) is Some,
    ensures
        spec_index_to_algebraic(spec_algebraic_to_index(alg)->0) == seq![
            (file_of(alg[0])->0 + 97) as char,
            alg[1],
        ],
{
    let i = spec_algebraic_to_index(alg)->0;
    let f = file_of(alg[0])->0;
    let r = alg[1] as int - 49;
    assert(i % 8 == f && i / 8 == r) by (nonlinear_arith)
        requires
            i == r * 8 + f,
            0 <= f < 8,
            0 <= r < 8,
    ;
    assert((r + 49) as char == alg[1]);
}

/// The king character for a side name: 'K' for "white", 'k' otherwise.
pub open spec fn king_char(side: Seq<char>) -> char {
    if side == "white"@ {
        'K'
    } else {
        'k'
    }
}

/// Finds the king square for `side` ("white" | "black") in algebraic notation.
pub fn king_square(fen: &str, side: &str) -> (r: Option<String>)
    requires
        fen_cursor_in_range(fen@),
    ensures
        r is None <==> forall|i: int|
            0 <= i < 64 ==> fen_square(fen@, i) != Some(king_char(side@)),
        r matches Some(s) ==> exists|i: int|
            0 <= i < 64 && fen_square(fen@, i) == Some(king_char(side@)) && (forall|j: int|
                0 <= j < i ==> fen_square(fen@, j) != Some(king_char(side@)))
                && s@ == spec_index_to_algebraic(i),
{
    let white = "white";
    let target = if str_equal(side, white) {
        'K'
    } else {
        'k'
    };
    let squares = fen_to_squares(fen);
    let mut idx: usize = 0;
    while idx < 64
        invariant
            idx <= 64,
            target == king_char(side@),
            forall|i: int| 0 <= i < 64 ==> #[trigger] squares@[i] == fen_square(fen@, i),
            forall|j: int| 0 <= j < idx ==> fen_square(fen@, j) != Some(target),
        decreases 64 - idx,
    {
        if squares[idx] == Some(target) {
            assert(squares@[idx as int] == fen_square(fen@, idx as int));
            return Some(index_to_algebraic(idx));
        }
        assert(squares@[idx as int] == fen_square(fen@, idx as int));
        idx = idx + 1;
    }
    None
}

/// The standard starting position.
pub open spec fn spec_start_fen() -> Seq<char> {
    "rnbqkbnr/pppppppp/8/8/8/8/PPPPPPPP/RNBQKBNR w KQkq - 0 1"@
}

/// The start position of a game: the one stored for its ply 0, or the standard
/// starting position when none is stored.
pub fn start_fen_or_default(stored: Option<String>) -> (r: String)
    ensures
        r@ == match stored {
            Some(f) => f@,
            None => spec_start_fen(),
        },
{
    match stored {
        Some(f) => f,
        None => crate::text::owned("rnbqkbnr/pppppppp/8/8/8/8/PPPPPPPP/RNBQKBNR w KQkq - 0 1"),
    }
}

} // verus!
