//! UCI move parsing helpers.

use vstd::prelude::*;
use vstd::string::StringSliceAdditionalSpecFns;
use vstd::utf8::{decode_utf8, is_char_boundary};

use crate::text::{
    byte_len, chars_equal, chars_of, matches_at, owned, starts_with, str_equal, string_views,
    utf8_len,
};

verus! {

broadcast use vstd::utf8::encode_utf8_decode_utf8, vstd::utf8::encode_utf8_valid_utf8;

/// A parsed UCI move: origin and destination squares and an optional promotion piece.
#[derive(Debug, Clone, PartialEq, Eq)]
pub struct UciMove {
    pub from: String,
    pub to: String,
    pub promotion: Option<char>,
}

/// `parse_uci` slices the text at byte offsets 2 and 4, which must fall on
/// character boundaries whenever the text has at least four bytes.
pub open spec fn uci_slicing_ok(uci: &str) -> bool {
    uci.spec_bytes().len() >= 4 ==> is_char_boundary(uci.spec_bytes(), 2) && is_char_boundary(
        uci.spec_bytes(),
        4,
    )
}

/// Parses a UCI move string (e.g. "e2e4", "e7e8q"): the first two bytes name the
/// origin, the next two the destination, and a fifth character, if the text has
/// at least five bytes, the promotion piece.
pub fn parse_uci(uci: &str) -> (r: Option<UciMove>)
    requires
        uci_slicing_ok(uci),
    ensures
        uci.spec_bytes().len() < 4 ==> r is None,
        uci.spec_bytes().len() >= 4 ==> (r matches Some(m) && m.from@ == decode_utf8(
            uci.spec_bytes().subrange(0, 2),
        ) && m.to@ == decode_utf8(uci.spec_bytes().subrange(2, 4)) && m.promotion == (if uci.spec_bytes().len()
            >= 5 && uci@.len() > 4 {
            Some(uci@[4])
        } else {
            None
        })),
{
    let n = uci.as_bytes().len();
    if n < 4 {
        return None;
    }
    let ghost b = uci.spec_bytes();
    let (a, rest) = uci.split_at(2);
    proof {
        vstd::utf8::valid_utf8_split(b, 2);
        assert(rest.spec_bytes() == b.subrange(2, b.len() as int));
        if b.len() > 4 {
            vstd::utf8::is_char_boundary_iff_not_is_continuation_byte(b, 4);
            vstd::utf8::is_char_boundary_iff_not_is_continuation_byte(rest.spec_bytes(), 2);
            assert(rest.spec_bytes()[2] == b[4]);
        } else {
            vstd::utf8::is_char_boundary_start_end_of_seq(rest.spec_bytes());
        }
    }
    let (c, _) = rest.split_at(2);
    let from = owned(a);
    let to = owned(c);
    proof {
        assert(a.spec_bytes() == b.subrange(0, 2));
        assert(c.spec_bytes() == b.subrange(2, 4));
    }
    let promotion = if n >= 5 {
        let cs = chars_of(uci);
        if cs.len() > 4 {
            Some(cs[4])
        } else {
            None
        }
    } else {
        None
    };
    Some(UciMove { from, to, promotion })
}

/// The rook move that accompanies a king move, when the king move is castling.
pub open spec fn spec_castling_rook(king_from: Seq<char>, king_to: Seq<char>) -> Option<
    (Seq<char>, Seq<char>),
> {
    if king_from == "e1"@ && king_to == "g1"@ {
        Some(("h1"@, "f1"@))
    } else if king_from == "e1"@ && king_to == "c1"@ {
        Some(("a1"@, "d1"@))
    } else if king_from == "e8"@ && king_to == "g8"@ {
        Some(("h8"@, "f8"@))
    } else if king_from == "e8"@ && king_to == "c8"@ {
        Some(("a8"@, "d8"@))
    } else {
        None
    }
}

/// If the king move is castling, returns the rook's origin and destination squares.
pub fn castling_rook_move(king_from: &str, king_to: &str) -> (r: Option<(String, String)>)
    ensures
        r is Some <==> spec_castling_rook(king_from@, king_to@) is Some,
        r matches Some((a, b)) ==> spec_castling_rook(king_from@, king_to@) == Some(
            (a@, b@),
        ),
{
    if str_equal(king_from, "e1") && str_equal(king_to, "g1") {
        Some((owned("h1"), owned("f1")))
    } else if str_equal(king_from, "e1") && str_equal(king_to, "c1") {
        Some((owned("a1"), owned("d1")))
    } else if str_equal(king_from, "e8") && str_equal(king_to, "g8") {
        Some((owned("h8"), owned("f8")))
    } else if str_equal(king_from, "e8") && str_equal(king_to, "c8") {
        Some((owned("a8"), owned("d8")))
    } else {
        None
    }
}

/// A legal move that promotes from `from` to `to`: it starts with both squares and
/// is five bytes long.
pub open spec fn is_promotion_of(m: Seq<char>, base: Seq<char>) -> bool {
    starts_with(m, base) && utf8_len(m) == 5 && m.len() > 4
}

/// The promotion pieces offered by the legal moves from `from` to `to`, in list order.
pub open spec fn spec_promotion_options(legal: Seq<Seq<char>>, base: Seq<char>) -> Seq<char>
    decreases legal.len(),
{
    if legal.len() == 0 {
        Seq::empty()
    } else {
        let rest = spec_promotion_options(legal.drop_last(), base);
        if is_promotion_of(legal.last(), base) {
            rest.push(legal.last()[4])
        } else {
            rest
        }
    }
}

/// Promotion piece options for a pawn move from `from` to `to`.
pub fn promotion_options(legal_moves: &[String], from: &str, to: &str) -> (r: Vec<char>)
    ensures
        r@ == spec_promotion_options(string_views(legal_moves@), from@ + to@),
{
    let mut prefix = chars_of(from);
    let mut tail = chars_of(to);
    prefix.append(&mut tail);
    let ghost base = from@ + to@;
    assert(prefix@ == base);
    let mut out: Vec<char> = Vec::new();
    let mut i: usize = 0;
    while i < legal_moves.len()
        invariant
            i <= legal_moves@.len(),
            prefix@ == base,
            out@ == spec_promotion_options(string_views(legal_moves@).take(i as int), base),
        decreases legal_moves@.len() - i,
    {
        let m = &legal_moves[i];
        let cs = chars_of(m.as_str());
        let ok = matches_at(cs.as_slice(), 0, prefix.as_slice()) && byte_len(m) == 5 && cs.len()
            > 4;
        proof {
            assert(cs@.skip(0) == cs@);
            assert(string_views(legal_moves@).take(i + 1).drop_last() == string_views(
                legal_moves@,
            ).take(i as int));
            assert(string_views(legal_moves@).take(i + 1).last() == m@);
        }
        if ok {
            out.push(cs[4]);
        }
        i = i + 1;
    }
    assert(string_views(legal_moves@).take(legal_moves@.len() as int) == string_views(
        legal_moves@,
    ));
    out
}

/// Legal moves that start with `base` and have at least four bytes.
pub open spec fn moves_from(legal: Seq<Seq<char>>, base: Seq<char>) -> Seq<Seq<char>>
    decreases legal.len(),
{
    if legal.len() == 0 {
        Seq::empty()
    } else {
        let rest = moves_from(legal.drop_last(), base);
        if starts_with(legal.last(), base) && utf8_len(legal.last()) >= 4 {
            rest.push(legal.last())
        } else {
            rest
        }
    }
}

/// The first entry of `ms` that is exactly four bytes long.
pub open spec fn first_plain(ms: Seq<Seq<char>>) -> Option<Seq<char>>
    decreases ms.len(),
{
    if ms.len() == 0 {
        None
    } else if utf8_len(ms[0]) == 4 {
        Some(ms[0])
    } else {
        first_plain(ms.drop_first())
    }
}

/// The legal move chosen for a drag from `from` to `to`: with an explicit promotion,
/// exactly that move if legal; otherwise the only candidate, or the first
/// non-promoting candidate, or else the queen promotion if it is legal.
pub open spec fn spec_matching_uci(
    legal: Seq<Seq<char>>,
    from: Seq<char>,
    to: Seq<char>,
    promotion: Option<char>,
) -> Option<Seq<char>> {
    let base = from + to;
    match promotion {
        Some(p) => if legal.contains(base.push(p)) {
            Some(base.push(p))
        } else {
            None
        },
        None => {
            let ms = moves_from(legal, base);
            if ms.len() == 1 {
                Some(ms[0])
            } else if first_plain(ms) is Some {
                first_plain(ms)
            } else if legal.contains(base.push('q')) {
                Some(base.push('q'))
            } else {
                None
            }
        },
    }
}

proof fn lemma_moves_from_push(legal: Seq<Seq<char>>, base: Seq<char>, i: int)
    requires
        0 <= i < legal.len(),
    ensures
        legal.take(i + 1).drop_last() == legal.take(i),
        legal.take(i + 1).last() == legal[i],
{
}

proof fn lemma_first_plain_append(ms: Seq<Seq<char>>, m: Seq<char>)
    ensures
        first_plain(ms.push(m)) == (if first_plain(ms) is Some {
            first_plain(ms)
        } else if utf8_len(m) == 4 {
            Some(m)
        } else {
            None
        }),
    decreases ms.len(),
{
    if ms.len() > 0 {
        assert(ms.push(m).drop_first() == ms.drop_first().push(m));
        assert(ms.push(m)[0] == ms[0]);
        lemma_first_plain_append(ms.drop_first(), m);
    } else {
        assert(ms.push(m).drop_first() == Seq::<Seq<char>>::empty());
        assert(ms.push(m)[0] == m);
        assert(first_plain(Seq::<Seq<char>>::empty()) is None);
    }
}

/// Whether `full` is one of the legal moves.
fn legal_contains(legal_moves: &[String], full: &Vec<char>) -> (b: bool)
    ensures
        b == string_views(legal_moves@).contains(full@),
{
    let ghost legal = string_views(legal_moves@);
    let mut i: usize = 0;
    while i < legal_moves.len()
        invariant
            i <= legal_moves@.len(),
            legal == string_views(legal_moves@),
            forall|j: int| 0 <= j < i ==> legal[j] != full@,
        decreases legal_moves@.len() - i,
    {
        let cs = chars_of(legal_moves[i].as_str());
        if chars_equal(cs.as_slice(), full.as_slice()) {
            assert(legal[i as int] == full@);
            return true;
        }
        i = i + 1;
    }
    false
}

/// Finds the matching legal UCI move, defaulting promotion to queen.
pub fn matching_uci(legal_moves: &[String], from: &str, to: &str, promotion: Option<char>) -> (r:
    Option<String>)
    ensures
        r is Some <==> spec_matching_uci(string_views(legal_moves@), from@, to@, promotion) is Some,
        r matches Some(s) ==> spec_matching_uci(string_views(legal_moves@), from@, to@, promotion)
            == Some(s@),
{
    let ghost legal = string_views(legal_moves@);
    let mut base = chars_of(from);
    let mut tail = chars_of(to);
    base.append(&mut tail);
    assert(base@ == from@ + to@);
    if let Some(p) = promotion {
        let mut full = base.clone();
        full.push(p);
        if legal_contains(legal_moves, &full) {
            return Some(crate::text::string_from_chars(full.as_slice()));
        }
        return None;
    }
    // Candidates: indices of legal moves starting with the squares.
    let mut count: usize = 0;
    let mut first_idx: usize = 0;
    let mut plain_idx: Option<usize> = None;
    let mut i: usize = 0;
    while i < legal_moves.len()
        invariant
            i <= legal_moves@.len(),
            legal == string_views(legal_moves@),
            base@ == from@ + to@,
            count == moves_from(legal.take(i as int), base@).len(),
            count <= i,
            count > 0 ==> first_idx < legal_moves@.len() && moves_from(
                legal.take(i as int),
                base@,
            )[0] == legal[first_idx as int],
            plain_idx matches Some(k) ==> k < legal_moves@.len() && first_plain(
                moves_from(legal.take(i as int), base@),
            ) == Some(legal[k as int]),
            plain_idx is None ==> first_plain(moves_from(legal.take(i as int), base@)) is None,
        decreases legal_moves@.len() - i,
    {
        let m = &legal_moves[i];
        let cs = chars_of(m.as_str());
        let blen = byte_len(m);
        let hit = matches_at(cs.as_slice(), 0, base.as_slice()) && blen >= 4;
        proof {
            assert(cs@.skip(0) == cs@);
            lemma_moves_from_push(legal, base@, i as int);
            let prev = moves_from(legal.take(i as int), base@);
            if hit {
                lemma_first_plain_append(prev, m@);
                assert(prev.push(m@)[0] == (if prev.len() > 0 { prev[0] } else { m@ }));
            }
        }
        if hit {
            if count == 0 {
                first_idx = i;
            }
            if plain_idx.is_none() && blen == 4 {
                plain_idx = Some(i);
            }
            count = count + 1;
        }
        i = i + 1;
    }
    assert(legal.take(legal_moves@.len() as int) == legal);
    if count == 1 {
        return Some(legal_moves[first_idx].clone());
    }
    match plain_idx {
        Some(k) => Some(legal_moves[k].clone()),
        None => {
            let mut queen = base.clone();
            queen.push('q');
            if legal_contains(legal_moves, &queen) {
                Some(crate::text::string_from_chars(queen.as_slice()))
            } else {
                None
            }
        },
    }
}

proof fn lemma_moves_from_legal(legal: Seq<Seq<char>>, base: Seq<char>)
    ensures
        forall|k: int|
            0 <= k < moves_from(legal, base).len() ==> legal.contains(
                #[trigger] moves_from(legal, base)[k],
            ) && starts_with(moves_from(legal, base)[k], base),
    decreases legal.len(),
{
    if legal.len() > 0 {
        let rest = legal.drop_last();
        lemma_moves_from_legal(rest, base);
        assert forall|k: int|
            0 <= k < moves_from(legal, base).len() implies legal.contains(
                #[trigger] moves_from(legal, base)[k],
            ) && starts_with(moves_from(legal, base)[k], base) by {
            let ms = moves_from(legal, base);
            if k < moves_from(rest, base).len() {
                let m = moves_from(rest, base)[k];
                assert(ms[k] == m);
                let j = choose|j: int| 0 <= j < rest.len() && rest[j] == m;
                assert(legal[j] == m);
            } else {
                assert(ms[k] == legal.last());
                assert(legal[legal.len() - 1] == legal.last());
            }
        }
    }
}

proof fn lemma_first_plain_member(ms: Seq<Seq<char>>)
    ensures
        first_plain(ms) matches Some(m) ==> ms.contains(m),
    decreases ms.len(),
{
    if ms.len() > 0 && utf8_len(ms[0]) != 4 {
        lemma_first_plain_member(ms.drop_first());
        if let Some(m) = first_plain(ms.drop_first()) {
            let j = choose|j: int| 0 <= j < ms.drop_first().len() && ms.drop_first()[j] == m;
            assert(ms[j + 1] == m);
        }
    } else if ms.len() > 0 {
        assert(ms[0] == ms[0]);
    }
}

/// Law: the move chosen for a drag is always one of the legal moves, and it goes
/// from the dragged square to the target square.
pub proof fn lemma_matching_uci_is_legal(
    legal: Seq<Seq<char>>,
    from: Seq<char>,
    to: Seq<char>,
    promotion: Option<char>,
)
    ensures
        spec_matching_uci(legal, from, to, promotion) matches Some(m) ==> legal.contains(m)
            && starts_with(m, from + to),
{
    let base = from + to;
    match promotion {
        Some(p) => {
            assert(base.push(p).subrange(0, base.len() as int) =~= base);
        },
        None => {
            let ms = moves_from(legal, base);
            lemma_moves_from_legal(legal, base);
            lemma_first_plain_member(ms);
            assert(base.push('q').subrange(0, base.len() as int) =~= base);
            if ms.len() != 1 {
                if let Some(m) = first_plain(ms) {
                    let k = choose|k: int| 0 <= k < ms.len() && ms[k] == m;
                    assert(legal.contains(ms[k]));
                }
            } else {
                assert(legal.contains(ms[0]));
            }
        },
    }
}

} // verus!

verus! {

/// Law: a rook move accompanies exactly the castling king moves: the king leaves
/// e1 or e8 for the c or g square of its own rank. The rook starts in the corner on
/// the side the king moves to (a for c, h for g), on the king's rank, and lands on the
/// square the king passed over: on the king's rank, on the file halfway between the
/// king's origin and destination (d or f), so never on the king's destination.
pub proof fn lemma_castling_rook_geometry(king_from: Seq<char>, king_to: Seq<char>)
    ensures
        spec_castling_rook(king_from, king_to) is Some <==> (king_from.len() == 2 && king_to.len() == 2
            && king_from[0] == 'e' && (king_from[1] == '1' || king_from[1] == '8') && king_to[1]
            == king_from[1] && (king_to[0] == 'c' || king_to[0] == 'g')),
        spec_castling_rook(king_from, king_to) matches Some((rook_from, rook_to)) ==> {
            &&& rook_from.len() == 2 && rook_to.len() == 2
            &&& rook_from[1] == king_from[1] && rook_to[1] == king_from[1]
            &&& rook_from[0] == (if king_to[0] == 'c' { 'a' } else { 'h' })
            &&& 2 * (rook_to[0] as int) == king_from[0] as int + king_to[0] as int
            &&& (king_from[0] as int) < (rook_to[0] as int) < (king_to[0] as int) || (king_to[0] as int)
                < (rook_to[0] as int) < (king_from[0] as int)
            &&& rook_to != king_to
        },
{
    reveal_strlit("e1");
    reveal_strlit("e8");
    reveal_strlit("g1");
    reveal_strlit("c1");
    reveal_strlit("g8");
    reveal_strlit("c8");
    reveal_strlit("h1");
    reveal_strlit("f1");
    reveal_strlit("a1");
    reveal_strlit("d1");
    reveal_strlit("h8");
    reveal_strlit("f8");
    reveal_strlit("a8");
    reveal_strlit("d8");
    if king_from.len() == 2 && king_to.len() == 2 && king_from[0] == 'e' && (king_from[1] == '1'
        || king_from[1] == '8') && king_to[1] == king_from[1] && (king_to[0] == 'c' || king_to[0]
        == 'g') {
        if king_from[1] == '1' {
            assert(king_from =~= "e1"@);
            if king_to[0] == 'g' {
                assert(king_to =~= "g1"@);
            } else {
                assert(king_to =~= "c1"@);
            }
        } else {
            assert(king_from =~= "e8"@);
            if king_to[0] == 'g' {
                assert(king_to =~= "g8"@);
            } else {
                assert(king_to =~= "c8"@);
            }
        }
    }
}

} // verus!
