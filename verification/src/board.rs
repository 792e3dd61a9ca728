//! Interaction rules of the chess board widget: which pieces may be picked up,
//! where a picked piece may go, what a click does, and how a promotion is chosen.

use vstd::prelude::*;

use vstd::string::StringSliceAdditionalSpecFns;
use vstd::utf8::{decode_utf8, encode_utf8, is_char_boundary};

use crate::text::{chars_of, matches_at, push_str_chars, starts_with, str_equal, string_from_chars, string_views};
use crate::uci::parse_uci;

verus! {

/// Whether the side to move ("white" or "black") may pick up this FEN piece.
pub open spec fn spec_may_pick(side: Seq<char>, piece: char) -> bool {
    let white = 'A' <= piece && piece <= 'Z';
    (side == "white"@ && white) || (side == "black"@ && !white)
}

/// Whether the side to move ("white" or "black") may pick up this FEN piece.
pub fn may_pick(side: &str, piece: char) -> (b: bool)
    ensures
        b == spec_may_pick(side@, piece),
{
    let white = crate::fen::is_white_piece(piece);
    (str_equal(side, "white") && white) || (str_equal(side, "black") && !white)
}

/// The destination of a UCI move: its bytes 2 to 4.
pub open spec fn target_of(m: Seq<char>) -> Seq<char> {
    decode_utf8(encode_utf8(m).subrange(2, 4))
}

/// The destinations of the legal moves that start with `from`, in order.
pub open spec fn spec_legal_targets(legal: Seq<Seq<char>>, from: Seq<char>) -> Seq<Seq<char>>
    decreases legal.len(),
{
    if legal.len() == 0 {
        Seq::empty()
    } else {
        let rest = spec_legal_targets(legal.drop_last(), from);
        let m = legal.last();
        if starts_with(m, from) {
            rest.push(target_of(m))
        } else {
            rest
        }
    }
}

/// Every legal move that starts with `from` can be cut at bytes 2 and 4, as the
/// destination is read (the moves are UCI text, such as "e2e4").
pub open spec fn targets_sliceable(legal: Seq<Seq<char>>, from: Seq<char>) -> bool {
    forall|k: int|
        0 <= k < legal.len() && starts_with(#[trigger] legal[k], from) ==> encode_utf8(legal[k]).len()
            >= 4 && is_char_boundary(encode_utf8(legal[k]), 2) && is_char_boundary(
            encode_utf8(legal[k]),
            4,
        )
}

/// The squares the piece on `from` may move to, from the position's legal UCI moves.
pub fn legal_targets(legal_moves: &[String], from: &str) -> (r: Vec<String>)
    requires
        targets_sliceable(string_views(legal_moves@), from@),
    ensures
        string_views(r@) == spec_legal_targets(string_views(legal_moves@), from@),
{
    let ghost legal = string_views(legal_moves@);
    let f = chars_of(from);
    let mut out: Vec<String> = Vec::new();
    let mut i: usize = 0;
    while i < legal_moves.len()
        invariant
            i <= legal_moves@.len(),
            legal == string_views(legal_moves@),
            targets_sliceable(legal, from@),
            f@ == from@,
            string_views(out@) == spec_legal_targets(legal.take(i as int), from@),
        decreases legal_moves@.len() - i,
    {
        proof {
            assert(legal.take(i + 1).drop_last() == legal.take(i as int));
            assert(legal.take(i + 1).last() == legal[i as int]);
        }
        let m = chars_of(legal_moves[i].as_str());
        assert(m@.skip(0) == m@);
        if matches_at(m.as_slice(), 0, f.as_slice()) {
            proof {
                assert(legal[i as int] == legal_moves@[i as int]@);
                assert(starts_with(legal[i as int], from@));
            }
            let text = legal_moves[i].as_str();
            let ghost before = string_views(out@);
            match parse_uci(text) {
                Some(mv) => {
                    out.push(mv.to);
                    assert(string_views(out@) =~= before.push(target_of(legal[i as int])));
                },
                None => {},
            }
        } else {
            assert(string_views(out@) =~= spec_legal_targets(legal.take(i + 1), from@));
        }
        i = i + 1;
    }
    assert(legal.take(legal_moves@.len() as int) == legal);
    out
}

/// How a move's promotion piece is settled.
#[derive(Debug)]
pub enum PromotionStep {
    /// Several promotions are possible and none was chosen: ask with these pieces.
    Ask(Vec<char>),
    /// Move with this promotion (or none).
    Use(Option<char>),
}

/// Settles the promotion of a move from the promotion pieces its squares allow and
/// the one chosen, if any: several and none chosen asks; exactly one and none
/// chosen takes it; otherwise the choice stands.
pub fn promotion_step(options: Vec<char>, chosen: Option<char>) -> (r: PromotionStep)
    ensures
        options@.len() > 1 && chosen is None ==> (r matches PromotionStep::Ask(v) && v@ == options@),
        options@.len() == 1 && chosen is None ==> r == PromotionStep::Use(Some(options@[0])),
        !(options@.len() >= 1 && chosen is None) ==> r == PromotionStep::Use(chosen),
{
    if options.len() > 1 && chosen.is_none() {
        PromotionStep::Ask(options)
    } else if options.len() == 1 && chosen.is_none() {
        PromotionStep::Use(Some(options[0]))
    } else {
        PromotionStep::Use(chosen)
    }
}

/// What a click on a square does.
#[derive(Debug)]
pub enum ClickAction {
    /// Nothing: the board is not interactive, or a promotion choice is open.
    Ignore,
    /// The click ends a drag; only the drag flag is cleared.
    EndDrag,
    /// The selected square was clicked again: deselect.
    Deselect,
    /// Move from the selected square to the clicked one.
    TryMove(String, String),
    /// Select the clicked square (if it holds a piece of the side to move).
    Select(String),
}

/// Decides what a click on `square` does.
pub fn click_action(
    interactive: bool,
    after_drag: bool,
    promotion_open: bool,
    selected: Option<String>,
    square: String,
) -> (a: ClickAction)
    ensures
        !interactive ==> a is Ignore,
        interactive && after_drag ==> a is EndDrag,
        interactive && !after_drag && promotion_open ==> a is Ignore,
        interactive && !after_drag && !promotion_open ==> match selected {
            Some(s) => if s@ == square@ {
                a is Deselect
            } else {
                (a matches ClickAction::TryMove(f, t) && f == s && t == square)
            },
            None => (a matches ClickAction::Select(q) && q == square),
        },
{
    if !interactive {
        return ClickAction::Ignore;
    }
    if after_drag {
        return ClickAction::EndDrag;
    }
    if promotion_open {
        return ClickAction::Ignore;
    }
    match selected {
        Some(s) => {
            if str_equal(s.as_str(), square.as_str()) {
                ClickAction::Deselect
            } else {
                ClickAction::TryMove(s, square)
            }
        },
        None => ClickAction::Select(square),
    }
}

/// The UCI text of a move animation: origin then destination.
pub fn animation_uci(from: &str, to: &str) -> (r: String)
    ensures
        r@ == from@ + to@,
{
    let mut out: Vec<char> = Vec::new();
    push_str_chars(&mut out, from);
    push_str_chars(&mut out, to);
    string_from_chars(out.as_slice())
}

/// The ASCII small letter of a capital; any other character unchanged.
pub open spec fn spec_ascii_lower(c: char) -> char {
    if 'A' <= c && c <= 'Z' {
        ((c as int) + 32) as char
    } else {
        c
    }
}

/// The ASCII small letter of a capital; any other character unchanged.
pub fn ascii_lower(c: char) -> (r: char)
    ensures
        r == spec_ascii_lower(c),
{
    match c {
        'A' => 'a',
        'B' => 'b',
        'C' => 'c',
        'D' => 'd',
        'E' => 'e',
        'F' => 'f',
        'G' => 'g',
        'H' => 'h',
        'I' => 'i',
        'J' => 'j',
        'K' => 'k',
        'L' => 'l',
        'M' => 'm',
        'N' => 'n',
        'O' => 'o',
        'P' => 'p',
        'Q' => 'q',
        'R' => 'r',
        'S' => 's',
        'T' => 't',
        'U' => 'u',
        'V' => 'v',
        'W' => 'w',
        'X' => 'x',
        'Y' => 'y',
        'Z' => 'z',
        _ => c,
    }
}

/// Outline a piece is drawn with.
#[derive(Debug, Clone, Copy, PartialEq, Eq, Structural)]
pub enum PieceShape {
    King,
    Queen,
    Rook,
    Bishop,
    Knight,
    Pawn,
}

/// Outline drawn for a lower-case piece letter; anything unknown is drawn as a pawn.
pub open spec fn spec_piece_shape(kind: char) -> PieceShape {
    if kind == 'k' {
        PieceShape::King
    } else if kind == 'q' {
        PieceShape::Queen
    } else if kind == 'r' {
        PieceShape::Rook
    } else if kind == 'b' {
        PieceShape::Bishop
    } else if kind == 'n' {
        PieceShape::Knight
    } else {
        PieceShape::Pawn
    }
}

/// How a FEN piece letter is painted: its side, outline, gradient and colours.
pub struct PieceStyle {
    /// Whether the piece is white (an upper-case letter).
    pub white: bool,
    /// The outline drawn.
    pub shape: PieceShape,
    /// Id of the piece's gradient: "w-" or "b-" and the lower-case letter.
    pub gradient_id: String,
    /// Fill that refers to the gradient.
    pub fill: String,
    /// Outline colour.
    pub stroke: String,
    /// Gradient colour at the top-left corner.
    pub gradient_start: String,
    /// Gradient colour at the bottom-right corner.
    pub gradient_end: String,
    /// Colour of the bishop's mark.
    pub accent: String,
}

/// Gradient id of a piece: its side's letter, a hyphen and the lower-case piece letter.
pub open spec fn spec_gradient_id(piece: char) -> Seq<char> {
    let white = 'A' <= piece && piece <= 'Z';
    (if white { "w"@ } else { "b"@ }) + seq!['-', spec_ascii_lower(piece)]
}

/// How a FEN piece letter is painted.
pub fn piece_style(piece: char) -> (s: PieceStyle)
    ensures
        s.white == ('A' <= piece && piece <= 'Z'),
        s.shape == spec_piece_shape(spec_ascii_lower(piece)),
        s.gradient_id@ == spec_gradient_id(piece),
        s.fill@ == "url(#"@ + spec_gradient_id(piece) + ")"@,
        s.stroke@ == (if s.white { "#8899aa"@ } else { "#0a0c10"@ }),
        s.gradient_start@ == (if s.white { "#e8ecf4"@ } else { "#4a5568"@ }),
        s.gradient_end@ == (if s.white { "#b8c4d8"@ } else { "#1a1f2e"@ }),
        s.accent@ == (if s.white { "#7c5cff"@ } else { "#22d3ee"@ }),
{
    let white = 'A' <= piece && piece <= 'Z';
    let kind = ascii_lower(piece);
    let mut id: Vec<char> = Vec::new();
    push_str_chars(&mut id, if white { "w" } else { "b" });
    id.push('-');
    id.push(kind);
    let mut fill: Vec<char> = Vec::new();
    push_str_chars(&mut fill, "url(#");
    let mut i: usize = 0;
    while i < id.len()
        invariant
            i <= id@.len(),
            fill@ == "url(#"@ + id@.take(i as int),
        decreases id@.len() - i,
    {
        fill.push(id[i]);
        assert(id@.take(i + 1) == id@.take(i as int).push(id@[i as int]));
        i = i + 1;
    }
    assert(id@.take(id@.len() as int) == id@);
    push_str_chars(&mut fill, ")");
    let shape = if kind == 'k' {
        PieceShape::King
    } else if kind == 'q' {
        PieceShape::Queen
    } else if kind == 'r' {
        PieceShape::Rook
    } else if kind == 'b' {
        PieceShape::Bishop
    } else if kind == 'n' {
        PieceShape::Knight
    } else {
        PieceShape::Pawn
    };
    PieceStyle {
        white,
        shape,
        gradient_id: string_from_chars(id.as_slice()),
        fill: string_from_chars(fill.as_slice()),
        stroke: crate::text::owned(if white { "#8899aa" } else { "#0a0c10" }),
        gradient_start: crate::text::owned(if white { "#e8ecf4" } else { "#4a5568" }),
        gradient_end: crate::text::owned(if white { "#b8c4d8" } else { "#1a1f2e" }),
        accent: crate::text::owned(if white { "#7c5cff" } else { "#22d3ee" }),
    }
}

} // verus!
