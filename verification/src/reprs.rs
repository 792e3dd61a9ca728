//! Text forms of the chess objects exposed to Python.

use vstd::prelude::*;

use crate::decimal::{decimal_digits, push_decimal};
use crate::text::{push_str_chars, string_from_chars};

verus! {

/// `Position('FEN')`.
pub fn position_repr(fen: &str) -> (r: String)
    ensures
        r@ == "Position('"@ + fen@ + "')"@,
{
    let mut out: Vec<char> = Vec::new();
    push_str_chars(&mut out, "Position('");
    push_str_chars(&mut out, fen);
    push_str_chars(&mut out, "')");
    string_from_chars(out.as_slice())
}

/// `Move('UCI')`.
pub fn move_repr(uci: &str) -> (r: String)
    ensures
        r@ == "Move('"@ + uci@ + "')"@,
{
    let mut out: Vec<char> = Vec::new();
    push_str_chars(&mut out, "Move('");
    push_str_chars(&mut out, uci);
    push_str_chars(&mut out, "')");
    string_from_chars(out.as_slice())
}

/// `Game(fen='FEN', moves=N)`.
pub fn game_repr(fen: &str, moves: usize) -> (r: String)
    ensures
        r@ == "Game(fen='"@ + fen@ + "', moves="@ + decimal_digits(moves as nat) + ")"@,
{
    let mut out: Vec<char> = Vec::new();
    push_str_chars(&mut out, "Game(fen='");
    push_str_chars(&mut out, fen);
    push_str_chars(&mut out, "', moves=");
    push_decimal(&mut out, moves as u64);
    push_str_chars(&mut out, ")");
    string_from_chars(out.as_slice())
}

/// `PgnGame(headers=H, moves=N)`.
pub fn pgn_game_repr(headers: usize, moves: usize) -> (r: String)
    ensures
        r@ == "PgnGame(headers="@ + decimal_digits(headers as nat) + ", moves="@ + decimal_digits(
            moves as nat,
        ) + ")"@,
{
    let mut out: Vec<char> = Vec::new();
    push_str_chars(&mut out, "PgnGame(headers=");
    push_decimal(&mut out, headers as u64);
    push_str_chars(&mut out, ", moves=");
    push_decimal(&mut out, moves as u64);
    push_str_chars(&mut out, ")");
    string_from_chars(out.as_slice())
}

/// The error of a FEN that does not parse: `invalid FEN 'FEN': REASON`.
pub fn invalid_fen_message(fen: &str, reason: &str) -> (r: String)
    ensures
        r@ == "invalid FEN '"@ + fen@ + "': "@ + reason@,
{
    let mut out: Vec<char> = Vec::new();
    push_str_chars(&mut out, "invalid FEN '");
    push_str_chars(&mut out, fen);
    push_str_chars(&mut out, "': ");
    push_str_chars(&mut out, reason);
    string_from_chars(out.as_slice())
}

} // verus!
