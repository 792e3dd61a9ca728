//! Staging rows built from parsed games and from game analyses.

use vstd::prelude::*;

use crate::copy_rows::{StagingGameRow, StagingPlyAnalysisRow};
use crate::text::copy_range;

verus! {

/// Header values of a parsed game.
#[derive(Debug, Clone)]
pub struct GameHeaders {
    pub white: Option<String>,
    pub black: Option<String>,
    pub white_elo: Option<i32>,
    pub black_elo: Option<i32>,
    pub event: Option<String>,
    pub site: Option<String>,
    pub round: Option<String>,
    /// The game date as `YYYY-MM-DD` text.
    pub date: Option<String>,
    pub result: String,
    pub eco: Option<String>,
}

/// A position reached in a parsed game.
#[derive(Debug, Clone)]
pub struct PositionRow {
    pub ply: i64,
    pub fen: String,
    pub hash: u64,
}

/// A move played in a parsed game.
#[derive(Debug, Clone)]
pub struct PlyRow {
    pub ply: i64,
    pub uci: String,
    pub san: String,
}

/// A parsed game's mainline: headers, positions and plies.
#[derive(Debug, Clone)]
pub struct ExplodedGame {
    pub headers: GameHeaders,
    pub positions: Vec<PositionRow>,
    pub plies: Vec<PlyRow>,
}

/// Where a game's text came from: the archive's digest and the game's offset.
#[derive(Debug, Clone)]
pub struct GameProvenance {
    pub pgn_sha256: Option<Vec<u8>>,
    pub pgn_byte_offset: Option<i64>,
}

/// A game of a batch: its batch sequence number, the parsed game, its PGN text if
/// stored, and its provenance.
pub struct StagedInput {
    pub batch_seq: i32,
    pub game: ExplodedGame,
    pub pgn_text: Option<String>,
    pub provenance: GameProvenance,
}

/// Optional owned string as optional sequence.
pub open spec fn opt_str(v: Option<String>) -> Option<Seq<char>> {
    match v {
        Some(s) => Some(s@),
        None => None,
    }
}

/// Optional bytes as optional sequence.
pub open spec fn opt_bytes(v: Option<Vec<u8>>) -> Option<Seq<u8>> {
    match v {
        Some(b) => Some(b@),
        None => None,
    }
}

/// The staging row of a game: the header values, the stored text and provenance,
/// and the number of plies as an `i32`.
pub open spec fn is_game_row(
    r: StagingGameRow,
    batch_seq: i32,
    g: ExplodedGame,
    pgn_text: Option<String>,
    p: GameProvenance,
) -> bool {
    &&& r.batch_seq == batch_seq
    &&& opt_str(r.pgn_text) == opt_str(pgn_text)
    &&& opt_bytes(r.pgn_sha256) == opt_bytes(p.pgn_sha256)
    &&& r.pgn_byte_offset == p.pgn_byte_offset
    &&& opt_str(r.white) == opt_str(g.headers.white)
    &&& opt_str(r.black) == opt_str(g.headers.black)
    &&& r.white_elo == g.headers.white_elo
    &&& r.black_elo == g.headers.black_elo
    &&& opt_str(r.event) == opt_str(g.headers.event)
    &&& opt_str(r.site) == opt_str(g.headers.site)
    &&& opt_str(r.round) == opt_str(g.headers.round)
    &&& opt_str(r.game_date) == opt_str(g.headers.date)
    &&& r.result@ == g.headers.result@
    &&& opt_str(r.eco) == opt_str(g.headers.eco)
    &&& r.ply_count == g.plies@.len() as i32
}

fn clone_opt_string(v: &Option<String>) -> (r: Option<String>)
    ensures
        opt_str(r) == opt_str(*v),
{
    match v {
        Some(s) => Some(s.clone()),
        None => None,
    }
}

fn clone_opt_bytes(v: &Option<Vec<u8>>) -> (r: Option<Vec<u8>>)
    ensures
        opt_bytes(r) == opt_bytes(*v),
{
    match v {
        Some(b) => Some(copy_range(b.as_slice(), 0, b.len())),
        None => None,
    }
}

/// Builds a game's staging row from its parsed form.
pub fn game_row_from_exploded(
    batch_seq: i32,
    g: &ExplodedGame,
    pgn_text: Option<String>,
    pgn_sha256: Option<Vec<u8>>,
    pgn_byte_offset: Option<i64>,
) -> (r: StagingGameRow)
    ensures
        is_game_row(r, batch_seq, *g, pgn_text, GameProvenance { pgn_sha256, pgn_byte_offset }),
{
    let h = &g.headers;
    StagingGameRow {
        batch_seq,
        pgn_text,
        pgn_sha256,
        pgn_byte_offset,
        white: clone_opt_string(&h.white),
        black: clone_opt_string(&h.black),
        white_elo: h.white_elo,
        black_elo: h.black_elo,
        event: clone_opt_string(&h.event),
        site: clone_opt_string(&h.site),
        round: clone_opt_string(&h.round),
        game_date: clone_opt_string(&h.date),
        result: h.result.clone(),
        eco: clone_opt_string(&h.eco),
        ply_count: #[verifier::truncate] (g.plies.len() as i32),
    }
}

/// A position row as plain values.
pub open spec fn pos_view(p: PositionRow) -> (i64, Seq<char>, u64) {
    (p.ply, p.fen@, p.hash)
}

/// A ply row as plain values.
pub open spec fn ply_view(p: PlyRow) -> (i64, Seq<char>, Seq<char>) {
    (p.ply, p.uci@, p.san@)
}

/// The positions of a batch, each with its game's batch sequence number, game by
/// game in order.
pub open spec fn batch_positions(batch: Seq<StagedInput>) -> Seq<(i32, (i64, Seq<char>, u64))>
    decreases batch.len(),
{
    if batch.len() == 0 {
        Seq::empty()
    } else {
        let last = batch.last();
        batch_positions(batch.drop_last()) + Seq::new(
            last.game.positions@.len(),
            |k: int| (last.batch_seq, pos_view(last.game.positions@[k])),
        )
    }
}

/// The plies of a batch, each with its game's batch sequence number, game by game
/// in order.
pub open spec fn batch_plies(batch: Seq<StagedInput>) -> Seq<(i32, (i64, Seq<char>, Seq<char>))>
    decreases batch.len(),
{
    if batch.len() == 0 {
        Seq::empty()
    } else {
        let last = batch.last();
        batch_plies(batch.drop_last()) + Seq::new(
            last.game.plies@.len(),
            |k: int| (last.batch_seq, ply_view(last.game.plies@[k])),
        )
    }
}

/// Tagged position rows as plain values.
pub open spec fn tagged_positions(v: Seq<(i32, PositionRow)>) -> Seq<(i32, (i64, Seq<char>, u64))> {
    Seq::new(v.len(), |i: int| (v[i].0, pos_view(v[i].1)))
}

/// Tagged ply rows as plain values.
pub open spec fn tagged_plies(v: Seq<(i32, PlyRow)>) -> Seq<(i32, (i64, Seq<char>, Seq<char>))> {
    Seq::new(v.len(), |i: int| (v[i].0, ply_view(v[i].1)))
}

fn clone_position(p: &PositionRow) -> (r: PositionRow)
    ensures
        pos_view(r) == pos_view(*p),
{
    PositionRow { ply: p.ply, fen: p.fen.clone(), hash: p.hash }
}

fn clone_ply(p: &PlyRow) -> (r: PlyRow)
    ensures
        ply_view(r) == ply_view(*p),
{
    PlyRow { ply: p.ply, uci: p.uci.clone(), san: p.san.clone() }
}

/// Builds the staging rows of a batch: one game row per game, and every position
/// and ply tagged with its game's batch sequence number, in order.
pub fn build_staging_rows(batch: &[StagedInput]) -> (r: (Vec<StagingGameRow>, Vec<(i32, PositionRow)>, Vec<(i32, PlyRow)>))
    ensures
        r.0@.len() == batch@.len(),
        forall|i: int|
            0 <= i < batch@.len() ==> is_game_row(
                #[trigger] r.0@[i],
                batch@[i].batch_seq,
                batch@[i].game,
                batch@[i].pgn_text,
                batch@[i].provenance,
            ),
        tagged_positions(r.1@) == batch_positions(batch@),
        tagged_plies(r.2@) == batch_plies(batch@),
{
    let mut games: Vec<StagingGameRow> = Vec::new();
    let mut positions: Vec<(i32, PositionRow)> = Vec::new();
    let mut plies: Vec<(i32, PlyRow)> = Vec::new();
    let mut i: usize = 0;
    while i < batch.len()
        invariant
            i <= batch@.len(),
            games@.len() == i,
            forall|j: int|
                0 <= j < i ==> is_game_row(
                    #[trigger] games@[j],
                    batch@[j].batch_seq,
                    batch@[j].game,
                    batch@[j].pgn_text,
                    batch@[j].provenance,
                ),
            tagged_positions(positions@) == batch_positions(batch@.take(i as int)),
            tagged_plies(plies@) == batch_plies(batch@.take(i as int)),
        decreases batch@.len() - i,
    {
        let item = &batch[i];
        let row = game_row_from_exploded(
            item.batch_seq,
            &item.game,
            clone_opt_string(&item.pgn_text),
            clone_opt_bytes(&item.provenance.pgn_sha256),
            item.provenance.pgn_byte_offset,
        );
        games.push(row);
        proof {
            assert(batch@.take(i + 1).drop_last() == batch@.take(i as int));
            assert(batch@.take(i + 1).last() == batch@[i as int]);
        }
        let ghost p0 = tagged_positions(positions@);
        let mut k: usize = 0;
        while k < item.game.positions.len()
            invariant
                k <= item.game.positions@.len(),
                tagged_positions(positions@) == p0 + Seq::new(
                    k as nat,
                    |q: int| (item.batch_seq, pos_view(item.game.positions@[q])),
                ),
            decreases item.game.positions@.len() - k,
        {
            let ghost t0 = tagged_positions(positions@);
            let ghost x = (item.batch_seq, pos_view(item.game.positions@[k as int]));
            positions.push((item.batch_seq, clone_position(&item.game.positions[k])));
            assert(tagged_positions(positions@) =~= t0.push(x));
            k = k + 1;
            assert(tagged_positions(positions@) =~= p0 + Seq::new(
                k as nat,
                |q: int| (item.batch_seq, pos_view(item.game.positions@[q])),
            ));
        }
        let ghost l0 = tagged_plies(plies@);
        let mut k: usize = 0;
        while k < item.game.plies.len()
            invariant
                k <= item.game.plies@.len(),
                tagged_plies(plies@) == l0 + Seq::new(
                    k as nat,
                    |q: int| (item.batch_seq, ply_view(item.game.plies@[q])),
                ),
            decreases item.game.plies@.len() - k,
        {
            let ghost t0 = tagged_plies(plies@);
            let ghost x = (item.batch_seq, ply_view(item.game.plies@[k as int]));
            plies.push((item.batch_seq, clone_ply(&item.game.plies[k])));
            assert(tagged_plies(plies@) =~= t0.push(x));
            k = k + 1;
            assert(tagged_plies(plies@) =~= l0 + Seq::new(
                k as nat,
                |q: int| (item.batch_seq, ply_view(item.game.plies@[q])),
            ));
        }
        i = i + 1;
    }
    assert(batch@.take(batch@.len() as int) == batch@);
    (games, positions, plies)
}

/// One analyzed ply: evaluations, best move, loss, class, depth and source label.
#[derive(Debug, Clone)]
pub struct PlyAnalysis {
    pub ply: u32,
    pub eval_before: i32,
    pub eval_after: i32,
    pub best_move: String,
    pub cp_loss: i32,
    pub move_class: String,
    pub depth: u32,
    pub source: String,
}

/// The ply-analysis staging row of one analyzed ply of a game: numbers cast to the
/// table's widths with `as`.
pub open spec fn is_analysis_row(r: StagingPlyAnalysisRow, game_id: i64, p: PlyAnalysis) -> bool {
    &&& r.game_id == game_id
    &&& r.ply == p.ply as i32
    &&& r.eval_before == Some(p.eval_before as i16)
    &&& r.eval_after == Some(p.eval_after as i16)
    &&& r.best_move@ == p.best_move@
    &&& r.cp_loss == Some(p.cp_loss as i16)
    &&& r.move_class@ == p.move_class@
    &&& r.eval_depth == Some(p.depth as i16)
    &&& r.eval_source@ == p.source@
}

/// The analyzed plies of a set of games, each with its game id, game by game in order.
pub open spec fn analyzed_plies(games: Seq<(i64, Vec<PlyAnalysis>)>) -> Seq<(i64, PlyAnalysis)>
    decreases games.len(),
{
    if games.len() == 0 {
        Seq::empty()
    } else {
        let last = games.last();
        analyzed_plies(games.drop_last()) + Seq::new(last.1@.len(), |k: int| (last.0, last.1@[k]))
    }
}

/// Builds the ply-analysis staging rows of analyzed games: one row per ply, game by
/// game in order.
pub fn build_analysis_rows(games: &[(i64, Vec<PlyAnalysis>)]) -> (r: Vec<StagingPlyAnalysisRow>)
    ensures
        r@.len() == analyzed_plies(games@).len(),
        forall|i: int|
            0 <= i < r@.len() ==> is_analysis_row(
                #[trigger] r@[i],
                analyzed_plies(games@)[i].0,
                analyzed_plies(games@)[i].1,
            ),
{
    let mut rows: Vec<StagingPlyAnalysisRow> = Vec::new();
    let mut i: usize = 0;
    while i < games.len()
        invariant
            i <= games@.len(),
            rows@.len() == analyzed_plies(games@.take(i as int)).len(),
            forall|j: int|
                0 <= j < rows@.len() ==> is_analysis_row(
                    #[trigger] rows@[j],
                    analyzed_plies(games@.take(i as int))[j].0,
                    analyzed_plies(games@.take(i as int))[j].1,
                ),
        decreases games@.len() - i,
    {
        let game_id = games[i].0;
        let plies = &games[i].1;
        let ghost before = analyzed_plies(games@.take(i as int));
        let ghost r0 = rows@;
        proof {
            assert(games@.take(i + 1).drop_last() == games@.take(i as int));
            assert(games@.take(i + 1).last() == games@[i as int]);
        }
        let ghost after = analyzed_plies(games@.take(i + 1));
        assert(after == before + Seq::new(plies@.len(), |k: int| (game_id, plies@[k])));
        let mut k: usize = 0;
        while k < plies.len()
            invariant
                k <= plies@.len(),
                plies@ == games@[i as int].1@,
                game_id == games@[i as int].0,
                after == before + Seq::new(plies@.len(), |q: int| (game_id, plies@[q])),
                r0.len() == before.len(),
                rows@.len() == before.len() + k,
                forall|j: int| 0 <= j < r0.len() ==> rows@[j] == r0[j],
                forall|j: int|
                    0 <= j < r0.len() ==> is_analysis_row(#[trigger] r0[j], before[j].0, before[j].1),
                forall|j: int|
                    0 <= j < k ==> is_analysis_row(
                        #[trigger] rows@[before.len() + j],
                        game_id,
                        plies@[j],
                    ),
            decreases plies@.len() - k,
        {
            let p = &plies[k];
            rows.push(
                StagingPlyAnalysisRow {
                    game_id,
                    ply: #[verifier::truncate] (p.ply as i32),
                    eval_before: Some(#[verifier::truncate] (p.eval_before as i16)),
                    eval_after: Some(#[verifier::truncate] (p.eval_after as i16)),
                    best_move: p.best_move.clone(),
                    cp_loss: Some(#[verifier::truncate] (p.cp_loss as i16)),
                    move_class: p.move_class.clone(),
                    eval_depth: Some(#[verifier::truncate] (p.depth as i16)),
                    eval_source: p.source.clone(),
                },
            );
            k = k + 1;
        }
        proof {
            assert forall|j: int| 0 <= j < rows@.len() implies is_analysis_row(
                #[trigger] rows@[j],
                after[j].0,
                after[j].1,
            ) by {
                if j < r0.len() {
                    assert(after[j] == before[j]);
                    assert(rows@[j] == r0[j]);
                } else {
                    let q = j - before.len();
                    assert(after[j] == (game_id, plies@[q]));
                    assert(rows@[before.len() + q] == rows@[j]);
                }
            }
        }
        i = i + 1;
    }
    assert(games@.take(games@.len() as int) == games@);
    rows
}

} // verus!
