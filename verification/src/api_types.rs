//! Data exchanged between the studio server and its front end.

use vstd::prelude::*;

verus! {

/// Service health.
#[derive(Debug, Clone)]
pub struct HealthResponse {
    /// "ok" when the service answers.
    pub status: String,
    /// Whether the database answered.
    pub database_ok: bool,
}

/// A data source listed by the studio API.
#[derive(Debug, Clone)]
pub struct SourceListItem {
    /// Source id.
    pub id: i32,
    /// Source name.
    pub name: String,
    /// Optional description.
    pub description: Option<String>,
}

/// A source with its corpus totals.
#[derive(Debug, Clone)]
pub struct SourceSummary {
    pub id: i32,
    pub name: String,
    pub description: Option<String>,
    pub games: i64,
    pub positions: i64,
    pub plies: i64,
}

/// A source with totals and the size of its positions table.
#[derive(Debug, Clone)]
pub struct SourceDetail {
    pub id: i32,
    pub name: String,
    pub games: i64,
    pub positions: i64,
    pub plies: i64,
    pub positions_table_size: String,
}

/// One monthly fileset of a source and its load state.
#[derive(Debug, Clone)]
pub struct FilesetView {
    pub id: i64,
    pub source_id: i32,
    pub remote_url: String,
    pub filename: String,
    pub period_label: String,
    pub status: String,
    pub games_loaded: i64,
    pub games_errors: i64,
    pub positions_loaded: i64,
    pub error_message: Option<String>,
}

/// Request to sync a source's catalog for a year.
#[derive(Debug, Clone)]
pub struct SyncCatalogRequest {
    pub source: String,
    pub year: i32,
}

/// Request to load a year of filesets.
#[derive(Debug, Clone)]
pub struct LoadYearRequest {
    pub source: String,
    pub year: i32,
}

/// Answer to a catalog sync: number of entries synced.
#[derive(Debug, Clone)]
pub struct SyncResponse {
    pub synced: usize,
}

/// A game in a search listing.
#[derive(Debug, Clone)]
pub struct GameListItem {
    pub id: i64,
    pub white: Option<String>,
    pub black: Option<String>,
    pub result: String,
    pub game_date: Option<String>,
    pub ply_count: i32,
}

/// One page of game search results.
#[derive(Debug, Clone)]
pub struct GamesPage {
    pub games: Vec<GameListItem>,
    pub total: i64,
    pub offset: i64,
    pub limit: i64,
    pub has_more: bool,
}

/// A game that reached a position.
#[derive(Debug, Clone)]
pub struct PositionHit {
    pub game_id: i64,
    pub white: Option<String>,
    pub black: Option<String>,
    pub ply: i32,
    pub fen: String,
}

/// One page of games reaching a position.
#[derive(Debug, Clone)]
pub struct PositionGamesPage {
    pub hits: Vec<PositionHit>,
    pub total: i64,
    pub offset: i64,
    pub limit: i64,
    pub has_more: bool,
}

/// One half-move of a game.
#[derive(Debug, Clone)]
pub struct PlyView {
    pub ply: i32,
    pub san: String,
    pub uci: String,
}

/// A game with its moves.
#[derive(Debug, Clone)]
pub struct GameDetail {
    pub id: i64,
    pub source_id: i32,
    pub white: Option<String>,
    pub black: Option<String>,
    pub result: String,
    pub event: Option<String>,
    pub plies: Vec<PlyView>,
    pub start_fen: String,
}

/// Request for the hash of a FEN position.
#[derive(Debug, Clone)]
pub struct HashFromFenRequest {
    pub fen: String,
}

/// The hash of a position.
#[derive(Debug, Clone)]
pub struct HashFromFenResponse {
    pub hash: i64,
}

/// Results of one move from a position in the opening explorer.
#[derive(Debug, Clone)]
pub struct OpeningMoveStat {
    pub move_uci: String,
    pub count: i64,
    pub white_wins: i64,
    pub black_wins: i64,
    pub draws: i64,
}

/// A started background job.
#[derive(Debug, Clone)]
pub struct JobStarted {
    pub job_id: u64,
}

/// Panels of the studio front end.
#[derive(Clone, Copy, PartialEq, Eq)]
pub enum Page {
    Dashboard,
    Games,
    Explorer,
    Benchmarks,
}

/// Games per page in the games panel.
pub const GAMES_PAGE_SIZE: i64 = 40;

/// Positions per page in the explorer.
pub const EXPLORER_PAGE_SIZE: i64 = 25;

} // verus!
