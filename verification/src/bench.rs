//! The query benchmark suite of the studio server: which queries it times and
//! when one is skipped.

use vstd::prelude::*;

use crate::text::{owned, push_str_chars, str_equal, string_from_chars};

verus! {

/// One timed query of the benchmark suite.
#[derive(Debug)]
pub struct BenchQuery {
    /// Stable id.
    pub id: String,
    /// Display title.
    pub title: String,
    /// What the query exercises.
    pub description: String,
    /// The SQL text.
    pub sql: String,
}

/// The ids of the benchmark queries, in suite order.
pub open spec fn bench_query_ids() -> Seq<Seq<char>> {
    seq![
        "corpus_size"@,
        "positions_scale"@,
        "player_search"@,
        "recent_games_page"@,
        "game_replay_plies"@,
        "position_transpositions"@,
        "opening_explorer"@,
        "source_aggregation"@,
        "result_filter"@,
        "date_range"@,
        "eco_distribution"@,
        "high_elo_filter"@,
        "head_to_head"@,
        "positions_by_ply"@,
    ]
}

/// The titles of the benchmark queries, in suite order.
pub open spec fn bench_query_titles() -> Seq<Seq<char>> {
    seq![
        "Corpus size"@,
        "Position index scale"@,
        "Player name search"@,
        "Recent games (paginated)"@,
        "Load game for replay"@,
        "Position transposition lookup"@,
        "Opening explorer"@,
        "Per-source breakdown"@,
        "Filter by result"@,
        "Date range filter"@,
        "ECO opening distribution"@,
        "High-rated games"@,
        "Head-to-head lookup"@,
        "Positions at a given ply"@,
    ]
}

/// What each benchmark query exercises, in suite order.
pub open spec fn bench_query_descriptions() -> Seq<Seq<char>> {
    seq![
        "Baseline count of loaded games \u{2014} every dashboard and report depends on this being fast."@,
        "Positions are the largest table; count time reflects index health at millions of rows."@,
        "Powers the Games browser \u{2014} UNION of indexed trigram lookups, no COUNT."@,
        "Simulates scrolling the game list \u{2014} ordered scan with OFFSET/LIMIT on the games index."@,
        "Fetching every ply for one game is on the critical path when opening the board viewer."@,
        "Core chess-database query: find all games that reached the same position via Zobrist hash."@,
        "Popular continuations from a position \u{2014} uses opening_moves MV when populated."@,
        "Dashboard aggregates games and positions per import batch \u{2014} reads cached source_rollups."@,
        "Endgame and opening studies often isolate decisive games \u{2014} tests selective scans on result."@,
        "Period analysis (e.g. all 2024 games) requires efficient use of the game_date index."@,
        "Opening classification summaries group by ECO code \u{2014} typical analytics aggregation query."@,
        "Training on strong players filters by Elo \u{2014} tests nullable rating columns at scale."@,
        "Pairing queries (Player A vs Player B) are common in match prep and historical research."@,
        "Opening-depth analysis asks 'what positions appear after move 20?' \u{2014} ply-filtered index scan."@,
    ]
}

/// The SQL text each benchmark query times, in suite order.
pub open spec fn bench_query_sqls() -> Seq<Seq<char>> {
    seq![
        "SELECT count(*) FROM gambit.games"@,
        "SELECT count(*) FROM gambit.positions"@,
        "SELECT id, white, black, result, game_date::text FROM (\n                      SELECT id, white, black, result, game_date\n                      FROM gambit.games WHERE white ILIKE '%car%'\n                      UNION\n                      SELECT id, white, black, result, game_date\n                      FROM gambit.games WHERE black ILIKE '%car%'\n                  ) u\n                  ORDER BY game_date DESC NULLS LAST, id DESC\n                  LIMIT 20"@,
        "SELECT id, white, black, result, game_date::text\n                  FROM gambit.games\n                  ORDER BY id DESC\n                  OFFSET 500 LIMIT 20"@,
        "SELECT ply, san, uci\n                  FROM gambit.plies\n                  WHERE game_id = (SELECT id FROM gambit.games ORDER BY ply_count DESC LIMIT 1)\n                  ORDER BY ply"@,
        "SELECT p.game_id, g.white, g.black, p.ply, p.fen\n                  FROM gambit.positions p\n                  JOIN gambit.games g ON g.id = p.game_id\n                  WHERE p.hash = (SELECT hash FROM gambit.positions LIMIT 1)\n                  LIMIT 50"@,
        "SELECT move_uci, count, white_wins, black_wins, draws\n                  FROM gambit.opening_moves\n                  WHERE prefix_hash = (\n                      SELECT prefix_hash FROM gambit.opening_moves LIMIT 1\n                  )\n                  ORDER BY count DESC\n                  LIMIT 20"@,
        "SELECT s.name,\n                         COALESCE(r.games, 0) AS games,\n                         COALESCE(r.positions, 0) AS positions\n                  FROM gambit.sources s\n                  LEFT JOIN gambit.source_rollups r ON r.source_id = s.id\n                  ORDER BY s.name"@,
        "SELECT count(*) FROM gambit.games WHERE result = '1-0'"@,
        "SELECT id, white, black, game_date::text\n                  FROM gambit.games\n                  WHERE game_date >= '2024-01-01' AND game_date < '2025-01-01'\n                  ORDER BY game_date DESC\n                  LIMIT 50"@,
        "SELECT eco, count(*)::bigint AS games\n                  FROM gambit.games\n                  WHERE eco IS NOT NULL\n                  GROUP BY eco\n                  ORDER BY games DESC\n                  LIMIT 20"@,
        "SELECT id, white, black, white_elo, black_elo\n                  FROM gambit.games\n                  WHERE white_elo >= 2500 OR black_elo >= 2500\n                  ORDER BY game_date DESC NULLS LAST\n                  LIMIT 20"@,
        "SELECT id, white, black, result, game_date::text\n                  FROM gambit.games\n                  WHERE (white ILIKE '%nakamura%' AND black ILIKE '%carlsen%')\n                     OR (white ILIKE '%carlsen%' AND black ILIKE '%nakamura%')\n                  ORDER BY game_date DESC NULLS LAST\n                  LIMIT 20"@,
        "SELECT game_id, hash, fen\n                  FROM gambit.positions\n                  WHERE ply = 20\n                  LIMIT 50"@,
    ]
}

fn bench_query(id: &str, title: &str, description: &str, sql: &str) -> (q: BenchQuery)
    ensures
        q.id@ == id@,
        q.title@ == title@,
        q.description@ == description@,
        q.sql@ == sql@,
{
    BenchQuery { id: owned(id), title: owned(title), description: owned(description), sql: owned(sql) }
}

/// The benchmark suite, in the order it runs.
pub fn bench_queries() -> (r: Vec<BenchQuery>)
    ensures
        r@.len() == bench_query_ids().len(),
        forall|i: int|
            0 <= i < r@.len() ==> (#[trigger] r@[i]).id@ == bench_query_ids()[i] && r@[i].title@
                == bench_query_titles()[i] && r@[i].description@ == bench_query_descriptions()[i]
                && r@[i].sql@ == bench_query_sqls()[i],
{
    let mut v: Vec<BenchQuery> = Vec::new();
    v.push(bench_query("corpus_size", "Corpus size", "Baseline count of loaded games \u{2014} every dashboard and report depends on this being fast.", "SELECT count(*) FROM gambit.games"));
    v.push(bench_query("positions_scale", "Position index scale", "Positions are the largest table; count time reflects index health at millions of rows.", "SELECT count(*) FROM gambit.positions"));
    v.push(bench_query("player_search", "Player name search", "Powers the Games browser \u{2014} UNION of indexed trigram lookups, no COUNT.", "SELECT id, white, black, result, game_date::text FROM (\n                      SELECT id, white, black, result, game_date\n                      FROM gambit.games WHERE white ILIKE '%car%'\n                      UNION\n                      SELECT id, white, black, result, game_date\n                      FROM gambit.games WHERE black ILIKE '%car%'\n                  ) u\n                  ORDER BY game_date DESC NULLS LAST, id DESC\n                  LIMIT 20"));
    v.push(bench_query("recent_games_page", "Recent games (paginated)", "Simulates scrolling the game list \u{2014} ordered scan with OFFSET/LIMIT on the games index.", "SELECT id, white, black, result, game_date::text\n                  FROM gambit.games\n                  ORDER BY id DESC\n                  OFFSET 500 LIMIT 20"));
    v.push(bench_query("game_replay_plies", "Load game for replay", "Fetching every ply for one game is on the critical path when opening the board viewer.", "SELECT ply, san, uci\n                  FROM gambit.plies\n                  WHERE game_id = (SELECT id FROM gambit.games ORDER BY ply_count DESC LIMIT 1)\n                  ORDER BY ply"));
    v.push(bench_query("position_transpositions", "Position transposition lookup", "Core chess-database query: find all games that reached the same position via Zobrist hash.", "SELECT p.game_id, g.white, g.black, p.ply, p.fen\n                  FROM gambit.positions p\n                  JOIN gambit.games g ON g.id = p.game_id\n                  WHERE p.hash = (SELECT hash FROM gambit.positions LIMIT 1)\n                  LIMIT 50"));
    v.push(bench_query("opening_explorer", "Opening explorer", "Popular continuations from a position \u{2014} uses opening_moves MV when populated.", "SELECT move_uci, count, white_wins, black_wins, draws\n                  FROM gambit.opening_moves\n                  WHERE prefix_hash = (\n                      SELECT prefix_hash FROM gambit.opening_moves LIMIT 1\n                  )\n                  ORDER BY count DESC\n                  LIMIT 20"));
    v.push(bench_query("source_aggregation", "Per-source breakdown", "Dashboard aggregates games and positions per import batch \u{2014} reads cached source_rollups.", "SELECT s.name,\n                         COALESCE(r.games, 0) AS games,\n                         COALESCE(r.positions, 0) AS positions\n                  FROM gambit.sources s\n                  LEFT JOIN gambit.source_rollups r ON r.source_id = s.id\n                  ORDER BY s.name"));
    v.push(bench_query("result_filter", "Filter by result", "Endgame and opening studies often isolate decisive games \u{2014} tests selective scans on result.", "SELECT count(*) FROM gambit.games WHERE result = '1-0'"));
    v.push(bench_query("date_range", "Date range filter", "Period analysis (e.g. all 2024 games) requires efficient use of the game_date index.", "SELECT id, white, black, game_date::text\n                  FROM gambit.games\n                  WHERE game_date >= '2024-01-01' AND game_date < '2025-01-01'\n                  ORDER BY game_date DESC\n                  LIMIT 50"));
    v.push(bench_query("eco_distribution", "ECO opening distribution", "Opening classification summaries group by ECO code \u{2014} typical analytics aggregation query.", "SELECT eco, count(*)::bigint AS games\n                  FROM gambit.games\n                  WHERE eco IS NOT NULL\n                  GROUP BY eco\n                  ORDER BY games DESC\n                  LIMIT 20"));
    v.push(bench_query("high_elo_filter", "High-rated games", "Training on strong players filters by Elo \u{2014} tests nullable rating columns at scale.", "SELECT id, white, black, white_elo, black_elo\n                  FROM gambit.games\n                  WHERE white_elo >= 2500 OR black_elo >= 2500\n                  ORDER BY game_date DESC NULLS LAST\n                  LIMIT 20"));
    v.push(bench_query("head_to_head", "Head-to-head lookup", "Pairing queries (Player A vs Player B) are common in match prep and historical research.", "SELECT id, white, black, result, game_date::text\n                  FROM gambit.games\n                  WHERE (white ILIKE '%nakamura%' AND black ILIKE '%carlsen%')\n                     OR (white ILIKE '%carlsen%' AND black ILIKE '%nakamura%')\n                  ORDER BY game_date DESC NULLS LAST\n                  LIMIT 20"));
    v.push(bench_query("positions_by_ply", "Positions at a given ply", "Opening-depth analysis asks 'what positions appear after move 20?' \u{2014} ply-filtered index scan.", "SELECT game_id, hash, fen\n                  FROM gambit.positions\n                  WHERE ply = 20\n                  LIMIT 50"));
    v
}

/// Whether a query is skipped: the opening explorer query while its materialized
/// view is not populated.
pub fn bench_skipped(id: &str, opening_populated: bool) -> (b: bool)
    ensures
        b == (id@ == "opening_explorer"@ && !opening_populated),
{
    str_equal(id, "opening_explorer") && !opening_populated
}

/// The description reported for a skipped query.
pub fn skipped_description(description: &str) -> (r: String)
    ensures
        r@ == description@ + " (skipped \u{2014} run refresh-stats after freeing disk space)"@,
{
    let mut out: Vec<char> = Vec::new();
    push_str_chars(&mut out, description);
    push_str_chars(&mut out, " (skipped \u{2014} run refresh-stats after freeing disk space)");
    string_from_chars(out.as_slice())
}

} // verus!
