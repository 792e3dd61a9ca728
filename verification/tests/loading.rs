use gambit_core::analysis::{partition_outcomes, requested_depth, AnalyzeOptions};
use gambit_core::book::{empty_book_message, group_by_hash};
use gambit_core::copy_rows::{
    analysis_copy_data, analysis_copy_line, game_copy_line, games_copy_data, join_copy_line,
    ply_copy_line, position_copy_line, StagingGameRow, StagingPlyAnalysisRow,
};
use gambit_core::jobs::{
    is_terminal_status, job_already_running_message, reconstruct_target, watch_start, JobBoard,
    WatchStart,
};
use gambit_core::profile::{count_text, IngestProfile};
use gambit_core::shard_import::{parse_batch_size, Batcher, ImportOptions, ShardBatcher};
use gambit_core::year_load::{
    cache_action, downloading_message, games_during_shard, ingest_progress_message,
    ingest_started_message, no_filesets_message, select_year_filesets, shard_concurrency,
    shard_finished_message, year_complete_message, year_job_start_message, year_load_failure,
    CacheAction, FilesetRow, YearLoadJob, YEAR_JOB_SHARDS,
};
use std::time::Duration;

fn fileset(id: i64, label: &str, status: &str, games: i64) -> FilesetRow {
    FilesetRow {
        id,
        source_id: 1,
        remote_url: format!("https://example.org/{label}.pgn.zst"),
        filename: format!("lichess_db_standard_rated_{label}.pgn.zst"),
        period_label: label.to_string(),
        byte_size: None,
        sha256: None,
        status: status.to_string(),
        games_loaded: games,
        games_errors: 0,
        positions_loaded: 0,
        plies_loaded: 0,
        error_message: None,
    }
}

#[test]
fn year_selection_filters_prefix_and_complete() {
    let rows = vec![
        fileset(1, "2023-12", "pending", 0),
        fileset(2, "2024-01", "complete", 10),
        fileset(3, "2024-02", "failed", 0),
        fileset(4, "20245-01", "pending", 0),
        fileset(5, "2024-03", "pending", 0),
    ];
    let all: Vec<i64> = select_year_filesets(rows.clone(), 2024, false).iter().map(|f| f.id).collect();
    assert_eq!(all, vec![2, 3, 5]);
    let open: Vec<i64> = select_year_filesets(rows, 2024, true).iter().map(|f| f.id).collect();
    assert_eq!(open, vec![3, 5]);
    let neg = select_year_filesets(vec![fileset(9, "-1-01", "pending", 0)], -1, true);
    assert_eq!(neg.len(), 1);
}

#[test]
fn year_job_walks_pending_shards_with_prefetch() {
    let targets = vec![
        fileset(10, "2024-01", "complete", 100),
        fileset(11, "2024-02", "pending", 0),
        fileset(12, "2024-03", "failed", 0),
        fileset(13, "2024-04", "complete", 50),
    ];
    let mut job = YearLoadJob::new(targets);
    assert_eq!(job.total_shards(), 4);
    assert_eq!(job.pending_count(), 2);
    let step = job.next_shard().expect("first pending");
    assert_eq!((step.target, step.shard_number, step.prefetch_next), (1, 2, Some(2)));
    assert_eq!(job.target(step.target).period_label, "2024-02");
    job.shard_finished(7);
    let step = job.next_shard().expect("second pending");
    assert_eq!((step.target, step.shard_number, step.prefetch_next), (2, 3, None));
    job.shard_finished(5);
    assert_eq!(job.games_loaded(), 12);
    assert!(job.next_shard().is_none());
    assert_eq!(job.final_total(), Some(162));
}

#[test]
fn year_job_shard_number_uses_first_matching_id() {
    let targets = vec![
        fileset(7, "2024-01", "failed", 0),
        fileset(7, "2024-02", "pending", 0),
    ];
    let job = YearLoadJob::new(targets);
    let mut job = job;
    job.shard_finished(0);
    let step = job.next_shard().expect("second");
    assert_eq!((step.target, step.shard_number), (1, 1));
}

#[test]
fn year_job_total_overflow_is_none() {
    let targets = vec![fileset(1, "2024-01", "complete", -1)];
    let job = YearLoadJob::new(targets);
    assert!(job.next_shard().is_none());
    assert_eq!(job.final_total(), Some(u64::MAX));
    let targets = vec![fileset(1, "2024-01", "complete", -1), fileset(2, "2024-02", "pending", 0)];
    let mut job = YearLoadJob::new(targets);
    job.shard_finished(1);
    assert_eq!(job.final_total(), None);
}

#[test]
fn year_job_messages() {
    assert_eq!(YEAR_JOB_SHARDS, 12);
    assert_eq!(year_job_start_message(), "starting fileset load");
    assert_eq!(downloading_message("2024-01"), "downloading shard 2024-01");
    assert_eq!(
        ingest_started_message("2024-01"),
        "ingesting shard 2024-01 (parsing PGN and loading positions…)"
    );
    assert_eq!(
        ingest_progress_message("2024-01", 1500),
        "ingesting shard 2024-01 (1500 games in shard so far…)"
    );
    assert_eq!(shard_finished_message("2024-01", 42), "finished shard 2024-01 · 42 games total");
    assert_eq!(year_complete_message(0), "loaded 0 games across 12 shards");
    assert_eq!(games_during_shard(100, 23), 123);
}

#[test]
fn year_load_outcomes() {
    assert_eq!(
        no_filesets_message("lichess", 2024),
        "no filesets found for source lichess year 2024; run sync-catalog first"
    );
    assert_eq!(shard_concurrency(0), 1);
    assert_eq!(shard_concurrency(3), 3);
    assert_eq!(year_load_failure(0, 0, false), None);
    assert_eq!(year_load_failure(1, 4, false), None);
    assert_eq!(year_load_failure(0, 4, false), Some("all 4 shard loads failed".to_string()));
    assert_eq!(year_load_failure(0, 2, true), Some("all 2 parallel shard loads failed".to_string()));
}

#[test]
fn cache_actions() {
    let mut known = fileset(1, "2024-01", "pending", 0);
    known.byte_size = Some(1000);
    known.sha256 = Some(vec![1, 2, 3]);
    let unknown = fileset(2, "2024-02", "pending", 0);
    assert_eq!(cache_action(&known, true, true, false), CacheAction::UseCached);
    assert_eq!(cache_action(&unknown, true, true, true), CacheAction::HashCached);
    assert_eq!(cache_action(&known, false, true, true), CacheAction::ReplaceIncomplete);
    assert_eq!(cache_action(&known, false, false, true), CacheAction::AwaitPrefetch);
    assert_eq!(cache_action(&known, false, false, false), CacheAction::Download);
}

#[test]
fn import_options_defaults_and_shard() {
    let o = ImportOptions::with_parallelism(None);
    assert_eq!((o.workers, o.batch_games, o.shard_concurrency), (4, 5000, 1));
    assert!(!o.store_pgn && !o.fail_fast && !o.eager_types && o.shard_sha256.is_none());
    let o = ImportOptions::with_parallelism(Some(16));
    assert_eq!(o.workers, 16);
    let s = o.for_shard(vec![9, 9]);
    assert!(s.eager_types);
    assert_eq!(s.shard_sha256, Some(vec![9, 9]));
    assert_eq!(s.workers, 16);
    let r = ImportOptions::for_request(3, 250, Some(8));
    assert_eq!((r.workers, r.batch_games, r.shard_concurrency), (3, 250, 1));
    let k = r.with_shard_sha256(Some(vec![1]));
    assert_eq!(k.shard_sha256, Some(vec![1]));
    assert!(!k.eager_types);
}

#[test]
fn parse_batch_sizes() {
    assert_eq!(parse_batch_size(0), 128);
    assert_eq!(parse_batch_size(1), 128);
    assert_eq!(parse_batch_size(2), 128);
    assert_eq!(parse_batch_size(3), 192);
    assert_eq!(parse_batch_size(usize::MAX), usize::MAX);
}

#[test]
fn batcher_cuts_full_then_final() {
    let mut b: Batcher<u32> = Batcher::new(3);
    b.push_all(vec![1, 2, 3, 4, 5, 6, 7]);
    assert_eq!(b.take_full(), Some(vec![1, 2, 3]));
    assert_eq!(b.take_full(), Some(vec![4, 5, 6]));
    assert_eq!(b.take_full(), None);
    assert_eq!(b.pending_len(), 1);
    b.push(8);
    assert_eq!(b.take_final(), Some(vec![7, 8]));
    assert_eq!(b.take_final(), None);
}

#[test]
fn shard_batcher_streams_in_parse_and_write_batches() {
    let options = ImportOptions::for_request(1, 2, None);
    let mut sb: ShardBatcher<u32, String> = ShardBatcher::new(&options);
    let mut parse_batches = Vec::new();
    for c in 0..300u32 {
        if let Some(batch) = sb.push_chunk(c) {
            parse_batches.push(batch.len());
        }
    }
    assert_eq!(parse_batches, vec![128, 128]);
    let rest = sb.finish_chunks().expect("rest");
    assert_eq!(rest.len(), 44);
    assert_eq!(rest[0], 256);
    assert!(sb.finish_chunks().is_none());
    sb.push_games(vec!["a".into(), "b".into(), "c".into()]);
    assert_eq!(sb.next_full_batch(), Some(vec!["a".to_string(), "b".to_string()]));
    assert_eq!(sb.next_full_batch(), None);
    sb.push_games(vec!["d".into(), "e".into(), "f".into()]);
    assert_eq!(sb.next_final_batch(), Some(vec!["c".to_string(), "d".to_string()]));
    assert_eq!(sb.next_final_batch(), Some(vec!["e".to_string(), "f".to_string()]));
    assert_eq!(sb.next_final_batch(), None);
}

#[test]
fn copy_lines_for_staging_rows() {
    let row = StagingPlyAnalysisRow {
        game_id: 42,
        ply: 1,
        eval_before: Some(20),
        eval_after: Some(-10),
        best_move: "e2e4".to_string(),
        cp_loss: None,
        move_class: "good".to_string(),
        eval_depth: Some(12),
        eval_source: "native".to_string(),
    };
    assert_eq!(analysis_copy_line(&row), "42\t1\t20\t-10\te2e4\t\\N\tgood\t12\tnative\n");
    let two = vec![row.clone(), row];
    assert_eq!(analysis_copy_data(&two).matches('\n').count(), 2);
    assert_eq!(analysis_copy_data(&[]), "");
    assert_eq!(position_copy_line(3, 0, "8/8 w", -5), "3\t0\t8/8 w\t-5\n");
    assert_eq!(ply_copy_line(3, 1, "e2e4", "e4\t!"), "3\t1\te2e4\te4\\t!\n");
    assert_eq!(join_copy_line(&vec![]), "\n");
    assert_eq!(join_copy_line(&vec!["a".to_string()]), "a\n");
}

#[test]
fn copy_line_for_staged_game() {
    let g = StagingGameRow {
        batch_seq: 1,
        pgn_text: None,
        pgn_sha256: Some(vec![0xab, 0x01]),
        pgn_byte_offset: Some(1024),
        white: Some("Carlsen".to_string()),
        black: Some("Nakamura\\".to_string()),
        white_elo: Some(2830),
        black_elo: None,
        event: Some("Rated\nBlitz".to_string()),
        site: None,
        round: Some("-".to_string()),
        game_date: Some("2024-01-05".to_string()),
        result: "1-0".to_string(),
        eco: Some("B90".to_string()),
        ply_count: 57,
    };
    let line = game_copy_line(&g);
    assert_eq!(
        line,
        "1\t\\N\tab01\t1024\tCarlsen\tNakamura\\\\\t2830\t\\N\tRated\\nBlitz\t\\N\t-\t2024-01-05\t1-0\tB90\t57\n"
    );
    assert_eq!(games_copy_data(&[g.clone(), g]), format!("{line}{line}"));
}

#[test]
fn book_groups_by_unsigned_hash() {
    let rows = vec![(5i64, "a"), (-1i64, "b"), (5, "c"), (0, "d")];
    let groups = group_by_hash(rows);
    assert_eq!(
        groups,
        vec![(0u64, vec!["d"]), (5u64, vec!["a", "c"]), (u64::MAX, vec!["b"])]
    );
    assert!(group_by_hash::<u8>(vec![]).is_empty());
    assert_eq!(
        empty_book_message(),
        "opening_moves is empty; run `gambit-ingest refresh-stats` after import first"
    );
}

#[test]
fn analysis_options_and_outcomes() {
    let o = AnalyzeOptions::from_environment(Some("book.gbook".into()), None, None);
    assert_eq!((o.depth, o.workers), (12, 2));
    assert_eq!(o.corpus_book.as_deref(), Some("book.gbook"));
    let o = AnalyzeOptions::from_environment(None, None, Some(6)).with_depth(20);
    assert_eq!((o.depth, o.workers), (20, 6));
    assert_eq!(requested_depth(0), 12);
    assert_eq!(requested_depth(5), 5);
    let (ok, failed) = partition_outcomes(vec![Ok((1, "s1")), Err(2), Ok((3, "s3")), Err(4)]);
    assert_eq!(ok, vec![(1, "s1"), (3, "s3")]);
    assert_eq!(failed, vec![2, 4]);
}

#[test]
fn profile_report_orders_by_time() {
    let mut p = IngestProfile::new();
    p.record("b.step", Duration::from_millis(5));
    p.record_count("a.step", Duration::from_millis(5), 3);
    p.record("ingest.total", Duration::from_millis(100));
    p.record("c.step", Duration::from_millis(9));
    p.record("backfill.total", Duration::from_millis(50));
    let rows = p.report_rows();
    let names: Vec<&str> = rows.iter().map(|r| r.0.as_str()).collect();
    assert_eq!(names, vec!["c.step", "a.step", "b.step"]);
    assert_eq!(rows[1], ("a.step".to_string(), 5_000_000, 3));
    assert_eq!(p.tracked_nanos(), 19_000_000);
    assert_eq!(count_text(0), "-");
    assert_eq!(count_text(12), "12");
}

#[test]
fn job_watch_decisions() {
    assert!(is_terminal_status("complete"));
    assert!(is_terminal_status("failed"));
    assert!(!is_terminal_status("running"));
    assert!(matches!(watch_start(7, Some("x".into()), None), WatchStart::ById(7)));
    match watch_start(0, Some("lichess".into()), None) {
        WatchStart::Reconstruct(name, year) => assert_eq!((name.as_str(), year), ("lichess", 2024)),
        _ => panic!("expected reconstruct"),
    }
    assert!(matches!(watch_start(0, None, Some(2020)), WatchStart::Active));
    assert_eq!(reconstruct_target(Some(String::new()), Some(2023)), None);
    assert_eq!(reconstruct_target(Some("s".into()), Some(2023)), Some(("s".to_string(), 2023)));
    assert_eq!(reconstruct_target(None, None), None);
    let mut board = JobBoard::new();
    assert_eq!(board.running_job_id(), None);
    board.start(9, 12, "starting fileset load".to_string());
    assert_eq!(board.running_job_id(), Some(9));
    board.complete("done".to_string());
    assert_eq!(board.running_job_id(), None);
    assert_eq!(job_already_running_message(), "an ingest job is already running");
}

use gambit_core::analysis::{
    eval_depth, eval_source_label, most_played, stored_score, wdl_centipawns, EvalScore,
    EvalSource, Wdl,
};
use gambit_core::board::{
    animation_uci, click_action, legal_targets, may_pick, promotion_step, ClickAction,
    PromotionStep,
};
use gambit_core::config::{
    default_cache_dir, default_database_url, default_ingest_url, default_studio_listen,
    default_worker_listen, setting_or, POOL_MAX_SIZE,
};
use gambit_core::reprs::{game_repr, invalid_fen_message, move_repr, pgn_game_repr, position_repr};

#[test]
fn evaluation_helpers() {
    assert_eq!(wdl_centipawns(Wdl::Win), 500);
    assert_eq!(wdl_centipawns(Wdl::CursedWin), 50);
    assert_eq!(wdl_centipawns(Wdl::Draw), 0);
    assert_eq!(wdl_centipawns(Wdl::BlessedLoss), -50);
    assert_eq!(wdl_centipawns(Wdl::Loss), -500);
    assert_eq!(most_played(&[]), None);
    assert_eq!(most_played(&[3, 9, 2, 9, 1]), Some(3));
    assert_eq!(most_played(&[4]), Some(0));
    assert_eq!(stored_score(EvalScore::Cp(45)), (45, None));
    assert_eq!(stored_score(EvalScore::Cp(-99999)), (-30000, None));
    assert_eq!(stored_score(EvalScore::Cp(40000)), (30000, None));
    assert_eq!(stored_score(EvalScore::Mate(3)), (30000, Some(3)));
    assert_eq!(stored_score(EvalScore::Mate(-2)), (-30000, Some(2)));
    assert_eq!(stored_score(EvalScore::Mate(0)), (-30000, Some(0)));
    assert_eq!(stored_score(EvalScore::Mate(100000)), (30000, Some(30000)));
    assert_eq!(eval_source_label(EvalSource::Corpus), "corpus");
    assert_eq!(eval_source_label(EvalSource::Syzygy), "syzygy");
    assert_eq!(eval_source_label(EvalSource::Stockfish), "native");
    assert_eq!(eval_depth(0), 10);
    assert_eq!(eval_depth(7), 7);
}

#[test]
fn board_interaction_rules() {
    assert!(may_pick("white", 'N'));
    assert!(!may_pick("white", 'n'));
    assert!(may_pick("black", 'q'));
    assert!(!may_pick("red", 'q'));
    let legal: Vec<String> = ["e2e4", "e2e3", "g1f3", "e7e8q"].iter().map(|s| s.to_string()).collect();
    assert_eq!(legal_targets(&legal, "e2"), vec!["e4".to_string(), "e3".to_string()]);
    assert_eq!(legal_targets(&legal, "e7"), vec!["e8".to_string()]);
    assert!(legal_targets(&legal, "a1").is_empty());
    match promotion_step(vec!['q', 'r'], None) {
        PromotionStep::Ask(v) => assert_eq!(v, vec!['q', 'r']),
        _ => panic!("expected ask"),
    }
    assert!(matches!(promotion_step(vec!['q'], None), PromotionStep::Use(Some('q'))));
    assert!(matches!(promotion_step(vec!['q', 'r'], Some('r')), PromotionStep::Use(Some('r'))));
    assert!(matches!(promotion_step(vec![], None), PromotionStep::Use(None)));
    assert!(matches!(click_action(false, false, false, None, "e2".into()), ClickAction::Ignore));
    assert!(matches!(click_action(true, true, false, None, "e2".into()), ClickAction::EndDrag));
    assert!(matches!(click_action(true, false, true, None, "e2".into()), ClickAction::Ignore));
    assert!(matches!(click_action(true, false, false, Some("e2".into()), "e2".into()), ClickAction::Deselect));
    match click_action(true, false, false, Some("e2".into()), "e4".into()) {
        ClickAction::TryMove(f, t) => assert_eq!((f.as_str(), t.as_str()), ("e2", "e4")),
        _ => panic!("expected move"),
    }
    assert!(matches!(click_action(true, false, false, None, "g1".into()), ClickAction::Select(s) if s == "g1"));
    assert_eq!(animation_uci("e1", "g1"), "e1g1");
}

#[test]
fn python_reprs_and_settings() {
    assert_eq!(position_repr("8/8 w"), "Position('8/8 w')");
    assert_eq!(move_repr("e2e4"), "Move('e2e4')");
    assert_eq!(game_repr("start", 2), "Game(fen='start', moves=2)");
    assert_eq!(pgn_game_repr(7, 40), "PgnGame(headers=7, moves=40)");
    assert_eq!(invalid_fen_message("x", "bad rank"), "invalid FEN 'x': bad rank");
    assert_eq!(default_database_url(None), "postgres://postgres@127.0.0.1:28818/postgres");
    assert_eq!(default_database_url(Some("ana".into())), "postgres://ana@127.0.0.1:28818/postgres");
    assert_eq!(setting_or(None, "d"), "d");
    assert_eq!(setting_or(Some("v".into()), "d"), "v");
    assert_eq!(default_ingest_url(), "http://127.0.0.1:8082");
    assert_eq!(default_studio_listen(), "127.0.0.1:8080");
    assert_eq!(default_worker_listen(), "127.0.0.1:8082");
    assert_eq!(default_cache_dir(), ".cache/lichess");
    assert_eq!(POOL_MAX_SIZE, 16);
}

use gambit_core::staging::{
    build_analysis_rows, build_staging_rows, game_row_from_exploded, ExplodedGame, GameHeaders,
    GameProvenance, PlyAnalysis, PlyRow, PositionRow, StagedInput,
};

#[test]
fn build_rows_from_summary() {
    let plies = vec![PlyAnalysis {
        ply: 1,
        eval_before: 20,
        eval_after: 10,
        best_move: "e2e4".to_string(),
        cp_loss: 10,
        move_class: "good".to_string(),
        depth: 12,
        source: "native".to_string(),
    }];
    let rows = build_analysis_rows(&[(42, plies)]);
    assert_eq!(rows.len(), 1);
    assert_eq!(rows[0].game_id, 42);
    assert_eq!(rows[0].move_class, "good");
}

#[test]
fn build_staging_empty_batch() {
    let (g, p, pl) = build_staging_rows(&[]);
    assert!(g.is_empty());
    assert!(p.is_empty());
    assert!(pl.is_empty());
}

fn headers() -> GameHeaders {
    GameHeaders {
        white: Some("A".into()),
        black: None,
        white_elo: Some(2000),
        black_elo: None,
        event: None,
        site: Some("lichess".into()),
        round: None,
        date: Some("2024-02-03".into()),
        result: "0-1".into(),
        eco: Some("C20".into()),
    }
}

#[test]
fn staging_rows_tag_positions_and_plies() {
    let game = |n: i64| ExplodedGame {
        headers: headers(),
        positions: (0..=n).map(|i| PositionRow { ply: i, fen: format!("fen{i}"), hash: i as u64 }).collect(),
        plies: (1..=n).map(|i| PlyRow { ply: i, uci: format!("u{i}"), san: format!("s{i}") }).collect(),
    };
    let batch = vec![
        StagedInput {
            batch_seq: 1,
            game: game(2),
            pgn_text: None,
            provenance: GameProvenance { pgn_sha256: Some(vec![1, 2]), pgn_byte_offset: Some(77) },
        },
        StagedInput {
            batch_seq: 2,
            game: game(1),
            pgn_text: Some("1. e4".into()),
            provenance: GameProvenance { pgn_sha256: None, pgn_byte_offset: None },
        },
    ];
    let (games, positions, plies) = build_staging_rows(&batch);
    assert_eq!(games.len(), 2);
    assert_eq!(games[0].ply_count, 2);
    assert_eq!(games[0].pgn_sha256, Some(vec![1, 2]));
    assert_eq!(games[0].game_date.as_deref(), Some("2024-02-03"));
    assert_eq!(games[1].pgn_text.as_deref(), Some("1. e4"));
    let tags: Vec<(i32, i64)> = positions.iter().map(|(s, p)| (*s, p.ply)).collect();
    assert_eq!(tags, vec![(1, 0), (1, 1), (1, 2), (2, 0), (2, 1)]);
    let ptags: Vec<(i32, String)> = plies.iter().map(|(s, p)| (*s, p.uci.clone())).collect();
    assert_eq!(ptags, vec![(1, "u1".into()), (1, "u2".into()), (2, "u1".into())]);
    let row = game_row_from_exploded(5, &game(0), None, None, Some(3));
    assert_eq!((row.batch_seq, row.ply_count, row.pgn_byte_offset), (5, 0, Some(3)));
}

#[test]
fn piece_style_by_side_and_letter() {
    let w = piece_style('Q');
    assert!(w.white);
    assert_eq!(w.shape, PieceShape::Queen);
    assert_eq!(w.gradient_id, "w-q");
    assert_eq!(w.fill, "url(#w-q)");
    assert_eq!(w.stroke, "#8899aa");
    assert_eq!(w.gradient_start, "#e8ecf4");
    assert_eq!(w.gradient_end, "#b8c4d8");
    assert_eq!(w.accent, "#7c5cff");
    let b = piece_style('n');
    assert!(!b.white);
    assert_eq!(b.shape, PieceShape::Knight);
    assert_eq!(b.gradient_id, "b-n");
    assert_eq!(b.fill, "url(#b-n)");
    assert_eq!(b.stroke, "#0a0c10");
    assert_eq!(b.accent, "#22d3ee");
    assert_eq!(piece_style('x').shape, PieceShape::Pawn);
    assert_eq!(piece_style('K').shape, PieceShape::King);
}
use gambit_core::board::{piece_style, PieceShape};

#[test]
fn ascii_lower_maps_capitals_only() {
    assert_eq!(gambit_core::board::ascii_lower('Q'), 'q');
    assert_eq!(gambit_core::board::ascii_lower('z'), 'z');
    assert_eq!(gambit_core::board::ascii_lower('5'), '5');
    assert_eq!(gambit_core::board::ascii_lower('É'), 'É');
}
