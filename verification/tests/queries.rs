use gambit_core::api_types::{FilesetView, GameListItem, PositionHit, SourceDetail, SourceListItem};
use gambit_core::jobs::JobStatus;
use gambit_core::grpc_web::{
    api_base, encode_frame, http_error, request_url, rpc_path, stream_items,
};
use gambit_core::search::{
    clamp_limit, games_page_meta, lookup_position_plan, plan_game_search, plan_position_search,
    player_pattern, position_page_meta, resolve_source_ref, GameFilter, PositionRowsQuery,
    RowsQuery, SourceRef,
};
use gambit_core::ui::{download_progress_tokens, refresh_sources_due, watch_stream_params};

fn game(id: i64, date: Option<&str>) -> GameListItem {
    GameListItem {
        id,
        white: Some("w".to_string()),
        black: None,
        result: "1-0".to_string(),
        game_date: date.map(|d| d.to_string()),
        ply_count: 40,
    }
}

fn hit(game_id: i64) -> PositionHit {
    PositionHit { game_id, white: None, black: None, ply: 3, fen: "8/8".to_string() }
}

#[test]
fn limits_and_patterns() {
    assert_eq!(clamp_limit(-5), 1);
    assert_eq!(clamp_limit(0), 1);
    assert_eq!(clamp_limit(20), 20);
    assert_eq!(clamp_limit(1000), 100);
    assert_eq!(player_pattern(Some("carl")), Some("%carl%".to_string()));
    assert_eq!(player_pattern(Some("")), None);
    assert_eq!(player_pattern(None), None);
}

#[test]
fn game_search_plans() {
    let p = plan_game_search(Some("carl"), Some(3), 0, 500, true, None);
    assert!(matches!(&p.filter, GameFilter::SourceAndPlayer { source_id: 3, pattern } if pattern == "%carl%"));
    assert!(p.count_total);
    assert!(matches!(p.rows, RowsQuery::KeysetFirst));
    assert_eq!(p.limit, 100);
    let p = plan_game_search(Some(""), None, 40, 20, false, None);
    assert!(matches!(p.filter, GameFilter::All));
    assert!(matches!(p.rows, RowsQuery::Offset { offset: 40 }));
    let p = plan_game_search(None, Some(2), 40, 20, false, Some("2024-01-02|77"));
    assert!(matches!(p.filter, GameFilter::Source { source_id: 2 }));
    match p.rows {
        RowsQuery::KeysetAfter { cursor_date, cursor_id } => {
            assert_eq!(cursor_date.as_deref(), Some("2024-01-02"));
            assert_eq!(cursor_id, 77);
        }
        _ => panic!("expected keyset continuation"),
    }
    let p = plan_game_search(Some("x"), None, 40, 20, false, Some("garbage"));
    assert!(matches!(&p.filter, GameFilter::Player { pattern } if pattern == "%x%"));
    assert!(matches!(p.rows, RowsQuery::KeysetFirst));
}

#[test]
fn game_pages_continue_after_last_row() {
    let plan = plan_game_search(None, None, 0, 2, false, None);
    let rows = vec![game(9, Some("2024-03-01")), game(8, None)];
    let meta = games_page_meta(&plan, 0, None, &rows);
    assert_eq!(meta.total, -1);
    assert_eq!(meta.limit, 2);
    assert!(meta.has_more);
    assert_eq!(meta.next_cursor.as_deref(), Some("|8"));
    let next = plan_game_search(None, None, 0, 2, false, meta.next_cursor.as_deref());
    match next.rows {
        RowsQuery::KeysetAfter { cursor_date, cursor_id } => {
            assert_eq!(cursor_date, None);
            assert_eq!(cursor_id, 8);
        }
        _ => panic!("expected keyset continuation"),
    }
    let meta = games_page_meta(&plan, 5, Some(123), &rows[..1]);
    assert_eq!((meta.total, meta.offset, meta.has_more), (123, 5, false));
    assert_eq!(meta.next_cursor.as_deref(), Some("2024-03-01|9"));
    let empty = games_page_meta(&plan, 0, Some(0), &[]);
    assert!(empty.next_cursor.is_none());
}

#[test]
fn position_search_plans_and_pages() {
    let p = plan_position_search(Some(4), 10, 0, None);
    assert_eq!(p.source_id, Some(4));
    assert_eq!(p.limit, 1);
    assert!(matches!(p.rows, PositionRowsQuery::Offset { offset: 10 }));
    let p = plan_position_search(None, 0, 20, Some("bad"));
    match p.rows {
        PositionRowsQuery::After { cursor_date, cursor_id } => {
            assert_eq!(cursor_date, None);
            assert_eq!(cursor_id, i64::MAX);
        }
        _ => panic!("expected keyset"),
    }
    let l = lookup_position_plan();
    assert_eq!((l.source_id, l.limit), (None, 50));
    assert!(matches!(l.rows, PositionRowsQuery::Offset { offset: 0 }));
    let meta = position_page_meta(&l, 0, None, &[hit(5), hit(6)], Some("2024-03-01"));
    assert_eq!((meta.total, meta.has_more), (0, false));
    assert_eq!(meta.next_cursor.as_deref(), Some("2024-03-01|6"));
    let next = plan_position_search(None, 0, 50, meta.next_cursor.as_deref());
    match next.rows {
        PositionRowsQuery::After { cursor_date, cursor_id } => {
            assert_eq!(cursor_date.as_deref(), Some("2024-03-01"));
            assert_eq!(cursor_id, 6);
        }
        _ => panic!("expected keyset"),
    }
    let undated = position_page_meta(&l, 0, None, &[hit(5)], None);
    assert_eq!(undated.next_cursor.as_deref(), Some("|5"));
}

#[test]
fn source_refs() {
    assert!(matches!(resolve_source_ref(Some(1), Some("x".into())), Ok(SourceRef::Id(1))));
    assert!(matches!(resolve_source_ref(None, Some("x".into())), Ok(SourceRef::Name(n)) if n == "x"));
    match resolve_source_ref(None, None) {
        Err(e) => assert_eq!(e, "source_id or source_name is required"),
        Ok(_) => panic!("expected error"),
    }
}

#[test]
fn grpc_request_addresses() {
    assert_eq!(api_base(None), "http://127.0.0.1:8080");
    assert_eq!(api_base(Some("https://studio.example")), "https://studio.example");
    assert_eq!(rpc_path("ListSources"), "/gambit.v1.StudioService/ListSources");
    assert_eq!(request_url("http://h", "/p"), "http://h/p");
    assert_eq!(http_error(503), "HTTP 503");
}

#[test]
fn stream_items_stop_at_error_trailer() {
    let mut body = encode_frame(b"one");
    body.extend(encode_frame(b"two"));
    let mut trailer = vec![0x80u8, 0, 0, 0, 0];
    let text = b"grpc-status: 5\r\ngrpc-message: job not found";
    trailer[4] = text.len() as u8;
    trailer.extend_from_slice(text);
    body.extend(trailer);
    body.extend(encode_frame(b"three"));
    let items = stream_items(&body);
    assert_eq!(items.len(), 3);
    assert_eq!(items[0], Ok(b"one".to_vec()));
    assert_eq!(items[1], Ok(b"two".to_vec()));
    assert_eq!(items[2], Err("job not found".to_string()));
    let ok_trailer = [0x80u8, 0, 0, 0, 14];
    let mut body = encode_frame(b"x");
    body.extend_from_slice(&ok_trailer);
    body.extend_from_slice(b"grpc-status: 0");
    assert_eq!(stream_items(&body), vec![Ok(b"x".to_vec())]);
    assert_eq!(stream_items(&[0, 0, 0, 0, 9, 1]), vec![Err("truncated grpc-web frame".to_string())]);
}

#[test]
fn progress_tokens_from_messages() {
    assert_eq!(
        download_progress_tokens("downloading shard 2024-01 (1.0 / 30.0 GiB)"),
        Some(("1.0".to_string(), "30.0".to_string()))
    );
    assert_eq!(download_progress_tokens("downloading shard 2024-01 (2.5 GiB so far)"), None);
    assert_eq!(download_progress_tokens("no parens"), None);
    assert_eq!(download_progress_tokens(") before ( 1 / 2"), None);
    assert_eq!(download_progress_tokens("(  / 2)"), None);
    assert_eq!(download_progress_tokens("( 3 x / 4 y / 5)"), Some(("3".to_string(), "4".to_string())));
    assert!(refresh_sources_due(0));
    assert!(!refresh_sources_due(4));
    assert!(refresh_sources_due(10));
    assert_eq!(watch_stream_params(3, false, "s".into(), 2024), (None, None));
    assert_eq!(watch_stream_params(0, false, "s".into(), 2024), (Some("s".to_string()), Some(2024)));
    assert_eq!(watch_stream_params(3, true, "s".into(), 2021), (Some("s".to_string()), Some(2021)));
}

use gambit_core::bench::{bench_queries, bench_skipped, skipped_description};
use gambit_core::fen::start_fen_or_default;
use gambit_core::panels::{
    completed_shards, job_card_flags, parse_year, replay_key, shard_status_class,
    shards_complete_label, show_source_stats, step_back, step_forward, BackStep, GameListState,
    Generation, PositionListState, ReplayKey,
};

#[test]
fn game_list_pages_append_and_cap() {
    let mut s = GameListState::new();
    assert_eq!(s.empty_message(), "Search for a player to browse games");
    let (off, cur) = s.begin_search(true);
    assert_eq!((off, cur), (0, None));
    assert!(s.loading && s.searched);
    let page: Vec<GameListItem> = (0..150).map(|i| game(i, None)).collect();
    s.page_loaded(true, page, -1, 0, 150, true, Some("|149".into()));
    assert_eq!(s.games.len(), 150);
    assert_eq!(s.offset, 150);
    assert_eq!(s.results_label(), "150+ results");
    assert!(s.can_load_more());
    let (off, cur) = s.begin_search(false);
    assert_eq!((off, cur.as_deref()), (150, Some("|149")));
    let page: Vec<GameListItem> = (150..250).map(|i| game(i, None)).collect();
    s.page_loaded(false, page, 1234567, 150, 100, false, None);
    assert_eq!(s.games.len(), 200);
    assert_eq!(s.games[0].id, 50);
    assert_eq!(s.games[199].id, 249);
    assert_eq!(s.results_label(), "1,234,567 results");
    assert!(!s.can_load_more());
    s.page_failed(false, "HTTP 500".into());
    assert_eq!(s.games.len(), 200);
    s.page_failed(true, "HTTP 500".into());
    assert!(s.games.is_empty() && s.total == 0 && !s.has_more);
    assert_eq!(s.error.as_deref(), Some("HTTP 500"));
    assert_eq!(s.empty_message(), "No games found — try a different name");
}

#[test]
fn position_list_pages() {
    let mut s = PositionListState::new();
    assert_eq!(s.begin_fetch(), 0);
    s.page_loaded(0, vec![hit(1), hit(2)], 30, true);
    assert_eq!(s.hits.len(), 2);
    let mut s2 = PositionListState::new();
    s2.page_loaded(0, vec![hit(1)], 30, true);
    assert!(s2.load_more());
    assert_eq!(s2.offset, 25);
    assert_eq!(s2.begin_fetch(), 25);
    assert!(!s2.load_more());
    s2.page_loaded(25, vec![hit(3)], 30, false);
    assert_eq!(s2.hits.len(), 2);
    assert_eq!(s2.games_label(), "30 games");
    s2.page_failed(25, "x".into());
    assert_eq!(s2.hits.len(), 2);
    s2.position_changed();
    assert_eq!(s2.offset, 0);
    s2.page_failed(0, "y".into());
    assert!(s2.hits.is_empty());
    s.clear();
    assert!(s.hits.is_empty() && !s.has_more && s.total == 0);
}

#[test]
fn generations_and_replay_steps() {
    let mut g = Generation::new();
    let first = g.advance();
    assert!(g.is_current(first));
    let second = g.advance();
    assert!(!g.is_current(first));
    assert_eq!(g.get(), second);
    assert_eq!(replay_key("ArrowLeft"), Some(ReplayKey::Back));
    assert_eq!(replay_key("ArrowRight"), Some(ReplayKey::Forward));
    assert_eq!(replay_key("F"), Some(ReplayKey::Flip));
    assert_eq!(replay_key("x"), None);
    assert_eq!(step_back(true, 4), BackStep::ReturnToLine(4));
    assert_eq!(step_back(false, 4), BackStep::ToPly(3));
    assert_eq!(step_back(false, 0), BackStep::ToStart);
    assert_eq!(step_forward(false, 2, 3), Some(3));
    assert_eq!(step_forward(false, 3, 3), None);
    assert_eq!(step_forward(true, 0, 3), None);
}

#[test]
fn dashboard_labels() {
    let fs = |status: &str| FilesetView {
        id: 1,
        source_id: 1,
        remote_url: String::new(),
        filename: String::new(),
        period_label: "2024-01".into(),
        status: status.into(),
        games_loaded: 0,
        games_errors: 0,
        positions_loaded: 0,
        error_message: None,
    };
    let list = vec![fs("complete"), fs("pending"), fs("complete")];
    assert_eq!(completed_shards(&list), 2);
    assert_eq!(shards_complete_label(&list), "2 of 3 shards complete");
    assert_eq!(shard_status_class("failed"), "shard status-failed");
    assert_eq!(parse_year("2024"), Some(2024));
    assert_eq!(parse_year("+2024"), Some(2024));
    assert_eq!(parse_year(" 2024"), None);
    assert_eq!(parse_year("3000000000"), None);
    let d = SourceDetail { id: 4, name: "s".into(), games: 1, positions: 2, plies: 3, positions_table_size: "1 MB".into() };
    assert!(show_source_stats(true, Some(&d), 4));
    assert!(!show_source_stats(true, Some(&d), 5));
    assert!(!show_source_stats(false, Some(&d), 4));
    let job = JobStatus {
        id: 1,
        status: "running".into(),
        message: "downloading shard 2024-01 (30.1 / 30.1 GiB)".into(),
        current_shard: 1,
        total_shards: 12,
        games_loaded: 0,
    };
    let f = job_card_flags(&job);
    assert_eq!(f.pill_class, "status-pill running");
    assert!(f.is_running && f.show_ingest_hint);
}

#[test]
fn bench_suite_and_start_fen() {
    let q = bench_queries();
    assert_eq!(q.len(), 14);
    assert_eq!(q[0].id, "corpus_size");
    assert_eq!(q[6].id, "opening_explorer");
    assert_eq!(q[13].title, "Positions at a given ply");
    assert!(bench_skipped("opening_explorer", false));
    assert!(!bench_skipped("opening_explorer", true));
    assert!(!bench_skipped("corpus_size", false));
    assert_eq!(skipped_description("d"), "d (skipped — run refresh-stats after freeing disk space)");
    assert_eq!(start_fen_or_default(None), "rnbqkbnr/pppppppp/8/8/8/8/PPPPPPPP/RNBQKBNR w KQkq - 0 1");
    assert_eq!(start_fen_or_default(Some("8/8/8/8/8/8/8/8 w - - 0 1".into())), "8/8/8/8/8/8/8/8 w - - 0 1");
}

use gambit_core::api_types::PlyView;
use gambit_core::ui::replay_plan;

fn ply(n: i32, uci: &str) -> PlyView {
    PlyView { ply: n, san: String::new(), uci: uci.to_string() }
}

#[test]
fn replay_plans_moves_and_highlight() {
    let plies = vec![ply(1, "e2e4"), ply(2, "e7e5"), ply(3, "x")];
    let plan = replay_plan(&plies, 0);
    assert!(plan.moves.is_empty());
    assert!(plan.last_move.is_none());
    let plan = replay_plan(&plies, 2);
    assert_eq!(plan.moves, vec![(1, "e2e4".to_string()), (2, "e7e5".to_string())]);
    assert_eq!(plan.last_move, Some(("e7".to_string(), "e5".to_string())));
    let plan = replay_plan(&plies, 10);
    assert_eq!(plan.moves.len(), 3);
    assert_eq!(plan.last_move, Some(("e7".to_string(), "e5".to_string())));
}

#[test]
fn dashboard_selects_first_source_only_when_none_selected() {
    let sources = vec![
        SourceListItem { id: 7, name: "a".into(), description: None },
        SourceListItem { id: 9, name: "b".into(), description: None },
    ];
    assert_eq!(selection_after_load(None, &sources), Some(7));
    assert_eq!(selection_after_load(Some(9), &sources), Some(9));
    assert_eq!(selection_after_load(None, &[]), None);
}

#[test]
fn dashboard_follows_only_running_active_job() {
    let mut job = JobStatus {
        id: 0,
        status: "running".into(),
        message: String::new(),
        current_shard: 1,
        total_shards: 12,
        games_loaded: 0,
    };
    assert_eq!(
        active_job_action(Some(&job)),
        ActiveJobAction::Watch { job_id: 0, reconstructed: true }
    );
    job.id = 4;
    assert_eq!(
        active_job_action(Some(&job)),
        ActiveJobAction::Watch { job_id: 4, reconstructed: false }
    );
    job.status = "complete".into();
    assert_eq!(active_job_action(Some(&job)), ActiveJobAction::Show);
    assert_eq!(active_job_action(None), ActiveJobAction::Nothing);
}

#[test]
fn dashboard_status_lines() {
    assert_eq!(sync_status_message(&Ok(12)), "Synced 12 filesets from Lichess catalog");
    assert_eq!(sync_status_message(&Err("HTTP 500".into())), "Sync failed: HTTP 500");
    assert_eq!(load_status_message(&Ok(3)), "Ingest job 3 started");
    assert_eq!(load_status_message(&Err("busy".into())), "Load failed: busy");
    assert_eq!(filesets_error_message("x"), "filesets error: x");
    assert_eq!(active_job_error_message("y"), "active job error: y");
}
use gambit_core::panels::{
    active_job_action, active_job_error_message, filesets_error_message, load_status_message,
    selection_after_load, sync_status_message, ActiveJobAction,
};
