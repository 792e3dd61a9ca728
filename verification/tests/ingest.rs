use gambit_core::batch::batch_games;
use gambit_core::catalog::{extract_period, parse_catalog};
use gambit_core::copy_text::{copy_field, copy_field_i16, copy_field_req, escape_copy_text, hex_bytes};
use gambit_core::download::{
    cache_complete_decision, cache_size_ok, hash_bytes, part_file_name, retry_delay_secs,
    DownloadTracker, MIN_COMPLETE_SHARD_BYTES,
};
use gambit_core::errors::format_error_messages;
use gambit_core::jobs::{job_from_fileset_rows, FilesetProgressRow, JobBoard};
use gambit_core::pgn_stream::{find_next_game_start, take_complete_game, PgnGameReader, PgnPoll};
use gambit_core::profile::IngestProfile;
use gambit_core::progress::format_download_progress;
use std::io::{BufRead, Cursor};

#[test]
fn copy_field_null() {
    assert_eq!(copy_field(None), "\\N");
}

#[test]
fn copy_field_escapes_tab() {
    assert_eq!(copy_field(Some("a\tb")), "a\\tb");
}

#[test]
fn copy_field_escapes_all_specials() {
    assert_eq!(escape_copy_text("a\\b\nc\rd\te"), "a\\\\b\\nc\\rd\\te");
    assert_eq!(copy_field_req("plain é"), "plain é");
    assert_eq!(copy_field_req(""), "");
}

#[test]
fn copy_field_i16_values() {
    assert_eq!(copy_field_i16(None), "\\N");
    assert_eq!(copy_field_i16(Some(-32768)), "-32768");
    assert_eq!(copy_field_i16(Some(0)), "0");
    assert_eq!(copy_field_i16(Some(250)), "250");
}

#[test]
fn hex_bytes_lowercase_pairs() {
    assert_eq!(hex_bytes(&[0x00, 0x0f, 0xab, 0xff]), "000fabff");
    assert_eq!(hex_bytes(&[]), "");
}

#[test]
fn extract_period_parses_filename() {
    assert_eq!(
        extract_period("lichess_db_standard_rated_2024-03.pgn.zst"),
        Some("2024-03".to_string())
    );
}

#[test]
fn extract_period_rejects_other_names() {
    assert_eq!(extract_period("lichess_db_standard_rated_2024-03.pgn"), None);
    assert_eq!(extract_period("lichess_db_standard_rated_2024_03.pgn.zst"), None);
    assert_eq!(extract_period("lichess_2024-003.pgn.zst"), None);
    assert_eq!(extract_period("2013-01.pgn.zst"), Some("2013-01".to_string()));
}

const CATALOG: &str = "https://database.lichess.org/standard/lichess_db_standard_rated_2024-12.pgn.zst\n\
https://database.lichess.org/standard/lichess_db_standard_rated_2023-12.pgn.zst\n\
https://database.lichess.org/standard/lichess_db_standard_rated_2024-03.pgn.zst\r\n\
\n\
not a url\n\
  https://database.lichess.org/standard/lichess_db_standard_rated_2024-01.pgn.zst  \n\
https://database.lichess.org/standard/lichess_db_standard_rated_2024-02.pgn.zst\n\
https://database.lichess.org/standard/readme.txt\n";

#[test]
fn parse_catalog_filters_year() {
    let entries = parse_catalog(CATALOG, Some(2024));
    assert_eq!(entries.len(), 4);
    assert_eq!(entries[0].period_label, "2024-01");
    assert_eq!(
        entries.last().expect("catalog has entries").period_label,
        "2024-12"
    );
}

#[test]
fn parse_catalog_sorts_and_keeps_all_years() {
    let entries = parse_catalog(CATALOG, None);
    let labels: Vec<&str> = entries.iter().map(|e| e.period_label.as_str()).collect();
    assert_eq!(labels, vec!["2023-12", "2024-01", "2024-02", "2024-03", "2024-12"]);
    assert_eq!(
        entries[1].url,
        "https://database.lichess.org/standard/lichess_db_standard_rated_2024-01.pgn.zst"
    );
    assert_eq!(entries[1].filename, "lichess_db_standard_rated_2024-01.pgn.zst");
    assert!(parse_catalog(CATALOG, Some(2022)).is_empty());
}

#[test]
fn min_shard_bytes_threshold() {
    const { assert!(MIN_COMPLETE_SHARD_BYTES > 1_000_000_000) };
}

#[test]
fn cache_size_rules() {
    assert!(!cache_size_ok(1024, None));
    assert!(cache_size_ok(MIN_COMPLETE_SHARD_BYTES, None));
    assert!(cache_size_ok(1024, Some(1024)));
    assert!(!cache_size_ok(1023, Some(1024)));
    assert!(!cache_complete_decision(None, None, None, None));
    let digest = [1u8, 2, 3];
    assert!(cache_complete_decision(Some(10), Some(10), Some(&digest), Some(&digest)));
    assert!(!cache_complete_decision(Some(10), Some(10), Some(&digest), Some(&[1u8, 2, 4])));
    assert!(!cache_complete_decision(Some(10), Some(10), Some(&digest), None));
    assert!(cache_complete_decision(Some(10), Some(10), None, None));
}

#[test]
fn retry_backoff_doubles() {
    assert_eq!(retry_delay_secs(1), Some(2));
    assert_eq!(retry_delay_secs(4), Some(16));
    assert_eq!(retry_delay_secs(5), None);
}

#[test]
fn download_tracker_reports_and_checks() {
    let mut t = DownloadTracker::new(Some(100));
    assert!(!t.on_chunk(40, true));
    assert!(t.on_chunk(60, true));
    assert_eq!(t.downloaded(), 100);
    assert!(t.check_complete("u").is_ok());
    let mut short = DownloadTracker::new(Some(100));
    short.on_chunk(10, false);
    assert_eq!(
        short.check_complete("http://x").unwrap_err(),
        "download incomplete for http://x: got 10 bytes, expected 100"
    );
    let small = DownloadTracker::new(None);
    assert_eq!(
        small.check_complete("http://y").unwrap_err(),
        "download suspiciously small for http://y: 0 bytes"
    );
    let mut big = DownloadTracker::new(None);
    assert!(big.on_chunk(64 * 1024 * 1024, true));
}

#[test]
fn sha256_of_known_text() {
    let (len, digest) = hash_bytes(b"abc");
    assert_eq!(len, 3);
    assert_eq!(
        hex_bytes(&digest),
        "ba7816bf8f01cfea414140de5dae2223b00361a396177a9cb410ff61f20015ad"
    );
}

#[test]
fn part_file_names() {
    assert_eq!(part_file_name(Some("a.pgn.zst")), "a.pgn.zst.part");
    assert_eq!(part_file_name(None), "shard.part");
    let p = gambit_core::download::part_path(std::path::Path::new("/tmp/x/a.zst"));
    assert_eq!(p, std::path::PathBuf::from("/tmp/x/a.zst.part"));
    let c = gambit_core::download::cached_path(std::path::Path::new("/tmp/x"), "f.zst");
    assert_eq!(c, std::path::PathBuf::from("/tmp/x/f.zst"));
}

#[test]
fn download_progress_with_total() {
    let msg = format_download_progress(
        "2024-01",
        2 * 1024 * 1024 * 1024,
        Some(30 * 1024 * 1024 * 1024),
    );
    assert!(msg.contains("2024-01"));
    assert!(msg.contains("2.0"));
    assert!(msg.contains("30.0"));
}

#[test]
fn download_progress_unknown_total() {
    let msg = format_download_progress("2024-02", 1024 * 1024 * 1024, None);
    assert!(msg.contains("2024-02"));
    assert!(msg.contains("so far"));
}

#[test]
fn download_progress_matches_float_formatting() {
    let gib = 1u64 << 30;
    for bytes in [0u64, 1, gib / 4, gib / 20, 3 * gib / 4, gib + gib / 4, 123_456_789_012, u64::MAX, (1u64 << 53) + 1] {
        let expected = format!("downloading shard L ({:.1} GiB so far)", bytes as f64 / (1024.0 * 1024.0 * 1024.0));
        assert_eq!(format_download_progress("L", bytes, None), expected, "bytes = {bytes}");
    }
    assert_eq!(
        format_download_progress("L", gib / 4, Some(gib)),
        "downloading shard L (0.2 / 1.0 GiB)"
    );
}

fn read_next(reader: &mut PgnGameReader, input: &mut Cursor<&str>) -> Option<(String, i64)> {
    loop {
        match reader.next_game() {
            PgnPoll::Game(g, o) => return Some((g, o)),
            PgnPoll::Done => return None,
            PgnPoll::NeedLine => {
                let mut chunk = String::new();
                input.read_line(&mut chunk).expect("read");
                reader.push_line(&chunk);
            }
        }
    }
}

#[test]
fn incremental_reader_yields_two_games() {
    let input = "[Event \"A\"]\n\n1. e4 1-0\n\n[Event \"B\"]\n\n1. d4 1-0\n";
    let mut cursor = Cursor::new(input);
    let mut reader = PgnGameReader::new();
    let first = read_next(&mut reader, &mut cursor).expect("game");
    assert!(first.0.contains("Event \"A\""));
    let second = read_next(&mut reader, &mut cursor).expect("game");
    assert!(second.0.contains("Event \"B\""));
    assert!(read_next(&mut reader, &mut cursor).is_none());
}

#[test]
fn incremental_reader_offsets_and_text() {
    let input = "[Event \"A\"]\n\n1. e4 1-0\n\n[Event \"B\"]\n\n1. d4 1-0\n\n\n";
    let mut cursor = Cursor::new(input);
    let mut reader = PgnGameReader::new();
    let first = read_next(&mut reader, &mut cursor).expect("game");
    assert_eq!(first, ("[Event \"A\"]\n\n1. e4 1-0".to_string(), 0));
    assert_eq!(reader.next_offset(), 24);
    let second = read_next(&mut reader, &mut cursor).expect("game");
    assert_eq!(second.0, "[Event \"B\"]\n\n1. d4 1-0\n\n\n");
    assert_eq!(second.1, 24);
    assert_eq!(reader.next_offset(), input.len() as i64);
    assert!(read_next(&mut reader, &mut cursor).is_none());
}

#[test]
fn take_complete_game_cases() {
    let mut buf = "  \n\t".to_string();
    assert_eq!(take_complete_game(&mut buf).unwrap(), None);
    assert_eq!(buf, "");
    let mut buf = "[A]\n\n1. e4\n".to_string();
    assert_eq!(take_complete_game(&mut buf).unwrap(), None);
    assert_eq!(buf, "[A]\n\n1. e4\n");
    let mut buf = "[A]\n\n1. e4  \n\n[B]".to_string();
    assert_eq!(take_complete_game(&mut buf).unwrap(), Some("[A]\n\n1. e4".to_string()));
    assert_eq!(buf, "[B]");
    assert_eq!(find_next_game_start("é\n\n[x"), Some(4));
    assert_eq!(find_next_game_start("\n\n"), None);
}

#[test]
fn batch_games_splits_evenly() {
    let games: Vec<String> = (0..5).map(|i| format!("g{i}")).collect();
    let batches = batch_games(games, 2);
    assert_eq!(batches.len(), 3);
    assert_eq!(batches[0].len(), 2);
    assert_eq!(batches[2].len(), 1);
    assert_eq!(batches[2][0], "g4");
}

#[test]
fn batch_games_zero_size_means_one() {
    let batches = batch_games(vec![1, 2, 3], 0);
    assert_eq!(batches, vec![vec![1], vec![2], vec![3]]);
    assert!(batch_games(Vec::<u8>::new(), 4).is_empty());
}

#[test]
fn profile_accumulates_in_name_order() {
    let mut p = IngestProfile::new();
    p.record_count("parse", std::time::Duration::from_millis(5), 10);
    p.record("copy", std::time::Duration::from_millis(7));
    p.record_count("parse", std::time::Duration::from_millis(3), 2);
    let steps = p.steps();
    assert_eq!(steps.len(), 2);
    assert_eq!(steps[0], ("copy".to_string(), 7_000_000, 1));
    assert_eq!(steps[1], ("parse".to_string(), 8_000_000, 12));
    assert_eq!(p.total(), std::time::Duration::from_millis(15));
    assert_eq!(p.nanos_of("parse"), 8_000_000);
}

#[test]
fn error_message_join_and_cap() {
    let msgs = vec!["load shard".to_string(), "connection reset".to_string()];
    assert_eq!(format_error_messages(&msgs), "load shard: connection reset");
    let long = vec!["x".repeat(2500)];
    let capped = format_error_messages(&long);
    assert_eq!(capped.len(), 2000);
    assert!(capped.ends_with("..."));
    let err = anyhow::Error::msg("inner").context("outer");
    assert_eq!(gambit_core::errors::format_error(&err), Some("outer: inner".to_string()));
}

fn row(label: &str, status: &str, games: i64) -> FilesetProgressRow {
    FilesetProgressRow {
        period_label: label.to_string(),
        status: status.to_string(),
        games_loaded: games,
    }
}

#[test]
fn job_reconstruction_states() {
    assert!(job_from_fileset_rows(&[row("2023-12", "complete", 5)], 2024).is_none());
    let done = job_from_fileset_rows(
        &[row("2024-01", "complete", 5), row("2024-02", "complete", 7), row("2023-01", "failed", 1)],
        2024,
    )
    .unwrap();
    assert_eq!(done.status, "complete");
    assert_eq!(done.message, "loaded 12 games across 2 shards");
    assert_eq!((done.current_shard, done.total_shards, done.games_loaded), (2, 2, 12));
    let failed = job_from_fileset_rows(
        &[row("2024-01", "complete", 5), row("2024-02", "failed", 3), row("2024-03", "ingesting", 1)],
        2024,
    )
    .unwrap();
    assert_eq!(failed.status, "failed");
    assert_eq!(failed.message, "shard 2024-02 failed after 3 games");
    assert_eq!(failed.current_shard, 2);
    let running = job_from_fileset_rows(
        &[row("2024-01", "complete", 5), row("2024-02", "downloading", 0), row("2024-03", "pending", 0)],
        2024,
    )
    .unwrap();
    assert_eq!(running.status, "running");
    assert_eq!(running.message, "downloading shard 2024-02 (0 games in shard)");
    let resuming = job_from_fileset_rows(
        &[row("2024-01", "complete", 5), row("2024-02", "pending", 0)],
        2024,
    )
    .unwrap();
    assert_eq!(resuming.message, "1/2 shards complete · resuming…");
    assert_eq!((resuming.current_shard, resuming.total_shards), (2, 2));
}

#[test]
fn start_job_and_update() {
    let mut board = JobBoard::new();
    let id = board.start(1, 12, "test".to_string());
    assert!(id > 0);
    assert!(board.is_running());
    let mut job = board.current().unwrap();
    job.games_loaded = 100;
    board.replace_current(job);
    assert_eq!(board.active().unwrap().games_loaded, 100);
    board.complete("done".to_string());
    assert!(!board.is_running());
    assert!(board.active().is_none());
    assert_eq!(board.get(1).unwrap().message, "done");
    assert!(board.get(2).is_none());
}

#[test]
fn job_board_without_job_ignores_updates() {
    let mut board = JobBoard::new();
    board.fail("x".to_string());
    assert!(board.current().is_none());
    board.start(7, 3, "go".to_string());
    board.fail("boom".to_string());
    let j = board.get(7).unwrap();
    assert_eq!((j.status.as_str(), j.message.as_str(), j.total_shards), ("failed", "boom", 3));
}

#[test]
fn migrations_run_sql_files_in_name_order() {
    let names: Vec<String> = vec![
        "003_plies.sql".into(),
        "README.md".into(),
        "001_core.sql".into(),
        ".sql".into(),
        "002_positions.sql".into(),
        "notes.sql.bak".into(),
    ];
    assert_eq!(
        migration_order(&names),
        vec!["001_core.sql".to_string(), "002_positions.sql".into(), "003_plies.sql".into()]
    );
    assert!(is_migration_name("..sql"));
    assert!(!is_migration_name(".sql"));
    assert!(!is_migration_name("sql"));
    assert_eq!(baseline_migration(true), Some("001_core.sql".to_string()));
    assert_eq!(baseline_migration(false), None);
}
use gambit_core::migrations::{baseline_migration, is_migration_name, migration_order};

#[test]
fn incremental_reader_skips_leading_blank_lines_in_offsets() {
    let input = "\n\n[Event \"A\"]\n\n1. e4 1-0\n";
    let mut cursor = Cursor::new(input);
    let mut reader = PgnGameReader::new();
    let first = read_next(&mut reader, &mut cursor).expect("game");
    assert_eq!(first, ("[Event \"A\"]\n\n1. e4 1-0\n".to_string(), 2));
    assert!(read_next(&mut reader, &mut cursor).is_none());
    assert!(read_next(&mut reader, &mut cursor).is_none());
}

#[test]
fn download_sink_digests_what_arrived() {
    let mut sink = DownloadSink::new(Some(3));
    assert!(!sink.on_chunk(b"ab", false));
    assert!(sink.on_chunk(b"c", true));
    assert_eq!(sink.downloaded(), 3);
    let (n, d) = sink.finish("u").expect("whole");
    assert_eq!(n, 3);
    assert_eq!(d, hash_bytes(b"abc").1);
    let mut short = DownloadSink::new(Some(5));
    short.on_chunk(b"abc", false);
    assert_eq!(
        short.finish("u").unwrap_err(),
        "download incomplete for u: got 3 bytes, expected 5"
    );
}

#[test]
fn pgn_text_plain_and_compressed() {
    let text = "[Event \"A\"]\n\n1. e4 1-0\n";
    assert_eq!(pgn_text_from_bytes(text.as_bytes(), false), Some(text.to_string()));
    assert_eq!(pgn_text_from_bytes(&[0xff, 0xfe], false), None);
    let packed = zstd::encode_all(text.as_bytes(), 3).expect("compress");
    assert_eq!(pgn_text_from_bytes(&packed, true), Some(text.to_string()));
    assert_eq!(pgn_text_from_bytes(text.as_bytes(), true), None);
    assert!(has_zstd_extension("lichess_2024-01.pgn.zst"));
    assert!(!has_zstd_extension(".zst"));
    assert!(!has_zstd_extension("a.pgn"));
}

#[test]
fn profile_total_is_sum_of_recorded_durations() {
    let mut p = IngestProfile::new();
    p.record("a", std::time::Duration::from_millis(5));
    p.record_count("b", std::time::Duration::from_nanos(7), 3);
    p.record("a", std::time::Duration::from_secs(2));
    assert_eq!(p.total(), std::time::Duration::from_nanos(2_005_000_007));
    assert_eq!(p.nanos_of("a"), 2_005_000_000);
    assert_eq!(IngestProfile::new().total(), std::time::Duration::ZERO);
}

#[test]
fn year_load_tally_fails_only_when_nothing_loaded() {
    let mut t = LoadTally::new();
    t.shard_done(false);
    t.shard_done(false);
    assert_eq!(t.outcome(false), Some("all 2 shard loads failed".to_string()));
    assert_eq!(t.outcome(true), Some("all 2 parallel shard loads failed".to_string()));
    t.shard_done(true);
    assert_eq!(t.outcome(false), None);
    assert_eq!(LoadTally::new().outcome(false), None);
}
use gambit_core::download::DownloadSink;
use gambit_core::pgn_stream::{has_zstd_extension, pgn_text_from_bytes};
use gambit_core::year_load::LoadTally;

#[test]
fn import_tally_adds_batches_and_reports_progress() {
    let mut t = ImportTally::new();
    assert!(t.parsed(10, 2, 400, 390));
    assert!(t.parsed(5, 0, 100, 95));
    assert_eq!((t.parsed_ok, t.parse_errors, t.parsed_positions, t.parsed_plies), (15, 2, 500, 485));
    assert_eq!(t.written(10, 300, 290), Some(10));
    assert_eq!(t.written(5, 200, 195), Some(15));
    assert_eq!(t.written(u64::MAX, 0, 0), None);
    assert_eq!((t.games_loaded, t.positions_loaded, t.plies_loaded), (15, 500, 485));
    assert!(!t.parsed(u64::MAX, 0, 0, 0));
    assert_eq!(t.parsed_ok, 15);
}

#[test]
fn sequential_prefetch_is_the_next_fileset() {
    assert_eq!(prefetch_after(0, 3), Some(1));
    assert_eq!(prefetch_after(1, 3), Some(2));
    assert_eq!(prefetch_after(2, 3), None);
    assert_eq!(prefetch_after(0, 0), None);
}

#[test]
fn recording_touches_only_its_step() {
    let mut p = IngestProfile::new();
    p.record_count("parse", std::time::Duration::from_nanos(40), 2);
    p.record("write", std::time::Duration::from_nanos(7));
    p.record_count("parse", std::time::Duration::from_nanos(2), 3);
    assert_eq!(p.nanos_of("parse"), 42);
    assert_eq!(p.nanos_of("write"), 7);
    let steps = p.steps();
    assert_eq!(steps, vec![("parse".to_string(), 42, 5), ("write".to_string(), 7, 1)]);
}
use gambit_core::shard_import::ImportTally;
use gambit_core::year_load::prefetch_after;

#[test]
fn reader_run_gives_the_games_of_the_whole_text() {
    let input = "\n  \n[A]\n\n1. e4 *  \n\n[B]\n\n1. d4 *\n\n[C]\n\n1. c4 *\n\n";
    let mut cursor = Cursor::new(input);
    let mut reader = PgnGameReader::new();
    let mut games = Vec::new();
    while let Some((g, _)) = read_next(&mut reader, &mut cursor) {
        games.push(g);
    }
    assert_eq!(
        games,
        vec![
            "[A]\n\n1. e4 *".to_string(),
            "[B]\n\n1. d4 *".to_string(),
            "[C]\n\n1. c4 *\n\n".to_string(),
        ]
    );
    assert!(read_next(&mut reader, &mut cursor).is_none());
    let mut blank = Cursor::new(" \n\n\t\n");
    let mut r2 = PgnGameReader::new();
    assert!(read_next(&mut r2, &mut blank).is_none());
}

#[test]
fn parse_outcomes_are_counted_and_games_kept_in_order() {
    let outcomes: Vec<Result<(&str, u64, u64), String>> = vec![
        Ok(("a", 10, 9)),
        Err("bad".to_string()),
        Ok(("b", 5, 4)),
        Err("worse".to_string()),
        Ok(("c", u64::MAX, 1)),
    ];
    let (games, counts) = tally_parse_outcomes(outcomes);
    assert_eq!(games, vec!["a", "b", "c"]);
    assert_eq!((counts.games_ok, counts.games_err), (3, 2));
    assert_eq!(counts.positions, 14);
    assert_eq!(counts.plies, 14);
}

#[test]
fn batches_concatenate_back_with_full_sizes() {
    let items: Vec<u32> = (0..23).collect();
    let batches = batch_games(items.clone(), 5);
    assert_eq!(batches.iter().map(|b| b.len()).collect::<Vec<_>>(), vec![5, 5, 5, 5, 3]);
    assert_eq!(batches.concat(), items);
    assert!(batch_games(Vec::<u32>::new(), 5).is_empty());
    assert_eq!(batch_games(vec![1, 2], 0), vec![vec![1], vec![2]]);
}

#[test]
fn progress_tokens_read_back_the_formatted_amounts() {
    let gib: u64 = 1024 * 1024 * 1024;
    let msg = format_download_progress("2024-01", 3 * gib / 2, Some(30 * gib));
    assert_eq!(
        gambit_core::ui::download_progress_tokens(&msg),
        Some(("1.5".to_string(), "30.0".to_string()))
    );
    let no_total = format_download_progress("2024-01", gib, None);
    assert_eq!(gambit_core::ui::download_progress_tokens(&no_total), None);
}
use gambit_core::shard_import::tally_parse_outcomes;
