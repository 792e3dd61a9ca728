use gambit_core::cursor::{decode_cursor, encode_cursor};
use gambit_core::decimal::parse_i64;
use gambit_core::fen::{algebraic_to_index, fen_to_squares, index_to_algebraic, is_white_piece, king_square};
use gambit_core::format::format_num;
use gambit_core::grpc_web::{decode_frames, encode_frame, parse_trailer_status, unary_payload};
use gambit_core::uci::{castling_rook_move, matching_uci, parse_uci, promotion_options};
use gambit_core::ui::{
    filesets_query_name, idx_to_visual, move_class_css, move_class_label, replay_error_message,
    shard_status_label, BoardOrientation, ReplayError,
};
use gambit_core::api_types::SourceListItem;

#[test]
fn startpos_has_pieces() {
    let fen = "rnbqkbnr/pppppppp/8/8/8/8/PPPPPPPP/RNBQKBNR w KQkq - 0 1";
    let sq = fen_to_squares(fen);
    assert_eq!(sq[0], Some('R'));
    assert_eq!(sq[4], Some('K'));
    assert_eq!(sq[56], Some('r'));
}

#[test]
fn fen_partial_and_odd_placements() {
    let sq = fen_to_squares("  4k3/8/8/8/8/8/8/4K2R w K - 0 1");
    assert_eq!(sq[4], Some('K'));
    assert_eq!(sq[7], Some('R'));
    assert_eq!(sq[60], Some('k'));
    assert_eq!(sq.iter().filter(|c| c.is_some()).count(), 3);
    let sq = fen_to_squares("8/8/8/8/8/8/8/9KQ/r7");
    assert!(sq.iter().all(|c| c.is_none()));
    let sq = fen_to_squares("");
    assert!(sq.iter().all(|c| c.is_none()));
    let sq = fen_to_squares("k");
    assert_eq!(sq[56], Some('k'));
}

#[test]
fn king_squares_and_names() {
    let fen = "rnbqkbnr/pppppppp/8/8/4P3/8/PPPP1PPP/RNBQKBNR b KQkq e3 0 1";
    assert_eq!(king_square(fen, "white"), Some("e1".to_string()));
    assert_eq!(king_square(fen, "black"), Some("e8".to_string()));
    assert_eq!(king_square("8/8/8/8/8/8/8/8", "white"), None);
    assert_eq!(index_to_algebraic(0), "a1");
    assert_eq!(index_to_algebraic(63), "h8");
    assert_eq!(algebraic_to_index("e4"), Some(28));
    assert_eq!(algebraic_to_index("H8"), Some(63));
    assert_eq!(algebraic_to_index("i1"), None);
    assert_eq!(algebraic_to_index("e9"), None);
    assert_eq!(algebraic_to_index("e44"), None);
    assert!(is_white_piece('Q'));
    assert!(!is_white_piece('q'));
    for i in 0..64usize {
        assert_eq!(algebraic_to_index(&index_to_algebraic(i)), Some(i));
    }
}

#[test]
fn uci_parsing() {
    let m = parse_uci("e7e8q").unwrap();
    assert_eq!((m.from.as_str(), m.to.as_str(), m.promotion), ("e7", "e8", Some('q')));
    let m = parse_uci("e2e4").unwrap();
    assert_eq!(m.promotion, None);
    assert!(parse_uci("e2e").is_none());
    assert_eq!(
        castling_rook_move("e1", "g1"),
        Some(("h1".to_string(), "f1".to_string()))
    );
    assert_eq!(
        castling_rook_move("e8", "c8"),
        Some(("a8".to_string(), "d8".to_string()))
    );
    assert_eq!(castling_rook_move("e1", "e2"), None);
}

#[test]
fn promotion_and_matching() {
    let legal: Vec<String> = ["e7e8q", "e7e8r", "e7e8b", "e7e8n", "e2e4", "g1f3"]
        .iter()
        .map(|s| s.to_string())
        .collect();
    assert_eq!(promotion_options(&legal, "e7", "e8"), vec!['q', 'r', 'b', 'n']);
    assert!(promotion_options(&legal, "e2", "e4").is_empty());
    assert_eq!(matching_uci(&legal, "e2", "e4", None), Some("e2e4".to_string()));
    assert_eq!(matching_uci(&legal, "e7", "e8", Some('n')), Some("e7e8n".to_string()));
    assert_eq!(matching_uci(&legal, "e7", "e8", Some('k')), None);
    assert_eq!(matching_uci(&legal, "e7", "e8", None), Some("e7e8q".to_string()));
    assert_eq!(matching_uci(&legal, "a2", "a4", None), None);
}

#[test]
fn format_num_commas() {
    assert_eq!(format_num(1_234_567), "1,234,567");
    assert_eq!(format_num(0), "0");
}

#[test]
fn format_num_edges() {
    assert_eq!(format_num(-1_000), "-1,000");
    assert_eq!(format_num(999), "999");
    assert_eq!(format_num(i64::MAX), "9,223,372,036,854,775,807");
    assert_eq!(format_num(-12), "-12");
}

#[test]
fn grpc_frames_round_trip() {
    let frame = encode_frame(&[1, 2, 3]);
    assert_eq!(frame, vec![0, 0, 0, 0, 3, 1, 2, 3]);
    let mut body = frame.clone();
    body.extend_from_slice(&[0x80, 0, 0, 0, 2, b'o', b'k', 9]);
    let frames = decode_frames(&body).unwrap();
    assert_eq!(frames, vec![(0u8, vec![1, 2, 3]), (0x80u8, b"ok".to_vec())]);
    assert_eq!(decode_frames(&[0, 0, 0, 0, 5, 1]).unwrap_err(), "truncated grpc-web frame");
    assert_eq!(decode_frames(&[]).unwrap(), vec![]);
}

#[test]
fn grpc_trailers_and_payload() {
    assert_eq!(
        parse_trailer_status(b"grpc-status: 5\r\ngrpc-message: not found\r\n"),
        Some("not found".to_string())
    );
    assert_eq!(parse_trailer_status(b"grpc-status: 0\r\n"), None);
    assert_eq!(parse_trailer_status(b"grpc-status:13\r\n"), Some("gRPC status 13".to_string()));
    let mut ok = encode_frame(b"msg");
    ok.extend_from_slice(&[0x80, 0, 0, 0, 15]);
    ok.extend_from_slice(b"grpc-status: 0\r");
    assert_eq!(unary_payload(&ok).unwrap(), b"msg".to_vec());
    let mut bad = vec![0x80, 0, 0, 0, 16];
    bad.extend_from_slice(b"grpc-status: 14\r");
    assert_eq!(unary_payload(&bad).unwrap_err(), "gRPC status 14");
    assert_eq!(unary_payload(&[]).unwrap_err(), "empty grpc-web response");
}

#[test]
fn cursor_round_trip() {
    let c = encode_cursor(Some("2024.01.02"), 42);
    assert_eq!(c, "2024.01.02|42");
    assert_eq!(decode_cursor(&c), Some((Some("2024.01.02".to_string()), 42)));
    assert_eq!(encode_cursor(None, -7), "|-7");
    assert_eq!(decode_cursor("|-7"), Some((None, -7)));
    assert_eq!(decode_cursor("a|b|9"), Some((Some("a|b".to_string()), 9)));
    assert_eq!(decode_cursor("no-bar"), None);
    assert_eq!(decode_cursor("x|"), None);
    assert_eq!(decode_cursor("x|99999999999999999999"), None);
}

#[test]
fn i64_parsing_matches_std() {
    for s in ["0", "-0", "+5", "-9223372036854775808", "9223372036854775807", "9223372036854775808", "", "-", "+", "12a", "007"] {
        let chars: Vec<char> = s.chars().collect();
        assert_eq!(parse_i64(&chars), s.parse::<i64>().ok(), "input {s:?}");
    }
}

#[test]
fn labels() {
    assert_eq!(shard_status_label("complete"), "Done");
    assert_eq!(shard_status_label("downloading"), "Downloading");
    assert_eq!(shard_status_label("other"), "Pending");
    assert_eq!(move_class_label("blunder"), "Blunder");
    assert_eq!(move_class_label("x"), "");
    assert_eq!(move_class_css("good"), "move-good");
    assert_eq!(move_class_css(""), "");
}

#[test]
fn replay_messages_and_board() {
    assert_eq!(
        replay_error_message(&ReplayError::InvalidFen("bad".to_string())),
        "Invalid start FEN: bad"
    );
    assert_eq!(
        replay_error_message(&ReplayError::InvalidMove { ply: 12, uci: "e2e5".to_string() }),
        "Invalid move at ply 12: e2e5"
    );
    assert!(BoardOrientation::WhiteBottom.flip() == BoardOrientation::BlackBottom);
    assert!(BoardOrientation::WhiteBottom.flip().flip() == BoardOrientation::WhiteBottom);
    assert!(BoardOrientation::default().white_bottom());
    assert_eq!(idx_to_visual(0, true), (7, 0));
    assert_eq!(idx_to_visual(0, false), (0, 7));
    assert_eq!(idx_to_visual(63, true), (0, 7));
}

#[test]
fn fileset_query_name_prefers_selected_source() {
    let sources = vec![
        SourceListItem { id: 1, name: "lichess".to_string(), description: None },
        SourceListItem { id: 2, name: "twic".to_string(), description: None },
    ];
    assert_eq!(filesets_query_name(Some(2), &sources, "form"), "twic");
    assert_eq!(filesets_query_name(Some(3), &sources, "form"), "form");
    assert_eq!(filesets_query_name(None, &sources, "form"), "form");
}

#[test]
fn chosen_drag_move_is_always_legal() {
    let legal: Vec<String> = vec!["e7e8q".into(), "e7e8n".into(), "e7d8q".into(), "g1f3".into()];
    for (from, to, promo) in [
        ("e7", "e8", None),
        ("e7", "e8", Some('n')),
        ("e7", "e8", Some('b')),
        ("g1", "f3", None),
        ("a2", "a4", None),
    ] {
        if let Some(m) = matching_uci(&legal, from, to, promo) {
            assert!(legal.contains(&m));
            assert!(m.starts_with(&format!("{from}{to}")));
        }
    }
    assert_eq!(matching_uci(&legal, "e7", "e8", Some('b')), None);
    assert_eq!(matching_uci(&legal, "e7", "e8", Some('n')), Some("e7e8n".to_string()));
}

#[test]
fn frame_bodies_decode_to_their_frames() {
    let a = vec![1u8, 2, 3];
    let b: Vec<u8> = Vec::new();
    let c = vec![9u8; 300];
    let mut body = encode_frame(&a);
    body.extend(encode_frame(&b));
    body.extend(encode_frame(&c));
    let expected = vec![(0u8, a.clone()), (0u8, b.clone()), (0u8, c.clone())];
    assert_eq!(decode_frames(&body).unwrap(), expected);
    for extra in 1..5 {
        let mut longer = body.clone();
        longer.extend(vec![7u8; extra]);
        assert_eq!(decode_frames(&longer).unwrap(), expected);
    }
    let mut cut = body.clone();
    cut.pop();
    assert_eq!(decode_frames(&cut).unwrap_err(), "truncated grpc-web frame");
}
