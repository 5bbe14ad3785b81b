//! The game filter and replayer, end to end against the real chess engine,
//! and the evaluation collector.

use pgn_to_numpy::board::chess_to_input;
use pgn_to_numpy::config::{Config, PipelineError};
use pgn_to_numpy::eval::RawEval;
use pgn_to_numpy::moves::try_move_to_output;
use pgn_to_numpy::puzzle::puzzle_to_boards;
use pgn_to_numpy::replay::{EvalReplayer, GameReplayer};
use shakmaty::san::San;

fn test_config() -> Config {
    Config {
        min_elo: 1500,
        min_time: 300,
        only_checkmates: false,
        only_openings: false,
        only_middle_game: false,
        only_endgame: false,
        lenient: false,
        dedup: true,
        dry_run: false,
        total: 2000,
        boards_per_file: 1000,
    }
}

fn san_of(token: &str) -> San {
    San::from_ascii(token.as_bytes()).expect("a valid token")
}

#[test]
fn considerable_game_yields_all_records() {
    // One game, Elo 2000 and time control 600+5, moves e4 e5 Nf3, every
    // filter off: three records come out.
    let mut r = GameReplayer::new(test_config());
    r.begin_game();
    r.header(b"WhiteElo", b"2000").unwrap();
    r.header(b"TimeControl", b"600+5").unwrap();
    assert!(!r.end_headers());
    r.san(&san_of("e4")).unwrap();
    r.san(&san_of("e5")).unwrap();
    r.san(&san_of("Nf3")).unwrap();
    let pairs = r.end_game().expect("a considerable game yields its pairs");
    assert_eq!(pairs.len(), 3);

    // The first record is from the starting position: white to move.
    let input = chess_to_input(&pairs[0].0);
    assert!(input[0]);

    // Its label decodes to the squares of e2 -> e4: 12 and 28.
    let code = try_move_to_output(&pairs[0].1).expect("an encodable move");
    assert_eq!(code, 12 * 64 + 28);

    // The second record is from the position after e4: black to move.
    let input = chess_to_input(&pairs[1].0);
    assert!(!input[0]);
}

#[test]
fn low_rating_filters_whole_game() {
    // The identical game with Elo 800 yields no records at all, and the
    // body is skipped at the header stage.
    let mut r = GameReplayer::new(test_config());
    r.begin_game();
    r.header(b"WhiteElo", b"800").unwrap();
    r.header(b"TimeControl", b"600+5").unwrap();
    assert!(r.end_headers());
    assert!(r.end_game().is_none());
}

#[test]
fn short_time_control_filters_game() {
    let mut r = GameReplayer::new(test_config());
    r.begin_game();
    // 60 + 30 * 1 = 90, below the threshold of 300.
    r.header(b"TimeControl", b"60+1").unwrap();
    assert!(r.end_headers());
}

#[test]
fn placeholder_header_is_ignored() {
    let mut r = GameReplayer::new(test_config());
    r.begin_game();
    r.header(b"WhiteElo", b"-").unwrap();
    r.header(b"TimeControl", b"?").unwrap();
    assert!(!r.end_headers());
}

#[test]
fn black_rating_also_counts() {
    let mut r = GameReplayer::new(test_config());
    r.begin_game();
    r.header(b"BlackElo", b"1200").unwrap();
    assert!(r.end_headers());
}

#[test]
fn unrelated_headers_are_ignored() {
    let mut r = GameReplayer::new(test_config());
    r.begin_game();
    r.header(b"Event", b"Rated Blitz game").unwrap();
    r.header(b"Opening", b"King's Pawn").unwrap();
    assert!(!r.end_headers());
}

#[test]
fn bad_header_value_is_fatal() {
    let mut r = GameReplayer::new(test_config());
    r.begin_game();
    assert_eq!(
        r.header(b"WhiteElo", b"unrated"),
        Err(PipelineError::BadHeaderValue)
    );
    assert_eq!(
        r.header(b"TimeControl", b"600"),
        Err(PipelineError::BadHeaderValue)
    );
    assert_eq!(
        r.header(b"TimeControl", b"600+5+3"),
        Err(PipelineError::BadHeaderValue)
    );
}

#[test]
fn indecisive_result_filters_when_only_checkmates() {
    let mut cfg = test_config();
    cfg.only_checkmates = true;
    let mut r = GameReplayer::new(cfg);
    r.begin_game();
    r.header(b"Result", b"1/2-1/2").unwrap();
    assert!(r.end_headers());
}

#[test]
fn game_without_checkmate_is_discarded() {
    let mut cfg = test_config();
    cfg.only_checkmates = true;
    let mut r = GameReplayer::new(cfg);
    r.begin_game();
    r.header(b"Result", b"1-0").unwrap();
    r.san(&san_of("e4")).unwrap();
    r.san(&san_of("e5")).unwrap();
    assert!(r.end_game().is_none());
}

#[test]
fn checkmated_game_is_kept() {
    // The fastest checkmate: 1. f3 e5 2. g4 Qh4#.
    let mut cfg = test_config();
    cfg.only_checkmates = true;
    let mut r = GameReplayer::new(cfg);
    r.begin_game();
    r.header(b"Result", b"0-1").unwrap();
    for token in ["f3", "e5", "g4", "Qh4#"] {
        r.san(&san_of(token)).unwrap();
    }
    let pairs = r.end_game().expect("a checkmating game is kept");
    assert_eq!(pairs.len(), 4);
}

#[test]
fn opening_filter_records_first_plies_only() {
    let mut cfg = test_config();
    cfg.only_openings = true;
    let mut r = GameReplayer::new(cfg);
    r.begin_game();
    // Shuffle knights back and forth for twenty plies.
    for _ in 0..5 {
        for token in ["Nf3", "Nf6", "Ng1", "Ng8"] {
            r.san(&san_of(token)).unwrap();
        }
    }
    let pairs = r.end_game().expect("the game itself is kept");
    assert_eq!(pairs.len(), 15);
}

#[test]
fn endgame_filter_needs_material() {
    // The starting position has 78 points of material, far above the
    // threshold of 28, so with the endgame filter every move is recorded.
    let mut cfg = test_config();
    cfg.only_endgame = true;
    let mut r = GameReplayer::new(cfg);
    r.begin_game();
    r.san(&san_of("e4")).unwrap();
    r.san(&san_of("e5")).unwrap();
    let pairs = r.end_game().expect("kept");
    assert_eq!(pairs.len(), 2);
}

#[test]
fn middle_game_filter_stops_late_heavy_positions() {
    // With the middle-game filter, a move is recorded while the game is
    // young or once material has fallen below the threshold.  Shuffling
    // knights keeps all 78 points on the board, so only the first fourteen
    // plies pass.
    let mut cfg = test_config();
    cfg.only_middle_game = true;
    let mut r = GameReplayer::new(cfg);
    r.begin_game();
    for _ in 0..5 {
        for token in ["Nf3", "Nf6", "Ng1", "Ng8"] {
            r.san(&san_of(token)).unwrap();
        }
    }
    let pairs = r.end_game().expect("the game itself is kept");
    assert_eq!(pairs.len(), 14);
}

#[test]
fn eval_comments_are_collected() {
    let mut r = EvalReplayer::new();
    r.begin_game();
    r.san(&san_of("e4")).unwrap();
    r.comment(b"[%eval 0.33] [%clk 0:10:00]").unwrap();
    r.san(&san_of("e5")).unwrap();
    r.comment(b"[%eval -0.15]").unwrap();
    let evals = r.end_game();
    assert_eq!(evals.len(), 2);
    match &evals[0].1 {
        RawEval::Numeric {
            negative,
            int_digits,
            frac_digits,
        } => {
            assert!(!negative);
            assert_eq!(int_digits.as_slice(), &b"0"[..]);
            assert_eq!(frac_digits.as_slice(), &b"33"[..]);
        }
        _ => panic!("expected a numeric evaluation"),
    }
    // The first evaluation is attached to the position after e4: black to
    // move.
    assert!(!evals[0].0.white_to_move);
}

#[test]
fn game_without_evals_yields_nothing() {
    let mut r = EvalReplayer::new();
    r.begin_game();
    r.san(&san_of("e4")).unwrap();
    r.comment(b"[%eval 0.33]").unwrap();
    r.san(&san_of("e5")).unwrap();
    // A comment with no evaluation marks the whole game as carrying none.
    r.comment(b"just chatter, no annotation").unwrap();
    assert_eq!(r.end_game().len(), 0);
}

#[test]
fn non_eval_annotation_also_disqualifies() {
    let mut r = EvalReplayer::new();
    r.begin_game();
    r.san(&san_of("e4")).unwrap();
    r.comment(b"[%clk 0:10:00]").unwrap();
    assert_eq!(r.end_game().len(), 0);
}

#[test]
fn malformed_eval_is_fatal() {
    let mut r = EvalReplayer::new();
    r.begin_game();
    r.san(&san_of("e4")).unwrap();
    assert_eq!(
        r.comment(b"[%eval oops]"),
        Err(PipelineError::BadEvalComment)
    );
}

#[test]
fn puzzle_replay_records_each_move() {
    let moves: Vec<shakmaty::uci::UciMove> = ["e2e4", "e7e5", "g1f3"]
        .iter()
        .map(|s| s.parse().expect("a valid move"))
        .collect();
    let pairs = puzzle_to_boards(shakmaty::Chess::default(), &moves).expect("all moves resolve");
    assert_eq!(pairs.len(), 3);
    assert!(pairs[0].0.white_to_move);
    let code = try_move_to_output(&pairs[0].1).expect("encodable");
    assert_eq!(code, 12 * 64 + 28);
}

#[test]
fn puzzle_with_impossible_move_is_fatal() {
    let moves: Vec<shakmaty::uci::UciMove> = vec!["e2e5".parse().expect("a valid token")];
    match puzzle_to_boards(shakmaty::Chess::default(), &moves) {
        Err(e) => assert_eq!(e, PipelineError::UnresolvableMove),
        Ok(_) => panic!("an impossible move must be fatal"),
    }
}

#[test]
fn lenient_mode_skips_unresolvable_move() {
    let mut cfg = test_config();
    cfg.lenient = true;
    let mut r = GameReplayer::new(cfg);
    r.begin_game();
    // Qh5 is impossible from the starting position; lenient mode skips it.
    r.san(&san_of("Qh5")).unwrap();
    r.san(&san_of("e4")).unwrap();
    let pairs = r.end_game().expect("kept");
    assert_eq!(pairs.len(), 1);
}

#[test]
fn strict_mode_fails_on_unresolvable_move() {
    let mut r = GameReplayer::new(test_config());
    r.begin_game();
    assert_eq!(
        r.san(&san_of("Qh5")),
        Err(PipelineError::UnresolvableMove)
    );
}
