//! The evaluation annotation scanner and the downloader's decision logic.

use pgn_to_numpy::download::{classify_response, DownloadAction, PartialRangeIter, RangeError};
use pgn_to_numpy::eval::{find_first_bracket, parse_checkmate, parse_eval_comment, RawEval};
use pgn_to_numpy::replay::{parse_time_control, parse_u32};

#[test]
fn mate_for_black_parses_to_negative_infinity_marker() {
    // `[%eval #-3]` stands for a forced mate by black: the negative
    // saturating extreme, squashing to a value indistinguishable from zero.
    assert_eq!(parse_eval_comment(b"[%eval #-3]"), Some(RawEval::MateBlack));
}

#[test]
fn mate_for_white_parses_to_positive_infinity_marker() {
    assert_eq!(parse_eval_comment(b"[%eval #5]"), Some(RawEval::MateWhite));
    assert_eq!(parse_eval_comment(b"[%eval #12]"), Some(RawEval::MateWhite));
}

#[test]
fn numeric_eval_parses_exactly() {
    match parse_eval_comment(b"[%eval 1.25]") {
        Some(RawEval::Numeric {
            negative,
            int_digits,
            frac_digits,
        }) => {
            assert!(!negative);
            assert_eq!(int_digits.as_slice(), &b"1"[..]);
            assert_eq!(frac_digits.as_slice(), &b"25"[..]);
        }
        other => panic!("expected a numeric evaluation, got {:?}", other),
    }
    match parse_eval_comment(b"[%eval -0.01] [%clk 0:00:30]") {
        Some(RawEval::Numeric {
            negative,
            int_digits,
            frac_digits,
        }) => {
            assert!(negative);
            assert_eq!(int_digits.as_slice(), &b"0"[..]);
            assert_eq!(frac_digits.as_slice(), &b"01"[..]);
        }
        other => panic!("expected a numeric evaluation, got {:?}", other),
    }
    match parse_eval_comment(b"[%eval 31]") {
        Some(RawEval::Numeric {
            negative,
            int_digits,
            frac_digits,
        }) => {
            assert!(!negative);
            assert_eq!(int_digits.as_slice(), &b"31"[..]);
            assert_eq!(frac_digits.as_slice(), &b""[..]);
        }
        other => panic!("expected a numeric evaluation, got {:?}", other),
    }
}

#[test]
fn malformed_annotations_are_refused() {
    assert_eq!(parse_eval_comment(b"[%eval ]"), None);
    assert_eq!(parse_eval_comment(b"[%eval x]"), None);
    assert_eq!(parse_eval_comment(b"[%clk 0:00:30]"), None);
    assert_eq!(parse_eval_comment(b"[%eval -]"), None);
    assert_eq!(parse_eval_comment(b""), None);
}

#[test]
fn exponent_forms_are_refused() {
    // The scanner reads plain decimals only; an exponent would otherwise be
    // silently misread as its mantissa.
    assert_eq!(parse_eval_comment(b"[%eval 1e5]"), None);
    assert_eq!(parse_eval_comment(b"[%eval 1.5E3]"), None);
    assert_eq!(parse_eval_comment(b"[%eval 1.25]").is_some(), true);
}

#[test]
fn checkmate_marker_sign() {
    assert_eq!(parse_checkmate(b"#-3"), Some(RawEval::MateBlack));
    assert_eq!(parse_checkmate(b"#3"), Some(RawEval::MateWhite));
    assert_eq!(parse_checkmate(b"#"), Some(RawEval::MateWhite));
    assert_eq!(parse_checkmate(b"3"), None);
}

#[test]
fn first_bracket_is_found() {
    assert_eq!(find_first_bracket(b"abc [x] [y]"), Some(4));
    assert_eq!(find_first_bracket(b"[x]"), Some(0));
    assert_eq!(find_first_bracket(b"no bracket"), None);
}

#[test]
fn u32_parsing_matches_the_standard_grammar() {
    assert_eq!(parse_u32(b"600"), Some(600));
    assert_eq!(parse_u32(b"+5"), Some(5));
    assert_eq!(parse_u32(b"0"), Some(0));
    assert_eq!(parse_u32(b"4294967295"), Some(u32::MAX));
    assert_eq!(parse_u32(b"4294967296"), None);
    assert_eq!(parse_u32(b"99999999999999999999"), None);
    assert_eq!(parse_u32(b""), None);
    assert_eq!(parse_u32(b"+"), None);
    assert_eq!(parse_u32(b"12a"), None);
    assert_eq!(parse_u32(b"-3"), None);
}

#[test]
fn time_control_heuristic() {
    // 600 seconds base, 5 seconds increment: 600 + 30 * 5.
    assert_eq!(parse_time_control(b"600+5"), Some(750));
    assert_eq!(parse_time_control(b"60+0"), Some(60));
    assert_eq!(parse_time_control(b"600"), None);
    assert_eq!(parse_time_control(b"600+5+3"), None);
    assert_eq!(parse_time_control(b"600+"), None);
    assert_eq!(parse_time_control(b"+600+5"), None);
}

#[test]
fn byte_ranges_cover_the_span() {
    let mut it = PartialRangeIter::new(0, 249, 100).expect("a positive buffer size");
    assert_eq!(it.next(), Some((0, 99)));
    assert_eq!(it.next(), Some((100, 199)));
    assert_eq!(it.next(), Some((200, 249)));
    assert_eq!(it.next(), None);
    assert_eq!(it.next(), None);
}

#[test]
fn zero_buffer_size_is_refused() {
    match PartialRangeIter::new(0, 10, 0) {
        Err(e) => assert_eq!(e, RangeError::ZeroBufferSize),
        Ok(_) => panic!("a zero buffer size must be refused"),
    }
}

#[test]
fn response_classification() {
    assert_eq!(
        classify_response(429, Some(7)),
        DownloadAction::RetryAfter(7)
    );
    assert_eq!(classify_response(429, None), DownloadAction::Fatal);
    assert_eq!(classify_response(200, None), DownloadAction::Proceed);
    assert_eq!(classify_response(206, Some(3)), DownloadAction::Proceed);
    assert_eq!(classify_response(404, None), DownloadAction::Fatal);
    assert_eq!(classify_response(500, None), DownloadAction::Fatal);
}
