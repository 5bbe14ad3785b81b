//! Position and move encoding: round trips and castling canonicalization.

use pgn_to_numpy::board::{chess_to_input, decode_input, material_count, Position, INPUT_LENGTH};
use pgn_to_numpy::chessio::read_position;
use pgn_to_numpy::moves::{decode_move, move_to_output, try_move_to_output, MoveRecord};

fn start_position() -> Position {
    read_position(&shakmaty::Chess::default())
}

#[test]
fn encode_start_position_layout() {
    let p = start_position();
    let v = chess_to_input(&p);
    assert_eq!(v.len(), INPUT_LENGTH);
    assert_eq!(v.len(), 833);
    // White to move.
    assert!(v[0]);
    // Square a1 holds a white rook (code 4): bit 4 of its block is set.
    assert!(v[1 + 4]);
    for c in 0..13 {
        assert_eq!(v[1 + c], c == 4);
    }
    // Square e2 (index 12) holds a white pawn (code 1).
    assert!(v[1 + 12 * 13 + 1]);
    // Square e4 (index 28) is empty (code 0).
    assert!(v[1 + 28 * 13]);
    // Square e8 (index 60) holds the black king (code 12).
    assert!(v[1 + 60 * 13 + 12]);
}

#[test]
fn encode_decode_round_trip() {
    let p = start_position();
    let v = chess_to_input(&p);
    let q = decode_input(&v).expect("a fresh encoding must decode");
    assert_eq!(q.white_to_move, p.white_to_move);
    assert_eq!(q.squares, p.squares);
}

#[test]
fn encode_decode_round_trip_black_to_move() {
    let mut squares = vec![0u8; 64];
    squares[0] = 6; // a white king on a1
    squares[63] = 12; // a black king on h8
    squares[17] = 7; // a black pawn on b3
    let p = Position { white_to_move: false, squares };
    let v = chess_to_input(&p);
    let q = decode_input(&v).expect("a fresh encoding must decode");
    assert!(!q.white_to_move);
    assert_eq!(q.squares, p.squares);
}

#[test]
fn decode_rejects_wrong_length() {
    assert!(decode_input(&vec![false; 832]).is_none());
    assert!(decode_input(&vec![false; 834]).is_none());
}

#[test]
fn decode_rejects_double_bit() {
    let p = start_position();
    let mut v = chess_to_input(&p);
    // A second bit in the block of square 28.
    v[1 + 28 * 13 + 5] = true;
    assert!(decode_input(&v).is_none());
}

#[test]
fn decode_rejects_empty_block() {
    let p = start_position();
    let mut v = chess_to_input(&p);
    // Clear the only set bit of square 28's block.
    v[1 + 28 * 13] = false;
    assert!(decode_input(&v).is_none());
}

#[test]
fn move_code_round_trip() {
    // e2 -> e4 is square 12 to square 28.
    let m = MoveRecord::Normal { from: 12, to: 28 };
    let code = move_to_output(&m);
    assert_eq!(code, 12 * 64 + 28);
    assert_eq!(decode_move(code), (12, 28));

    let ep = MoveRecord::EnPassant { from: 36, to: 43 };
    let code = move_to_output(&ep);
    assert_eq!(decode_move(code), (36, 43));
}

#[test]
fn castle_encodes_king_hop_all_corners() {
    // White kingside: king e1 (4), rook h1 (7) -> king lands on g1 (6).
    let code = move_to_output(&MoveRecord::Castle { king: 4, rook: 7 });
    assert_eq!(decode_move(code), (4, 6));
    assert_ne!(decode_move(code).1, 7);

    // White queenside: king e1 (4), rook a1 (0) -> king lands on c1 (2).
    let code = move_to_output(&MoveRecord::Castle { king: 4, rook: 0 });
    assert_eq!(decode_move(code), (4, 2));
    assert_ne!(decode_move(code).1, 0);

    // Black kingside: king e8 (60), rook h8 (63) -> king lands on g8 (62).
    let code = move_to_output(&MoveRecord::Castle { king: 60, rook: 63 });
    assert_eq!(decode_move(code), (60, 62));
    assert_ne!(decode_move(code).1, 63);

    // Black queenside: king e8 (60), rook a8 (56) -> king lands on c8 (58).
    let code = move_to_output(&MoveRecord::Castle { king: 60, rook: 56 });
    assert_eq!(decode_move(code), (60, 58));
    assert_ne!(decode_move(code).1, 56);
}

#[test]
fn put_moves_are_rejected() {
    assert!(try_move_to_output(&MoveRecord::Put { to: 12 }).is_none());
}

#[test]
fn out_of_range_moves_are_rejected() {
    assert!(try_move_to_output(&MoveRecord::Normal { from: 64, to: 0 }).is_none());
    assert!(try_move_to_output(&MoveRecord::Castle { king: 1, rook: 0 }).is_none());
}

#[test]
fn material_of_start_position() {
    // Each side: two knights and two bishops at 3, two rooks at 5, one
    // queen at 9, eight pawns at 1: 39 points, 78 in all.
    let p = start_position();
    assert_eq!(material_count(&p), 78);
}

#[test]
fn material_of_bare_kings() {
    let mut squares = vec![0u8; 64];
    squares[4] = 6;
    squares[60] = 12;
    let p = Position { white_to_move: true, squares };
    assert_eq!(material_count(&p), 0);
}
