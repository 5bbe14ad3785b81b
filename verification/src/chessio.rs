//! The boundary to the chess rules engine.  The library does not implement
//! chess itself: resolving a move token against a position, applying a move,
//! and deciding checkmate are shakmaty's work, reached through the trusted
//! items here.  A board's contents and side to move are named by the
//! uninterpreted functions `chess_squares` and `chess_turn_white`, and
//! `read_position` copies them into the library's own `Position`.

use crate::board::Position;
use crate::board::start_square_code;
use crate::moves::MoveRecord;
use crate::moves::rec_in_range;
use vstd::prelude::*;

verus! {

#[verifier::external_type_specification]
#[verifier::external_body]
pub struct ExChess(shakmaty::Chess);

#[verifier::external_type_specification]
#[verifier::external_body]
pub struct ExSan(shakmaty::san::San);

#[verifier::external_type_specification]
#[verifier::external_body]
pub struct ExUciMove(shakmaty::uci::UciMove);

#[verifier::external_type_specification]
#[verifier::external_body]
pub struct ExMove(shakmaty::Move);

/// The piece codes a board holds, square by square in a1..h8 order, in the
/// same encoding as `Position::squares`.
pub uninterp spec fn chess_squares(c: shakmaty::Chess) -> Seq<u8>;

/// Whether white is to move on this board.
pub uninterp spec fn chess_turn_white(c: shakmaty::Chess) -> bool;

/// What resolving one SAN token against one board yields, and the board it
/// leaves behind.  Resolution and application are deterministic functions
/// of the board and the token alone, so the outcome has a name: `None` when
/// the token does not resolve; otherwise the resolved move's record and the
/// piece codes and side to move of the board after the move.
pub uninterp spec fn san_step(c: shakmaty::Chess, s: shakmaty::san::San) -> Option<
    (MoveRecord, Seq<u8>, bool),
>;

/// What resolving one UCI token against one board yields, and the board it
/// leaves behind; the UCI analog of `san_step`.
pub uninterp spec fn uci_step(c: shakmaty::Chess, u: shakmaty::uci::UciMove) -> Option<
    (MoveRecord, Seq<u8>, bool),
>;

/// Whether the side to move on this board is checkmated.  Checkmate is a
/// function of the full board state alone, so it has a name; what its value
/// is on a given board is chess law, outside this library.
pub uninterp spec fn chess_mate(c: shakmaty::Chess) -> bool;

/// Whether the library's `Position` holds exactly these piece codes and
/// this side to move.
pub open spec fn position_has(p: Position, squares: Seq<u8>, white: bool) -> bool {
    &&& p.white_to_move == white
    &&& forall|i: int| 0 <= i < 64 ==> p.squares@[i] == squares[i]
}

/// Whether the library's `Position` is a faithful copy of the board.
pub open spec fn position_matches(p: Position, c: shakmaty::Chess) -> bool {
    position_has(p, chess_squares(c), chess_turn_white(c))
}

/// Relies on shakmaty's `Chess::default`: the standard chess starting
/// position, with white to move.
#[verifier::external_body]
pub fn chess_start() -> (c: shakmaty::Chess)
    ensures
        chess_turn_white(c),
        forall|i: int| 0 <= i < 64 ==> #[trigger] chess_squares(c)[i] == start_square_code(i),
{
    shakmaty::Chess::default()
}

/// Relies on shakmaty's `Board::piece_at`: the piece on one square, handed
/// out as its color and its role index (pawn 1 .. king 6, shakmaty's own
/// numbering).
#[verifier::external_body]
pub fn piece_code_at(c: &shakmaty::Chess, sq: u8) -> (r: Option<(bool, u8)>)
    requires
        sq < 64,
    ensures
        match r {
            None => chess_squares(*c)[sq as int] == 0,
            Some((white, role)) => 1 <= role <= 6 && chess_squares(*c)[sq as int] == (if white {
                role
            } else {
                (role + 6) as u8
            }),
        },
{
    match shakmaty::Position::board(c).piece_at(shakmaty::Square::new(sq as u32)) {
        None => None,
        Some(piece) => {
            let white = match piece.color {
                shakmaty::Color::White => true,
                shakmaty::Color::Black => false,
            };
            Some((white, u8::from(piece.role)))
        },
    }
}

/// Relies on shakmaty's `Position::turn`.
#[verifier::external_body]
pub fn turn_is_white(c: &shakmaty::Chess) -> (r: bool)
    ensures
        r == chess_turn_white(*c),
{
    match shakmaty::Position::turn(c) {
        shakmaty::Color::White => true,
        shakmaty::Color::Black => false,
    }
}

/// Relies on shakmaty's `Position::is_checkmate`, which decides checkmate
/// from the board alone: the result is the value `chess_mate` names.
#[verifier::external_body]
pub fn chess_is_checkmate(c: &shakmaty::Chess) -> (r: bool)
    ensures
        r == chess_mate(*c),
{
    shakmaty::Position::is_checkmate(c)
}

/// Relies on shakmaty's `Move`: its squares come from the 64-square board,
/// so every square index is below 64.
#[verifier::external_body]
fn move_record(m: &shakmaty::Move) -> (r: MoveRecord)
    ensures
        rec_in_range(r),
{
    match *m {
        shakmaty::Move::Normal { from, to, .. } => MoveRecord::Normal {
            from: from.to_u32() as u8,
            to: to.to_u32() as u8,
        },
        shakmaty::Move::EnPassant { from, to } => MoveRecord::EnPassant {
            from: from.to_u32() as u8,
            to: to.to_u32() as u8,
        },
        shakmaty::Move::Castle { king, rook } => MoveRecord::Castle {
            king: king.to_u32() as u8,
            rook: rook.to_u32() as u8,
        },
        shakmaty::Move::Put { to, .. } => MoveRecord::Put { to: to.to_u32() as u8 },
    }
}

/// Relies on shakmaty's `San::to_move`, which resolves a move written in
/// standard algebraic notation against the position and yields a legal move
/// or an error, and `Position::play_unchecked`, which applies the legal
/// move just resolved.  Both are deterministic in the board and the token,
/// so the outcome is exactly what `san_step` names: on an error nothing
/// changes; on a resolved move its record comes back — squares all on the
/// board — and the new board holds the named contents.
#[verifier::external_body]
pub fn play_san(c: &mut shakmaty::Chess, san: &shakmaty::san::San) -> (r: Option<MoveRecord>)
    ensures
        match san_step(*old(c), *san) {
            Some((rec, squares, white)) => {
                &&& r == Some(rec)
                &&& rec_in_range(rec)
                &&& chess_squares(*final(c)) == squares
                &&& chess_turn_white(*final(c)) == white
            },
            None => r is None && *final(c) == *old(c),
        },
{
    match (*san).to_move(c) {
        Ok(m) => {
            let rec = move_record(&m);
            shakmaty::Position::play_unchecked(c, m);
            Some(rec)
        },
        Err(_) => None,
    }
}

/// Relies on shakmaty's `UciMove::to_move`, which resolves a move written
/// in UCI notation against the position and yields a legal move or an
/// error, and `Position::play_unchecked`, which applies the legal move just
/// resolved.  As with `play_san`, the outcome is exactly what `uci_step`
/// names.
#[verifier::external_body]
pub fn play_uci(c: &mut shakmaty::Chess, uci: &shakmaty::uci::UciMove) -> (r: Option<MoveRecord>)
    ensures
        match uci_step(*old(c), *uci) {
            Some((rec, squares, white)) => {
                &&& r == Some(rec)
                &&& rec_in_range(rec)
                &&& chess_squares(*final(c)) == squares
                &&& chess_turn_white(*final(c)) == white
            },
            None => r is None && *final(c) == *old(c),
        },
{
    match (*uci).to_move(c) {
        Ok(m) => {
            let rec = move_record(&m);
            shakmaty::Position::play_unchecked(c, m);
            Some(rec)
        },
        Err(_) => None,
    }
}

/// Copy the board into the library's own position model, square by square.
pub fn read_position(c: &shakmaty::Chess) -> (p: Position)
    ensures
        p.wf(),
        position_matches(p, *c),
{
    let mut squares: Vec<u8> = Vec::new();
    let mut sq: usize = 0;
    while sq < 64
        invariant
            sq <= 64,
            squares@.len() == sq,
            forall|i: int|
                0 <= i < sq ==> squares@[i] == chess_squares(*c)[i] && squares@[i] < 13,
        decreases 64 - sq,
    {
        let code: u8 = match piece_code_at(c, sq as u8) {
            None => 0,
            Some((white, role)) => if white {
                role
            } else {
                role + 6
            },
        };
        squares.push(code);
        sq = sq + 1;
    }
    Position { white_to_move: turn_is_white(c), squares }
}

} // verus!
