//! Replaying a puzzle record: a starting position and a forced move
//! sequence, turned into one (pre-move position, move) pair per move.

use crate::board::Position;
use crate::chessio::chess_squares;
use crate::chessio::chess_turn_white;
use crate::chessio::play_uci;
use crate::chessio::position_matches;
use crate::chessio::read_position;
use crate::chessio::uci_step;
use crate::config::PipelineError;
use crate::moves::MoveRecord;
use crate::moves::rec_in_range;
use vstd::prelude::*;

verus! {

/// Whether `boards` is a replay chain of the puzzle: it begins at `start`,
/// and each move along it resolves against its board, leaving behind a
/// board with exactly the contents the named `uci_step` gives.
pub open spec fn replay_chain(
    start: shakmaty::Chess,
    moves: Seq<shakmaty::uci::UciMove>,
    boards: Seq<shakmaty::Chess>,
) -> bool {
    &&& 1 <= boards.len() <= moves.len() + 1
    &&& boards[0] == start
    &&& forall|k: int|
        0 <= k < boards.len() - 1 ==> match #[trigger] uci_step(boards[k], moves[k]) {
            Some((rec, squares, white)) => chess_squares(boards[k + 1]) == squares
                && chess_turn_white(boards[k + 1]) == white,
            None => false,
        }
}

/// Replay one puzzle: resolve each move in turn against the board, record
/// the pre-move position with the move, and advance.  Success is owed
/// whenever every move resolves: `Ok` carries a full replay chain from the
/// starting position, with one pair per move — each pair the model of the
/// board the move was played from and the move the engine resolved — and
/// `Err` names a chain that ends at a move that does not resolve.
pub fn puzzle_to_boards(start: shakmaty::Chess, moves: &Vec<shakmaty::uci::UciMove>) -> (r: Result<
    Vec<(Position, MoveRecord)>,
    PipelineError,
>)
    ensures
        match r {
            Ok(v) => {
                &&& v@.len() == moves@.len()
                &&& forall|i: int|
                    0 <= i < v@.len() ==> (#[trigger] v@[i]).0.wf() && rec_in_range(v@[i].1)
                &&& v@.len() > 0 ==> position_matches(v@[0].0, start)
                &&& exists|boards: Seq<shakmaty::Chess>|
                    {
                        &&& #[trigger] replay_chain(start, moves@, boards)
                        &&& boards.len() == moves@.len() + 1
                        &&& forall|k: int|
                            0 <= k < moves@.len() ==> match uci_step(boards[k], moves@[k]) {
                                Some((rec, squares, white)) => (#[trigger] v@[k]).1 == rec
                                    && position_matches(v@[k].0, boards[k]),
                                None => false,
                            }
                    }
            },
            Err(e) => {
                &&& e == PipelineError::UnresolvableMove
                &&& exists|boards: Seq<shakmaty::Chess>|
                    {
                        &&& #[trigger] replay_chain(start, moves@, boards)
                        &&& boards.len() <= moves@.len()
                        &&& uci_step(boards[boards.len() - 1], moves@[boards.len() - 1]) is None
                    }
            },
        },
{
    let ghost start0 = start;
    let mut board = start;
    let mut pos = read_position(&board);
    let ghost mut boards: Seq<shakmaty::Chess> = seq![start0];
    let mut out: Vec<(Position, MoveRecord)> = Vec::new();
    let mut i: usize = 0;
    while i < moves.len()
        invariant
            start0 == start,
            i <= moves@.len(),
            out@.len() == i,
            boards.len() == i + 1,
            boards[i as int] == board,
            replay_chain(start0, moves@, boards),
            pos.wf(),
            position_matches(pos, board),
            forall|k: int|
                0 <= k < out@.len() ==> (#[trigger] out@[k]).0.wf() && rec_in_range(out@[k].1),
            out@.len() > 0 ==> position_matches(out@[0].0, start0),
            i == 0 ==> position_matches(pos, start0),
            forall|k: int|
                0 <= k < i ==> match #[trigger] uci_step(boards[k], moves@[k]) {
                    Some((rec, squares, white)) => out@[k].1 == rec && position_matches(
                        out@[k].0,
                        boards[k],
                    ),
                    None => false,
                },
        decreases moves@.len() - i,
    {
        let ghost pre_board = board;
        match play_uci(&mut board, &moves[i]) {
            Some(rec) => {
                let pre = pos.duplicate();
                out.push((pre, rec));
                pos = read_position(&board);
                proof {
                    let ghost old_boards = boards;
                    boards = boards.push(board);
                    assert(boards[i + 1] == board);
                    assert forall|k: int|
                        0 <= k < boards.len() - 1 implies match #[trigger] uci_step(
                        boards[k],
                        moves@[k],
                    ) {
                        Some((rec2, squares, white)) => chess_squares(boards[k + 1]) == squares
                            && chess_turn_white(boards[k + 1]) == white,
                        None => false,
                    } by {
                        if k < i {
                            assert(boards[k] == old_boards[k] && boards[k + 1] == old_boards[k
                                + 1]);
                            assert(replay_chain(start0, moves@, old_boards));
                        } else {
                            assert(boards[k] == pre_board);
                        }
                    }
                }
            },
            None => {
                proof {
                    assert(boards[i as int] == pre_board);
                    assert(replay_chain(start, moves@, boards));
                    assert(boards.len() <= moves@.len());
                    assert(uci_step(boards[boards.len() - 1], moves@[boards.len() - 1]) is None);
                }
                return Err(PipelineError::UnresolvableMove);
            },
        }
        i = i + 1;
    }
    proof {
        assert(replay_chain(start0, moves@, boards) && boards.len() == moves@.len() + 1);
    }
    Ok(out)
}

} // verus!
