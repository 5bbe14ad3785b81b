//! Move labels: encoding a played move as a compact integer code.
//!
//! A move is encoded as `from * 64 + to`.  Castling moves are special: the
//! encoded destination is the square two files from the king's origin, in
//! the direction away from the rook — never the rook's own square.

use vstd::prelude::*;

verus! {

/// A played move, reduced to what the label encoding needs.  `Castle`
/// carries the king's and the rook's origin squares; `Put` stands for a
/// piece dropped onto the board, which is never a played move and is
/// rejected by the encoder.
#[derive(Clone, Copy, PartialEq, Eq, Structural, Debug)]
pub enum MoveRecord {
    Normal { from: u8, to: u8 },
    EnPassant { from: u8, to: u8 },
    Castle { king: u8, rook: u8 },
    Put { to: u8 },
}

/// Whether every square index the record carries is on the board.
pub open spec fn rec_in_range(m: MoveRecord) -> bool {
    match m {
        MoveRecord::Normal { from, to } => from < 64 && to < 64,
        MoveRecord::EnPassant { from, to } => from < 64 && to < 64,
        MoveRecord::Castle { king, rook } => king < 64 && rook < 64,
        MoveRecord::Put { to } => to < 64,
    }
}

/// The square the king lands on when castling: two files from its origin,
/// away from the rook, on the same rank.
pub open spec fn castle_to_square(king: u8, rook: u8) -> int {
    if king > rook {
        king - 2
    } else {
        king + 2
    }
}

/// Whether a move can be encoded: squares in range, no `Put`, and for a
/// castling move a king whose two-file hop stays on the board.
pub open spec fn move_encodable(m: MoveRecord) -> bool {
    match m {
        MoveRecord::Normal { from, to } => from < 64 && to < 64,
        MoveRecord::EnPassant { from, to } => from < 64 && to < 64,
        MoveRecord::Castle { king, rook } => {
            &&& king < 64
            &&& rook < 64
            &&& king != rook
            &&& (king > rook ==> king % 8 >= 2)
            &&& (king < rook ==> king % 8 <= 5)
        },
        MoveRecord::Put { .. } => false,
    }
}

/// The integer code of an encodable move.
pub open spec fn move_code_spec(m: MoveRecord) -> int {
    match m {
        MoveRecord::Normal { from, to } => from * 64 + to,
        MoveRecord::EnPassant { from, to } => from * 64 + to,
        MoveRecord::Castle { king, rook } => king * 64 + castle_to_square(king, rook),
        MoveRecord::Put { .. } => 0,
    }
}

/// On the same rank, moving two files keeps the square on the board.
proof fn lemma_castle_target_in_range(king: u8, rook: u8)
    requires
        move_encodable(MoveRecord::Castle { king, rook }),
    ensures
        0 <= castle_to_square(king, rook) < 64,
        castle_to_square(king, rook) / 8 == king / 8,
        castle_to_square(king, rook) % 8 == (if king > rook {
            king % 8 - 2
        } else {
            king % 8 + 2
        }),
{
    let t = castle_to_square(king, rook);
    vstd::arithmetic::div_mod::lemma_fundamental_div_mod(king as int, 8);
    vstd::arithmetic::div_mod::lemma_mod_bound(king as int, 8);
    if king > rook {
        vstd::arithmetic::div_mod::lemma_fundamental_div_mod_converse_div(
            t,
            8,
            king as int / 8,
            king as int % 8 - 2,
        );
        vstd::arithmetic::div_mod::lemma_fundamental_div_mod_converse_mod(
            t,
            8,
            king as int / 8,
            king as int % 8 - 2,
        );
    } else {
        vstd::arithmetic::div_mod::lemma_fundamental_div_mod_converse_div(
            t,
            8,
            king as int / 8,
            king as int % 8 + 2,
        );
        vstd::arithmetic::div_mod::lemma_fundamental_div_mod_converse_mod(
            t,
            8,
            king as int / 8,
            king as int % 8 + 2,
        );
    }
}

/// Encode a move as `from * 64 + to`, canonicalizing castling moves to the
/// king's two-square hop destination.
pub fn move_to_output(m: &MoveRecord) -> (r: u16)
    requires
        move_encodable(*m),
    ensures
        r == move_code_spec(*m),
        r < 4096,
{
    match m {
        MoveRecord::Normal { from, to } => (*from as u16) * 64 + (*to as u16),
        MoveRecord::EnPassant { from, to } => (*from as u16) * 64 + (*to as u16),
        MoveRecord::Castle { king, rook } => {
            proof {
                lemma_castle_target_in_range(*king, *rook);
            }
            let king_to: u8 = if *king > *rook {
                *king - 2
            } else {
                *king + 2
            };
            (*king as u16) * 64 + (king_to as u16)
        },
        MoveRecord::Put { .. } => {
            proof {
                assert(false);
            }
            0
        },
    }
}

/// Encode a move if it is encodable; `None` exactly on the inputs the
/// encoder rejects (a `Put`, an out-of-range square, an impossible castle).
pub fn try_move_to_output(m: &MoveRecord) -> (r: Option<u16>)
    ensures
        match r {
            Some(code) => move_encodable(*m) && code == move_code_spec(*m),
            None => !move_encodable(*m),
        },
{
    let ok = match m {
        MoveRecord::Normal { from, to } => *from < 64 && *to < 64,
        MoveRecord::EnPassant { from, to } => *from < 64 && *to < 64,
        MoveRecord::Castle { king, rook } => *king < 64 && *rook < 64 && *king != *rook && (*king
            < *rook || *king % 8 >= 2) && (*king > *rook || *king % 8 <= 5),
        MoveRecord::Put { .. } => false,
    };
    if ok {
        Some(move_to_output(m))
    } else {
        None
    }
}

/// Decode a move code back into its origin and destination squares.
pub fn decode_move(code: u16) -> (r: (u8, u8))
    requires
        code < 4096,
    ensures
        r.0 == code as int / 64,
        r.1 == code as int % 64,
        r.0 < 64,
        r.1 < 64,
{
    proof {
        vstd::arithmetic::div_mod::lemma_fundamental_div_mod(code as int, 64);
        vstd::arithmetic::div_mod::lemma_mod_bound(code as int, 64);
    }
    ((code / 64) as u8, (code % 64) as u8)
}

/// For every non-castling move, decoding its code recovers exactly the
/// origin and destination squares.
pub proof fn lemma_move_round_trip(m: MoveRecord)
    requires
        move_encodable(m),
        !(m is Castle),
    ensures
        match m {
            MoveRecord::Normal { from, to } => move_code_spec(m) / 64 == from && move_code_spec(m)
                % 64 == to,
            MoveRecord::EnPassant { from, to } => move_code_spec(m) / 64 == from && move_code_spec(
                m,
            ) % 64 == to,
            _ => false,
        },
{
    let (from, to): (u8, u8) = match m {
        MoveRecord::Normal { from, to } => (from, to),
        MoveRecord::EnPassant { from, to } => (from, to),
        _ => (0, 0),
    };
    vstd::arithmetic::div_mod::lemma_fundamental_div_mod_converse_div(
        from as int * 64 + to as int,
        64,
        from as int,
        to as int,
    );
    vstd::arithmetic::div_mod::lemma_fundamental_div_mod_converse_mod(
        from as int * 64 + to as int,
        64,
        from as int,
        to as int,
    );
}

/// For every castling move from a standard chess position — king on its
/// home file, rook on a corner file of the same rank — the encoded
/// destination is the king's two-square hop square, never the rook's
/// square, for either side of the board and either castling direction.
pub proof fn lemma_castle_encodes_king_hop(king: u8, rook: u8)
    requires
        king < 64,
        rook < 64,
        king % 8 == 4,
        rook % 8 == 0 || rook % 8 == 7,
        king / 8 == rook / 8,
    ensures
        move_encodable(MoveRecord::Castle { king, rook }),
        ({
            let code = move_code_spec(MoveRecord::Castle { king, rook });
            let to = code % 64;
            &&& code / 64 == king
            &&& to != rook
            &&& to / 8 == king / 8
            &&& (king > rook ==> to % 8 == 2)
            &&& (king < rook ==> to % 8 == 6)
        }),
{
    vstd::arithmetic::div_mod::lemma_fundamental_div_mod(king as int, 8);
    vstd::arithmetic::div_mod::lemma_fundamental_div_mod(rook as int, 8);
    assert(king != rook);
    lemma_castle_target_in_range(king, rook);
    let t = castle_to_square(king, rook);
    vstd::arithmetic::div_mod::lemma_fundamental_div_mod_converse_div(
        king as int * 64 + t,
        64,
        king as int,
        t,
    );
    vstd::arithmetic::div_mod::lemma_fundamental_div_mod_converse_mod(
        king as int * 64 + t,
        64,
        king as int,
        t,
    );
    vstd::arithmetic::div_mod::lemma_fundamental_div_mod(t, 8);
}

} // verus!
