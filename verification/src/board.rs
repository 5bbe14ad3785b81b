//! Board positions and their fixed-width boolean encoding.
//!
//! A `Position` is a snapshot of the board at one ply: one piece code per
//! square plus the side to move.  `chess_to_input` turns it into the
//! fixed-length feature vector consumed by training, and `decode_input`
//! inverts that encoding.

use vstd::prelude::*;

verus! {

/// Number of squares on the board, in the canonical a1..h8 order.
pub const SQUARE_COUNT: usize = 64;

/// Size of the per-square one-hot block: empty plus six piece kinds for
/// each of the two colors.
pub const PIECE_CODE_COUNT: usize = 13;

/// Length of an encoded input vector: one side-to-move bit followed by one
/// block of `PIECE_CODE_COUNT` bits per square.
pub const INPUT_LENGTH: usize = 1 + 13 * 64;

/// A board position: `squares[i]` holds the piece code of square `i`
/// (0 = empty, 1..=6 = white pawn..king, 7..=12 = black pawn..king), and
/// `white_to_move` tells whose turn it is.
pub struct Position {
    pub white_to_move: bool,
    pub squares: Vec<u8>,
}

impl Position {
    /// A well-formed position has one code per square, each in range.
    pub open spec fn wf(self) -> bool {
        &&& self.squares@.len() == SQUARE_COUNT
        &&& forall|i: int| 0 <= i < SQUARE_COUNT ==> self.squares@[i] < PIECE_CODE_COUNT
    }
}

/// The piece code of square `i` in the standard starting position.
pub open spec fn start_square_code(i: int) -> u8 {
    if i == 0 || i == 7 {
        4u8  // white rooks
    } else if i == 1 || i == 6 {
        2u8  // white knights
    } else if i == 2 || i == 5 {
        3u8  // white bishops
    } else if i == 3 {
        5u8  // white queen
    } else if i == 4 {
        6u8  // white king
    } else if 8 <= i < 16 {
        1u8  // white pawns
    } else if 48 <= i < 56 {
        7u8  // black pawns
    } else if i == 56 || i == 63 {
        10u8  // black rooks
    } else if i == 57 || i == 62 {
        8u8  // black knights
    } else if i == 58 || i == 61 {
        9u8  // black bishops
    } else if i == 59 {
        11u8  // black queen
    } else if i == 60 {
        12u8  // black king
    } else {
        0u8
    }
}

/// A block-relative index splits back into its square and offset.
proof fn lemma_block_index(sq: int, o: int)
    requires
        0 <= sq,
        0 <= o < 13,
    ensures
        (sq * 13 + o) / 13 == sq,
        (sq * 13 + o) % 13 == o,
{
    vstd::arithmetic::div_mod::lemma_fundamental_div_mod_converse_div(sq * 13 + o, 13, sq, o);
    vstd::arithmetic::div_mod::lemma_fundamental_div_mod_converse_mod(sq * 13 + o, 13, sq, o);
}

/// Any index of an encoded vector other than the side-to-move bit lies in
/// the block of exactly one square.
proof fn lemma_index_split(i: int)
    requires
        1 <= i < 833,
    ensures
        0 <= (i - 1) / 13 < 64,
        0 <= (i - 1) % 13 < 13,
        i == 1 + ((i - 1) / 13) * 13 + ((i - 1) % 13),
{
    vstd::arithmetic::div_mod::lemma_fundamental_div_mod(i - 1, 13);
    vstd::arithmetic::div_mod::lemma_mod_bound(i - 1, 13);
}

/// The material weight of one piece code: three for a minor piece, nine
/// for a queen, five for a rook, one for a pawn, nothing for a king or an
/// empty square.
pub open spec fn piece_weight(code: u8) -> int {
    if code == 2 || code == 8 || code == 3 || code == 9 {
        3int  // knights and bishops
    } else if code == 5 || code == 11 {
        9int  // queens
    } else if code == 4 || code == 10 {
        5int  // rooks
    } else if code == 1 || code == 7 {
        1int  // pawns
    } else {
        0int
    }
}

/// The total material weight of a board's piece codes.
pub open spec fn material_spec(s: Seq<u8>) -> int
    decreases s.len(),
{
    if s.len() == 0 {
        0int
    } else {
        material_spec(s.drop_last()) + piece_weight(s.last())
    }
}

impl Position {
    /// A copy of this position: same side to move, same square contents.
    pub fn duplicate(&self) -> (r: Position)
        ensures
            r.white_to_move == self.white_to_move,
            r.squares@ == self.squares@,
    {
        let mut squares: Vec<u8> = Vec::new();
        let mut i: usize = 0;
        while i < self.squares.len()
            invariant
                i <= self.squares@.len(),
                squares@ =~= self.squares@.subrange(0, i as int),
            decreases self.squares@.len() - i,
        {
            squares.push(self.squares[i]);
            i = i + 1;
            proof {
                assert(squares@ =~= self.squares@.subrange(0, i as int));
            }
        }
        proof {
            assert(squares@ =~= self.squares@);
        }
        Position { white_to_move: self.white_to_move, squares }
    }
}

/// The material count used for game-phase classification: three points per
/// minor piece, nine per queen, five per rook, one per pawn, over the whole
/// board.
pub fn material_count(p: &Position) -> (r: u64)
    requires
        p.wf(),
    ensures
        r == material_spec(p.squares@),
{
    let mut sum: u64 = 0;
    let mut i: usize = 0;
    while i < p.squares.len()
        invariant
            p.wf(),
            i <= p.squares@.len(),
            sum == material_spec(p.squares@.subrange(0, i as int)),
            sum <= 9 * i,
        decreases p.squares@.len() - i,
    {
        let code = p.squares[i];
        let w: u64 = if code == 2 || code == 8 || code == 3 || code == 9 {
            3
        } else if code == 5 || code == 11 {
            9
        } else if code == 4 || code == 10 {
            5
        } else if code == 1 || code == 7 {
            1
        } else {
            0
        };
        sum = sum + w;
        i = i + 1;
        proof {
            let pre = p.squares@.subrange(0, i as int);
            assert(pre.drop_last() =~= p.squares@.subrange(0, i - 1));
        }
    }
    proof {
        assert(p.squares@.subrange(0, p.squares@.len() as int) =~= p.squares@);
    }
    sum
}

/// Bit `i` of the encoding of position `p`: bit 0 is the side to move, and
/// bit `1 + sq * 13 + c` says whether square `sq` holds piece code `c`.
pub open spec fn input_bit(p: Position, i: int) -> bool {
    if i == 0 {
        p.white_to_move
    } else {
        p.squares@[(i - 1) / 13] == (i - 1) % 13
    }
}

/// Encode a position as the fixed-length boolean feature vector: the
/// side-to-move bit, then a one-hot block of 13 bits per square.
pub fn chess_to_input(p: &Position) -> (r: Vec<bool>)
    requires
        p.wf(),
    ensures
        r@.len() == INPUT_LENGTH,
        forall|i: int| 0 <= i < INPUT_LENGTH ==> r@[i] == input_bit(*p, i),
{
    let mut r: Vec<bool> = Vec::new();
    r.push(p.white_to_move);
    let mut sq: usize = 0;
    while sq < SQUARE_COUNT
        invariant
            p.wf(),
            sq <= SQUARE_COUNT,
            r@.len() == 1 + 13 * sq,
            r@[0] == p.white_to_move,
            forall|i: int| 1 <= i < r@.len() ==> r@[i] == input_bit(*p, i),
        decreases SQUARE_COUNT - sq,
    {
        let code = p.squares[sq];
        let mut c: usize = 0;
        while c < PIECE_CODE_COUNT
            invariant
                p.wf(),
                sq < SQUARE_COUNT,
                c <= PIECE_CODE_COUNT,
                code == p.squares@[sq as int],
                r@.len() == 1 + 13 * sq + c,
                r@[0] == p.white_to_move,
                forall|i: int| 1 <= i < r@.len() ==> r@[i] == input_bit(*p, i),
            decreases PIECE_CODE_COUNT - c,
        {
            let bit = c == code as usize;
            proof {
                let i = r@.len() as int;
                lemma_block_index(sq as int, c as int);
                assert(i - 1 == (sq as int) * 13 + (c as int));
            }
            r.push(bit);
            c = c + 1;
        }
        sq = sq + 1;
    }
    r
}

/// Bit `o` of the one-hot block for square `sq` in encoded vector `v`.
pub open spec fn block_bit(v: Seq<bool>, sq: int, o: int) -> bool {
    v[1 + sq * 13 + o]
}

/// Whether `v` is a valid encoding with square `sq` holding exactly the
/// code `c`: that bit is set and all other bits of the block are clear.
pub open spec fn block_has_code(v: Seq<bool>, sq: int, c: int) -> bool {
    &&& block_bit(v, sq, c)
    &&& forall|o: int| 0 <= o < 13 && o != c ==> !#[trigger] block_bit(v, sq, o)
}

/// Whether the block for square `sq` in `v` has exactly one bit set.
pub open spec fn square_decodes(v: Seq<bool>, sq: int) -> bool {
    exists|c: int| 0 <= c < 13 && #[trigger] block_has_code(v, sq, c)
}

/// Whether `v` is a well-formed encoded input: correct length and exactly
/// one bit set in every square block.
pub open spec fn valid_encoding(v: Seq<bool>) -> bool {
    &&& v.len() == INPUT_LENGTH
    &&& forall|sq: int| 0 <= sq < SQUARE_COUNT ==> #[trigger] square_decodes(v, sq)
}

/// Decode an encoded input vector back into the position it encodes.
/// Returns `None` exactly when the vector is not a valid encoding.
pub fn decode_input(v: &Vec<bool>) -> (r: Option<Position>)
    ensures
        match r {
            Some(p) => {
                &&& valid_encoding(v@)
                &&& p.wf()
                &&& forall|i: int| 0 <= i < INPUT_LENGTH ==> v@[i] == input_bit(p, i)
            },
            None => !valid_encoding(v@),
        },
{
    if v.len() != INPUT_LENGTH {
        return None;
    }
    let mut squares: Vec<u8> = Vec::new();
    let mut sq: usize = 0;
    while sq < SQUARE_COUNT
        invariant
            v@.len() == INPUT_LENGTH,
            sq <= SQUARE_COUNT,
            squares@.len() == sq,
            forall|s: int| 0 <= s < sq ==> squares@[s] < PIECE_CODE_COUNT,
            forall|s: int| 0 <= s < sq ==> #[trigger] block_has_code(v@, s, squares@[s] as int),
        decreases SQUARE_COUNT - sq,
    {
        let mut found: Option<u8> = None;
        let mut c: usize = 0;
        while c < PIECE_CODE_COUNT
            invariant
                v@.len() == INPUT_LENGTH,
                sq < SQUARE_COUNT,
                c <= PIECE_CODE_COUNT,
                match found {
                    Some(f) => {
                        &&& f < PIECE_CODE_COUNT
                        &&& (f as int) < c
                        &&& block_bit(v@, sq as int, f as int)
                        &&& forall|o: int|
                            0 <= o < c && o != f ==> !#[trigger] block_bit(v@, sq as int, o)
                    },
                    None => forall|o: int| 0 <= o < c ==> !#[trigger] block_bit(v@, sq as int, o),
                },
            decreases PIECE_CODE_COUNT - c,
        {
            let bit = v[1 + sq * 13 + c];
            proof {
                assert(block_bit(v@, sq as int, c as int) == v@[1 + (sq as int) * 13 + (c as int)]);
            }
            if bit {
                if found.is_some() {
                    proof {
                        let f = found->Some_0 as int;
                        assert forall|k: int| 0 <= k < 13 implies !block_has_code(
                            v@,
                            sq as int,
                            k,
                        ) by {
                            if k != f {
                                assert(block_bit(v@, sq as int, f));
                            } else {
                                assert(block_bit(v@, sq as int, c as int));
                            }
                        }
                        assert(!square_decodes(v@, sq as int));
                    }
                    return None;
                }
                found = Some(c as u8);
            }
            c = c + 1;
        }
        match found {
            Some(f) => {
                squares.push(f);
            },
            None => {
                proof {
                    assert forall|k: int| 0 <= k < 13 implies !block_has_code(v@, sq as int, k) by {
                        assert(!block_bit(v@, sq as int, k));
                    }
                    assert(!square_decodes(v@, sq as int));
                }
                return None;
            },
        }
        sq = sq + 1;
    }
    let p = Position { white_to_move: v[0], squares };
    proof {
        assert forall|sq: int| 0 <= sq < SQUARE_COUNT implies #[trigger] square_decodes(v@, sq) by {
            assert(block_has_code(v@, sq, p.squares@[sq] as int));
        }
        assert forall|i: int| 0 <= i < INPUT_LENGTH implies v@[i] == input_bit(p, i) by {
            if i > 0 {
                let s = (i - 1) / 13;
                let o = (i - 1) % 13;
                lemma_index_split(i);
                assert(block_has_code(v@, s, p.squares@[s] as int));
                assert(block_bit(v@, s, o) == v@[i]);
                if o != p.squares@[s] as int {
                    assert(!block_bit(v@, s, o));
                }
            }
        }
    }
    Some(p)
}

/// Round trip: decoding the encoding of a well-formed position recovers the
/// exact piece/color/empty state of every square and the side to move.  Any
/// position whose encoding matches bit for bit is the same position.
pub proof fn lemma_encode_decode(p: Position, v: Seq<bool>)
    requires
        p.wf(),
        v.len() == INPUT_LENGTH,
        forall|i: int| 0 <= i < INPUT_LENGTH ==> v[i] == input_bit(p, i),
    ensures
        valid_encoding(v),
        v[0] == p.white_to_move,
        forall|q: Position|
            #![auto]
            q.wf() && (forall|i: int| 0 <= i < INPUT_LENGTH ==> v[i] == input_bit(q, i))
                ==> q.white_to_move == p.white_to_move && q.squares@ =~= p.squares@,
{
    assert(v[0] == input_bit(p, 0));
    assert forall|sq: int| 0 <= sq < SQUARE_COUNT implies #[trigger] square_decodes(v, sq) by {
        let c = p.squares@[sq] as int;
        assert forall|o: int| 0 <= o < 13 implies block_bit(v, sq, o) == (o == c) by {
            let i = 1 + sq * 13 + o;
            lemma_block_index(sq, o);
            assert(v[i] == input_bit(p, i));
        }
        assert(block_has_code(v, sq, c));
    }
    assert forall|q: Position|
        q.wf() && (forall|i: int| 0 <= i < INPUT_LENGTH ==> v[i] == input_bit(q, i))
            implies q.white_to_move == p.white_to_move && q.squares@ =~= p.squares@ by {
        assert(v[0] == input_bit(q, 0));
        assert forall|sq: int| 0 <= sq < SQUARE_COUNT implies q.squares@[sq] == p.squares@[sq] by {
            let cq = q.squares@[sq] as int;
            let cp = p.squares@[sq] as int;
            let i = 1 + sq * 13 + cq;
            lemma_block_index(sq, cq);
            assert(v[i] == input_bit(q, i));
            assert(v[i] == input_bit(p, i));
        }
    }
}

} // verus!
