//! The game filter and replayer: a state machine over one game record.
//! Headers decide whether the game is considerable; each move is resolved
//! against the working board and the pre-move position is recorded when the
//! phase predicates allow it; at the end of the game the buffered pairs are
//! yielded or the whole game is discarded.  A second, simpler machine
//! collects evaluation annotations.

use crate::board::Position;
use crate::board::material_spec;
use crate::board::material_count;
use crate::board::start_square_code;
use crate::chessio::chess_is_checkmate;
use crate::chessio::chess_mate;
use crate::chessio::position_has;
use crate::chessio::san_step;
use crate::chessio::chess_squares;
use crate::chessio::chess_start;
use crate::chessio::play_san;
use crate::chessio::position_matches;
use crate::chessio::read_position;
use crate::config::Config;
use crate::config::PipelineError;
use crate::eval::RawEval;
use crate::eval::eval_parse;
use crate::eval::eval_result_matches;
use crate::eval::eval_tag;
use crate::eval::find_first_bracket;
use crate::eval::first_bracket_at;
use crate::eval::lemma_first_bracket_unique;
use crate::eval::is_digit;
use crate::eval::parse_eval_comment;
use crate::eval::starts_with;
use crate::moves::MoveRecord;
use crate::moves::rec_in_range;
use vstd::prelude::*;

verus! {

/// The material threshold separating early positions from late ones in the
/// phase predicates.
pub const MATERIAL_THRESHOLD: u64 = 28;

/// How many plies count as the opening.
pub const OPENING_PLIES: usize = 15;

/// The value of a decimal digit string.
pub open spec fn digits_val(s: Seq<u8>) -> int
    decreases s.len(),
{
    if s.len() == 0 {
        0int
    } else {
        digits_val(s.drop_last()) * 10 + (s.last() - 48)
    }
}

/// Whether every byte of `s` is a decimal digit.
pub open spec fn all_digits(s: Seq<u8>) -> bool {
    forall|i: int| 0 <= i < s.len() ==> is_digit(s[i])
}

/// What `s` parses to as an unsigned 32-bit number, the way the standard
/// parser reads it: an optional leading plus sign, then one or more digits,
/// and the value must fit.
pub open spec fn parse_u32_spec(s: Seq<u8>) -> Option<u32> {
    let body = if s.len() >= 1 && s[0] == 43 {
        s.skip(1)
    } else {
        s
    };
    if body.len() == 0 || !all_digits(body) {
        None
    } else if digits_val(body) > u32::MAX {
        None
    } else {
        Some(digits_val(body) as u32)
    }
}

/// A digit string's value is never negative.
proof fn lemma_digits_val_nonneg(s: Seq<u8>)
    requires
        all_digits(s),
    ensures
        digits_val(s) >= 0,
    decreases s.len(),
{
    if s.len() > 0 {
        assert(all_digits(s.drop_last())) by {
            assert(forall|i: int|
                0 <= i < s.len() - 1 ==> s.drop_last()[i] == s[i] && is_digit(s[i]));
        }
        lemma_digits_val_nonneg(s.drop_last());
        assert(is_digit(s[s.len() - 1]));
    }
}

/// Parse an unsigned 32-bit number, exactly as the grammar above says.
pub fn parse_u32(s: &[u8]) -> (r: Option<u32>)
    ensures
        r == parse_u32_spec(s@),
{
    let start: usize = if s.len() >= 1 && s[0] == 43 {
        1
    } else {
        0
    };
    let ghost body = if start == 1 {
        s@.skip(1)
    } else {
        s@
    };
    proof {
        assert(body =~= s@.subrange(start as int, s@.len() as int));
    }
    if s.len() == start {
        return None;
    }
    let mut acc: u64 = 0;
    let mut i: usize = start;
    while i < s.len()
        invariant
            start <= i <= s@.len(),
            start <= 1,
            (start == 1) == (s@.len() >= 1 && s@[0] == 43),
            body == (if s@.len() >= 1 && s@[0] == 43 {
                s@.skip(1)
            } else {
                s@
            }),
            body =~= s@.subrange(start as int, s@.len() as int),
            all_digits(s@.subrange(start as int, i as int)),
            acc <= u32::MAX as u64 + 1,
            if acc <= u32::MAX as u64 {
                acc == digits_val(s@.subrange(start as int, i as int))
            } else {
                digits_val(s@.subrange(start as int, i as int)) > u32::MAX
            },
        decreases s@.len() - i,
    {
        let b = s[i];
        if b < 48 || b > 57 {
            proof {
                assert(0 <= i - start < body.len());
                assert(body[i - start] == s@[i as int]);
                assert(!is_digit(body[i - start]));
                assert(!all_digits(body));
            }
            return None;
        }
        let ghost pre = s@.subrange(start as int, i as int);
        let d: u64 = (b - 48) as u64;
        let wide: u64 = acc * 10 + d;
        proof {
            assert(pre.push(b) =~= s@.subrange(start as int, i + 1));
            assert(pre.push(b).drop_last() =~= pre);
            lemma_digits_val_nonneg(pre);
        }
        acc = if wide > u32::MAX as u64 {
            proof {
                if acc > u32::MAX as u64 {
                    lemma_digits_val_nonneg(pre);
                    assert(digits_val(pre) * 10 + (b - 48) > u32::MAX) by (nonlinear_arith)
                        requires digits_val(pre) > u32::MAX && b >= 48;
                }
            }
            u32::MAX as u64 + 1
        } else {
            wide
        };
        i = i + 1;
    }
    proof {
        assert(s@.subrange(start as int, s@.len() as int) =~= body);
    }
    if acc > u32::MAX as u64 {
        None
    } else {
        Some(acc as u32)
    }
}

/// Whether `p` is the position of the only plus sign in `v`.
pub open spec fn tc_split_ok(v: Seq<u8>, p: int) -> bool {
    &&& 0 <= p < v.len()
    &&& v[p] == 43
    &&& forall|j: int| 0 <= j < v.len() && j != p ==> v[j] != 43
}

/// The time-control heuristic of a header value of the form `base+increment`:
/// base seconds plus thirty times the increment.  `None` when the value does
/// not split on exactly one plus sign into two parseable numbers.
pub open spec fn tc_value(v: Seq<u8>) -> Option<int> {
    if exists|p: int| tc_split_ok(v, p) {
        let p = choose|p: int| tc_split_ok(v, p);
        match (parse_u32_spec(v.subrange(0, p)), parse_u32_spec(v.subrange(p + 1, v.len() as int))) {
            (Some(base), Some(inc)) => Some(base + 30 * inc),
            _ => None,
        }
    } else {
        None
    }
}

/// Compute the time-control heuristic, exactly as `tc_value` says.
pub fn parse_time_control(v: &[u8]) -> (r: Option<u64>)
    ensures
        match r {
            Some(h) => tc_value(v@) == Some(h as int),
            None => tc_value(v@) is None,
        },
{
    let mut plus: Option<usize> = None;
    let mut i: usize = 0;
    while i < v.len()
        invariant
            i <= v@.len(),
            match plus {
                Some(p) => p < i && v@[p as int] == 43 && forall|j: int|
                    0 <= j < i && j != p ==> v@[j] != 43,
                None => forall|j: int| 0 <= j < i ==> v@[j] != 43,
            },
        decreases v@.len() - i,
    {
        if v[i] == 43 {
            if plus.is_some() {
                proof {
                    let p0 = plus->Some_0 as int;
                    assert forall|q: int| !tc_split_ok(v@, q) by {
                        if 0 <= q < v@.len() && v@[q] == 43 {
                            if q != p0 {
                                assert(v@[p0] == 43);
                            } else {
                                assert(v@[i as int] == 43);
                            }
                        }
                    }
                }
                return None;
            }
            plus = Some(i);
        }
        i = i + 1;
    }
    match plus {
        None => {
            proof {
                assert forall|q: int| !tc_split_ok(v@, q) by {
                    if 0 <= q < v@.len() {
                        assert(v@[q] != 43);
                    }
                }
            }
            None
        },
        Some(p) => {
            proof {
                assert(tc_split_ok(v@, p as int));
                let pc = choose|q: int| tc_split_ok(v@, q);
                assert(pc == p) by {
                    if pc != p {
                        assert(v@[p as int] != 43);
                    }
                }
            }
            let base = parse_u32(&v[0..p]);
            let inc = parse_u32(&v[p + 1..v.len()]);
            match (base, inc) {
                (Some(b), Some(n)) => Some(b as u64 + 30 * (n as u64)),
                _ => None,
            }
        },
    }
}

/// Whether a header value is the placeholder `-` or `?`, which is ignored.
pub open spec fn is_placeholder(v: Seq<u8>) -> bool {
    v == seq![45u8] || v == seq![63u8]
}

/// The header key `TimeControl`.
pub open spec fn key_time_control() -> Seq<u8> {
    seq![84u8, 105u8, 109u8, 101u8, 67u8, 111u8, 110u8, 116u8, 114u8, 111u8, 108u8]
}

/// The header key `Result`.
pub open spec fn key_result() -> Seq<u8> {
    seq![82u8, 101u8, 115u8, 117u8, 108u8, 116u8]
}

/// Whether a header key ends in `Elo`, as `WhiteElo` and `BlackElo` do.
pub open spec fn ends_with_elo(k: Seq<u8>) -> bool {
    &&& k.len() >= 3
    &&& k[k.len() - 3] == 69
    &&& k[k.len() - 2] == 108
    &&& k[k.len() - 1] == 111
}

/// Whether a result value names a decisive game: `1-0` or `0-1`.
pub open spec fn is_decisive(v: Seq<u8>) -> bool {
    v == seq![49u8, 45u8, 48u8] || v == seq![48u8, 45u8, 49u8]
}

/// Whether this header marks the game as not considerable: a time control
/// below the threshold, a rating below the minimum, or — when only
/// checkmating games are kept — an indecisive result.
pub open spec fn header_demotes(cfg: Config, k: Seq<u8>, v: Seq<u8>) -> bool {
    &&& !is_placeholder(v)
    &&& if k == key_time_control() {
        tc_value(v) matches Some(h) && h < cfg.min_time
    } else if ends_with_elo(k) {
        parse_u32_spec(v) matches Some(e) && e < cfg.min_elo
    } else if k == key_result() {
        cfg.only_checkmates && !is_decisive(v)
    } else {
        false
    }
}

/// Whether this header is a fatal data-integrity error: a time control or a
/// rating whose value fails to parse.
pub open spec fn header_rejects(k: Seq<u8>, v: Seq<u8>) -> bool {
    &&& !is_placeholder(v)
    &&& if k == key_time_control() {
        tc_value(v) is None
    } else if ends_with_elo(k) {
        parse_u32_spec(v) is None
    } else {
        false
    }
}

/// Whether a position is the standard starting position, white to move.
pub open spec fn position_at_start(p: Position) -> bool {
    &&& p.white_to_move
    &&& forall|i: int| 0 <= i < 64 ==> p.squares@[i] == start_square_code(i)
}

/// Whether the move about to be played — from position `pre`, with `n`
/// plies played before it — passes the phase predicates and is recorded.
pub open spec fn phase_records(cfg: Config, pre: Position, n: int) -> bool {
    &&& (cfg.only_openings ==> n < OPENING_PLIES)
    &&& (cfg.only_middle_game ==> n + 1 < OPENING_PLIES || material_spec(pre.squares@)
        < MATERIAL_THRESHOLD)
    &&& (cfg.only_endgame ==> material_spec(pre.squares@) >= MATERIAL_THRESHOLD)
}

/// Whether a header key equals `TimeControl`.
fn is_time_control_key(k: &[u8]) -> (r: bool)
    ensures
        r == (k@ == key_time_control()),
{
    let r = k.len() == 11 && k[0] == 84 && k[1] == 105 && k[2] == 109 && k[3] == 101 && k[4] == 67
        && k[5] == 111 && k[6] == 110 && k[7] == 116 && k[8] == 114 && k[9] == 111 && k[10] == 108;
    proof {
        if r {
            assert(k@ =~= key_time_control());
        }
    }
    r
}

/// Whether a header key equals `Result`.
fn is_result_key(k: &[u8]) -> (r: bool)
    ensures
        r == (k@ == key_result()),
{
    let r = k.len() == 6 && k[0] == 82 && k[1] == 101 && k[2] == 115 && k[3] == 117 && k[4] == 108
        && k[5] == 116;
    proof {
        if r {
            assert(k@ =~= key_result());
        }
    }
    r
}

/// Whether a header key ends in `Elo`.
fn key_ends_with_elo(k: &[u8]) -> (r: bool)
    ensures
        r == ends_with_elo(k@),
{
    k.len() >= 3 && k[k.len() - 3] == 69 && k[k.len() - 2] == 108 && k[k.len() - 1] == 111
}

/// Whether a header value is a placeholder.
fn is_placeholder_value(v: &[u8]) -> (r: bool)
    ensures
        r == is_placeholder(v@),
{
    let r = v.len() == 1 && (v[0] == 45 || v[0] == 63);
    proof {
        if r {
            if v@[0] == 45 {
                assert(v@ =~= seq![45u8]);
            } else {
                assert(v@ =~= seq![63u8]);
            }
        }
    }
    r
}

/// Whether a result value is decisive.
fn is_decisive_value(v: &[u8]) -> (r: bool)
    ensures
        r == is_decisive(v@),
{
    let r = v.len() == 3 && ((v[0] == 49 && v[1] == 45 && v[2] == 48) || (v[0] == 48 && v[1] == 45
        && v[2] == 49));
    proof {
        if r {
            if v@[0] == 49 {
                assert(v@ =~= seq![49u8, 45u8, 48u8]);
            } else {
                assert(v@ =~= seq![48u8, 45u8, 49u8]);
            }
        }
    }
    r
}

/// The game filter and replayer.  It owns a working board (advanced by the
/// chess engine), the library's model of that board, the buffered pairs of
/// pre-move position and move, the considerability flag and the ply count.
pub struct GameReplayer {
    /// The run configuration.
    pub config: Config,
    /// The working board, advanced move by move.
    pub chess: shakmaty::Chess,
    /// The library's model of the working board.
    pub position: Position,
    /// The pairs recorded so far this game: pre-move position and move.
    pub moves: Vec<(Position, MoveRecord)>,
    /// Whether the game is still considerable.
    pub considerable: bool,
    /// How many plies have been resolved and applied this game.
    pub move_count: usize,
}

impl GameReplayer {
    /// Every recorded pair holds a well-formed position and an on-board move.
    pub open spec fn moves_wf(self) -> bool {
        forall|i: int|
            0 <= i < self.moves@.len() ==> (#[trigger] self.moves@[i]).0.wf() && rec_in_range(
                self.moves@[i].1,
            )
    }

    /// Invariant: the model mirrors the working board, and every recorded
    /// position is well formed with its move on the board.
    pub open spec fn wf(self) -> bool {
        &&& self.position.wf()
        &&& position_matches(self.position, self.chess)
        &&& self.moves_wf()
    }

    /// Whether the model sits on the standard starting position.
    pub open spec fn at_start(self) -> bool {
        position_at_start(self.position)
    }

    /// A fresh replayer, ready for its first game.
    pub fn new(config: Config) -> (r: GameReplayer)
        ensures
            r.wf(),
            r.config == config,
            r.considerable,
            r.moves@.len() == 0,
            r.move_count == 0,
            r.at_start(),
    {
        let chess = chess_start();
        let position = read_position(&chess);
        proof {
            assert forall|i: int| 0 <= i < 64 implies position.squares@[i] == start_square_code(
                i,
            ) by {
                assert(position.squares@[i] == chess_squares(chess)[i]);
                assert(chess_squares(chess)[i] == start_square_code(i));
            }
        }
        GameReplayer { config, chess, position, moves: Vec::new(), considerable: true, move_count: 0 }
    }

    /// Start a new game: working board back to the starting position, move
    /// buffer cleared, ply count zeroed, considerable until a header or the
    /// end of the game says otherwise.
    pub fn begin_game(&mut self)
        ensures
            final(self).wf(),
            final(self).config == old(self).config,
            final(self).considerable,
            final(self).moves@.len() == 0,
            final(self).move_count == 0,
            final(self).at_start(),
    {
        self.chess = chess_start();
        self.position = read_position(&self.chess);
        self.moves = Vec::new();
        self.considerable = true;
        self.move_count = 0;
        proof {
            assert forall|i: int|
                0 <= i < 64 implies self.position.squares@[i] == start_square_code(i) by {
                assert(self.position.squares@[i] == chess_squares(self.chess)[i]);
                assert(chess_squares(self.chess)[i] == start_square_code(i));
            }
        }
    }

    /// Take one header in.  A placeholder value is ignored; a time control
    /// below the threshold, a rating below the minimum, or (when only
    /// checkmates are kept) an indecisive result marks the game not
    /// considerable; a time control or rating that fails to parse is a
    /// fatal data-integrity error.
    pub fn header(&mut self, key: &[u8], value: &[u8]) -> (r: Result<(), PipelineError>)
        requires
            old(self).wf(),
        ensures
            final(self).wf(),
            final(self).config == old(self).config,
            final(self).chess == old(self).chess,
            final(self).position == old(self).position,
            final(self).moves == old(self).moves,
            final(self).move_count == old(self).move_count,
            final(self).considerable == (old(self).considerable && !header_demotes(
                old(self).config,
                key@,
                value@,
            )),
            r == (if header_rejects(key@, value@) {
                Result::<(), PipelineError>::Err(PipelineError::BadHeaderValue)
            } else {
                Result::<(), PipelineError>::Ok(())
            }),
    {
        if is_placeholder_value(value) {
            return Ok(());
        }
        if is_time_control_key(key) {
            match parse_time_control(value) {
                Some(h) => {
                    if h < self.config.min_time as u64 {
                        self.considerable = false;
                    }
                    Ok(())
                },
                None => Err(PipelineError::BadHeaderValue),
            }
        } else if key_ends_with_elo(key) {
            match parse_u32(value) {
                Some(e) => {
                    if e < self.config.min_elo {
                        self.considerable = false;
                    }
                    Ok(())
                },
                None => Err(PipelineError::BadHeaderValue),
            }
        } else if is_result_key(key) {
            if self.config.only_checkmates && !is_decisive_value(value) {
                self.considerable = false;
            }
            Ok(())
        } else {
            Ok(())
        }
    }

    /// Whether the rest of the game's body can be skipped: once the headers
    /// have marked the game not considerable, no move of it is replayed.
    pub fn end_headers(&self) -> (skip: bool)
        ensures
            skip == !self.considerable,
    {
        !self.considerable
    }

    /// Take one main-line move in.  On a game already marked not
    /// considerable, nothing happens.  Otherwise the token is resolved
    /// against the working board — the named outcome `san_step` decides —
    /// and a resolved move is applied: the ply count advances, the pre-move
    /// position and the move are recorded exactly when the phase predicates
    /// pass, and the model takes the board the move leaves behind.  A token
    /// that does not resolve is a fatal data-integrity error, unless the
    /// lenient mode is configured, which skips just that move.
    pub fn san(&mut self, san: &shakmaty::san::San) -> (r: Result<(), PipelineError>)
        requires
            old(self).wf(),
        ensures
            final(self).wf(),
            final(self).config == old(self).config,
            final(self).considerable == old(self).considerable,
            !old(self).considerable ==> r is Ok && final(self).moves == old(self).moves && final(self).move_count == old(self).move_count && final(self).position == old(self).position
                && final(self).chess == old(self).chess,
            old(self).considerable && old(self).move_count < usize::MAX ==> match san_step(
                old(self).chess,
                *san,
            ) {
                Some((rec, squares, white)) => {
                    &&& r is Ok
                    &&& final(self).move_count == old(self).move_count + 1
                    &&& position_has(final(self).position, squares, white)
                    &&& if phase_records(
                        old(self).config,
                        old(self).position,
                        old(self).move_count as int,
                    ) {
                        &&& final(self).moves@.len() == old(self).moves@.len() + 1
                        &&& final(self).moves@.drop_last() == old(self).moves@
                        &&& final(self).moves@.last().0.white_to_move == old(self).position.white_to_move
                        &&& final(self).moves@.last().0.squares@ == old(self).position.squares@
                        &&& final(self).moves@.last().1 == rec
                    } else {
                        final(self).moves == old(self).moves
                    }
                },
                None => {
                    &&& final(self).moves == old(self).moves
                    &&& final(self).move_count == old(self).move_count
                    &&& final(self).position == old(self).position
                    &&& final(self).chess == old(self).chess
                    &&& r == (if old(self).config.lenient {
                        Result::<(), PipelineError>::Ok(())
                    } else {
                        Result::<(), PipelineError>::Err(PipelineError::UnresolvableMove)
                    })
                },
            },
            old(self).considerable && old(self).move_count == usize::MAX ==> {
                &&& final(self).moves == old(self).moves
                &&& final(self).move_count == old(self).move_count
                &&& final(self).position == old(self).position
                &&& final(self).chess == old(self).chess
                &&& r == (if old(self).config.lenient {
                    Result::<(), PipelineError>::Ok(())
                } else {
                    Result::<(), PipelineError>::Err(PipelineError::UnresolvableMove)
                })
            },
    {
        if !self.considerable {
            return Ok(());
        }
        if self.move_count == usize::MAX {
            // A game cannot have this many plies; treat it as corrupt input.
            return if self.config.lenient {
                Ok(())
            } else {
                Err(PipelineError::UnresolvableMove)
            };
        }
        let resolved = play_san(&mut self.chess, san);
        self.apply_resolved(resolved)
    }

    /// Take the outcome of resolving one move token: a resolved move is
    /// applied — the ply count advances, the pre-move position and the move
    /// are recorded exactly when the phase predicates pass, and the model
    /// is read back from the board; an unresolved token is skipped under
    /// the lenient mode and fatal otherwise.
    pub fn apply_resolved(&mut self, resolved: Option<MoveRecord>) -> (r: Result<
        (),
        PipelineError,
    >)
        requires
            old(self).position.wf(),
            old(self).moves_wf(),
            old(self).move_count < usize::MAX,
            match resolved {
                Some(rec) => rec_in_range(rec),
                None => position_matches(old(self).position, old(self).chess),
            },
        ensures
            final(self).wf(),
            final(self).config == old(self).config,
            final(self).considerable == old(self).considerable,
            final(self).chess == old(self).chess,
            match resolved {
                Some(rec) => {
                    &&& r is Ok
                    &&& final(self).move_count == old(self).move_count + 1
                    &&& if phase_records(
                        old(self).config,
                        old(self).position,
                        old(self).move_count as int,
                    ) {
                        &&& final(self).moves@.len() == old(self).moves@.len() + 1
                        &&& final(self).moves@.drop_last() == old(self).moves@
                        &&& final(self).moves@.last().0.white_to_move == old(
                            self,
                        ).position.white_to_move
                        &&& final(self).moves@.last().0.squares@ == old(self).position.squares@
                        &&& final(self).moves@.last().1 == rec
                    } else {
                        final(self).moves == old(self).moves
                    }
                },
                None => {
                    &&& final(self).moves == old(self).moves
                    &&& final(self).move_count == old(self).move_count
                    &&& final(self).position == old(self).position
                    &&& r == (if old(self).config.lenient {
                        Result::<(), PipelineError>::Ok(())
                    } else {
                        Result::<(), PipelineError>::Err(PipelineError::UnresolvableMove)
                    })
                },
            },
    {
        match resolved {
            Some(rec) => {
                let record_it = self.passes_phase();
                if record_it {
                    let pre = self.position.duplicate();
                    self.moves.push((pre, rec));
                }
                self.move_count = self.move_count + 1;
                self.position = read_position(&self.chess);
                proof {
                    if record_it {
                        assert(self.moves@.drop_last() =~= old(self).moves@);
                    }
                }
                Ok(())
            },
            None => {
                if self.config.lenient {
                    Ok(())
                } else {
                    Err(PipelineError::UnresolvableMove)
                }
            },
        }
    }

    /// Whether the move about to be played passes the phase predicates.
    fn passes_phase(&self) -> (r: bool)
        requires
            self.position.wf(),
            self.move_count < usize::MAX,
        ensures
            r == phase_records(self.config, self.position, self.move_count as int),
    {
        let opening_ok = !self.config.only_openings || self.move_count < OPENING_PLIES;
        let mut r = opening_ok;
        if r && (self.config.only_middle_game || self.config.only_endgame) {
            let material = material_count(&self.position);
            if self.config.only_middle_game && !(self.move_count + 1 < OPENING_PLIES || material
                < MATERIAL_THRESHOLD) {
                r = false;
            }
            if self.config.only_endgame && material < MATERIAL_THRESHOLD {
                r = false;
            }
        }
        r
    }

    /// Decide the end of a game, given whether the final board is a
    /// checkmate.  A game not considerable, or one that did not end in
    /// checkmate when only checkmates are kept, is discarded whole;
    /// otherwise the buffered pairs are yielded and the buffer is emptied.
    pub fn finish(&mut self, is_mate: bool) -> (r: Option<Vec<(Position, MoveRecord)>>)
        requires
            old(self).wf(),
        ensures
            final(self).wf(),
            final(self).config == old(self).config,
            final(self).considerable == old(self).considerable,
            final(self).position == old(self).position,
            final(self).chess == old(self).chess,
            final(self).move_count == old(self).move_count,
            if !old(self).considerable || (old(self).config.only_checkmates && !is_mate) {
                r is None && final(self).moves == old(self).moves
            } else {
                match r {
                    Some(v) => v == old(self).moves && final(self).moves@.len() == 0,
                    None => false,
                }
            },
    {
        if !self.considerable {
            return None;
        }
        if self.config.only_checkmates && !is_mate {
            return None;
        }
        let mut out: Vec<(Position, MoveRecord)> = Vec::new();
        core::mem::swap(&mut out, &mut self.moves);
        Some(out)
    }

    /// End the game: a game not considerable, or — when only checkmates
    /// are kept — one whose final board the engine does not call checkmate
    /// (the named `chess_mate` decides), is discarded whole; otherwise the
    /// buffered pairs are yielded and the buffer is emptied.
    pub fn end_game(&mut self) -> (r: Option<Vec<(Position, MoveRecord)>>)
        requires
            old(self).wf(),
        ensures
            final(self).wf(),
            final(self).config == old(self).config,
            final(self).considerable == old(self).considerable,
            final(self).position == old(self).position,
            final(self).chess == old(self).chess,
            final(self).move_count == old(self).move_count,
            if !old(self).considerable || (old(self).config.only_checkmates && !chess_mate(
                old(self).chess,
            )) {
                r is None && final(self).moves == old(self).moves
            } else {
                match r {
                    Some(v) => v == old(self).moves && final(self).moves@.len() == 0,
                    None => false,
                }
            },
    {
        let mate = if self.config.only_checkmates {
            chess_is_checkmate(&self.chess)
        } else {
            true
        };
        self.finish(mate)
    }
}

/// Collects evaluated positions from one game: each move advances the
/// working board, and each comment carrying an evaluation annotation
/// records the current position with the parsed score.  A game whose first
/// commented move carries no evaluation yields nothing at all.
pub struct EvalReplayer {
    /// The working board, advanced move by move.
    pub chess: shakmaty::Chess,
    /// The library's model of the working board.
    pub position: Position,
    /// The evaluated positions collected so far this game.
    pub evaluations: Vec<(Position, RawEval)>,
    /// Whether the game still counts as carrying evaluations.
    pub has_evaluations: bool,
}

impl EvalReplayer {
    /// Invariant: the model mirrors the working board and every collected
    /// position is well formed.
    pub open spec fn wf(self) -> bool {
        &&& self.position.wf()
        &&& position_matches(self.position, self.chess)
        &&& forall|i: int| 0 <= i < self.evaluations@.len() ==> (#[trigger] self.evaluations@[i]).0.wf()
    }

    /// Whether the model sits on the standard starting position.
    pub open spec fn at_start(self) -> bool {
        position_at_start(self.position)
    }

    /// A fresh collector, on the starting position, ready for its first
    /// game.
    pub fn new() -> (r: EvalReplayer)
        ensures
            r.wf(),
            r.has_evaluations,
            r.evaluations@.len() == 0,
            r.at_start(),
    {
        let chess = chess_start();
        let position = read_position(&chess);
        proof {
            assert forall|i: int| 0 <= i < 64 implies position.squares@[i] == start_square_code(
                i,
            ) by {
                assert(position.squares@[i] == chess_squares(chess)[i]);
                assert(chess_squares(chess)[i] == start_square_code(i));
            }
        }
        EvalReplayer { chess, position, evaluations: Vec::new(), has_evaluations: true }
    }

    /// Start a new game: working board back to the starting position,
    /// buffer cleared, evaluations assumed present until a comment says
    /// otherwise.
    pub fn begin_game(&mut self)
        ensures
            final(self).wf(),
            final(self).has_evaluations,
            final(self).evaluations@.len() == 0,
            final(self).at_start(),
    {
        self.chess = chess_start();
        self.position = read_position(&self.chess);
        self.evaluations = Vec::new();
        self.has_evaluations = true;
        proof {
            assert forall|i: int|
                0 <= i < 64 implies self.position.squares@[i] == start_square_code(i) by {
                assert(self.position.squares@[i] == chess_squares(self.chess)[i]);
                assert(chess_squares(self.chess)[i] == start_square_code(i));
            }
        }
    }

    /// Advance the working board by one main-line move: the named outcome
    /// `san_step` decides, and on a resolved move the model takes the board
    /// the move leaves behind.  A token that does not resolve is a fatal
    /// data-integrity error.
    pub fn san(&mut self, san: &shakmaty::san::San) -> (r: Result<(), PipelineError>)
        requires
            old(self).wf(),
        ensures
            final(self).wf(),
            final(self).evaluations == old(self).evaluations,
            final(self).has_evaluations == old(self).has_evaluations,
            match san_step(old(self).chess, *san) {
                Some((rec, squares, white)) => r is Ok && position_has(
                    final(self).position,
                    squares,
                    white,
                ),
                None => {
                    &&& r == Result::<(), PipelineError>::Err(PipelineError::UnresolvableMove)
                    &&& final(self).position == old(self).position
                    &&& final(self).chess == old(self).chess
                },
            },
    {
        match play_san(&mut self.chess, san) {
            Some(_) => {
                self.position = read_position(&self.chess);
                Ok(())
            },
            None => Err(PipelineError::UnresolvableMove),
        }
    }

    /// Take one comment in.  When the game still carries evaluations: a
    /// comment with no bracket at all, or whose first bracket does not open
    /// an evaluation annotation, marks the whole game as carrying none; a
    /// well-formed evaluation annotation at the first bracket records the
    /// current position with its exact parse; a malformed one is a fatal
    /// data-integrity error.  Each outcome is decided by the comment alone.
    pub fn comment(&mut self, c: &[u8]) -> (r: Result<(), PipelineError>)
        requires
            old(self).wf(),
        ensures
            final(self).wf(),
            final(self).chess == old(self).chess,
            final(self).position == old(self).position,
            !old(self).has_evaluations ==> r is Ok && final(self).evaluations == old(self).evaluations && !final(self).has_evaluations,
            old(self).has_evaluations ==> {
                &&& ((forall|j: int| 0 <= j < c@.len() ==> c@[j] != 91) ==> {
                    &&& r is Ok
                    &&& !final(self).has_evaluations
                    &&& final(self).evaluations == old(self).evaluations
                })
                &&& forall|i: int| #[trigger] first_bracket_at(c@, i) ==> {
                    let tail = c@.skip(i);
                    if !starts_with(tail, eval_tag()) {
                        &&& r is Ok
                        &&& !final(self).has_evaluations
                        &&& final(self).evaluations == old(self).evaluations
                    } else {
                        match eval_parse(tail) {
                            Some(_) => {
                                &&& r is Ok
                                &&& final(self).has_evaluations
                                &&& final(self).evaluations@.len() == old(self).evaluations@.len() + 1
                                &&& final(self).evaluations@.drop_last() == old(self).evaluations@
                                &&& final(self).evaluations@.last().0.white_to_move == old(self).position.white_to_move
                                &&& final(self).evaluations@.last().0.squares@ == old(self).position.squares@
                                &&& eval_result_matches(tail, Some(final(self).evaluations@.last().1))
                            },
                            None => {
                                &&& r == Result::<(), PipelineError>::Err(PipelineError::BadEvalComment)
                                &&& final(self).has_evaluations == old(self).has_evaluations
                                &&& final(self).evaluations == old(self).evaluations
                            },
                        }
                    }
                }
            },
    {
        if !self.has_evaluations {
            self.has_evaluations = false;
            return Ok(());
        }
        match find_first_bracket(c) {
            None => {
                proof {
                    assert forall|i2: int| !first_bracket_at(c@, i2) by {
                        if 0 <= i2 < c@.len() {
                            assert(c@[i2] != 91);
                        }
                    }
                }
                self.has_evaluations = false;
                Ok(())
            },
            Some(i) => {
                let tail = &c[i..c.len()];
                proof {
                    assert(tail@ =~= c@.skip(i as int));
                    assert(c@[i as int] == 91);
                    assert forall|i2: int| #[trigger] first_bracket_at(c@, i2) implies i2
                        == i as int by {
                        lemma_first_bracket_unique(c@, i as int, i2);
                    }
                }
                if !has_eval_tag(tail) {
                    self.has_evaluations = false;
                    return Ok(());
                }
                match parse_eval_comment(tail) {
                    Some(ev) => {
                        let pre = self.position.duplicate();
                        self.evaluations.push((pre, ev));
                        proof {
                            assert(self.evaluations@.drop_last() =~= old(self).evaluations@);
                            assert(self.evaluations@.last().1 == ev);
                            assert(eval_result_matches(c@.skip(i as int), Some(ev)));
                        }
                        Ok(())
                    },
                    None => Err(PipelineError::BadEvalComment),
                }
            },
        }
    }

    /// End the game: yield every evaluated position collected, or nothing
    /// at all when the game turned out to carry no evaluations; either way
    /// the buffer is emptied.
    pub fn end_game(&mut self) -> (r: Vec<(Position, RawEval)>)
        requires
            old(self).wf(),
        ensures
            final(self).wf(),
            final(self).chess == old(self).chess,
            final(self).position == old(self).position,
            final(self).evaluations@.len() == 0,
            final(self).has_evaluations == old(self).has_evaluations,
            r@ == (if old(self).has_evaluations {
                old(self).evaluations@
            } else {
                Seq::<(Position, RawEval)>::empty()
            }),
    {
        if self.has_evaluations {
            let mut out: Vec<(Position, RawEval)> = Vec::new();
            core::mem::swap(&mut out, &mut self.evaluations);
            out
        } else {
            self.evaluations = Vec::new();
            Vec::new()
        }
    }
}

/// Whether a comment's tail opens with the `[%eval ` tag.
fn has_eval_tag(t: &[u8]) -> (r: bool)
    ensures
        r == starts_with(t@, eval_tag()),
{
    let r = t.len() >= 7 && t[0] == 91 && t[1] == 37 && t[2] == 101 && t[3] == 118 && t[4] == 97
        && t[5] == 108 && t[6] == 32;
    proof {
        if r {
            assert(t@.subrange(0, 7) =~= eval_tag());
        } else {
            if starts_with(t@, eval_tag()) {
                assert(t@.subrange(0, 7)[0] == t@[0]);
                assert(t@.subrange(0, 7)[1] == t@[1]);
                assert(t@.subrange(0, 7)[2] == t@[2]);
                assert(t@.subrange(0, 7)[3] == t@[3]);
                assert(t@.subrange(0, 7)[4] == t@[4]);
                assert(t@.subrange(0, 7)[5] == t@[5]);
                assert(t@.subrange(0, 7)[6] == t@[6]);
            }
        }
    }
    r
}

} // verus!
