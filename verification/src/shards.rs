//! Shard numbering, the cap on how many shards a run writes, record
//! encoding and chunk splitting, and the advisory progress arithmetic.

use crate::board::INPUT_LENGTH;
use crate::dedup::DedupChunker;
use crate::dedup::lemma_dedup_extends;
use crate::dedup::surviving_records;
use crate::board::Position;
use crate::board::chess_to_input;
use crate::board::input_bit;
use crate::moves::MoveRecord;
use crate::moves::move_code_spec;
use crate::moves::move_encodable;
use crate::moves::try_move_to_output;
use vstd::prelude::*;

verus! {

/// Encode one replayed pair as a record: the position's feature vector and
/// the move's label code.  `None` exactly on the moves the label encoding
/// rejects — a fatal data-integrity condition for the pipeline.
pub fn encode_pair(pos: &Position, m: &MoveRecord) -> (r: Option<(Vec<bool>, u16)>)
    requires
        pos.wf(),
    ensures
        match r {
            Some((input, label)) => {
                &&& move_encodable(*m)
                &&& input@.len() == INPUT_LENGTH
                &&& forall|i: int| 0 <= i < INPUT_LENGTH ==> input@[i] == input_bit(*pos, i)
                &&& label == move_code_spec(*m)
            },
            None => !move_encodable(*m),
        },
{
    match try_move_to_output(m) {
        Some(label) => Some((chess_to_input(pos), label)),
        None => None,
    }
}

/// Split one chunk of records into its input rows and its labels, in
/// matching order: row `i` of the inputs belongs to label `i`.
pub fn split_records<L>(chunk: Vec<(Vec<bool>, L)>) -> (r: (Vec<Vec<bool>>, Vec<L>))
    ensures
        r.0@.len() == chunk@.len(),
        r.1@.len() == chunk@.len(),
        forall|i: int|
            0 <= i < chunk@.len() ==> r.0@[i] == (#[trigger] chunk@[i]).0 && r.1@[i]
                == chunk@[i].1,
{
    let mut inputs: Vec<Vec<bool>> = Vec::new();
    let mut labels: Vec<L> = Vec::new();
    let mut rest = chunk;
    let ghost original = rest@;
    while rest.len() > 0
        invariant
            inputs@.len() == labels@.len(),
            inputs@.len() + rest@.len() == original.len(),
            rest@ =~= original.subrange(inputs@.len() as int, original.len() as int),
            forall|i: int|
                0 <= i < inputs@.len() ==> inputs@[i] == (#[trigger] original[i]).0 && labels@[i]
                    == original[i].1,
        decreases rest@.len(),
    {
        let ghost done = inputs@.len() as int;
        let (input, label) = rest.remove(0);
        proof {
            assert(original.subrange(done, original.len() as int)[0] == original[done]);
        }
        inputs.push(input);
        labels.push(label);
        proof {
            assert(rest@ =~= original.subrange(inputs@.len() as int, original.len() as int));
        }
    }
    (inputs, labels)
}

/// Group the surviving records into full chunks of `chunk_size`, keeping
/// only the first `max_shards` of them: there are exactly as many chunks as
/// full chunks of survivors, capped at the maximum shard count, and chunk
/// `k` holds exactly survivors `k * chunk_size .. (k + 1) * chunk_size`, in
/// encounter order.  A trailing partial chunk is never emitted, and no
/// chunk beyond the cap is attempted.
pub fn plan_chunks<L>(
    records: Vec<(Vec<bool>, L)>,
    chunk_size: usize,
    dedup: bool,
    max_shards: usize,
) -> (r: Vec<Vec<(Vec<bool>, L)>>)
    requires
        chunk_size >= 1,
    ensures
        ({
            let survivors = surviving_records(records@, dedup);
            let full = survivors.len() as int / chunk_size as int;
            let n = if full <= max_shards {
                full
            } else {
                max_shards as int
            };
            &&& r@.len() == n
            &&& forall|k: int|
                0 <= k < n ==> (#[trigger] r@[k])@ == survivors.subrange(
                    k * chunk_size,
                    (k + 1) * chunk_size,
                )
        }),
{
    let ghost all = records@;
    let mut chunker: DedupChunker<L> = DedupChunker::new(chunk_size, dedup);
    let mut r: Vec<Vec<(Vec<bool>, L)>> = Vec::new();
    let mut rest = records;
    while rest.len() > 0 && r.len() < max_shards
        invariant
            chunk_size >= 1,
            chunker.wf(),
            chunker.chunk_size == chunk_size,
            chunker.dedup == dedup,
            rest@.len() <= all.len(),
            rest@ =~= all.subrange(all.len() - rest@.len(), all.len() as int),
            chunker.history@ =~= all.subrange(0, all.len() - rest@.len()),
            r@.len() <= max_shards,
            chunker.emitted@.len() == r@.len() * chunk_size,
            forall|k: int|
                0 <= k < r@.len() ==> (#[trigger] r@[k])@ == chunker.emitted@.subrange(
                    k * chunk_size,
                    (k + 1) * chunk_size,
                ),
        decreases rest@.len(),
    {
        let ghost consumed = all.len() - rest@.len();
        let (input, label) = rest.remove(0);
        proof {
            assert(all.subrange(consumed as int, all.len() as int)[0] == all[consumed as int]);
            assert(chunker.history@.push((input, label)) =~= all.subrange(0, consumed + 1));
            assert(rest@ =~= all.subrange(all.len() - rest@.len(), all.len() as int));
        }
        let ghost old_emitted = chunker.emitted@;
        let ghost old_chunks = r@.len() as int;
        match chunker.push(input, label) {
            Some(chunk) => {
                proof {
                    assert((old_chunks + 1) * chunk_size == old_chunks * chunk_size
                        + chunk_size) by (nonlinear_arith);
                    assert(chunk@ =~= chunker.emitted@.subrange(
                        old_chunks * chunk_size,
                        (old_chunks + 1) * chunk_size,
                    ));
                    assert forall|k: int|
                        #![trigger old_emitted.subrange(k * chunk_size, (k + 1) * chunk_size)]
                        0 <= k < old_chunks implies old_emitted.subrange(
                        k * chunk_size,
                        (k + 1) * chunk_size,
                    ) =~= chunker.emitted@.subrange(k * chunk_size, (k + 1) * chunk_size) by {
                        let cs = chunk_size as int;
                        assert(0 <= k * cs && k * cs <= (k + 1) * cs && (k + 1) * cs <= old_chunks
                            * cs) by (nonlinear_arith)
                            requires 0 <= k < old_chunks && cs >= 1;
                        assert forall|m: int|
                            #![trigger old_emitted.subrange(k * cs, (k + 1) * cs)[m]]
                            0 <= m < cs implies old_emitted[k * cs + m] == chunker.emitted@[k * cs
                            + m] by {
                            assert(k * cs + m < (k + 1) * cs) by (nonlinear_arith)
                                requires 0 <= m < cs;
                            assert(chunker.emitted@[k * cs + m] == old_emitted[k * cs + m]);
                        }
                    }
                }
                r.push(chunk);
            },
            None => {},
        }
    }
    proof {
        let survivors = surviving_records(all, dedup);
        let cs = chunk_size as int;
        let consumed = all.len() - rest@.len();
        let hist = chunker.history@;
        let e = chunker.emitted@;
        let hist_survivors = surviving_records(hist, dedup);
        assert(hist_survivors.len() == e.len() + chunker.chunk@.len());
        assert(e =~= hist_survivors.subrange(0, e.len() as int));
        if dedup {
            lemma_dedup_extends(all, consumed as int);
        }
        assert(hist_survivors.len() <= survivors.len());
        assert(hist_survivors =~= survivors.subrange(0, hist_survivors.len() as int));
        assert(e =~= survivors.subrange(0, e.len() as int));
        assert forall|k: int| 0 <= k < r@.len() implies (#[trigger] r@[k])@ =~= survivors.subrange(
            k * cs,
            (k + 1) * cs,
        ) by {
            assert(0 <= k * cs && k * cs <= (k + 1) * cs && (k + 1) * cs <= r@.len()
                * cs) by (nonlinear_arith)
                requires 0 <= k < r@.len() && cs >= 1;
            assert((k + 1) * cs <= e.len() <= survivors.len());
            assert forall|m: int|
                #![trigger e.subrange(k * cs, (k + 1) * cs)[m]]
                0 <= m < cs implies e[k * cs + m] == survivors[k * cs + m] by {
                assert(k * cs + m < (k + 1) * cs) by (nonlinear_arith)
                    requires 0 <= m < cs;
                assert(survivors.subrange(0, e.len() as int)[k * cs + m] == survivors[k * cs + m]);
            }
            assert(e.subrange(k * cs, (k + 1) * cs) =~= survivors.subrange(k * cs, (k + 1) * cs));
        }
        let full = survivors.len() as int / cs;
        if rest@.len() == 0 {
            assert(hist =~= all);
            assert(survivors.len() == e.len() + chunker.chunk@.len());
            vstd::arithmetic::div_mod::lemma_fundamental_div_mod_converse_div(
                survivors.len() as int,
                cs,
                r@.len() as int,
                chunker.chunk@.len() as int,
            );
            assert(full == r@.len());
        } else {
            assert(r@.len() == max_shards);
            assert(e.len() <= hist_survivors.len() <= survivors.len());
            vstd::arithmetic::div_mod::lemma_div_is_ordered(
                e.len() as int,
                survivors.len() as int,
                cs,
            );
            vstd::arithmetic::div_mod::lemma_fundamental_div_mod_converse_div(
                e.len() as int,
                cs,
                r@.len() as int,
                0,
            );
            assert(full >= r@.len());
        }
    }
    r
}

/// Hands out consecutive shard indices starting at zero, and refuses any
/// chunk beyond the configured maximum shard count.
pub struct ShardCounter {
    /// The index the next shard will get.
    pub next_index: usize,
    /// How many shards the run may write in total.
    pub max_shards: usize,
}

impl ShardCounter {
    /// A counter that will hand out indices `0 .. max_shards`.
    pub fn new(max_shards: usize) -> (r: ShardCounter)
        ensures
            r.next_index == 0,
            r.max_shards == max_shards,
    {
        ShardCounter { next_index: 0, max_shards }
    }

    /// Claim the next shard index, or `None` once the run has written its
    /// configured maximum number of shards.
    pub fn take_index(&mut self) -> (r: Option<usize>)
        ensures
            final(self).max_shards == old(self).max_shards,
            if old(self).next_index < old(self).max_shards {
                &&& r == Some(old(self).next_index)
                &&& final(self).next_index == old(self).next_index + 1
            } else {
                &&& r is None
                &&& final(self).next_index == old(self).next_index
            },
    {
        if self.next_index < self.max_shards {
            let i = self.next_index;
            self.next_index = self.next_index + 1;
            Some(i)
        } else {
            None
        }
    }
}

/// Whether a progress line is due at this record count: every 1024 records,
/// but not before the first.
pub open spec fn progress_due(count: int) -> bool {
    count % 1024 == 0 && count != 0
}

/// The estimated remaining milliseconds: records left times the average
/// cost per record so far, saturating at `u64::MAX`.
pub open spec fn eta_ms_spec(count: int, total: int, elapsed_ms: int) -> int {
    let eta = (total - count) * (elapsed_ms / count);
    if eta > u64::MAX {
        u64::MAX as int
    } else {
        eta
    }
}

/// Advisory progress report: when one is due, the records remaining and the
/// estimated remaining milliseconds from the running average per-record
/// cost.  Never alters anything.
pub fn progress_report(count: usize, total: usize, elapsed_ms: u64) -> (r: Option<(usize, u64)>)
    ensures
        match r {
            Some((remaining, eta_ms)) => {
                &&& progress_due(count as int)
                &&& count <= total
                &&& remaining == total - count
                &&& eta_ms == eta_ms_spec(count as int, total as int, elapsed_ms as int)
            },
            None => !(progress_due(count as int) && count <= total),
        },
{
    if count == 0 || count % 1024 != 0 || count > total {
        return None;
    }
    let per_record: u64 = elapsed_ms / (count as u64);
    let remaining: usize = total - count;
    proof {
        vstd::arithmetic::mul::lemma_mul_upper_bound(
            remaining as int,
            0xffff_ffff_ffff_ffff,
            per_record as int,
            0xffff_ffff_ffff_ffff,
        );
    }
    let eta_wide: u128 = remaining as u128 * per_record as u128;
    let eta_ms: u64 = if eta_wide > u64::MAX as u128 {
        u64::MAX
    } else {
        eta_wide as u64
    };
    proof {
        assert(count as u64 as int == count as int);
        assert(per_record == elapsed_ms as int / count as int);
    }
    Some((total - count, eta_ms))
}

} // verus!
