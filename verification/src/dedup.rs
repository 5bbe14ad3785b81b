//! Deduplicating chunker: drops records whose encoded input hashes to a
//! value already seen this run, and groups survivors into fixed-size chunks
//! in encounter order.  A trailing partial chunk is held back, never
//! emitted.  Hash collisions are accepted as a probabilistic approximation
//! of true deduplication.

use std::collections::HashSet;
use vstd::prelude::*;

verus! {

/// Offset basis of the 64-bit FNV-1a hash.
pub const FNV_OFFSET_BASIS: u64 = 0xcbf29ce484222325;

/// Prime multiplier of the 64-bit FNV-1a hash.
pub const FNV_PRIME: u64 = 0x100000001b3;

/// One FNV-1a step folding a single feature bit into the hash.
pub open spec fn fnv_step(h: u64, b: bool) -> u64 {
    (h ^ (if b {
        1u64
    } else {
        0u64
    })).wrapping_mul(FNV_PRIME)
}

/// The hash of the first `n` bits of `v`.
pub open spec fn fnv_prefix(v: Seq<bool>, n: int) -> u64
    decreases n,
{
    if n <= 0 {
        FNV_OFFSET_BASIS
    } else {
        fnv_step(fnv_prefix(v, n - 1), v[n - 1])
    }
}

/// The 64-bit content hash of an encoded input vector.
pub open spec fn input_hash(v: Seq<bool>) -> u64 {
    fnv_prefix(v, v.len() as int)
}

/// Compute the content hash of an encoded input: FNV-1a over its bits.
pub fn hash_encoded_input(v: &Vec<bool>) -> (h: u64)
    ensures
        h == input_hash(v@),
{
    let mut h: u64 = FNV_OFFSET_BASIS;
    let mut i: usize = 0;
    while i < v.len()
        invariant
            i <= v@.len(),
            h == fnv_prefix(v@, i as int),
        decreases v@.len() - i,
    {
        let bit: u64 = if v[i] {
            1
        } else {
            0
        };
        h = (h ^ bit).wrapping_mul(FNV_PRIME);
        i = i + 1;
    }
    h
}

/// Whether some record before index `i` has the same input hash as the
/// record at `i`.
pub open spec fn rec_seen_before<L>(s: Seq<(Vec<bool>, L)>, i: int) -> bool {
    exists|j: int| 0 <= j < i && #[trigger] input_hash(s[j].0@) == input_hash(s[i].0@)
}

/// The subsequence of records that survive deduplication: each record is
/// kept exactly when no earlier record has the same input hash.
pub open spec fn dedup_records<L>(s: Seq<(Vec<bool>, L)>) -> Seq<(Vec<bool>, L)>
    decreases s.len(),
{
    if s.len() == 0 {
        Seq::empty()
    } else if rec_seen_before(s, s.len() - 1) {
        dedup_records(s.drop_last())
    } else {
        dedup_records(s.drop_last()).push(s.last())
    }
}

/// The records of `records` that survive: all of them when deduplication
/// is off, the first of each hash class when it is on.
pub open spec fn surviving_records<L>(records: Seq<(Vec<bool>, L)>, dedup: bool) -> Seq<
    (Vec<bool>, L),
> {
    if dedup {
        dedup_records(records)
    } else {
        records
    }
}

/// Taking in more records only appends survivors: the survivors of a
/// prefix are a prefix of the survivors of the whole.
pub proof fn lemma_dedup_extends<L>(s: Seq<(Vec<bool>, L)>, n: int)
    requires
        0 <= n <= s.len(),
    ensures
        dedup_records(s.subrange(0, n)).len() <= dedup_records(s).len(),
        dedup_records(s.subrange(0, n)) == dedup_records(s).subrange(
            0,
            dedup_records(s.subrange(0, n)).len() as int,
        ),
    decreases s.len() - n,
{
    if n == s.len() {
        assert(s.subrange(0, n) =~= s);
        assert(dedup_records(s).subrange(0, dedup_records(s).len() as int) =~= dedup_records(s));
    } else {
        lemma_dedup_extends(s, n + 1);
        let a = s.subrange(0, n);
        let b = s.subrange(0, n + 1);
        assert(b.drop_last() =~= a);
        assert(b.last() == s[n]);
        if !rec_seen_before(b, n) {
            assert(dedup_records(b) == dedup_records(a).push(s[n]));
            assert(dedup_records(a) =~= dedup_records(b).subrange(
                0,
                dedup_records(a).len() as int,
            ));
        }
        assert(dedup_records(a) =~= dedup_records(s).subrange(0, dedup_records(a).len() as int));
    }
}

/// Consumes records one at a time, suppresses those whose encoded-input
/// hash was already seen this run, and hands out each completed fixed-size
/// chunk of survivors.  The ghost fields record the full pushed history and
/// what has been emitted, so that the invariant can say: everything emitted,
/// followed by the held partial chunk, is exactly the deduplicated history.
pub struct DedupChunker<L> {
    /// Hashes of every encoded input accepted so far this run.
    pub seen: HashSet<u64>,
    /// The partial chunk currently being filled.
    pub chunk: Vec<(Vec<bool>, L)>,
    /// Records per emitted chunk.
    pub chunk_size: usize,
    /// Whether deduplication is enabled; when off, every record survives.
    pub dedup: bool,
    /// Every record ever pushed, in order.
    pub history: Ghost<Seq<(Vec<bool>, L)>>,
    /// The records emitted so far in full chunks, in order.
    pub emitted: Ghost<Seq<(Vec<bool>, L)>>,
}

impl<L> DedupChunker<L> {
    /// The records that survive deduplication of the pushed history (all of
    /// them, when deduplication is off).
    pub open spec fn survivors(self) -> Seq<(Vec<bool>, L)> {
        surviving_records(self.history@, self.dedup)
    }

    /// Invariant: the seen set holds exactly the history's hashes, the
    /// partial chunk is short of a full chunk, and what was emitted plus
    /// what is held is exactly the deduplicated history.
    pub open spec fn wf(self) -> bool {
        &&& self.chunk_size >= 1
        &&& self.chunk@.len() < self.chunk_size
        &&& self.emitted@.len() as int % (self.chunk_size as int) == 0
        &&& self.emitted@ + self.chunk@ == self.survivors()
        &&& (self.dedup ==> forall|h: u64|
            self.seen@.contains(h) <==> exists|j: int|
                0 <= j < self.history@.len() && #[trigger] input_hash(self.history@[j].0@) == h)
    }

    /// A fresh chunker: nothing seen, nothing held, nothing emitted.
    pub fn new(chunk_size: usize, dedup: bool) -> (r: DedupChunker<L>)
        requires
            chunk_size >= 1,
        ensures
            r.wf(),
            r.chunk_size == chunk_size,
            r.dedup == dedup,
            r.history@ =~= Seq::<(Vec<bool>, L)>::empty(),
            r.emitted@ =~= Seq::<(Vec<bool>, L)>::empty(),
            r.chunk@.len() == 0,
    {
        let r = DedupChunker {
            seen: HashSet::new(),
            chunk: Vec::new(),
            chunk_size,
            dedup,
            history: Ghost(Seq::empty()),
            emitted: Ghost(Seq::empty()),
        };
        proof {
            assert(r.emitted@ + r.chunk@ =~= r.survivors());
        }
        r
    }

    /// After pushing a record and accounting for its hash — already present,
    /// or freshly inserted — the set holds exactly the history's hashes.
    proof fn lemma_seen_set_push(
        hist: Seq<(Vec<bool>, L)>,
        rec: (Vec<bool>, L),
        s0: Set<u64>,
        s1: Set<u64>,
    )
        requires
            forall|h: u64|
                s0.contains(h) <==> exists|j: int|
                    0 <= j < hist.len() && #[trigger] input_hash(hist[j].0@) == h,
            s1 == s0.insert(input_hash(rec.0@)) || (s0.contains(input_hash(rec.0@)) && s1 == s0),
        ensures
            forall|h: u64|
                s1.contains(h) <==> exists|j: int|
                    0 <= j < hist.push(rec).len() && #[trigger] input_hash(hist.push(rec)[j].0@)
                        == h,
    {
        let hist2 = hist.push(rec);
        assert forall|h: u64| s1.contains(h) implies exists|j: int|
            0 <= j < hist2.len() && #[trigger] input_hash(hist2[j].0@) == h by {
            if h == input_hash(rec.0@) {
                assert(input_hash(hist2[hist.len() as int].0@) == h);
            } else {
                assert(s0.contains(h));
                let j = choose|j: int|
                    0 <= j < hist.len() && #[trigger] input_hash(hist[j].0@) == h;
                assert(input_hash(hist2[j].0@) == h);
            }
        }
        assert forall|h: u64|
            (exists|j: int| 0 <= j < hist2.len() && #[trigger] input_hash(hist2[j].0@) == h)
            implies s1.contains(h) by {
            let j = choose|j: int|
                0 <= j < hist2.len() && #[trigger] input_hash(hist2[j].0@) == h;
            if j < hist.len() {
                assert(input_hash(hist[j].0@) == h);
                assert(s0.contains(h));
            } else {
                assert(hist2[j] == rec);
            }
        }
    }

    /// Push one record.  A record whose input hash was already seen is
    /// dropped; otherwise it joins the current chunk, and the chunk is
    /// handed out once it holds exactly `chunk_size` records.
    pub fn push(&mut self, input: Vec<bool>, label: L) -> (r: Option<Vec<(Vec<bool>, L)>>)
        requires
            old(self).wf(),
        ensures
            final(self).wf(),
            final(self).chunk_size == old(self).chunk_size,
            final(self).dedup == old(self).dedup,
            final(self).history@ == old(self).history@.push((input, label)),
            ({
                let h = input_hash(input@);
                let dropped = old(self).dedup && old(self).seen@.contains(h);
                if dropped {
                    &&& r is None
                    &&& final(self).emitted@ == old(self).emitted@
                    &&& final(self).chunk@ == old(self).chunk@
                } else {
                    let kept = old(self).chunk@.push((input, label));
                    if kept.len() == old(self).chunk_size {
                        &&& r matches Some(c) && c@ == kept
                        &&& final(self).emitted@ == old(self).emitted@ + kept
                        &&& final(self).chunk@.len() == 0
                    } else {
                        &&& r is None
                        &&& final(self).emitted@ == old(self).emitted@
                        &&& final(self).chunk@ == kept
                    }
                }
            }),
    {
        let h = hash_encoded_input(&input);
        let ghost rec = (input, label);
        let ghost old_history = self.history@;
        proof {
            assert(old_history.push(rec).drop_last() =~= old_history);
            assert(old_history.push(rec).last() == rec);
        }
        if self.dedup {
            if self.seen.contains(&h) {
                proof {
                    assert(rec_seen_before(old_history.push(rec), old_history.len() as int));
                    Self::lemma_seen_set_push(old_history, rec, self.seen@, self.seen@);
                }
                self.history = Ghost(old_history.push(rec));
                return None;
            }
            proof {
                assert(!rec_seen_before(old_history.push(rec), old_history.len() as int));
            }
            let ghost old_seen = self.seen@;
            self.seen.insert(h);
            proof {
                Self::lemma_seen_set_push(old_history, rec, old_seen, self.seen@);
            }
        }
        self.history = Ghost(old_history.push(rec));
        self.chunk.push((input, label));
        if self.chunk.len() == self.chunk_size {
            let mut full: Vec<(Vec<bool>, L)> = Vec::new();
            core::mem::swap(&mut full, &mut self.chunk);
            self.emitted = Ghost(self.emitted@ + full@);
            proof {
                assert(self.emitted@ + self.chunk@ =~= self.survivors());
                vstd::arithmetic::div_mod::lemma_mod_add_multiples_vanish(
                    old(self).emitted@.len() as int,
                    self.chunk_size as int,
                );
            }
            Some(full)
        } else {
            proof {
                assert(self.emitted@ + self.chunk@ =~= self.survivors());
            }
            None
        }
    }
}

/// How many records in `s` equal `x`.
pub open spec fn count_eq<L>(s: Seq<(Vec<bool>, L)>, x: (Vec<bool>, L)) -> int
    decreases s.len(),
{
    if s.len() == 0 {
        0int
    } else {
        count_eq(s.drop_last(), x) + if s.last() == x {
            1int
        } else {
            0int
        }
    }
}

/// A record absent from the input is absent from the deduplicated output.
proof fn lemma_dedup_absent<L>(s: Seq<(Vec<bool>, L)>, x: (Vec<bool>, L))
    requires
        forall|i: int| 0 <= i < s.len() ==> s[i] != x,
    ensures
        count_eq(dedup_records(s), x) == 0,
    decreases s.len(),
{
    if s.len() > 0 {
        lemma_dedup_absent(s.drop_last(), x);
        if !rec_seen_before(s, s.len() - 1) {
            let d = dedup_records(s.drop_last()).push(s.last());
            assert(d.drop_last() =~= dedup_records(s.drop_last()));
            assert(s.last() != x);
        }
    }
}

/// The chunker emits exactly one copy: for a deduplicating chunker — fed
/// records among which equal input hashes only occur on equal records —
/// that took in a record `x` (possibly more than once), everything emitted
/// plus the chunk still held contains exactly one record equal to `x`.
pub proof fn lemma_chunker_single_copy<L>(c: DedupChunker<L>, x: (Vec<bool>, L))
    requires
        c.wf(),
        c.dedup,
        forall|i: int, j: int|
            0 <= i < c.history@.len() && 0 <= j < c.history@.len() && #[trigger] input_hash(
                c.history@[i].0@,
            ) == #[trigger] input_hash(c.history@[j].0@) ==> c.history@[i] == c.history@[j],
        exists|i: int| 0 <= i < c.history@.len() && c.history@[i] == x,
    ensures
        count_eq(c.emitted@ + c.chunk@, x) == 1,
{
    lemma_dedup_single_copy(c.history@, x);
}

/// Deduplication emits exactly one copy: if a sequence of records — among
/// which equal input hashes only occur on equal records — contains a record
/// `x` (possibly more than once), then the deduplicated sequence contains
/// exactly one record equal to `x`.
pub proof fn lemma_dedup_single_copy<L>(s: Seq<(Vec<bool>, L)>, x: (Vec<bool>, L))
    requires
        forall|i: int, j: int|
            0 <= i < s.len() && 0 <= j < s.len() && #[trigger] input_hash(s[i].0@)
                == #[trigger] input_hash(s[j].0@) ==> s[i] == s[j],
        exists|i: int| 0 <= i < s.len() && s[i] == x,
    ensures
        count_eq(dedup_records(s), x) == 1,
    decreases s.len(),
{
    let prev = s.drop_last();
    let n = s.len() - 1;
    assert forall|i: int, j: int|
        0 <= i < prev.len() && 0 <= j < prev.len() && #[trigger] input_hash(prev[i].0@)
            == #[trigger] input_hash(prev[j].0@) implies prev[i] == prev[j] by {
        assert(prev[i] == s[i] && prev[j] == s[j]);
    }
    if s.last() == x {
        if rec_seen_before(s, n) {
            let j = choose|j: int| 0 <= j < n && #[trigger] input_hash(s[j].0@) == input_hash(
                s[n].0@,
            );
            assert(s[j] == x);
            assert(prev[j] == x);
            lemma_dedup_single_copy(prev, x);
        } else {
            assert forall|i: int| 0 <= i < prev.len() implies prev[i] != x by {
                if prev[i] == x {
                    assert(input_hash(s[i].0@) == input_hash(s[n].0@));
                    assert(rec_seen_before(s, n));
                }
            }
            lemma_dedup_absent(prev, x);
            let d = dedup_records(prev).push(s.last());
            assert(d.drop_last() =~= dedup_records(prev));
            assert(count_eq(d, x) == 1);
        }
    } else {
        let w = choose|i: int| 0 <= i < s.len() && s[i] == x;
        assert(w < n);
        assert(prev[w] == x);
        lemma_dedup_single_copy(prev, x);
        if !rec_seen_before(s, n) {
            let d = dedup_records(prev).push(s.last());
            assert(d.drop_last() =~= dedup_records(prev));
        }
    }
}

} // verus!
