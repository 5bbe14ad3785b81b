//! The deduplicating chunker, the shard writer arithmetic, and the `.npy`
//! output files, read back with an independent reader.

use pgn_to_numpy::config::{Config, ConfigError};
use pgn_to_numpy::dedup::{hash_encoded_input, DedupChunker};
use pgn_to_numpy::npy::{input_shard_bytes, label_shard_bytes_f32, label_shard_bytes_u16, u64_to_decimal};
use pgn_to_numpy::shards::{plan_chunks, progress_report, split_records, ShardCounter};

/// A distinct 833-bit input vector for each record index.
fn input_of(k: usize) -> Vec<bool> {
    let mut v = vec![false; 833];
    for i in 0..12 {
        v[1 + i] = (k >> i) & 1 == 1;
    }
    v
}

#[test]
fn duplicate_input_is_emitted_once() {
    // A sequence containing an exact duplicate yields exactly one copy.
    let mut chunker: DedupChunker<u16> = DedupChunker::new(2, true);
    assert!(chunker.push(input_of(1), 10).is_none());
    // The exact same encoded input again: dropped, the chunk stays short.
    assert!(chunker.push(input_of(1), 11).is_none());
    let chunk = chunker
        .push(input_of(2), 12)
        .expect("the second distinct record completes the chunk");
    assert_eq!(chunk.len(), 2);
    assert_eq!(chunk[0].0, input_of(1));
    assert_eq!(chunk[0].1, 10);
    assert_eq!(chunk[1].0, input_of(2));
    assert_eq!(chunk[1].1, 12);
}

#[test]
fn dedup_off_keeps_duplicates() {
    let mut chunker: DedupChunker<u16> = DedupChunker::new(2, false);
    assert!(chunker.push(input_of(1), 10).is_none());
    let chunk = chunker.push(input_of(1), 11).expect("both copies kept");
    assert_eq!(chunk.len(), 2);
}

#[test]
fn content_hash_is_fnv1a() {
    assert_eq!(hash_encoded_input(&vec![true]), 0xaf63bc4c8601b62c);
    assert_eq!(hash_encoded_input(&vec![false]), 0xaf63bd4c8601b7df);
    assert_eq!(hash_encoded_input(&vec![true, false]), 0x082f2207b4e88cc4);
    assert_ne!(
        hash_encoded_input(&input_of(1)),
        hash_encoded_input(&input_of(2))
    );
}

#[test]
fn shard_cap_drops_trailing_records() {
    // 2,500 records, chunks of 1,000, at most 2 shards: exactly two shards
    // of 1,000 records each; the trailing 500 are never emitted.
    let mut chunker: DedupChunker<u16> = DedupChunker::new(1000, false);
    let mut counter = ShardCounter::new(2);
    let mut shards: Vec<(usize, Vec<u8>, Vec<u8>)> = Vec::new();
    for k in 0..2500 {
        if let Some(chunk) = chunker.push(input_of(k), (k % 4096) as u16) {
            if let Some(index) = counter.take_index() {
                let (inputs, labels) = split_records(chunk);
                let input_bytes = input_shard_bytes(&inputs, 833);
                let label_bytes = label_shard_bytes_u16(&labels);
                shards.push((index, input_bytes, label_bytes));
            }
        }
    }
    assert_eq!(shards.len(), 2);
    assert_eq!(shards[0].0, 0);
    assert_eq!(shards[1].0, 1);

    // Read both files of the first shard back with an independent reader.
    let npy = npyz::NpyFile::new(&shards[0].1[..]).expect("a well-formed npy file");
    assert_eq!(npy.shape(), &[1000, 833]);
    let data: Vec<bool> = npy.into_vec().expect("boolean rows");
    assert_eq!(data.len(), 1000 * 833);
    // Row 7 is record 7: bits 1..13 hold the pattern of 7.
    assert!(data[7 * 833 + 1] && data[7 * 833 + 2] && data[7 * 833 + 3]);
    assert!(!data[7 * 833 + 4]);

    let npy = npyz::NpyFile::new(&shards[0].2[..]).expect("a well-formed npy file");
    assert_eq!(npy.shape(), &[1000]);
    let labels: Vec<u16> = npy.into_vec().expect("u16 labels");
    assert_eq!(labels.len(), 1000);
    assert_eq!(labels[7], 7);

    // The second shard continues where the first stopped.
    let npy = npyz::NpyFile::new(&shards[1].2[..]).expect("a well-formed npy file");
    let labels: Vec<u16> = npy.into_vec().expect("u16 labels");
    assert_eq!(labels[0], 1000);
}

#[test]
fn planned_chunks_respect_cap_and_order() {
    // The same 2,500-record scenario through the one-call planner: two full
    // chunks, the trailing 500 in none of them.
    let records: Vec<(Vec<bool>, u16)> = (0..2500)
        .map(|k| (input_of(k), (k % 4096) as u16))
        .collect();
    let chunks = plan_chunks(records, 1000, false, 2);
    assert_eq!(chunks.len(), 2);
    assert_eq!(chunks[0].len(), 1000);
    assert_eq!(chunks[1].len(), 1000);
    assert_eq!(chunks[0][0].1, 0);
    assert_eq!(chunks[1][0].1, 1000);
    assert_eq!(chunks[1][999].1, 1999);

    // Without the cap, still only full chunks come out.
    let records: Vec<(Vec<bool>, u16)> = (0..2500)
        .map(|k| (input_of(k), (k % 4096) as u16))
        .collect();
    let chunks = plan_chunks(records, 1000, false, 100);
    assert_eq!(chunks.len(), 2);

    // Deduplication applies before chunking: 30 records, 10 distinct.
    let records: Vec<(Vec<bool>, u16)> = (0..30)
        .map(|k| (input_of(k % 10), (k % 4096) as u16))
        .collect();
    let chunks = plan_chunks(records, 5, true, 100);
    assert_eq!(chunks.len(), 2);
    assert_eq!(chunks[0][0].1, 0);
    assert_eq!(chunks[1][4].1, 9);
}

#[test]
fn float_labels_round_trip_through_bits() {
    let values = [0.0f32, 0.5, 1.25, -3.0];
    let bits: Vec<u32> = values.iter().map(|f| f.to_bits()).collect();
    let bytes = label_shard_bytes_f32(&bits);
    let npy = npyz::NpyFile::new(&bytes[..]).expect("a well-formed npy file");
    assert_eq!(npy.shape(), &[4]);
    let back: Vec<f32> = npy.into_vec().expect("f32 labels");
    assert_eq!(back, values);
}

#[test]
fn npy_header_is_block_aligned() {
    // An empty shard is all header; the header must fill whole 64-byte
    // blocks for any shape.
    let empty: Vec<Vec<bool>> = Vec::new();
    assert_eq!(input_shard_bytes(&empty, 833).len() % 64, 0);
    let none: Vec<u16> = Vec::new();
    assert_eq!(label_shard_bytes_u16(&none).len() % 64, 0);
    let labels: Vec<u16> = (0..12345).map(|k| (k % 4096) as u16).collect();
    let bytes = label_shard_bytes_u16(&labels);
    assert_eq!((bytes.len() - 2 * labels.len()) % 64, 0);
}

#[test]
fn decimal_rendering() {
    assert_eq!(u64_to_decimal(0), b"0");
    assert_eq!(u64_to_decimal(7), b"7");
    assert_eq!(u64_to_decimal(1000), b"1000");
    assert_eq!(u64_to_decimal(u64::MAX), b"18446744073709551615");
}

#[test]
fn split_keeps_order() {
    let records = vec![
        (vec![true], 4u16),
        (vec![false], 5u16),
        (vec![true, true], 6u16),
    ];
    let (inputs, labels) = split_records(records);
    assert_eq!(inputs, vec![vec![true], vec![false], vec![true, true]]);
    assert_eq!(labels, vec![4, 5, 6]);
}

#[test]
fn progress_every_1024_records() {
    assert_eq!(progress_report(0, 4096, 50), None);
    assert_eq!(progress_report(1000, 4096, 50), None);
    // 1024 records in 1024 ms: one per millisecond, 3072 to go.
    assert_eq!(progress_report(1024, 4096, 1024), Some((3072, 3072)));
    // Counts beyond the total give no report.
    assert_eq!(progress_report(2048, 1024, 50), None);
}

#[test]
fn config_divisibility_is_checked() {
    let mut cfg = Config {
        min_elo: 1500,
        min_time: 300,
        only_checkmates: false,
        only_openings: false,
        only_middle_game: false,
        only_endgame: false,
        lenient: false,
        dedup: true,
        dry_run: false,
        total: 2000,
        boards_per_file: 1000,
    };
    assert_eq!(cfg.validate(), Ok(2));
    cfg.total = 2500;
    assert_eq!(cfg.validate(), Err(ConfigError::NotDivisible));
    cfg.boards_per_file = 0;
    assert_eq!(cfg.validate(), Err(ConfigError::ZeroShardSize));
}

#[test]
fn counter_stops_at_cap() {
    let mut counter = ShardCounter::new(2);
    assert_eq!(counter.take_index(), Some(0));
    assert_eq!(counter.take_index(), Some(1));
    assert_eq!(counter.take_index(), None);
    assert_eq!(counter.take_index(), None);
}
