//! Conversion of recorded chess games into fixed-width numeric tensors.
//!
//! The pipeline replays each game to reconstruct every intermediate
//! position, encodes positions into fixed-length boolean feature vectors and
//! labels into compact numeric form, deduplicates encoded records by content
//! hash, and groups survivors into fixed-size chunks rendered as `.npy`
//! shard files.  File, network and terminal handling live outside this
//! library; the logic here is verified.

pub mod board;
pub mod chessio;
pub mod config;
pub mod dedup;
pub mod download;
pub mod eval;
pub mod moves;
pub mod npy;
pub mod puzzle;
pub mod replay;
pub mod shards;
