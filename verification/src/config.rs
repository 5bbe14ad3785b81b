//! Run configuration, its validation, and the errors the pipeline reports.

use vstd::prelude::*;

verus! {

/// Configuration of one conversion run, built once at startup and passed by
/// reference into every component that needs it.
#[derive(Clone, Copy, PartialEq, Eq, Structural, Debug)]
pub struct Config {
    /// Games below this rating are filtered out.
    pub min_elo: u32,
    /// Games whose time-control heuristic (base + 30 * increment) falls
    /// below this are filtered out.
    pub min_time: u32,
    /// Keep only games that end in checkmate.
    pub only_checkmates: bool,
    /// Record only the first fifteen plies of each game.
    pub only_openings: bool,
    /// Record only positions early in the game or below the material
    /// threshold.
    pub only_middle_game: bool,
    /// Record only positions at or above the material threshold.
    pub only_endgame: bool,
    /// On a move that cannot be resolved, skip the move instead of failing.
    pub lenient: bool,
    /// Drop records whose encoded input was already seen this run.
    pub dedup: bool,
    /// Count records without writing anything.
    pub dry_run: bool,
    /// Total number of records to write over all shards.
    pub total: usize,
    /// Records per shard file.
    pub boards_per_file: usize,
}

/// A configuration the run must refuse before any file is touched.
#[derive(Clone, Copy, PartialEq, Eq, Structural, Debug)]
pub enum ConfigError {
    /// The shard size is zero.
    ZeroShardSize,
    /// The total is not a whole number of shards.
    NotDivisible,
}

/// A fatal condition found while converting; each aborts the run.
#[derive(Clone, Copy, PartialEq, Eq, Structural, Debug)]
pub enum PipelineError {
    /// A move token could not be resolved against its claimed position.
    UnresolvableMove,
    /// A header value failed to parse as the expected type.
    BadHeaderValue,
    /// An evaluation annotation was present but malformed.
    BadEvalComment,
    /// A resolved move that the label encoding rejects.
    UnencodableMove,
}

impl Config {
    /// Check the shard arithmetic before any output is created: the shard
    /// size must be positive and the total a whole number of shards.
    /// Returns the number of shards the run will write.
    pub fn validate(&self) -> (r: Result<usize, ConfigError>)
        ensures
            match r {
                Ok(m) => {
                    &&& self.boards_per_file >= 1
                    &&& self.total as int % self.boards_per_file as int == 0
                    &&& m == self.total as int / self.boards_per_file as int
                },
                Err(e) => {
                    &&& (e == ConfigError::ZeroShardSize <==> self.boards_per_file == 0)
                    &&& (e == ConfigError::NotDivisible <==> self.boards_per_file >= 1
                        && self.total as int % self.boards_per_file as int != 0)
                },
            },
    {
        if self.boards_per_file == 0 {
            Err(ConfigError::ZeroShardSize)
        } else if self.total % self.boards_per_file != 0 {
            Err(ConfigError::NotDivisible)
        } else {
            Ok(self.total / self.boards_per_file)
        }
    }
}

} // verus!
