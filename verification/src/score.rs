//! Round score and the persisted best-score record.
//!
//! The record itself is written to and read from disk outside this crate;
//! here live the plain data and the merge rule that decides what gets
//! persisted when a round ends.

use vstd::prelude::*;

verus! {

/// Sentinel stored when no round has ever been recorded.
pub const NO_RECORD: i32 = -1;

/// Best-score record persisted between runs.
#[derive(Clone, Copy, Debug, PartialEq, Eq, Structural)]
pub struct SaveData {
    pub high_score: i32,
    pub last_score: i32,
}

/// Running score of the active round.
#[derive(Clone, Copy, Debug, PartialEq, Eq, Structural)]
pub struct Score(pub i32);

/// What the record looks like after a finished round's score is folded in:
/// the score becomes the last score, and the high score never decreases.
pub open spec fn merged(score: i32, prev: SaveData) -> SaveData {
    SaveData {
        high_score: if score > prev.high_score {
            score
        } else {
            prev.high_score
        },
        last_score: score,
    }
}

impl SaveData {
    /// The record meaning "no prior data", substituted whenever the stored
    /// record is absent or unreadable.
    pub fn empty_record() -> (r: SaveData)
        ensures
            r.high_score == NO_RECORD,
            r.last_score == NO_RECORD,
    {
        SaveData { high_score: NO_RECORD, last_score: NO_RECORD }
    }
}

/// Fold a finished round's score into the persisted record.  The caller is
/// expected to write the returned record to storage and to keep it as the
/// latest known value.
pub fn save_data(score: i32, current_data: SaveData) -> (r: SaveData)
    ensures
        r == merged(score, current_data),
{
    SaveData {
        high_score: if score > current_data.high_score {
            score
        } else {
            current_data.high_score
        },
        last_score: score,
    }
}

/// Law: merging a score twice gives the same high score as merging it once,
/// and a merge never lowers the recorded high score.
pub proof fn lemma_save_idempotent_monotonic(x: i32, r: SaveData)
    ensures
        merged(x, merged(x, r)).high_score == merged(x, r).high_score,
        merged(x, r).high_score >= r.high_score,
        merged(x, r).last_score == x,
{
}

} // verus!
