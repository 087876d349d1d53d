//! The decisions of the sinks that move buffered rows into the database.
use vstd::prelude::*;

verus! {

/// What a sink does after one pull from the aggregator.
#[derive(Debug, Clone, Copy)]
pub struct SinkPlan {
    /// Whether the pulled rows are inserted now.
    pub insert: bool,
    /// After how many milliseconds the sink pulls again.
    pub retry_after_millis: u64,
}

/// The plan after pulling `pulled` rows with the database available or not:
/// insert when available and there is something to insert, and pull again
/// after 200 ms, or after 5 s while the database is away.
pub open spec fn sink_plan(pulled: int, available: bool) -> SinkPlan {
    if available {
        SinkPlan { insert: pulled != 0, retry_after_millis: 200 }
    } else {
        SinkPlan { insert: false, retry_after_millis: 5000 }
    }
}

/// Plans the step that follows a pull, as [`sink_plan`] describes.
pub fn plan_after_pull(pulled: usize, available: bool) -> (plan: SinkPlan)
    ensures
        plan == sink_plan(pulled as int, available),
{
    if available {
        SinkPlan { insert: pulled != 0, retry_after_millis: 200 }
    } else {
        SinkPlan { insert: false, retry_after_millis: 5000 }
    }
}

/// A random roll in `lo..hi`.
///
/// Wraps `rand::Rng::gen_range` on `rand::thread_rng()`, which rand documents
/// to give a value in the half-open range and to panic only on an empty
/// range. Which value comes out is left open: it is random.
#[verifier::external_body]
fn roll(lo: i32, hi: i32) -> (r: i32)
    requires
        lo < hi,
    ensures
        lo <= r < hi,
{
    rand::Rng::gen_range(&mut rand::thread_rng(), lo..hi)
}

/// Whether a roll counts as the database being available: it is unless the
/// roll is above 8.
pub fn availability_for_roll(roll: i32) -> (available: bool)
    ensures
        available == (roll <= 8),
{
    if roll > 8 {
        return false;
    }
    true
}

/// Whether the database is taken to be available for this round: one roll
/// in nine says it is not.
pub fn db_is_available() -> (available: bool) {
    let y = roll(1, 10);
    availability_for_roll(y)
}

/// Law: a sink inserts exactly the non-empty pulls made while the database
/// is available, so a pulled row, which the aggregator no longer holds, is
/// never left out then; it pulls again after 200 ms while the database is
/// available and after 5 s while it is away.
pub proof fn lemma_sink_rules(pulled: int, available: bool)
    requires
        pulled >= 0,
    ensures
        sink_plan(pulled, available).insert <==> (available && pulled >= 1),
        available ==> sink_plan(pulled, available).retry_after_millis == 200,
        !available ==> sink_plan(pulled, available).retry_after_millis == 5000,
{
}

} // verus!
