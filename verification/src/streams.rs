//! The decisions of the loops that move video between processes: the camera
//! capture loop, the segment writer and the live-view output loop.
use vstd::prelude::*;

verus! {

/// What a stream loop does after one read.
#[derive(PartialEq, Eq, Structural, Debug, Clone, Copy)]
pub enum PumpAction {
    /// Pass on the bytes read (how many).
    Forward(usize),
    /// Nothing to pass on yet: wait a moment and read again.
    Wait,
    /// End the loop.
    Stop,
}

/// How long the live view waits for its encoder's first output, in milliseconds.
pub const LIVE_TIMEOUT_MILLIS: i64 = 10_000;

/// The time until which the live view waits for output, for a start at `now`.
pub fn live_deadline(now: i64) -> (r: i64)
    requires
        now <= i64::MAX - LIVE_TIMEOUT_MILLIS,
    ensures
        r == now + LIVE_TIMEOUT_MILLIS,
{
    now + LIVE_TIMEOUT_MILLIS
}

/// One read of the live-view encoder's output (`None`: the read failed):
/// stop on a failed read; pass on what was read; on an empty read, wait
/// until the deadline has passed, then stop.
pub fn live_output_step(read: Option<usize>, now: i64, deadline: i64) -> (r: PumpAction)
    ensures
        r == match read {
            None => PumpAction::Stop,
            Some(n) => if n > 0 {
                PumpAction::Forward(n)
            } else if deadline < now {
                PumpAction::Stop
            } else {
                PumpAction::Wait
            },
        },
{
    match read {
        None => PumpAction::Stop,
        Some(n) => if n > 0 {
            PumpAction::Forward(n)
        } else if deadline < now {
            PumpAction::Stop
        } else {
            PumpAction::Wait
        },
    }
}

/// What the segment writer does after a chunk is written, while segment
/// `next` (a numbered file in the capture directory) is the oldest not yet
/// archived: the encoder has finished it once the segment after it exists,
/// and then it is archived and the writer moves on to the one after it.
/// Gives the segment to look for next and the segment to archive, if any.
pub open spec fn spec_segment_step(next: nat, next_exists: bool, following_exists: bool) -> (nat, Option<nat>) {
    if next_exists && following_exists {
        ((next + 1) as nat, Some(next))
    } else {
        (next, None)
    }
}

/// A run of the segment writer from segment 0, where `seen` holds what it
/// found after each chunk (whether the segment it waits for exists, and
/// whether the one after it does): the segment it waits for at the end, and
/// the segments it archived, in order.
pub open spec fn segment_run(seen: Seq<(bool, bool)>) -> (nat, Seq<nat>)
    decreases seen.len(),
{
    if seen.len() == 0 {
        (0, Seq::empty())
    } else {
        let (next, archived) = segment_run(seen.drop_last());
        let (after, done) = spec_segment_step(next, seen.last().0, seen.last().1);
        match done {
            Some(k) => (after, archived.push(k)),
            None => (after, archived),
        }
    }
}

/// Law: whatever the writer finds, it archives the segments 0, 1, 2, ... in
/// order, each once and none skipped, and waits for the one after the last it
/// archived.
pub proof fn lemma_segments_archived_in_order(seen: Seq<(bool, bool)>)
    ensures
        segment_run(seen).1 == Seq::new(segment_run(seen).0, |i: int| i as nat),
    decreases seen.len(),
{
    if seen.len() > 0 {
        lemma_segments_archived_in_order(seen.drop_last());
        let (next, archived) = segment_run(seen.drop_last());
        assert(archived.push(next) =~= Seq::new((next + 1) as nat, |i: int| i as nat));
    }
}

/// One decision of the segment writer (see `spec_segment_step`).
pub fn segment_step(next: u64, next_exists: bool, following_exists: bool) -> (r: (u64, Option<u64>))
    requires
        next < u64::MAX,
    ensures
        r.0 as nat == spec_segment_step(next as nat, next_exists, following_exists).0,
        r.1 matches Some(k) ==> spec_segment_step(next as nat, next_exists, following_exists).1 == Some(k as nat),
        r.1 is None ==> spec_segment_step(next as nat, next_exists, following_exists).1 is None,
{
    if next_exists && following_exists {
        (next + 1, Some(next))
    } else {
        (next, None)
    }
}

/// One read of the camera's output in the capture loop (`None`: the read
/// failed): pass on what was read; a failed or empty read ends the loop.
pub fn capture_step(read: Option<usize>) -> (r: PumpAction)
    ensures
        r == match read {
            Some(n) => if n > 0 {
                PumpAction::Forward(n)
            } else {
                PumpAction::Stop
            },
            None => PumpAction::Stop,
        },
{
    match read {
        Some(n) => if n > 0 {
            PumpAction::Forward(n)
        } else {
            PumpAction::Stop
        },
        None => PumpAction::Stop,
    }
}

} // verus!
