//! Decisions of the two watchers: which changes start a copy, where the
//! copy goes, and which outcomes are worth a warning.
use crate::saves::{SaveCandidate, SaveError, SaveKind, is_newer, is_save_candidate, other_side, save_file};
use vstd::prelude::*;

verus! {

/// How a copy attempt triggered by a watcher ended.
#[derive(Clone, Copy, Debug, PartialEq, Eq, Structural)]
pub enum SyncOutcome {
    /// The destination was overwritten.
    Synced,
    /// Nothing to do: no destination save yet, or the source is not newer.
    Skipped,
    /// Something went wrong; the watcher warns and keeps running.
    Failed,
}

/// The side to copy to when the watcher of `source` reports a change of
/// `event`; `None` when the changed entry is not a save file of `source`.
pub fn route_event(source: SaveKind, event: &SaveCandidate) -> (r: Option<SaveKind>)
    ensures
        r is Some <==> is_save_candidate(source, *event),
        r is Some ==> r->0 == other_side(source),
{
    match save_file(source, event) {
        Some(_) => Some(match source {
            SaveKind::Steam => SaveKind::Xbox,
            SaveKind::Xbox => SaveKind::Steam,
        }),
        None => None,
    }
}

/// What the outcome of a copy attempt means to the watcher: the expected
/// "no save yet" and "not newer" conditions are skipped silently.
pub fn classify(r: &Result<(), SaveError>) -> (o: SyncOutcome)
    ensures
        r is Ok ==> o == SyncOutcome::Synced,
        r is Err && (r->Err_0 is NoSave || r->Err_0 is ModifyTime) ==> o == SyncOutcome::Skipped,
        r is Err && !(r->Err_0 is NoSave || r->Err_0 is ModifyTime) ==> o == SyncOutcome::Failed,
{
    match r {
        Ok(()) => SyncOutcome::Synced,
        Err(SaveError::NoSave) => SyncOutcome::Skipped,
        Err(SaveError::ModifyTime) => SyncOutcome::Skipped,
        Err(_) => SyncOutcome::Failed,
    }
}

/// Conflict resolution: a save with modification time `ts_a` overwrites one
/// with time `ts_b` exactly when `ts_a > ts_b`; equal times never overwrite.
pub proof fn lemma_conflict_resolution(ts_a: i128, ts_b: i128)
    ensures
        is_newer(ts_a, ts_b) <==> ts_a > ts_b,
        !is_newer(ts_a, ts_a),
{
}

/// Idempotence: once a copy from a source with time `from_time` has
/// overwritten a destination with time `to_time`, the destination carries
/// the time of that write, `written_time`, which is not before the source's
/// last change. Copying again from the unchanged source is then refused as
/// not newer.
pub proof fn lemma_copy_idempotent(from_time: i128, to_time: i128, written_time: i128)
    requires
        is_newer(from_time, to_time),
        written_time >= from_time,
    ensures
        !is_newer(from_time, written_time),
{
}

/// Feedback safety: when the overwrite leaves the destination with the
/// source's time, the reverse attempt that the destination's watcher starts
/// is refused as not newer, and so is a further forward attempt: nothing
/// propagates past that one extra attempt.
pub proof fn lemma_feedback_stops(from_time: i128, written_time: i128)
    requires
        written_time == from_time,
    ensures
        !is_newer(written_time, from_time),
        !is_newer(from_time, written_time),
{
}

} // verus!
