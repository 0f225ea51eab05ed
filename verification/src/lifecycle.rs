//! The teardown logic of the lifecycle guard: what the foreground must do
//! once the worker has been signalled and joined.

use vstd::prelude::*;

use crate::cassette::Cassette;
use crate::cassette::Mode;
use crate::codec::enc_cassette;
use crate::codec::encode_cassette;

verus! {

/// How the worker ended: it finished its loop and returned its payload (the
/// serialized cassette and its path when capturing, nothing when replaying),
/// or it aborted on an internal failure.
pub enum WorkerOutcome {
    /// The worker ran to completion with this payload.
    Finished(Option<(Vec<u8>, String)>),
    /// The worker aborted, e.g. on a replay mismatch.
    Failed,
}

/// What teardown must do after joining the worker.
pub enum TeardownAction {
    /// Write these cassette bytes to this path.
    Persist(Vec<u8>, String),
    /// Re-raise the worker's failure to the foreground, with its buffered
    /// diagnostics.
    RaiseFailure(String),
    /// Surface the diagnostics as informational output only: the foreground
    /// is already failing and must not be masked.
    LogDiagnostics(String),
    /// Nothing further is owed.
    Nothing,
}

/// The teardown rule. A worker failure is re-raised unless the foreground is
/// already failing, in which case its diagnostics are only surfaced (and
/// silently dropped when empty). A worker that finished normally while
/// capturing has its bytes persisted — the worker's outcome is the only
/// gate, whatever the foreground's state; a finished replay run owes
/// nothing.
pub open spec fn spec_teardown(
    outcome: WorkerOutcome,
    foreground_failing: bool,
    diagnostics: String,
) -> TeardownAction {
    match outcome {
        WorkerOutcome::Failed => if !foreground_failing {
            TeardownAction::RaiseFailure(diagnostics)
        } else if diagnostics@.len() > 0 {
            TeardownAction::LogDiagnostics(diagnostics)
        } else {
            TeardownAction::Nothing
        },
        WorkerOutcome::Finished(payload) => match payload {
            Some(pair) => TeardownAction::Persist(pair.0, pair.1),
            None => TeardownAction::Nothing,
        },
    }
}

/// Decides the teardown step from the joined worker's outcome and the
/// foreground's own state.
pub fn teardown_action(
    outcome: WorkerOutcome,
    foreground_failing: bool,
    diagnostics: String,
) -> (r: TeardownAction)
    ensures
        r == spec_teardown(outcome, foreground_failing, diagnostics),
{
    match outcome {
        WorkerOutcome::Failed => {
            if !foreground_failing {
                TeardownAction::RaiseFailure(diagnostics)
            } else if !diagnostics.as_str().is_empty() {
                TeardownAction::LogDiagnostics(diagnostics)
            } else {
                TeardownAction::Nothing
            }
        }
        WorkerOutcome::Finished(payload) => {
            match payload {
                Some(pair) => TeardownAction::Persist(pair.0, pair.1),
                None => TeardownAction::Nothing,
            }
        }
    }
}

/// What a worker hands back when its loop ends: a capturing cassette is
/// serialized exactly once, bound to its destination path; a replaying one
/// yields nothing.
pub fn worker_result(cassette: Cassette) -> (r: Option<(Vec<u8>, String)>)
    ensures
        cassette.spec_mode() == Mode::Capturing ==> (r matches Some(pair) && pair.0@
            == enc_cassette(cassette.contents()) && pair.1@ == cassette.spec_path()),
        cassette.spec_mode() == Mode::Replaying ==> r is None,
{
    match cassette {
        Cassette::Capturing { log, path } => {
            let data = encode_cassette(&log);
            Some((data, path))
        }
        Cassette::Replaying { .. } => None,
    }
}

} // verus!
