//! What the job views say about operations: the short names of their kinds
//! and phases, the state of a job, and the time a running job has left.
use vstd::prelude::*;
use crate::text::{push_str, to_string};

verus! {

/// The kind of a file operation.
#[derive(Debug, Clone, Copy, PartialEq, Eq, Structural)]
pub enum OperationKind {
    Copy,
    Move,
    Delete,
    Trash,
    Sync,
    Archive,
    Hash,
    Verify,
    Extract,
    Test,
}

/// The phase a running operation is in.
#[derive(Debug, Clone, Copy, PartialEq, Eq, Structural)]
pub enum OperationPhase {
    Scanning,
    Copying,
    Compressing,
    Hashing,
    WritingHashes,
    VerifyingHashes,
    Finalizing,
    Extracting,
    Testing,
    Moving,
    Deleting,
}

/// Why a queued job waits.
#[derive(Debug, Clone, Copy, PartialEq, Eq, Structural)]
pub enum WaitReason {
    Capacity,
    Overlap,
}

/// How a finished job ended.
#[derive(Debug, Clone)]
pub enum JobOutcome {
    Succeeded,
    Cancelled,
    Failed(String),
}

/// The state of a job, as the job views read it.
#[derive(Debug, Clone)]
pub enum JobState {
    Queued(WaitReason),
    Paused,
    WaitingConflict,
    Cancelling,
    Finished(JobOutcome),
    Running,
}

/// The measured speed of a job, in bytes per second, and how long it has
/// run, in seconds.
#[derive(Debug, Clone, Copy)]
pub struct SpeedSnapshot {
    pub current: u64,
    pub average: u64,
    pub elapsed_secs: u64,
}

/// The short name of an operation kind.
pub open spec fn kind_name(kind: OperationKind) -> Seq<char> {
    match kind {
        OperationKind::Copy => "Copy"@,
        OperationKind::Move => "Move"@,
        OperationKind::Delete => "Delete"@,
        OperationKind::Trash => "Trash"@,
        OperationKind::Sync => "Sync"@,
        OperationKind::Archive => "Archive"@,
        OperationKind::Hash => "Hash"@,
        OperationKind::Verify => "Verify"@,
        OperationKind::Extract => "Extract"@,
        OperationKind::Test => "Test"@,
    }
}

/// The short name of a phase, at most ten columns wide.
pub open spec fn phase_label(phase: OperationPhase) -> Seq<char> {
    match phase {
        OperationPhase::Scanning => "Scanning"@,
        OperationPhase::Copying => "Copying"@,
        OperationPhase::Compressing => "Compress"@,
        OperationPhase::Hashing => "Hashing"@,
        OperationPhase::WritingHashes => "Writing"@,
        OperationPhase::VerifyingHashes => "Verifying"@,
        OperationPhase::Finalizing => "Finalize"@,
        OperationPhase::Extracting => "Extracting"@,
        OperationPhase::Testing => "Testing"@,
        OperationPhase::Moving => "Moving"@,
        OperationPhase::Deleting => "Deleting"@,
    }
}

/// The full name of a phase.
pub open spec fn phase_long_label(phase: OperationPhase) -> Seq<char> {
    match phase {
        OperationPhase::Scanning => "Scanning"@,
        OperationPhase::Copying => "Copying"@,
        OperationPhase::Compressing => "Compressing"@,
        OperationPhase::Hashing => "Hashing"@,
        OperationPhase::WritingHashes => "Writing hashes"@,
        OperationPhase::VerifyingHashes => "Verifying hashes"@,
        OperationPhase::Finalizing => "Finalizing"@,
        OperationPhase::Extracting => "Extracting"@,
        OperationPhase::Testing => "Testing"@,
        OperationPhase::Moving => "Moving"@,
        OperationPhase::Deleting => "Deleting"@,
    }
}

/// The state column of a background job: a running job shows its phase.
pub open spec fn background_state_label(state: JobState, phase: OperationPhase) -> Seq<char> {
    match state {
        JobState::Queued(_) => "Queued"@,
        JobState::Paused => "Paused"@,
        JobState::WaitingConflict => "Conflict"@,
        JobState::Cancelling => "Cancelling"@,
        JobState::Finished(JobOutcome::Succeeded) => "Complete"@,
        JobState::Finished(JobOutcome::Cancelled) => "Cancelled"@,
        JobState::Finished(JobOutcome::Failed(_)) => "Failed"@,
        JobState::Running => phase_label(phase),
    }
}

/// The state line of a job: why it waits, how it ended (with the error of
/// a failure), or the phase it runs in.
pub open spec fn job_state_text(state: JobState, phase: OperationPhase) -> Seq<char> {
    match state {
        JobState::Queued(WaitReason::Capacity) => "Queued: waiting for slot"@,
        JobState::Queued(WaitReason::Overlap) => "Queued: path overlap"@,
        JobState::Paused => "Paused"@,
        JobState::WaitingConflict => "Waiting for conflict choice"@,
        JobState::Cancelling => "Cancelling"@,
        JobState::Finished(JobOutcome::Succeeded) => "Complete"@,
        JobState::Finished(JobOutcome::Cancelled) => "Cancelled"@,
        JobState::Finished(JobOutcome::Failed(e)) => "Failed: "@ + e@,
        JobState::Running => phase_long_label(phase),
    }
}

pub fn compact_operation_kind(kind: OperationKind) -> (r: &'static str)
    ensures
        r@ == kind_name(kind),
{
    match kind {
        OperationKind::Copy => "Copy",
        OperationKind::Move => "Move",
        OperationKind::Delete => "Delete",
        OperationKind::Trash => "Trash",
        OperationKind::Sync => "Sync",
        OperationKind::Archive => "Archive",
        OperationKind::Hash => "Hash",
        OperationKind::Verify => "Verify",
        OperationKind::Extract => "Extract",
        OperationKind::Test => "Test",
    }
}

pub fn phase_name(phase: OperationPhase) -> (r: &'static str)
    ensures
        r@ == phase_label(phase),
{
    match phase {
        OperationPhase::Scanning => "Scanning",
        OperationPhase::Copying => "Copying",
        OperationPhase::Compressing => "Compress",
        OperationPhase::Hashing => "Hashing",
        OperationPhase::WritingHashes => "Writing",
        OperationPhase::VerifyingHashes => "Verifying",
        OperationPhase::Finalizing => "Finalize",
        OperationPhase::Extracting => "Extracting",
        OperationPhase::Testing => "Testing",
        OperationPhase::Moving => "Moving",
        OperationPhase::Deleting => "Deleting",
    }
}

/// The state column of a background job whose progress is in `phase`.
pub fn background_job_state(state: &JobState, phase: OperationPhase) -> (r: &'static str)
    ensures
        r@ == background_state_label(*state, phase),
{
    match state {
        JobState::Queued(_) => "Queued",
        JobState::Paused => "Paused",
        JobState::WaitingConflict => "Conflict",
        JobState::Cancelling => "Cancelling",
        JobState::Finished(JobOutcome::Succeeded) => "Complete",
        JobState::Finished(JobOutcome::Cancelled) => "Cancelled",
        JobState::Finished(JobOutcome::Failed(_)) => "Failed",
        JobState::Running => phase_name(phase),
    }
}

/// The full name of a phase.
fn phase_long_name(phase: OperationPhase) -> (r: &'static str)
    ensures
        r@ == phase_long_label(phase),
{
    match phase {
        OperationPhase::Scanning => "Scanning",
        OperationPhase::Copying => "Copying",
        OperationPhase::Compressing => "Compressing",
        OperationPhase::Hashing => "Hashing",
        OperationPhase::WritingHashes => "Writing hashes",
        OperationPhase::VerifyingHashes => "Verifying hashes",
        OperationPhase::Finalizing => "Finalizing",
        OperationPhase::Extracting => "Extracting",
        OperationPhase::Testing => "Testing",
        OperationPhase::Moving => "Moving",
        OperationPhase::Deleting => "Deleting",
    }
}

/// The state line of a job whose progress is in `phase`.
pub fn compact_job_state(state: &JobState, phase: OperationPhase) -> (r: String)
    ensures
        r@ == job_state_text(*state, phase),
{
    match state {
        JobState::Queued(WaitReason::Capacity) => to_string("Queued: waiting for slot"),
        JobState::Queued(WaitReason::Overlap) => to_string("Queued: path overlap"),
        JobState::Paused => to_string("Paused"),
        JobState::WaitingConflict => to_string("Waiting for conflict choice"),
        JobState::Cancelling => to_string("Cancelling"),
        JobState::Finished(JobOutcome::Succeeded) => to_string("Complete"),
        JobState::Finished(JobOutcome::Cancelled) => to_string("Cancelled"),
        JobState::Finished(JobOutcome::Failed(error)) => {
            let mut s = to_string("Failed: ");
            push_str(&mut s, error.as_str());
            s
        },
        JobState::Running => to_string(phase_long_name(phase)),
    }
}

/// The seconds a job has left: the bytes still to do over the larger of
/// the current speed and half the average; none without a speed, at a
/// speed of zero, or with nothing left.
pub open spec fn eta_spec(speed: Option<SpeedSnapshot>, total_bytes: u64, logical_done: u64) -> Option<
    nat,
> {
    match speed {
        None => None,
        Some(s) => {
            let bps: nat = if s.current >= s.average / 2 {
                s.current as nat
            } else {
                (s.average / 2) as nat
            };
            if bps == 0 || total_bytes <= logical_done {
                None
            } else {
                Some(((total_bytes - logical_done) as nat) / bps)
            }
        },
    }
}

/// The time a job has left, in seconds, from its speed and the total and
/// done bytes of its progress.
pub fn job_eta(speed: Option<SpeedSnapshot>, total_bytes: u64, logical_done: u64) -> (r: Option<
    u64,
>)
    ensures
        match eta_spec(speed, total_bytes, logical_done) {
            Some(n) => r matches Some(x) && x as nat == n,
            None => r is None,
        },
{
    let speed = match speed {
        Some(s) => s,
        None => {
            return None;
        },
    };
    let half = speed.average / 2;
    let bytes_per_second = if speed.current >= half {
        speed.current
    } else {
        half
    };
    if bytes_per_second == 0 || total_bytes <= logical_done {
        return None;
    }
    Some((total_bytes - logical_done) / bytes_per_second)
}

} // verus!
