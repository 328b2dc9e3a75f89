//! Applying a staged restore at start-up, before the database is opened, as
//! a sequence of file steps decided one at a time: nothing to do without a
//! marker; a marker without a staged file is stale and removed; else the
//! write-ahead files go, the live database is moved aside, the staged file
//! is copied in its place, and the leftovers are removed, or, when the copy
//! fails, the live database is put back and the marker kept for a retry.
use vstd::prelude::*;
use crate::backup::{marker_path, staging_path, with_suffix, sibling_of};

verus! {

/// A file step for the caller to carry out.
#[derive(Debug)]
pub enum RestoreAction {
    /// Report whether the file exists.
    CheckExists(String),
    /// Delete the file; its outcome does not matter.
    RemoveQuietly(String),
    /// Rename `from` to `to` and report the outcome.
    Rename(String, String),
    /// Copy `from` to `to` and report the outcome.
    Copy(String, String),
    /// Done, with this outcome (the failure's text).
    Finish(Result<(), String>),
}

/// What a file step gave.
#[derive(Debug)]
pub enum RestoreEvent {
    Exists(bool),
    Done(Result<(), String>),
}

/// Where the procedure stands: which step's outcome it waits for.
#[derive(Debug)]
pub enum RestorePhase {
    MarkerChecked,
    StagingChecked,
    StaleMarkerRemoved,
    WalChecked,
    WalRemoved,
    ShmChecked,
    ShmRemoved,
    OldChecked,
    OldRemoved,
    MainChecked,
    MainRenamed,
    Copied,
    LeftoverOldChecked,
    LeftoverOldRemoved,
    StagingRemoved,
    MarkerRemoved,
    /// Putting the live database back after the copy failed with the text.
    RollbackOldChecked(String),
    RollbackCopied(String),
    RollbackOldRemoved(String),
    Finished,
}

/// The files of a restore and where it stands.
pub struct RestoreRun {
    pub db: String,
    pub marker: String,
    pub staging: String,
    pub wal: String,
    pub shm: String,
    pub old: String,
    pub phase: RestorePhase,
}

/// The files of a run for the database at `db`.
pub open spec fn run_files(run: RestoreRun, db: Seq<char>) -> bool {
    &&& run.db@ == db
    &&& sibling_of(db, "restore.pending"@, run.marker@)
    &&& run.staging@ == db + ".restore-pending"@
    &&& run.wal@ == db + "-wal"@
    &&& run.shm@ == db + "-shm"@
    &&& run.old@ == db + ".old"@
}

/// The step after `phase` given `event`: the next phase and the action, as
/// (phase, kind, first path, second path, outcome). Kinds: 0 check, 1
/// remove, 2 rename, 3 copy, 4 finish. An event of the wrong kind ends the
/// run with the failure text `unexpected step outcome`.
pub open spec fn is_step(run: RestoreRun, event: RestoreEvent, next: RestorePhase, action: RestoreAction) -> bool {
    match (run.phase, event) {
        (RestorePhase::MarkerChecked, RestoreEvent::Exists(false)) => next is Finished && action == RestoreAction::Finish(Ok(())),
        (RestorePhase::MarkerChecked, RestoreEvent::Exists(true)) => next is StagingChecked && action == RestoreAction::CheckExists(run.staging),
        (RestorePhase::StagingChecked, RestoreEvent::Exists(false)) => next is StaleMarkerRemoved && action == RestoreAction::RemoveQuietly(run.marker),
        (RestorePhase::StagingChecked, RestoreEvent::Exists(true)) => next is WalChecked && action == RestoreAction::CheckExists(run.wal),
        (RestorePhase::StaleMarkerRemoved, RestoreEvent::Done(_)) => next is Finished && action == RestoreAction::Finish(Ok(())),
        (RestorePhase::WalChecked, RestoreEvent::Exists(true)) => next is WalRemoved && action == RestoreAction::RemoveQuietly(run.wal),
        (RestorePhase::WalChecked, RestoreEvent::Exists(false)) => next is ShmChecked && action == RestoreAction::CheckExists(run.shm),
        (RestorePhase::WalRemoved, RestoreEvent::Done(_)) => next is ShmChecked && action == RestoreAction::CheckExists(run.shm),
        (RestorePhase::ShmChecked, RestoreEvent::Exists(true)) => next is ShmRemoved && action == RestoreAction::RemoveQuietly(run.shm),
        (RestorePhase::ShmChecked, RestoreEvent::Exists(false)) => next is OldChecked && action == RestoreAction::CheckExists(run.old),
        (RestorePhase::ShmRemoved, RestoreEvent::Done(_)) => next is OldChecked && action == RestoreAction::CheckExists(run.old),
        (RestorePhase::OldChecked, RestoreEvent::Exists(true)) => next is OldRemoved && action == RestoreAction::RemoveQuietly(run.old),
        (RestorePhase::OldChecked, RestoreEvent::Exists(false)) => next is MainChecked && action == RestoreAction::CheckExists(run.db),
        (RestorePhase::OldRemoved, RestoreEvent::Done(_)) => next is MainChecked && action == RestoreAction::CheckExists(run.db),
        (RestorePhase::MainChecked, RestoreEvent::Exists(true)) => next is MainRenamed && action == RestoreAction::Rename(run.db, run.old),
        (RestorePhase::MainChecked, RestoreEvent::Exists(false)) => next is Copied && action == RestoreAction::Copy(run.staging, run.db),
        (RestorePhase::MainRenamed, RestoreEvent::Done(Err(e))) => next is Finished && action == RestoreAction::Finish(Err(e)),
        (RestorePhase::MainRenamed, RestoreEvent::Done(Ok(()))) => next is Copied && action == RestoreAction::Copy(run.staging, run.db),
        (RestorePhase::Copied, RestoreEvent::Done(Ok(()))) => next is LeftoverOldChecked && action == RestoreAction::CheckExists(run.old),
        (RestorePhase::Copied, RestoreEvent::Done(Err(e))) => next == RestorePhase::RollbackOldChecked(e) && action == RestoreAction::CheckExists(run.old),
        (RestorePhase::LeftoverOldChecked, RestoreEvent::Exists(true)) => next is LeftoverOldRemoved && action == RestoreAction::RemoveQuietly(run.old),
        (RestorePhase::LeftoverOldChecked, RestoreEvent::Exists(false)) => next is StagingRemoved && action == RestoreAction::RemoveQuietly(run.staging),
        (RestorePhase::LeftoverOldRemoved, RestoreEvent::Done(_)) => next is StagingRemoved && action == RestoreAction::RemoveQuietly(run.staging),
        (RestorePhase::StagingRemoved, RestoreEvent::Done(_)) => next is MarkerRemoved && action == RestoreAction::RemoveQuietly(run.marker),
        (RestorePhase::MarkerRemoved, RestoreEvent::Done(_)) => next is Finished && action == RestoreAction::Finish(Ok(())),
        (RestorePhase::RollbackOldChecked(e), RestoreEvent::Exists(true)) => next == RestorePhase::RollbackCopied(e) && action == RestoreAction::Copy(run.old, run.db),
        (RestorePhase::RollbackOldChecked(e), RestoreEvent::Exists(false)) => next is Finished && action == RestoreAction::Finish(Err(e)),
        (RestorePhase::RollbackCopied(e), RestoreEvent::Done(_)) => next == RestorePhase::RollbackOldRemoved(e) && action == RestoreAction::RemoveQuietly(run.old),
        (RestorePhase::RollbackOldRemoved(e), RestoreEvent::Done(_)) => next is Finished && action == RestoreAction::Finish(Err(e)),
        _ => next is Finished && (action matches RestoreAction::Finish(Err(m)) && m@ == "unexpected step outcome"@),
    }
}

/// How far a phase is from the end: every step goes to a phase nearer to
/// it.
pub open spec fn phase_rank(ph: RestorePhase) -> nat {
    match ph {
        RestorePhase::MarkerChecked => 20,
        RestorePhase::StagingChecked => 19,
        RestorePhase::WalChecked => 18,
        RestorePhase::WalRemoved => 17,
        RestorePhase::ShmChecked => 16,
        RestorePhase::ShmRemoved => 15,
        RestorePhase::OldChecked => 14,
        RestorePhase::OldRemoved => 13,
        RestorePhase::MainChecked => 12,
        RestorePhase::MainRenamed => 11,
        RestorePhase::Copied => 10,
        RestorePhase::LeftoverOldChecked => 9,
        RestorePhase::LeftoverOldRemoved => 8,
        RestorePhase::StagingRemoved => 7,
        RestorePhase::MarkerRemoved => 6,
        RestorePhase::RollbackOldChecked(_) => 5,
        RestorePhase::RollbackCopied(_) => 4,
        RestorePhase::RollbackOldRemoved(_) => 3,
        RestorePhase::StaleMarkerRemoved => 1,
        RestorePhase::Finished => 0,
    }
}

/// Applying a staged restore always finishes: whatever a step gives, the
/// next phase is nearer to the end, so a run takes at most twenty steps.
pub proof fn law_restore_always_finishes(run: RestoreRun, event: RestoreEvent, next: RestorePhase, action: RestoreAction)
    requires
        is_step(run, event, next, action),
        !(run.phase is Finished),
    ensures
        phase_rank(next) < phase_rank(run.phase),
{
}

/// A restore touches its own files only: it removes only the marker, the
/// staged file, the write-ahead files and the set-aside copy; it renames
/// only the live database to the set-aside copy; and it copies only the
/// staged file or the set-aside copy onto the live database.
pub proof fn law_restore_touches_its_files_only(run: RestoreRun, event: RestoreEvent, next: RestorePhase, action: RestoreAction)
    requires
        is_step(run, event, next, action),
    ensures
        action matches RestoreAction::RemoveQuietly(p) ==> p == run.marker || p == run.staging || p == run.wal || p
            == run.shm || p == run.old,
        action matches RestoreAction::Rename(from, to) ==> from == run.db && to == run.old,
        action matches RestoreAction::Copy(from, to) ==> (from == run.staging || from == run.old) && to == run.db,
{
}

/// Starts applying a staged restore for the database at `db_path`: the
/// first step checks for the marker.
pub fn restore_start(db_path: &str) -> (r: (RestoreRun, RestoreAction))
    ensures
        run_files(r.0, db_path@),
        r.0.phase is MarkerChecked,
        r.1 == RestoreAction::CheckExists(r.0.marker),
{
    let marker = marker_path(db_path);
    let run = RestoreRun {
        db: crate::text::owned(db_path),
        marker: marker.clone(),
        staging: staging_path(db_path),
        wal: with_suffix(db_path, "-wal"),
        shm: with_suffix(db_path, "-shm"),
        old: with_suffix(db_path, ".old"),
        phase: RestorePhase::MarkerChecked,
    };
    (run, RestoreAction::CheckExists(marker))
}

/// The next step of a restore, given what the last one gave (see
/// [`is_step`]); the files of the run stay the same.
pub fn restore_step(run: &mut RestoreRun, event: RestoreEvent) -> (action: RestoreAction)
    ensures
        is_step(*old(run), event, final(run).phase, action),
        final(run).db == old(run).db,
        final(run).marker == old(run).marker,
        final(run).staging == old(run).staging,
        final(run).wal == old(run).wal,
        final(run).shm == old(run).shm,
        final(run).old == old(run).old,
{
    let (next, action) = match (&run.phase, event) {
        (RestorePhase::MarkerChecked, RestoreEvent::Exists(false)) => (RestorePhase::Finished, RestoreAction::Finish(Ok(()))),
        (RestorePhase::MarkerChecked, RestoreEvent::Exists(true)) => (RestorePhase::StagingChecked, RestoreAction::CheckExists(run.staging.clone())),
        (RestorePhase::StagingChecked, RestoreEvent::Exists(false)) => (RestorePhase::StaleMarkerRemoved, RestoreAction::RemoveQuietly(run.marker.clone())),
        (RestorePhase::StagingChecked, RestoreEvent::Exists(true)) => (RestorePhase::WalChecked, RestoreAction::CheckExists(run.wal.clone())),
        (RestorePhase::StaleMarkerRemoved, RestoreEvent::Done(_)) => (RestorePhase::Finished, RestoreAction::Finish(Ok(()))),
        (RestorePhase::WalChecked, RestoreEvent::Exists(true)) => (RestorePhase::WalRemoved, RestoreAction::RemoveQuietly(run.wal.clone())),
        (RestorePhase::WalChecked, RestoreEvent::Exists(false)) => (RestorePhase::ShmChecked, RestoreAction::CheckExists(run.shm.clone())),
        (RestorePhase::WalRemoved, RestoreEvent::Done(_)) => (RestorePhase::ShmChecked, RestoreAction::CheckExists(run.shm.clone())),
        (RestorePhase::ShmChecked, RestoreEvent::Exists(true)) => (RestorePhase::ShmRemoved, RestoreAction::RemoveQuietly(run.shm.clone())),
        (RestorePhase::ShmChecked, RestoreEvent::Exists(false)) => (RestorePhase::OldChecked, RestoreAction::CheckExists(run.old.clone())),
        (RestorePhase::ShmRemoved, RestoreEvent::Done(_)) => (RestorePhase::OldChecked, RestoreAction::CheckExists(run.old.clone())),
        (RestorePhase::OldChecked, RestoreEvent::Exists(true)) => (RestorePhase::OldRemoved, RestoreAction::RemoveQuietly(run.old.clone())),
        (RestorePhase::OldChecked, RestoreEvent::Exists(false)) => (RestorePhase::MainChecked, RestoreAction::CheckExists(run.db.clone())),
        (RestorePhase::OldRemoved, RestoreEvent::Done(_)) => (RestorePhase::MainChecked, RestoreAction::CheckExists(run.db.clone())),
        (RestorePhase::MainChecked, RestoreEvent::Exists(true)) => (RestorePhase::MainRenamed, RestoreAction::Rename(run.db.clone(), run.old.clone())),
        (RestorePhase::MainChecked, RestoreEvent::Exists(false)) => (RestorePhase::Copied, RestoreAction::Copy(run.staging.clone(), run.db.clone())),
        (RestorePhase::MainRenamed, RestoreEvent::Done(Err(e))) => (RestorePhase::Finished, RestoreAction::Finish(Err(e))),
        (RestorePhase::MainRenamed, RestoreEvent::Done(Ok(()))) => (RestorePhase::Copied, RestoreAction::Copy(run.staging.clone(), run.db.clone())),
        (RestorePhase::Copied, RestoreEvent::Done(Ok(()))) => (RestorePhase::LeftoverOldChecked, RestoreAction::CheckExists(run.old.clone())),
        (RestorePhase::Copied, RestoreEvent::Done(Err(e))) => (RestorePhase::RollbackOldChecked(e), RestoreAction::CheckExists(run.old.clone())),
        (RestorePhase::LeftoverOldChecked, RestoreEvent::Exists(true)) => (RestorePhase::LeftoverOldRemoved, RestoreAction::RemoveQuietly(run.old.clone())),
        (RestorePhase::LeftoverOldChecked, RestoreEvent::Exists(false)) => (RestorePhase::StagingRemoved, RestoreAction::RemoveQuietly(run.staging.clone())),
        (RestorePhase::LeftoverOldRemoved, RestoreEvent::Done(_)) => (RestorePhase::StagingRemoved, RestoreAction::RemoveQuietly(run.staging.clone())),
        (RestorePhase::StagingRemoved, RestoreEvent::Done(_)) => (RestorePhase::MarkerRemoved, RestoreAction::RemoveQuietly(run.marker.clone())),
        (RestorePhase::MarkerRemoved, RestoreEvent::Done(_)) => (RestorePhase::Finished, RestoreAction::Finish(Ok(()))),
        (RestorePhase::RollbackOldChecked(e), RestoreEvent::Exists(true)) => (RestorePhase::RollbackCopied(e.clone()), RestoreAction::Copy(run.old.clone(), run.db.clone())),
        (RestorePhase::RollbackOldChecked(e), RestoreEvent::Exists(false)) => (RestorePhase::Finished, RestoreAction::Finish(Err(e.clone()))),
        (RestorePhase::RollbackCopied(e), RestoreEvent::Done(_)) => (RestorePhase::RollbackOldRemoved(e.clone()), RestoreAction::RemoveQuietly(run.old.clone())),
        (RestorePhase::RollbackOldRemoved(e), RestoreEvent::Done(_)) => (RestorePhase::Finished, RestoreAction::Finish(Err(e.clone()))),
        _ => (RestorePhase::Finished, RestoreAction::Finish(Err(crate::text::owned("unexpected step outcome")))),
    };
    run.phase = next;
    action
}

} // verus!
