//! The course of one session: what it is set up with, and the order of its
//! steps.
//!
//! A session takes the remote lock, discovers both trees, executes the plan
//! and releases the lock. A preview session takes no lock and changes
//! nothing. The engine decides which step comes next; whoever drives the
//! session performs the step and reports how it ended.

use crate::api::StorageZoneClient;
use crate::error::SyncError;
use crate::text::{normalize_path, with_trailing_slash};
use vstd::prelude::*;

verus! {

/// What a session works with: the zone, the remote directory to fill and
/// the local directory to read. Both directories end with a slash.
#[derive(Debug)]
pub struct SyncJob {
    pub client: StorageZoneClient,
    pub path: String,
    pub local_path: String,
}

/// Sets a session up. The access key given directly counts before the one
/// from the environment; a session without either does not start.
pub fn init_sync(
    access_key: Option<String>,
    environment_key: Option<String>,
    local_path: String,
    path: String,
    storage_zone: String,
    endpoint: String,
) -> (outcome: Result<SyncJob, SyncError>)
    ensures
        outcome is Err <==> access_key is None && environment_key is None,
        outcome matches Err(fault) ==> fault == SyncError::MissingAccessKey,
        outcome matches Ok(job) ==> {
            &&& job.client.access_key() == (match access_key {
                Some(key) => key@,
                None => environment_key->0@,
            })
            &&& job.client.endpoint() == endpoint@
            &&& job.client.storage_zone() == storage_zone@
            &&& job.path@ == with_trailing_slash(path@)
            &&& job.local_path@ == with_trailing_slash(local_path@)
        },
{
    let key = match access_key {
        Some(key) => key,
        None => match environment_key {
            Some(key) => key,
            None => {
                return Err(SyncError::MissingAccessKey);
            },
        },
    };
    let client = StorageZoneClient::new(key, endpoint, storage_zone);
    Ok(SyncJob { client, path: normalize_path(path), local_path: normalize_path(local_path) })
}

/// `num_cpus::get`: the number of processors that this process may use. It
/// is never zero.
#[verifier::external_body]
fn host_parallelism() -> (count: usize)
    ensures
        count >= 1,
{
    num_cpus::get()
}

/// The size of the worker pool: the configured one, else that of the host.
pub fn choose_workers(configured: Option<usize>, host: usize) -> (count: usize)
    ensures
        count == (match configured {
            Some(wanted) => wanted,
            None => host,
        }),
{
    match configured {
        Some(wanted) => wanted,
        None => host,
    }
}

/// The size of the worker pool for this host. A configured size is taken
/// as it is; without one the pool has a worker for each processor, and so
/// at least one.
pub fn worker_count(configured: Option<usize>) -> (count: usize)
    ensures
        configured matches Some(wanted) ==> count == wanted,
        configured is None ==> count >= 1,
{
    match configured {
        Some(wanted) => wanted,
        None => choose_workers(None, host_parallelism()),
    }
}

/// A step of a session.
#[derive(Debug, Clone, Copy, PartialEq, Eq)]
pub enum Step {
    /// Read the lock sentinel and, where that is in order, write it.
    TakeLock,
    /// Collect the local tree, crawl the remote one and make the plan.
    Discover,
    /// Run the plan and wait for every result.
    Execute,
    /// Delete the lock sentinel.
    ReleaseLock,
    /// Nothing is left to do.
    Finish,
}

/// Where a session stands.
pub struct Progress {
    pub step: Step,
    /// Whether this session has written the lock sentinel and not deleted
    /// it since.
    pub lock_held: bool,
    /// The failure that ended the session, if one did.
    pub failure: Option<SyncError>,
}

/// Where a session begins: a preview goes straight to discovery.
pub open spec fn start(dry_run: bool) -> Progress {
    Progress {
        step: if dry_run {
            Step::Discover
        } else {
            Step::TakeLock
        },
        lock_held: false,
        failure: None,
    }
}

/// Where a session stands once its current step has ended with `outcome`.
/// Any failure ends the session at once. A lock that is held at that
/// moment stays behind; the next session has to be told to override it.
pub open spec fn after_step(
    dry_run: bool,
    progress: Progress,
    outcome: Result<(), SyncError>,
) -> Progress {
    match progress.step {
        Step::Finish => progress,
        step => match outcome {
            Err(fault) => Progress {
                step: Step::Finish,
                lock_held: progress.lock_held,
                failure: Some(fault),
            },
            Ok(()) => match step {
                Step::TakeLock => Progress {
                    step: Step::Discover,
                    lock_held: true,
                    failure: None,
                },
                Step::Discover => Progress { step: Step::Execute, ..progress },
                Step::Execute => Progress {
                    step: if dry_run {
                        Step::Finish
                    } else {
                        Step::ReleaseLock
                    },
                    ..progress
                },
                _ => Progress { step: Step::Finish, lock_held: false, failure: None },
            },
        },
    }
}

/// Where a session stands after the steps whose outcomes are `outcomes`.
pub open spec fn after_steps(dry_run: bool, outcomes: Seq<Result<(), SyncError>>) -> Progress
    decreases outcomes.len(),
{
    if outcomes.len() == 0 {
        start(dry_run)
    } else {
        after_step(dry_run, after_steps(dry_run, outcomes.drop_last()), outcomes.last())
    }
}

/// Whether calls that change the store may be made for the plan: only
/// while the plan is executed, and never in a preview.
pub open spec fn permits_changes(dry_run: bool, progress: Progress) -> bool {
    !dry_run && progress.step is Execute
}

/// However a session goes, the plan changes the store only under a lock
/// that was taken before, a preview never holds a lock nor is asked to
/// take or release one, and a session that is through without failure
/// holds no lock.
pub proof fn lemma_changes_need_the_lock(dry_run: bool, outcomes: Seq<Result<(), SyncError>>)
    ensures
        permits_changes(dry_run, after_steps(dry_run, outcomes)) ==> after_steps(
            dry_run,
            outcomes,
        ).lock_held,
        after_steps(dry_run, outcomes).step is ReleaseLock ==> after_steps(
            dry_run,
            outcomes,
        ).lock_held,
        dry_run ==> {
            &&& !after_steps(dry_run, outcomes).lock_held
            &&& !(after_steps(dry_run, outcomes).step is TakeLock)
            &&& !(after_steps(dry_run, outcomes).step is ReleaseLock)
        },
        after_steps(dry_run, outcomes).step is Finish && after_steps(
            dry_run,
            outcomes,
        ).failure is None ==> !after_steps(dry_run, outcomes).lock_held,
        after_steps(dry_run, outcomes).failure is Some ==> after_steps(
            dry_run,
            outcomes,
        ).step is Finish,
        !dry_run && (after_steps(dry_run, outcomes).step is Discover || after_steps(
            dry_run,
            outcomes,
        ).step is Execute) ==> after_steps(dry_run, outcomes).lock_held,
    decreases outcomes.len(),
{
    if outcomes.len() > 0 {
        lemma_changes_need_the_lock(dry_run, outcomes.drop_last());
    }
}

/// A session that fails to take the lock never changes the store: it is
/// through, whatever is reported to it afterwards.
pub proof fn lemma_refused_lock_ends_session(outcomes: Seq<Result<(), SyncError>>)
    requires
        outcomes.len() > 0,
        outcomes[0] is Err,
    ensures
        after_steps(false, outcomes).step is Finish,
        !permits_changes(false, after_steps(false, outcomes)),
        !after_steps(false, outcomes).lock_held,
    decreases outcomes.len(),
{
    if outcomes.len() == 1 {
        assert(outcomes.drop_last().len() == 0);
        assert(after_steps(false, outcomes.drop_last()) == start(false));
    } else {
        assert(outcomes.drop_last()[0] == outcomes[0]);
        lemma_refused_lock_ends_session(outcomes.drop_last());
    }
}

/// The state of one session.
#[derive(Debug)]
pub struct Session {
    dry_run: bool,
    step: Step,
    lock_held: bool,
    failure: Option<SyncError>,
}

impl Session {
    /// Whether the session is a preview.
    pub closed spec fn dry_run(&self) -> bool {
        self.dry_run
    }

    /// Where the session stands.
    pub closed spec fn progress(&self) -> Progress {
        Progress { step: self.step, lock_held: self.lock_held, failure: self.failure }
    }

    /// Whether the session may change the store for its plan.
    pub open spec fn may_change(&self) -> bool {
        permits_changes(self.dry_run(), self.progress())
    }

    /// A session at its beginning.
    pub fn begin(dry_run: bool) -> (session: Self)
        ensures
            session.dry_run() == dry_run,
            session.progress() == start(dry_run),
    {
        Session {
            dry_run,
            step: if dry_run {
                Step::Discover
            } else {
                Step::TakeLock
            },
            lock_held: false,
            failure: None,
        }
    }

    /// The step to perform now.
    pub fn step(&self) -> (step: Step)
        ensures
            step == self.progress().step,
    {
        self.step
    }

    /// Whether the session is a preview.
    pub fn is_dry_run(&self) -> (dry_run: bool)
        ensures
            dry_run == self.dry_run(),
    {
        self.dry_run
    }

    /// Whether the session holds the remote lock.
    pub fn holds_lock(&self) -> (held: bool)
        ensures
            held == self.progress().lock_held,
    {
        self.lock_held
    }

    /// Whether calls that change the store may be made for the plan.
    pub fn permits_changes(&self) -> (permitted: bool)
        ensures
            permitted == self.may_change(),
    {
        !self.dry_run && matches!(self.step, Step::Execute)
    }

    /// Takes note of how the current step ended, and moves to the next.
    pub fn advance(&mut self, outcome: Result<(), SyncError>)
        ensures
            final(self).dry_run() == old(self).dry_run(),
            final(self).progress() == after_step(old(self).dry_run(), old(self).progress(), outcome),
    {
        match self.step {
            Step::Finish => {},
            step => match outcome {
                Err(fault) => {
                    self.step = Step::Finish;
                    self.failure = Some(fault);
                },
                Ok(()) => match step {
                    Step::TakeLock => {
                        self.step = Step::Discover;
                        self.lock_held = true;
                        self.failure = None;
                    },
                    Step::Discover => {
                        self.step = Step::Execute;
                    },
                    Step::Execute => {
                        self.step = if self.dry_run {
                            Step::Finish
                        } else {
                            Step::ReleaseLock
                        };
                    },
                    _ => {
                        self.step = Step::Finish;
                        self.lock_held = false;
                        self.failure = None;
                    },
                },
            },
        }
    }

    /// How the session ended, once it is through.
    pub fn result(&self) -> (outcome: Option<Result<(), SyncError>>)
        ensures
            outcome is Some <==> self.progress().step is Finish,
            outcome matches Some(ended) ==> ended == (match self.progress().failure {
                Some(fault) => Err::<(), SyncError>(fault),
                None => Ok::<(), SyncError>(()),
            }),
    {
        match self.step {
            Step::Finish => match self.failure {
                Some(fault) => Some(Err(fault)),
                None => Some(Ok(())),
            },
            _ => None,
        }
    }
}

} // verus!
