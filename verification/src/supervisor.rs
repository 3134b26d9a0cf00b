//! The supervision state machine: which subsystem each status report
//! restarts, and how many restarts each subsystem has seen.
//!
//! The surrounding process owns the status mailbox and the task handles;
//! for every report it asks this machine what to do, and a store restart
//! means building one fresh directory mailbox and handing it to every
//! other subsystem.

use vstd::prelude::*;
use crate::status::{State, Status};

verus! {

/// What the supervisor does about one status report.
#[derive(Clone, Copy, Debug, PartialEq, Eq, Structural)]
pub enum RestartAction {
    /// Build a fresh directory mailbox and restart the store; every other
    /// subsystem's handle to the store is refreshed.
    RestartDb,
    /// Restart the chain indexer against the existing store mailbox.
    RestartIndexer,
    /// Restart the protocol server against the existing store mailbox.
    RestartServer,
    /// A heartbeat: informational only.
    NoRestart,
}

/// The supervisor's memory: how often each subsystem was restarted. The
/// store's count equals the number of directory mailboxes built after the
/// first.
pub struct Supervisor {
    pub db_restarts: u64,
    pub indexer_restarts: u64,
    pub server_restarts: u64,
}

/// What one status report does to the supervisor: a fatal report from a
/// subsystem restarts exactly that subsystem, a heartbeat restarts
/// nothing.
pub open spec fn spec_on_status(s: Supervisor, status: Status) -> (Supervisor, RestartAction) {
    match status.state {
        State::DBShutdown(_) => (
            Supervisor { db_restarts: (s.db_restarts + 1) as u64, ..s },
            RestartAction::RestartDb,
        ),
        State::MempoolShutdown(_) => (
            Supervisor { indexer_restarts: (s.indexer_restarts + 1) as u64, ..s },
            RestartAction::RestartIndexer,
        ),
        State::ServerShutdown(_) => (
            Supervisor { server_restarts: (s.server_restarts + 1) as u64, ..s },
            RestartAction::RestartServer,
        ),
        State::Healthy(_) => (s, RestartAction::NoRestart),
    }
}

/// The supervisor after a whole sequence of reports, in arrival order.
pub open spec fn spec_run(s: Supervisor, statuses: Seq<Status>) -> Supervisor
    decreases statuses.len(),
{
    if statuses.len() == 0 {
        s
    } else {
        spec_on_status(spec_run(s, statuses.drop_last()), statuses.last()).0
    }
}

/// How many of the reports are fatal reports from the directory store.
pub open spec fn count_db_failures(statuses: Seq<Status>) -> int
    decreases statuses.len(),
{
    if statuses.len() == 0 {
        0
    } else {
        count_db_failures(statuses.drop_last()) + if statuses.last().state is DBShutdown {
            1int
        } else {
            0int
        }
    }
}

impl Supervisor {
    /// A fresh supervisor that has restarted nothing.
    pub fn new() -> (r: Supervisor)
        ensures
            r.db_restarts == 0,
            r.indexer_restarts == 0,
            r.server_restarts == 0,
    {
        Supervisor { db_restarts: 0, indexer_restarts: 0, server_restarts: 0 }
    }

    /// Reacts to one status report.
    pub fn on_status(&mut self, status: &Status) -> (r: RestartAction)
        requires
            old(self).db_restarts < u64::MAX,
            old(self).indexer_restarts < u64::MAX,
            old(self).server_restarts < u64::MAX,
        ensures
            (*final(self), r) == spec_on_status(*old(self), *status),
    {
        match &status.state {
            State::DBShutdown(_) => {
                self.db_restarts = self.db_restarts + 1;
                RestartAction::RestartDb
            },
            State::MempoolShutdown(_) => {
                self.indexer_restarts = self.indexer_restarts + 1;
                RestartAction::RestartIndexer
            },
            State::ServerShutdown(_) => {
                self.server_restarts = self.server_restarts + 1;
                RestartAction::RestartServer
            },
            State::Healthy(_) => RestartAction::NoRestart,
        }
    }
}

/// One store restart per fatal store report: over any sequence of reports,
/// the number of fresh directory mailboxes built equals the number of
/// fatal reports the store sent, and reports from other subsystems build
/// none.
pub proof fn lemma_one_restart_per_db_failure(s: Supervisor, statuses: Seq<Status>)
    requires
        s.db_restarts + count_db_failures(statuses) <= u64::MAX,
    ensures
        count_db_failures(statuses) >= 0,
        spec_run(s, statuses).db_restarts == s.db_restarts + count_db_failures(statuses),
    decreases statuses.len(),
{
    if statuses.len() > 0 {
        lemma_one_restart_per_db_failure(s, statuses.drop_last());
    }
}

} // verus!
