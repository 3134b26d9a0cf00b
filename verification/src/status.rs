//! Status reporting: which report each subsystem emits for a failure, and
//! whether the failure ends that subsystem's loop.

use vstd::prelude::*;
use crate::error::TrackerError;

verus! {

/// Which subsystem is reporting. The running process pairs this identity
/// with its status mailbox handle; the logic here needs the identity alone.
#[derive(Clone, Copy, Debug)]
pub enum Sender {
    Mempool,
    Server,
    DBManager,
}

/// One report to the supervisor: either a fatal-exit report from one
/// subsystem, carrying the error, or an informational heartbeat.
#[derive(Clone, Debug)]
pub enum State {
    MempoolShutdown(TrackerError),
    ServerShutdown(TrackerError),
    DBShutdown(TrackerError),
    Healthy(String),
}

/// The message on the supervisor's status mailbox.
#[derive(Clone, Debug)]
pub struct Status {
    pub state: State,
}

/// Whether a failure ends the unit of work that hit it, or is contained
/// and the loop goes on.
#[derive(Clone, Copy, Debug, PartialEq, Eq, Structural)]
pub enum ErrorBranch {
    Break,
    Continue,
}

/// Whether an error ends the reporting subsystem: decode failures are
/// contained to their unit of work, everything else is fatal.
pub open spec fn spec_branch_for(e: TrackerError) -> ErrorBranch {
    match e {
        TrackerError::ParsingError => ErrorBranch::Continue,
        TrackerError::SerdeCbor(_) => ErrorBranch::Continue,
        _ => ErrorBranch::Break,
    }
}

/// The status a subsystem reports for an error: an error that ends the
/// subsystem's loop (a node-RPC failure aborting an indexer cycle, a
/// transport or mailbox failure, a shutdown) is reported as that
/// subsystem's fatal shutdown, so the supervisor restarts it; a contained
/// decode failure is reported as a heartbeat.
pub fn status_for(sender: &Sender, e: TrackerError) -> (s: Status)
    ensures
        sender is Mempool && spec_branch_for(e) is Break ==> (s.state
            matches State::MempoolShutdown(e2) && e2 == e),
        sender is Server && spec_branch_for(e) is Break ==> (s.state matches State::ServerShutdown(
            e2,
        ) && e2 == e),
        sender is DBManager && spec_branch_for(e) is Break ==> (s.state matches State::DBShutdown(
            e2,
        ) && e2 == e),
        spec_branch_for(e) is Continue ==> (s.state matches State::Healthy(m) && m@
            == "contained decode failure"@),
{
    let fatal = match &e {
        TrackerError::ParsingError => false,
        TrackerError::SerdeCbor(_) => false,
        _ => true,
    };
    if !fatal {
        return Status { state: State::Healthy(String::from_str("contained decode failure")) };
    }
    match sender {
        Sender::Mempool => Status { state: State::MempoolShutdown(e) },
        Sender::Server => Status { state: State::ServerShutdown(e) },
        Sender::DBManager => Status { state: State::DBShutdown(e) },
    }
}

/// The status to report for an error together with whether the subsystem's
/// loop ends. The caller owns the mailbox: it sends the status and then
/// breaks or continues as told; every error that breaks the loop reaches
/// the supervisor as a fatal report.
pub fn handle_error(sender: &Sender, e: TrackerError) -> (r: (Status, ErrorBranch))
    ensures
        r.1 == spec_branch_for(e),
        sender is Mempool && spec_branch_for(e) is Break ==> (r.0.state
            matches State::MempoolShutdown(e2) && e2 == e),
        sender is Server && spec_branch_for(e) is Break ==> (r.0.state
            matches State::ServerShutdown(e2) && e2 == e),
        sender is DBManager && spec_branch_for(e) is Break ==> (r.0.state
            matches State::DBShutdown(e2) && e2 == e),
        spec_branch_for(e) is Continue ==> (r.0.state matches State::Healthy(m) && m@
            == "contained decode failure"@),
{
    let branch = match &e {
        TrackerError::ParsingError => ErrorBranch::Continue,
        TrackerError::SerdeCbor(_) => ErrorBranch::Continue,
        _ => ErrorBranch::Break,
    };
    let status = status_for(sender, e);
    (status, branch)
}

} // verus!
