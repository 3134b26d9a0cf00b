use tracker::error::{IoKind, TrackerError};
use tracker::status::{handle_error, status_for, ErrorBranch, Sender, State, Status};
use tracker::supervisor::{RestartAction, Supervisor};

#[test]
fn test_single_db_failure_restarts_store_once() {
    let mut sup = Supervisor::new();
    let fatal = Status {
        state: State::DBShutdown(TrackerError::DbManagerExited),
    };
    assert_eq!(sup.on_status(&fatal), RestartAction::RestartDb);
    assert_eq!(sup.db_restarts, 1);

    // heartbeats afterwards build no second mailbox
    let healthy = Status {
        state: State::Healthy("ok".to_string()),
    };
    assert_eq!(sup.on_status(&healthy), RestartAction::NoRestart);
    assert_eq!(sup.on_status(&healthy), RestartAction::NoRestart);
    assert_eq!(sup.db_restarts, 1);
    assert_eq!(sup.indexer_restarts, 0);
    assert_eq!(sup.server_restarts, 0);
}

#[test]
fn test_each_subsystem_restarts_alone() {
    let mut sup = Supervisor::new();
    let indexer_down = Status {
        state: State::MempoolShutdown(TrackerError::MempoolIndexerError),
    };
    assert_eq!(sup.on_status(&indexer_down), RestartAction::RestartIndexer);
    let server_down = Status {
        state: State::ServerShutdown(TrackerError::ServerError),
    };
    assert_eq!(sup.on_status(&server_down), RestartAction::RestartServer);
    assert_eq!(sup.db_restarts, 0);
    assert_eq!(sup.indexer_restarts, 1);
    assert_eq!(sup.server_restarts, 1);
}

#[test]
fn test_status_for_each_sender() {
    let s = status_for(&Sender::Mempool, TrackerError::MempoolIndexerError);
    assert!(matches!(s.state, State::MempoolShutdown(_)));

    // a node-RPC failure aborting an indexer cycle is fatal, so the
    // supervisor restarts the indexer
    let s = status_for(&Sender::Mempool, TrackerError::RPCError("node unreachable".to_string()));
    assert!(matches!(s.state, State::MempoolShutdown(_)));

    let s = status_for(&Sender::Mempool, TrackerError::Shutdown);
    assert!(matches!(s.state, State::MempoolShutdown(_)));

    // a contained decode failure is only a heartbeat
    let s = status_for(&Sender::Mempool, TrackerError::ParsingError);
    match s.state {
        State::Healthy(msg) => assert_eq!(msg, "contained decode failure"),
        other => panic!("unexpected state: {:?}", other),
    }

    let s = status_for(&Sender::Server, TrackerError::ServerError);
    assert!(matches!(s.state, State::ServerShutdown(_)));

    let s = status_for(&Sender::DBManager, TrackerError::DbManagerExited);
    assert!(matches!(s.state, State::DBShutdown(_)));
}

#[test]
fn test_handle_error_branches() {
    // decode failures are contained to their unit of work
    let (_, branch) = handle_error(&Sender::Server, TrackerError::ParsingError);
    assert_eq!(branch, ErrorBranch::Continue);
    let (_, branch) = handle_error(&Sender::Server, TrackerError::SerdeCbor("bad tag".to_string()));
    assert_eq!(branch, ErrorBranch::Continue);
    // everything else ends the subsystem, and the status carries the
    // subsystem's own fatal report
    let (status, branch) = handle_error(&Sender::DBManager, TrackerError::DbManagerExited);
    assert_eq!(branch, ErrorBranch::Break);
    assert!(matches!(status.state, State::DBShutdown(_)));
    let (status, branch) =
        handle_error(&Sender::Mempool, TrackerError::RPCError("node gone".to_string()));
    assert_eq!(branch, ErrorBranch::Break);
    assert!(matches!(status.state, State::MempoolShutdown(_)));
    let (status, branch) = handle_error(&Sender::Server, TrackerError::SendError);
    assert_eq!(branch, ErrorBranch::Break);
    assert!(matches!(status.state, State::ServerShutdown(_)));
}

#[test]
fn test_error_kinds_and_io_class() {
    assert_eq!(TrackerError::DbManagerExited.kind(), "DbManagerExited");
    assert_eq!(TrackerError::ServerError.kind(), "ServerError");
    assert_eq!(TrackerError::MempoolIndexerError.kind(), "MempoolIndexerError");
    assert_eq!(TrackerError::Shutdown.kind(), "Shutdown");
    assert_eq!(TrackerError::ParsingError.kind(), "ParsingError");
    assert_eq!(TrackerError::SendError.kind(), "SendError");
    assert_eq!(TrackerError::IOError(IoKind::Other).kind(), "IOError");
    assert_eq!(TrackerError::RPCError("x".to_string()).kind(), "RPCError");
    assert_eq!(TrackerError::SerdeCbor("x".to_string()).kind(), "SerdeCbor");
    assert_eq!(TrackerError::General("x".to_string()).kind(), "General");

    assert_eq!(
        TrackerError::IOError(IoKind::UnexpectedEof).io_error_kind(),
        Some(IoKind::UnexpectedEof)
    );
    assert_eq!(TrackerError::ParsingError.io_error_kind(), None);
}
