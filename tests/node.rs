use hersir::node::{
    Error, LogBuffer, Node, NodeLifecycleState, ProcessExit, Progress, ShutdownCause,
    BOOTSTRAP_POLL_INTERVAL_MS, BOOTSTRAP_TIMEOUT_MS,
};

fn running_node(alias: &str) -> Node {
    let mut n = Node::new(alias, 10);
    n.spawn(8080, true, 9000, true).unwrap();
    assert_eq!(n.bootstrap_poll(true, 0, BOOTSTRAP_TIMEOUT_MS), Ok(Progress::Done));
    n
}

#[test]
fn spawn_checks_rest_port_first() {
    let mut n = Node::new("leader", 4);
    assert_eq!(n.spawn(8080, false, 9000, false), Err(Error::PortUnavailable(8080)));
    assert_eq!(n.status(), NodeLifecycleState::NotStarted);
    assert_eq!(n.spawn(8080, true, 9000, false), Err(Error::PortUnavailable(9000)));
    assert_eq!(n.status(), NodeLifecycleState::NotStarted);
    assert_eq!(n.spawn(8080, true, 9000, true), Ok(()));
    assert_eq!(n.status(), NodeLifecycleState::Bootstrapping);
}

#[test]
fn launch_failure_fails_the_node() {
    let mut n = Node::new("leader", 4);
    n.spawn(1, true, 2, true).unwrap();
    let e = n.launch_failed("no such binary".to_string());
    assert_eq!(
        e,
        Error::CannotSpawnNode { alias: "leader".to_string(), reason: "no such binary".to_string() }
    );
    assert_eq!(n.status(), NodeLifecycleState::Failed("no such binary".to_string()));
}

#[test]
fn bootstrap_waits_then_runs() {
    let mut n = Node::new("leader", 4);
    n.spawn(1, true, 2, true).unwrap();
    assert_eq!(n.bootstrap_poll(false, 0, 10_000), Ok(Progress::Retry));
    assert_eq!(n.status(), NodeLifecycleState::Bootstrapping);
    assert!(!n.is_up());
    assert_eq!(n.bootstrap_poll(true, 2_000, 10_000), Ok(Progress::Done));
    assert_eq!(n.status(), NodeLifecycleState::Running);
    assert!(n.is_up());
}

#[test]
fn bootstrap_timeout_falls_in_window() {
    let timeout = 9_000u64;
    let mut n = Node::new("slow", 4);
    n.spawn(1, true, 2, true).unwrap();
    let mut elapsed = 0u64;
    let failed_at = loop {
        match n.bootstrap_poll(false, elapsed, timeout) {
            Ok(Progress::Retry) => elapsed += BOOTSTRAP_POLL_INTERVAL_MS,
            Ok(Progress::Done) => panic!("never running"),
            Err(e) => break (e, elapsed),
        }
    };
    assert_eq!(failed_at.0, Error::BootstrapTimeout { alias: "slow".to_string(), elapsed_ms: 10_000 });
    assert!(failed_at.1 >= timeout && failed_at.1 < timeout + BOOTSTRAP_POLL_INTERVAL_MS);
    assert_eq!(n.status(), NodeLifecycleState::Failed("bootstrap timed out".to_string()));
}

#[test]
fn bootstrap_timeout_at_exact_deadline() {
    let mut n = Node::new("slow", 4);
    n.spawn(1, true, 2, true).unwrap();
    assert_eq!(
        n.bootstrap_poll(false, 150_000, BOOTSTRAP_TIMEOUT_MS),
        Err(Error::BootstrapTimeout { alias: "slow".to_string(), elapsed_ms: 150_000 })
    );
}

#[test]
fn shutdown_with_message_fails_with_logs() {
    let mut n = running_node("leader");
    n.capture_log_line("line one".to_string());
    n.capture_log_line("line two".to_string());
    let r = n.request_shutdown("storage busy".to_string());
    let e = r.unwrap_err();
    assert_eq!(
        e,
        Error::ShutdownProcedure {
            alias: "leader".to_string(),
            message: "storage busy".to_string(),
            logs: vec!["line one".to_string(), "line two".to_string()],
        }
    );
    assert_eq!(e.logs(), vec!["line one".to_string(), "line two".to_string()]);
    assert_eq!(n.status(), NodeLifecycleState::Failed("storage busy".to_string()));
}

#[test]
fn clean_shutdown_stops() {
    let mut n = running_node("leader");
    assert_eq!(n.request_shutdown(String::new()), Ok(()));
    assert_eq!(n.status(), NodeLifecycleState::ShuttingDown);
    assert_eq!(n.shutdown_poll(ProcessExit::StillRunning, 100, 1_000), Ok(Progress::Retry));
    assert_eq!(n.status(), NodeLifecycleState::ShuttingDown);
    assert_eq!(n.shutdown_poll(ProcessExit::Success, 200, 1_000), Ok(Progress::Done));
    assert_eq!(n.status(), NodeLifecycleState::Stopped);
}

#[test]
fn shutdown_timeout_fails() {
    let mut n = running_node("leader");
    n.request_shutdown(String::new()).unwrap();
    assert_eq!(
        n.shutdown_poll(ProcessExit::StillRunning, 1_000, 1_000),
        Err(Error::NodeFailedToShutdown { alias: "leader".to_string(), cause: ShutdownCause::Timeout })
    );
    assert_eq!(n.status(), NodeLifecycleState::Failed("shutdown failed".to_string()));
}

#[test]
fn abnormal_exit_fails() {
    let mut n = running_node("leader");
    n.request_shutdown(String::new()).unwrap();
    assert_eq!(
        n.shutdown_poll(ProcessExit::Failure(Some(3)), 10, 1_000),
        Err(Error::NodeFailedToShutdown {
            alias: "leader".to_string(),
            cause: ShutdownCause::AbnormalExit(Some(3)),
        })
    );
}

#[test]
fn log_buffer_keeps_latest_lines() {
    let mut b = LogBuffer::new(2);
    b.push("a".to_string());
    b.push("b".to_string());
    b.push("c".to_string());
    assert_eq!(b.lines(), vec!["b".to_string(), "c".to_string()]);
    let mut z = LogBuffer::new(0);
    z.push("a".to_string());
    assert!(z.lines().is_empty());
}

#[test]
fn log_capture_is_independent_of_state() {
    let mut n = Node::new("leader", 2);
    n.capture_log_line("early".to_string());
    assert_eq!(n.status(), NodeLifecycleState::NotStarted);
    assert_eq!(n.log_lines(), vec!["early".to_string()]);
    assert_eq!(n.alias(), "leader");
}

#[test]
fn errors_without_logs_carry_none() {
    assert!(Error::PortUnavailable(1).logs().is_empty());
}

#[test]
fn log_content_joins_lines() {
    let mut n = Node::new("leader", 2);
    assert_eq!(n.log_content(), "");
    n.capture_log_line("a".to_string());
    n.capture_log_line("b".to_string());
    n.capture_log_line("c".to_string());
    assert_eq!(n.log_content(), "b\nc\n");
}
