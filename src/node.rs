//! Lifecycle control of one node process: the decisions of spawning,
//! waiting for bootstrap and shutting down, and the bounded capture of its logs.
use vstd::prelude::*;
use vstd::string::StringExecFns;

verus! {

/// Interval between two polls of a node's status while it bootstraps.
pub const BOOTSTRAP_POLL_INTERVAL_MS: u64 = 2000;

/// How long a node may take to bootstrap.
pub const BOOTSTRAP_TIMEOUT_MS: u64 = 150000;

/// How long a node may take to exit after a graceful-shutdown request.
pub const SHUTDOWN_TIMEOUT_MS: u64 = 150000;

/// Lifecycle state of a node.
#[derive(Debug, Clone, PartialEq, Eq)]
pub enum NodeLifecycleState {
    NotStarted,
    Bootstrapping,
    Running,
    ShuttingDown,
    Stopped,
    Failed(String),
}

/// Why a node did not shut down cleanly.
#[derive(Debug, Clone, Copy, PartialEq, Eq, Structural)]
pub enum ShutdownCause {
    /// The process did not exit in time.
    Timeout,
    /// The process exited with a failure status (and this code, if it had one).
    AbnormalExit(Option<i32>),
}

/// How the node process ended, as observed after a shutdown request.
#[derive(Debug, Clone, Copy, PartialEq, Eq, Structural)]
pub enum ProcessExit {
    Success,
    Failure(Option<i32>),
    StillRunning,
}

/// Whether a polling loop is finished or polls again.
#[derive(Debug, Clone, Copy, PartialEq, Eq, Structural)]
pub enum Progress {
    Done,
    Retry,
}

/// Failures of node control and fragment tracking.
#[derive(Debug, Clone, PartialEq, Eq)]
pub enum Error {
    /// A port the node must listen on is taken.
    PortUnavailable(u16),
    /// The node process could not be launched.
    CannotSpawnNode { alias: String, reason: String },
    /// The node did not report Running in time.
    BootstrapTimeout { alias: String, elapsed_ms: u64 },
    /// The node answered the shutdown request with an error message.
    ShutdownProcedure { alias: String, message: String, logs: Vec<String> },
    /// The node process did not exit cleanly after the shutdown request.
    NodeFailedToShutdown { alias: String, cause: ShutdownCause },
    /// The fragment never showed up in the node's fragment logs.
    FragmentNotInMemPoolLogs { alias: String, fragment_id: String, logs: Vec<String> },
    /// The fragment stayed pending for longer than allowed.
    FragmentIsPendingForTooLong {
        fragment_id: String,
        duration_ms: u64,
        alias: String,
        logs: Vec<String>,
    },
    /// The node rejected the fragment.
    FragmentRejected { alias: String, fragment_id: String, reason: String },
    /// Two nodes placed the fragment in different blocks.
    FragmentInDifferentBlocks { fragment_id: String, alias: String, other_alias: String },
}

/// The log lines that an error carries, if any.
pub open spec fn error_logs(e: Error) -> Seq<String> {
    match e {
        Error::ShutdownProcedure { logs, .. } => logs@,
        Error::FragmentNotInMemPoolLogs { logs, .. } => logs@,
        Error::FragmentIsPendingForTooLong { logs, .. } => logs@,
        _ => Seq::empty(),
    }
}

/// Copy of a sequence of lines.
fn clone_lines(lines: &Vec<String>) -> (r: Vec<String>)
    ensures
        r@ == lines@,
{
    let mut r: Vec<String> = Vec::new();
    let mut k: usize = 0;
    while k < lines.len()
        invariant
            k <= lines@.len(),
            r@ == lines@.take(k as int),
        decreases lines.len() - k,
    {
        r.push(lines[k].clone());
        k += 1;
        assert(r@ =~= lines@.take(k as int));
    }
    assert(lines@.take(k as int) =~= lines@);
    r
}

impl Error {
    /// The captured log lines carried by this error; empty for the errors that carry none.
    pub fn logs(&self) -> (r: Vec<String>)
        ensures
            r@ == error_logs(*self),
    {
        match self {
            Error::ShutdownProcedure { logs, .. } => clone_lines(logs),
            Error::FragmentNotInMemPoolLogs { logs, .. } => clone_lines(logs),
            Error::FragmentIsPendingForTooLong { logs, .. } => clone_lines(logs),
            _ => Vec::new(),
        }
    }
}

/// The lines of `lines`, each followed by a line break.
pub open spec fn joined_lines(lines: Seq<String>) -> Seq<char>
    decreases lines.len(),
{
    if lines.len() == 0 {
        Seq::empty()
    } else {
        joined_lines(lines.drop_last()) + lines.last()@ + "\n"@
    }
}

/// The last `capacity` elements of `s`.
pub open spec fn keep_last<A>(s: Seq<A>, capacity: nat) -> Seq<A> {
    if s.len() > capacity {
        s.skip(s.len() - capacity)
    } else {
        s
    }
}

/// The most recent lines of a process's output, at most `capacity` of them.
pub struct LogBuffer {
    lines: Vec<String>,
    capacity: usize,
}

impl LogBuffer {
    /// The lines held, oldest first.
    pub closed spec fn lines_view(&self) -> Seq<String> {
        self.lines@
    }

    /// The largest number of lines held.
    pub closed spec fn capacity_view(&self) -> nat {
        self.capacity as nat
    }

    /// An empty buffer that keeps at most `capacity` lines.
    pub fn new(capacity: usize) -> (r: LogBuffer)
        ensures
            r.lines_view() == Seq::<String>::empty(),
            r.capacity_view() == capacity,
    {
        LogBuffer { lines: Vec::new(), capacity }
    }

    /// Appends a line, dropping the oldest ones beyond the capacity.
    pub fn push(&mut self, line: String)
        ensures
            final(self).capacity_view() == old(self).capacity_view(),
            final(self).lines_view() == keep_last(
                old(self).lines_view().push(line),
                old(self).capacity_view(),
            ),
    {
        let ghost full = self.lines@.push(line);
        let ghost cap = self.capacity;
        self.lines.push(line);
        let ghost mut d: int = 0;
        while self.lines.len() > self.capacity
            invariant
                self.capacity == cap,
                cap == old(self).capacity,
                0 <= d <= full.len(),
                self.lines@ == full.skip(d),
                full.len() > self.capacity ==> d <= full.len() - self.capacity,
                full.len() <= self.capacity ==> d == 0,
            decreases self.lines.len(),
        {
            self.lines.remove(0);
            proof {
                d = d + 1;
                assert(self.lines@ =~= full.skip(d));
            }
        }
        assert(self.lines@ =~= keep_last(full, self.capacity as nat));
    }

    /// Copy of the lines held, oldest first.
    pub fn lines(&self) -> (r: Vec<String>)
        ensures
            r@ == self.lines_view(),
    {
        clone_lines(&self.lines)
    }
}

/// The status poll at `elapsed_ms` ends the wait for bootstrap with a timeout.
pub open spec fn bootstrap_timed_out(running: bool, elapsed_ms: u64, timeout_ms: u64) -> bool {
    !running && elapsed_ms >= timeout_ms
}

/// Polls of a node that never reports Running, taken at `times` (the first at
/// 0, each at most `interval_ms` after the previous), end with a timeout no
/// earlier than the timeout and before one more interval has passed.
pub proof fn lemma_bootstrap_timeout_window(times: Seq<u64>, timeout_ms: u64, interval_ms: u64, k: int)
    requires
        interval_ms > 0,
        times.len() > 0,
        times[0] == 0,
        forall|i: int| 0 <= i < times.len() - 1 ==> #[trigger] times[i] <= times[i + 1] <= times[i] + interval_ms,
        0 <= k < times.len(),
        bootstrap_timed_out(false, times[k], timeout_ms),
        forall|j: int| 0 <= j < k ==> !#[trigger] bootstrap_timed_out(false, times[j], timeout_ms),
    ensures
        timeout_ms <= times[k],
        times[k] < timeout_ms + interval_ms,
{
    if k > 0 {
        assert(!bootstrap_timed_out(false, times[k - 1], timeout_ms));
        assert(times[k - 1] <= times[k - 1 + 1] <= times[k - 1] + interval_ms);
    }
}

/// Mathematical model of a [`Node`].
pub struct NodeView {
    pub alias: Seq<char>,
    pub state: NodeLifecycleState,
    pub logs: Seq<String>,
    pub log_capacity: nat,
}

/// Owns the lifecycle state and the captured logs of one node, and decides
/// each transition from what the caller observed of the process.
pub struct Node {
    alias: String,
    state: NodeLifecycleState,
    logs: LogBuffer,
}

impl View for Node {
    type V = NodeView;

    closed spec fn view(&self) -> NodeView {
        NodeView {
            alias: self.alias@,
            state: self.state,
            logs: self.logs.lines_view(),
            log_capacity: self.logs.capacity_view(),
        }
    }
}

/// `s` is the `Failed` state with reason `reason`.
pub open spec fn failed_with(s: NodeLifecycleState, reason: Seq<char>) -> bool {
    s matches NodeLifecycleState::Failed(r) && r@ == reason
}

/// Reason recorded when bootstrap times out.
pub open spec fn bootstrap_timeout_reason() -> Seq<char> {
    "bootstrap timed out"@
}

/// Reason recorded when the process does not exit cleanly after a shutdown request.
pub open spec fn shutdown_failure_reason() -> Seq<char> {
    "shutdown failed"@
}

impl Node {
    /// Controller of a node not started yet, keeping at most `log_capacity` log lines.
    pub fn new(alias: &str, log_capacity: usize) -> (r: Node)
        ensures
            r@ == (NodeView {
                alias: alias@,
                state: NodeLifecycleState::NotStarted,
                logs: Seq::empty(),
                log_capacity: log_capacity as nat,
            }),
    {
        Node {
            alias: String::from_str(alias),
            state: NodeLifecycleState::NotStarted,
            logs: LogBuffer::new(log_capacity),
        }
    }

    pub fn alias(&self) -> (r: String)
        ensures
            r@ == self@.alias,
    {
        self.alias.clone()
    }

    /// The current lifecycle state.
    pub fn status(&self) -> (r: NodeLifecycleState)
        ensures
            r == self@.state,
    {
        match &self.state {
            NodeLifecycleState::NotStarted => NodeLifecycleState::NotStarted,
            NodeLifecycleState::Bootstrapping => NodeLifecycleState::Bootstrapping,
            NodeLifecycleState::Running => NodeLifecycleState::Running,
            NodeLifecycleState::ShuttingDown => NodeLifecycleState::ShuttingDown,
            NodeLifecycleState::Stopped => NodeLifecycleState::Stopped,
            NodeLifecycleState::Failed(reason) => NodeLifecycleState::Failed(reason.clone()),
        }
    }

    /// The node has bootstrapped and is not shutting down.
    pub fn is_up(&self) -> (r: bool)
        ensures
            r == (self@.state == NodeLifecycleState::Running),
    {
        match self.state {
            NodeLifecycleState::Running => true,
            _ => false,
        }
    }

    /// The captured log lines, oldest first.
    pub fn log_lines(&self) -> (r: Vec<String>)
        ensures
            r@ == self@.logs,
    {
        self.logs.lines()
    }

    /// The captured log lines, each followed by a line break.
    pub fn log_content(&self) -> (r: String)
        ensures
            r@ == joined_lines(self@.logs),
    {
        let lines = self.logs.lines();
        let mut r = String::new();
        let mut k: usize = 0;
        while k < lines.len()
            invariant
                k <= lines@.len(),
                r@ == joined_lines(lines@.take(k as int)),
            decreases lines.len() - k,
        {
            r.append(lines[k].as_str());
            r.append("\n");
            assert(lines@.take(k + 1).drop_last() == lines@.take(k as int));
            k += 1;
        }
        assert(lines@.take(k as int) == lines@);
        r
    }

    /// Records one line of the process's error stream, in any state.
    pub fn capture_log_line(&mut self, line: String)
        ensures
            final(self)@ == (NodeView {
                logs: keep_last(old(self)@.logs.push(line), old(self)@.log_capacity),
                ..old(self)@
            }),
    {
        self.logs.push(line);
    }

    /// Preflight of a spawn: both ports must be free (as observed by the
    /// caller's attempt to bind them); the REST port is checked first. On
    /// success the node is Bootstrapping and the caller launches the process.
    pub fn spawn(&mut self, rest_port: u16, rest_port_free: bool, p2p_port: u16, p2p_port_free: bool) -> (r:
        Result<(), Error>)
        requires
            old(self)@.state == NodeLifecycleState::NotStarted,
        ensures
            !rest_port_free ==> r == Err::<(), Error>(Error::PortUnavailable(rest_port))
                && final(self)@ == old(self)@,
            rest_port_free && !p2p_port_free ==> r == Err::<(), Error>(
                Error::PortUnavailable(p2p_port),
            ) && final(self)@ == old(self)@,
            rest_port_free && p2p_port_free ==> r is Ok && final(self)@ == (NodeView {
                state: NodeLifecycleState::Bootstrapping,
                ..old(self)@
            }),
    {
        if !rest_port_free {
            return Err(Error::PortUnavailable(rest_port));
        }
        if !p2p_port_free {
            return Err(Error::PortUnavailable(p2p_port));
        }
        self.state = NodeLifecycleState::Bootstrapping;
        Ok(())
    }

    /// The process could not be launched: the node has failed with `reason`.
    pub fn launch_failed(&mut self, reason: String) -> (e: Error)
        requires
            old(self)@.state == NodeLifecycleState::Bootstrapping,
        ensures
            final(self)@ == (NodeView {
                state: NodeLifecycleState::Failed(reason),
                ..old(self)@
            }),
            e matches Error::CannotSpawnNode { alias, reason: m } && alias@ == old(self)@.alias
                && m == reason,
    {
        let e = Error::CannotSpawnNode { alias: self.alias.clone(), reason: reason.clone() };
        self.state = NodeLifecycleState::Failed(reason);
        e
    }

    /// Decision after one status poll, `elapsed_ms` after the wait began: a
    /// node reporting Running is up; otherwise the wait fails once the timeout
    /// has elapsed, and goes on before that.
    pub fn bootstrap_poll(&mut self, running: bool, elapsed_ms: u64, timeout_ms: u64) -> (r: Result<
        Progress,
        Error,
    >)
        requires
            old(self)@.state == NodeLifecycleState::Bootstrapping,
        ensures
            running ==> r == Ok::<Progress, Error>(Progress::Done) && final(self)@ == (
            NodeView { state: NodeLifecycleState::Running, ..old(self)@ }),
            bootstrap_timed_out(running, elapsed_ms, timeout_ms) ==> {
                &&& r matches Err(Error::BootstrapTimeout { alias, elapsed_ms: e }) && alias@
                    == old(self)@.alias && e == elapsed_ms
                &&& failed_with(final(self)@.state, bootstrap_timeout_reason())
                &&& final(self)@.alias == old(self)@.alias
                &&& final(self)@.logs == old(self)@.logs
                &&& final(self)@.log_capacity == old(self)@.log_capacity
            },
            !running && elapsed_ms < timeout_ms ==> r == Ok::<Progress, Error>(Progress::Retry)
                && final(self)@ == old(self)@,
    {
        if running {
            self.state = NodeLifecycleState::Running;
            Ok(Progress::Done)
        } else if elapsed_ms >= timeout_ms {
            self.state = NodeLifecycleState::Failed(String::from_str("bootstrap timed out"));
            Err(Error::BootstrapTimeout { alias: self.alias.clone(), elapsed_ms })
        } else {
            Ok(Progress::Retry)
        }
    }

    /// Decision on the answer to the graceful-shutdown request: an empty
    /// message means the node is stopping and the caller waits for the
    /// process to exit; any other message fails at once, with the captured logs.
    pub fn request_shutdown(&mut self, message: String) -> (r: Result<(), Error>)
        requires
            old(self)@.state == NodeLifecycleState::Running,
        ensures
            message@.len() == 0 ==> r is Ok && final(self)@ == (NodeView {
                state: NodeLifecycleState::ShuttingDown,
                ..old(self)@
            }),
            message@.len() > 0 ==> {
                &&& r matches Err(Error::ShutdownProcedure { alias, message: m, logs }) && alias@
                    == old(self)@.alias && m == message && logs@ == old(self)@.logs
                &&& final(self)@ == (NodeView {
                    state: NodeLifecycleState::Failed(message),
                    ..old(self)@
                })
            },
    {
        if message.as_str().is_empty() {
            self.state = NodeLifecycleState::ShuttingDown;
            Ok(())
        } else {
            let e = Error::ShutdownProcedure {
                alias: self.alias.clone(),
                message: message.clone(),
                logs: self.logs.lines(),
            };
            self.state = NodeLifecycleState::Failed(message);
            Err(e)
        }
    }

    /// Decision after observing the process, `elapsed_ms` after the shutdown
    /// request: a clean exit stops the node; a failed exit, or no exit once
    /// the timeout has elapsed, fails it; otherwise the caller waits on.
    pub fn shutdown_poll(&mut self, exit: ProcessExit, elapsed_ms: u64, timeout_ms: u64) -> (r: Result<
        Progress,
        Error,
    >)
        requires
            old(self)@.state == NodeLifecycleState::ShuttingDown,
        ensures
            final(self)@.alias == old(self)@.alias,
            final(self)@.logs == old(self)@.logs,
            final(self)@.log_capacity == old(self)@.log_capacity,
            exit == ProcessExit::Success ==> r == Ok::<Progress, Error>(Progress::Done) && final(self)@.state == NodeLifecycleState::Stopped,
            exit == ProcessExit::StillRunning && elapsed_ms < timeout_ms ==> r == Ok::<Progress, Error>(Progress::Retry) && final(self)@.state == old(self)@.state,
            exit == ProcessExit::StillRunning && elapsed_ms >= timeout_ms ==> {
                &&& r matches Err(Error::NodeFailedToShutdown { alias, cause }) && alias@ == old(self)@.alias && cause == ShutdownCause::Timeout
                &&& failed_with(final(self)@.state, shutdown_failure_reason())
            },
            exit is Failure ==> {
                &&& r matches Err(Error::NodeFailedToShutdown { alias, cause }) && alias@ == old(self)@.alias && cause == ShutdownCause::AbnormalExit(exit->Failure_0)
                &&& failed_with(final(self)@.state, shutdown_failure_reason())
            },
    {
        match exit {
            ProcessExit::Success => {
                self.state = NodeLifecycleState::Stopped;
                Ok(Progress::Done)
            },
            ProcessExit::StillRunning => {
                if elapsed_ms < timeout_ms {
                    Ok(Progress::Retry)
                } else {
                    self.state = NodeLifecycleState::Failed(String::from_str("shutdown failed"));
                    Err(Error::NodeFailedToShutdown {
                        alias: self.alias.clone(),
                        cause: ShutdownCause::Timeout,
                    })
                }
            },
            ProcessExit::Failure(code) => {
                self.state = NodeLifecycleState::Failed(String::from_str("shutdown failed"));
                Err(Error::NodeFailedToShutdown {
                    alias: self.alias.clone(),
                    cause: ShutdownCause::AbnormalExit(code),
                })
            },
        }
    }
}

} // verus!
