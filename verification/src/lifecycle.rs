use vstd::prelude::*;
use vstd::string::StringExecFns;

verus! {

/// The one-shot signal the lifecycle controller sends to the connection
/// engine's shutdown watcher.
#[derive(Clone, Copy, Debug, PartialEq, Eq, Structural)]
pub enum ShutdownSignal {
    GracefulTerminate,
    FastShutdown,
}

/// A lifecycle failure reported to the caller of `run` or `shutdown`.
#[derive(Clone, Copy, Debug, PartialEq, Eq, Structural)]
pub enum LifecycleError {
    AlreadyRunning,
    JoinFailure,
}

impl LifecycleError {
    /// The human-readable reason handed to the host.
    pub fn message(&self) -> (r: String)
        ensures
            *self == LifecycleError::AlreadyRunning ==> r@ == "server already running"@,
            *self == LifecycleError::JoinFailure ==> r@ == "server thread panicked"@,
    {
        match self {
            LifecycleError::AlreadyRunning => String::from_str("server already running"),
            LifecycleError::JoinFailure => String::from_str("server thread panicked"),
        }
    }
}

/// What one shutdown call performs: whether to send the one-shot signal,
/// and whether to join the runner.
pub struct ShutdownActions {
    pub send_signal: bool,
    pub join_runner: bool,
}

/// The lifecycle state of the proxy host wrapper: whether it still holds
/// the un-started server, the shutdown sender, and the runner handle.
pub struct Lifecycle {
    pub server_present: bool,
    pub shutdown_tx_present: bool,
    pub runner_present: bool,
}

/// The state and actions a shutdown leaves: both one-shot resources are
/// taken, the signal is sent only if the sender was still there, the
/// runner is joined only if it was still there.
pub open spec fn spec_shutdown(s: Lifecycle) -> (Lifecycle, ShutdownActions) {
    (
        Lifecycle {
            server_present: s.server_present,
            shutdown_tx_present: false,
            runner_present: false,
        },
        ShutdownActions { send_signal: s.shutdown_tx_present, join_runner: s.runner_present },
    )
}

impl Lifecycle {
    /// A freshly constructed proxy holds its un-started server and nothing
    /// else.
    pub fn new() -> (r: Lifecycle)
        ensures
            r.server_present,
            !r.shutdown_tx_present,
            !r.runner_present,
    {
        Lifecycle { server_present: true, shutdown_tx_present: false, runner_present: false }
    }

    /// `run` may be invoked at most once: it succeeds exactly when no run
    /// is in progress and the server was not consumed yet, handing the
    /// server to a dedicated execution context and keeping the shutdown
    /// sender and the runner handle; otherwise it fails with the
    /// "already running" error and changes nothing.
    pub fn on_run(&mut self) -> (r: Result<(), LifecycleError>)
        ensures
            (r is Ok) == (!old(self).runner_present && old(self).server_present),
            r is Ok ==> !final(self).server_present && final(self).shutdown_tx_present
                && final(self).runner_present,
            r is Err ==> *final(self) == *old(self) && r == Err::<(), LifecycleError>(
                LifecycleError::AlreadyRunning,
            ),
    {
        if self.runner_present {
            return Err(LifecycleError::AlreadyRunning);
        }
        if !self.server_present {
            return Err(LifecycleError::AlreadyRunning);
        }
        self.server_present = false;
        self.shutdown_tx_present = true;
        self.runner_present = true;
        Ok(())
    }

    /// `shutdown` signals graceful termination through the one-shot channel
    /// if the sender is still held, then joins the runner if one is still
    /// held; with no run in progress it is a no-op success.
    pub fn on_shutdown(&mut self) -> (r: ShutdownActions)
        ensures
            *final(self) == spec_shutdown(*old(self)).0,
            r == spec_shutdown(*old(self)).1,
    {
        let send_signal: bool = self.shutdown_tx_present;
        let join_runner: bool = self.runner_present;
        self.shutdown_tx_present = false;
        self.runner_present = false;
        ShutdownActions { send_signal, join_runner }
    }
}

/// Shutting down is idempotent: a second shutdown finds both one-shot
/// resources already taken, so it sends no signal and joins no thread —
/// it can neither block nor panic — and it leaves the state where the
/// first shutdown left it.
pub proof fn lemma_shutdown_idempotent(s: Lifecycle)
    ensures
        spec_shutdown(spec_shutdown(s).0).0 == spec_shutdown(s).0,
        !spec_shutdown(spec_shutdown(s).0).1.send_signal,
        !spec_shutdown(spec_shutdown(s).0).1.join_runner,
{
}

/// The connection engine's view of the one-shot shutdown channel: whether
/// the receiver was already taken by an earlier wait.
pub struct ShutdownWatch {
    pub consumed: bool,
}

impl ShutdownWatch {
    /// A fresh watcher still holds its receiver.
    pub fn new() -> (r: ShutdownWatch)
        ensures
            !r.consumed,
    {
        ShutdownWatch { consumed: false }
    }

    /// Decides what a wait on the shutdown channel yields: the receiver is
    /// taken at most once; a value received is returned as it is, and a
    /// channel closed without a value — or a receiver already consumed —
    /// means fast shutdown.
    pub fn on_recv(&mut self, received: Option<ShutdownSignal>) -> (r: ShutdownSignal)
        ensures
            final(self).consumed,
            old(self).consumed ==> r == ShutdownSignal::FastShutdown,
            !old(self).consumed ==> r == (match received {
                Some(sig) => sig,
                None => ShutdownSignal::FastShutdown,
            }),
    {
        let was_consumed: bool = self.consumed;
        self.consumed = true;
        if was_consumed {
            ShutdownSignal::FastShutdown
        } else {
            match received {
                Some(sig) => sig,
                None => ShutdownSignal::FastShutdown,
            }
        }
    }
}

} // verus!
