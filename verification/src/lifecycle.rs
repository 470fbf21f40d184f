//! Start/stop state machine for the single server process.
//!
//! The manager never spawns or kills anything itself: a start or stop request
//! is first checked here, the caller performs the corresponding OS action, and
//! reports the confirmed outcome back. The state therefore only changes on a
//! confirmed success, never on a mere attempt.

use vstd::prelude::*;

verus! {

/// Whether the managed server process is currently believed to be running.
#[derive(Clone, Copy, PartialEq, Eq, Structural, Debug)]
pub enum ServerState {
    Stopped,
    Running,
}

/// Why a start request was refused.
#[derive(Clone, Copy, PartialEq, Eq, Structural, Debug)]
pub enum StartError {
    /// No driver was selected; starting the server with no drivers is never allowed.
    EmptySelection,
    /// A server process is already running; at most one may exist at a time.
    AlreadyRunning,
}

/// Why a stop request was refused.
///
/// A stop request on an already-stopped manager is deterministically refused
/// with `NotRunning`; it is never treated as a silent no-op.
#[derive(Clone, Copy, PartialEq, Eq, Structural, Debug)]
pub enum StopError {
    NotRunning,
}

/// An accepted start request: the caller must spawn the server with exactly
/// these driver paths as its arguments, and report the outcome back through
/// `confirm_started`.
#[derive(Debug)]
pub struct StartCommand {
    pub paths: Vec<String>,
}

/// Owns the start/stop transitions of the single server process.
pub struct Lifecycle {
    state: ServerState,
}

impl Lifecycle {
    /// The current state of the managed process, for contracts.
    pub closed spec fn spec_state(&self) -> ServerState {
        self.state
    }

    /// A fresh manager: nothing is running yet.
    pub fn new() -> (r: Lifecycle)
        ensures
            r.spec_state() == ServerState::Stopped,
    {
        Lifecycle { state: ServerState::Stopped }
    }

    pub fn state(&self) -> (r: ServerState)
        ensures
            r == self.spec_state(),
    {
        self.state
    }

    /// Decide whether the server may be started with the given driver paths.
    ///
    /// The request is granted exactly when the manager is stopped and at least
    /// one driver is selected; an empty selection never yields a spawn command.
    pub fn start_request(&self, selected: Vec<String>) -> (r: Result<
        StartCommand,
        StartError,
    >)
        ensures
            r matches Ok(cmd) ==> cmd.paths == selected,
            r is Ok <==> self.spec_state() == ServerState::Stopped && selected@.len() > 0,
            r matches Err(e) && e == StartError::EmptySelection <==> selected@.len() == 0,
            r matches Err(e) && e == StartError::AlreadyRunning <==> self.spec_state()
                == ServerState::Running && selected@.len() > 0,
    {
        if selected.len() == 0 {
            Err(StartError::EmptySelection)
        } else if self.state == ServerState::Running {
            Err(StartError::AlreadyRunning)
        } else {
            Ok(StartCommand { paths: selected })
        }
    }

    /// Record that the spawn issued for an accepted start request succeeded.
    pub fn confirm_started(&mut self)
        requires
            old(self).spec_state() == ServerState::Stopped,
        ensures
            final(self).spec_state() == ServerState::Running,
    {
        self.state = ServerState::Running;
    }

    /// Decide whether the server may be stopped: granted exactly when it is
    /// running. A second stop on a stopped manager is refused with
    /// `NotRunning`.
    pub fn stop_request(&self) -> (r: Result<(), StopError>)
        ensures
            r is Ok <==> self.spec_state() == ServerState::Running,
            r matches Err(e) ==> e == StopError::NotRunning && self.spec_state()
                == ServerState::Stopped,
    {
        if self.state == ServerState::Running {
            Ok(())
        } else {
            Err(StopError::NotRunning)
        }
    }

    /// Record that the termination issued for an accepted stop request
    /// succeeded.
    pub fn confirm_stopped(&mut self)
        ensures
            final(self).spec_state() == ServerState::Stopped,
    {
        self.state = ServerState::Stopped;
    }
}

} // verus!
