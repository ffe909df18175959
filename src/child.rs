use vstd::prelude::*;

verus! {

/// The supervised child as the supervisor's threads share it: its pid, if
/// one is supervised, and whether a termination of it was asked for by the
/// supervisor itself.
#[derive(Clone, Copy, Debug, PartialEq, Eq, Structural)]
pub struct ChildProcessState {
    pub pid: Option<i32>,
    pub restarting: bool,
}

/// What the wait on a child decides once the child has changed state.
#[derive(Clone, Copy, Debug, PartialEq, Eq, Structural)]
pub enum WaitOutcome {
    /// The supervisor ended the child and a new one takes its place.
    Restart,
    /// The child ended on its own: the supervisor exits too.
    NaturalExit,
}

/// The state after the parent branch of a fork records the new pid.
pub open spec fn after_spawn(s: ChildProcessState, pid: i32) -> ChildProcessState {
    ChildProcessState { pid: Some(pid), restarting: false }
}

/// The state after a restart is asked for: the flag is set, before any signal.
pub open spec fn after_restart_request(s: ChildProcessState) -> ChildProcessState {
    ChildProcessState { pid: s.pid, restarting: true }
}

/// The decision once the wait on `waited` returns: a restart where the flag
/// is set or another child has been recorded since, else a natural exit.
pub open spec fn wait_decision(s: ChildProcessState, waited: i32) -> WaitOutcome {
    if s.restarting || s.pid != Some(waited) {
        WaitOutcome::Restart
    } else {
        WaitOutcome::NaturalExit
    }
}

impl ChildProcessState {
    /// No child yet.
    pub fn idle() -> (r: Self)
        ensures
            r.pid is None,
            !r.restarting,
    {
        ChildProcessState { pid: None, restarting: false }
    }

    /// The state held in a pid cell (0 for none) and a flag cell.
    pub fn from_raw(pid: i32, restarting: bool) -> (r: Self)
        ensures
            r.pid == (if pid > 0 { Some(pid) } else { None::<i32> }),
            r.restarting == restarting,
    {
        ChildProcessState { pid: if pid > 0 { Some(pid) } else { None }, restarting }
    }

    /// The pid as a pid cell holds it: 0 for none.
    pub fn raw_pid(&self) -> (r: i32)
        ensures
            r == match self.pid {
                Some(p) => p,
                None => 0,
            },
    {
        match self.pid {
            Some(p) => p,
            None => 0,
        }
    }

    /// Whether a child is supervised.
    pub fn is_supervising(&self) -> (r: bool)
        ensures
            r == self.pid is Some,
    {
        self.pid.is_some()
    }

    /// Records the pid of a freshly forked child and clears the restart flag.
    pub fn spawned(self, pid: i32) -> (r: Self)
        requires
            pid > 0,
        ensures
            r == after_spawn(self, pid),
    {
        ChildProcessState { pid: Some(pid), restarting: false }
    }

    /// Sets the restart flag, and returns the new state with the pid to
    /// signal; the caller stores the state before it sends the signal.
    pub fn request_restart(self) -> (r: (Self, Option<i32>))
        ensures
            r.0 == after_restart_request(self),
            r.1 == self.pid,
    {
        (ChildProcessState { pid: self.pid, restarting: true }, self.pid)
    }

    /// Decides, once the wait on the child `waited` returns, whether the
    /// supervisor restarts or exits.
    pub fn wait_completed(&self, waited: i32) -> (r: WaitOutcome)
        ensures
            r == wait_decision(*self, waited),
    {
        let changed = match self.pid {
            Some(p) => p != waited,
            None => true,
        };
        if self.restarting || changed {
            WaitOutcome::Restart
        } else {
            WaitOutcome::NaturalExit
        }
    }
}

/// The lifecycle: a spawned child is recorded; if it ends on its own the
/// wait decides a natural exit; a restart sets the flag first and targets
/// that child, so its end, seen before or after the next child (a different
/// pid) is recorded, is taken as a restart, and the new pid is recorded.
pub proof fn lemma_lifecycle(s: ChildProcessState, old_pid: i32, new_pid: i32)
    requires
        old_pid > 0,
        new_pid > 0,
        new_pid != old_pid,
    ensures
        after_spawn(s, old_pid).pid == Some(old_pid),
        wait_decision(after_spawn(s, old_pid), old_pid) == WaitOutcome::NaturalExit,
        after_restart_request(after_spawn(s, old_pid)).restarting,
        after_restart_request(after_spawn(s, old_pid)).pid == Some(old_pid),
        wait_decision(after_restart_request(after_spawn(s, old_pid)), old_pid)
            == WaitOutcome::Restart,
        after_spawn(after_restart_request(after_spawn(s, old_pid)), new_pid).pid == Some(new_pid),
        after_spawn(after_restart_request(after_spawn(s, old_pid)), new_pid).pid != Some(old_pid),
        !after_spawn(after_restart_request(after_spawn(s, old_pid)), new_pid).restarting,
        wait_decision(after_spawn(after_restart_request(after_spawn(s, old_pid)), new_pid), old_pid)
            == WaitOutcome::Restart,
{
}

} // verus!
