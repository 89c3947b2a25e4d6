//! Waiting for a child process.
//!
//! A child is polled until it exits, its deadline comes, or its task reaches a resource limit.
//! In the last two cases it is killed and reaped before the failure is reported.

use vstd::prelude::*;

use crate::process::ProcessAdapterError;
use crate::time::{Duration, NANOS_PER_MILLI};

verus! {

pub const WAIT_POLL_MILLIS: u64 = 5;

/// What the cgroup of the task says.
#[derive(Clone, Copy, Debug, PartialEq, Eq, Structural)]
pub enum LimitCheck {
    /// No limit is reached, or none was set.
    Within,
    Reached,
    /// The limits could not be read, or are not those that were set.
    Unknown,
}

/// What is to be done next.
#[derive(Clone, Copy, Debug, PartialEq, Eq, Structural)]
pub enum WaitAction {
    /// Poll the child after a pause.
    Poll { pause: Duration },
    Kill,
    /// Wait until the killed child is gone.
    Reap,
    /// Poll the child once more, as it could not be killed.
    Check,
}

/// What came of an action.
#[derive(Clone, Copy, Debug, PartialEq, Eq, Structural)]
pub enum WaitEvent {
    /// The child was polled: whether it exited, and then whether it succeeded.
    Polled { exit: Option<bool>, limit: LimitCheck },
    PollFailed,
    Killed,
    KillFailed,
    Reaped,
    ReapFailed,
}

/// The state of one wait.
#[derive(Clone, Copy, Debug, PartialEq, Eq, Structural)]
pub struct ProcessWait {
    pub deadline: u128,
    pub action: WaitAction,
    /// What a killed child is reported as.
    pub verdict: ProcessAdapterError,
}

/// A wait that goes on, or its result.
#[derive(Clone, Copy, Debug, PartialEq, Eq)]
pub enum WaitStep {
    Continue(ProcessWait),
    Done(Result<(), ProcessAdapterError>),
}

/// The pause before the next poll: the poll interval, or what is left until the deadline.
pub open spec fn poll_pause(deadline: u128, now: u128) -> u128 {
    if deadline - now < WAIT_POLL_MILLIS * NANOS_PER_MILLI {
        (deadline - now) as u128
    } else {
        (WAIT_POLL_MILLIS * NANOS_PER_MILLI) as u128
    }
}

impl ProcessWait {
    /// The wait of a child that was spawned, until a deadline.
    pub fn start(deadline: u128) -> (r: ProcessWait)
        ensures
            r == (ProcessWait {
                deadline,
                action: WaitAction::Poll { pause: Duration { nanos: 0 } },
                verdict: ProcessAdapterError::TimedOut,
            }),
    {
        ProcessWait {
            deadline,
            action: WaitAction::Poll { pause: Duration { nanos: 0 } },
            verdict: ProcessAdapterError::TimedOut,
        }
    }

    /// The child is to be killed, and reported as `verdict`.
    pub open spec fn killing(self, verdict: ProcessAdapterError) -> WaitStep {
        WaitStep::Continue(ProcessWait { action: WaitAction::Kill, verdict, ..self })
    }

    /// What an event that came at `now` leads to.
    pub open spec fn stepped(self, event: WaitEvent, now: u128) -> WaitStep {
        match (self.action, event) {
            (WaitAction::Poll { .. }, WaitEvent::Polled { exit, limit }) => match limit {
                LimitCheck::Unknown => match exit {
                    Some(_) => WaitStep::Done(Err(ProcessAdapterError::InvalidResourceControl)),
                    None => self.killing(ProcessAdapterError::InvalidResourceControl),
                },
                LimitCheck::Reached => match exit {
                    Some(_) => WaitStep::Done(Err(ProcessAdapterError::ResourceLimitExceeded)),
                    None => self.killing(ProcessAdapterError::ResourceLimitExceeded),
                },
                LimitCheck::Within => match exit {
                    Some(true) => WaitStep::Done(Ok(())),
                    Some(false) => WaitStep::Done(Err(ProcessAdapterError::ExitFailed)),
                    None => if now >= self.deadline {
                        self.killing(ProcessAdapterError::TimedOut)
                    } else {
                        WaitStep::Continue(
                            ProcessWait {
                                action: WaitAction::Poll {
                                    pause: Duration { nanos: poll_pause(self.deadline, now) },
                                },
                                ..self
                            },
                        )
                    },
                },
            },
            (WaitAction::Kill, WaitEvent::Killed) => WaitStep::Continue(
                ProcessWait { action: WaitAction::Reap, ..self },
            ),
            (WaitAction::Kill, WaitEvent::KillFailed) => WaitStep::Continue(
                ProcessWait { action: WaitAction::Check, ..self },
            ),
            (WaitAction::Reap, WaitEvent::Reaped) => WaitStep::Done(Err(self.verdict)),
            (WaitAction::Check, WaitEvent::Polled { exit: Some(_), .. }) => WaitStep::Done(
                Err(self.verdict),
            ),
            _ => WaitStep::Done(Err(ProcessAdapterError::WaitFailed)),
        }
    }

    /// Takes in what came of the last action.
    #[must_use]
    pub fn next(self, event: WaitEvent, now: u128) -> (r: WaitStep)
        ensures
            r == self.stepped(event, now),
    {
        match (self.action, event) {
            (WaitAction::Poll { .. }, WaitEvent::Polled { exit, limit }) => match limit {
                LimitCheck::Unknown => self.over(
                    exit,
                    ProcessAdapterError::InvalidResourceControl,
                ),
                LimitCheck::Reached => self.over(
                    exit,
                    ProcessAdapterError::ResourceLimitExceeded,
                ),
                LimitCheck::Within => match exit {
                    Some(success) => {
                        if success {
                            WaitStep::Done(Ok(()))
                        } else {
                            WaitStep::Done(Err(ProcessAdapterError::ExitFailed))
                        }
                    },
                    None => {
                        if now >= self.deadline {
                            return self.over(None, ProcessAdapterError::TimedOut);
                        }
                        let left: u128 = self.deadline - now;
                        let interval = Duration::from_millis(WAIT_POLL_MILLIS);
                        let pause = if left < interval.nanos {
                            Duration { nanos: left }
                        } else {
                            interval
                        };
                        WaitStep::Continue(
                            ProcessWait {
                                deadline: self.deadline,
                                action: WaitAction::Poll { pause },
                                verdict: self.verdict,
                            },
                        )
                    },
                },
            },
            (WaitAction::Kill, WaitEvent::Killed) => WaitStep::Continue(
                ProcessWait {
                    deadline: self.deadline,
                    action: WaitAction::Reap,
                    verdict: self.verdict,
                },
            ),
            (WaitAction::Kill, WaitEvent::KillFailed) => WaitStep::Continue(
                ProcessWait {
                    deadline: self.deadline,
                    action: WaitAction::Check,
                    verdict: self.verdict,
                },
            ),
            (WaitAction::Reap, WaitEvent::Reaped) => WaitStep::Done(Err(self.verdict)),
            (WaitAction::Check, WaitEvent::Polled { exit: Some(_), .. }) => WaitStep::Done(
                Err(self.verdict),
            ),
            _ => WaitStep::Done(Err(ProcessAdapterError::WaitFailed)),
        }
    }

    fn over(self, exit: Option<bool>, verdict: ProcessAdapterError) -> (r: WaitStep)
        ensures
            r == match exit {
                Some(_) => WaitStep::Done(Err(verdict)),
                None => self.killing(verdict),
            },
    {
        match exit {
            Some(_) => WaitStep::Done(Err(verdict)),
            None => WaitStep::Continue(
                ProcessWait { deadline: self.deadline, action: WaitAction::Kill, verdict },
            ),
        }
    }
}

/// A wait succeeds only when the child exited successfully within the limits of its task.
pub proof fn law_success_is_a_clean_exit(wait: ProcessWait, event: WaitEvent, now: u128)
    requires
        wait.stepped(event, now) == WaitStep::Done(Ok::<(), ProcessAdapterError>(())),
    ensures
        event == (WaitEvent::Polled { exit: Some(true), limit: LimitCheck::Within }),
        wait.action is Poll,
{
}

/// A child is not left running: a wait ends while the child may still run only where the
/// operating system refused to poll, kill or reap it.
pub proof fn law_no_child_is_left_running(wait: ProcessWait, event: WaitEvent, now: u128)
    requires
        wait.stepped(event, now) is Done,
        wait.stepped(event, now) != WaitStep::Done(
            Err::<(), ProcessAdapterError>(ProcessAdapterError::WaitFailed),
        ),
    ensures
        match event {
            WaitEvent::Polled { exit, .. } => exit is Some,
            WaitEvent::Reaped => true,
            _ => false,
        },
{
}

/// A pause never outlasts the deadline or the poll interval.
pub proof fn law_pauses_are_bounded(wait: ProcessWait, event: WaitEvent, now: u128)
    ensures
        match wait.stepped(event, now) {
            WaitStep::Continue(next) => match next.action {
                WaitAction::Poll { pause } => 0 < pause.nanos && now + pause.nanos
                    <= wait.deadline && pause.nanos <= WAIT_POLL_MILLIS * NANOS_PER_MILLI,
                _ => true,
            },
            WaitStep::Done(_) => true,
        },
{
}

} // verus!
