//! The decisions of the backend supervisor: its life cycle, the guard that
//! lets the shutdown sequence run once, and the sequence itself as a state
//! machine. The host performs each action and reports what happened.

use vstd::prelude::*;

verus! {

/// How long the interface gets to show that the application is closing.
pub const GRACE_MS: u64 = 100;

/// The pause between two looks at the terminating process.
pub const POLL_INTERVAL_MS: u64 = 200;

/// How long the process gets to exit before the kill is escalated.
pub const EXIT_TIMEOUT_MS: u64 = 10_000;

/// The number of pauses that fit into the exit timeout.
pub const MAX_POLL_PAUSES: u64 = 50;

/// The pause after a forced kill.
pub const FORCE_KILL_WAIT_MS: u64 = 500;

/// The pause before the process list is searched for a survivor.
pub const SETTLE_MS: u64 = 2_000;

/// The life cycle of the supervised process.
#[derive(Clone, Copy, Debug, PartialEq, Eq, Structural)]
pub enum SupervisorState {
    NotStarted,
    Starting,
    Running,
    ShuttingDown,
    Terminated,
}

/// Where the shutdown sequence stands.
#[derive(Clone, Copy, Debug, PartialEq, Eq, Structural)]
pub enum Phase {
    /// The interface is being told that the application closes.
    Notifying,
    /// The grace period runs.
    Grace,
    /// The termination signal is being sent.
    Killing,
    /// The process is being looked at.
    Polling,
    /// The pause between two looks runs.
    PollPause,
    /// The process and its group are being killed by force.
    Escalating,
    /// The pause after the forced kill runs.
    EscalationPause,
    /// The pause before the search for a survivor runs.
    Settling,
    /// The process list is being searched.
    Verifying,
    /// A survivor is being killed by force.
    FinalKill,
    /// The pause after the last kill runs.
    FinalPause,
    /// The sequence is over.
    Closed,
}

/// What the host reports back after an action.
#[derive(Clone, Copy, Debug, PartialEq, Eq, Structural)]
pub enum Event {
    /// The notification was sent, or could not be sent.
    Notified,
    /// A pause is over.
    Slept,
    /// There is no process handle to signal.
    NoProcess,
    /// The termination signal was sent.
    KillSent,
    /// The termination signal could not be sent.
    KillFailed,
    /// The process has exited.
    Exited,
    /// The process is still running.
    StillRunning,
    /// The process could not be looked at.
    PollFailed,
    /// The forced kill was attempted.
    ForceKilled,
    /// The process list holds no instance.
    Gone,
    /// The process list holds an instance.
    Found,
    /// The process list could not be searched.
    VerifyFailed,
}

/// What the host is to do next.
#[derive(Clone, Copy, Debug, PartialEq, Eq, Structural)]
pub enum Action {
    /// Nothing: the request or event changes nothing.
    Nothing,
    /// Tell the interface that the application closes.
    EmitClosing,
    /// Pause for so many milliseconds.
    Sleep(u64),
    /// Send the termination signal to the process.
    Kill,
    /// Look whether the process has exited.
    Poll,
    /// Kill the process, its group and every instance of the executable.
    ForceKill,
    /// Search the process list for an instance.
    Verify,
    /// Let the window close and the application quit.
    AllowClose,
}

/// The shutdown sequence: from a phase, the number of pauses taken while
/// polling and an event to the next phase, the new number of pauses and the
/// action to perform. An event that the phase does not wait for changes
/// nothing.
pub open spec fn next_step(phase: Phase, pauses: u64, event: Event) -> (Phase, u64, Action) {
    match (phase, event) {
        (Phase::Notifying, Event::Notified) => (Phase::Grace, pauses, Action::Sleep(GRACE_MS)),
        (Phase::Grace, Event::Slept) => (Phase::Killing, pauses, Action::Kill),
        (Phase::Killing, Event::KillSent) => (Phase::Polling, 0, Action::Poll),
        (Phase::Killing, Event::KillFailed) => (Phase::Escalating, pauses, Action::ForceKill),
        (Phase::Killing, Event::NoProcess) => (Phase::Settling, pauses, Action::Sleep(SETTLE_MS)),
        (Phase::Polling, Event::Exited) => (Phase::Settling, pauses, Action::Sleep(SETTLE_MS)),
        (Phase::Polling, Event::StillRunning) => (
            Phase::PollPause,
            pauses,
            Action::Sleep(POLL_INTERVAL_MS),
        ),
        (Phase::Polling, Event::PollFailed) => (Phase::Escalating, pauses, Action::ForceKill),
        (Phase::PollPause, Event::Slept) => if pauses + 1 < MAX_POLL_PAUSES {
            (Phase::Polling, (pauses + 1) as u64, Action::Poll)
        } else {
            (Phase::Escalating, pauses, Action::ForceKill)
        },
        (Phase::Escalating, Event::ForceKilled) => (
            Phase::EscalationPause,
            pauses,
            Action::Sleep(FORCE_KILL_WAIT_MS),
        ),
        (Phase::EscalationPause, Event::Slept) => (
            Phase::Settling,
            pauses,
            Action::Sleep(SETTLE_MS),
        ),
        (Phase::Settling, Event::Slept) => (Phase::Verifying, pauses, Action::Verify),
        (Phase::Verifying, Event::Gone) => (Phase::Closed, pauses, Action::AllowClose),
        (Phase::Verifying, Event::VerifyFailed) => (Phase::Closed, pauses, Action::AllowClose),
        (Phase::Verifying, Event::Found) => (Phase::FinalKill, pauses, Action::ForceKill),
        (Phase::FinalKill, Event::ForceKilled) => (
            Phase::FinalPause,
            pauses,
            Action::Sleep(FORCE_KILL_WAIT_MS),
        ),
        (Phase::FinalPause, Event::Slept) => (Phase::Closed, pauses, Action::AllowClose),
        _ => (phase, pauses, Action::Nothing),
    }
}

/// An upper bound on the number of actions that the sequence still asks for.
pub open spec fn steps_left(phase: Phase, pauses: u64) -> nat {
    match phase {
        Phase::Notifying => 112,
        Phase::Grace => 111,
        Phase::Killing => 110,
        Phase::Polling => if pauses < MAX_POLL_PAUSES {
            (9 + 2 * (MAX_POLL_PAUSES - pauses)) as nat
        } else {
            9
        },
        Phase::PollPause => if pauses < MAX_POLL_PAUSES {
            (8 + 2 * (MAX_POLL_PAUSES - pauses)) as nat
        } else {
            8
        },
        Phase::Escalating => 7,
        Phase::EscalationPause => 6,
        Phase::Settling => 5,
        Phase::Verifying => 4,
        Phase::FinalKill => 2,
        Phase::FinalPause => 1,
        Phase::Closed => 0,
    }
}

/// The guard that lets the shutdown sequence begin once.
pub struct CleanupGuard {
    started: bool,
}

impl CleanupGuard {
    /// Whether the shutdown sequence was begun.
    pub closed spec fn is_set(&self) -> bool {
        self.started
    }

    /// A guard that nothing has passed yet.
    pub fn new() -> (guard: Self)
        ensures
            !guard.is_set(),
    {
        CleanupGuard { started: false }
    }

    /// Asks to begin the shutdown sequence. The answer is yes for the first
    /// request and no for every later one; the guard is set afterwards
    /// either way.
    pub fn try_begin(&mut self) -> (first: bool)
        ensures
            first == !old(self).is_set(),
            final(self).is_set(),
    {
        let first = !self.started;
        self.started = true;
        first
    }

    /// Tells whether the shutdown sequence was begun.
    pub fn is_started(&self) -> (set: bool)
        ensures
            set == self.is_set(),
    {
        self.started
    }
}

/// How many of `requests` requests in a row pass a guard that is set or not.
pub open spec fn passes(requests: nat, set: bool) -> nat
    decreases requests,
{
    if requests == 0 {
        0
    } else {
        (if set { 0nat } else { 1nat }) + passes((requests - 1) as nat, true)
    }
}

/// Of any number of requests to a fresh guard exactly the first passes; none
/// passes a guard that is set.
pub proof fn lemma_guard_passes_once(requests: nat)
    ensures
        passes(requests, true) == 0,
        requests >= 1 ==> passes(requests, false) == 1,
    decreases requests,
{
    if requests > 0 {
        lemma_guard_passes_once((requests - 1) as nat);
    }
}

/// Every event that the sequence acts on brings it closer to its end; every
/// other event leaves it as it is.
pub proof fn lemma_step_progress(phase: Phase, pauses: u64, event: Event)
    requires
        pauses < MAX_POLL_PAUSES,
    ensures
        next_step(phase, pauses, event).1 < MAX_POLL_PAUSES,
        next_step(phase, pauses, event).2 == Action::Nothing ==> next_step(phase, pauses, event).0
            == phase && next_step(phase, pauses, event).1 == pauses,
        next_step(phase, pauses, event).2 != Action::Nothing ==> steps_left(
            next_step(phase, pauses, event).0,
            next_step(phase, pauses, event).1,
        ) < steps_left(phase, pauses),
{
}

/// The pauses between the looks at the process never add up to more than
/// the exit timeout, and the last one that may be taken reaches it.
pub proof fn lemma_polling_is_bounded(pauses: u64)
    requires
        pauses < MAX_POLL_PAUSES,
    ensures
        (pauses + 1) * POLL_INTERVAL_MS <= EXIT_TIMEOUT_MS,
        MAX_POLL_PAUSES * POLL_INTERVAL_MS == EXIT_TIMEOUT_MS,
{
}

/// The termination signal is asked for when the grace period ends and at no
/// other point, and closing is allowed exactly when the sequence reaches its
/// end.
pub proof fn lemma_kill_and_close(phase: Phase, pauses: u64, event: Event)
    ensures
        next_step(phase, pauses, event).2 == Action::Kill <==> phase == Phase::Grace && event
            == Event::Slept,
        next_step(phase, pauses, event).2 == Action::AllowClose <==> next_step(
            phase,
            pauses,
            event,
        ).0 == Phase::Closed && phase != Phase::Closed,
        phase == Phase::Closed ==> next_step(phase, pauses, event) == (
            phase,
            pauses,
            Action::Nothing,
        ),
{
}

/// The supervisor of the backend process.
pub struct Supervisor {
    state: SupervisorState,
    guard: CleanupGuard,
    phase: Phase,
    pauses: u64,
}

impl Supervisor {
    /// The life cycle state.
    pub closed spec fn lifecycle(&self) -> SupervisorState {
        self.state
    }

    /// Whether a shutdown was requested.
    pub closed spec fn shutdown_begun(&self) -> bool {
        self.guard.is_set()
    }

    /// The phase of the shutdown sequence.
    pub closed spec fn phase(&self) -> Phase {
        self.phase
    }

    /// The number of pauses taken while polling.
    pub closed spec fn pauses(&self) -> u64 {
        self.pauses
    }

    /// What holds of every supervisor: the shutdown sequence runs exactly
    /// while the state says so, and was begun exactly when the guard is set.
    pub open spec fn wf(&self) -> bool {
        &&& self.pauses() < MAX_POLL_PAUSES
        &&& self.shutdown_begun() <==> (self.lifecycle() == SupervisorState::ShuttingDown
            || self.lifecycle() == SupervisorState::Terminated)
        &&& self.lifecycle() == SupervisorState::Terminated <==> self.phase() == Phase::Closed
    }

    /// A supervisor that has not started anything.
    pub fn new() -> (sup: Self)
        ensures
            sup.wf(),
            sup.lifecycle() == SupervisorState::NotStarted,
            !sup.shutdown_begun(),
            sup.phase() == Phase::Notifying,
            sup.pauses() == 0,
    {
        Supervisor {
            state: SupervisorState::NotStarted,
            guard: CleanupGuard::new(),
            phase: Phase::Notifying,
            pauses: 0,
        }
    }

    /// The life cycle state.
    pub fn state(&self) -> (state: SupervisorState)
        ensures
            state == self.lifecycle(),
    {
        self.state
    }

    /// Whether the window may close and the application quit: only once the
    /// shutdown sequence is over.
    pub fn may_close(&self) -> (yes: bool)
        ensures
            yes == (self.lifecycle() == SupervisorState::Terminated),
    {
        self.state == SupervisorState::Terminated
    }

    /// Notes that the backend is being spawned. Returns whether the state
    /// changed: it does from `NotStarted` only.
    pub fn begin_start(&mut self) -> (changed: bool)
        requires
            old(self).wf(),
        ensures
            final(self).wf(),
            changed == (old(self).lifecycle() == SupervisorState::NotStarted),
            final(self).lifecycle() == if changed {
                SupervisorState::Starting
            } else {
                old(self).lifecycle()
            },
            final(self).shutdown_begun() == old(self).shutdown_begun(),
            final(self).phase() == old(self).phase(),
            final(self).pauses() == old(self).pauses(),
    {
        if self.state == SupervisorState::NotStarted {
            self.state = SupervisorState::Starting;
            true
        } else {
            false
        }
    }

    /// Notes that the handle of the spawned process is stored. Returns
    /// whether the state changed: it does from `Starting` only. No health
    /// probe is waited for.
    pub fn process_stored(&mut self) -> (changed: bool)
        requires
            old(self).wf(),
        ensures
            final(self).wf(),
            changed == (old(self).lifecycle() == SupervisorState::Starting),
            final(self).lifecycle() == if changed {
                SupervisorState::Running
            } else {
                old(self).lifecycle()
            },
            final(self).shutdown_begun() == old(self).shutdown_begun(),
            final(self).phase() == old(self).phase(),
            final(self).pauses() == old(self).pauses(),
    {
        if self.state == SupervisorState::Starting {
            self.state = SupervisorState::Running;
            true
        } else {
            false
        }
    }

    /// A request to terminate. The first one begins the shutdown sequence
    /// and asks for the notification of the interface; every later one
    /// changes nothing and asks for nothing.
    pub fn request_shutdown(&mut self) -> (action: Action)
        requires
            old(self).wf(),
        ensures
            final(self).wf(),
            final(self).shutdown_begun(),
            action == if old(self).shutdown_begun() {
                Action::Nothing
            } else {
                Action::EmitClosing
            },
            final(self).lifecycle() == if old(self).shutdown_begun() {
                old(self).lifecycle()
            } else {
                SupervisorState::ShuttingDown
            },
            final(self).phase() == if old(self).shutdown_begun() {
                old(self).phase()
            } else {
                Phase::Notifying
            },
            final(self).pauses() == if old(self).shutdown_begun() {
                old(self).pauses()
            } else {
                0
            },
    {
        if self.guard.try_begin() {
            self.state = SupervisorState::ShuttingDown;
            self.phase = Phase::Notifying;
            self.pauses = 0;
            Action::EmitClosing
        } else {
            Action::Nothing
        }
    }

    /// Takes the host's report of what happened and says what to do next.
    /// Outside the shutdown sequence every event changes nothing.
    pub fn on_event(&mut self, event: Event) -> (action: Action)
        requires
            old(self).wf(),
        ensures
            final(self).wf(),
            final(self).shutdown_begun() == old(self).shutdown_begun(),
            old(self).lifecycle() != SupervisorState::ShuttingDown ==> {
                &&& action == Action::Nothing
                &&& final(self).lifecycle() == old(self).lifecycle()
                &&& final(self).phase() == old(self).phase()
                &&& final(self).pauses() == old(self).pauses()
            },
            old(self).lifecycle() == SupervisorState::ShuttingDown ==> {
                &&& (final(self).phase(), final(self).pauses(), action) == next_step(
                    old(self).phase(),
                    old(self).pauses(),
                    event,
                )
                &&& final(self).lifecycle() == if final(self).phase() == Phase::Closed {
                    SupervisorState::Terminated
                } else {
                    SupervisorState::ShuttingDown
                }
            },
    {
        if self.state != SupervisorState::ShuttingDown {
            return Action::Nothing;
        }
        let (phase, pauses, action) = step(self.phase, self.pauses, event);
        self.phase = phase;
        self.pauses = pauses;
        if phase == Phase::Closed {
            self.state = SupervisorState::Terminated;
        }
        action
    }
}

/// One step of the shutdown sequence.
pub fn step(phase: Phase, pauses: u64, event: Event) -> (out: (Phase, u64, Action))
    requires
        pauses < MAX_POLL_PAUSES,
    ensures
        out == next_step(phase, pauses, event),
{
    match (phase, event) {
        (Phase::Notifying, Event::Notified) => (Phase::Grace, pauses, Action::Sleep(GRACE_MS)),
        (Phase::Grace, Event::Slept) => (Phase::Killing, pauses, Action::Kill),
        (Phase::Killing, Event::KillSent) => (Phase::Polling, 0, Action::Poll),
        (Phase::Killing, Event::KillFailed) => (Phase::Escalating, pauses, Action::ForceKill),
        (Phase::Killing, Event::NoProcess) => (Phase::Settling, pauses, Action::Sleep(SETTLE_MS)),
        (Phase::Polling, Event::Exited) => (Phase::Settling, pauses, Action::Sleep(SETTLE_MS)),
        (Phase::Polling, Event::StillRunning) => (
            Phase::PollPause,
            pauses,
            Action::Sleep(POLL_INTERVAL_MS),
        ),
        (Phase::Polling, Event::PollFailed) => (Phase::Escalating, pauses, Action::ForceKill),
        (Phase::PollPause, Event::Slept) => if pauses + 1 < MAX_POLL_PAUSES {
            (Phase::Polling, pauses + 1, Action::Poll)
        } else {
            (Phase::Escalating, pauses, Action::ForceKill)
        },
        (Phase::Escalating, Event::ForceKilled) => (
            Phase::EscalationPause,
            pauses,
            Action::Sleep(FORCE_KILL_WAIT_MS),
        ),
        (Phase::EscalationPause, Event::Slept) => (
            Phase::Settling,
            pauses,
            Action::Sleep(SETTLE_MS),
        ),
        (Phase::Settling, Event::Slept) => (Phase::Verifying, pauses, Action::Verify),
        (Phase::Verifying, Event::Gone) => (Phase::Closed, pauses, Action::AllowClose),
        (Phase::Verifying, Event::VerifyFailed) => (Phase::Closed, pauses, Action::AllowClose),
        (Phase::Verifying, Event::Found) => (Phase::FinalKill, pauses, Action::ForceKill),
        (Phase::FinalKill, Event::ForceKilled) => (
            Phase::FinalPause,
            pauses,
            Action::Sleep(FORCE_KILL_WAIT_MS),
        ),
        (Phase::FinalPause, Event::Slept) => (Phase::Closed, pauses, Action::AllowClose),
        _ => (phase, pauses, Action::Nothing),
    }
}

} // verus!
