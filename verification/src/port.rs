//! The choice of the port that the backend listens on. The host tries to
//! bind each candidate and reports whether it could.

use vstd::prelude::*;

verus! {

/// The port of the fixed mode.
pub const FIXED_PORT: u16 = 7070;

/// The lowest port of the dynamic mode.
pub const PORT_MIN: u16 = 10000;

/// The highest port of the dynamic mode.
pub const PORT_MAX: u16 = 60000;

/// How many candidates the dynamic mode tries.
pub const MAX_ATTEMPTS: u32 = 100;

/// How the port is chosen.
#[derive(Clone, Copy, Debug, PartialEq, Eq, Structural)]
pub enum PortMode {
    Fixed,
    Dynamic,
}

/// What the host is to do next.
#[derive(Clone, Copy, Debug, PartialEq, Eq, Structural)]
pub enum PortStep {
    /// Try to bind a throwaway listener to this port and report the outcome.
    Try(u16),
    /// Use this port.
    Use(u16),
    /// Every attempt failed: the backend cannot be started.
    Exhausted,
}

/// A search for a free port.
pub struct PortSearch {
    mode: PortMode,
    attempts: u32,
    candidate: Option<u16>,
}

/// Draws a port with `rand::Rng::gen_range` on the thread's generator. The
/// draw lies in the closed range that it is given; nothing else is known of
/// it.
#[verifier::external_body]
fn random_port(low: u16, high: u16) -> (port: u16)
    requires
        low <= high,
    ensures
        low <= port <= high,
{
    rand::Rng::gen_range(&mut rand::thread_rng(), low..=high)
}

impl PortSearch {
    /// The mode of the search.
    pub closed spec fn mode(&self) -> PortMode {
        self.mode
    }

    /// How many candidates were handed out.
    pub closed spec fn attempts(&self) -> nat {
        self.attempts as nat
    }

    /// The candidate that was handed out last and is still being tried.
    pub closed spec fn candidate(&self) -> Option<u16> {
        self.candidate
    }

    /// No search hands out more candidates than it may, and none from
    /// outside the dynamic range.
    pub open spec fn wf(&self) -> bool {
        &&& self.attempts() <= MAX_ATTEMPTS
        &&& match self.candidate() {
            Some(port) => PORT_MIN <= port <= PORT_MAX,
            None => true,
        }
    }

    /// A search that has not tried anything.
    pub fn new(mode: PortMode) -> (search: Self)
        ensures
            search.wf(),
            search.mode() == mode,
            search.attempts() == 0,
            search.candidate().is_none(),
    {
        PortSearch { mode, attempts: 0, candidate: None }
    }

    /// The first step: the fixed port at once in the fixed mode, a first
    /// candidate in the dynamic mode.
    pub fn begin(&mut self) -> (step: PortStep)
        requires
            old(self).wf(),
        ensures
            final(self).wf(),
            final(self).mode() == old(self).mode(),
            old(self).mode() == PortMode::Fixed ==> {
                &&& step == PortStep::Use(FIXED_PORT)
                &&& final(self).attempts() == old(self).attempts()
                &&& final(self).candidate() == old(self).candidate()
            },
            old(self).mode() == PortMode::Dynamic ==> candidate_or_end(
                old(self).attempts(),
                final(self).attempts(),
                final(self).candidate(),
                step,
            ),
            step_in_range(step),
    {
        match self.mode {
            PortMode::Fixed => PortStep::Use(FIXED_PORT),
            PortMode::Dynamic => self.next_candidate(),
        }
    }

    /// Takes the outcome of the bind attempt on the candidate that was
    /// handed out last. In the fixed mode the port is the fixed one,
    /// whatever is reported. In the dynamic mode a candidate that could be
    /// bound is the port to use; after a failure, or when no candidate is
    /// being tried, the next candidate is handed out, until the attempts
    /// are used up.
    pub fn bind_result(&mut self, bound: bool) -> (step: PortStep)
        requires
            old(self).wf(),
        ensures
            final(self).wf(),
            final(self).mode() == old(self).mode(),
            old(self).mode() == PortMode::Fixed ==> {
                &&& step == PortStep::Use(FIXED_PORT)
                &&& final(self).attempts() == old(self).attempts()
                &&& final(self).candidate() == old(self).candidate()
            },
            old(self).mode() == PortMode::Dynamic && bound && old(self).candidate().is_some() ==> {
                &&& step == PortStep::Use(old(self).candidate().unwrap())
                &&& final(self).attempts() == old(self).attempts()
                &&& final(self).candidate() == old(self).candidate()
            },
            old(self).mode() == PortMode::Dynamic && !(bound && old(self).candidate().is_some())
                ==> candidate_or_end(
                old(self).attempts(),
                final(self).attempts(),
                final(self).candidate(),
                step,
            ),
            step_in_range(step),
    {
        match self.mode {
            PortMode::Fixed => PortStep::Use(FIXED_PORT),
            PortMode::Dynamic => {
                match self.candidate {
                    Some(port) => {
                        if bound {
                            return PortStep::Use(port);
                        }
                    },
                    None => {},
                }
                self.next_candidate()
            },
        }
    }

    fn next_candidate(&mut self) -> (step: PortStep)
        requires
            old(self).wf(),
        ensures
            final(self).wf(),
            final(self).mode() == old(self).mode(),
            candidate_or_end(
                old(self).attempts(),
                final(self).attempts(),
                final(self).candidate(),
                step,
            ),
    {
        if self.attempts < MAX_ATTEMPTS {
            let port = random_port(PORT_MIN, PORT_MAX);
            self.attempts = self.attempts + 1;
            self.candidate = Some(port);
            PortStep::Try(port)
        } else {
            self.candidate = None;
            PortStep::Exhausted
        }
    }
}

/// While attempts are left, the step is one more candidate from the dynamic
/// range, which the search keeps; once they are used up, the step is the end
/// of the search, and no candidate is kept.
pub open spec fn candidate_or_end(
    before: nat,
    after: nat,
    kept: Option<u16>,
    step: PortStep,
) -> bool {
    if before < MAX_ATTEMPTS {
        &&& after == before + 1
        &&& match step {
            PortStep::Try(port) => PORT_MIN <= port <= PORT_MAX && kept == Some(port),
            _ => false,
        }
    } else {
        after == before && step == PortStep::Exhausted && kept.is_none()
    }
}

/// Every port that a step names is the fixed one or lies in the dynamic
/// range.
pub open spec fn step_in_range(step: PortStep) -> bool {
    match step {
        PortStep::Try(port) => PORT_MIN <= port <= PORT_MAX,
        PortStep::Use(port) => port == FIXED_PORT || PORT_MIN <= port <= PORT_MAX,
        PortStep::Exhausted => true,
    }
}

/// What the host reports when the search is exhausted.
pub fn exhausted_message() -> (text: String)
    ensures
        text@ == "Could not find an available port in range 10000-60000"@,
{
    "Could not find an available port in range 10000-60000".to_string()
}

} // verus!
