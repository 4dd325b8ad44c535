//! What a health probe of the backend means.

use vstd::prelude::*;

verus! {

/// How long a probe may take, in seconds.
pub const PROBE_TIMEOUT_SECS: u64 = 2;

/// What one probe found.
#[derive(Clone, Copy, Debug, PartialEq, Eq, Structural)]
pub enum Health {
    Up,
    Down,
}

/// The backend is up exactly when the probe was answered with a status of
/// success, 200 to 299; `None` stands for a probe that got no answer.
pub open spec fn answer_is_up(status: Option<u16>) -> bool {
    match status {
        Some(code) => 200 <= code <= 299,
        None => false,
    }
}

/// Reads the outcome of a probe: the status that the request was answered
/// with, or `None` when the transport failed or the time ran out. Whatever
/// went wrong, the backend counts as down.
pub fn probe_outcome(status: Option<u16>) -> (health: Health)
    ensures
        health == if answer_is_up(status) {
            Health::Up
        } else {
            Health::Down
        },
{
    match status {
        Some(code) => if 200 <= code && code <= 299 {
            Health::Up
        } else {
            Health::Down
        },
        None => Health::Down,
    }
}

} // verus!
