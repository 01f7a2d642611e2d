//! The signal bridge: a handler for the child-termination signal that does
//! one thing — set a caller-supplied shared flag. The caller owns the flag,
//! polls it, clears it, and then reaps; the signal itself carries no payload,
//! so the identity of what terminated comes only from the later status polls.
//! Repeated signals before a clear collapse to the one pending indication.

use std::sync::atomic::AtomicBool;
use std::sync::Arc;

use vstd::prelude::*;

verus! {

/// Install a handler for the operating system's child-termination signal
/// that sets `flag` to true when the signal arrives; the handler allocates
/// nothing, logs nothing and does nothing else, as signal context demands.
/// A registration failure is swallowed: the process then runs without the
/// notification and its owner must rely on periodic reaping alone.
///
/// Relies on signal_hook::flag::register: the registered action is exactly
/// one atomic store of true into the flag, safe to run in signal context.
/// The child-termination signal is not one of the forbidden signals on which
/// that function panics.
#[verifier::external_body]
pub fn register_child_hook(flag: Arc<AtomicBool>) {
    let _ = signal_hook::flag::register(signal_hook::consts::SIGCHLD, flag);
}

} // verus!
