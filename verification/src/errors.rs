//! The closed failure taxonomy that crosses the system boundary.

use vstd::prelude::*;

verus! {

/// Classified outcome of a failed availability check or launch attempt.
/// Only these three kinds ever reach the caller; raw I/O errors are absorbed
/// inside the discovery logic and reinterpreted as absence.
#[derive(Clone, Copy, Debug, PartialEq, Eq, Structural)]
pub enum ErrorKind {
    /// No storefront installation root could be located at all, or the
    /// operating system has no handler registered for the launch scheme.
    StorefrontUnavailable,
    /// Storefront roots exist, but no installation manifest for the target
    /// application was found anywhere.
    GameUnavailable,
    /// Hand-off to the URI-opening facility failed for a reason other than a
    /// missing scheme handler.
    LaunchFailed,
}

impl ErrorKind {
    /// The stable string identifier surfaced at the host boundary.
    pub fn code(&self) -> (r: &'static str)
        ensures
            *self == ErrorKind::StorefrontUnavailable ==> r@ == "steam_unavailable"@,
            *self == ErrorKind::GameUnavailable ==> r@ == "game_unavailable"@,
            *self == ErrorKind::LaunchFailed ==> r@ == "launch_failed"@,
    {
        match self {
            ErrorKind::StorefrontUnavailable => "steam_unavailable",
            ErrorKind::GameUnavailable => "game_unavailable",
            ErrorKind::LaunchFailed => "launch_failed",
        }
    }
}

} // verus!
