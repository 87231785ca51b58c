//! Discovery and launch support for a single storefront-distributed
//! application.
//!
//! The crate answers two questions: is the application installed on this
//! machine, and how is control handed to the storefront client to launch it
//! with a given argument string.  All decision logic lives here, verified;
//! the surrounding host performs the filesystem reads and the final URI
//! hand-off and feeds their outcomes back in as plain values.

pub mod avail;
pub mod encode;
pub mod errors;
pub mod launch;
pub mod order;
pub mod paths;
pub mod text;
pub mod vdf;
