//! Parser for a single line of shell-like input.
//!
//! A line is turned into an ordered pipeline of commands, an optional
//! input-redirection path, an optional output-redirection path, and a
//! background-execution flag.  The parser is pure: it reads its argument,
//! allocates the result, and touches nothing else.

use vstd::prelude::*;

pub mod command;
pub mod job;
pub mod laws;
pub mod text;

verus! {

/// A way in which a line can fail to parse.
///
/// The parser never panics on malformed input: every such line is reported
/// as one of these values, so a read loop can print a diagnostic and go on.
#[derive(Clone, Copy, Debug, PartialEq, Eq, Structural)]
pub enum ParseError {
    /// A pipeline stage holds no executable token after trimming, as in a
    /// blank stage between two pipes or after a trailing pipe.
    EmptyCommandToken,
    /// A redirection operator is present but the path extracted for it is
    /// empty after trimming.
    MalformedRedirection,
    /// Reserved for stricter validation of operator structure.  The current
    /// rules report every such line as `MalformedRedirection` instead, so
    /// this value is never produced.
    UnbalancedRedirection,
}

} // verus!
