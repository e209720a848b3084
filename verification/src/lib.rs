//! Verification and refresh of REPL transcripts embedded in a document.
//!
//! A transcript block records the expected output of an interactive program.
//! The matcher reconciles the expected lines against the lines actually
//! produced, honouring two kinds of wildcard lines, and the session driver
//! turns a parsed session into a sequence of prompt waits and command sends.

pub mod common;
pub mod driver;
pub mod model;
pub mod pattern;

use vstd::prelude::*;

verus! {

} // verus!
