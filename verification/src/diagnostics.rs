//! What the pass reports of its decisions.
//!
//! The pass never fails: a block that cannot be traced is passed over, and
//! the reason is appended to a list for whoever runs the pass to print.

use vstd::prelude::*;

verus! {

/// How much a report matters.
#[derive(Clone, Copy, Debug, PartialEq, Eq, Structural)]
pub enum Level {
    Debug,
    Info,
    Warn,
    Error,
}

/// One decision of the pass. `id` is the identifier of the block that the
/// decision is about.
#[derive(Clone, Copy, Debug, PartialEq, Eq, Structural)]
pub enum Diagnostic {
    /// The function at this index has no blocks and is left out.
    UndefinedFunction { function: usize },
    /// A branch leads to a block that was not seen before.
    Discovered { id: u64, address: u64 },
    /// A branch leads to a block that was handled already: nothing is done.
    Revisited { id: u64, address: u64 },
    /// A branch leads to an address at which its function has no block:
    /// nothing is done.
    MissingBlock { address: u64 },
    /// The block has no instructions: nothing is done.
    EmptyBlock { id: u64 },
    /// The first instruction of the block has no source position: nothing is
    /// done.
    NoStartLocation { id: u64 },
    /// The last instruction of the block has no source position: the trace
    /// line leaves the last line open.
    NoEndLocation { id: u64 },
    /// The first and the last instruction of the block come from files of
    /// different names: the trace line names the first.
    FileMismatch { id: u64 },
    /// A call to the trace routine now starts the block at this index of the
    /// function at this index.
    Injected { id: u64, function: usize, block: usize },
}

impl Diagnostic {
    pub open spec fn spec_level(&self) -> Level {
        match *self {
            Diagnostic::Discovered { .. } => Level::Info,
            Diagnostic::Revisited { .. } => Level::Info,
            Diagnostic::Injected { .. } => Level::Info,
            _ => Level::Warn,
        }
    }

    /// Discoveries, revisits and injections inform; everything that keeps a
    /// block from being traced in full warns.
    #[verifier::when_used_as_spec(spec_level)]
    pub fn level(&self) -> (level: Level)
        ensures
            level == self.spec_level(),
    {
        match self {
            Diagnostic::Discovered { .. } => Level::Info,
            Diagnostic::Revisited { .. } => Level::Info,
            Diagnostic::Injected { .. } => Level::Info,
            _ => Level::Warn,
        }
    }
}

} // verus!
