use vstd::prelude::*;

verus! {

/// Failures of the pure mapping code: reading filters and looking up covers.
#[derive(Debug, Clone, Copy, PartialEq, Eq, Structural)]
pub enum SourceError {
    /// The caller supplied a filter, or a sort index, the site has no word for.
    Unimplemented,
    /// A detail record came back without a cover.
    MissingCover,
}

/// What the reader application is told when a batch ran out of passes.
pub const TOO_MANY_ATTEMPTS: &'static str = "Too many request attempts";

/// What the reader application is told when a detail record names no cover.
pub const MISSING_COVER: &'static str = "Missing cover image";

} // verus!
