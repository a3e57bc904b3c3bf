//! Fatal conditions that abort a resolver run. Recoverable outcomes (a
//! failed probe, a yanked seed, a missing lock file) never appear here:
//! they are absorbed where a useful decision can be made.
use vstd::prelude::*;

use crate::validator::ValidationError;

verus! {

/// A fatal resolver error.
#[derive(Debug)]
pub enum Error {
    /// The seed selector found no usable (published, non-yanked) version
    /// for the named dependency.
    NoAvailableVersions { name: String },
    /// A search was asked to start from a seed that is not among the
    /// dependency's non-yanked published versions.
    SeedNotFound { version: String },
    /// The baseline check, with every seed pinned, did not pass; its
    /// captured diagnostic is kept.
    BaselineInvalid { error: ValidationError },
    /// The build tool could not be driven at all (it could not be launched,
    /// or its output could not be read).
    Io { message: String },
    /// Any other fatal condition, with a human-readable message.
    Other { message: String },
}

} // verus!
