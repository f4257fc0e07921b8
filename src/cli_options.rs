//! The options of a release run.

use crate::sem_ver::SemVerComponent;
use vstd::prelude::*;

verus! {

/// What a release run is asked to do.
pub struct CliOptions {
    /// The component of the version to bump.
    pub version: SemVerComponent,
    /// The working directory of the repository.
    pub dir: String,
    /// A custom message for the commit; empty for the default one.
    pub message: String,
    /// Whether to leave files and the repository untouched.
    pub dry_run: bool,
    /// Whether to keep the changes local.
    pub no_push: bool,
    /// Whether to log more.
    pub verbose: bool,
}

} // verus!
