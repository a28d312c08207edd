//! What the background watcher reports for one repository root.

use vstd::prelude::*;

use std::path::PathBuf;

use crate::project::Project;

verus! {

/// A fresh diff of `root`: the project as it now stands, or `None` when it has no
/// changes (or is no longer a repository).
pub struct Update {
    pub root: PathBuf,
    pub project: Option<Project>,
}

} // verus!
