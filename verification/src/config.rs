//! In-memory selection configuration: file names that are always picked,
//! plus an ordered list of named project profiles.

use vstd::prelude::*;

verus! {

/// One named selection profile: a project type together with the file
/// extensions (no leading dot) and exact file names it selects.
pub struct Project {
    pub project_type: String,
    pub file_types: Vec<String>,
    pub file_names: Vec<String>,
}

/// The whole selection configuration. `general_files` are file names picked
/// whatever the active profile; `projects` is ordered, and a lookup by
/// project type takes the first match.
pub struct Config {
    pub general_files: Vec<String>,
    pub projects: Vec<Project>,
}

impl Project {
    /// Membership of `s` in this profile's extension set.
    pub open spec fn spec_has_type(&self, s: Seq<char>) -> bool {
        self.file_types.deep_view().contains(s)
    }

    /// Membership of `s` in this profile's file-name set.
    pub open spec fn spec_has_name(&self, s: Seq<char>) -> bool {
        self.file_names.deep_view().contains(s)
    }
}

} // verus!
