//! The reasons for which an analysis is refused.

use vstd::prelude::*;

verus! {

/// Why no analysis was made.
#[derive(Clone, Copy, Debug, PartialEq, Eq, Structural)]
pub enum AnalysisError {
    /// A list of kinds to drop and a list of kinds to keep were both given.
    ConflictingFilters,
    /// A snapshot holds no source of machine recipes.
    MissingMachineSource,
}

/// What is said when both lists of kinds are given.
pub const CONFLICTING_FILTERS: &'static str =
    "cannot use --blacklist and --whitelist at the same time";

/// What is said of a snapshot without machine recipes.
pub const MISSING_MACHINE_SOURCE: &'static str = "the snapshot holds no machine recipes";

impl AnalysisError {
    /// The text of the error.
    pub open spec fn message_spec(self) -> Seq<char> {
        match self {
            AnalysisError::ConflictingFilters => CONFLICTING_FILTERS@,
            AnalysisError::MissingMachineSource => MISSING_MACHINE_SOURCE@,
        }
    }

    /// A sentence that says what went wrong.
    pub fn message(&self) -> (r: String)
        ensures
            r@ == self.message_spec(),
    {
        match self {
            AnalysisError::ConflictingFilters => CONFLICTING_FILTERS.to_owned(),
            AnalysisError::MissingMachineSource => MISSING_MACHINE_SOURCE.to_owned(),
        }
    }
}

} // verus!
