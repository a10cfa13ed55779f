//! The kinds of change that the analysis tells apart.

use crate::order::{Order, Ranked};
use crate::stack::same_text;
use vstd::prelude::*;

verus! {

/// The status of one input signature of one machine across two snapshots.
/// The variants stand in the order in which a report lists them.
#[derive(Clone, Copy, Debug, PartialEq, Eq, Structural, Hash)]
pub enum GTRecipeStatus {
    /// The signature is new and holds one recipe.
    Added,
    /// The signature is gone.
    Removed,
    /// The single recipe of the signature yields something else.
    OutputsChanged,
    /// The single recipe of the signature changed duration, energy or its
    /// enabled flag.
    StatsChanged,
    /// Several differing recipes are registered, before and after.
    Conflicting,
    /// Several recipes are registered after, at most one before.
    ConflictCreated,
    /// Several recipes were registered before, one after.
    ConflictRemoved,
    /// The same recipe is registered several times, before and after.
    DuplicateRegistration,
    /// An input of the signature did not resolve.
    MissingInput,
    /// A recipe of the signature has an unresolved part, before and after.
    MissingOutput,
    /// A recipe of the signature has an unresolved part only after.
    MissingOutputCreated,
}

/// The number of status kinds.
pub const STATUS_COUNT: u8 = 11;

impl DeepView for GTRecipeStatus {
    type V = GTRecipeStatus;

    open spec fn deep_view(&self) -> GTRecipeStatus {
        *self
    }
}

impl GTRecipeStatus {
    /// The place of the kind in the order of the variants, from 0.
    pub open spec fn rank(self) -> u8 {
        match self {
            GTRecipeStatus::Added => 0,
            GTRecipeStatus::Removed => 1,
            GTRecipeStatus::OutputsChanged => 2,
            GTRecipeStatus::StatsChanged => 3,
            GTRecipeStatus::Conflicting => 4,
            GTRecipeStatus::ConflictCreated => 5,
            GTRecipeStatus::ConflictRemoved => 6,
            GTRecipeStatus::DuplicateRegistration => 7,
            GTRecipeStatus::MissingInput => 8,
            GTRecipeStatus::MissingOutput => 9,
            GTRecipeStatus::MissingOutputCreated => 10,
        }
    }

    /// The kind at place `rank`; `Added` where there is none.
    pub open spec fn of_rank(rank: u8) -> GTRecipeStatus {
        if rank == 1 {
            GTRecipeStatus::Removed
        } else if rank == 2 {
            GTRecipeStatus::OutputsChanged
        } else if rank == 3 {
            GTRecipeStatus::StatsChanged
        } else if rank == 4 {
            GTRecipeStatus::Conflicting
        } else if rank == 5 {
            GTRecipeStatus::ConflictCreated
        } else if rank == 6 {
            GTRecipeStatus::ConflictRemoved
        } else if rank == 7 {
            GTRecipeStatus::DuplicateRegistration
        } else if rank == 8 {
            GTRecipeStatus::MissingInput
        } else if rank == 9 {
            GTRecipeStatus::MissingOutput
        } else if rank == 10 {
            GTRecipeStatus::MissingOutputCreated
        } else {
            GTRecipeStatus::Added
        }
    }

    /// The name of the kind as a report and the command line write it.
    pub open spec fn name_spec(self) -> Seq<char> {
        match self {
            GTRecipeStatus::Added => "Added"@,
            GTRecipeStatus::Removed => "Removed"@,
            GTRecipeStatus::OutputsChanged => "OutputsChanged"@,
            GTRecipeStatus::StatsChanged => "StatsChanged"@,
            GTRecipeStatus::Conflicting => "Conflicting"@,
            GTRecipeStatus::ConflictCreated => "ConflictCreated"@,
            GTRecipeStatus::ConflictRemoved => "ConflictRemoved"@,
            GTRecipeStatus::DuplicateRegistration => "DuplicateRegistration"@,
            GTRecipeStatus::MissingInput => "MissingInput"@,
            GTRecipeStatus::MissingOutput => "MissingOutput"@,
            GTRecipeStatus::MissingOutputCreated => "MissingOutputCreated"@,
        }
    }

    /// The name of the kind as a summary for readers writes it.
    pub open spec fn label_spec(self) -> Seq<char> {
        match self {
            GTRecipeStatus::Added => "Added"@,
            GTRecipeStatus::Removed => "Removed"@,
            GTRecipeStatus::OutputsChanged => "Outputs Changed"@,
            GTRecipeStatus::StatsChanged => "Stats Changed"@,
            GTRecipeStatus::Conflicting => "Conflicting"@,
            GTRecipeStatus::ConflictCreated => "Conflict Created"@,
            GTRecipeStatus::ConflictRemoved => "Conflict Removed"@,
            GTRecipeStatus::DuplicateRegistration => "Duplicate Registration"@,
            GTRecipeStatus::MissingInput => "Missing Input"@,
            GTRecipeStatus::MissingOutput => "Missing Output"@,
            GTRecipeStatus::MissingOutputCreated => "Missing Output Created"@,
        }
    }

    /// The place of the kind in the order of the variants, from 0.
    pub fn index(self) -> (r: u8)
        ensures
            r == self.rank(),
            r < STATUS_COUNT,
    {
        match self {
            GTRecipeStatus::Added => 0,
            GTRecipeStatus::Removed => 1,
            GTRecipeStatus::OutputsChanged => 2,
            GTRecipeStatus::StatsChanged => 3,
            GTRecipeStatus::Conflicting => 4,
            GTRecipeStatus::ConflictCreated => 5,
            GTRecipeStatus::ConflictRemoved => 6,
            GTRecipeStatus::DuplicateRegistration => 7,
            GTRecipeStatus::MissingInput => 8,
            GTRecipeStatus::MissingOutput => 9,
            GTRecipeStatus::MissingOutputCreated => 10,
        }
    }

    /// The kind at place `index`, where `index` is below `STATUS_COUNT`.
    pub fn from_index(index: u8) -> (r: Option<GTRecipeStatus>)
        ensures
            index < STATUS_COUNT ==> r == Some(GTRecipeStatus::of_rank(index)),
            index >= STATUS_COUNT ==> r is None,
            r matches Some(s) ==> s.rank() == index,
    {
        match index {
            0 => Some(GTRecipeStatus::Added),
            1 => Some(GTRecipeStatus::Removed),
            2 => Some(GTRecipeStatus::OutputsChanged),
            3 => Some(GTRecipeStatus::StatsChanged),
            4 => Some(GTRecipeStatus::Conflicting),
            5 => Some(GTRecipeStatus::ConflictCreated),
            6 => Some(GTRecipeStatus::ConflictRemoved),
            7 => Some(GTRecipeStatus::DuplicateRegistration),
            8 => Some(GTRecipeStatus::MissingInput),
            9 => Some(GTRecipeStatus::MissingOutput),
            10 => Some(GTRecipeStatus::MissingOutputCreated),
            _ => None,
        }
    }

    /// The name of the kind as a report and the command line write it.
    pub fn name(&self) -> (r: &'static str)
        ensures
            r@ == self.name_spec(),
    {
        match self {
            GTRecipeStatus::Added => "Added",
            GTRecipeStatus::Removed => "Removed",
            GTRecipeStatus::OutputsChanged => "OutputsChanged",
            GTRecipeStatus::StatsChanged => "StatsChanged",
            GTRecipeStatus::Conflicting => "Conflicting",
            GTRecipeStatus::ConflictCreated => "ConflictCreated",
            GTRecipeStatus::ConflictRemoved => "ConflictRemoved",
            GTRecipeStatus::DuplicateRegistration => "DuplicateRegistration",
            GTRecipeStatus::MissingInput => "MissingInput",
            GTRecipeStatus::MissingOutput => "MissingOutput",
            GTRecipeStatus::MissingOutputCreated => "MissingOutputCreated",
        }
    }

    /// The name of the kind as a summary for readers writes it.
    pub fn to_string(&self) -> (r: String)
        ensures
            r@ == self.label_spec(),
    {
        match self {
            GTRecipeStatus::Added => "Added".to_owned(),
            GTRecipeStatus::Removed => "Removed".to_owned(),
            GTRecipeStatus::OutputsChanged => "Outputs Changed".to_owned(),
            GTRecipeStatus::StatsChanged => "Stats Changed".to_owned(),
            GTRecipeStatus::Conflicting => "Conflicting".to_owned(),
            GTRecipeStatus::ConflictCreated => "Conflict Created".to_owned(),
            GTRecipeStatus::ConflictRemoved => "Conflict Removed".to_owned(),
            GTRecipeStatus::DuplicateRegistration => "Duplicate Registration".to_owned(),
            GTRecipeStatus::MissingInput => "Missing Input".to_owned(),
            GTRecipeStatus::MissingOutput => "Missing Output".to_owned(),
            GTRecipeStatus::MissingOutputCreated => "Missing Output Created".to_owned(),
        }
    }

    /// Reads the name of a kind; names are matched exactly.
    pub fn from_name(name: &str) -> (r: Option<GTRecipeStatus>)
        ensures
            r matches Some(s) ==> s.name_spec() == name@,
            r is None ==> forall|s: GTRecipeStatus| #[trigger] s.name_spec() != name@,
    {
        let mut index: u8 = 0;
        while index < STATUS_COUNT
            invariant
                index <= STATUS_COUNT,
                forall|s: GTRecipeStatus| s.rank() < index ==> #[trigger] s.name_spec() != name@,
            decreases STATUS_COUNT - index,
        {
            let status = GTRecipeStatus::from_index(index);
            match status {
                Some(s) => {
                    if same_text(s.name(), name) {
                        return Some(s);
                    }
                    assert forall|t: GTRecipeStatus| t.rank() < index + 1 implies (
                    #[trigger] t.name_spec()) != name@ by {
                        if t.rank() == index {
                            assert(t == s);
                        }
                    }
                },
                None => {},
            }
            index = index + 1;
        }
        None
    }
}

/// Kinds are ordered as the variants stand.
impl Ranked for GTRecipeStatus {
    open spec fn rel(a: GTRecipeStatus, b: GTRecipeStatus) -> Order {
        u8::rel(a.rank(), b.rank())
    }

    proof fn lemma_rel(a: GTRecipeStatus, b: GTRecipeStatus, c: GTRecipeStatus) {
    }

    fn compare(&self, other: &Self) -> (r: Order) {
        self.index().compare(&other.index())
    }
}

} // verus!
