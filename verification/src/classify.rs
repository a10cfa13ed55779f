//! The decision procedure that gives one input signature of one machine
//! its status.

use crate::order::{same, same_members};
use crate::recipe::{
    any_fluid_missing, any_item_missing, fluids_missing, items_missing, GTRecipe, RecipeModel,
};
use crate::stack::{FluidModel, FluidStack, ItemModel, ItemStack};
use crate::status::GTRecipeStatus;
use vstd::prelude::*;

verus! {

/// The canonical input signature of a recipe: its item inputs and its fluid
/// inputs, each sorted.
pub type RecipeKey = (Vec<ItemStack>, Vec<FluidStack>);

/// What a `RecipeKey` stands for.
pub type KeyModel = (Seq<ItemModel>, Seq<FluidModel>);

/// Whether some input of the signature is missing.
pub open spec fn key_missing(key: KeyModel) -> bool {
    any_item_missing(key.0) || any_fluid_missing(key.1)
}

/// Whether some recipe of `list` has a missing input or output.
pub open spec fn any_recipe_missing(list: Seq<RecipeModel>) -> bool {
    exists|i: int| 0 <= i < list.len() && (#[trigger] list[i]).has_missing()
}

/// Whether every recipe of `list` equals `first`.
pub open spec fn all_equal_to(list: Seq<RecipeModel>, first: RecipeModel) -> bool {
    forall|i: int| 0 <= i < list.len() ==> #[trigger] list[i] == first
}

/// Whether two recipes yield different outputs. The outputs are compared
/// as sets: neither the order of a list nor a repeated descriptor counts.
pub open spec fn outputs_differ(before: RecipeModel, after: RecipeModel) -> bool {
    ||| before.fluid_outputs.to_set() != after.fluid_outputs.to_set()
    ||| before.item_outputs.to_set() != after.item_outputs.to_set()
}

/// Whether two recipes differ in duration, energy per tick or the enabled
/// flag.
pub open spec fn stats_differ(before: RecipeModel, after: RecipeModel) -> bool {
    before.duration != after.duration || before.eut != after.eut || before.enabled
        != after.enabled
}

/// The status of a signature that both snapshots hold, where no input and
/// no recipe after the change is missing.
pub open spec fn compare_lists(before: Seq<RecipeModel>, after: Seq<RecipeModel>) -> Option<
    GTRecipeStatus,
> {
    let before_conflict = before.len() > 1;
    let after_conflict = after.len() > 1;
    if before_conflict && !after_conflict {
        Some(GTRecipeStatus::ConflictRemoved)
    } else if !before_conflict && after_conflict {
        Some(GTRecipeStatus::ConflictCreated)
    } else if before_conflict && after_conflict {
        if all_equal_to(before, before[0]) && all_equal_to(after, before[0]) {
            Some(GTRecipeStatus::DuplicateRegistration)
        } else {
            Some(GTRecipeStatus::Conflicting)
        }
    } else if outputs_differ(before[0], after[0]) {
        Some(GTRecipeStatus::OutputsChanged)
    } else if stats_differ(before[0], after[0]) {
        Some(GTRecipeStatus::StatsChanged)
    } else {
        None
    }
}

/// The status of the signature `key`, given the recipes registered under it
/// before and after; `None` on a side means that the side does not hold the
/// signature. The first rule that applies decides:
///
/// 1. a signature that neither side holds has no status;
/// 2. a missing input gives `MissingInput`;
/// 3. a recipe with a missing part after gives `MissingOutput` if some
///    recipe before had one too, else `MissingOutputCreated`;
/// 4. a signature only after gives `Added`, or `ConflictCreated` if it holds
///    several recipes;
/// 5. a signature only before gives `Removed`;
/// 6. a signature on both sides is judged by `compare_lists`, which may find
///    no change and give no status.
pub open spec fn classify_spec(
    key: KeyModel,
    before: Option<Seq<RecipeModel>>,
    after: Option<Seq<RecipeModel>>,
) -> Option<GTRecipeStatus> {
    if before is None && after is None {
        None
    } else if key_missing(key) {
        Some(GTRecipeStatus::MissingInput)
    } else if after is Some && any_recipe_missing(after->0) {
        if before is Some && any_recipe_missing(before->0) {
            Some(GTRecipeStatus::MissingOutput)
        } else {
            Some(GTRecipeStatus::MissingOutputCreated)
        }
    } else {
        match (before, after) {
            (None, None) => None,
            (Some(_), None) => Some(GTRecipeStatus::Removed),
            (None, Some(a)) => if a.len() > 1 {
                Some(GTRecipeStatus::ConflictCreated)
            } else {
                Some(GTRecipeStatus::Added)
            },
            (Some(b), Some(a)) => compare_lists(b, a),
        }
    }
}

/// Whether some recipe of `list` has a part that failed to resolve.
pub fn recipes_missing(list: &Vec<GTRecipe>) -> (r: bool)
    ensures
        r == any_recipe_missing(list.deep_view()),
{
    let mut i: usize = 0;
    while i < list.len()
        invariant
            i <= list.len(),
            forall|k: int| 0 <= k < i ==> !(#[trigger] list.deep_view()[k]).has_missing(),
        decreases list.len() - i,
    {
        if list[i].has_missing() {
            assert(list.deep_view()[i as int].has_missing());
            return true;
        }
        i = i + 1;
    }
    false
}

/// Whether every recipe of `list` equals `first`.
pub fn all_recipes_equal(list: &Vec<GTRecipe>, first: &GTRecipe) -> (r: bool)
    ensures
        r == all_equal_to(list.deep_view(), first@),
{
    let mut i: usize = 0;
    while i < list.len()
        invariant
            i <= list.len(),
            forall|k: int| 0 <= k < i ==> #[trigger] list.deep_view()[k] == first@,
        decreases list.len() - i,
    {
        if !same(&list[i], first) {
            assert(list.deep_view()[i as int] != first@);
            return false;
        }
        i = i + 1;
    }
    true
}

/// Decides the status of a signature that both snapshots hold, where no
/// input and no recipe after the change is missing.
pub fn compare_recipe_lists(before: &Vec<GTRecipe>, after: &Vec<GTRecipe>) -> (r: Option<
    GTRecipeStatus,
>)
    requires
        before.len() > 0,
        after.len() > 0,
    ensures
        r == compare_lists(before.deep_view(), after.deep_view()),
{
    let before_conflict = before.len() > 1;
    let after_conflict = after.len() > 1;
    if before_conflict && !after_conflict {
        return Some(GTRecipeStatus::ConflictRemoved);
    }
    if !before_conflict && after_conflict {
        return Some(GTRecipeStatus::ConflictCreated);
    }
    let first = &before[0];
    let other = &after[0];
    assert(before.deep_view()[0] == first@ && after.deep_view()[0] == other@);
    if before_conflict && after_conflict {
        if all_recipes_equal(before, first) && all_recipes_equal(after, first) {
            return Some(GTRecipeStatus::DuplicateRegistration);
        }
        return Some(GTRecipeStatus::Conflicting);
    }
    if !same_members(&first.fluid_outputs, &other.fluid_outputs) || !same_members(
        &first.item_outputs,
        &other.item_outputs,
    ) {
        return Some(GTRecipeStatus::OutputsChanged);
    }
    if first.duration != other.duration || first.eut != other.eut || first.enabled
        != other.enabled {
        return Some(GTRecipeStatus::StatsChanged);
    }
    None
}

/// Decides the status of the signature `key`, given the recipes registered
/// under it before and after. A side that holds the signature holds at
/// least one recipe under it.
pub fn classify(
    key: &RecipeKey,
    before: Option<&Vec<GTRecipe>>,
    after: Option<&Vec<GTRecipe>>,
) -> (r: Option<GTRecipeStatus>)
    requires
        before matches Some(list) ==> list.len() > 0,
        after matches Some(list) ==> list.len() > 0,
    ensures
        r == classify_spec(key.deep_view(), before.deep_view(), after.deep_view()),
{
    if before.is_none() && after.is_none() {
        return None;
    }
    if items_missing(&key.0) || fluids_missing(&key.1) {
        return Some(GTRecipeStatus::MissingInput);
    }
    let after_missing = match after {
        Some(list) => recipes_missing(list),
        None => false,
    };
    if after_missing {
        let before_missing = match before {
            Some(list) => recipes_missing(list),
            None => false,
        };
        if before_missing {
            return Some(GTRecipeStatus::MissingOutput);
        }
        return Some(GTRecipeStatus::MissingOutputCreated);
    }
    match (before, after) {
        (None, None) => None,
        (Some(_), None) => Some(GTRecipeStatus::Removed),
        (None, Some(list)) => if list.len() > 1 {
            Some(GTRecipeStatus::ConflictCreated)
        } else {
            Some(GTRecipeStatus::Added)
        },
        (Some(b), Some(a)) => compare_recipe_lists(b, a),
    }
}

} // verus!
