//! The record that a report keeps of one input signature: the recipes
//! registered under it before and after.

use crate::order::{leq, same, sort_vec, Order, Ranked};
use crate::recipe::{GTRecipe, RecipeModel};
use vstd::prelude::*;

verus! {

/// The recipes under one input signature before and after a change, each
/// side sorted.
#[derive(Debug, PartialEq, Eq)]
pub enum RecipeBeforeAfter {
    /// The two sides differ.
    Diff { before: Vec<GTRecipe>, after: Vec<GTRecipe> },
    /// The two sides hold the same recipes.
    Same { recipes: Vec<GTRecipe> },
}

/// What a `RecipeBeforeAfter` stands for.
pub enum RecordModel {
    Diff { before: Seq<RecipeModel>, after: Seq<RecipeModel> },
    Same { recipes: Seq<RecipeModel> },
}

impl DeepView for RecipeBeforeAfter {
    type V = RecordModel;

    open spec fn deep_view(&self) -> RecordModel {
        match self {
            RecipeBeforeAfter::Diff { before, after } => RecordModel::Diff {
                before: before.deep_view(),
                after: after.deep_view(),
            },
            RecipeBeforeAfter::Same { recipes } => RecordModel::Same {
                recipes: recipes.deep_view(),
            },
        }
    }
}

impl View for RecipeBeforeAfter {
    type V = RecordModel;

    open spec fn view(&self) -> RecordModel {
        self.deep_view()
    }
}

/// The recipes of one side in sorted order; a side that does not hold the
/// signature counts as empty.
pub open spec fn sorted_side(side: Option<Seq<RecipeModel>>) -> Seq<RecipeModel> {
    match side {
        Some(list) => list.sort_by(leq::<GTRecipe>()),
        None => Seq::empty(),
    }
}

/// The record of a signature with the recipes `before` and `after`: `Same`
/// where the sorted sides are equal, `Diff` where they are not.
pub open spec fn record_of(
    before: Option<Seq<RecipeModel>>,
    after: Option<Seq<RecipeModel>>,
) -> RecordModel {
    if sorted_side(before) == sorted_side(after) {
        RecordModel::Same { recipes: sorted_side(before) }
    } else {
        RecordModel::Diff { before: sorted_side(before), after: sorted_side(after) }
    }
}

/// Copies the recipes of one side and sorts them.
fn copy_sorted(side: Option<&Vec<GTRecipe>>) -> (list: Vec<GTRecipe>)
    ensures
        list.deep_view() == sorted_side(side.deep_view()),
{
    match side {
        Some(recipes) => {
            let mut list = recipes.clone();
            assert(list.deep_view() =~= recipes.deep_view());
            sort_vec(&mut list);
            list
        },
        None => {
            let list: Vec<GTRecipe> = Vec::new();
            assert(list.deep_view() =~= Seq::empty());
            list
        },
    }
}

impl RecipeBeforeAfter {
    /// Records the recipes under one signature before and after.
    pub fn new(before: Option<&Vec<GTRecipe>>, after: Option<&Vec<GTRecipe>>) -> (record: Self)
        ensures
            record@ == record_of(before.deep_view(), after.deep_view()),
    {
        let before = copy_sorted(before);
        let after = copy_sorted(after);
        if same(&before, &after) {
            RecipeBeforeAfter::Same { recipes: before }
        } else {
            RecipeBeforeAfter::Diff { before, after }
        }
    }
}

/// Records are ordered with every `Diff` before every `Same`; two `Diff`
/// by their sides before, then after; two `Same` by their recipes.
impl Ranked for RecipeBeforeAfter {
    open spec fn rel(a: RecordModel, b: RecordModel) -> Order {
        match (a, b) {
            (
                RecordModel::Diff { before: b1, after: a1 },
                RecordModel::Diff { before: b2, after: a2 },
            ) => Vec::<GTRecipe>::rel(b1, b2).tie_break(Vec::<GTRecipe>::rel(a1, a2)),
            (RecordModel::Diff { .. }, RecordModel::Same { .. }) => Order::Less,
            (RecordModel::Same { .. }, RecordModel::Diff { .. }) => Order::Greater,
            (RecordModel::Same { recipes: r1 }, RecordModel::Same { recipes: r2 }) => Vec::<
                GTRecipe,
            >::rel(r1, r2),
        }
    }

    proof fn lemma_rel(a: RecordModel, b: RecordModel, c: RecordModel) {
        match (a, b, c) {
            (
                RecordModel::Diff { before: b1, after: a1 },
                RecordModel::Diff { before: b2, after: a2 },
                RecordModel::Diff { before: b3, after: a3 },
            ) => {
                Vec::<GTRecipe>::lemma_rel(b1, b2, b3);
                Vec::<GTRecipe>::lemma_rel(b2, b3, b1);
                Vec::<GTRecipe>::lemma_rel(b1, b3, b1);
                Vec::<GTRecipe>::lemma_rel(a1, a2, a3);
                Vec::<GTRecipe>::lemma_rel(a2, a3, a1);
                Vec::<GTRecipe>::lemma_rel(a1, a3, a1);
            },
            (
                RecordModel::Diff { before: b1, after: a1 },
                RecordModel::Diff { before: b2, after: a2 },
                _,
            ) => {
                Vec::<GTRecipe>::lemma_rel(b1, b2, b1);
                Vec::<GTRecipe>::lemma_rel(a1, a2, a1);
            },
            (
                RecordModel::Same { recipes: r1 },
                RecordModel::Same { recipes: r2 },
                RecordModel::Same { recipes: r3 },
            ) => {
                Vec::<GTRecipe>::lemma_rel(r1, r2, r3);
            },
            (RecordModel::Same { recipes: r1 }, RecordModel::Same { recipes: r2 }, _) => {
                Vec::<GTRecipe>::lemma_rel(r1, r2, r1);
            },
            _ => {},
        }
    }

    fn compare(&self, other: &Self) -> (r: Order) {
        match (self, other) {
            (
                RecipeBeforeAfter::Diff { before: b1, after: a1 },
                RecipeBeforeAfter::Diff { before: b2, after: a2 },
            ) => {
                let first = b1.compare(b2);
                if !matches!(first, Order::Equal) {
                    return first;
                }
                a1.compare(a2)
            },
            (RecipeBeforeAfter::Diff { .. }, RecipeBeforeAfter::Same { .. }) => Order::Less,
            (RecipeBeforeAfter::Same { .. }, RecipeBeforeAfter::Diff { .. }) => Order::Greater,
            (RecipeBeforeAfter::Same { recipes: r1 }, RecipeBeforeAfter::Same { recipes: r2 }) => {
                r1.compare(r2)
            },
        }
    }
}

} // verus!
