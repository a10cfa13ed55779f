//! Recipes and the machines that run them.

use crate::order::{Order, Ranked};
use crate::stack::{FluidModel, FluidStack, ItemModel, ItemStack};
use vstd::prelude::*;

verus! {

/// Whether some item of `items` is missing.
pub open spec fn any_item_missing(items: Seq<ItemModel>) -> bool {
    exists|i: int| 0 <= i < items.len() && (#[trigger] items[i]).is_missing()
}

/// Whether some fluid of `fluids` is missing.
pub open spec fn any_fluid_missing(fluids: Seq<FluidModel>) -> bool {
    exists|i: int| 0 <= i < fluids.len() && (#[trigger] fluids[i]).is_missing()
}

/// Whether some item of `items` failed to resolve.
pub fn items_missing(items: &Vec<ItemStack>) -> (r: bool)
    ensures
        r == any_item_missing(items.deep_view()),
{
    let mut i: usize = 0;
    while i < items.len()
        invariant
            i <= items.len(),
            forall|k: int| 0 <= k < i ==> !(#[trigger] items.deep_view()[k]).is_missing(),
        decreases items.len() - i,
    {
        if items[i].is_missing() {
            assert(items.deep_view()[i as int].is_missing());
            return true;
        }
        i = i + 1;
    }
    false
}

/// Whether some fluid of `fluids` failed to resolve.
pub fn fluids_missing(fluids: &Vec<FluidStack>) -> (r: bool)
    ensures
        r == any_fluid_missing(fluids.deep_view()),
{
    let mut i: usize = 0;
    while i < fluids.len()
        invariant
            i <= fluids.len(),
            forall|k: int| 0 <= k < i ==> !(#[trigger] fluids.deep_view()[k]).is_missing(),
        decreases fluids.len() - i,
    {
        if fluids[i].is_missing() {
            assert(fluids.deep_view()[i as int].is_missing());
            return true;
        }
        i = i + 1;
    }
    false
}

/// A production rule of a machine.
#[derive(Debug, PartialEq, Eq)]
pub struct GTRecipe {
    pub enabled: bool,
    /// The time the recipe takes, in ticks.
    pub duration: i32,
    /// The energy the recipe draws per tick.
    pub eut: i32,
    pub item_inputs: Vec<ItemStack>,
    pub fluid_inputs: Vec<FluidStack>,
    pub item_outputs: Vec<ItemStack>,
    pub fluid_outputs: Vec<FluidStack>,
}

/// What a `GTRecipe` stands for.
pub struct RecipeModel {
    pub enabled: bool,
    pub duration: i32,
    pub eut: i32,
    pub item_inputs: Seq<ItemModel>,
    pub fluid_inputs: Seq<FluidModel>,
    pub item_outputs: Seq<ItemModel>,
    pub fluid_outputs: Seq<FluidModel>,
}

impl DeepView for GTRecipe {
    type V = RecipeModel;

    open spec fn deep_view(&self) -> RecipeModel {
        RecipeModel {
            enabled: self.enabled,
            duration: self.duration,
            eut: self.eut,
            item_inputs: self.item_inputs.deep_view(),
            fluid_inputs: self.fluid_inputs.deep_view(),
            item_outputs: self.item_outputs.deep_view(),
            fluid_outputs: self.fluid_outputs.deep_view(),
        }
    }
}

impl View for GTRecipe {
    type V = RecipeModel;

    open spec fn view(&self) -> RecipeModel {
        self.deep_view()
    }
}

impl RecipeModel {
    /// Whether any input or output of the recipe is missing.
    pub open spec fn has_missing(self) -> bool {
        ||| any_item_missing(self.item_inputs)
        ||| any_fluid_missing(self.fluid_inputs)
        ||| any_item_missing(self.item_outputs)
        ||| any_fluid_missing(self.fluid_outputs)
    }
}

impl Clone for GTRecipe {
    fn clone(&self) -> (r: Self)
        ensures
            r@ == self@,
    {
        let r = GTRecipe {
            enabled: self.enabled,
            duration: self.duration,
            eut: self.eut,
            item_inputs: self.item_inputs.clone(),
            fluid_inputs: self.fluid_inputs.clone(),
            item_outputs: self.item_outputs.clone(),
            fluid_outputs: self.fluid_outputs.clone(),
        };
        proof {
            assert(r.item_inputs.deep_view() =~= self.item_inputs.deep_view());
            assert(r.fluid_inputs.deep_view() =~= self.fluid_inputs.deep_view());
            assert(r.item_outputs.deep_view() =~= self.item_outputs.deep_view());
            assert(r.fluid_outputs.deep_view() =~= self.fluid_outputs.deep_view());
        }
        r
    }
}

impl GTRecipe {
    /// Whether any input or output of the recipe failed to resolve.
    pub fn has_missing(&self) -> (r: bool)
        ensures
            r == self@.has_missing(),
    {
        items_missing(&self.item_inputs) || fluids_missing(&self.fluid_inputs) || items_missing(
            &self.item_outputs,
        ) || fluids_missing(&self.fluid_outputs)
    }
}

/// Recipes are ordered by the enabled flag (disabled first), then duration,
/// then energy per tick, then item inputs, fluid inputs, item outputs and
/// fluid outputs, each list lexicographically.
impl Ranked for GTRecipe {
    open spec fn rel(a: RecipeModel, b: RecipeModel) -> Order {
        bool::rel(a.enabled, b.enabled).tie_break(i32::rel(a.duration, b.duration)).tie_break(
            i32::rel(a.eut, b.eut),
        ).tie_break(Vec::<ItemStack>::rel(a.item_inputs, b.item_inputs)).tie_break(
            Vec::<FluidStack>::rel(a.fluid_inputs, b.fluid_inputs),
        ).tie_break(Vec::<ItemStack>::rel(a.item_outputs, b.item_outputs)).tie_break(
            Vec::<FluidStack>::rel(a.fluid_outputs, b.fluid_outputs),
        )
    }

    proof fn lemma_rel(a: RecipeModel, b: RecipeModel, c: RecipeModel) {
        Vec::<ItemStack>::lemma_rel(a.item_inputs, b.item_inputs, c.item_inputs);
        Vec::<ItemStack>::lemma_rel(b.item_inputs, c.item_inputs, a.item_inputs);
        Vec::<ItemStack>::lemma_rel(a.item_inputs, c.item_inputs, a.item_inputs);
        Vec::<FluidStack>::lemma_rel(a.fluid_inputs, b.fluid_inputs, c.fluid_inputs);
        Vec::<FluidStack>::lemma_rel(b.fluid_inputs, c.fluid_inputs, a.fluid_inputs);
        Vec::<FluidStack>::lemma_rel(a.fluid_inputs, c.fluid_inputs, a.fluid_inputs);
        Vec::<ItemStack>::lemma_rel(a.item_outputs, b.item_outputs, c.item_outputs);
        Vec::<ItemStack>::lemma_rel(b.item_outputs, c.item_outputs, a.item_outputs);
        Vec::<ItemStack>::lemma_rel(a.item_outputs, c.item_outputs, a.item_outputs);
        Vec::<FluidStack>::lemma_rel(a.fluid_outputs, b.fluid_outputs, c.fluid_outputs);
        Vec::<FluidStack>::lemma_rel(b.fluid_outputs, c.fluid_outputs, a.fluid_outputs);
        Vec::<FluidStack>::lemma_rel(a.fluid_outputs, c.fluid_outputs, a.fluid_outputs);
    }

    fn compare(&self, other: &Self) -> (r: Order) {
        let by_enabled = self.enabled.compare(&other.enabled);
        if !matches!(by_enabled, Order::Equal) {
            return by_enabled;
        }
        let by_duration = self.duration.compare(&other.duration);
        if !matches!(by_duration, Order::Equal) {
            return by_duration;
        }
        let by_eut = self.eut.compare(&other.eut);
        if !matches!(by_eut, Order::Equal) {
            return by_eut;
        }
        let by_item_inputs = self.item_inputs.compare(&other.item_inputs);
        if !matches!(by_item_inputs, Order::Equal) {
            return by_item_inputs;
        }
        let by_fluid_inputs = self.fluid_inputs.compare(&other.fluid_inputs);
        if !matches!(by_fluid_inputs, Order::Equal) {
            return by_fluid_inputs;
        }
        let by_item_outputs = self.item_outputs.compare(&other.item_outputs);
        if !matches!(by_item_outputs, Order::Equal) {
            return by_item_outputs;
        }
        self.fluid_outputs.compare(&other.fluid_outputs)
    }
}

/// A named producer with the recipes registered for it.
#[derive(Debug, PartialEq, Eq)]
pub struct Machine {
    pub name: String,
    pub recipes: Vec<GTRecipe>,
}

/// What a `Machine` stands for.
pub struct MachineModel {
    pub name: Seq<char>,
    pub recipes: Seq<RecipeModel>,
}

impl DeepView for Machine {
    type V = MachineModel;

    open spec fn deep_view(&self) -> MachineModel {
        MachineModel { name: self.name@, recipes: self.recipes.deep_view() }
    }
}

impl View for Machine {
    type V = MachineModel;

    open spec fn view(&self) -> MachineModel {
        self.deep_view()
    }
}

} // verus!
