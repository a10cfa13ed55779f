//! Snapshots of a recipe database, and their canonical form.

use crate::order::{leq, sort_vec};
use crate::recipe::{GTRecipe, Machine, MachineModel, RecipeModel};
use crate::stack::{FluidStack, ItemStack};
use std::collections::HashSet;
use vstd::prelude::*;

verus! {

/// A crafting recipe on a grid. It is carried along and not analysed.
#[derive(Debug)]
pub struct ShapedRecipe {
    pub item_inputs: Vec<Option<ItemStack>>,
    pub item_output: ItemStack,
}

/// A crafting recipe without a grid. It is carried along and not analysed.
#[derive(Debug)]
pub struct ShapelessRecipe {
    pub item_inputs: HashSet<ItemStack>,
    pub item_output: ItemStack,
}

/// A class of interchangeable items.
#[derive(Debug)]
pub struct OredictStack {
    pub oredict_names: HashSet<String>,
    pub candidates: HashSet<ItemStack>,
}

/// One slot of a grid recipe that accepts a class of items.
#[derive(Debug)]
pub struct OredictInput {
    pub oredict: Option<OredictStack>,
    pub stack: Option<ItemStack>,
}

/// A crafting recipe on a grid whose slots accept classes of items. It is
/// carried along and not analysed.
#[derive(Debug)]
pub struct ShapedOredictRecipe {
    pub item_inputs: Vec<Option<OredictInput>>,
    pub item_output: ItemStack,
}

/// One source of recipes in a snapshot.
#[allow(inconsistent_fields)]
#[derive(Debug)]
pub enum RecipeSource {
    /// The recipes of machines; the only source that is analysed.
    Gregtech { machines: Vec<Machine> },
    Shaped { recipes: Vec<ShapedRecipe> },
    Shapeless { recipes: Vec<ShapelessRecipe> },
    ShapedOredict { recipes: Vec<ShapedOredictRecipe> },
}

impl RecipeSource {
    /// The machines of a source of machine recipes.
    pub open spec fn machines(self) -> Option<Seq<MachineModel>> {
        match self {
            RecipeSource::Gregtech { machines } => Some(machines.deep_view()),
            _ => None,
        }
    }
}

/// A full dump of recipe data at one point in time.
#[derive(Debug)]
pub struct Root {
    pub sources: Vec<RecipeSource>,
}

/// The recipe with each of its four lists sorted.
pub open spec fn canonical_recipe(r: RecipeModel) -> RecipeModel {
    RecipeModel {
        enabled: r.enabled,
        duration: r.duration,
        eut: r.eut,
        item_inputs: r.item_inputs.sort_by(leq::<ItemStack>()),
        fluid_inputs: r.fluid_inputs.sort_by(leq::<FluidStack>()),
        item_outputs: r.item_outputs.sort_by(leq::<ItemStack>()),
        fluid_outputs: r.fluid_outputs.sort_by(leq::<FluidStack>()),
    }
}

/// The machine with each of its recipes in canonical form.
pub open spec fn canonical_machine(m: MachineModel) -> MachineModel {
    MachineModel {
        name: m.name,
        recipes: m.recipes.map_values(|r: RecipeModel| canonical_recipe(r)),
    }
}

/// Whether `after` is the canonical form of the source `before`: a source of
/// machine recipes with every machine canonical, any other source as it was.
pub open spec fn is_canonical_of(after: RecipeSource, before: RecipeSource) -> bool {
    match before {
        RecipeSource::Gregtech { machines } => after.machines() == Some(
            machines.deep_view().map_values(|m: MachineModel| canonical_machine(m)),
        ),
        _ => after == before,
    }
}

/// The machines of the first source of machine recipes among `sources`.
pub open spec fn machine_source(sources: Seq<RecipeSource>) -> Option<Seq<MachineModel>>
    decreases sources.len(),
{
    if sources.len() == 0 {
        None
    } else if sources[0] is Gregtech {
        sources[0].machines()
    } else {
        machine_source(sources.drop_first())
    }
}

impl GTRecipe {
    /// Sorts the inputs and outputs of the recipe.
    pub fn canonicalize(&mut self)
        ensures
            final(self)@ == canonical_recipe(old(self)@),
    {
        sort_vec(&mut self.item_inputs);
        sort_vec(&mut self.fluid_inputs);
        sort_vec(&mut self.item_outputs);
        sort_vec(&mut self.fluid_outputs);
    }
}

impl Machine {
    /// Brings every recipe of the machine into canonical form.
    pub fn canonicalize(&mut self)
        ensures
            final(self)@ == canonical_machine(old(self)@),
    {
        let ghost start = self.recipes.deep_view();
        let mut i: usize = 0;
        while i < self.recipes.len()
            invariant
                i <= self.recipes.len(),
                self.name == old(self).name,
                self.recipes.len() == start.len(),
                forall|k: int|
                    0 <= k < i ==> #[trigger] self.recipes.deep_view()[k] == canonical_recipe(
                        start[k],
                    ),
                forall|k: int|
                    i <= k < start.len() ==> #[trigger] self.recipes.deep_view()[k] == start[k],
            decreases self.recipes.len() - i,
        {
            let ghost held = self.recipes.deep_view();
            self.recipes[i].canonicalize();
            assert(self.recipes.deep_view() =~= held.update(
                i as int,
                canonical_recipe(held[i as int]),
            ));
            i = i + 1;
        }
        assert(self.recipes.deep_view() =~= start.map_values(|r: RecipeModel| canonical_recipe(r)));
    }
}

impl Root {
    /// Builds a snapshot from decoded sources, bringing each source of
    /// machine recipes into canonical form. The other sources are kept as
    /// they are.
    pub fn load(sources: Vec<RecipeSource>) -> (root: Root)
        ensures
            root.sources.len() == sources.len(),
            forall|i: int|
                0 <= i < sources.len() ==> is_canonical_of(#[trigger] root.sources[i], sources[i]),
    {
        let mut root = Root { sources };
        let mut i: usize = 0;
        while i < root.sources.len()
            invariant
                i <= root.sources.len(),
                root.sources.len() == sources.len(),
                forall|k: int|
                    0 <= k < i ==> is_canonical_of(#[trigger] root.sources[k], sources[k]),
                forall|k: int| i <= k < sources.len() ==> #[trigger] root.sources[k] == sources[k],
            decreases root.sources.len() - i,
        {
            match &mut root.sources[i] {
                RecipeSource::Gregtech { machines } => {
                    let ghost start = machines.deep_view();
                    let mut j: usize = 0;
                    while j < machines.len()
                        invariant
                            j <= machines.len(),
                            machines.len() == start.len(),
                            forall|k: int|
                                0 <= k < j ==> #[trigger] machines.deep_view()[k]
                                    == canonical_machine(start[k]),
                            forall|k: int|
                                j <= k < start.len() ==> #[trigger] machines.deep_view()[k]
                                    == start[k],
                        decreases machines.len() - j,
                    {
                        let ghost held = machines.deep_view();
                        machines[j].canonicalize();
                        assert(machines.deep_view() =~= held.update(
                            j as int,
                            canonical_machine(held[j as int]),
                        ));
                        j = j + 1;
                    }
                    assert(machines.deep_view() =~= start.map_values(
                        |m: MachineModel| canonical_machine(m),
                    ));
                },
                _ => {},
            }
            i = i + 1;
        }
        root
    }
}

} // verus!
