use recipe_diff::error::AnalysisError;
use recipe_diff::index::{recipe_key, RecipeLookup, RecipeMaps};
use recipe_diff::recipe::{GTRecipe, Machine};
use recipe_diff::snapshot::{RecipeSource, Root, ShapedRecipe};
use recipe_diff::stack::{FluidStack, ItemStack};

fn item(amount: i32, name: &str) -> ItemStack {
    ItemStack {
        amount,
        metadata: 0,
        unlocalized_name: Some(format!("item.{name}")),
        localized_name: Some(name.to_string()),
    }
}

fn fluid(amount: i32, name: &str) -> FluidStack {
    FluidStack {
        amount,
        unlocalized_name: Some(format!("fluid.{name}")),
        localized_name: Some(name.to_string()),
    }
}

fn recipe(duration: i32, inputs: Vec<ItemStack>, fluids: Vec<FluidStack>, outputs: Vec<ItemStack>) -> GTRecipe {
    GTRecipe {
        enabled: true,
        duration,
        eut: 16,
        item_inputs: inputs,
        fluid_inputs: fluids,
        item_outputs: outputs,
        fluid_outputs: vec![],
    }
}

fn machine(name: &str, recipes: Vec<GTRecipe>) -> Machine {
    Machine { name: name.to_string(), recipes }
}

fn machines_of(root: &Root, at: usize) -> &Vec<Machine> {
    match &root.sources[at] {
        RecipeSource::Gregtech { machines } => machines,
        _ => panic!("not a source of machine recipes"),
    }
}

#[test]
fn load_sorts_the_four_lists_of_every_recipe() {
    let r = GTRecipe {
        enabled: false,
        duration: 5,
        eut: 7,
        item_inputs: vec![item(2, "b"), item(1, "z"), item(2, "a")],
        fluid_inputs: vec![fluid(9, "x"), fluid(3, "y")],
        item_outputs: vec![item(5, "q"), item(4, "q")],
        fluid_outputs: vec![fluid(2, "b"), fluid(2, "a"), fluid(1, "c")],
    };
    let root = Root::load(vec![RecipeSource::Gregtech {
        machines: vec![machine("Mixer", vec![r, recipe(1, vec![], vec![], vec![])])],
    }]);
    assert_eq!(root.sources.len(), 1);
    let machines = machines_of(&root, 0);
    assert_eq!(machines.len(), 1);
    assert_eq!(machines[0].name, "Mixer");
    assert_eq!(
        machines[0].recipes,
        vec![
            GTRecipe {
                enabled: false,
                duration: 5,
                eut: 7,
                item_inputs: vec![item(1, "z"), item(2, "a"), item(2, "b")],
                fluid_inputs: vec![fluid(3, "y"), fluid(9, "x")],
                item_outputs: vec![item(4, "q"), item(5, "q")],
                fluid_outputs: vec![fluid(1, "c"), fluid(2, "a"), fluid(2, "b")],
            },
            recipe(1, vec![], vec![], vec![]),
        ]
    );
}

#[test]
fn load_keeps_the_order_of_machines_and_recipes() {
    let root = Root::load(vec![RecipeSource::Gregtech {
        machines: vec![
            machine("Z", vec![recipe(9, vec![item(1, "a")], vec![], vec![]), recipe(1, vec![], vec![], vec![])]),
            machine("A", vec![]),
        ],
    }]);
    let machines = machines_of(&root, 0);
    assert_eq!(machines[0].name, "Z");
    assert_eq!(machines[0].recipes[0].duration, 9);
    assert_eq!(machines[0].recipes[1].duration, 1);
    assert_eq!(machines[1].name, "A");
    assert!(machines[1].recipes.is_empty());
}

#[test]
fn load_leaves_other_sources_alone() {
    let shaped = ShapedRecipe {
        item_inputs: vec![Some(item(2, "b")), None, Some(item(1, "a"))],
        item_output: item(1, "out"),
    };
    let root = Root::load(vec![
        RecipeSource::Shaped { recipes: vec![shaped] },
        RecipeSource::Gregtech { machines: vec![] },
        RecipeSource::Shapeless { recipes: vec![] },
        RecipeSource::ShapedOredict { recipes: vec![] },
    ]);
    assert_eq!(root.sources.len(), 4);
    match &root.sources[0] {
        RecipeSource::Shaped { recipes } => {
            assert_eq!(recipes.len(), 1);
            assert_eq!(recipes[0].item_inputs, vec![Some(item(2, "b")), None, Some(item(1, "a"))]);
            assert_eq!(recipes[0].item_output, item(1, "out"));
        }
        _ => panic!("the first source changed its kind"),
    }
    assert!(matches!(root.sources[1], RecipeSource::Gregtech { .. }));
    assert!(matches!(root.sources[2], RecipeSource::Shapeless { .. }));
    assert!(matches!(root.sources[3], RecipeSource::ShapedOredict { .. }));
}

#[test]
fn load_of_nothing() {
    assert!(Root::load(vec![]).sources.is_empty());
}

#[test]
fn canonicalize_sorts_in_place() {
    let mut r = recipe(1, vec![item(2, "a"), item(1, "a")], vec![fluid(2, "a"), fluid(1, "a")], vec![item(3, "c"), item(3, "b")]);
    r.canonicalize();
    assert_eq!(r.item_inputs, vec![item(1, "a"), item(2, "a")]);
    assert_eq!(r.fluid_inputs, vec![fluid(1, "a"), fluid(2, "a")]);
    assert_eq!(r.item_outputs, vec![item(3, "b"), item(3, "c")]);
    let mut m = machine("M", vec![recipe(1, vec![item(2, "a"), item(1, "a")], vec![], vec![])]);
    m.canonicalize();
    assert_eq!(m.recipes[0].item_inputs, vec![item(1, "a"), item(2, "a")]);
}

#[test]
fn key_is_the_sorted_inputs() {
    let r = recipe(1, vec![item(2, "b"), item(1, "c"), item(2, "a")], vec![fluid(5, "w"), fluid(4, "w")], vec![item(9, "out")]);
    let key = recipe_key(&r);
    assert_eq!(key.0, vec![item(1, "c"), item(2, "a"), item(2, "b")]);
    assert_eq!(key.1, vec![fluid(4, "w"), fluid(5, "w")]);
    // the recipe itself is left as it was
    assert_eq!(r.item_inputs, vec![item(2, "b"), item(1, "c"), item(2, "a")]);
}

#[test]
fn key_does_not_depend_on_the_order_of_inputs() {
    let a = recipe(1, vec![item(1, "x"), item(2, "y"), item(3, "z")], vec![fluid(1, "f"), fluid(2, "g")], vec![]);
    let b = recipe(7, vec![item(3, "z"), item(1, "x"), item(2, "y")], vec![fluid(2, "g"), fluid(1, "f")], vec![item(1, "o")]);
    assert_eq!(recipe_key(&a), recipe_key(&b));
}

#[test]
fn index_groups_recipes_by_key_in_first_seen_order() {
    let r1 = recipe(1, vec![item(1, "ore")], vec![], vec![item(2, "dust")]);
    let r2 = recipe(2, vec![item(1, "gem")], vec![], vec![item(1, "dust")]);
    let r3 = recipe(3, vec![item(1, "ore")], vec![], vec![item(3, "dust")]);
    let r4 = recipe(4, vec![item(1, "gem"), item(1, "ore")], vec![], vec![]);
    let r5 = recipe(5, vec![item(1, "ore"), item(1, "gem")], vec![], vec![]);
    let index = RecipeLookup::build(&vec![r1.clone(), r2.clone(), r3.clone(), r4.clone(), r5.clone()]);
    assert_eq!(index.len(), 3);
    assert_eq!(index.key_at(0), &(vec![item(1, "ore")], vec![]));
    assert_eq!(index.recipes_at(0), &vec![r1.clone(), r3.clone()]);
    assert_eq!(index.key_at(1), &(vec![item(1, "gem")], vec![]));
    assert_eq!(index.recipes_at(1), &vec![r2.clone()]);
    assert_eq!(index.key_at(2), &(vec![item(1, "gem"), item(1, "ore")], vec![]));
    assert_eq!(index.recipes_at(2), &vec![r4, r5]);
    assert_eq!(index.get(&(vec![item(1, "ore")], vec![])), Some(&vec![r1, r3]));
    assert_eq!(index.get(&(vec![item(1, "gem")], vec![])), Some(&vec![r2]));
    assert_eq!(index.get(&(vec![item(2, "gem")], vec![])), None);
    assert_eq!(index.get(&(vec![], vec![])), None);
}

#[test]
fn index_tells_items_from_fluids() {
    let with_item = recipe(1, vec![item(1, "a")], vec![], vec![]);
    let with_fluid = recipe(2, vec![], vec![fluid(1, "a")], vec![]);
    let with_both = recipe(3, vec![item(1, "a")], vec![fluid(1, "a")], vec![]);
    let without = recipe(4, vec![], vec![], vec![]);
    let index = RecipeLookup::build(&vec![with_item, with_fluid, with_both, without.clone()]);
    assert_eq!(index.len(), 4);
    assert_eq!(index.get(&(vec![], vec![])), Some(&vec![without]));
}

#[test]
fn index_of_no_recipes_is_empty() {
    let index = RecipeLookup::build(&vec![]);
    assert_eq!(index.len(), 0);
    assert_eq!(index.get(&(vec![], vec![])), None);
    let index = RecipeLookup::new();
    assert_eq!(index.len(), 0);
    assert_eq!(index.get(&(vec![item(1, "ore")], vec![])), None);
}

#[test]
fn maps_hold_every_machine_once() {
    let r1 = recipe(1, vec![item(1, "ore")], vec![], vec![]);
    let r2 = recipe(2, vec![item(1, "gem")], vec![], vec![]);
    let maps = RecipeMaps::build(&vec![
        machine("Macerator", vec![r1.clone()]),
        machine("Furnace", vec![]),
        machine("Macerator", vec![r2.clone(), r2.clone()]),
    ]);
    assert_eq!(maps.len(), 2);
    assert_eq!(maps.name_at(0), "Macerator");
    assert_eq!(maps.name_at(1), "Furnace");
    // a later machine of the same name takes the place of the earlier one
    let macerator = maps.get(&"Macerator".to_string()).unwrap();
    assert_eq!(macerator.len(), 1);
    assert_eq!(macerator.recipes_at(0), &vec![r2.clone(), r2]);
    assert_eq!(maps.index_at(0).len(), 1);
    assert_eq!(maps.get(&"Furnace".to_string()).unwrap().len(), 0);
    assert!(maps.get(&"Lathe".to_string()).is_none());
    assert!(maps.get(&"macerator".to_string()).is_none());
}

#[test]
fn get_gt_recipes_takes_the_first_machine_source() {
    let r1 = recipe(1, vec![item(1, "ore")], vec![], vec![]);
    let root = Root {
        sources: vec![
            RecipeSource::Shaped { recipes: vec![] },
            RecipeSource::Gregtech { machines: vec![machine("First", vec![r1.clone()])] },
            RecipeSource::Gregtech { machines: vec![machine("Second", vec![])] },
        ],
    };
    let maps = root.get_gt_recipes().unwrap();
    assert_eq!(maps.len(), 1);
    assert_eq!(maps.name_at(0), "First");
    assert_eq!(maps.index_at(0).recipes_at(0), &vec![r1]);
}

#[test]
fn get_gt_recipes_refuses_a_snapshot_without_machines() {
    let none = Root { sources: vec![] };
    assert_eq!(none.get_gt_recipes().err(), Some(AnalysisError::MissingMachineSource));
    let others = Root {
        sources: vec![
            RecipeSource::Shaped { recipes: vec![] },
            RecipeSource::Shapeless { recipes: vec![] },
            RecipeSource::ShapedOredict { recipes: vec![] },
        ],
    };
    assert_eq!(others.get_gt_recipes().err(), Some(AnalysisError::MissingMachineSource));
}

#[test]
fn get_gt_recipes_accepts_a_source_without_machines() {
    let root = Root { sources: vec![RecipeSource::Gregtech { machines: vec![] }] };
    assert_eq!(root.get_gt_recipes().unwrap().len(), 0);
}

#[test]
fn index_of_unsorted_recipes_uses_sorted_keys() {
    // recipes that were not brought into canonical form share a key all the same
    let a = recipe(1, vec![item(2, "b"), item(1, "a")], vec![], vec![]);
    let b = recipe(2, vec![item(1, "a"), item(2, "b")], vec![], vec![]);
    let index = RecipeLookup::build(&vec![a.clone(), b.clone()]);
    assert_eq!(index.len(), 1);
    assert_eq!(index.key_at(0), &(vec![item(1, "a"), item(2, "b")], vec![]));
    assert_eq!(index.recipes_at(0), &vec![a, b]);
}

#[test]
fn error_messages() {
    assert_eq!(
        AnalysisError::ConflictingFilters.message(),
        "cannot use --blacklist and --whitelist at the same time"
    );
    assert_eq!(AnalysisError::MissingMachineSource.message(), "the snapshot holds no machine recipes");
}

fn pseudo_random(seed: &mut u64) -> u64 {
    *seed = seed.wrapping_mul(6364136223846793005).wrapping_add(1442695040888963407);
    *seed >> 33
}

#[test]
fn index_of_many_recipes_agrees_with_plain_grouping() {
    let mut seed = 7u64;
    let mut recipes = Vec::new();
    for n in 0..600 {
        let kinds = 1 + pseudo_random(&mut seed) % 3;
        let mut inputs = Vec::new();
        for _ in 0..kinds {
            let amount = (pseudo_random(&mut seed) % 4) as i32;
            let name = ["ore", "gem", "dust"][(pseudo_random(&mut seed) % 3) as usize];
            inputs.push(item(amount, name));
        }
        let fluids = if pseudo_random(&mut seed) % 2 == 0 { vec![fluid(1, "water")] } else { vec![] };
        recipes.push(recipe(n, inputs, fluids, vec![]));
    }
    // group in the plain way: look through the keys seen so far
    let mut expected: Vec<((Vec<ItemStack>, Vec<FluidStack>), Vec<GTRecipe>)> = Vec::new();
    for r in &recipes {
        let mut items = r.item_inputs.clone();
        items.sort_by(|a, b| {
            (a.amount, a.metadata, &a.unlocalized_name, &a.localized_name).cmp(&(
                b.amount,
                b.metadata,
                &b.unlocalized_name,
                &b.localized_name,
            ))
        });
        let key = (items, r.fluid_inputs.clone());
        match expected.iter_mut().find(|e| e.0 == key) {
            Some(entry) => entry.1.push(r.clone()),
            None => expected.push((key, vec![r.clone()])),
        }
    }
    let index = RecipeLookup::build(&recipes);
    assert!(expected.len() > 20);
    assert_eq!(index.len(), expected.len());
    for (place, (key, list)) in expected.iter().enumerate() {
        assert_eq!(index.key_at(place), key);
        assert_eq!(index.recipes_at(place), list);
        assert_eq!(index.get(key), Some(list));
    }
    assert_eq!(index.get(&(vec![item(99, "ore")], vec![])), None);
    assert_eq!(index.get(&(vec![], vec![])), None);
    assert_eq!(index.get(&(vec![item(0, "dust")], vec![fluid(2, "water")])), None);
}
