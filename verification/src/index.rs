//! The index of a snapshot: for each machine, its recipes grouped by their
//! canonical input signature.

use crate::assoc::{
    find, first_seen, keys_of, lemma_first_seen, lemma_position, lemma_position_at, lookup,
    position,
};
use crate::classify::{KeyModel, RecipeKey};
use crate::error::AnalysisError;
use crate::order::{leq, sort_vec, Order, Ranked};
use crate::recipe::{GTRecipe, Machine, MachineModel, RecipeModel};
use crate::snapshot::{machine_source, RecipeSource, Root};
use crate::stack::{FluidStack, ItemStack};
use vstd::prelude::*;

verus! {

/// What a `RecipeLookup` stands for: the signatures of a machine in the
/// order in which they first occur, each with the recipes under it.
pub type IndexModel = Seq<(KeyModel, Seq<RecipeModel>)>;

/// What a `RecipeMaps` stands for: the names of the machines in the order in
/// which they first occur, each with the index of the machine.
pub type MapsModel = Seq<(Seq<char>, IndexModel)>;

/// The input signature of a recipe: its item inputs and its fluid inputs,
/// each sorted.
pub open spec fn key_of(r: RecipeModel) -> KeyModel {
    (r.item_inputs.sort_by(leq::<ItemStack>()), r.fluid_inputs.sort_by(leq::<FluidStack>()))
}

/// The test "has the signature `key`".
pub open spec fn under(key: KeyModel) -> spec_fn(RecipeModel) -> bool {
    |r: RecipeModel| key_of(r) == key
}

/// The signatures of `recipes`, in order.
pub open spec fn signatures(recipes: Seq<RecipeModel>) -> Seq<KeyModel> {
    recipes.map_values(|r: RecipeModel| key_of(r))
}

/// The index of a machine's recipes: every signature that occurs, in the
/// order of first occurrence, with the recipes that have it, in their order.
pub open spec fn index_of(recipes: Seq<RecipeModel>) -> IndexModel {
    first_seen(signatures(recipes)).map_values(|k: KeyModel| (k, recipes.filter(under(k))))
}

/// Indexing one more recipe appends it to the entry of its signature, or
/// appends a new entry where the signature is new.
pub proof fn lemma_index_push(s: Seq<RecipeModel>, r: RecipeModel)
    ensures
        index_of(s.push(r)) == match position(index_of(s), key_of(r)) {
            Some(p) => index_of(s).update(p, (key_of(r), index_of(s)[p].1.push(r))),
            None => index_of(s).push((key_of(r), seq![r])),
        },
{
    let k = key_of(r);
    let keys = signatures(s);
    let seen = first_seen(keys);
    let idx = index_of(s);
    let grown = index_of(s.push(r));
    assert(signatures(s.push(r)) =~= keys.push(k));
    assert(keys.push(k).drop_last() =~= keys);
    lemma_first_seen(keys);
    lemma_position(idx, k);
    assert forall|k2: KeyModel| #[trigger]
        s.push(r).filter(under(k2)) == if k2 == k {
            s.filter(under(k2)).push(r)
        } else {
            s.filter(under(k2))
        } by {
        s.lemma_filter_push(r, under(k2));
    }
    match position(idx, k) {
        Some(p) => {
            assert(seen[p] == k);
            assert(seen.contains(k));
            assert(grown =~= idx.update(p, (k, idx[p].1.push(r))));
        },
        None => {
            if seen.contains(k) {
                let j = choose|j: int| 0 <= j < seen.len() && seen[j] == k;
                assert(idx[j].0 == k);
            }
            assert(s.filter(under(k)).len() == 0) by {
                assert forall|i: int| 0 <= i < s.len() implies !under(k)(#[trigger] s[i]) by {
                    if key_of(s[i]) == k {
                        assert(keys[i] == k);
                        assert(keys.contains(k));
                    }
                }
                s.lemma_all_neg_filter_empty(under(k));
            }
            assert(s.filter(under(k)).push(r) =~= seq![r]);
            assert(grown =~= idx.push((k, seq![r])));
        },
    }
}

/// Computes the input signature of a recipe.
pub fn recipe_key(recipe: &GTRecipe) -> (key: RecipeKey)
    ensures
        key.deep_view() == key_of(recipe@),
{
    let mut items = recipe.item_inputs.clone();
    let mut fluids = recipe.fluid_inputs.clone();
    assert(items.deep_view() =~= recipe.item_inputs.deep_view());
    assert(fluids.deep_view() =~= recipe.fluid_inputs.deep_view());
    sort_vec(&mut items);
    sort_vec(&mut fluids);
    (items, fluids)
}

/// How the signature `a` stands to the signature `b`.
pub open spec fn key_rel(a: KeyModel, b: KeyModel) -> Order {
    <RecipeKey as Ranked>::rel(a, b)
}

/// Whether `by_key` names the place `place` of an index.
pub open spec fn has_place(by_key: Seq<usize>, place: int) -> bool {
    exists|j: int| 0 <= j < by_key.len() && #[trigger] by_key[j] == place
}

/// Whether `by_key` names every place of `entries` once, in the order of
/// the signatures at those places.
pub open spec fn lists_by_key(entries: IndexModel, by_key: Seq<usize>) -> bool {
    &&& by_key.len() == entries.len()
    &&& forall|j: int| 0 <= j < by_key.len() ==> (#[trigger] by_key[j]) < entries.len()
    &&& forall|i: int, j: int|
        #![trigger by_key[i], by_key[j]]
        0 <= i < j < by_key.len() ==> key_rel(
            entries[by_key[i] as int].0,
            entries[by_key[j] as int].0,
        ) is Less
    &&& forall|place: int| 0 <= place < entries.len() ==> #[trigger] has_place(by_key, place)
}

/// Searches the places that `by_key` names for one that holds `key`, by
/// halving. Where there is none, tells before which of them `key` belongs.
fn search(entries: &Vec<(RecipeKey, Vec<GTRecipe>)>, by_key: &Vec<usize>, key: &RecipeKey) -> (r:
    Result<usize, usize>)
    requires
        lists_by_key(entries.deep_view(), by_key@),
    ensures
        match r {
            Ok(j) => j < by_key.len() && entries.deep_view()[by_key[j as int] as int].0
                == key.deep_view(),
            Err(j) => {
                &&& j <= by_key.len()
                &&& forall|i: int|
                    0 <= i < j ==> key_rel(
                        entries.deep_view()[(#[trigger] by_key[i]) as int].0,
                        key.deep_view(),
                    ) is Less
                &&& forall|i: int|
                    j <= i < by_key.len() ==> key_rel(
                        key.deep_view(),
                        entries.deep_view()[(#[trigger] by_key[i]) as int].0,
                    ) is Less
            },
        },
{
    let ghost models = entries.deep_view();
    let ghost wanted = key.deep_view();
    let mut low: usize = 0;
    let mut high: usize = by_key.len();
    while low < high
        invariant
            low <= high <= by_key.len(),
            models == entries.deep_view(),
            wanted == key.deep_view(),
            lists_by_key(models, by_key@),
            forall|i: int|
                0 <= i < low ==> key_rel(models[(#[trigger] by_key[i]) as int].0, wanted) is Less,
            forall|i: int|
                high <= i < by_key.len() ==> key_rel(
                    wanted,
                    models[(#[trigger] by_key[i]) as int].0,
                ) is Less,
        decreases high - low,
    {
        let middle = low + (high - low) / 2;
        let ghost found = models[by_key[middle as int] as int].0;
        match entries[by_key[middle]].0.compare(key) {
            Order::Less => {
                proof {
                    assert forall|i: int| 0 <= i < middle + 1 implies key_rel(
                        models[(#[trigger] by_key[i]) as int].0,
                        wanted,
                    ) is Less by {
                        if i < middle {
                            assert(key_rel(models[by_key[i] as int].0, found) is Less);
                            <RecipeKey as Ranked>::lemma_rel(
                                models[by_key[i] as int].0,
                                found,
                                wanted,
                            );
                        }
                    }
                }
                low = middle + 1;
            },
            Order::Equal => {
                proof {
                    <RecipeKey as Ranked>::lemma_rel(found, wanted, found);
                }
                return Ok(middle);
            },
            Order::Greater => {
                proof {
                    <RecipeKey as Ranked>::lemma_rel(wanted, found, wanted);
                    assert forall|i: int| middle <= i < by_key.len() implies key_rel(
                        wanted,
                        models[(#[trigger] by_key[i]) as int].0,
                    ) is Less by {
                        if middle < i {
                            assert(key_rel(found, models[by_key[i] as int].0) is Less);
                            <RecipeKey as Ranked>::lemma_rel(
                                wanted,
                                found,
                                models[by_key[i] as int].0,
                            );
                        }
                    }
                }
                high = middle;
            },
        }
    }
    Err(low)
}

/// Where `by_key` lists the places of `entries` by signature, a place that
/// holds `key` is the only one, and a signature that belongs between two
/// listed places is at none.
proof fn lemma_search_decides(entries: IndexModel, by_key: Seq<usize>, key: KeyModel, r: Result<
    usize,
    usize,
>)
    requires
        lists_by_key(entries, by_key),
        match r {
            Ok(j) => j < by_key.len() && entries[by_key[j as int] as int].0 == key,
            Err(j) => {
                &&& j <= by_key.len()
                &&& forall|i: int|
                    0 <= i < j ==> key_rel(entries[(#[trigger] by_key[i]) as int].0, key) is Less
                &&& forall|i: int|
                    j <= i < by_key.len() ==> key_rel(
                        key,
                        entries[(#[trigger] by_key[i]) as int].0,
                    ) is Less
            },
        },
    ensures
        position(entries, key) == match r {
            Ok(j) => Some(by_key[j as int] as int),
            Err(_) => None,
        },
{
    lemma_position(entries, key);
    assert forall|place: int| 0 <= place < entries.len() && entries[place].0 == key implies r
        is Ok && by_key[r->Ok_0 as int] == place by {
        assert(has_place(by_key, place));
        let j = choose|j: int| 0 <= j < by_key.len() && #[trigger] by_key[j] == place;
        <RecipeKey as Ranked>::lemma_rel(entries[place].0, key, key);
        match r {
            Ok(found) => {
                if j < found {
                    assert(key_rel(
                        entries[by_key[j] as int].0,
                        entries[by_key[found as int] as int].0,
                    ) is Less);
                } else if found < j {
                    assert(key_rel(
                        entries[by_key[found as int] as int].0,
                        entries[by_key[j] as int].0,
                    ) is Less);
                }
            },
            Err(before) => {
                if j < before {
                    assert(key_rel(entries[by_key[j] as int].0, key) is Less);
                } else {
                    assert(key_rel(key, entries[by_key[j] as int].0) is Less);
                }
            },
        }
    }
    match r {
        Ok(found) => {
            lemma_position_at(entries, key, by_key[found as int] as int);
        },
        Err(_) => {},
    }
}

/// The recipes of one machine, grouped by input signature. Every signature
/// that the index holds has at least one recipe under it.
#[derive(Debug)]
pub struct RecipeLookup {
    entries: Vec<(RecipeKey, Vec<GTRecipe>)>,
    /// The places of `entries`, in the order of their signatures.
    by_key: Vec<usize>,
}

impl DeepView for RecipeLookup {
    type V = IndexModel;

    closed spec fn deep_view(&self) -> IndexModel {
        self.entries.deep_view()
    }
}

impl View for RecipeLookup {
    type V = IndexModel;

    open spec fn view(&self) -> IndexModel {
        self.deep_view()
    }
}

impl RecipeLookup {
    #[verifier::type_invariant]
    spec fn sound(self) -> bool {
        &&& forall|i: int| 0 <= i < self.entries.len() ==> (#[trigger] self.entries[i]).1.len() > 0
        &&& keys_of(self.entries.deep_view()).no_duplicates()
        &&& lists_by_key(self.entries.deep_view(), self.by_key@)
    }

    /// The index of a machine without recipes.
    pub fn new() -> (index: RecipeLookup)
        ensures
            index@ == Seq::<(KeyModel, Seq<RecipeModel>)>::empty(),
    {
        let entries: Vec<(RecipeKey, Vec<GTRecipe>)> = Vec::new();
        let by_key: Vec<usize> = Vec::new();
        assert(entries.deep_view() =~= Seq::empty());
        assert(keys_of(entries.deep_view()) =~= Seq::empty());
        RecipeLookup { entries, by_key }
    }

    /// Indexes the recipes of one machine.
    pub fn build(recipes: &Vec<GTRecipe>) -> (index: RecipeLookup)
        ensures
            index@ == index_of(recipes.deep_view()),
    {
        let ghost all = recipes.deep_view();
        let mut entries: Vec<(RecipeKey, Vec<GTRecipe>)> = Vec::new();
        let mut by_key: Vec<usize> = Vec::new();
        let mut i: usize = 0;
        assert(all.take(0) =~= Seq::empty());
        assert(entries.deep_view() =~= index_of(all.take(0)));
        while i < recipes.len()
            invariant
                i <= recipes.len(),
                all == recipes.deep_view(),
                entries.deep_view() == index_of(all.take(i as int)),
                forall|j: int| 0 <= j < entries.len() ==> (#[trigger] entries[j]).1.len() > 0,
                lists_by_key(entries.deep_view(), by_key@),
            decreases recipes.len() - i,
        {
            let recipe = &recipes[i];
            let key = recipe_key(recipe);
            let ghost held = entries.deep_view();
            let ghost listed = by_key@;
            let found = search(&entries, &by_key, &key);
            proof {
                assert(all.take(i + 1) =~= all.take(i as int).push(recipe@));
                lemma_index_push(all.take(i as int), recipe@);
                lemma_search_decides(held, listed, key.deep_view(), found);
            }
            match found {
                Ok(j) => {
                    let p = by_key[j];
                    let ghost before = entries@;
                    entries[p].1.push(recipe.clone());
                    proof {
                        let list = before[p as int].1.deep_view();
                        assert(entries@[p as int].1.deep_view() =~= list.push(recipe@));
                        assert(entries.deep_view() =~= held.update(
                            p as int,
                            (key.deep_view(), held[p as int].1.push(recipe@)),
                        ));
                        assert forall|place: int| 0 <= place < held.len() implies (
                        #[trigger] entries.deep_view()[place]).0 == held[place].0 by {
                        }
                    }
                },
                Err(j) => {
                    let place = entries.len();
                    let mut list: Vec<GTRecipe> = Vec::new();
                    list.push(recipe.clone());
                    assert(list.deep_view() =~= seq![recipe@]);
                    entries.push((key, list));
                    by_key.insert(j, place);
                    proof {
                        let grown = entries.deep_view();
                        assert(grown =~= held.push((key.deep_view(), seq![recipe@])));
                        assert(by_key@ == listed.insert(j as int, place));
                        assert forall|a: int, b: int|
                            #![trigger by_key@[a], by_key@[b]]
                            0 <= a < b < by_key.len() implies key_rel(
                            grown[by_key@[a] as int].0,
                            grown[by_key@[b] as int].0,
                        ) is Less by {
                            if a == j {
                                assert(by_key@[b] == listed[b - 1]);
                            } else if b == j {
                                assert(by_key@[a] == listed[a]);
                            } else {
                                let a0 = if a < j { a } else { a - 1 };
                                let b0 = if b < j { b } else { b - 1 };
                                assert(by_key@[a] == listed[a0] && by_key@[b] == listed[b0]);
                            }
                        }
                        assert forall|at: int| 0 <= at < grown.len() implies #[trigger] has_place(
                            by_key@,
                            at,
                        ) by {
                            if at == place {
                                assert(by_key@[j as int] == place);
                            } else {
                                assert(has_place(listed, at));
                                let old = choose|old: int|
                                    0 <= old < listed.len() && #[trigger] listed[old] == at;
                                let new = if old < j { old } else { old + 1 };
                                assert(by_key@[new] == at);
                            }
                        }
                    }
                },
            }
            i = i + 1;
        }
        assert(all.take(i as int) =~= all);
        proof {
            lemma_first_seen(signatures(all));
            assert(keys_of(entries.deep_view()) =~= first_seen(signatures(all)));
        }
        RecipeLookup { entries, by_key }
    }

    /// The number of signatures in the index.
    pub fn len(&self) -> (n: usize)
        ensures
            n == self@.len(),
    {
        self.entries.len()
    }

    /// The signature at place `i`. No other place holds it.
    pub fn key_at(&self, i: usize) -> (key: &RecipeKey)
        requires
            i < self@.len(),
        ensures
            key.deep_view() == self@[i as int].0,
            position(self@, key.deep_view()) == Some(i as int),
    {
        proof {
            use_type_invariant(self);
            let models = self.entries.deep_view();
            let key = models[i as int].0;
            assert forall|j: int| 0 <= j < i implies (#[trigger] models[j]).0 != key by {
                assert(keys_of(models)[j] == models[j].0);
                assert(keys_of(models)[i as int] == models[i as int].0);
            }
            lemma_position_at(models, models[i as int].0, i as int);
        }
        &self.entries[i].0
    }

    /// The recipes under the signature at place `i`.
    pub fn recipes_at(&self, i: usize) -> (list: &Vec<GTRecipe>)
        requires
            i < self@.len(),
        ensures
            list.deep_view() == self@[i as int].1,
            list.len() > 0,
    {
        proof {
            use_type_invariant(self);
        }
        &self.entries[i].1
    }

    /// The recipes under the signature `key`, if the index holds it.
    pub fn get(&self, key: &RecipeKey) -> (list: Option<&Vec<GTRecipe>>)
        ensures
            list.deep_view() == lookup(self@, key.deep_view()),
            list matches Some(l) ==> l.len() > 0,
    {
        proof {
            use_type_invariant(self);
        }
        let found = search(&self.entries, &self.by_key, key);
        proof {
            lemma_search_decides(self@, self.by_key@, key.deep_view(), found);
        }
        match found {
            Ok(j) => Some(&self.entries[self.by_key[j]].1),
            Err(_) => None,
        }
    }
}

/// The test "is named `name`".
pub open spec fn named(name: Seq<char>) -> spec_fn(MachineModel) -> bool {
    |m: MachineModel| m.name == name
}

/// The names of `machines`, in order.
pub open spec fn names(machines: Seq<MachineModel>) -> Seq<Seq<char>> {
    machines.map_values(|m: MachineModel| m.name)
}

/// The indexes of the machines of a snapshot: every name that occurs, in the
/// order of first occurrence, with the index of the last machine of that
/// name.
pub open spec fn maps_of(machines: Seq<MachineModel>) -> MapsModel {
    first_seen(names(machines)).map_values(
        |n: Seq<char>| (n, index_of(machines.filter(named(n)).last().recipes)),
    )
}

/// Indexing one more machine replaces the index under its name, or appends
/// a new entry where the name is new.
pub proof fn lemma_maps_push(s: Seq<MachineModel>, m: MachineModel)
    ensures
        maps_of(s.push(m)) == match position(maps_of(s), m.name) {
            Some(p) => maps_of(s).update(p, (m.name, index_of(m.recipes))),
            None => maps_of(s).push((m.name, index_of(m.recipes))),
        },
{
    let n = m.name;
    let all = names(s);
    let seen = first_seen(all);
    let maps = maps_of(s);
    let grown = maps_of(s.push(m));
    assert(names(s.push(m)) =~= all.push(n));
    assert(all.push(n).drop_last() =~= all);
    lemma_first_seen(all);
    lemma_position(maps, n);
    assert forall|n2: Seq<char>| #[trigger]
        s.push(m).filter(named(n2)) == if n2 == n {
            s.filter(named(n2)).push(m)
        } else {
            s.filter(named(n2))
        } by {
        s.lemma_filter_push(m, named(n2));
    }
    match position(maps, n) {
        Some(p) => {
            assert(seen[p] == n);
            assert(seen.contains(n));
            assert(grown =~= maps.update(p, (n, index_of(m.recipes))));
        },
        None => {
            if seen.contains(n) {
                let j = choose|j: int| 0 <= j < seen.len() && seen[j] == n;
                assert(maps[j].0 == n);
            }
            assert(grown =~= maps.push((n, index_of(m.recipes))));
        },
    }
}

/// The indexes of all machines of a snapshot, by machine name.
#[derive(Debug)]
pub struct RecipeMaps {
    machines: Vec<(String, RecipeLookup)>,
}

impl DeepView for RecipeMaps {
    type V = MapsModel;

    closed spec fn deep_view(&self) -> MapsModel {
        self.machines.deep_view()
    }
}

impl View for RecipeMaps {
    type V = MapsModel;

    open spec fn view(&self) -> MapsModel {
        self.deep_view()
    }
}

impl RecipeMaps {
    #[verifier::type_invariant]
    spec fn sound(self) -> bool {
        keys_of(self.machines.deep_view()).no_duplicates()
    }

    /// Indexes the machines of a snapshot.
    pub fn build(machines: &Vec<Machine>) -> (maps: RecipeMaps)
        ensures
            maps@ == maps_of(machines.deep_view()),
    {
        let ghost all = machines.deep_view();
        let mut out: Vec<(String, RecipeLookup)> = Vec::new();
        let mut i: usize = 0;
        assert(all.take(0) =~= Seq::empty());
        assert(out.deep_view() =~= maps_of(all.take(0)));
        while i < machines.len()
            invariant
                i <= machines.len(),
                all == machines.deep_view(),
                out.deep_view() == maps_of(all.take(i as int)),
            decreases machines.len() - i,
        {
            let machine = &machines[i];
            let index = RecipeLookup::build(&machine.recipes);
            let ghost held = out.deep_view();
            proof {
                assert(all.take(i + 1) =~= all.take(i as int).push(machine@));
                lemma_maps_push(all.take(i as int), machine@);
                lemma_position(held, machine.name@);
            }
            match find(&out, &machine.name) {
                Some(p) => {
                    out[p].1 = index;
                    assert(out.deep_view() =~= held.update(
                        p as int,
                        (machine.name@, index_of(machine.recipes.deep_view())),
                    ));
                },
                None => {
                    out.push((machine.name.clone(), index));
                    assert(out.deep_view() =~= held.push(
                        (machine.name@, index_of(machine.recipes.deep_view())),
                    ));
                },
            }
            i = i + 1;
        }
        assert(all.take(i as int) =~= all);
        proof {
            lemma_first_seen(names(all));
            assert(keys_of(out.deep_view()) =~= first_seen(names(all)));
        }
        RecipeMaps { machines: out }
    }

    /// The number of machines.
    pub fn len(&self) -> (n: usize)
        ensures
            n == self@.len(),
    {
        self.machines.len()
    }

    /// The name of the machine at place `i`. No other place holds it.
    pub fn name_at(&self, i: usize) -> (name: &String)
        requires
            i < self@.len(),
        ensures
            name@ == self@[i as int].0,
            keys_of(self@).no_duplicates(),
    {
        proof {
            use_type_invariant(self);
        }
        &self.machines[i].0
    }

    /// The index of the machine at place `i`.
    pub fn index_at(&self, i: usize) -> (index: &RecipeLookup)
        requires
            i < self@.len(),
        ensures
            index@ == self@[i as int].1,
    {
        &self.machines[i].1
    }

    /// The index of the machine named `name`, if there is one.
    pub fn get(&self, name: &String) -> (index: Option<&RecipeLookup>)
        ensures
            index.deep_view() == lookup(self@, name@),
    {
        proof {
            lemma_position(self@, name@);
        }
        match find(&self.machines, name) {
            Some(p) => Some(&self.machines[p].1),
            None => None,
        }
    }
}

impl Root {
    /// Indexes the first source of machine recipes of the snapshot. A
    /// snapshot without such a source is refused.
    pub fn get_gt_recipes(&self) -> (r: Result<RecipeMaps, AnalysisError>)
        ensures
            match r {
                Ok(maps) => machine_source(self.sources@) matches Some(machines) && maps@
                    == maps_of(machines),
                Err(e) => e == AnalysisError::MissingMachineSource && machine_source(self.sources@)
                    is None,
            },
    {
        let mut i: usize = 0;
        assert(self.sources@.skip(0) =~= self.sources@);
        while i < self.sources.len()
            invariant
                i <= self.sources.len(),
                machine_source(self.sources@) == machine_source(self.sources@.skip(i as int)),
            decreases self.sources.len() - i,
        {
            assert(self.sources@.skip(i as int).drop_first() =~= self.sources@.skip(i + 1));
            match &self.sources[i] {
                RecipeSource::Gregtech { machines } => {
                    return Ok(RecipeMaps::build(machines));
                },
                _ => {},
            }
            i = i + 1;
        }
        Err(AnalysisError::MissingMachineSource)
    }
}

} // verus!
