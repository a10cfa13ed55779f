//! The analysis: the status of every input signature of every machine, and
//! the report that lists them.

use crate::assoc::{keys_of, lookup};
use crate::classify::{classify, classify_spec, KeyModel};
use crate::grouping::{group_pairs, grouped, keyed_by};
use crate::index::{IndexModel, MapsModel, RecipeLookup, RecipeMaps};
use crate::order::{leq, sort_vec, Order, Ranked};
use crate::recipe::RecipeModel;
use crate::record::{record_of, RecipeBeforeAfter, RecordModel};
use crate::status::{GTRecipeStatus, STATUS_COUNT};
use vstd::prelude::*;

verus! {

/// A list of records, each with the status it was given.
pub type RawModel = Seq<(GTRecipeStatus, RecordModel)>;

/// What a `StatusMap` stands for: the status kinds that occur, in their
/// order, each with its records.
pub type StatusesModel = Seq<(GTRecipeStatus, Seq<RecordModel>)>;

/// What a `Report` stands for: the machines with their statuses.
pub type ReportModel = Seq<(Seq<char>, StatusesModel)>;

/// The status and the record of a signature, where it has a status.
pub open spec fn entry_for(before: IndexModel, after: IndexModel) -> spec_fn(KeyModel) -> Option<
    (GTRecipeStatus, RecordModel),
> {
    |key: KeyModel|
        match classify_spec(key, lookup(before, key), lookup(after, key)) {
            Some(status) => Some((status, record_of(lookup(before, key), lookup(after, key)))),
            None => None,
        }
}

/// The test "is not a signature of `index`".
pub open spec fn absent_from(index: IndexModel) -> spec_fn(KeyModel) -> bool {
    |key: KeyModel| lookup(index, key) is None
}

/// The signatures that either index holds: those of `before`, then those
/// that only `after` holds.
pub open spec fn union_keys(before: IndexModel, after: IndexModel) -> Seq<KeyModel> {
    keys_of(before) + keys_of(after).filter(absent_from(before))
}

/// The records of one machine with their statuses, one for each signature
/// of either index that has a status.
pub open spec fn raw_records(before: IndexModel, after: IndexModel) -> RawModel {
    union_keys(before, after).filter_map(entry_for(before, after))
}

/// The test "has the status `status`".
pub open spec fn of_kind(status: GTRecipeStatus) -> spec_fn((GTRecipeStatus, RecordModel)) -> bool {
    |e: (GTRecipeStatus, RecordModel)| e.0 == status
}

/// The records of `raw` that have the status `status`, in order.
pub open spec fn records_of_kind(raw: RawModel, status: GTRecipeStatus) -> Seq<RecordModel> {
    raw.filter(of_kind(status)).map_values(|e: (GTRecipeStatus, RecordModel)| e.1)
}

/// All status kinds, in their order.
pub open spec fn all_kinds() -> Seq<GTRecipeStatus> {
    Seq::new(STATUS_COUNT as nat, |i: int| GTRecipeStatus::of_rank(i as u8))
}

/// The entry of a status kind in the statuses of a machine: its records
/// sorted, where it has any.
pub open spec fn kind_entry(raw: RawModel) -> spec_fn(GTRecipeStatus) -> Option<
    (GTRecipeStatus, Seq<RecordModel>),
> {
    |status: GTRecipeStatus|
        if records_of_kind(raw, status).len() > 0 {
            Some((status, records_of_kind(raw, status).sort_by(leq::<RecipeBeforeAfter>())))
        } else {
            None
        }
}

/// The statuses of a machine: every kind that some record has, in the order
/// of the kinds, with the sorted records of that kind.
pub open spec fn statuses_of(raw: RawModel) -> StatusesModel {
    all_kinds().filter_map(kind_entry(raw))
}

/// The index that the earlier snapshot has of the machine `name`; the empty
/// index where it does not have the machine.
pub open spec fn earlier_index(before: MapsModel, name: Seq<char>) -> IndexModel {
    match lookup(before, name) {
        Some(index) => index,
        None => Seq::empty(),
    }
}

/// The entry of a machine of the later snapshot in the report: the statuses
/// of its signatures, where some signature has a status. A machine that the
/// earlier snapshot lacks is compared with the empty index, so that all its
/// signatures are new.
pub open spec fn machine_entry(before: MapsModel) -> spec_fn((Seq<char>, IndexModel)) -> Option<
    (Seq<char>, StatusesModel),
> {
    |m: (Seq<char>, IndexModel)|
        if raw_records(earlier_index(before, m.0), m.1).len() > 0 {
            Some((m.0, statuses_of(raw_records(earlier_index(before, m.0), m.1))))
        } else {
            None
        }
}

/// The report on two snapshots: the entries of the machines of the later
/// one, sorted by machine name. A machine that only the earlier snapshot
/// has is not looked at.
pub open spec fn analysis(before: MapsModel, after: MapsModel) -> ReportModel {
    after.filter_map(machine_entry(before)).sort_by(leq::<(String, StatusMap)>())
}

/// The statuses of one machine: for each status kind that occurs, the
/// records of that kind.
#[derive(Debug, PartialEq, Eq)]
pub struct StatusMap {
    pub entries: Vec<(GTRecipeStatus, Vec<RecipeBeforeAfter>)>,
}

impl DeepView for StatusMap {
    type V = StatusesModel;

    open spec fn deep_view(&self) -> StatusesModel {
        self.entries.deep_view()
    }
}

impl View for StatusMap {
    type V = StatusesModel;

    open spec fn view(&self) -> StatusesModel {
        self.deep_view()
    }
}

/// Statuses are ordered as the lists of their entries are.
impl Ranked for StatusMap {
    open spec fn rel(a: StatusesModel, b: StatusesModel) -> Order {
        Vec::<(GTRecipeStatus, Vec<RecipeBeforeAfter>)>::rel(a, b)
    }

    proof fn lemma_rel(a: StatusesModel, b: StatusesModel, c: StatusesModel) {
        Vec::<(GTRecipeStatus, Vec<RecipeBeforeAfter>)>::lemma_rel(a, b, c);
    }

    fn compare(&self, other: &Self) -> (r: Order) {
        self.entries.compare(&other.entries)
    }
}

/// The result of an analysis: the machines in which something has a status,
/// by name.
#[derive(Debug, PartialEq, Eq)]
pub struct Report {
    pub machines: Vec<(String, StatusMap)>,
}

impl DeepView for Report {
    type V = ReportModel;

    open spec fn deep_view(&self) -> ReportModel {
        self.machines.deep_view()
    }
}

impl View for Report {
    type V = ReportModel;

    open spec fn view(&self) -> ReportModel {
        self.deep_view()
    }
}

/// The records of `raw`, each keyed by the place of its status.
pub open spec fn keyed(raw: Seq<(GTRecipeStatus, RecipeBeforeAfter)>) -> Seq<
    (u8, RecipeBeforeAfter),
> {
    raw.map_values(|p: (GTRecipeStatus, RecipeBeforeAfter)| (p.0.rank(), p.1))
}

/// The models of the records of `raw`, each with its status.
pub open spec fn models_of(raw: Seq<(GTRecipeStatus, RecipeBeforeAfter)>) -> RawModel {
    raw.map_values(|p: (GTRecipeStatus, RecipeBeforeAfter)| p.deep_view())
}

/// `filter_map` goes through a concatenation.
pub proof fn lemma_filter_map_add<A, B>(a: Seq<A>, b: Seq<A>, f: spec_fn(A) -> Option<B>)
    ensures
        (a + b).filter_map(f) == a.filter_map(f) + b.filter_map(f),
    decreases b.len(),
{
    if b.len() == 0 {
        assert(a + b =~= a);
        assert(a.filter_map(f) + b.filter_map(f) =~= a.filter_map(f));
    } else {
        lemma_filter_map_add(a, b.drop_last(), f);
        assert((a + b).drop_last() =~= a + b.drop_last());
        assert((a + b).last() == b.last());
        match f(b.last()) {
            Some(x) => {
                assert((a + b).filter_map(f) =~= a.filter_map(f) + b.filter_map(f));
            },
            None => {},
        }
    }
}

/// Grouping by the place of a status and taking models gives the records of
/// that status.
pub proof fn lemma_grouped_model(
    raw: Seq<(GTRecipeStatus, RecipeBeforeAfter)>,
    status: GTRecipeStatus,
)
    ensures
        grouped(keyed(raw), status.rank()).map_values(|r: RecipeBeforeAfter| r.deep_view())
            == records_of_kind(models_of(raw), status),
    decreases raw.len(),
{
    let k = status.rank();
    let left = grouped(keyed(raw), k).map_values(|r: RecipeBeforeAfter| r.deep_view());
    let right = records_of_kind(models_of(raw), status);
    if raw.len() == 0 {
        reveal(Seq::filter);
        assert(left =~= right);
    } else {
        let rest = raw.drop_last();
        let last = raw.last();
        assert(raw =~= rest.push(last));
        lemma_grouped_model(rest, status);
        let pair = (last.0.rank(), last.1);
        let e = (last.0, last.1.deep_view());
        assert(keyed(raw) =~= keyed(rest).push(pair));
        keyed(rest).lemma_filter_push(pair, keyed_by(k));
        assert(models_of(raw) =~= models_of(rest).push(e));
        models_of(rest).lemma_filter_push(e, of_kind(status));
        assert((last.0 == status) <==> last.0.rank() == k);
        let left_rest = grouped(keyed(rest), k).map_values(|r: RecipeBeforeAfter| r.deep_view());
        let right_rest = records_of_kind(models_of(rest), status);
        if last.0 == status {
            assert(grouped(keyed(raw), k) =~= grouped(keyed(rest), k).push(last.1));
            assert(left =~= left_rest.push(last.1.deep_view()));
            assert(right =~= right_rest.push(e.1));
        }
    }
}

/// Gives every signature of either index its status, and keeps a record of
/// each signature that has one: first of the signatures of `before`, then of
/// those that only `after` holds.
pub fn collect_records(before: &RecipeLookup, after: &RecipeLookup) -> (raw: Vec<
    (GTRecipeStatus, RecipeBeforeAfter),
>)
    ensures
        raw.deep_view() == raw_records(before@, after@),
{
    let ghost f = entry_for(before@, after@);
    let ghost first = keys_of(before@);
    let ghost second = keys_of(after@);
    let mut raw: Vec<(GTRecipeStatus, RecipeBeforeAfter)> = Vec::new();
    let mut i: usize = 0;
    assert(first.take(0) =~= Seq::empty());
    assert(raw.deep_view() =~= first.take(0).filter_map(f));
    while i < before.len()
        invariant
            i <= before@.len(),
            f == entry_for(before@, after@),
            first == keys_of(before@),
            raw.deep_view() == first.take(i as int).filter_map(f),
        decreases before@.len() - i,
    {
        let key = before.key_at(i);
        let before_list = before.recipes_at(i);
        let after_list = after.get(key);
        let ghost held = raw.deep_view();
        proof {
            first.lemma_filter_map_take_succ(f, i as int);
            assert(first[i as int] == key.deep_view());
        }
        match classify(key, Some(before_list), after_list) {
            Some(status) => {
                raw.push((status, RecipeBeforeAfter::new(Some(before_list), after_list)));
                assert(raw.deep_view() =~= held + seq![f(key.deep_view())->0]);
            },
            None => {
                assert(held + Seq::empty() =~= held);
            },
        }
        i = i + 1;
    }
    assert(first.take(i as int) =~= first);
    let ghost fresh = absent_from(before@);
    let mut j: usize = 0;
    assert(second.take(0) =~= Seq::empty());
    proof {
        reveal(Seq::filter);
        assert(second.take(0).filter(fresh) =~= Seq::empty());
        assert(raw.deep_view() =~= first.filter_map(f) + second.take(0).filter(fresh).filter_map(
            f,
        ));
    }
    while j < after.len()
        invariant
            j <= after@.len(),
            f == entry_for(before@, after@),
            fresh == absent_from(before@),
            first == keys_of(before@),
            second == keys_of(after@),
            raw.deep_view() == first.filter_map(f) + second.take(j as int).filter(fresh).filter_map(
                f,
            ),
        decreases after@.len() - j,
    {
        let key = after.key_at(j);
        let ghost held = raw.deep_view();
        let ghost done = second.take(j as int).filter(fresh);
        proof {
            assert(second.take(j + 1) =~= second.take(j as int).push(key.deep_view()));
            second.take(j as int).lemma_filter_push(key.deep_view(), fresh);
        }
        if before.get(key).is_none() {
            let after_list = after.recipes_at(j);
            proof {
                assert(done.push(key.deep_view()).drop_last() =~= done);
            }
            match classify(key, None, Some(after_list)) {
                Some(status) => {
                    raw.push((status, RecipeBeforeAfter::new(None, Some(after_list))));
                    assert(raw.deep_view() =~= held + seq![f(key.deep_view())->0]);
                },
                None => {},
            }
        }
        j = j + 1;
    }
    proof {
        assert(second.take(j as int) =~= second);
        lemma_filter_map_add(first, second.filter(fresh), f);
    }
    raw
}

impl StatusMap {
    /// Groups records by their status, in the order of the kinds, and sorts
    /// the records of each kind.
    pub fn from_records(raw: Vec<(GTRecipeStatus, RecipeBeforeAfter)>) -> (statuses: StatusMap)
        ensures
            statuses@ == statuses_of(raw.deep_view()),
    {
        let ghost model = raw.deep_view();
        let ghost f = kind_entry(model);
        let ghost source = raw@;
        let mut pairs: Vec<(u8, RecipeBeforeAfter)> = Vec::new();
        for pair in iter: raw.into_iter()
            invariant
                iter.seq() == source,
                pairs@ == keyed(source.take(iter.index() as int)),
        {
            pairs.push((pair.0.index(), pair.1));
            assert(pairs@ =~= keyed(source.take(iter.index() + 1)));
        }
        assert(source.take(source.len() as int) =~= source);
        let mut groups = group_pairs(pairs);
        let mut entries: Vec<(GTRecipeStatus, Vec<RecipeBeforeAfter>)> = Vec::new();
        let mut k: u8 = 0;
        assert(model =~= models_of(source));
        assert(all_kinds().take(0) =~= Seq::empty());
        assert(entries.deep_view() =~= all_kinds().take(0).filter_map(f));
        while k < STATUS_COUNT
            invariant
                k <= STATUS_COUNT,
                model == models_of(source),
                f == kind_entry(model),
                entries.deep_view() == all_kinds().take(k as int).filter_map(f),
                forall|j: u8|
                    k <= j ==> (#[trigger] groups@.contains_key(j) <==> grouped(
                        keyed(source),
                        j,
                    ).len() > 0),
                forall|j: u8|
                    k <= j && groups@.contains_key(j) ==> (#[trigger] groups@[j])@ == grouped(
                        keyed(source),
                        j,
                    ),
            decreases STATUS_COUNT - k,
        {
            let ghost held = entries.deep_view();
            let ghost status = GTRecipeStatus::of_rank(k);
            proof {
                all_kinds().lemma_filter_map_take_succ(f, k as int);
                lemma_grouped_model(source, status);
                assert(all_kinds()[k as int] == status);
            }
            let taken = groups.remove(&k);
            match (taken, GTRecipeStatus::from_index(k)) {
                (Some(list), Some(kind)) => {
                    let mut list = list;
                    assert(list.deep_view() =~= grouped(keyed(source), k).map_values(
                        |r: RecipeBeforeAfter| r.deep_view(),
                    ));
                    sort_vec(&mut list);
                    entries.push((kind, list));
                    assert(entries.deep_view() =~= held + seq![f(status)->0]);
                },
                _ => {
                    assert(held + Seq::empty() =~= held);
                },
            }
            k = k + 1;
        }
        assert(all_kinds().take(k as int) =~= all_kinds());
        StatusMap { entries }
    }
}

/// Compares two indexed snapshots, machine by machine of the later one. A
/// machine that the earlier snapshot lacks counts as having had no recipes;
/// a machine is listed where some signature of it has a status.
pub fn analyze(before: &RecipeMaps, after: &RecipeMaps) -> (report: Report)
    ensures
        report@ == analysis(before@, after@),
{
    let ghost f = machine_entry(before@);
    let none = RecipeLookup::new();
    let mut machines: Vec<(String, StatusMap)> = Vec::new();
    let mut i: usize = 0;
    assert(after@.take(0) =~= Seq::empty());
    assert(machines.deep_view() =~= after@.take(0).filter_map(f));
    while i < after.len()
        invariant
            i <= after@.len(),
            f == machine_entry(before@),
            none@ == Seq::<(KeyModel, Seq<RecipeModel>)>::empty(),
            machines.deep_view() == after@.take(i as int).filter_map(f),
        decreases after@.len() - i,
    {
        let name = after.name_at(i);
        let ghost held = machines.deep_view();
        proof {
            after@.lemma_filter_map_take_succ(f, i as int);
            assert(held + Seq::empty() =~= held);
        }
        let earlier = match before.get(name) {
            Some(index) => index,
            None => &none,
        };
        let raw = collect_records(earlier, after.index_at(i));
        if raw.len() > 0 {
            let statuses = StatusMap::from_records(raw);
            machines.push((name.clone(), statuses));
            assert(machines.deep_view() =~= held + seq![f(after@[i as int])->0]);
        }
        i = i + 1;
    }
    assert(after@.take(i as int) =~= after@);
    sort_vec(&mut machines);
    Report { machines }
}

} // verus!
