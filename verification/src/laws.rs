//! Laws of the analysis, proved from the definitions.

use crate::analysis::{
    all_kinds, analysis, earlier_index, entry_for, kind_entry, machine_entry, of_kind,
    raw_records, records_of_kind, statuses_of, union_keys, RawModel, StatusMap,
};
use crate::assoc::{keys_of, lemma_position, lookup, position};
use crate::classify::{all_equal_to, any_recipe_missing, classify_spec, key_missing, KeyModel};
use crate::assoc::first_seen;
use crate::assoc::lemma_first_seen;
use crate::compare::comparison;
use crate::index::{
    index_of, key_of, maps_of, names, signatures, under, IndexModel, MapsModel,
};
use crate::snapshot::{machine_source, RecipeSource};
use vstd::relations::sorted_by;
use crate::order::{leq, lemma_leq_total, Ranked};
use crate::recipe::{MachineModel, RecipeModel};
use crate::analysis::{ReportModel, StatusesModel};
use crate::record::{RecipeBeforeAfter, RecordModel};
use crate::report::{
    filter_report, filter_statuses, kept_by, kind_count, kind_entries, kind_mentions, kind_total,
    summary_line, summary_of, StatusFilter,
};
use crate::snapshot::{canonical_machine, canonical_recipe};
use crate::stack::{FluidStack, ItemStack};
use crate::status::GTRecipeStatus;
use vstd::prelude::*;
use vstd::seq_lib::lemma_sorted_unique;

verus! {

/// A signature that neither snapshot holds has no status, whatever it is.
pub proof fn lemma_absent_signature_has_no_status(key: KeyModel)
    ensures
        classify_spec(key, None, None) is None,
{
}

/// The statuses that a signature can have when a snapshot is compared with
/// itself.
pub open spec fn self_diff_status(status: GTRecipeStatus) -> bool {
    ||| status is MissingInput
    ||| status is MissingOutput
    ||| status is Conflicting
    ||| status is DuplicateRegistration
}

/// A signature with the same recipes before and after has no status, or one
/// of `MissingInput`, `MissingOutput`, `Conflicting` and
/// `DuplicateRegistration`.
pub proof fn lemma_self_diff_status(key: KeyModel, side: Option<Seq<RecipeModel>>)
    ensures
        classify_spec(key, side, side) matches Some(status) ==> self_diff_status(status),
{
}

/// Sorting gives the same list for two lists that hold the same elements,
/// in whatever order.
pub proof fn lemma_sort_ignores_order<T: Ranked>(a: Seq<T::V>, b: Seq<T::V>)
    requires
        a.to_multiset() == b.to_multiset(),
    ensures
        a.sort_by(leq::<T>()) == b.sort_by(leq::<T>()),
{
    lemma_leq_total::<T>();
    a.lemma_sort_by_ensures(leq::<T>());
    b.lemma_sort_by_ensures(leq::<T>());
    lemma_sorted_unique(a.sort_by(leq::<T>()), b.sort_by(leq::<T>()), leq::<T>());
}

/// Whether two recipes differ at most in the order of their inputs and of
/// their outputs.
pub open spec fn same_up_to_order(a: RecipeModel, b: RecipeModel) -> bool {
    &&& a.enabled == b.enabled
    &&& a.duration == b.duration
    &&& a.eut == b.eut
    &&& a.item_inputs.to_multiset() == b.item_inputs.to_multiset()
    &&& a.fluid_inputs.to_multiset() == b.fluid_inputs.to_multiset()
    &&& a.item_outputs.to_multiset() == b.item_outputs.to_multiset()
    &&& a.fluid_outputs.to_multiset() == b.fluid_outputs.to_multiset()
}

/// The input signature of a recipe does not depend on the order of its
/// inputs.
pub proof fn lemma_key_ignores_input_order(a: RecipeModel, b: RecipeModel)
    requires
        a.item_inputs.to_multiset() == b.item_inputs.to_multiset(),
        a.fluid_inputs.to_multiset() == b.fluid_inputs.to_multiset(),
    ensures
        key_of(a) == key_of(b),
{
    lemma_sort_ignores_order::<ItemStack>(a.item_inputs, b.item_inputs);
    lemma_sort_ignores_order::<FluidStack>(a.fluid_inputs, b.fluid_inputs);
}

/// Two recipes that differ only in the order of their lists have the same
/// canonical form, so that a loaded snapshot, its index and every status
/// are the same for both.
pub proof fn lemma_canonical_ignores_order(a: RecipeModel, b: RecipeModel)
    requires
        same_up_to_order(a, b),
    ensures
        canonical_recipe(a) == canonical_recipe(b),
        key_of(a) == key_of(b),
{
    lemma_sort_ignores_order::<ItemStack>(a.item_inputs, b.item_inputs);
    lemma_sort_ignores_order::<FluidStack>(a.fluid_inputs, b.fluid_inputs);
    lemma_sort_ignores_order::<ItemStack>(a.item_outputs, b.item_outputs);
    lemma_sort_ignores_order::<FluidStack>(a.fluid_outputs, b.fluid_outputs);
}

/// Two machines of one name whose recipes differ, place by place, only in
/// the order of their lists have the same canonical form.
pub proof fn lemma_canonical_machine_ignores_order(a: MachineModel, b: MachineModel)
    requires
        a.name == b.name,
        a.recipes.len() == b.recipes.len(),
        forall|i: int| 0 <= i < a.recipes.len() ==> same_up_to_order(a.recipes[i], b.recipes[i]),
    ensures
        canonical_machine(a) == canonical_machine(b),
{
    assert forall|i: int| 0 <= i < a.recipes.len() implies canonical_recipe(a.recipes[i])
        == canonical_recipe(b.recipes[i]) by {
        lemma_canonical_ignores_order(a.recipes[i], b.recipes[i]);
    }
    assert(canonical_machine(a).recipes =~= canonical_machine(b).recipes);
}

/// Two lists of machines that differ, machine by machine, only in the order
/// of the lists of their recipes are the same once loaded.
pub proof fn lemma_loaded_machines_ignore_order(a: Seq<MachineModel>, b: Seq<MachineModel>)
    requires
        a.len() == b.len(),
        forall|m: int|
            0 <= m < a.len() ==> {
                &&& (#[trigger] a[m]).name == b[m].name
                &&& a[m].recipes.len() == b[m].recipes.len()
                &&& forall|i: int|
                    0 <= i < a[m].recipes.len() ==> same_up_to_order(
                        #[trigger] a[m].recipes[i],
                        b[m].recipes[i],
                    )
            },
    ensures
        a.map_values(|m: MachineModel| canonical_machine(m)) == b.map_values(
            |m: MachineModel| canonical_machine(m),
        ),
{
    assert forall|m: int| 0 <= m < a.len() implies canonical_machine(a[m]) == canonical_machine(
        b[m],
    ) by {
        assert(a[m].name == b[m].name);
        lemma_canonical_machine_ignores_order(a[m], b[m]);
    }
    assert(a.map_values(|m: MachineModel| canonical_machine(m)) =~= b.map_values(
        |m: MachineModel| canonical_machine(m),
    ));
}

/// The canonical form of a recipe is canonical: bringing it into canonical
/// form again changes nothing, and its signature is its own inputs.
pub proof fn lemma_canonical_is_fixed(r: RecipeModel)
    ensures
        canonical_recipe(canonical_recipe(r)) == canonical_recipe(r),
        key_of(canonical_recipe(r)) == key_of(r),
        key_of(canonical_recipe(r)) == (
            canonical_recipe(r).item_inputs,
            canonical_recipe(r).fluid_inputs,
        ),
{
    lemma_leq_total::<ItemStack>();
    lemma_leq_total::<FluidStack>();
    r.item_inputs.lemma_sort_by_ensures(leq::<ItemStack>());
    r.fluid_inputs.lemma_sort_by_ensures(leq::<FluidStack>());
    r.item_outputs.lemma_sort_by_ensures(leq::<ItemStack>());
    r.fluid_outputs.lemma_sort_by_ensures(leq::<FluidStack>());
    lemma_sort_ignores_order::<ItemStack>(r.item_inputs.sort_by(leq::<ItemStack>()), r.item_inputs);
    lemma_sort_ignores_order::<FluidStack>(
        r.fluid_inputs.sort_by(leq::<FluidStack>()),
        r.fluid_inputs,
    );
    lemma_sort_ignores_order::<ItemStack>(
        r.item_outputs.sort_by(leq::<ItemStack>()),
        r.item_outputs,
    );
    lemma_sort_ignores_order::<FluidStack>(
        r.fluid_outputs.sort_by(leq::<FluidStack>()),
        r.fluid_outputs,
    );
}

/// Whether the recipes of the two lists are all equal to each other.
pub open spec fn all_pairwise_equal(before: Seq<RecipeModel>, after: Seq<RecipeModel>) -> bool {
    forall|i: int, j: int|
        0 <= i < (before + after).len() && 0 <= j < (before + after).len() ==> (before + after)[i]
            == (before + after)[j]
}

/// A signature with several recipes on both sides is never judged by the
/// outputs or the stats of single recipes. Where no input of the signature
/// and no recipe after the change is missing, it is `DuplicateRegistration`
/// if all its recipes are equal to each other, and `Conflicting` if not.
pub proof fn lemma_conflict_priority(
    key: KeyModel,
    before: Seq<RecipeModel>,
    after: Seq<RecipeModel>,
)
    requires
        before.len() > 1,
        after.len() > 1,
    ensures
        classify_spec(key, Some(before), Some(after)) != Some(GTRecipeStatus::OutputsChanged),
        classify_spec(key, Some(before), Some(after)) != Some(GTRecipeStatus::StatsChanged),
        !key_missing(key) && !any_recipe_missing(after) ==> classify_spec(
            key,
            Some(before),
            Some(after),
        ) == Some(
            if all_pairwise_equal(before, after) {
                GTRecipeStatus::DuplicateRegistration
            } else {
                GTRecipeStatus::Conflicting
            },
        ),
{
    let all = before + after;
    if all_pairwise_equal(before, after) {
        assert forall|i: int| 0 <= i < before.len() implies #[trigger] before[i] == before[0] by {
            assert(all[i] == before[i] && all[0] == before[0]);
        }
        assert forall|i: int| 0 <= i < after.len() implies #[trigger] after[i] == before[0] by {
            assert(all[before.len() + i] == after[i] && all[0] == before[0]);
        }
    }
    if all_equal_to(before, before[0]) && all_equal_to(after, before[0]) {
        assert forall|i: int, j: int| 0 <= i < all.len() && 0 <= j < all.len() implies all[i]
            == all[j] by {
            if i < before.len() {
                assert(all[i] == before[i]);
            } else {
                assert(all[i] == after[i - before.len()]);
            }
            if j < before.len() {
                assert(all[j] == before[j]);
            } else {
                assert(all[j] == after[j - before.len()]);
            }
        }
    }
}

/// Sorting neither adds nor drops an element.
pub proof fn lemma_sort_keeps_elements<T: Ranked>(s: Seq<T::V>, x: T::V)
    ensures
        s.sort_by(leq::<T>()).contains(x) <==> s.contains(x),
{
    lemma_leq_total::<T>();
    s.lemma_sort_by_ensures(leq::<T>());
    vstd::seq_lib::to_multiset_contains(s, x);
    vstd::seq_lib::to_multiset_contains(s.sort_by(leq::<T>()), x);
}

/// Every record of a machine belongs to a signature that the index before
/// or the index after holds, and has the status that the decision procedure
/// gives that signature.
pub proof fn lemma_record_has_signature(before: IndexModel, after: IndexModel, i: int) -> (key:
    KeyModel)
    requires
        0 <= i < raw_records(before, after).len(),
    ensures
        lookup(before, key) is Some || lookup(after, key) is Some,
        entry_for(before, after)(key) == Some(raw_records(before, after)[i]),
        classify_spec(key, lookup(before, key), lookup(after, key)) == Some(
            raw_records(before, after)[i].0,
        ),
{
    let keys = union_keys(before, after);
    let f = entry_for(before, after);
    let e = raw_records(before, after)[i];
    assert(keys.filter_map(f).contains(e));
    keys.lemma_filter_map_contains(f, e);
    let key = choose|key: KeyModel| #[trigger] keys.contains(key) && f(key) == Some(e);
    key
}

/// Every entry of the statuses of a machine is of a kind that some record
/// has, and every record in it is a record of that kind.
pub proof fn lemma_status_entry_from_records(raw: RawModel, i: int)
    requires
        0 <= i < statuses_of(raw).len(),
    ensures
        statuses_of(raw)[i].1 == records_of_kind(raw, statuses_of(raw)[i].0).sort_by(
            leq::<RecipeBeforeAfter>(),
        ),
        statuses_of(raw)[i].1.len() > 0,
        exists|k: int| 0 <= k < raw.len() && (#[trigger] raw[k]).0 == statuses_of(raw)[i].0,
        forall|record: RecordModel|
            statuses_of(raw)[i].1.contains(record) ==> raw.contains(
                (statuses_of(raw)[i].0, record),
            ),
{
    let f = kind_entry(raw);
    let e = statuses_of(raw)[i];
    assert(all_kinds().filter_map(f).contains(e));
    all_kinds().lemma_filter_map_contains(f, e);
    let status = choose|status: GTRecipeStatus| #[trigger]
        all_kinds().contains(status) && f(status) == Some(e);
    let kept = raw.filter(of_kind(status));
    let group = records_of_kind(raw, status);
    lemma_leq_total::<RecipeBeforeAfter>();
    group.lemma_sort_by_ensures(leq::<RecipeBeforeAfter>());
    vstd::seq_lib::to_multiset_len(group);
    vstd::seq_lib::to_multiset_len(group.sort_by(leq::<RecipeBeforeAfter>()));
    assert forall|k: int| 0 <= k < kept.len() implies (#[trigger] kept[k]).0 == status
        && raw.contains(kept[k]) by {
        raw.lemma_filter_pred(of_kind(status), k);
        assert(kept.contains(kept[k]));
        raw.lemma_filter_contains_rev(of_kind(status), kept[k]);
    }
    assert(raw.contains(kept[0]));
    assert forall|record: RecordModel| e.1.contains(record) implies raw.contains(
        (e.0, record),
    ) by {
        lemma_sort_keeps_elements::<RecipeBeforeAfter>(group, record);
        let k = choose|k: int| 0 <= k < group.len() && group[k] == record;
        assert(kept[k] == (status, record));
    }
}

/// Every machine of a report is a machine of the later snapshot, and its
/// statuses are those of its index there and of the index that the earlier
/// snapshot has of it.
pub proof fn lemma_report_entry_from_machines(before: MapsModel, after: MapsModel, i: int) -> (m: (
    Seq<char>,
    IndexModel,
))
    requires
        0 <= i < analysis(before, after).len(),
    ensures
        after.contains(m),
        m.0 == analysis(before, after)[i].0,
        raw_records(earlier_index(before, m.0), m.1).len() > 0,
        analysis(before, after)[i].1 == statuses_of(
            raw_records(earlier_index(before, m.0), m.1),
        ),
{
    let f = machine_entry(before);
    let e = analysis(before, after)[i];
    assert(analysis(before, after).contains(e));
    lemma_sort_keeps_elements::<(String, StatusMap)>(after.filter_map(f), e);
    after.lemma_filter_map_contains(f, e);
    let m = choose|m: (Seq<char>, IndexModel)| #[trigger] after.contains(m) && f(m) == Some(e);
    m
}

/// A machine that the later snapshot lacks is not in the report: neither
/// one that only the earlier snapshot has, nor one that neither has.
pub proof fn lemma_absent_machine_not_reported(before: MapsModel, after: MapsModel, i: int)
    requires
        0 <= i < analysis(before, after).len(),
    ensures
        keys_of(after).contains(analysis(before, after)[i].0),
{
    let m = lemma_report_entry_from_machines(before, after, i);
    let p = choose|p: int| 0 <= p < after.len() && after[p] == m;
    assert(keys_of(after)[p] == m.0);
}

/// The statuses that a signature can have that only the later side holds.
pub open spec fn new_signature_status(status: GTRecipeStatus) -> bool {
    ||| status is Added
    ||| status is ConflictCreated
    ||| status is MissingInput
    ||| status is MissingOutputCreated
}

/// A signature that only the later side holds always has a status: one of
/// `Added`, `ConflictCreated`, `MissingInput` and `MissingOutputCreated`.
pub proof fn lemma_new_signature_status(key: KeyModel, after: Seq<RecipeModel>)
    ensures
        classify_spec(key, None, Some(after)) matches Some(status) && new_signature_status(status),
{
}

/// Every status of a machine that the earlier snapshot lacks is that of a
/// new signature.
pub proof fn lemma_new_machine_statuses(before: MapsModel, after: MapsModel, i: int, j: int)
    requires
        0 <= i < analysis(before, after).len(),
        0 <= j < analysis(before, after)[i].1.len(),
        !keys_of(before).contains(analysis(before, after)[i].0),
    ensures
        new_signature_status(analysis(before, after)[i].1[j].0),
{
    let m = lemma_report_entry_from_machines(before, after, i);
    lemma_position(before, m.0);
    if position(before, m.0) is Some {
        let q = position(before, m.0)->0;
        assert(keys_of(before)[q] == m.0);
    }
    let none = Seq::<(KeyModel, Seq<RecipeModel>)>::empty();
    assert(earlier_index(before, m.0) == none);
    let raw = raw_records(none, m.1);
    lemma_status_entry_from_records(raw, j);
    let status = statuses_of(raw)[j].0;
    let k = choose|k: int| 0 <= k < raw.len() && (#[trigger] raw[k]).0 == status;
    let key = lemma_record_has_signature(none, m.1, k);
    assert(lookup(none, key) is None);
    lemma_new_signature_status(key, lookup(m.1, key)->0);
}

/// In the comparison of a snapshot with itself, every status in the report
/// is one of `MissingInput`, `MissingOutput`, `Conflicting` and
/// `DuplicateRegistration`.
pub proof fn lemma_self_diff_report(maps: MapsModel, i: int, j: int)
    requires
        keys_of(maps).no_duplicates(),
        0 <= i < analysis(maps, maps).len(),
        0 <= j < analysis(maps, maps)[i].1.len(),
    ensures
        self_diff_status(analysis(maps, maps)[i].1[j].0),
{
    let m = lemma_report_entry_from_machines(maps, maps, i);
    let p = choose|p: int| 0 <= p < maps.len() && maps[p] == m;
    lemma_position(maps, m.0);
    let q = position(maps, m.0)->0;
    assert(keys_of(maps)[p] == m.0 && keys_of(maps)[q] == m.0);
    assert(p == q);
    let index = m.1;
    assert(lookup(maps, m.0) == Some(index));
    assert(earlier_index(maps, m.0) == index);
    let raw = raw_records(index, index);
    lemma_status_entry_from_records(raw, j);
    let status = statuses_of(raw)[j].0;
    let k = choose|k: int| 0 <= k < raw.len() && (#[trigger] raw[k]).0 == status;
    let key = lemma_record_has_signature(index, index, k);
    lemma_self_diff_status(key, lookup(index, key));
}

/// The indexes of a snapshot hold every machine name once.
pub proof fn lemma_maps_names_distinct(machines: Seq<MachineModel>)
    ensures
        keys_of(maps_of(machines)).no_duplicates(),
{
    lemma_first_seen(names(machines));
    assert(keys_of(maps_of(machines)) =~= first_seen(names(machines)));
}

/// The filter that keeps every kind changes nothing.
pub proof fn lemma_filter_all(report: ReportModel)
    ensures
        filter_report(report, StatusFilter::All) == report,
{
    assert forall|i: int| 0 <= i < report.len() implies filter_statuses(
        report[i].1,
        StatusFilter::All,
    ) == report[i].1 by {
        lemma_filter_all_statuses(report[i].1);
    }
    assert(filter_report(report, StatusFilter::All) =~= report);
}

/// The filter that keeps every kind leaves the statuses of a machine as
/// they are.
pub proof fn lemma_filter_all_statuses(statuses: StatusesModel)
    ensures
        filter_statuses(statuses, StatusFilter::All) == statuses,
    decreases statuses.len(),
{
    reveal(Seq::filter);
    if statuses.len() > 0 {
        lemma_filter_all_statuses(statuses.drop_last());
        assert(statuses.drop_last().push(statuses.last()) =~= statuses);
    }
}

/// The comparison of a snapshot with itself, without a filter, reports no
/// status but `MissingInput`, `MissingOutput`, `Conflicting` and
/// `DuplicateRegistration`.
pub proof fn lemma_self_comparison(sources: Seq<RecipeSource>, i: int, j: int)
    requires
        comparison(sources, sources, StatusFilter::All) matches Ok(report) && 0 <= i < report.len()
            && 0 <= j < report[i].1.len(),
    ensures
        comparison(sources, sources, StatusFilter::All) matches Ok(report) && self_diff_status(
            report[i].1[j].0,
        ),
{
    let maps = maps_of(machine_source(sources)->0);
    lemma_maps_names_distinct(machine_source(sources)->0);
    lemma_filter_all(analysis(maps, maps));
    lemma_self_diff_report(maps, i, j);
}

/// Filtering the statuses of a machine leaves the records of a kind that
/// the filter keeps as they were, and leaves none of a kind that it drops.
pub proof fn lemma_filter_statuses_counts(
    statuses: StatusesModel,
    filter: StatusFilter,
    status: GTRecipeStatus,
)
    ensures
        kind_count(filter_statuses(statuses, filter), status) == if filter.keeps(status) {
            kind_count(statuses, status)
        } else {
            0
        },
        kind_entries(filter_statuses(statuses, filter), status) == if filter.keeps(status) {
            kind_entries(statuses, status)
        } else {
            0
        },
    decreases statuses.len(),
{
    reveal(Seq::filter);
    if statuses.len() > 0 {
        let rest = statuses.drop_last();
        let last = statuses.last();
        lemma_filter_statuses_counts(rest, filter, status);
        if filter.keeps(last.0) {
            assert(filter_statuses(statuses, filter).drop_last() =~= filter_statuses(rest, filter));
        }
    }
}

/// Filtering a report leaves the number of records of every kind that the
/// filter keeps as it was, and leaves no record and no entry of a kind that
/// it drops.
pub proof fn lemma_filter_report_counts(
    report: ReportModel,
    filter: StatusFilter,
    status: GTRecipeStatus,
)
    ensures
        kind_total(filter_report(report, filter), status) == if filter.keeps(status) {
            kind_total(report, status)
        } else {
            0
        },
        kind_mentions(filter_report(report, filter), status) == if filter.keeps(status) {
            kind_mentions(report, status)
        } else {
            0
        },
    decreases report.len(),
{
    if report.len() > 0 {
        lemma_filter_report_counts(report.drop_last(), filter, status);
        lemma_filter_statuses_counts(report.last().1, filter, status);
        assert(filter_report(report, filter).drop_last() =~= filter_report(
            report.drop_last(),
            filter,
        ));
    }
}

/// A filtered report lists every machine of the report, and of each only
/// entries of kinds that the filter keeps.
pub proof fn lemma_filter_report_entries(report: ReportModel, filter: StatusFilter, i: int, j: int)
    requires
        0 <= i < report.len(),
        0 <= j < filter_report(report, filter)[i].1.len(),
    ensures
        filter_report(report, filter).len() == report.len(),
        filter_report(report, filter)[i].0 == report[i].0,
        filter.keeps(filter_report(report, filter)[i].1[j].0),
        report[i].1.contains(filter_report(report, filter)[i].1[j]),
{
    let kept = filter_statuses(report[i].1, filter);
    report[i].1.lemma_filter_pred(kept_by(filter), j);
    assert(kept.contains(kept[j]));
    report[i].1.lemma_filter_contains_rev(kept_by(filter), kept[j]);
}

/// The test "is the line of a kind that `filter` keeps".
pub open spec fn line_kept_by(filter: StatusFilter) -> spec_fn((GTRecipeStatus, nat)) -> bool {
    |line: (GTRecipeStatus, nat)| filter.keeps(line.0)
}

/// The summary of a filtered report is the summary of the report without
/// the lines of the kinds that the filter drops: the other lines are the
/// same, with the same totals.
pub proof fn lemma_filter_report_summary(report: ReportModel, filter: StatusFilter)
    ensures
        summary_of(filter_report(report, filter)) == summary_of(report).filter(
            line_kept_by(filter),
        ),
{
    let kinds = all_kinds();
    let f = summary_line(report);
    let g = summary_line(filter_report(report, filter));
    let p = line_kept_by(filter);
    assert forall|status: GTRecipeStatus| #[trigger]
        g(status) == (match f(status) {
            Some(line) => if p(line) {
                Some(line)
            } else {
                None
            },
            None => None,
        }) by {
        lemma_filter_report_counts(report, filter, status);
    }
    lemma_filter_map_filter(kinds, f, g, p);
}

/// Filtering what `filter_map` gives is a `filter_map` too.
pub proof fn lemma_filter_map_filter<A, B>(
    s: Seq<A>,
    f: spec_fn(A) -> Option<B>,
    g: spec_fn(A) -> Option<B>,
    p: spec_fn(B) -> bool,
)
    requires
        forall|x: A| #[trigger]
            g(x) == (match f(x) {
                Some(y) => if p(y) {
                    Some(y)
                } else {
                    None
                },
                None => None,
            }),
    ensures
        s.filter_map(g) == s.filter_map(f).filter(p),
    decreases s.len(),
{
    reveal(Seq::filter);
    if s.len() > 0 {
        lemma_filter_map_filter(s.drop_last(), f, g, p);
        let rest = s.drop_last().filter_map(f);
        match f(s.last()) {
            Some(y) => {
                assert(rest + seq![y] =~= rest.push(y));
                rest.lemma_filter_push(y, p);
                let kept = s.drop_last().filter_map(g);
                assert(kept + seq![y] =~= kept.push(y));
            },
            None => {},
        }
    }
}

/// The places of the results of `filter_map`: any two results come, in the
/// same order, from two elements of the sequence.
pub proof fn lemma_filter_map_places<A, B>(
    s: Seq<A>,
    f: spec_fn(A) -> Option<B>,
    i: int,
    j: int,
) -> (at: (int, int))
    requires
        0 <= i <= j < s.filter_map(f).len(),
    ensures
        0 <= at.0 <= at.1 < s.len(),
        i < j ==> at.0 < at.1,
        f(s[at.0]) == Some(s.filter_map(f)[i]),
        f(s[at.1]) == Some(s.filter_map(f)[j]),
    decreases s.len(),
{
    let rest = s.drop_last();
    let out = s.filter_map(f);
    let last = s.len() - 1;
    if f(s.last()) is Some && j == out.len() - 1 {
        if i == j {
            (last, last)
        } else {
            let at = lemma_filter_map_places(rest, f, i, i);
            (at.0, last)
        }
    } else {
        let at = lemma_filter_map_places(rest, f, i, j);
        at
    }
}

/// The statuses of a machine list the kinds in their order, each at most
/// once, and the records of each kind in sorted order.
pub proof fn lemma_statuses_are_ordered(raw: RawModel, i: int, j: int)
    requires
        0 <= i < j < statuses_of(raw).len(),
    ensures
        statuses_of(raw)[i].0.rank() < statuses_of(raw)[j].0.rank(),
        sorted_by(statuses_of(raw)[i].1, leq::<RecipeBeforeAfter>()),
        sorted_by(statuses_of(raw)[j].1, leq::<RecipeBeforeAfter>()),
{
    let at = lemma_filter_map_places(all_kinds(), kind_entry(raw), i, j);
    lemma_leq_total::<RecipeBeforeAfter>();
    records_of_kind(raw, statuses_of(raw)[i].0).lemma_sort_by_ensures(leq::<RecipeBeforeAfter>());
    records_of_kind(raw, statuses_of(raw)[j].0).lemma_sort_by_ensures(leq::<RecipeBeforeAfter>());
}

/// A report lists its machines by name, in the order of strings, each name
/// once.
pub proof fn lemma_report_is_ordered_by_name(before: MapsModel, after: MapsModel, i: int, j: int)
    requires
        keys_of(after).no_duplicates(),
        0 <= i < j < analysis(before, after).len(),
    ensures
        String::rel(analysis(before, after)[i].0, analysis(before, after)[j].0) is Less,
{
    let f = machine_entry(before);
    let out = after.filter_map(f);
    let sorted = analysis(before, after);
    let order = leq::<(String, StatusMap)>();
    assert forall|p: int, q: int| 0 <= p < q < out.len() implies out[p].0 != out[q].0 by {
        let at = lemma_filter_map_places(after, f, p, q);
        assert(keys_of(after)[at.0] == out[p].0);
        assert(keys_of(after)[at.1] == out[q].0);
    }
    assert(out.no_duplicates());
    lemma_leq_total::<(String, StatusMap)>();
    out.lemma_sort_by_ensures(order);
    out.lemma_multiset_has_no_duplicates();
    sorted.lemma_multiset_has_no_duplicates_conv();
    assert(order(sorted[i], sorted[j]));
    String::lemma_rel(sorted[i].0, sorted[j].0, sorted[i].0);
    if sorted[i].0 == sorted[j].0 {
        lemma_sort_keeps_elements::<(String, StatusMap)>(out, sorted[i]);
        lemma_sort_keeps_elements::<(String, StatusMap)>(out, sorted[j]);
        assert(sorted.contains(sorted[i]) && sorted.contains(sorted[j]));
        let p = choose|p: int| 0 <= p < out.len() && out[p] == sorted[i];
        let q = choose|q: int| 0 <= q < out.len() && out[q] == sorted[j];
        assert(p == q);
    }
}

/// What the index of a machine holds under a signature: the recipes of the
/// machine that have the signature, in their order, where there is one.
pub proof fn lemma_index_lookup(recipes: Seq<RecipeModel>, key: KeyModel)
    ensures
        keys_of(index_of(recipes)).no_duplicates(),
        lookup(index_of(recipes), key) == if recipes.filter(under(key)).len() > 0 {
            Some(recipes.filter(under(key)))
        } else {
            None
        },
{
    let keys = signatures(recipes);
    let seen = first_seen(keys);
    let index = index_of(recipes);
    let group = recipes.filter(under(key));
    lemma_first_seen(keys);
    assert(keys_of(index) =~= seen);
    lemma_position(index, key);
    if group.len() > 0 {
        recipes.lemma_filter_pred(under(key), 0);
        assert(group.contains(group[0]));
        recipes.lemma_filter_contains_rev(under(key), group[0]);
        let i = choose|i: int| 0 <= i < recipes.len() && recipes[i] == group[0];
        assert(keys[i] == key);
        assert(keys.contains(key));
        let p = choose|p: int| 0 <= p < seen.len() && seen[p] == key;
        assert(index[p].0 == key);
    } else {
        if position(index, key) is Some {
            let p = position(index, key)->0;
            assert(seen[p] == key);
            assert(seen.contains(key));
            assert(keys.contains(key));
            let i = choose|i: int| 0 <= i < keys.len() && keys[i] == key;
            recipes.lemma_filter_contains(under(key), i);
        }
    }
}

/// Whether two filters keep the same kinds.
pub open spec fn same_choice(a: StatusFilter, b: StatusFilter) -> bool {
    forall|status: GTRecipeStatus| a.keeps(status) == b.keeps(status)
}

/// Two filters that keep the same kinds filter alike.
pub proof fn lemma_filter_by_choice(statuses: StatusesModel, a: StatusFilter, b: StatusFilter)
    requires
        same_choice(a, b),
    ensures
        filter_statuses(statuses, a) == filter_statuses(statuses, b),
    decreases statuses.len(),
{
    reveal(Seq::filter);
    if statuses.len() > 0 {
        lemma_filter_by_choice(statuses.drop_last(), a, b);
        assert(a.keeps(statuses.last().0) == b.keeps(statuses.last().0));
    }
}

/// The comparison of two snapshots is a function of the machine recipes of
/// the two and of the kinds that the filter keeps: nothing else has a part
/// in the report, so that comparing the same snapshots again gives the same
/// report.
pub proof fn lemma_comparison_is_determined(
    before: Seq<RecipeSource>,
    after: Seq<RecipeSource>,
    filter: StatusFilter,
    before_again: Seq<RecipeSource>,
    after_again: Seq<RecipeSource>,
    filter_again: StatusFilter,
)
    requires
        machine_source(before) == machine_source(before_again),
        machine_source(after) == machine_source(after_again),
        same_choice(filter, filter_again),
    ensures
        comparison(before, after, filter) == comparison(before_again, after_again, filter_again),
{
    if machine_source(before) is Some && machine_source(after) is Some {
        let report = analysis(
            maps_of(machine_source(before)->0),
            maps_of(machine_source(after)->0),
        );
        assert forall|i: int| 0 <= i < report.len() implies filter_statuses(report[i].1, filter)
            == filter_statuses(report[i].1, filter_again) by {
            lemma_filter_by_choice(report[i].1, filter, filter_again);
        }
        assert(filter_report(report, filter) =~= filter_report(report, filter_again));
    }
}

} // verus!
