//! What is done with a report: dropping status kinds from it, and counting
//! its records.

use crate::analysis::{all_kinds, Report, ReportModel, StatusMap, StatusesModel};
use crate::error::AnalysisError;
use crate::grouping::{group_pairs, grouped, keyed_by};
use crate::record::RecordModel;
use crate::status::{GTRecipeStatus, STATUS_COUNT};
use vstd::prelude::*;

verus! {

/// Which status kinds a report is to keep.
#[derive(Debug, PartialEq, Eq)]
pub enum StatusFilter {
    /// Every kind.
    All,
    /// Every kind but the listed ones.
    Deny(Vec<GTRecipeStatus>),
    /// Only the listed kinds.
    Allow(Vec<GTRecipeStatus>),
}

impl StatusFilter {
    /// Whether the filter keeps the records of kind `status`.
    pub open spec fn keeps(self, status: GTRecipeStatus) -> bool {
        match self {
            StatusFilter::All => true,
            StatusFilter::Deny(kinds) => !kinds@.contains(status),
            StatusFilter::Allow(kinds) => kinds@.contains(status),
        }
    }

    /// The filter that a list of kinds to drop and a list of kinds to keep
    /// ask for. At most one of the two may hold anything.
    pub fn new(blacklist: Vec<GTRecipeStatus>, whitelist: Vec<GTRecipeStatus>) -> (r: Result<
        StatusFilter,
        AnalysisError,
    >)
        ensures
            match r {
                Ok(filter) => if blacklist.len() > 0 {
                    whitelist.len() == 0 && filter == StatusFilter::Deny(blacklist)
                } else if whitelist.len() > 0 {
                    filter == StatusFilter::Allow(whitelist)
                } else {
                    filter == StatusFilter::All
                },
                Err(e) => e == AnalysisError::ConflictingFilters && blacklist.len() > 0
                    && whitelist.len() > 0,
            },
    {
        if blacklist.len() > 0 && whitelist.len() > 0 {
            Err(AnalysisError::ConflictingFilters)
        } else if blacklist.len() > 0 {
            Ok(StatusFilter::Deny(blacklist))
        } else if whitelist.len() > 0 {
            Ok(StatusFilter::Allow(whitelist))
        } else {
            Ok(StatusFilter::All)
        }
    }

    /// Whether the filter keeps the records of kind `status`.
    pub fn keep(&self, status: GTRecipeStatus) -> (r: bool)
        ensures
            r == self.keeps(status),
    {
        match self {
            StatusFilter::All => true,
            StatusFilter::Deny(kinds) => !listed(kinds, status),
            StatusFilter::Allow(kinds) => listed(kinds, status),
        }
    }
}

/// Whether `kinds` holds `status`.
pub fn listed(kinds: &Vec<GTRecipeStatus>, status: GTRecipeStatus) -> (r: bool)
    ensures
        r == kinds@.contains(status),
{
    let mut i: usize = 0;
    while i < kinds.len()
        invariant
            i <= kinds.len(),
            forall|k: int| 0 <= k < i ==> kinds@[k] != status,
        decreases kinds.len() - i,
    {
        if kinds[i] == status {
            return true;
        }
        i = i + 1;
    }
    false
}

/// The test "is of a kind that `filter` keeps".
pub open spec fn kept_by(filter: StatusFilter) -> spec_fn(
    (GTRecipeStatus, Seq<RecordModel>),
) -> bool {
    |e: (GTRecipeStatus, Seq<RecordModel>)| filter.keeps(e.0)
}

/// The statuses of a machine without the kinds that `filter` drops.
pub open spec fn filter_statuses(statuses: StatusesModel, filter: StatusFilter) -> StatusesModel {
    statuses.filter(kept_by(filter))
}

/// The report with the statuses of every machine filtered. Every machine
/// stays, also one that keeps no status.
pub open spec fn filter_report(report: ReportModel, filter: StatusFilter) -> ReportModel {
    report.map_values(|m: (Seq<char>, StatusesModel)| (m.0, filter_statuses(m.1, filter)))
}

/// The number of records of kind `status` in the statuses of one machine.
pub open spec fn kind_count(statuses: StatusesModel, status: GTRecipeStatus) -> nat
    decreases statuses.len(),
{
    if statuses.len() == 0 {
        0
    } else {
        kind_count(statuses.drop_last(), status) + if statuses.last().0 == status {
            statuses.last().1.len()
        } else {
            0
        }
    }
}

/// The number of entries of kind `status` in the statuses of one machine.
pub open spec fn kind_entries(statuses: StatusesModel, status: GTRecipeStatus) -> nat
    decreases statuses.len(),
{
    if statuses.len() == 0 {
        0
    } else {
        kind_entries(statuses.drop_last(), status) + if statuses.last().0 == status {
            1nat
        } else {
            0
        }
    }
}

/// The number of records of kind `status` in all machines of a report.
pub open spec fn kind_total(report: ReportModel, status: GTRecipeStatus) -> nat
    decreases report.len(),
{
    if report.len() == 0 {
        0
    } else {
        kind_total(report.drop_last(), status) + kind_count(report.last().1, status)
    }
}

/// The number of entries of kind `status` in all machines of a report.
pub open spec fn kind_mentions(report: ReportModel, status: GTRecipeStatus) -> nat
    decreases report.len(),
{
    if report.len() == 0 {
        0
    } else {
        kind_mentions(report.drop_last(), status) + kind_entries(report.last().1, status)
    }
}

/// The line of a status kind in the summary of a report: the number of its
/// records, where some machine lists the kind.
pub open spec fn summary_line(report: ReportModel) -> spec_fn(GTRecipeStatus) -> Option<
    (GTRecipeStatus, nat),
> {
    |status: GTRecipeStatus|
        if kind_mentions(report, status) > 0 {
            Some((status, kind_total(report, status)))
        } else {
            None
        }
}

/// The summary of a report: for every status kind that some machine lists,
/// in the order of the kinds, the number of records of that kind.
pub open spec fn summary_of(report: ReportModel) -> Seq<(GTRecipeStatus, nat)> {
    all_kinds().filter_map(summary_line(report))
}

/// The sum of the numbers of `s`.
pub open spec fn sum_of(s: Seq<usize>) -> nat
    decreases s.len(),
{
    if s.len() == 0 {
        0
    } else {
        sum_of(s.drop_last()) + s.last() as nat
    }
}

/// What the totals of a summary stand for.
pub open spec fn summary_model(lines: Seq<(GTRecipeStatus, u128)>) -> Seq<(GTRecipeStatus, nat)> {
    lines.map_values(|e: (GTRecipeStatus, u128)| (e.0, e.1 as nat))
}

/// Adds up the numbers of `counts`.
pub fn sum_counts(counts: &Vec<usize>) -> (total: u128)
    ensures
        total == sum_of(counts@),
{
    let mut total: u128 = 0;
    let mut i: usize = 0;
    assert(counts@.take(0) =~= Seq::empty());
    while i < counts.len()
        invariant
            i <= counts.len(),
            total == sum_of(counts@.take(i as int)),
            total <= i * usize::MAX,
        decreases counts.len() - i,
    {
        assert(counts@.take(i + 1).drop_last() =~= counts@.take(i as int));
        assert(i * usize::MAX + usize::MAX <= u128::MAX) by (nonlinear_arith)
            requires
                i < usize::MAX,
                usize::MAX <= 0xffff_ffff_ffff_ffff,
        ;
        assert((i + 1) * usize::MAX == i * usize::MAX + usize::MAX) by (nonlinear_arith);
        total = total + counts[i] as u128;
        i = i + 1;
    }
    assert(counts@.take(i as int) =~= counts@);
    total
}

/// Adding a pair to a list adds its value to the group of its key and
/// leaves the other groups as they were.
pub proof fn lemma_grouped_push<V>(pairs: Seq<(u8, V)>, pair: (u8, V), k: u8)
    ensures
        grouped(pairs.push(pair), k) == if pair.0 == k {
            grouped(pairs, k).push(pair.1)
        } else {
            grouped(pairs, k)
        },
{
    pairs.lemma_filter_push(pair, keyed_by(k));
    if pair.0 == k {
        assert(grouped(pairs.push(pair), k) =~= grouped(pairs, k).push(pair.1));
    }
}

impl StatusMap {
    /// Drops the entries of the kinds that `filter` does not keep.
    pub fn retain(&mut self, filter: &StatusFilter)
        ensures
            final(self)@ == filter_statuses(old(self)@, *filter),
    {
        let ghost start = self.entries.deep_view();
        let ghost keep = kept_by(*filter);
        let ghost mut seen: int = 0;
        let mut i: usize = 0;
        proof {
            reveal(Seq::filter);
            assert(start.take(0) =~= Seq::empty());
            assert(start.take(0).filter(keep) + start.skip(0) =~= start);
        }
        while i < self.entries.len()
            invariant
                0 <= seen <= start.len(),
                keep == kept_by(*filter),
                i == start.take(seen).filter(keep).len(),
                self.entries.deep_view() == start.take(seen).filter(keep) + start.skip(seen),
            decreases start.len() - seen,
        {
            let ghost held = self.entries.deep_view();
            proof {
                assert(held[i as int] == start.skip(seen)[0]);
                assert(start.take(seen + 1) =~= start.take(seen).push(start[seen]));
                start.take(seen).lemma_filter_push(start[seen], keep);
            }
            if filter.keep(self.entries[i].0) {
                proof {
                    assert(held =~= start.take(seen + 1).filter(keep) + start.skip(seen + 1));
                    seen = seen + 1;
                }
                i = i + 1;
            } else {
                self.entries.remove(i);
                proof {
                    assert(self.entries.deep_view() =~= held.remove(i as int));
                    assert(held.remove(i as int) =~= start.take(seen + 1).filter(keep) + start.skip(
                        seen + 1,
                    ));
                    seen = seen + 1;
                }
            }
        }
        proof {
            assert(start.skip(seen).len() == 0);
            assert(seen == start.len());
            assert(start.take(seen) =~= start);
            assert(start.filter(keep) + start.skip(seen) =~= start.filter(keep));
        }
    }
}

impl Report {
    /// Drops from the statuses of every machine the kinds that `filter`
    /// does not keep.
    pub fn retain(&mut self, filter: &StatusFilter)
        ensures
            final(self)@ == filter_report(old(self)@, *filter),
    {
        let ghost start = self.machines.deep_view();
        let mut i: usize = 0;
        while i < self.machines.len()
            invariant
                i <= self.machines.len(),
                self.machines.len() == start.len(),
                forall|k: int|
                    0 <= k < i ==> #[trigger] self.machines.deep_view()[k] == (
                        start[k].0,
                        filter_statuses(start[k].1, *filter),
                    ),
                forall|k: int|
                    i <= k < start.len() ==> #[trigger] self.machines.deep_view()[k] == start[k],
            decreases self.machines.len() - i,
        {
            let ghost held = self.machines.deep_view();
            self.machines[i].1.retain(filter);
            assert(self.machines.deep_view() =~= held.update(
                i as int,
                (held[i as int].0, filter_statuses(held[i as int].1, *filter)),
            ));
            i = i + 1;
        }
        assert(self.machines.deep_view() =~= filter_report(start, *filter));
    }

    /// Counts the records of the report by status kind.
    pub fn summary(&self) -> (lines: Vec<(GTRecipeStatus, u128)>)
        ensures
            summary_model(lines@) == summary_of(self@),
    {
        let ghost report = self@;
        let mut pairs: Vec<(u8, usize)> = Vec::new();
        let mut i: usize = 0;
        assert(report.take(0) =~= Seq::empty());
        proof {
            reveal(Seq::filter);
            assert forall|k: u8| k < STATUS_COUNT implies sum_of(#[trigger] grouped(pairs@, k))
                == 0 && grouped(pairs@, k).len() == 0 by {
                assert(grouped(pairs@, k) =~= Seq::empty());
            }
        }
        while i < self.machines.len()
            invariant
                i <= self.machines.len(),
                report == self@,
                forall|k: u8|
                    k < STATUS_COUNT ==> sum_of(#[trigger] grouped(pairs@, k)) == kind_total(
                        report.take(i as int),
                        GTRecipeStatus::of_rank(k),
                    ),
                forall|k: u8|
                    k < STATUS_COUNT ==> (#[trigger] grouped(pairs@, k)).len() == kind_mentions(
                        report.take(i as int),
                        GTRecipeStatus::of_rank(k),
                    ),
            decreases self.machines.len() - i,
        {
            let statuses = &self.machines[i].1;
            let ghost entries = statuses@;
            let ghost done = report.take(i as int);
            let mut j: usize = 0;
            assert(entries == report[i as int].1);
            assert(entries.take(0) =~= Seq::empty());
            while j < statuses.entries.len()
                invariant
                    j <= statuses.entries.len(),
                    entries == statuses@,
                    forall|k: u8|
                        k < STATUS_COUNT ==> sum_of(#[trigger] grouped(pairs@, k)) == kind_total(
                            done,
                            GTRecipeStatus::of_rank(k),
                        ) + kind_count(entries.take(j as int), GTRecipeStatus::of_rank(k)),
                    forall|k: u8|
                        k < STATUS_COUNT ==> (#[trigger] grouped(pairs@, k)).len() == kind_mentions(
                            done,
                            GTRecipeStatus::of_rank(k),
                        ) + kind_entries(entries.take(j as int), GTRecipeStatus::of_rank(k)),
                decreases statuses.entries.len() - j,
            {
                let ghost held = pairs@;
                let rank = statuses.entries[j].0.index();
                let count = statuses.entries[j].1.len();
                pairs.push((rank, count));
                proof {
                    assert(entries.take(j + 1).drop_last() =~= entries.take(j as int));
                    assert(entries.take(j + 1).last() == entries[j as int]);
                    assert(entries[j as int].1.len() == count);
                    assert forall|k: u8| k < STATUS_COUNT implies sum_of(
                        #[trigger] grouped(pairs@, k),
                    ) == kind_total(done, GTRecipeStatus::of_rank(k)) + kind_count(
                        entries.take(j + 1),
                        GTRecipeStatus::of_rank(k),
                    ) && grouped(pairs@, k).len() == kind_mentions(
                        done,
                        GTRecipeStatus::of_rank(k),
                    ) + kind_entries(entries.take(j + 1), GTRecipeStatus::of_rank(k)) by {
                        lemma_grouped_push(held, (rank, count), k);
                        assert(grouped(held, k).push(count).drop_last() =~= grouped(held, k));
                        assert((entries[j as int].0 == GTRecipeStatus::of_rank(k)) <==> rank == k);
                    }
                }
                j = j + 1;
            }
            proof {
                assert(entries.take(j as int) =~= entries);
                assert(report.take(i + 1).drop_last() =~= done);
                assert(report.take(i + 1).last() == report[i as int]);
            }
            i = i + 1;
        }
        assert(report.take(i as int) =~= report);
        let ghost all = pairs@;
        let ghost f = summary_line(report);
        let groups = group_pairs(pairs);
        let mut lines: Vec<(GTRecipeStatus, u128)> = Vec::new();
        let mut k: u8 = 0;
        assert(all_kinds().take(0) =~= Seq::empty());
        assert(summary_model(lines@) =~= all_kinds().take(0).filter_map(f));
        while k < STATUS_COUNT
            invariant
                k <= STATUS_COUNT,
                f == summary_line(report),
                summary_model(lines@) == all_kinds().take(k as int).filter_map(f),
                forall|j: u8| #[trigger] groups@.contains_key(j) <==> grouped(all, j).len() > 0,
                forall|j: u8|
                    groups@.contains_key(j) ==> (#[trigger] groups@[j])@ == grouped(all, j),
                forall|j: u8|
                    j < STATUS_COUNT ==> sum_of(#[trigger] grouped(all, j)) == kind_total(
                        report,
                        GTRecipeStatus::of_rank(j),
                    ),
                forall|j: u8|
                    j < STATUS_COUNT ==> (#[trigger] grouped(all, j)).len() == kind_mentions(
                        report,
                        GTRecipeStatus::of_rank(j),
                    ),
            decreases STATUS_COUNT - k,
        {
            let ghost held = summary_model(lines@);
            let ghost status = GTRecipeStatus::of_rank(k);
            proof {
                all_kinds().lemma_filter_map_take_succ(f, k as int);
                assert(all_kinds()[k as int] == status);
                assert(held + Seq::empty() =~= held);
            }
            match (groups.get(&k), GTRecipeStatus::from_index(k)) {
                (Some(counts), Some(kind)) => {
                    let total = sum_counts(counts);
                    lines.push((kind, total));
                    assert(summary_model(lines@) =~= held + seq![f(status)->0]);
                },
                _ => {},
            }
            k = k + 1;
        }
        assert(all_kinds().take(k as int) =~= all_kinds());
        lines
    }
}

} // verus!
