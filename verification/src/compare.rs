//! The comparison of two snapshots from end to end.

use crate::analysis::{analysis, analyze, Report, ReportModel};
use crate::error::AnalysisError;
use crate::index::maps_of;
use crate::report::{filter_report, StatusFilter};
use crate::snapshot::{machine_source, RecipeSource, Root};
use vstd::prelude::*;

verus! {

/// The filtered report on two snapshots, given by their sources. Both must
/// hold a source of machine recipes. Every machine of the later snapshot is
/// compared with the machine of its name in the earlier one, or with no
/// recipes where there is none.
pub open spec fn comparison(
    before: Seq<RecipeSource>,
    after: Seq<RecipeSource>,
    filter: StatusFilter,
) -> Result<ReportModel, AnalysisError> {
    match (machine_source(before), machine_source(after)) {
        (Some(b), Some(a)) => Ok(filter_report(analysis(maps_of(b), maps_of(a)), filter)),
        _ => Err(AnalysisError::MissingMachineSource),
    }
}

/// Indexes two snapshots, analyses them and filters the report. To find
/// the conflicts within one snapshot, compare it with itself.
pub fn compare_snapshots(before: &Root, after: &Root, filter: &StatusFilter) -> (r: Result<
    Report,
    AnalysisError,
>)
    ensures
        match r {
            Ok(report) => comparison(before.sources@, after.sources@, *filter) == Ok::<
                ReportModel,
                AnalysisError,
            >(report@),
            Err(e) => comparison(before.sources@, after.sources@, *filter) == Err::<
                ReportModel,
                AnalysisError,
            >(e),
        },
{
    let before_maps = match before.get_gt_recipes() {
        Ok(maps) => maps,
        Err(e) => {
            return Err(e);
        },
    };
    let after_maps = match after.get_gt_recipes() {
        Ok(maps) => maps,
        Err(e) => {
            return Err(e);
        },
    };
    let mut report = analyze(&before_maps, &after_maps);
    report.retain(filter);
    Ok(report)
}

} // verus!
