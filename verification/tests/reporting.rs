use recipe_diff::analysis::{Report, StatusMap};
use recipe_diff::error::AnalysisError;
use recipe_diff::recipe::GTRecipe;
use recipe_diff::record::RecipeBeforeAfter;
use recipe_diff::report::{listed, sum_counts, StatusFilter};
use recipe_diff::status::GTRecipeStatus;

fn record(n: i32) -> RecipeBeforeAfter {
    RecipeBeforeAfter::Same {
        recipes: vec![GTRecipe {
            enabled: true,
            duration: n,
            eut: 1,
            item_inputs: vec![],
            fluid_inputs: vec![],
            item_outputs: vec![],
            fluid_outputs: vec![],
        }],
    }
}

fn records(n: usize) -> Vec<RecipeBeforeAfter> {
    (0..n).map(|i| record(i as i32)).collect()
}

fn sample() -> Report {
    Report {
        machines: vec![
            (
                "Assembler".to_string(),
                StatusMap {
                    entries: vec![
                        (GTRecipeStatus::Added, records(3)),
                        (GTRecipeStatus::Removed, records(1)),
                        (GTRecipeStatus::MissingInput, records(2)),
                    ],
                },
            ),
            ("Furnace".to_string(), StatusMap { entries: vec![(GTRecipeStatus::Added, records(4))] }),
            (
                "Mixer".to_string(),
                StatusMap {
                    entries: vec![
                        (GTRecipeStatus::Removed, records(5)),
                        (GTRecipeStatus::Conflicting, records(1)),
                    ],
                },
            ),
        ],
    }
}

#[test]
fn both_filters_at_once_are_refused() {
    assert_eq!(
        StatusFilter::new(vec![GTRecipeStatus::Added], vec![GTRecipeStatus::Removed]),
        Err(AnalysisError::ConflictingFilters)
    );
    assert_eq!(
        StatusFilter::new(vec![GTRecipeStatus::Added], vec![GTRecipeStatus::Added]),
        Err(AnalysisError::ConflictingFilters)
    );
}

#[test]
fn one_filter_or_none_is_accepted() {
    assert_eq!(StatusFilter::new(vec![], vec![]), Ok(StatusFilter::All));
    assert_eq!(
        StatusFilter::new(vec![GTRecipeStatus::Added, GTRecipeStatus::Removed], vec![]),
        Ok(StatusFilter::Deny(vec![GTRecipeStatus::Added, GTRecipeStatus::Removed]))
    );
    assert_eq!(
        StatusFilter::new(vec![], vec![GTRecipeStatus::Conflicting]),
        Ok(StatusFilter::Allow(vec![GTRecipeStatus::Conflicting]))
    );
}

#[test]
fn filters_keep_and_drop_kinds() {
    let deny = StatusFilter::Deny(vec![GTRecipeStatus::Added, GTRecipeStatus::Removed]);
    let allow = StatusFilter::Allow(vec![GTRecipeStatus::Added, GTRecipeStatus::Removed]);
    assert!(StatusFilter::All.keep(GTRecipeStatus::Added));
    assert!(!deny.keep(GTRecipeStatus::Added));
    assert!(!deny.keep(GTRecipeStatus::Removed));
    assert!(deny.keep(GTRecipeStatus::Conflicting));
    assert!(allow.keep(GTRecipeStatus::Added));
    assert!(allow.keep(GTRecipeStatus::Removed));
    assert!(!allow.keep(GTRecipeStatus::Conflicting));
    assert!(listed(&vec![GTRecipeStatus::Added], GTRecipeStatus::Added));
    assert!(!listed(&vec![GTRecipeStatus::Added], GTRecipeStatus::Removed));
    assert!(!listed(&vec![], GTRecipeStatus::Removed));
}

#[test]
fn blacklist_removes_a_kind_from_every_machine() {
    let mut report = sample();
    report.retain(&StatusFilter::Deny(vec![GTRecipeStatus::Added]));
    assert_eq!(
        report,
        Report {
            machines: vec![
                (
                    "Assembler".to_string(),
                    StatusMap {
                        entries: vec![
                            (GTRecipeStatus::Removed, records(1)),
                            (GTRecipeStatus::MissingInput, records(2)),
                        ],
                    },
                ),
                // a machine stays, also with nothing left to say of it
                ("Furnace".to_string(), StatusMap { entries: vec![] }),
                (
                    "Mixer".to_string(),
                    StatusMap {
                        entries: vec![
                            (GTRecipeStatus::Removed, records(5)),
                            (GTRecipeStatus::Conflicting, records(1)),
                        ],
                    },
                ),
            ],
        }
    );
}

#[test]
fn blacklist_leaves_the_counts_of_other_kinds() {
    let before = sample().summary();
    let mut report = sample();
    report.retain(&StatusFilter::Deny(vec![GTRecipeStatus::Added]));
    let after = report.summary();
    assert_eq!(
        before,
        vec![
            (GTRecipeStatus::Added, 7),
            (GTRecipeStatus::Removed, 6),
            (GTRecipeStatus::Conflicting, 1),
            (GTRecipeStatus::MissingInput, 2),
        ]
    );
    assert_eq!(
        after,
        vec![(GTRecipeStatus::Removed, 6), (GTRecipeStatus::Conflicting, 1), (GTRecipeStatus::MissingInput, 2)]
    );
}

#[test]
fn whitelist_keeps_only_the_listed_kinds() {
    let mut report = sample();
    report.retain(&StatusFilter::Allow(vec![GTRecipeStatus::Removed, GTRecipeStatus::StatsChanged]));
    assert_eq!(
        report,
        Report {
            machines: vec![
                ("Assembler".to_string(), StatusMap { entries: vec![(GTRecipeStatus::Removed, records(1))] }),
                ("Furnace".to_string(), StatusMap { entries: vec![] }),
                ("Mixer".to_string(), StatusMap { entries: vec![(GTRecipeStatus::Removed, records(5))] }),
            ],
        }
    );
    assert_eq!(report.summary(), vec![(GTRecipeStatus::Removed, 6)]);
}

#[test]
fn no_filter_changes_nothing() {
    let mut report = sample();
    report.retain(&StatusFilter::All);
    assert_eq!(report, sample());
}

#[test]
fn status_map_is_filtered_in_place() {
    let mut statuses = StatusMap {
        entries: vec![
            (GTRecipeStatus::Added, records(1)),
            (GTRecipeStatus::Removed, records(2)),
            (GTRecipeStatus::Added, records(3)),
            (GTRecipeStatus::Conflicting, records(4)),
        ],
    };
    statuses.retain(&StatusFilter::Deny(vec![GTRecipeStatus::Added]));
    assert_eq!(
        statuses.entries,
        vec![(GTRecipeStatus::Removed, records(2)), (GTRecipeStatus::Conflicting, records(4))]
    );
    statuses.retain(&StatusFilter::Allow(vec![]));
    assert!(statuses.entries.is_empty());
}

#[test]
fn summary_of_an_empty_report() {
    assert_eq!(Report { machines: vec![] }.summary(), vec![]);
    let only_names = Report { machines: vec![("M".to_string(), StatusMap { entries: vec![] })] };
    assert_eq!(only_names.summary(), vec![]);
}

#[test]
fn summary_lists_kinds_in_their_order() {
    let report = Report {
        machines: vec![
            (
                "A".to_string(),
                StatusMap {
                    entries: vec![
                        (GTRecipeStatus::MissingOutputCreated, records(1)),
                        (GTRecipeStatus::Added, records(2)),
                    ],
                },
            ),
            ("B".to_string(), StatusMap { entries: vec![(GTRecipeStatus::DuplicateRegistration, records(3))] }),
        ],
    };
    assert_eq!(
        report.summary(),
        vec![
            (GTRecipeStatus::Added, 2),
            (GTRecipeStatus::DuplicateRegistration, 3),
            (GTRecipeStatus::MissingOutputCreated, 1),
        ]
    );
}

#[test]
fn summary_counts_a_listed_kind_without_records() {
    let report = Report {
        machines: vec![("A".to_string(), StatusMap { entries: vec![(GTRecipeStatus::Removed, vec![])] })],
    };
    assert_eq!(report.summary(), vec![(GTRecipeStatus::Removed, 0)]);
}

#[test]
fn counts_are_added_without_overflow() {
    assert_eq!(sum_counts(&vec![]), 0);
    assert_eq!(sum_counts(&vec![1, 2, 3]), 6);
    assert_eq!(sum_counts(&vec![usize::MAX, usize::MAX, 2]), 2 * (usize::MAX as u128) + 2);
}
