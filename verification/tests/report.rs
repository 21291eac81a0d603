//! Reports.

use container_image_pruner::domain::plan::{
    DeleteReason, KeepReason, KeptVersion, PlannedDelete, PrunePlan,
};
use container_image_pruner::report::{
    annotations, delete_reason_str, github_outputs, keep_reason_str, keep_records, planned_report,
    status_word, step_summary_markdown, PackageReport, PackageStatus, Summary,
};
use container_image_pruner::time::Timestamp;

fn report(package: &str, status: PackageStatus, message: Option<&str>) -> PackageReport {
    PackageReport {
        package: package.to_string(),
        status,
        kept: 12,
        planned_delete: 3,
        deleted: 1,
        message: message.map(|m| m.to_string()),
        deletes: vec![],
        keeps: vec![],
    }
}

fn summary(packages: Vec<PackageReport>) -> Summary {
    Summary { dry_run: false, rate_limited: false, aborted: None, packages }
}

#[test]
fn worst_status_and_exit_code() {
    for (statuses, worst, word, code) in [
        (vec![], PackageStatus::Clean, "clean", 0),
        (vec![PackageStatus::Clean, PackageStatus::Clean], PackageStatus::Clean, "clean", 0),
        (vec![PackageStatus::Clean, PackageStatus::Degraded, PackageStatus::Clean], PackageStatus::Degraded, "degraded", 2),
        (vec![PackageStatus::Errored, PackageStatus::Degraded, PackageStatus::Clean], PackageStatus::Errored, "errored", 2),
        (vec![PackageStatus::Degraded, PackageStatus::Errored], PackageStatus::Errored, "errored", 2),
    ] {
        let s = summary(statuses.into_iter().map(|st| report("p", st, None)).collect());
        assert_eq!(s.worst_status(), worst);
        assert_eq!(s.status_word(), word);
        assert_eq!(s.exit_code(), code);
    }
    let cut = Summary { rate_limited: true, ..summary(vec![report("p", PackageStatus::Clean, None)]) };
    assert_eq!((cut.status_word(), cut.exit_code()), ("degraded", 2));
    let errored = Summary { rate_limited: true, ..summary(vec![report("p", PackageStatus::Errored, None)]) };
    assert_eq!((errored.status_word(), errored.exit_code()), ("errored", 2));
    let aborted = Summary { aborted: Some("x".to_string()), ..summary(vec![report("p", PackageStatus::Errored, None)]) };
    assert_eq!((aborted.status_word(), aborted.exit_code()), ("aborted", 2));
}

#[test]
fn totals_and_their_limits() {
    let s = summary(vec![
        report("a", PackageStatus::Clean, None),
        report("b", PackageStatus::Clean, None),
    ]);
    assert_eq!((s.total_kept(), s.total_planned_delete(), s.total_deleted()), (24, 6, 2));
    assert!(s.has_totals());
    let mut big = s.clone();
    big.packages[0].kept = usize::MAX;
    assert!(!big.has_totals());
    big.packages[1].kept = 0;
    assert!(big.has_totals());
    assert_eq!(big.total_kept(), usize::MAX);
}

#[test]
fn step_summary_of_a_dry_run() {
    let mut s = summary(vec![report("pkg", PackageStatus::Clean, None)]);
    s.dry_run = true;
    assert_eq!(
        step_summary_markdown(&s),
        "### container-image-pruner\n\n\
         **Mode:** Dry run — nothing was deleted (plan only)  \n\
         \n\
         | Package | Status | Kept | Planned | Planned |\n\
         |---|---|---:|---:|---:|\n\
         | pkg | ok | 12 | 3 | 1 |\n\
         \n\
         **Total:** kept 12, planned 3, deleted 1 across 1 package(s).\n"
    );
}

#[test]
fn step_summary_with_everything() {
    let mut s = summary(vec![
        report("a", PackageStatus::Degraded, Some("why")),
        report("b", PackageStatus::Clean, None),
        report("c", PackageStatus::Errored, Some("gone")),
    ]);
    s.rate_limited = true;
    s.aborted = Some("too many".to_string());
    assert_eq!(
        step_summary_markdown(&s),
        "### container-image-pruner\n\n\
         **Mode:** Execute  \n\
         **Aborted:** too many  \n\
         **Note:** cut short by the GitHub rate limit — safe to re-run (converges).  \n\
         \n\
         | Package | Status | Kept | Planned | Deleted |\n\
         |---|---|---:|---:|---:|\n\
         | a | DEGRADED | 12 | 3 | 1 |\n\
         | b | ok | 12 | 3 | 1 |\n\
         | c | ERROR | 12 | 3 | 1 |\n\
         \n\
         **Total:** kept 36, planned 9, deleted 3 across 3 package(s).\n\
         \n\
         **Notes:**\n\
         - **a**: why\n\
         - **c**: gone\n"
    );
    assert_eq!(github_outputs(&s), "deleted=3\nplanned-delete=9\nstatus=aborted\n");
}

#[test]
fn annotations_for_what_should_be_noticed() {
    let mut s = summary(vec![
        report("a", PackageStatus::Degraded, Some("why")),
        report("b", PackageStatus::Clean, Some("fine")),
        report("c", PackageStatus::Errored, None),
        report("d", PackageStatus::Degraded, None),
        report("e", PackageStatus::Errored, Some("gone")),
    ]);
    s.aborted = Some("too many".to_string());
    assert_eq!(
        annotations(&s),
        vec![
            "::warning title=container-image-pruner aborted::too many".to_string(),
            "::warning title=prune degraded for a::why".to_string(),
            "::error title=prune failed for c::errored".to_string(),
            "::warning title=prune degraded for d::degraded".to_string(),
            "::error title=prune failed for e::gone".to_string(),
        ]
    );
    assert!(annotations(&summary(vec![])).is_empty());
}

#[test]
fn words() {
    assert_eq!(delete_reason_str(DeleteReason::OldBuildImage), "old-build-image");
    assert_eq!(delete_reason_str(DeleteReason::OrphanedChild), "orphaned-child");
    assert_eq!(keep_reason_str(KeepReason::TextTagged), "text-tagged");
    assert_eq!(keep_reason_str(KeepReason::WithinKeepAtLeast), "within-keep-at-least");
    assert_eq!(keep_reason_str(KeepReason::NotOldEnough), "not-old-enough");
    assert_eq!(keep_reason_str(KeepReason::ReferencedByRetained), "referenced-by-retained");
    assert_eq!(keep_reason_str(KeepReason::AttestsRetained), "attests-retained");
    assert_eq!(keep_reason_str(KeepReason::UntaggedPassSkipped), "untagged-pass-skipped");
    assert_eq!(status_word(PackageStatus::Clean), "ok");
    assert_eq!(status_word(PackageStatus::Degraded), "DEGRADED");
    assert_eq!(status_word(PackageStatus::Errored), "ERROR");
}

#[test]
fn planned_reports_list_everything() {
    let at = |s: i64| Timestamp::new(s, 0).unwrap();
    let plan = PrunePlan {
        delete: vec![PlannedDelete {
            id: 4,
            digest: "sha256:d".to_string(),
            tags: vec!["x".to_string()],
            created_at: at(9),
            reason: DeleteReason::OldBuildImage,
        }],
        keep: vec![
            KeptVersion {
                id: 5,
                digest: "sha256:k".to_string(),
                tags: vec![],
                created_at: at(8),
                reason: KeepReason::AttestsRetained,
            },
            KeptVersion {
                id: 6,
                digest: "sha256:l".to_string(),
                tags: vec!["prod".to_string()],
                created_at: at(7),
                reason: KeepReason::TextTagged,
            },
        ],
    };
    let r = planned_report("pkg", PackageStatus::Degraded, &plan, Some("m".to_string()));
    assert_eq!((r.package.as_str(), r.status), ("pkg", PackageStatus::Degraded));
    assert_eq!((r.kept, r.planned_delete, r.deleted), (2, 1, 0));
    assert_eq!(r.message.as_deref(), Some("m"));
    let d = &r.deletes[0];
    assert_eq!((d.package.as_str(), d.version_id, d.digest.as_str()), ("pkg", 4, "sha256:d"));
    assert_eq!((d.reason, d.executed, d.deleted_at), ("old-build-image", false, None));
    assert_eq!((d.created_at, d.tags.clone()), (at(9), vec!["x".to_string()]));
    let k = keep_records(&plan);
    assert_eq!(k.len(), 2);
    assert_eq!((k[0].version_id, k[0].digest.as_str(), k[0].reason), (5, "sha256:k", "attests-retained"));
    assert_eq!((k[1].tags.clone(), k[1].created_at), (vec!["prod".to_string()], at(7)));
}
