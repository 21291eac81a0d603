//! Runs, decision by decision.

use container_image_pruner::domain::plan::{
    DeleteReason, KeepReason, KeptVersion, PlannedDelete, PrunePlan,
};
use container_image_pruner::error::Error;
use container_image_pruner::github::models::{ContainerMetadata, Metadata, PackageVersion};
use container_image_pruner::github::registry::ManifestInfo;
use container_image_pruner::policy::Policy;
use container_image_pruner::prune::{
    after_delete, before_delete, begin, cut_short, deleted_record, final_report, merge,
    retained_read, scanned, without_token, Beginning, Decision, Execution, Fetched, Outcome,
    PackagePlan, Planning, Reading,
};
use container_image_pruner::report::{github_outputs, step_summary_markdown, PackageStatus, Summary};
use container_image_pruner::time::Timestamp;
use chrono::{TimeZone, Utc};

const BUILD: &str = "a1b2c3d-20260101120000";

fn day(year: i32, month: u32, day: u32) -> Timestamp {
    let t = Utc.with_ymd_and_hms(year, month, day, 0, 0, 0).unwrap();
    Timestamp::new(t.timestamp(), 0).unwrap()
}

fn now() -> Timestamp {
    day(2026, 7, 5)
}

fn version(id: u64, name: &str, created_at: Timestamp, tags: &[&str]) -> PackageVersion {
    let tags = tags.iter().map(|t| t.to_string()).collect();
    PackageVersion {
        id,
        name: name.to_string(),
        created_at,
        metadata: Some(Metadata { container: Some(ContainerMetadata { tags }) }),
    }
}

const POLICY: Policy = Policy { older_than_days: 30, keep_at_least: 1 };

/// A recent index that refers to an old shared child, an old index, and an orphan.
fn multi_arch() -> Vec<PackageVersion> {
    vec![
        version(1, "sha256:new-index", day(2026, 7, 1), &["a1b2c3d-20260701120000"]),
        version(2, "sha256:old-index", day(2026, 1, 1), &[BUILD]),
        version(3, "sha256:shared", day(2026, 1, 1), &[]),
        version(4, "sha256:orphan", day(2026, 1, 1), &[]),
    ]
}

fn children(digest: &str, of: &[&str]) -> Fetched {
    let children = of.iter().map(|c| c.to_string()).collect();
    (digest.to_string(), Ok(ManifestInfo { children, subject: None }))
}

fn subject(digest: &str, of: &str) -> Fetched {
    (
        digest.to_string(),
        Ok(ManifestInfo { children: vec![], subject: Some(of.to_string()) }),
    )
}

fn failed(digest: &str, status: u16) -> Fetched {
    (digest.to_string(), Err(api(status)))
}

fn api(status: u16) -> Error {
    Error::Api { status, url: "u".to_string(), message: "m".to_string() }
}

fn limited(secs: i64) -> Error {
    Error::RateLimited { reset_at: Timestamp::new(secs, 0).unwrap() }
}

fn ids(plan: &PrunePlan) -> Vec<u64> {
    plan.delete.iter().map(|d| d.id).collect()
}

fn selection_of(versions: &[PackageVersion]) -> container_image_pruner::domain::plan::Selection {
    match begin("pkg", versions, &POLICY, now()) {
        Beginning::NeedsToken(s) => s,
        Beginning::Done(_) => panic!("nothing untagged"),
    }
}

fn done(r: Result<Reading, Error>) -> PackagePlan {
    match r {
        Ok(Reading::Done(pp)) => pp,
        Ok(Reading::Scan { .. }) => panic!("scan"),
        Err(e) => panic!("{e:?}"),
    }
}

#[test]
fn multi_arch_children_of_a_retained_index_are_protected() {
    let s = selection_of(&multi_arch());
    assert_eq!(s.retained_digests.to_vec(), vec!["sha256:new-index".to_string()]);
    let read = vec![children("sha256:new-index", &["sha256:shared"])];
    let pp = done(retained_read("pkg", s, read, false));
    assert_eq!(pp.status, PackageStatus::Clean);
    assert_eq!(pp.message, None);
    assert_eq!(pp.package, "pkg");
    assert_eq!(ids(&pp.plan), vec![2, 4]);
}

#[test]
fn failed_reading_of_a_retained_manifest_spares_untagged() {
    let s = selection_of(&multi_arch());
    let read = vec![children("sha256:other", &[]), failed("sha256:new-index", 500)];
    let pp = done(retained_read("pkg", s, read, true));
    assert_eq!(pp.status, PackageStatus::Degraded);
    assert_eq!(
        pp.message.as_deref(),
        Some("a retained manifest fetch failed; skipped untagged cleanup for safety")
    );
    assert_eq!(ids(&pp.plan), vec![2]);
}

#[test]
fn rate_limit_ends_the_planning_of_a_package() {
    let read = vec![
        failed("sha256:a", 500),
        ("sha256:b".to_string(), Err(limited(7))),
        ("sha256:c".to_string(), Err(limited(8))),
    ];
    match retained_read("pkg", selection_of(&multi_arch()), read, false) {
        Err(Error::RateLimited { reset_at }) => assert_eq!(reset_at.secs(), 7),
        _ => panic!("not limited"),
    }
    assert!(without_token("pkg", selection_of(&multi_arch()), limited(1)).is_err());
}

#[test]
fn without_a_token_untagged_versions_stay() {
    let pp = without_token("pkg", selection_of(&multi_arch()), api(401)).unwrap();
    assert_eq!(pp.status, PackageStatus::Degraded);
    assert_eq!(
        pp.message.as_deref(),
        Some("could not obtain registry token (API error 401 at u: m); skipped untagged cleanup")
    );
    assert_eq!(ids(&pp.plan), vec![2]);
}

#[test]
fn tagged_packages_need_no_registry() {
    let versions: Vec<PackageVersion> = multi_arch().into_iter().take(2).collect();
    match begin("pkg", &versions, &POLICY, now()) {
        Beginning::Done(pp) => {
            assert_eq!(pp.status, PackageStatus::Clean);
            assert_eq!(ids(&pp.plan), vec![2]);
        }
        Beginning::NeedsToken(_) => panic!("token"),
    }
}

#[test]
fn subjects_are_scanned_where_asked_for() {
    let mut versions = multi_arch();
    versions.push(version(5, "sha256:attests", day(2026, 1, 1), &[]));
    versions.push(version(6, "sha256:attests-gone", day(2026, 1, 1), &[]));
    versions.push(version(7, "sha256:unread", day(2026, 1, 1), &[]));
    let s = selection_of(&versions);
    let read = vec![children("sha256:new-index", &["sha256:shared"])];
    let (selection, protected, candidates) = match retained_read("pkg", s, read, true) {
        Ok(Reading::Scan { selection, protected, candidates }) => (selection, protected, candidates),
        _ => panic!("no scan"),
    };
    assert_eq!(
        candidates,
        vec![
            "sha256:orphan".to_string(),
            "sha256:attests".to_string(),
            "sha256:attests-gone".to_string(),
            "sha256:unread".to_string()
        ]
    );
    let scan = vec![
        children("sha256:orphan", &[]),
        subject("sha256:attests", "sha256:new-index"),
        subject("sha256:attests-gone", "sha256:old-index"),
        failed("sha256:unread", 500),
    ];
    let pp = scanned("pkg", selection, &protected, scan).unwrap();
    assert_eq!(pp.status, PackageStatus::Clean);
    assert_eq!(ids(&pp.plan), vec![2, 4, 6]);
    let why: Vec<(u64, KeepReason)> = pp.plan.keep.iter().map(|k| (k.id, k.reason)).collect();
    assert_eq!(
        why,
        vec![
            (1, KeepReason::WithinKeepAtLeast),
            (3, KeepReason::ReferencedByRetained),
            (5, KeepReason::AttestsRetained),
            (7, KeepReason::AttestsRetained),
        ]
    );
    let again = vec![("x".to_string(), Err(limited(3)))];
    assert!(scanned("pkg", selection_of(&versions), &protected, again).is_err());
}

fn planned(id: u64, reason: DeleteReason) -> PlannedDelete {
    let tags = match reason {
        DeleteReason::OldBuildImage => vec![BUILD.to_string()],
        DeleteReason::OrphanedChild => vec![],
    };
    PlannedDelete { id, digest: format!("sha256:{id}"), tags, created_at: day(2026, 1, 1), reason }
}

fn package_plan(name: &str, status: PackageStatus, deletes: u64) -> PackagePlan {
    PackagePlan {
        package: name.to_string(),
        status,
        message: None,
        plan: PrunePlan {
            delete: (1..=deletes).map(|id| planned(id, DeleteReason::OldBuildImage)).collect(),
            keep: vec![KeptVersion {
                id: 99,
                digest: "sha256:kept".to_string(),
                tags: vec!["prod".to_string()],
                created_at: day(2026, 1, 1),
                reason: KeepReason::TextTagged,
            }],
        },
    }
}

fn summary_of(d: Decision) -> Summary {
    match d {
        Decision::Report(s) => s,
        Decision::Execute => panic!("execute"),
    }
}

#[test]
fn planning_stops_at_the_rate_limit_only() {
    let mut p = Planning::new();
    assert!(p.absorb("a", Ok(package_plan("a", PackageStatus::Clean, 2))));
    assert!(p.absorb("b", Err(api(500))));
    assert!(!p.absorb("c", Err(limited(1))));
    assert!(p.rate_limited);
    assert_eq!(p.plans.len(), 2);
    assert_eq!(p.plans[1].package, "b");
    assert_eq!(p.plans[1].status, PackageStatus::Errored);
    assert_eq!(p.plans[1].message.as_deref(), Some("API error 500 at u: m"));
    assert!(p.plans[1].plan.delete.is_empty() && p.plans[1].plan.keep.is_empty());
}

fn planning(deletes: &[u64]) -> Planning {
    let mut p = Planning::new();
    for n in deletes {
        p.absorb("p", Ok(package_plan("p", PackageStatus::Clean, *n)));
    }
    p
}

#[test]
fn dry_runs_and_empty_plans_end_after_planning() {
    let p = planning(&[2, 1]);
    assert!(p.is_countable());
    let s = summary_of(p.decide(true, Some(1)));
    assert!(s.dry_run && s.aborted.is_none());
    assert_eq!((s.total_planned_delete(), s.total_deleted(), s.total_kept()), (3, 0, 2));
    assert!(s.packages[0].deletes.iter().all(|d| !d.executed && d.deleted_at.is_none()));
    assert_eq!(s.packages[0].deletes[0].reason, "old-build-image");
    let s = summary_of(planning(&[0]).decide(false, Some(0)));
    assert!(!s.dry_run && s.aborted.is_none());
    assert_eq!(s.exit_code(), 0);
}

#[test]
fn too_many_deletions_abort_the_run() {
    let s = summary_of(planning(&[2]).decide(false, Some(1)));
    assert_eq!(
        s.aborted.as_deref(),
        Some(
            "plan would delete 2 versions, exceeding max-delete 1; nothing deleted — review, then \
             re-run with a higher --max-delete"
        )
    );
    assert_eq!(s.exit_code(), 2);
    assert!(github_outputs(&s).contains("status=aborted"));
    assert!(github_outputs(&s).contains("deleted=0"));
    assert!(step_summary_markdown(&s).contains("Aborted"));
    assert!(matches!(planning(&[2]).decide(false, Some(2)), Decision::Execute));
    assert!(matches!(planning(&[2]).decide(false, None), Decision::Execute));
}

fn tags(of: &[&str]) -> Result<PackageVersion, Error> {
    Ok(version(1, "sha256:1", day(2026, 1, 1), of))
}

#[test]
fn tags_are_checked_right_before_a_deletion() {
    let build = planned(1, DeleteReason::OldBuildImage);
    let orphan = planned(1, DeleteReason::OrphanedChild);
    assert!(before_delete("p", &build, now(), tags(&[BUILD])).is_none());
    assert!(before_delete("p", &orphan, now(), tags(&[])).is_none());
    for found in [tags(&[BUILD, "prod"]), tags(&["prod"]), tags(&[]), Err(api(500))] {
        assert!(matches!(before_delete("p", &build, now(), found), Some(Outcome::Skipped)));
    }
    for found in [tags(&["prod"]), tags(&[BUILD])] {
        assert!(matches!(before_delete("p", &orphan, now(), found), Some(Outcome::Skipped)));
    }
    assert!(matches!(
        before_delete("p", &build, now(), Err(limited(1))),
        Some(Outcome::RateLimited)
    ));
    match before_delete("p", &orphan, now(), Err(api(404))) {
        Some(Outcome::Deleted(rec)) => {
            assert!(rec.executed);
            assert_eq!(rec.reason, "orphaned-child");
            assert_eq!(rec.deleted_at, Some(now()));
        }
        _ => panic!("not deleted"),
    }
}

#[test]
fn outcomes_of_deletions() {
    let d = planned(1, DeleteReason::OldBuildImage);
    match after_delete("p", &d, now(), Ok(())) {
        Outcome::Deleted(rec) => {
            assert_eq!(rec.package, "p");
            assert_eq!(rec.version_id, 1);
            assert_eq!(rec.digest, "sha256:1");
            assert_eq!(rec.tags, vec![BUILD.to_string()]);
            assert_eq!(rec.created_at, day(2026, 1, 1));
            assert!(rec.executed);
        }
        _ => panic!("not deleted"),
    }
    assert!(matches!(after_delete("p", &d, now(), Err(limited(1))), Outcome::RateLimited));
    assert!(matches!(after_delete("p", &d, now(), Err(api(403))), Outcome::Failed));
}

fn gone(id: u64) -> Outcome {
    Outcome::Deleted(deleted_record("p", &planned(id, DeleteReason::OldBuildImage), now()))
}

#[test]
fn undisturbed_execution_deletes_all() {
    let pp = package_plan("p", PackageStatus::Clean, 2);
    let mut e = Execution::new(false);
    assert!(e.before_package(&pp));
    e.after_package(&pp, vec![gone(1), gone(2)]);
    let s = e.finish();
    assert_eq!(s.exit_code(), 0);
    assert!(!s.dry_run && !s.rate_limited && s.aborted.is_none());
    let r = &s.packages[0];
    assert_eq!((r.planned_delete, r.deleted, r.kept), (2, 2, 1));
    assert_eq!(r.deletes.len(), 2);
    assert_eq!(r.keeps[0].reason, "text-tagged");
    assert_eq!(r.message, None);
    assert_eq!(github_outputs(&s), "deleted=2\nplanned-delete=2\nstatus=clean\n");
}

#[test]
fn failures_degrade_and_skips_are_told() {
    let pp = package_plan("p", PackageStatus::Clean, 4);
    let mut e = Execution::new(false);
    e.after_package(&pp, vec![Outcome::Skipped, Outcome::Failed, gone(3), Outcome::Skipped]);
    let s = e.finish();
    let r = &s.packages[0];
    assert_eq!(r.status, PackageStatus::Degraded);
    assert_eq!(
        r.message.as_deref(),
        Some("2 skipped (tags changed since planning); one or more deletions failed")
    );
    assert_eq!((r.planned_delete, r.deleted, r.deletes.len()), (4, 1, 1));
    assert_eq!(s.exit_code(), 2);
    let mut e = Execution::new(false);
    e.after_package(&pp, vec![Outcome::Skipped, gone(2), gone(3), gone(4)]);
    let s = e.finish();
    // Clean is what went as planned, so a single skip degrades.
    assert_eq!(s.packages[0].status, PackageStatus::Degraded);
    assert_eq!((s.packages[0].planned_delete, s.packages[0].deleted), (4, 3));
    assert_eq!(
        s.packages[0].message.as_deref(),
        Some("1 skipped (tags changed since planning)")
    );
    assert_eq!((s.status_word(), s.exit_code()), ("degraded", 2));
}

#[test]
fn clean_means_deleted_as_planned() {
    let pp = package_plan("p", PackageStatus::Clean, 2);
    let every = || vec![gone(1), Outcome::Skipped, Outcome::Failed, Outcome::RateLimited];
    for a in every() {
        for b in every() {
            let mut e = Execution::new(false);
            let both = matches!((&a, &b), (Outcome::Deleted(_), Outcome::Deleted(_)));
            let again = match &a {
                Outcome::Deleted(_) => gone(1),
                Outcome::Skipped => Outcome::Skipped,
                Outcome::Failed => Outcome::Failed,
                Outcome::RateLimited => Outcome::RateLimited,
            };
            e.after_package(&pp, vec![again, b]);
            let s = e.finish();
            let r = &s.packages[0];
            assert_eq!(r.status == PackageStatus::Clean, both);
            assert_eq!(r.deleted == r.planned_delete, both);
            assert_eq!(s.exit_code() == 0, both);
            if both {
                assert_eq!(s.total_deleted(), s.total_planned_delete());
            }
        }
    }
}

#[test]
fn rate_limit_before_planning_cuts_the_run_short() {
    for dry_run in [true, false] {
        let s = cut_short(dry_run, limited(5)).unwrap();
        assert_eq!((s.dry_run, s.rate_limited, s.aborted.is_none()), (dry_run, true, true));
        assert!(s.packages.is_empty());
        assert_eq!((s.status_word(), s.exit_code()), ("degraded", 2));
    }
    assert_eq!(cut_short(false, api(401)).unwrap_err().api_status(), Some(401));
}

#[test]
fn rate_limit_stops_the_run_after_the_package_at_hand() {
    let pp = package_plan("p", PackageStatus::Degraded, 2);
    let noted = PackagePlan { message: Some("why".to_string()), ..pp.clone() };
    let idle = package_plan("idle", PackageStatus::Clean, 0);
    let errored = package_plan("errored", PackageStatus::Errored, 3);
    let mut e = Execution::new(false);
    assert!(!e.before_package(&idle));
    assert!(e.before_package(&pp));
    e.after_package(&pp, vec![gone(1), Outcome::RateLimited]);
    assert!(e.stopped);
    assert!(!e.before_package(&noted));
    assert!(!e.before_package(&idle));
    assert!(!e.before_package(&errored));
    let s = e.finish();
    assert!(s.rate_limited);
    assert_eq!(s.packages.len(), 5);
    let told: Vec<(PackageStatus, Option<&str>, usize)> =
        s.packages.iter().map(|r| (r.status, r.message.as_deref(), r.deleted)).collect();
    assert_eq!(
        told,
        vec![
            (PackageStatus::Clean, None, 0),
            (PackageStatus::Degraded, Some("stopped by rate limit"), 1),
            (
                PackageStatus::Degraded,
                Some("why; run stopped by rate limit before execution"),
                0
            ),
            (PackageStatus::Degraded, Some("stopped by rate limit"), 0),
            (PackageStatus::Errored, Some("stopped by rate limit"), 0),
        ]
    );
    assert_eq!(s.status_word(), "errored");
    assert!(s.packages[2].deletes.iter().all(|d| !d.executed));
    assert_eq!(s.packages[2].deletes.len(), 2);
}

#[test]
fn a_run_cut_short_in_planning_deletes_nothing() {
    let mut e = Execution::new(true);
    assert!(!e.before_package(&package_plan("p", PackageStatus::Clean, 2)));
    let s = e.finish();
    assert_eq!(s.total_deleted(), 0);
    assert_eq!(
        s.packages[0].message.as_deref(),
        Some("run stopped by rate limit before execution")
    );
}

#[test]
fn messages_are_merged() {
    assert_eq!(merge(None, "b").as_deref(), Some("b"));
    assert_eq!(merge(Some("a".to_string()), "b").as_deref(), Some("a; b"));
    let pp = package_plan("p", PackageStatus::Clean, 1);
    let r = final_report(&pp, vec![], 0, 1, true, true);
    assert_eq!(
        r.message.as_deref(),
        Some(
            "1 skipped (tags changed since planning); one or more deletions failed; stopped by \
             rate limit"
        )
    );
}
