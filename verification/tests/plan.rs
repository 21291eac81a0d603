//! Plans.

use chrono::{DateTime, TimeZone, Utc};
use container_image_pruner::domain::digests::DigestSet;
use container_image_pruner::domain::plan::{
    asks_for_age, finalize, finalize_builds_only, select, DeleteReason, Digest, KeepReason,
    PlannedDelete, PrunePlan, VersionInput,
};
use container_image_pruner::policy::Policy;
use container_image_pruner::time::Timestamp;
use std::collections::HashSet;

fn stamp(t: DateTime<Utc>) -> Timestamp {
    Timestamp::new(t.timestamp(), t.timestamp_subsec_nanos()).unwrap()
}

fn now_utc() -> DateTime<Utc> {
    Utc.with_ymd_and_hms(2026, 7, 5, 12, 0, 0).unwrap()
}

fn now() -> Timestamp {
    stamp(now_utc())
}

fn v(id: u64, digest: &str, tags: &[&str], days_ago: i64) -> VersionInput {
    VersionInput {
        id,
        digest: digest.to_string(),
        tags: tags.iter().map(|t| t.to_string()).collect(),
        created_at: stamp(now_utc() - chrono::Duration::days(days_ago)),
    }
}

fn digests(items: &[PlannedDelete]) -> HashSet<Digest> {
    items.iter().map(|d| d.digest.clone()).collect()
}

fn set(items: &[&str]) -> HashSet<Digest> {
    items.iter().map(|s| s.to_string()).collect()
}

fn digest_set(items: &[&str]) -> DigestSet {
    let mut r = DigestSet::new();
    for d in items {
        r.insert(d.to_string());
    }
    r
}

const POLICY: Policy = Policy {
    older_than_days: 30,
    keep_at_least: 2,
};

#[test]
fn text_tagged_never_deleted_and_not_counted_in_keep() {
    // Two build images (both old) plus a prod tag. keep_at_least=2 keeps both builds by
    // count; prod is protected separately and must not consume a keep slot.
    let versions = vec![
        v(1, "sha256:prod", &["prod"], 100),
        v(2, "sha256:b1", &["aaaaaaa-20260101120000"], 100),
        v(3, "sha256:b2", &["bbbbbbb-20260201120000"], 90),
        v(4, "sha256:b3", &["ccccccc-20260301120000"], 80),
    ];
    let sel = select(&versions, &POLICY, now());
    // b3 (newest) and b2 kept by keep-at-least; b1 (oldest, 3rd) deleted.
    let plan = finalize(sel, &DigestSet::new(), &DigestSet::new());
    assert_eq!(digests(&plan.delete), set(&["sha256:b1"]));
    // prod is kept as TextTagged.
    assert!(plan
        .keep
        .iter()
        .any(|k| k.digest == "sha256:prod" && k.reason == KeepReason::TextTagged));
}

#[test]
fn dual_tagged_build_plus_prod_is_protected() {
    let versions = vec![
        v(1, "sha256:dual", &["aaaaaaa-20260101120000", "prod"], 100),
        v(2, "sha256:b1", &["bbbbbbb-20260101120000"], 100),
    ];
    // keep_at_least=0 so nothing is kept purely by count.
    let policy = Policy {
        older_than_days: 30,
        keep_at_least: 0,
    };
    let sel = select(&versions, &policy, now());
    let plan = finalize(sel, &DigestSet::new(), &DigestSet::new());
    // Only the pure build image is deleted; the dual-tagged one is protected.
    assert_eq!(digests(&plan.delete), set(&["sha256:b1"]));
}

#[test]
fn keep_at_least_protects_recent_builds_even_if_old() {
    let versions = vec![
        v(1, "sha256:b1", &["aaaaaaa-20260101120000"], 100),
        v(2, "sha256:b2", &["bbbbbbb-20260201120000"], 90),
        v(3, "sha256:b3", &["ccccccc-20260301120000"], 80),
    ];
    let policy = Policy {
        older_than_days: 30,
        keep_at_least: 5, // more than we have -> keep all
    };
    let sel = select(&versions, &policy, now());
    assert!(sel.deletable_build.is_empty());
}

#[test]
fn not_old_enough_builds_are_kept_and_retained() {
    let versions = vec![
        v(1, "sha256:new", &["aaaaaaa-20260701120000"], 3), // within 30d
        v(2, "sha256:old", &["bbbbbbb-20260101120000"], 100),
    ];
    let policy = Policy {
        older_than_days: 30,
        keep_at_least: 0,
    };
    let sel = select(&versions, &policy, now());
    assert_eq!(digests(&sel.deletable_build), set(&["sha256:old"]));
    assert!(sel.retained_digests.contains("sha256:new"));
}

#[test]
fn untagged_orphan_deleted_only_when_unreferenced() {
    let versions = vec![
        v(1, "sha256:idx", &["aaaaaaa-20260701120000"], 3), // kept (new) -> retained
        v(2, "sha256:child_ref", &[], 3),                   // too new -> kept anyway
        v(3, "sha256:child_old_ref", &[], 100),             // old, referenced -> keep
        v(4, "sha256:orphan", &[], 100),                    // old, unreferenced -> delete
    ];
    let policy = Policy {
        older_than_days: 30,
        keep_at_least: 0,
    };
    let sel = select(&versions, &policy, now());
    // Simulate: idx references child_old_ref (shared/dedup old child).
    let protected = digest_set(&["sha256:child_old_ref"]);
    let plan = finalize(sel, &protected, &DigestSet::new());
    assert_eq!(digests(&plan.delete), set(&["sha256:orphan"]));
    assert!(plan
        .keep
        .iter()
        .any(|k| k.digest == "sha256:child_old_ref"
            && k.reason == KeepReason::ReferencedByRetained));
}

#[test]
fn subject_linked_attestation_of_retained_is_protected() {
    let versions = vec![
        v(1, "sha256:att_old", &[], 100), // old untagged attestation, subject=retained
        v(2, "sha256:orphan", &[], 100),
    ];
    let policy = Policy {
        older_than_days: 30,
        keep_at_least: 0,
    };
    let sel = select(&versions, &policy, now());
    let subject_protected = digest_set(&["sha256:att_old"]);
    let plan = finalize(sel, &DigestSet::new(), &subject_protected);
    assert_eq!(digests(&plan.delete), set(&["sha256:orphan"]));
    assert!(plan
        .keep
        .iter()
        .any(|k| k.digest == "sha256:att_old" && k.reason == KeepReason::AttestsRetained));
}

#[test]
fn degraded_path_never_deletes_untagged() {
    let versions = vec![
        v(1, "sha256:b1", &["aaaaaaa-20260101120000"], 100),
        v(2, "sha256:orphan", &[], 100),
    ];
    let policy = Policy {
        older_than_days: 30,
        keep_at_least: 0,
    };
    let sel = select(&versions, &policy, now());
    let plan = finalize_builds_only(sel);
    // Build image still deleted; untagged candidate kept as UntaggedPassSkipped.
    assert_eq!(digests(&plan.delete), set(&["sha256:b1"]));
    assert!(plan
        .keep
        .iter()
        .any(|k| k.digest == "sha256:orphan" && k.reason == KeepReason::UntaggedPassSkipped));
}

#[test]
fn centisecond_collision_duplicate_tags_are_keyed_by_id() {
    // Two distinct versions can (rarely) share the same tag string. They are told apart by id
    // and digest, never by the tag, so both are handled independently.
    let versions = vec![
        v(1, "sha256:dupA", &["afef854e-20260704210783"], 100),
        v(2, "sha256:dupB", &["afef854e-20260704210783"], 99),
    ];
    let policy = Policy {
        older_than_days: 30,
        keep_at_least: 1,
    };
    let sel = select(&versions, &policy, now());
    // Newest (id 2, 99 days) kept by keep-at-least; older (id 1) deleted.
    let plan = finalize(sel, &DigestSet::new(), &DigestSet::new());
    assert_eq!(digests(&plan.delete), set(&["sha256:dupA"]));
}

#[test]
fn has_untagged_flag() {
    let with = vec![v(1, "sha256:x", &[], 1)];
    let without = vec![v(1, "sha256:x", &["prod"], 1)];
    assert!(select(&with, &POLICY, now()).has_untagged);
    assert!(!select(&without, &POLICY, now()).has_untagged);
}

fn mixed() -> Vec<VersionInput> {
    vec![
        v(5, "sha256:e", &["aaaaaa1-20260101120000"], 50),
        v(1, "sha256:a", &["prod"], 200),
        v(2, "sha256:b", &[], 31),
        v(3, "sha256:c", &["aaaaaa2-20260101120000"], 40),
        v(4, "sha256:d", &[], 30),
        v(6, "sha256:f", &["aaaaaa3-20260101120000"], 50),
        v(7, "sha256:g", &["aaaaaa4-20260101120000"], 2),
        v(8, "sha256:h", &[], 90),
    ]
}

fn plan_of(versions: &[VersionInput]) -> PrunePlan {
    let sel = select(versions, &POLICY, now());
    finalize(sel, &digest_set(&["sha256:h"]), &DigestSet::new())
}

#[test]
fn order_of_decisions() {
    let plan = plan_of(&mixed());
    let deleted: Vec<(u64, DeleteReason)> = plan.delete.iter().map(|d| (d.id, d.reason)).collect();
    assert_eq!(
        deleted,
        vec![
            (6, DeleteReason::OldBuildImage),
            (5, DeleteReason::OldBuildImage),
            (2, DeleteReason::OrphanedChild),
        ]
    );
    let kept: Vec<(u64, KeepReason)> = plan.keep.iter().map(|k| (k.id, k.reason)).collect();
    assert_eq!(
        kept,
        vec![
            (1, KeepReason::TextTagged),
            (4, KeepReason::NotOldEnough),
            (7, KeepReason::WithinKeepAtLeast),
            (3, KeepReason::WithinKeepAtLeast),
            (8, KeepReason::ReferencedByRetained),
        ]
    );
    assert_eq!(plan.delete[0].tags, vec!["aaaaaa3-20260101120000".to_string()]);
    assert!(plan.delete[2].tags.is_empty());
}

#[test]
fn every_version_is_decided_once() {
    let plan = plan_of(&mixed());
    let mut ids: Vec<u64> = plan
        .delete
        .iter()
        .map(|d| d.id)
        .chain(plan.keep.iter().map(|k| k.id))
        .collect();
    ids.sort();
    assert_eq!(ids, vec![1, 2, 3, 4, 5, 6, 7, 8]);
}

#[test]
fn listing_order_does_not_change_the_decisions() {
    let mut turned = mixed();
    turned.reverse();
    let mut a: Vec<u64> = plan_of(&mixed()).delete.iter().map(|d| d.id).collect();
    let mut b: Vec<u64> = plan_of(&turned).delete.iter().map(|d| d.id).collect();
    a.sort();
    b.sort();
    assert_eq!(a, b);
}

#[test]
fn planning_again_deletes_nothing() {
    let plan = plan_of(&mixed());
    let rest: Vec<VersionInput> = plan
        .keep
        .into_iter()
        .map(|k| VersionInput {
            id: k.id,
            digest: k.digest,
            tags: k.tags,
            created_at: k.created_at,
        })
        .collect();
    assert!(plan_of(&rest).delete.is_empty());
}

#[test]
fn keeping_more_deletes_no_other() {
    let all: HashSet<u64> = plan_of(&mixed()).delete.iter().map(|d| d.id).collect();
    for (older_than_days, keep_at_least) in [(45, 2), (30, 3), (60, 10)] {
        let keener = Policy { older_than_days, keep_at_least };
        let sel = select(&mixed(), &keener, now());
        let plan = finalize(sel, &digest_set(&["sha256:h"]), &DigestSet::new());
        assert!(plan.delete.iter().all(|d| all.contains(&d.id)));
    }
}

#[test]
fn digits_in_a_tag_are_no_age() {
    let mut other = mixed();
    for v in other.iter_mut() {
        for t in v.tags.iter_mut() {
            if t != "prod" {
                *t = format!("fffffff-2099{:02}01000000", v.id);
            }
        }
    }
    other[1].tags = vec!["feature-x".to_string(), "fffffff-20200101000000".to_string()];
    let (a, b) = (plan_of(&mixed()), plan_of(&other));
    let told = |p: &PrunePlan| {
        let gone: Vec<_> = p.delete.iter().map(|d| (d.id, d.reason)).collect();
        let here: Vec<_> = p.keep.iter().map(|k| (k.id, k.reason)).collect();
        (gone, here)
    };
    assert_eq!(told(&a), told(&b));
}

#[test]
fn ties_are_broken_by_descending_id_and_then_by_place() {
    let policy = Policy {
        older_than_days: 30,
        keep_at_least: 0,
    };
    let versions = vec![
        v(1, "sha256:low", &["aaaaaa1-20260101120000"], 50),
        v(9, "sha256:first", &["aaaaaa2-20260101120000"], 50),
        v(9, "sha256:second", &["aaaaaa3-20260101120000"], 50),
    ];
    let sel = select(&versions, &policy, now());
    let order: Vec<&str> = sel.deletable_build.iter().map(|d| d.digest.as_str()).collect();
    assert_eq!(order, vec!["sha256:first", "sha256:second", "sha256:low"]);
}

#[test]
fn retained_digests_are_of_tagged_versions_only() {
    let sel = select(&mixed(), &POLICY, now());
    assert_eq!(
        sel.retained_digests.to_vec(),
        vec!["sha256:a".to_string(), "sha256:g".to_string(), "sha256:c".to_string()]
    );
    assert!(!sel.retained_digests.contains("sha256:d"));
    let candidates: Vec<u64> = sel.candidate_untagged.iter().map(|c| c.id).collect();
    assert_eq!(candidates, vec![2, 8]);
}

#[test]
fn a_build_that_a_retained_index_refers_to_goes_by_its_age() {
    // References protect untagged versions; a build version is judged as a build.
    let policy = Policy {
        older_than_days: 30,
        keep_at_least: 1,
    };
    let versions = vec![
        v(1, "sha256:old", &["aaaaaa1-20260101120000"], 50),
        v(2, "sha256:new", &["aaaaaa2-20260101120000"], 5),
    ];
    let sel = select(&versions, &policy, now());
    let plan = finalize(sel, &digest_set(&["sha256:old"]), &DigestSet::new());
    assert_eq!(digests(&plan.delete), set(&["sha256:old"]));
}

#[test]
fn ages_are_asked_for_only_where_they_matter() {
    let boundless = Policy {
        older_than_days: i64::MAX,
        keep_at_least: 1,
    };
    assert!(!boundless.is_measurable());
    let tagged = vec![v(1, "sha256:a", &["prod"], 5), v(2, "sha256:b", &["aaaaaa1-20260101120000"], 5)];
    assert!(!asks_for_age(&tagged, &boundless));
    assert_eq!(select(&tagged, &boundless, now()).kept.len(), 2);
    let untagged = vec![v(1, "sha256:a", &[], 5)];
    assert!(asks_for_age(&untagged, &boundless));
    assert!(asks_for_age(&tagged, &Policy { keep_at_least: 0, ..boundless }));
}

#[test]
fn digest_sets_keep_each_member_once() {
    let mut d = digest_set(&["b", "a", "b"]);
    assert!(d.contains("a") && d.contains("b") && !d.contains("c"));
    assert_eq!(d.to_vec(), vec!["b".to_string(), "a".to_string()]);
    d.insert("c".to_string());
    assert_eq!(d.to_vec(), vec!["b".to_string(), "a".to_string(), "c".to_string()]);
}
