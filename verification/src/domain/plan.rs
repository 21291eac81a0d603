//! The pruning planner.
//!
//! Two steps, with a reading of manifests between them that the caller performs:
//!
//! 1. [`select`] classifies the versions and decides which build versions go, from the list of
//!    versions and the policy alone. It tells which retained digests must have their manifests
//!    read (their children have to be protected) and which untagged versions are old enough to
//!    be candidates.
//! 2. [`finalize`] decides about the candidates, given the digests that retained manifests refer
//!    to and those that attest a retained image. [`finalize_builds_only`] takes its place where
//!    not every retained manifest could be read: it deletes no untagged version at all.

use crate::domain::digests::DigestSet;
use crate::domain::tag::{class_of, classify, Classification};
use crate::policy::Policy;
use crate::text::texts;
use crate::time::{lemma_instants_ordered, Timestamp};
use vstd::prelude::*;
use vstd::relations::{sorted_by, total_ordering};
use vstd::seq_lib::{group_to_multiset_ensures, lemma_sorted_unique};

verus! {

/// The digest of a manifest, `sha256:...`.
pub type Digest = String;

/// A package version, as the planner sees it.
#[derive(Debug, Clone)]
pub struct VersionInput {
    pub id: u64,
    /// The name of the version, which is its digest.
    pub digest: Digest,
    pub tags: Vec<String>,
    pub created_at: Timestamp,
}

/// Why a version is kept.
#[derive(Debug, Clone, Copy, PartialEq, Eq, Structural)]
pub enum KeepReason {
    /// Carries a tag that is no build tag.
    TextTagged,
    /// One of the `keep_at_least` most recent build versions.
    WithinKeepAtLeast,
    /// Newer than the cutoff.
    NotOldEnough,
    /// Referenced, as a child, by the manifest index of a retained tagged version.
    ReferencedByRetained,
    /// Its `subject` attests a retained tagged version, or could not be read.
    AttestsRetained,
    /// Not every retained manifest could be read, so no untagged version was looked at.
    UntaggedPassSkipped,
}

/// Why a version is deleted.
#[derive(Debug, Clone, Copy, PartialEq, Eq, Structural)]
pub enum DeleteReason {
    /// An old build version, beyond the minimum that is kept.
    OldBuildImage,
    /// An old untagged manifest that no retained tagged version refers to.
    OrphanedChild,
}

/// A version to delete.
#[derive(Debug, Clone, PartialEq, Eq)]
pub struct PlannedDelete {
    pub id: u64,
    pub digest: Digest,
    pub tags: Vec<String>,
    pub created_at: Timestamp,
    pub reason: DeleteReason,
}

/// A version to keep.
#[derive(Debug, Clone, PartialEq, Eq)]
pub struct KeptVersion {
    pub id: u64,
    pub digest: Digest,
    pub tags: Vec<String>,
    pub created_at: Timestamp,
    pub reason: KeepReason,
}

/// An untagged version that is old enough to go, unless a retained tagged version refers to it or
/// is attested by it.
#[derive(Debug, Clone, PartialEq, Eq)]
pub struct CandidateUntagged {
    pub id: u64,
    pub digest: Digest,
    pub created_at: Timestamp,
}

/// What [`select`] decides, and what is left for [`finalize`].
pub struct Selection {
    /// The digests of the tagged versions that are kept. They may be manifest indexes, so their
    /// manifests tell which children to protect.
    pub retained_digests: DigestSet,
    /// Build versions to delete.
    pub deletable_build: Vec<PlannedDelete>,
    /// Untagged versions old enough to be candidates.
    pub candidate_untagged: Vec<CandidateUntagged>,
    /// Versions kept for a reason that is already known.
    pub kept: Vec<KeptVersion>,
    /// Whether the package has untagged versions at all. Without any, no manifest has to be
    /// read.
    pub has_untagged: bool,
}

/// The final decision on every version of a package.
#[derive(Debug, Clone, PartialEq, Eq)]
pub struct PrunePlan {
    pub delete: Vec<PlannedDelete>,
    pub keep: Vec<KeptVersion>,
}

/// A version, mathematically.
#[verifier::ext_equal]
pub struct Version {
    pub id: u64,
    pub digest: Seq<char>,
    pub tags: Seq<Seq<char>>,
    pub created_at: Timestamp,
}

/// A version to delete, mathematically.
#[verifier::ext_equal]
pub struct Deletion {
    pub version: Version,
    pub reason: DeleteReason,
}

/// A version to keep, mathematically.
#[verifier::ext_equal]
pub struct Keeping {
    pub version: Version,
    pub reason: KeepReason,
}

/// A selection, mathematically.
#[verifier::ext_equal]
pub struct Selected {
    pub retained: Set<Seq<char>>,
    pub deletable: Seq<Deletion>,
    pub candidates: Seq<Version>,
    pub kept: Seq<Keeping>,
    pub has_untagged: bool,
}

/// A plan, mathematically.
#[verifier::ext_equal]
pub struct Plan {
    pub delete: Seq<Deletion>,
    pub keep: Seq<Keeping>,
}

impl View for VersionInput {
    type V = Version;

    open spec fn view(&self) -> Version {
        Version {
            id: self.id,
            digest: self.digest@,
            tags: texts(self.tags@),
            created_at: self.created_at,
        }
    }
}

impl View for PlannedDelete {
    type V = Deletion;

    open spec fn view(&self) -> Deletion {
        Deletion {
            version: Version {
                id: self.id,
                digest: self.digest@,
                tags: texts(self.tags@),
                created_at: self.created_at,
            },
            reason: self.reason,
        }
    }
}

impl View for KeptVersion {
    type V = Keeping;

    open spec fn view(&self) -> Keeping {
        Keeping {
            version: Version {
                id: self.id,
                digest: self.digest@,
                tags: texts(self.tags@),
                created_at: self.created_at,
            },
            reason: self.reason,
        }
    }
}

impl View for CandidateUntagged {
    type V = Version;

    open spec fn view(&self) -> Version {
        Version {
            id: self.id,
            digest: self.digest@,
            tags: Seq::empty(),
            created_at: self.created_at,
        }
    }
}

impl View for Selection {
    type V = Selected;

    open spec fn view(&self) -> Selected {
        Selected {
            retained: self.retained_digests@,
            deletable: deletions(self.deletable_build@),
            candidates: self.candidate_untagged@.map_values(|c: CandidateUntagged| c@),
            kept: keepings(self.kept@),
            has_untagged: self.has_untagged,
        }
    }
}

impl View for PrunePlan {
    type V = Plan;

    open spec fn view(&self) -> Plan {
        Plan { delete: deletions(self.delete@), keep: keepings(self.keep@) }
    }
}

/// The versions that a list of inputs describes.
pub open spec fn versions_of(v: Seq<VersionInput>) -> Seq<Version> {
    v.map_values(|x: VersionInput| x@)
}

/// The deletions that a list of planned deletions describes.
pub open spec fn deletions(v: Seq<PlannedDelete>) -> Seq<Deletion> {
    v.map_values(|x: PlannedDelete| x@)
}

/// What a list of kept versions describes.
pub open spec fn keepings(v: Seq<KeptVersion>) -> Seq<Keeping> {
    v.map_values(|x: KeptVersion| x@)
}

/// The class of a version.
pub open spec fn class(v: Version) -> Classification {
    class_of(v.tags)
}

/// Whether the version at `i` comes before the one at `j` among the builds: newest first, by
/// descending id where they were created at the same instant, and in the given order where the
/// ids are the same too.
pub open spec fn ranks_before(versions: Seq<Version>, i: int, j: int) -> bool {
    let a = versions[i];
    let b = versions[j];
    ||| b.created_at.before(a.created_at)
    ||| a.created_at == b.created_at && (b.id < a.id || (b.id == a.id && i < j))
}

/// The order in which build versions rank, as a relation on their places in the list.
pub open spec fn build_rank(versions: Seq<Version>) -> spec_fn(int, int) -> bool {
    |i: int, j: int| i == j || ranks_before(versions, i, j)
}

/// The places of the build versions in the list.
pub open spec fn build_places(versions: Seq<Version>) -> Seq<int> {
    Seq::new(versions.len(), |i: int| i).filter(
        |i: int| class(versions[i]) == Classification::Build,
    )
}

/// The build versions, newest first.
pub open spec fn ranked_builds(versions: Seq<Version>) -> Seq<Version> {
    build_places(versions).sort_by(build_rank(versions)).map_values(|i: int| versions[i])
}

/// The build versions that are kept by number.
pub open spec fn builds_within(versions: Seq<Version>, policy: Policy) -> Seq<Version> {
    let ranked = ranked_builds(versions);
    if policy.keep_at_least < ranked.len() {
        ranked.take(policy.keep_at_least as int)
    } else {
        ranked
    }
}

/// The build versions beyond those that are kept by number.
pub open spec fn builds_beyond(versions: Seq<Version>, policy: Policy) -> Seq<Version> {
    let ranked = ranked_builds(versions);
    if policy.keep_at_least < ranked.len() {
        ranked.skip(policy.keep_at_least as int)
    } else {
        Seq::empty()
    }
}

/// Whether a version is older than the cutoff.
pub open spec fn is_old(policy: Policy, now: Timestamp) -> spec_fn(Version) -> bool {
    |v: Version| policy.older(v.created_at, now)
}

/// Whether a version is not older than the cutoff.
pub open spec fn is_recent(policy: Policy, now: Timestamp) -> spec_fn(Version) -> bool {
    |v: Version| !policy.older(v.created_at, now)
}

/// Whether a version is kept for its tags, or is untagged and recent.
pub open spec fn kept_outright(policy: Policy, now: Timestamp) -> spec_fn(Version) -> bool {
    |v: Version|
        class(v) == Classification::Protected || (class(v) == Classification::Untagged
            && !policy.older(v.created_at, now))
}

/// Whether a version is untagged and old.
pub open spec fn is_candidate(policy: Policy, now: Timestamp) -> spec_fn(Version) -> bool {
    |v: Version| class(v) == Classification::Untagged && policy.older(v.created_at, now)
}

/// Keeping a version that is no build version.
pub open spec fn keep_outright(v: Version) -> Keeping {
    Keeping {
        version: v,
        reason: if class(v) == Classification::Protected {
            KeepReason::TextTagged
        } else {
            KeepReason::NotOldEnough
        },
    }
}

/// Keeping versions for a given reason.
pub open spec fn keep_for(versions: Seq<Version>, reason: KeepReason) -> Seq<Keeping> {
    versions.map_values(|v: Version| Keeping { version: v, reason })
}

/// Deleting versions for a given reason.
pub open spec fn delete_for(versions: Seq<Version>, reason: DeleteReason) -> Seq<Deletion> {
    versions.map_values(|v: Version| Deletion { version: v, reason })
}

/// The digests of versions.
pub open spec fn digests_of(versions: Seq<Version>) -> Set<Seq<char>> {
    versions.map_values(|v: Version| v.digest).to_set()
}

/// Whether any version is untagged.
pub open spec fn any_untagged(versions: Seq<Version>) -> bool {
    exists|i: int| 0 <= i < versions.len() && class(#[trigger] versions[i]) == Classification::Untagged
}

/// Whether any decision on the versions asks for an age: there is an untagged version, or there
/// are more build versions than are kept by number.
pub open spec fn asks_age(versions: Seq<Version>, policy: Policy) -> bool {
    any_untagged(versions) || policy.keep_at_least < build_places(versions).len()
}

/// What [`select`] decides.
pub open spec fn selected(versions: Seq<Version>, policy: Policy, now: Timestamp) -> Selected {
    let within = builds_within(versions, policy);
    let beyond = builds_beyond(versions, policy);
    let protected = versions.filter(|v: Version| class(v) == Classification::Protected);
    let recent = beyond.filter(is_recent(policy, now));
    Selected {
        retained: digests_of(protected) + digests_of(within) + digests_of(recent),
        deletable: delete_for(beyond.filter(is_old(policy, now)), DeleteReason::OldBuildImage),
        candidates: versions.filter(is_candidate(policy, now)),
        kept: versions.filter(kept_outright(policy, now)).map_values(|v: Version| keep_outright(v))
            + keep_for(within, KeepReason::WithinKeepAtLeast) + keep_for(
            recent,
            KeepReason::NotOldEnough,
        ),
        has_untagged: any_untagged(versions),
    }
}

/// [`build_rank`] is a total order.
pub proof fn lemma_build_rank_total(versions: Seq<Version>)
    ensures
        total_ordering(build_rank(versions)),
{
    let leq = build_rank(versions);
    assert forall|i: int, j: int| #[trigger] leq(i, j) || leq(j, i) by {
        lemma_instants_ordered(versions[i].created_at, versions[j].created_at);
    }
}

/// Whether the version at `i` does not come after the one at `j` among the builds.
fn ranks_no_later(versions: &[VersionInput], i: usize, j: usize) -> (r: bool)
    requires
        i < versions@.len(),
        j < versions@.len(),
    ensures
        r == build_rank(versions_of(versions@))(i as int, j as int),
{
    let a: &VersionInput = &versions[i];
    let b: &VersionInput = &versions[j];
    i == j || b.created_at.is_before(a.created_at) || (a.created_at == b.created_at && (b.id < a.id
        || (b.id == a.id && i < j)))
}

/// The places of `v`, as mathematical integers.
spec fn places(v: Seq<usize>) -> Seq<int> {
    v.map_values(|i: usize| i as int)
}

/// The given places of build versions, newest first.
fn newest_first(versions: &[VersionInput], builds: &Vec<usize>) -> (r: Vec<usize>)
    requires
        forall|k: int| 0 <= k < builds@.len() ==> #[trigger] builds@[k] < versions@.len(),
    ensures
        places(r@) == places(builds@).sort_by(build_rank(versions_of(versions@))),
        r@.len() == builds@.len(),
        forall|k: int| 0 <= k < r@.len() ==> #[trigger] r@[k] < versions@.len(),
{
    let ghost leq = build_rank(versions_of(versions@));
    let mut order: Vec<usize> = Vec::new();
    proof {
        lemma_build_rank_total(versions_of(versions@));
        assert(places(builds@).take(0) =~= places(order@));
    }
    for k in 0..builds.len()
        invariant
            leq == build_rank(versions_of(versions@)),
            total_ordering(leq),
            forall|k: int| 0 <= k < builds@.len() ==> #[trigger] builds@[k] < versions@.len(),
            order@.len() == k,
            forall|k: int| 0 <= k < order@.len() ==> #[trigger] order@[k] < versions@.len(),
            sorted_by(places(order@), leq),
            places(order@).to_multiset() == places(builds@).take(k as int).to_multiset(),
    {
        broadcast use group_to_multiset_ensures;

        let x: usize = builds[k];
        let ghost before = places(order@);
        let mut p: usize = order.len();
        while p > 0 && !ranks_no_later(versions, order[p - 1], x)
            invariant
                p <= order@.len(),
                x < versions@.len(),
                leq == build_rank(versions_of(versions@)),
                total_ordering(leq),
                before == places(order@),
                forall|k: int| 0 <= k < order@.len() ==> #[trigger] order@[k] < versions@.len(),
                forall|m: int| p <= m < before.len() ==> leq(x as int, #[trigger] before[m]),
            decreases p,
        {
            assert(before[p - 1] == order@[p - 1] as int);
            p = p - 1;
        }
        order.insert(p, x);
        proof {
            let after = places(order@);
            assert(after =~= before.insert(p as int, x as int));
            assert forall|i: int, j: int| 0 <= i < j < after.len() implies #[trigger] leq(
                after[i],
                after[j],
            ) by {
                if p > 0 {
                    assert(leq(before[p - 1], x as int));
                }
                if i < p && j == p {
                    if i < p - 1 {
                        assert(leq(before[i], before[p - 1]));
                    }
                } else if i < p && j > p {
                    assert(leq(before[i], before[j - 1]));
                } else if i == p {
                    assert(leq(x as int, before[j - 1]));
                } else if i > p {
                    assert(leq(before[i - 1], before[j - 1]));
                } else {
                    assert(leq(before[i], before[j]));
                }
            }
            assert(places(builds@).take(k as int + 1) =~= places(builds@).take(k as int).push(
                x as int,
            ));
            assert(after.to_multiset() == before.to_multiset().insert(x as int));
        }
    }
    proof {
        assert(places(builds@).take(builds@.len() as int) =~= places(builds@));
        places(builds@).lemma_sort_by_ensures(leq);
        lemma_sorted_unique(places(order@), places(builds@).sort_by(leq), leq);
    }
    order
}

/// Filtering one element more.
pub proof fn lemma_filter_step<A>(s: Seq<A>, i: int, f: spec_fn(A) -> bool)
    requires
        0 <= i < s.len(),
    ensures
        s.take(i + 1).filter(f) == if f(s[i]) {
            s.take(i).filter(f).push(s[i])
        } else {
            s.take(i).filter(f)
        },
{
    reveal(Seq::filter);
    assert(s.take(i + 1).drop_last() =~= s.take(i));
}

/// The digests of one version more.
proof fn lemma_digests_push(s: Seq<Version>, v: Version)
    ensures
        digests_of(s.push(v)) == digests_of(s).insert(v.digest),
{
    let f = |x: Version| x.digest;
    assert(s.push(v).map_values(f) =~= s.map_values(f).push(v.digest));
    let before = s.map_values(f);
    assert forall|d: Seq<char>|
        before.push(v.digest).to_set().contains(d) == before.to_set().insert(v.digest).contains(
            d,
        ) by {
        if before.contains(d) {
            let k = choose|k: int| 0 <= k < before.len() && before[k] == d;
            assert(before.push(v.digest)[k] == d);
        }
        if d == v.digest {
            assert(before.push(v.digest)[before.len() as int] == d);
        }
        if before.push(v.digest).contains(d) {
            let k = choose|k: int|
                0 <= k < before.push(v.digest).len() && before.push(v.digest)[k] == d;
            if k < before.len() {
                assert(before[k] == d);
            }
        }
    }
    assert(before.push(v.digest).to_set() =~= before.to_set().insert(v.digest));
}

/// Keeping a version.
fn keep(v: &VersionInput, reason: KeepReason) -> (r: KeptVersion)
    ensures
        r@ == (Keeping { version: v@, reason }),
{
    let tags: Vec<String> = v.tags.clone();
    assert(tags@ =~= v.tags@);
    KeptVersion { id: v.id, digest: v.digest.clone(), tags, created_at: v.created_at, reason }
}

/// Deleting an old build version.
fn delete_build(v: &VersionInput) -> (r: PlannedDelete)
    ensures
        r@ == (Deletion { version: v@, reason: DeleteReason::OldBuildImage }),
{
    let tags: Vec<String> = v.tags.clone();
    assert(tags@ =~= v.tags@);
    PlannedDelete {
        id: v.id,
        digest: v.digest.clone(),
        tags,
        created_at: v.created_at,
        reason: DeleteReason::OldBuildImage,
    }
}

/// Classify the versions and decide about the tagged ones and the recent ones.
pub fn select(versions: &[VersionInput], policy: &Policy, now: Timestamp) -> (r: Selection)
    requires
        asks_age(versions_of(versions@), *policy) ==> policy.measurable(),
    ensures
        r@ == selected(versions_of(versions@), *policy, now),
{
    let ghost vv = versions_of(versions@);
    let ghost outright = kept_outright(*policy, now);
    let ghost candidate = is_candidate(*policy, now);
    let ghost shielded = |v: Version| class(v) == Classification::Protected;
    let ghost build_at = |i: int| class(vv[i]) == Classification::Build;
    let ghost all = Seq::new(vv.len(), |i: int| i);
    let ghost reason_of = |v: Version| keep_outright(v);

    let mut retained_digests: DigestSet = DigestSet::new();
    let mut kept: Vec<KeptVersion> = Vec::new();
    let mut candidate_untagged: Vec<CandidateUntagged> = Vec::new();
    let mut builds: Vec<usize> = Vec::new();
    let mut has_untagged: bool = false;

    proof {
        reveal(Seq::filter);
        assert(keepings(kept@) =~= vv.take(0).filter(outright).map_values(reason_of));
        assert(candidate_untagged@.map_values(|c: CandidateUntagged| c@) =~= vv.take(0).filter(
            candidate,
        ));
        assert(places(builds@) =~= all.take(0).filter(build_at));
        assert(digests_of(vv.take(0).filter(shielded)) =~= Set::<Seq<char>>::empty());
    }
    for i in 0..versions.len()
        invariant
            vv == versions_of(versions@),
            outright == kept_outright(*policy, now),
            candidate == is_candidate(*policy, now),
            shielded == (|v: Version| class(v) == Classification::Protected),
            build_at == (|i: int| class(vv[i]) == Classification::Build),
            all == Seq::new(vv.len(), |i: int| i),
            reason_of == (|v: Version| keep_outright(v)),
            asks_age(vv, *policy) ==> policy.measurable(),
            keepings(kept@) == vv.take(i as int).filter(outright).map_values(reason_of),
            candidate_untagged@.map_values(|c: CandidateUntagged| c@) == vv.take(i as int).filter(
                candidate,
            ),
            places(builds@) == all.take(i as int).filter(build_at),
            forall|k: int| 0 <= k < builds@.len() ==> #[trigger] builds@[k] < versions@.len(),
            retained_digests@ == digests_of(vv.take(i as int).filter(shielded)),
            has_untagged == any_untagged(vv.take(i as int)),
    {
        let v: &VersionInput = &versions[i];
        let ghost kept_before = keepings(kept@);
        let ghost candidates_before = candidate_untagged@.map_values(|c: CandidateUntagged| c@);
        let ghost builds_before = places(builds@);
        let ghost untagged_before = has_untagged;
        proof {
            assert(vv[i as int] == v@);
            assert(all[i as int] == i);
            lemma_filter_step(vv, i as int, outright);
            lemma_filter_step(vv, i as int, candidate);
            lemma_filter_step(vv, i as int, shielded);
            lemma_filter_step(all, i as int, build_at);
            lemma_digests_push(vv.take(i as int).filter(shielded), v@);
        }
        match classify(v.tags.as_slice()) {
            Classification::Protected => {
                retained_digests.insert(v.digest.clone());
                kept.push(keep(v, KeepReason::TextTagged));
            },
            Classification::Build => {
                builds.push(i);
            },
            Classification::Untagged => {
                has_untagged = true;
                assert(class(vv[i as int]) == Classification::Untagged);
                if policy.is_older_than_cutoff(v.created_at, now) {
                    candidate_untagged.push(
                        CandidateUntagged {
                            id: v.id,
                            digest: v.digest.clone(),
                            created_at: v.created_at,
                        },
                    );
                } else {
                    kept.push(keep(v, KeepReason::NotOldEnough));
                }
            },
        }
        proof {
            if outright(v@) {
                assert(keepings(kept@) =~= kept_before.push(reason_of(v@)));
                assert(vv.take(i as int).filter(outright).push(v@).map_values(reason_of)
                    =~= kept_before.push(reason_of(v@)));
            }
            if candidate(v@) {
                assert(v@.tags =~= Seq::<Seq<char>>::empty());
                assert(candidate_untagged@.map_values(|c: CandidateUntagged| c@)
                    =~= candidates_before.push(v@));
            }
            if build_at(i as int) {
                assert(places(builds@) =~= builds_before.push(i as int));
            }
            let longer = vv.take(i as int + 1);
            assert(longer =~= vv.take(i as int).push(v@));
            if untagged_before {
                let k = choose|k: int|
                    0 <= k < vv.take(i as int).len() && class(#[trigger] vv.take(i as int)[k])
                        == Classification::Untagged;
                assert(class(longer[k]) == Classification::Untagged);
            }
            if class(v@) == Classification::Untagged {
                assert(class(longer[i as int]) == Classification::Untagged);
            }
            if any_untagged(longer) && class(v@) != Classification::Untagged {
                let k = choose|k: int|
                    0 <= k < longer.len() && class(#[trigger] longer[k])
                        == Classification::Untagged;
                assert(class(vv.take(i as int)[k]) == Classification::Untagged);
            }
        }
    }
    proof {
        assert(vv.take(vv.len() as int) =~= vv);
        assert(all.take(all.len() as int) =~= all);
    }

    let order: Vec<usize> = newest_first(versions, &builds);
    let ghost ranked = ranked_builds(vv);
    let ghost kept_first = keepings(kept@);
    let ghost retained_first = retained_digests@;
    let cut: usize = if policy.keep_at_least < order.len() {
        policy.keep_at_least
    } else {
        order.len()
    };
    let ghost within = builds_within(vv, *policy);
    let ghost beyond = builds_beyond(vv, *policy);
    proof {
        assert(places(order@).map_values(|i: int| vv[i]) == ranked);
        assert(within =~= ranked.take(cut as int));
        assert(beyond =~= ranked.skip(cut as int));
        assert(kept_first =~= kept_first + keep_for(
            within.take(0),
            KeepReason::WithinKeepAtLeast,
        ));
        assert(digests_of(within.take(0)) =~= Set::<Seq<char>>::empty());
        assert(retained_first =~= retained_first + digests_of(within.take(0)));
    }
    for p in 0..cut
        invariant
            vv == versions_of(versions@),
            cut <= order@.len(),
            forall|k: int| 0 <= k < order@.len() ==> #[trigger] order@[k] < versions@.len(),
            places(order@).map_values(|i: int| vv[i]) == ranked,
            within == ranked.take(cut as int),
            keepings(kept@) == kept_first + keep_for(
                within.take(p as int),
                KeepReason::WithinKeepAtLeast,
            ),
            retained_digests@ == retained_first + digests_of(within.take(p as int)),
    {
        let v: &VersionInput = &versions[order[p]];
        let ghost kept_before = keepings(kept@);
        proof {
            assert(places(order@)[p as int] == order@[p as int] as int);
            assert(ranked[p as int] == v@);
            assert(within.take(p as int + 1) =~= within.take(p as int).push(v@));
            lemma_digests_push(within.take(p as int), v@);
        }
        retained_digests.insert(v.digest.clone());
        kept.push(keep(v, KeepReason::WithinKeepAtLeast));
        proof {
            assert(keepings(kept@) =~= kept_before.push(
                Keeping { version: v@, reason: KeepReason::WithinKeepAtLeast },
            ));
            assert(keepings(kept@) =~= kept_first + keep_for(
                within.take(p as int + 1),
                KeepReason::WithinKeepAtLeast,
            ));
            assert(retained_digests@ =~= retained_first + digests_of(within.take(p as int + 1)));
        }
    }

    let ghost aged = is_old(*policy, now);
    let ghost recent = is_recent(*policy, now);
    let ghost kept_second = keepings(kept@);
    let ghost retained_second = retained_digests@;
    let mut deletable_build: Vec<PlannedDelete> = Vec::new();
    proof {
        reveal(Seq::filter);
        assert(within.take(cut as int) =~= within);
        assert(deletions(deletable_build@) =~= delete_for(
            beyond.take(0).filter(aged),
            DeleteReason::OldBuildImage,
        ));
        assert(kept_second =~= kept_second + keep_for(
            beyond.take(0).filter(recent),
            KeepReason::NotOldEnough,
        ));
        assert(digests_of(beyond.take(0).filter(recent)) =~= Set::<Seq<char>>::empty());
        assert(retained_second =~= retained_second + digests_of(beyond.take(0).filter(recent)));
    }
    for p in cut..order.len()
        invariant
            vv == versions_of(versions@),
            aged == is_old(*policy, now),
            recent == is_recent(*policy, now),
            cut <= order@.len(),
            cut < order@.len() ==> policy.measurable(),
            forall|k: int| 0 <= k < order@.len() ==> #[trigger] order@[k] < versions@.len(),
            places(order@).map_values(|i: int| vv[i]) == ranked,
            beyond == ranked.skip(cut as int),
            deletions(deletable_build@) == delete_for(
                beyond.take(p - cut).filter(aged),
                DeleteReason::OldBuildImage,
            ),
            keepings(kept@) == kept_second + keep_for(
                beyond.take(p - cut).filter(recent),
                KeepReason::NotOldEnough,
            ),
            retained_digests@ == retained_second + digests_of(
                beyond.take(p - cut).filter(recent),
            ),
    {
        let v: &VersionInput = &versions[order[p]];
        let ghost kept_before = keepings(kept@);
        let ghost deletable_before = deletions(deletable_build@);
        proof {
            assert(places(order@)[p as int] == order@[p as int] as int);
            assert(ranked[p as int] == v@);
            assert(beyond[p - cut] == v@);
            lemma_filter_step(beyond, p - cut, aged);
            lemma_filter_step(beyond, p - cut, recent);
            lemma_digests_push(beyond.take(p - cut).filter(recent), v@);
        }
        if policy.is_older_than_cutoff(v.created_at, now) {
            deletable_build.push(delete_build(v));
            proof {
                assert(deletions(deletable_build@) =~= deletable_before.push(
                    Deletion { version: v@, reason: DeleteReason::OldBuildImage },
                ));
                assert(deletions(deletable_build@) =~= delete_for(
                    beyond.take(p - cut + 1).filter(aged),
                    DeleteReason::OldBuildImage,
                ));
            }
        } else {
            retained_digests.insert(v.digest.clone());
            kept.push(keep(v, KeepReason::NotOldEnough));
            proof {
                assert(keepings(kept@) =~= kept_before.push(
                    Keeping { version: v@, reason: KeepReason::NotOldEnough },
                ));
                assert(keepings(kept@) =~= kept_second + keep_for(
                    beyond.take(p - cut + 1).filter(recent),
                    KeepReason::NotOldEnough,
                ));
                assert(retained_digests@ =~= retained_second + digests_of(
                    beyond.take(p - cut + 1).filter(recent),
                ));
            }
        }
    }
    proof {
        assert(beyond.take(order@.len() - cut) =~= beyond);
    }
    Selection { retained_digests, deletable_build, candidate_untagged, kept, has_untagged }
}

/// Whether a digest is neither referred to by a retained tagged version nor attests one, as far as
/// the two sets tell.
pub open spec fn is_orphan(
    protected: Set<Seq<char>>,
    attesting: Set<Seq<char>>,
) -> spec_fn(Version) -> bool {
    |v: Version| !protected.contains(v.digest) && !attesting.contains(v.digest)
}

/// Whether a digest is referred to by a retained tagged version, or attests one, as far as the two
/// sets tell.
pub open spec fn is_needed(
    protected: Set<Seq<char>>,
    attesting: Set<Seq<char>>,
) -> spec_fn(Version) -> bool {
    |v: Version| protected.contains(v.digest) || attesting.contains(v.digest)
}

/// Keeping a candidate that a retained tagged version refers to, or that attests one. A reference outweighs an attestation.
pub open spec fn keep_needed(protected: Set<Seq<char>>) -> spec_fn(Version) -> Keeping {
    |v: Version|
        Keeping {
            version: v,
            reason: if protected.contains(v.digest) {
                KeepReason::ReferencedByRetained
            } else {
                KeepReason::AttestsRetained
            },
        }
}

/// What [`finalize`] decides.
pub open spec fn finalized(
    selection: Selected,
    protected: Set<Seq<char>>,
    attesting: Set<Seq<char>>,
) -> Plan {
    Plan {
        delete: selection.deletable + delete_for(
            selection.candidates.filter(is_orphan(protected, attesting)),
            DeleteReason::OrphanedChild,
        ),
        keep: selection.kept + selection.candidates.filter(
            is_needed(protected, attesting),
        ).map_values(keep_needed(protected)),
    }
}

/// What [`finalize_builds_only`] decides.
pub open spec fn finalized_builds_only(selection: Selected) -> Plan {
    Plan {
        delete: selection.deletable,
        keep: selection.kept + keep_for(selection.candidates, KeepReason::UntaggedPassSkipped),
    }
}

/// Keeping a candidate.
fn keep_candidate(c: CandidateUntagged, reason: KeepReason) -> (r: KeptVersion)
    ensures
        r@ == (Keeping { version: c@, reason }),
{
    let tags: Vec<String> = Vec::new();
    assert(texts(tags@) =~= Seq::<Seq<char>>::empty());
    KeptVersion { id: c.id, digest: c.digest, tags, created_at: c.created_at, reason }
}

/// Deleting a candidate.
fn delete_candidate(c: CandidateUntagged) -> (r: PlannedDelete)
    ensures
        r@ == (Deletion { version: c@, reason: DeleteReason::OrphanedChild }),
{
    let tags: Vec<String> = Vec::new();
    assert(texts(tags@) =~= Seq::<Seq<char>>::empty());
    PlannedDelete {
        id: c.id,
        digest: c.digest,
        tags,
        created_at: c.created_at,
        reason: DeleteReason::OrphanedChild,
    }
}

/// Decide about the untagged candidates.
///
/// A candidate is kept where a retained index refers to it (`protected_digests`), or where it
/// attests a retained image (`subject_protected`); otherwise it is deleted as an orphan.
pub fn finalize(
    selection: Selection,
    protected_digests: &DigestSet,
    subject_protected: &DigestSet,
) -> (r: PrunePlan)
    ensures
        r@ == finalized(selection@, protected_digests@, subject_protected@),
{
    let ghost sel = selection@;
    let ghost orphan = is_orphan(protected_digests@, subject_protected@);
    let ghost needed = is_needed(protected_digests@, subject_protected@);
    let ghost keep_it = keep_needed(protected_digests@);
    let Selection {
        retained_digests: _,
        deletable_build,
        candidate_untagged,
        kept,
        has_untagged: _,
    } = selection;
    let mut delete: Vec<PlannedDelete> = deletable_build;
    let mut keep: Vec<KeptVersion> = kept;
    let ghost cc = candidate_untagged@;
    proof {
        reveal(Seq::filter);
        assert(deletions(delete@) =~= sel.deletable + delete_for(
            sel.candidates.take(0).filter(orphan),
            DeleteReason::OrphanedChild,
        ));
        assert(keepings(keep@) =~= sel.kept + sel.candidates.take(0).filter(needed).map_values(
            keep_it,
        ));
    }
    for c in it: candidate_untagged.into_iter()
        invariant
            it.seq() == cc,
            orphan == is_orphan(protected_digests@, subject_protected@),
            needed == is_needed(protected_digests@, subject_protected@),
            keep_it == keep_needed(protected_digests@),
            sel.candidates == cc.map_values(|c: CandidateUntagged| c@),
            deletions(delete@) == sel.deletable + delete_for(
                sel.candidates.take(it.index() as int).filter(orphan),
                DeleteReason::OrphanedChild,
            ),
            keepings(keep@) == sel.kept + sel.candidates.take(it.index() as int).filter(
                needed,
            ).map_values(keep_it),
    {
        let ghost i = it.index() as int;
        let ghost v = c@;
        let ghost delete_before = deletions(delete@);
        let ghost keep_before = keepings(keep@);
        proof {
            assert(sel.candidates[i] == v);
            lemma_filter_step(sel.candidates, i, orphan);
            lemma_filter_step(sel.candidates, i, needed);
        }
        if protected_digests.contains(c.digest.as_str()) {
            keep.push(keep_candidate(c, KeepReason::ReferencedByRetained));
        } else if subject_protected.contains(c.digest.as_str()) {
            keep.push(keep_candidate(c, KeepReason::AttestsRetained));
        } else {
            delete.push(delete_candidate(c));
        }
        proof {
            if needed(v) {
                assert(keepings(keep@) =~= keep_before.push(keep_it(v)));
                assert(keepings(keep@) =~= sel.kept + sel.candidates.take(i + 1).filter(
                    needed,
                ).map_values(keep_it));
            } else {
                assert(deletions(delete@) =~= delete_before.push(
                    Deletion { version: v, reason: DeleteReason::OrphanedChild },
                ));
                assert(deletions(delete@) =~= sel.deletable + delete_for(
                    sel.candidates.take(i + 1).filter(orphan),
                    DeleteReason::OrphanedChild,
                ));
            }
        }
    }
    assert(sel.candidates.take(cc.len() as int) =~= sel.candidates);
    PrunePlan { delete, keep }
}

/// The decision where not every retained manifest could be read, so that it is not known which
/// untagged versions are children of a retained image. Only build versions are deleted, which is
/// safe: deleting an index does not delete its children.
pub fn finalize_builds_only(selection: Selection) -> (r: PrunePlan)
    ensures
        r@ == finalized_builds_only(selection@),
{
    let ghost sel = selection@;
    let Selection {
        retained_digests: _,
        deletable_build,
        candidate_untagged,
        kept,
        has_untagged: _,
    } = selection;
    let mut keep: Vec<KeptVersion> = kept;
    let ghost cc = candidate_untagged@;
    assert(keepings(keep@) =~= sel.kept + keep_for(
        sel.candidates.take(0),
        KeepReason::UntaggedPassSkipped,
    ));
    for c in it: candidate_untagged.into_iter()
        invariant
            it.seq() == cc,
            sel.candidates == cc.map_values(|c: CandidateUntagged| c@),
            keepings(keep@) == sel.kept + keep_for(
                sel.candidates.take(it.index() as int),
                KeepReason::UntaggedPassSkipped,
            ),
    {
        let ghost i = it.index() as int;
        let ghost v = c@;
        let ghost keep_before = keepings(keep@);
        keep.push(keep_candidate(c, KeepReason::UntaggedPassSkipped));
        proof {
            assert(sel.candidates[i] == v);
            assert(sel.candidates.take(i + 1) =~= sel.candidates.take(i).push(v));
            assert(keepings(keep@) =~= keep_before.push(
                Keeping { version: v, reason: KeepReason::UntaggedPassSkipped },
            ));
            assert(keepings(keep@) =~= sel.kept + keep_for(
                sel.candidates.take(i + 1),
                KeepReason::UntaggedPassSkipped,
            ));
        }
    }
    assert(sel.candidates.take(cc.len() as int) =~= sel.candidates);
    PrunePlan { delete: deletable_build, keep }
}

/// Whether [`select`] asks for the age of any of the versions.
pub fn asks_for_age(versions: &[VersionInput], policy: &Policy) -> (r: bool)
    ensures
        r == asks_age(versions_of(versions@), *policy),
{
    let ghost vv = versions_of(versions@);
    let ghost all = Seq::new(vv.len(), |i: int| i);
    let ghost build_at = |i: int| class(vv[i]) == Classification::Build;
    let mut builds: usize = 0;
    proof {
        reveal(Seq::filter);
        assert(all.take(0).filter(build_at).len() == 0);
    }
    for i in 0..versions.len()
        invariant
            vv == versions_of(versions@),
            all == Seq::new(vv.len(), |i: int| i),
            build_at == (|i: int| class(vv[i]) == Classification::Build),
            builds <= i,
            builds == all.take(i as int).filter(build_at).len(),
            forall|k: int|
                0 <= k < i ==> class(#[trigger] vv[k]) != Classification::Untagged,
    {
        proof {
            assert(vv[i as int] == versions@[i as int]@);
            assert(all[i as int] == i);
            lemma_filter_step(all, i as int, build_at);
        }
        match classify(versions[i].tags.as_slice()) {
            Classification::Protected => {},
            Classification::Build => {
                builds = builds + 1;
            },
            Classification::Untagged => {
                assert(class(vv[i as int]) == Classification::Untagged);
                return true;
            },
        }
    }
    assert(all.take(all.len() as int) =~= all);
    policy.keep_at_least < builds
}

} // verus!
