//! What holds of every plan.

use crate::domain::plan::{
    any_untagged, asks_age, build_places, build_rank, builds_beyond, builds_within, class,
    delete_for, digests_of, finalized, finalized_builds_only, is_candidate, is_needed, is_old,
    is_orphan, is_recent, keep_for, keep_needed, keep_outright, kept_outright,
    lemma_build_rank_total, lemma_filter_step, ranked_builds, selected, versions_of,
    CandidateUntagged, DeleteReason, Deletion, KeepReason, Keeping, KeptVersion, Plan,
    PlannedDelete, PrunePlan, Selected, Selection, Version, VersionInput,
};
use crate::domain::tag::{
    build_tag, class_of, law_class_of_tags, law_one_text_tag_protects, Classification,
};
use crate::policy::Policy;
use crate::time::Timestamp;
use vstd::prelude::*;
use vstd::seq_lib::{group_to_multiset_ensures, lemma_multiset_commutative, lemma_sorted_unique};

verus! {

/// The versions that a plan deletes.
pub open spec fn deleted(plan: Plan) -> Seq<Version> {
    plan.delete.map_values(|d: Deletion| d.version)
}

/// The versions that a plan keeps.
pub open spec fn retained(plan: Plan) -> Seq<Version> {
    plan.keep.map_values(|k: Keeping| k.version)
}

/// Whether a version is a build version.
pub open spec fn is_build() -> spec_fn(Version) -> bool {
    |v: Version| class(v) == Classification::Build
}

/// A filter and the filter of what it leaves out share the elements between them.
proof fn lemma_filter_partition<A>(s: Seq<A>, f: spec_fn(A) -> bool, g: spec_fn(A) -> bool)
    requires
        forall|i: int| 0 <= i < s.len() ==> f(#[trigger] s[i]) != g(s[i]),
    ensures
        s.filter(f).to_multiset().add(s.filter(g).to_multiset()) == s.to_multiset(),
    decreases s.len(),
{
    broadcast use group_to_multiset_ensures;

    reveal(Seq::filter);
    if s.len() > 0 {
        let t = s.drop_last();
        assert forall|i: int| 0 <= i < t.len() implies f(#[trigger] t[i]) != g(t[i]) by {
            assert(t[i] == s[i]);
        }
        lemma_filter_partition(t, f, g);
        assert(s =~= t.push(s.last()));
        assert(f(s[s.len() - 1]) != g(s[s.len() - 1]));
        assert(s.filter(f).to_multiset().add(s.filter(g).to_multiset()) =~= s.to_multiset());
    } else {
        assert(s.filter(f).to_multiset().add(s.filter(g).to_multiset()) =~= s.to_multiset());
    }
}

/// Mapping rearranged elements rearranges what they map to.
proof fn lemma_map_multiset<A, B>(a: Seq<A>, b: Seq<A>, f: spec_fn(A) -> B)
    requires
        a.to_multiset() == b.to_multiset(),
    ensures
        a.map_values(f).to_multiset() == b.map_values(f).to_multiset(),
    decreases a.len(),
{
    broadcast use group_to_multiset_ensures;

    assert(a.len() == a.to_multiset().len());
    assert(b.len() == b.to_multiset().len());
    if a.len() > 0 {
        let x = a.last();
        assert(a.contains(x));
        assert(a.to_multiset().count(x) > 0);
        assert(b.contains(x));
        let k = choose|k: int| 0 <= k < b.len() && b[k] == x;
        let a1 = a.drop_last();
        let b1 = b.remove(k);
        assert(a1 =~= a.remove(a.len() - 1));
        assert(a1.to_multiset() == b1.to_multiset());
        lemma_map_multiset(a1, b1, f);
        assert(a.map_values(f).remove(a.len() - 1) =~= a1.map_values(f));
        assert(b.map_values(f).remove(k) =~= b1.map_values(f));
        let ma = a.map_values(f);
        let mb = b.map_values(f);
        assert(ma.contains(ma[a.len() - 1]));
        assert(mb.contains(mb[k]));
        assert(ma.to_multiset() =~= a1.map_values(f).to_multiset().insert(f(x)));
        assert(mb.to_multiset() =~= b1.map_values(f).to_multiset().insert(f(x)));
    } else {
        assert(a.map_values(f) =~= b.map_values(f));
    }
}

/// The places that pass a filter on the elements there: they rise, and lead to the elements
/// that pass.
proof fn lemma_places<A>(s: Seq<A>, f: spec_fn(A) -> bool, k: int)
    requires
        0 <= k <= s.len(),
    ensures
        ({
            let at = Seq::new(s.len(), |i: int| i).take(k).filter(|i: int| f(s[i]));
            &&& at.map_values(|i: int| s[i]) == s.take(k).filter(f)
            &&& forall|i: int| 0 <= i < at.len() ==> 0 <= #[trigger] at[i] < k && f(s[at[i]])
            &&& forall|i: int, j: int| 0 <= i < j < at.len() ==> #[trigger] at[i] < #[trigger] at[j]
        }),
    decreases k,
{
    let all = Seq::new(s.len(), |i: int| i);
    let g = |i: int| f(s[i]);
    let h = |i: int| s[i];
    if k > 0 {
        lemma_places(s, f, k - 1);
        lemma_filter_step(all, k - 1, g);
        lemma_filter_step(s, k - 1, f);
        let before = all.take(k - 1).filter(g);
        if g(k - 1) {
            assert(before.push(k - 1).map_values(h) =~= before.map_values(h).push(s[k - 1]));
        }
    } else {
        reveal(Seq::filter);
        assert(all.take(0).filter(g).map_values(h) =~= s.take(0).filter(f));
    }
}

/// The places of the build versions rise, and lead to the build versions.
proof fn lemma_build_places(versions: Seq<Version>)
    ensures
        build_places(versions).map_values(|i: int| versions[i]) == versions.filter(is_build()),
        forall|i: int|
            0 <= i < build_places(versions).len() ==> 0 <= #[trigger] build_places(versions)[i]
                < versions.len() && class(versions[build_places(versions)[i]])
                == Classification::Build,
        forall|i: int, j: int|
            0 <= i < j < build_places(versions).len() ==> #[trigger] build_places(versions)[i]
                < #[trigger] build_places(versions)[j],
{
    let all = Seq::new(versions.len(), |i: int| i);
    let f = is_build();
    lemma_places(versions, f, versions.len() as int);
    assert(all.take(versions.len() as int) =~= all);
    assert(versions.take(versions.len() as int) =~= versions);
    assert((|i: int| f(versions[i])) =~= (|i: int| class(versions[i]) == Classification::Build));
}

/// The ranked builds are the build versions, rearranged.
proof fn lemma_ranked_builds(versions: Seq<Version>)
    ensures
        ranked_builds(versions).to_multiset() == versions.filter(is_build()).to_multiset(),
        ranked_builds(versions).len() == build_places(versions).len(),
{
    broadcast use group_to_multiset_ensures;

    let at = build_places(versions);
    let leq = build_rank(versions);
    let h = |i: int| versions[i];
    lemma_build_rank_total(versions);
    at.lemma_sort_by_ensures(leq);
    lemma_build_places(versions);
    lemma_map_multiset(at.sort_by(leq), at, h);
    assert(at.len() == at.to_multiset().len());
    assert(at.sort_by(leq).len() == at.sort_by(leq).to_multiset().len());
}

/// Reading the versions out of a list of decisions gives the versions back.
proof fn lemma_versions_back(s: Seq<Version>, reason: DeleteReason, why: KeepReason)
    ensures
        delete_for(s, reason).map_values(|d: Deletion| d.version) == s,
        keep_for(s, why).map_values(|k: Keeping| k.version) == s,
{
    assert(delete_for(s, reason).map_values(|d: Deletion| d.version) =~= s);
    assert(keep_for(s, why).map_values(|k: Keeping| k.version) =~= s);
}

/// What a selection decides at once, and the candidates that it leaves open, are together the
/// versions of the package.
proof fn lemma_selected_parts(versions: Seq<Version>, policy: Policy, now: Timestamp)
    ensures
        ({
            let s = selected(versions, policy, now);
            let gone = s.deletable.map_values(|d: Deletion| d.version);
            let here = s.kept.map_values(|k: Keeping| k.version);
            gone.to_multiset().add(here.to_multiset()).add(s.candidates.to_multiset())
                == versions.to_multiset()
        }),
{
    let s = selected(versions, policy, now);
    let gone = s.deletable.map_values(|d: Deletion| d.version);
    let here = s.kept.map_values(|k: Keeping| k.version);
    let ranked = ranked_builds(versions);
    let within = builds_within(versions, policy);
    let beyond = builds_beyond(versions, policy);
    let old_ones = beyond.filter(is_old(policy, now));
    let recent_ones = beyond.filter(is_recent(policy, now));
    let outright = versions.filter(kept_outright(policy, now));
    let candidates = versions.filter(is_candidate(policy, now));
    let builds = versions.filter(is_build());
    let others = |v: Version| class(v) != Classification::Build;
    lemma_versions_back(old_ones, DeleteReason::OldBuildImage, KeepReason::NotOldEnough);
    assert(gone == old_ones);
    assert(here =~= outright + within + recent_ones);
    lemma_multiset_commutative(outright + within, recent_ones);
    lemma_multiset_commutative(outright, within);
    assert(within + beyond =~= ranked);
    lemma_multiset_commutative(within, beyond);
    lemma_filter_partition(beyond, is_old(policy, now), is_recent(policy, now));
    lemma_ranked_builds(versions);
    lemma_filter_partition(versions, is_build(), others);
    let rest = versions.filter(others);
    broadcast use vstd::seq_lib::group_filter_ensures;

    lemma_filter_filter(versions, others, kept_outright(policy, now));
    lemma_filter_filter(versions, others, is_candidate(policy, now));
    lemma_filter_partition(rest, kept_outright(policy, now), is_candidate(policy, now));
    assert(gone.to_multiset().add(here.to_multiset()).add(s.candidates.to_multiset())
        =~= versions.to_multiset());
}

/// Filtering by a condition and then by a narrower one is filtering by the narrower one.
proof fn lemma_filter_filter<A>(s: Seq<A>, wide: spec_fn(A) -> bool, narrow: spec_fn(A) -> bool)
    requires
        forall|a: A| #[trigger] narrow(a) ==> wide(a),
    ensures
        s.filter(wide).filter(narrow) == s.filter(narrow),
    decreases s.len(),
{
    reveal(Seq::filter);
    if s.len() > 0 {
        lemma_filter_filter(s.drop_last(), wide, narrow);
        if wide(s.last()) {
            assert(s.filter(wide).drop_last() =~= s.drop_last().filter(wide));
        }
    }
}

/// Every version of the package is either deleted or kept, and none is both or occurs more often
/// than before.
pub proof fn law_plan_accounts_for_every_version(
    versions: Seq<Version>,
    policy: Policy,
    now: Timestamp,
    protected: Set<Seq<char>>,
    attesting: Set<Seq<char>>,
)
    ensures
        ({
            let plan = finalized(selected(versions, policy, now), protected, attesting);
            deleted(plan).to_multiset().add(retained(plan).to_multiset()) == versions.to_multiset()
        }),
        ({
            let plan = finalized_builds_only(selected(versions, policy, now));
            deleted(plan).to_multiset().add(retained(plan).to_multiset()) == versions.to_multiset()
        }),
{
    let s = selected(versions, policy, now);
    let gone = s.deletable.map_values(|d: Deletion| d.version);
    let here = s.kept.map_values(|k: Keeping| k.version);
    lemma_selected_parts(versions, policy, now);

    let plan = finalized(s, protected, attesting);
    let orphans = s.candidates.filter(is_orphan(protected, attesting));
    let needed = s.candidates.filter(is_needed(protected, attesting));
    lemma_versions_back(orphans, DeleteReason::OrphanedChild, KeepReason::NotOldEnough);
    assert(needed.map_values(keep_needed(protected)).map_values(|k: Keeping| k.version)
        =~= needed);
    assert(deleted(plan) =~= gone + orphans);
    assert(retained(plan) =~= here + needed);
    lemma_multiset_commutative(gone, orphans);
    lemma_multiset_commutative(here, needed);
    lemma_filter_partition(
        s.candidates,
        is_orphan(protected, attesting),
        is_needed(protected, attesting),
    );
    assert(deleted(plan).to_multiset().add(retained(plan).to_multiset())
        =~= versions.to_multiset());

    let degraded = finalized_builds_only(s);
    lemma_versions_back(
        s.candidates,
        DeleteReason::OrphanedChild,
        KeepReason::UntaggedPassSkipped,
    );
    assert(deleted(degraded) =~= gone);
    assert(retained(degraded) =~= here + s.candidates);
    lemma_multiset_commutative(here, s.candidates);
    assert(deleted(degraded).to_multiset().add(retained(degraded).to_multiset())
        =~= versions.to_multiset());
}

/// What passes a filter is in the sequence and satisfies the condition.
pub proof fn lemma_filtered<A>(s: Seq<A>, f: spec_fn(A) -> bool, a: A)
    ensures
        s.filter(f).contains(a) <==> s.contains(a) && f(a),
    decreases s.len(),
{
    reveal(Seq::filter);
    if s.len() > 0 {
        let t = s.drop_last();
        lemma_filtered(t, f, a);
        assert(s =~= t.push(s.last()));
        lemma_pushed(t, s.last(), a);
        lemma_pushed(t.filter(f), s.last(), a);
    }
}

/// What a sequence with one element more contains.
proof fn lemma_pushed<A>(s: Seq<A>, last: A, a: A)
    ensures
        s.push(last).contains(a) <==> s.contains(a) || a == last,
{
    if s.contains(a) {
        let k = choose|k: int| 0 <= k < s.len() && s[k] == a;
        assert(s.push(last)[k] == a);
    }
    if a == last {
        assert(s.push(last)[s.len() as int] == a);
    }
    if s.push(last).contains(a) {
        let k = choose|k: int| 0 <= k < s.push(last).len() && s.push(last)[k] == a;
        if k < s.len() {
            assert(s[k] == a);
        }
    }
}

/// The ranked builds contain the build versions and nothing else.
proof fn lemma_ranked_contains(versions: Seq<Version>, v: Version)
    ensures
        ranked_builds(versions).contains(v) <==> versions.contains(v) && class(v)
            == Classification::Build,
{
    broadcast use group_to_multiset_ensures;

    lemma_ranked_builds(versions);
    lemma_filtered(versions, is_build(), v);
    let a = ranked_builds(versions);
    let b = versions.filter(is_build());
    assert(a.contains(v) <==> a.to_multiset().count(v) > 0);
    assert(b.contains(v) <==> b.to_multiset().count(v) > 0);
}

/// The builds beyond the minimum are among the ranked ones.
proof fn lemma_beyond_contains(versions: Seq<Version>, policy: Policy, v: Version)
    ensures
        builds_beyond(versions, policy).contains(v) ==> versions.contains(v) && class(v)
            == Classification::Build,
{
    let ranked = ranked_builds(versions);
    let beyond = builds_beyond(versions, policy);
    lemma_ranked_contains(versions, v);
    if beyond.contains(v) {
        let k = choose|k: int| 0 <= k < beyond.len() && beyond[k] == v;
        assert(ranked[k + policy.keep_at_least] == v);
    }
}

/// What a deletion must be: of an old build version beyond the minimum that is kept, or of an old
/// untagged version that no retained tagged version refers to and that attests none.
pub open spec fn is_due(
    versions: Seq<Version>,
    policy: Policy,
    now: Timestamp,
    protected: Set<Seq<char>>,
    attesting: Set<Seq<char>>,
    d: Deletion,
) -> bool {
    let v = d.version;
    &&& versions.contains(v)
    &&& policy.older(v.created_at, now)
    &&& match d.reason {
        DeleteReason::OldBuildImage => class(v) == Classification::Build && builds_beyond(
            versions,
            policy,
        ).contains(v),
        DeleteReason::OrphanedChild => class(v) == Classification::Untagged && !protected.contains(
            v.digest,
        ) && !attesting.contains(v.digest),
    }
}

/// A list of deletions for one reason deletes the versions of the list for that reason.
proof fn lemma_delete_for(s: Seq<Version>, reason: DeleteReason, d: Deletion)
    ensures
        delete_for(s, reason).contains(d) <==> s.contains(d.version) && d.reason == reason,
{
    let all = delete_for(s, reason);
    if all.contains(d) {
        let k = choose|k: int| 0 <= k < all.len() && all[k] == d;
        assert(s[k] == d.version);
    }
    if s.contains(d.version) && d.reason == reason {
        let k = choose|k: int| 0 <= k < s.len() && s[k] == d.version;
        assert(all[k] == d);
    }
}

/// What two sequences, one after the other, contain.
proof fn lemma_added<A>(s: Seq<A>, t: Seq<A>, a: A)
    ensures
        (s + t).contains(a) <==> s.contains(a) || t.contains(a),
{
    if s.contains(a) {
        let k = choose|k: int| 0 <= k < s.len() && s[k] == a;
        assert((s + t)[k] == a);
    }
    if t.contains(a) {
        let k = choose|k: int| 0 <= k < t.len() && t[k] == a;
        assert((s + t)[s.len() + k] == a);
    }
    if (s + t).contains(a) {
        let k = choose|k: int| 0 <= k < (s + t).len() && (s + t)[k] == a;
        if k < s.len() {
            assert(s[k] == a);
        } else {
            assert(t[k - s.len()] == a);
        }
    }
}

/// A plan deletes exactly what is due: old build versions beyond the minimum that is kept, and old
/// untagged versions that no retained tagged version refers to and that attest none. Where the
/// retained manifests are not all known, it deletes exactly the former.
pub proof fn law_exactly_what_is_due_is_deleted(
    versions: Seq<Version>,
    policy: Policy,
    now: Timestamp,
    protected: Set<Seq<char>>,
    attesting: Set<Seq<char>>,
    d: Deletion,
)
    ensures
        finalized(selected(versions, policy, now), protected, attesting).delete.contains(d)
            <==> is_due(versions, policy, now, protected, attesting, d),
        finalized_builds_only(selected(versions, policy, now)).delete.contains(d) <==> is_due(
            versions,
            policy,
            now,
            protected,
            attesting,
            d,
        ) && d.reason == DeleteReason::OldBuildImage,
{
    let s = selected(versions, policy, now);
    let v = d.version;
    let beyond = builds_beyond(versions, policy);
    let old_ones = beyond.filter(is_old(policy, now));
    let orphans = s.candidates.filter(is_orphan(protected, attesting));
    lemma_filtered(beyond, is_old(policy, now), v);
    lemma_beyond_contains(versions, policy, v);
    lemma_filtered(versions, is_candidate(policy, now), v);
    lemma_filtered(s.candidates, is_orphan(protected, attesting), v);
    lemma_delete_for(old_ones, DeleteReason::OldBuildImage, d);
    lemma_delete_for(orphans, DeleteReason::OrphanedChild, d);
    lemma_added(s.deletable, delete_for(orphans, DeleteReason::OrphanedChild), d);
}

/// The version of a deletion that a plan lists.
proof fn lemma_deleted_contains(plan: Plan, v: Version)
    ensures
        deleted(plan).contains(v) <==> exists|d: Deletion|
            #[trigger] plan.delete.contains(d) && d.version == v,
{
    if deleted(plan).contains(v) {
        let k = choose|k: int| 0 <= k < deleted(plan).len() && deleted(plan)[k] == v;
        assert(plan.delete.contains(plan.delete[k]));
    }
    if exists|d: Deletion| #[trigger] plan.delete.contains(d) && d.version == v {
        let d = choose|d: Deletion| #[trigger] plan.delete.contains(d) && d.version == v;
        let k = choose|k: int| 0 <= k < plan.delete.len() && plan.delete[k] == d;
        assert(deleted(plan)[k] == v);
    }
}

/// A version with a tag that is no build tag is never deleted, whatever its age and its other
/// tags, and whatever else is known.
pub proof fn law_text_tagged_is_never_deleted(
    versions: Seq<Version>,
    policy: Policy,
    now: Timestamp,
    protected: Set<Seq<char>>,
    attesting: Set<Seq<char>>,
    v: Version,
    tag: Seq<char>,
)
    requires
        v.tags.contains(tag),
        !build_tag(tag),
    ensures
        !deleted(finalized(selected(versions, policy, now), protected, attesting)).contains(v),
        !deleted(finalized_builds_only(selected(versions, policy, now))).contains(v),
{
    law_one_text_tag_protects(v.tags, tag);
    lemma_no_due(versions, policy, now, protected, attesting, v);
}

/// A version that is due for no reason is not deleted.
proof fn lemma_no_due(
    versions: Seq<Version>,
    policy: Policy,
    now: Timestamp,
    protected: Set<Seq<char>>,
    attesting: Set<Seq<char>>,
    v: Version,
)
    requires
        forall|d: Deletion|
            d.version == v ==> !(#[trigger] is_due(
                versions,
                policy,
                now,
                protected,
                attesting,
                d,
            )),
    ensures
        !deleted(finalized(selected(versions, policy, now), protected, attesting)).contains(v),
        !deleted(finalized_builds_only(selected(versions, policy, now))).contains(v),
{
    let full = finalized(selected(versions, policy, now), protected, attesting);
    let part = finalized_builds_only(selected(versions, policy, now));
    lemma_deleted_contains(full, v);
    lemma_deleted_contains(part, v);
    assert forall|d: Deletion| #[trigger] full.delete.contains(d) implies d.version != v by {
        law_exactly_what_is_due_is_deleted(versions, policy, now, protected, attesting, d);
    }
    assert forall|d: Deletion| #[trigger] part.delete.contains(d) implies d.version != v by {
        law_exactly_what_is_due_is_deleted(versions, policy, now, protected, attesting, d);
    }
}

/// A version that is not older than the cutoff is never deleted.
pub proof fn law_recent_is_never_deleted(
    versions: Seq<Version>,
    policy: Policy,
    now: Timestamp,
    protected: Set<Seq<char>>,
    attesting: Set<Seq<char>>,
    v: Version,
)
    requires
        !policy.older(v.created_at, now),
    ensures
        !deleted(finalized(selected(versions, policy, now), protected, attesting)).contains(v),
        !deleted(finalized_builds_only(selected(versions, policy, now))).contains(v),
{
    lemma_no_due(versions, policy, now, protected, attesting, v);
}

/// An untagged version that a retained manifest refers to, or that attests something retained, is
/// never deleted.
pub proof fn law_referenced_is_never_deleted(
    versions: Seq<Version>,
    policy: Policy,
    now: Timestamp,
    protected: Set<Seq<char>>,
    attesting: Set<Seq<char>>,
    v: Version,
)
    requires
        class(v) == Classification::Untagged,
        protected.contains(v.digest) || attesting.contains(v.digest),
    ensures
        !deleted(finalized(selected(versions, policy, now), protected, attesting)).contains(v),
        !deleted(finalized_builds_only(selected(versions, policy, now))).contains(v),
{
    lemma_no_due(versions, policy, now, protected, attesting, v);
}

/// Where the retained manifests are not all known, no untagged version is deleted.
pub proof fn law_degraded_plan_spares_untagged(
    versions: Seq<Version>,
    policy: Policy,
    now: Timestamp,
    v: Version,
)
    requires
        class(v) == Classification::Untagged,
    ensures
        !deleted(finalized_builds_only(selected(versions, policy, now))).contains(v),
{
    let everything = Set::<Seq<char>>::full();
    assert(everything.contains(v.digest));
    lemma_no_due(versions, policy, now, everything, everything, v);
}

/// The builds are ranked newest first, and by descending id where they were created at the same
/// instant.
proof fn lemma_ranked_sorted(versions: Seq<Version>)
    ensures
        forall|i: int, j: int|
            0 <= i < j < ranked_builds(versions).len() ==> no_less_recent(
                #[trigger] ranked_builds(versions)[i],
                #[trigger] ranked_builds(versions)[j],
            ),
{
    let at = build_places(versions);
    let leq = build_rank(versions);
    let order = at.sort_by(leq);
    lemma_build_rank_total(versions);
    at.lemma_sort_by_ensures(leq);
    assert forall|i: int, j: int| 0 <= i < j < ranked_builds(versions).len() implies no_less_recent(
        #[trigger] ranked_builds(versions)[i],
        #[trigger] ranked_builds(versions)[j],
    ) by {
        assert(leq(order[i], order[j]));
    }
}

/// Whether a build version is no less recent than another: created later, or at the same instant
/// and with an id that is no smaller.
pub open spec fn no_less_recent(a: Version, b: Version) -> bool {
    b.created_at.before(a.created_at) || (a.created_at == b.created_at && b.id <= a.id)
}

/// The most recent build versions are kept, whatever their age: as many as the policy asks for, or
/// all where there are fewer. None of the others is more recent than any of these, and no more of
/// them are deleted than there are beyond that number.
pub proof fn law_most_recent_builds_are_kept(
    versions: Seq<Version>,
    policy: Policy,
    now: Timestamp,
    protected: Set<Seq<char>>,
    attesting: Set<Seq<char>>,
)
    ensures
        ({
            let builds = versions.filter(is_build());
            let within = builds_within(versions, policy);
            let beyond = builds_beyond(versions, policy);
            let full = finalized(selected(versions, policy, now), protected, attesting);
            let part = finalized_builds_only(selected(versions, policy, now));
            &&& within.len() == if policy.keep_at_least < builds.len() {
                policy.keep_at_least as nat
            } else {
                builds.len()
            }
            &&& within.to_multiset().add(beyond.to_multiset()) == builds.to_multiset()
            &&& forall|i: int, j: int|
                0 <= i < within.len() && 0 <= j < beyond.len() ==> no_less_recent(
                    #[trigger] within[i],
                    #[trigger] beyond[j],
                )
            &&& forall|i: int|
                0 <= i < within.len() ==> {
                    let kept = Keeping {
                        version: #[trigger] within[i],
                        reason: KeepReason::WithinKeepAtLeast,
                    };
                    full.keep.contains(kept) && part.keep.contains(kept)
                }
            &&& selected(versions, policy, now).deletable.len() <= beyond.len()
        }),
{
    broadcast use {group_to_multiset_ensures, vstd::seq_lib::group_filter_ensures};

    let builds = versions.filter(is_build());
    let ranked = ranked_builds(versions);
    let within = builds_within(versions, policy);
    let beyond = builds_beyond(versions, policy);
    let s = selected(versions, policy, now);
    let full = finalized(s, protected, attesting);
    let part = finalized_builds_only(s);
    lemma_ranked_builds(versions);
    lemma_ranked_sorted(versions);
    assert(ranked.len() == ranked.to_multiset().len());
    assert(builds.len() == builds.to_multiset().len());
    assert(within + beyond =~= ranked);
    lemma_multiset_commutative(within, beyond);
    assert forall|i: int, j: int|
        0 <= i < within.len() && 0 <= j < beyond.len() implies no_less_recent(
        #[trigger] within[i],
        #[trigger] beyond[j],
    ) by {
        assert(ranked[i] == within[i]);
        assert(ranked[policy.keep_at_least + j] == beyond[j]);
    }
    let outright = versions.filter(kept_outright(policy, now)).map_values(
        |v: Version| keep_outright(v),
    );
    let listed = keep_for(within, KeepReason::WithinKeepAtLeast);
    assert forall|i: int| 0 <= i < within.len() implies ({
        let kept = Keeping {
            version: #[trigger] within[i],
            reason: KeepReason::WithinKeepAtLeast,
        };
        full.keep.contains(kept) && part.keep.contains(kept)
    }) by {
        let kept = Keeping { version: within[i], reason: KeepReason::WithinKeepAtLeast };
        assert(listed[i] == kept);
        assert(s.kept[outright.len() + i] == kept);
        assert(full.keep[outright.len() + i] == kept);
        assert(part.keep[outright.len() + i] == kept);
    }
}

/// A filter that everything passes changes nothing.
pub proof fn lemma_filter_all<A>(s: Seq<A>, f: spec_fn(A) -> bool)
    requires
        forall|i: int| 0 <= i < s.len() ==> f(#[trigger] s[i]),
    ensures
        s.filter(f) == s,
    decreases s.len(),
{
    reveal(Seq::filter);
    if s.len() > 0 {
        let t = s.drop_last();
        assert forall|i: int| 0 <= i < t.len() implies f(#[trigger] t[i]) by {
            assert(t[i] == s[i]);
        }
        lemma_filter_all(t, f);
        assert(f(s[s.len() - 1]));
        assert(s =~= t.push(s.last()));
    } else {
        assert(s.filter(f) =~= s);
    }
}

/// Ranking the build versions of a list gives the same as ranking them on their own.
proof fn lemma_ranked_alone(versions: Seq<Version>)
    ensures
        ranked_builds(versions) == ranked_builds(versions.filter(is_build())),
{
    let alone = versions.filter(is_build());
    let at = build_places(versions);
    let id = build_places(alone);
    let leq = build_rank(versions);
    let own = build_rank(alone);
    let to_place = |i: int| at[i];
    lemma_build_places(versions);
    lemma_build_places(alone);
    lemma_build_rank_total(versions);
    lemma_build_rank_total(alone);
    assert(at.map_values(|i: int| versions[i]).len() == at.len());
    assert(alone.len() == at.len());
    assert forall|i: int| 0 <= i < alone.len() implies #[trigger] alone[i] == versions[at[i]]
        && class(alone[i]) == Classification::Build by {
        assert(at.map_values(|i: int| versions[i])[i] == versions[at[i]]);
        assert(class(versions[at[i]]) == Classification::Build);
    }
    let places = Seq::new(alone.len(), |i: int| i);
    let g = |i: int| class(alone[i]) == Classification::Build;
    assert forall|i: int| 0 <= i < places.len() implies g(#[trigger] places[i]) by {
        assert(class(alone[i]) == Classification::Build);
    }
    lemma_filter_all(places, g);
    assert(id == places);
    let sorted = id.sort_by(own);
    id.lemma_sort_by_ensures(own);
    at.lemma_sort_by_ensures(leq);
    lemma_map_multiset(sorted, id, to_place);
    assert(id.map_values(to_place) =~= at);
    let carried = sorted.map_values(to_place);
    lemma_places_among(id, sorted, alone.len() as int);
    assert forall|i: int, j: int| 0 <= i < j < carried.len() implies #[trigger] leq(
        carried[i],
        carried[j],
    ) by {
        let p = sorted[i];
        let q = sorted[j];
        assert(own(p, q));
        assert(alone[p] == versions[at[p]] && alone[q] == versions[at[q]]);
        if p < q {
            assert(at[p] < at[q]);
        } else if q < p {
            assert(at[q] < at[p]);
        }
    }
    lemma_sorted_unique(carried, at.sort_by(leq), leq);
    assert(ranked_builds(versions) =~= ranked_builds(alone));
}

/// Versions with other tags, and untagged ones, take no slot of the minimum that is kept: which
/// build versions are kept by number, and which are not, is the same without them.
pub proof fn law_other_versions_take_no_slot(
    versions: Seq<Version>,
    policy: Policy,
    f: spec_fn(Version) -> bool,
)
    requires
        forall|v: Version| class(v) == Classification::Build ==> #[trigger] f(v),
    ensures
        builds_within(versions.filter(f), policy) == builds_within(versions, policy),
        builds_beyond(versions.filter(f), policy) == builds_beyond(versions, policy),
{
    lemma_ranked_alone(versions);
    lemma_ranked_alone(versions.filter(f));
    assert forall|v: Version| #[trigger] is_build()(v) implies f(v) by {
        assert(class(v) == Classification::Build);
    }
    lemma_filter_filter(versions, f, is_build());
}

/// How often an element passes a filter.
proof fn lemma_filter_count<A>(s: Seq<A>, f: spec_fn(A) -> bool, a: A)
    ensures
        s.filter(f).to_multiset().count(a) == if f(a) {
            s.to_multiset().count(a)
        } else {
            0
        },
    decreases s.len(),
{
    broadcast use group_to_multiset_ensures;

    reveal(Seq::filter);
    if s.len() > 0 {
        lemma_filter_count(s.drop_last(), f, a);
        assert(s =~= s.drop_last().push(s.last()));
    }
}

/// Filtering rearranged elements gives rearranged elements.
proof fn lemma_filter_multiset<A>(a: Seq<A>, b: Seq<A>, f: spec_fn(A) -> bool)
    requires
        a.to_multiset() == b.to_multiset(),
    ensures
        a.filter(f).to_multiset() == b.filter(f).to_multiset(),
{
    assert forall|x: A|
        a.filter(f).to_multiset().count(x) == b.filter(f).to_multiset().count(x) by {
        lemma_filter_count(a, f, x);
        lemma_filter_count(b, f, x);
    }
    assert(a.filter(f).to_multiset() =~= b.filter(f).to_multiset());
}

/// Rearranged elements are the same elements.
proof fn lemma_same_elements<A>(a: Seq<A>, b: Seq<A>)
    requires
        a.to_multiset() == b.to_multiset(),
    ensures
        a.to_set() == b.to_set(),
        a.len() == b.len(),
{
    broadcast use group_to_multiset_ensures;

    assert(a.len() == a.to_multiset().len());
    assert(b.len() == b.to_multiset().len());
    assert forall|x: A| a.to_set().contains(x) == b.to_set().contains(x) by {
        assert(a.contains(x) <==> a.to_multiset().count(x) > 0);
        assert(b.contains(x) <==> b.to_multiset().count(x) > 0);
    }
    assert(a.to_set() =~= b.to_set());
}

/// Whether no two versions of a list have the same id.
pub open spec fn distinct_ids(versions: Seq<Version>) -> bool {
    forall|i: int, j: int|
        0 <= i < j < versions.len() ==> (#[trigger] versions[i]).id != (#[trigger] versions[j]).id
}

/// Two rankings of the same versions, which all have ids of their own, are the same.
proof fn lemma_ranking_unique(a: Seq<Version>, b: Seq<Version>)
    requires
        a.to_multiset() == b.to_multiset(),
        distinct_ids(a),
        forall|i: int, j: int|
            0 <= i < j < a.len() ==> no_less_recent(#[trigger] a[i], #[trigger] a[j]),
        forall|i: int, j: int|
            0 <= i < j < b.len() ==> no_less_recent(#[trigger] b[i], #[trigger] b[j]),
    ensures
        a == b,
    decreases a.len(),
{
    broadcast use group_to_multiset_ensures;

    lemma_same_elements(a, b);
    if a.len() > 0 {
        let x = a.last();
        let y = b.last();
        assert(a.contains(x) && b.contains(y));
        assert(b.to_set().contains(x) && a.to_set().contains(y));
        let k = choose|k: int| 0 <= k < b.len() && b[k] == x;
        let m = choose|m: int| 0 <= m < a.len() && a[m] == y;
        if k < b.len() - 1 && m < a.len() - 1 {
            assert(no_less_recent(b[k], b[b.len() - 1]));
            assert(no_less_recent(a[m], a[a.len() - 1]));
            assert(x.id == y.id);
            assert(a[m].id != a[a.len() - 1].id);
        }
        assert(x == y);
        let a1 = a.drop_last();
        let b1 = b.drop_last();
        assert(a1 =~= a.remove(a.len() - 1));
        assert(b1 =~= b.remove(b.len() - 1));
        assert forall|i: int, j: int| 0 <= i < j < a1.len() implies no_less_recent(
            #[trigger] a1[i],
            #[trigger] a1[j],
        ) by {
            assert(no_less_recent(a[i], a[j]));
        }
        assert forall|i: int, j: int| 0 <= i < j < b1.len() implies no_less_recent(
            #[trigger] b1[i],
            #[trigger] b1[j],
        ) by {
            assert(no_less_recent(b[i], b[j]));
        }
        assert forall|i: int, j: int| 0 <= i < j < a1.len() implies (#[trigger] a1[i]).id != (
        #[trigger] a1[j]).id by {
            assert(a[i].id != a[j].id);
        }
        lemma_ranking_unique(a1, b1);
        assert(a =~= a1.push(x));
        assert(b =~= b1.push(y));
    } else {
        assert(a =~= b);
    }
}

/// Ids that are distinct stay so in any other arrangement, and among fewer versions.
proof fn lemma_distinct_below(a: Seq<Version>, b: Seq<Version>)
    requires
        distinct_ids(a),
        forall|v: Version| #[trigger] b.to_multiset().count(v) <= a.to_multiset().count(v),
    ensures
        distinct_ids(b),
{
    broadcast use group_to_multiset_ensures;

    assert forall|i: int, j: int| 0 <= i < j < b.len() implies (#[trigger] b[i]).id != (
    #[trigger] b[j]).id by {
        let x = b[i];
        let y = b[j];
        assert(b.contains(x) && b.contains(y));
        assert(b.to_multiset().count(x) > 0 && b.to_multiset().count(y) > 0);
        assert(a.to_multiset().count(x) > 0 && a.to_multiset().count(y) > 0);
        assert(a.contains(x) && a.contains(y));
        let k = choose|k: int| 0 <= k < a.len() && a[k] == x;
        let m = choose|m: int| 0 <= m < a.len() && a[m] == y;
        if x == y {
            lemma_counted_twice(b, i, j);
            lemma_counted_once(a, x);
        } else if x.id == y.id {
            assert(k != m);
            if k < m {
                assert(a[k].id != a[m].id);
            } else {
                assert(a[m].id != a[k].id);
            }
        }
    }
}

proof fn lemma_counted_twice(s: Seq<Version>, i: int, j: int)
    requires
        0 <= i < j < s.len(),
        s[i] == s[j],
    ensures
        s.to_multiset().count(s[i]) >= 2,
{
    broadcast use group_to_multiset_ensures;

    let x = s[i];
    let t = s.remove(j);
    assert(t[i] == x);
    assert(t.contains(x));
    assert(t.to_multiset().count(x) > 0);
    assert(s.to_multiset() =~= t.to_multiset().insert(x));
}

proof fn lemma_counted_once(s: Seq<Version>, v: Version)
    requires
        distinct_ids(s),
    ensures
        s.to_multiset().count(v) <= 1,
    decreases s.len(),
{
    broadcast use group_to_multiset_ensures;

    if s.len() > 0 {
        let t = s.drop_last();
        assert(s =~= t.push(s.last()));
        assert forall|i: int, j: int| 0 <= i < j < t.len() implies (#[trigger] t[i]).id != (
        #[trigger] t[j]).id by {
            assert(s[i].id != s[j].id);
        }
        lemma_counted_once(t, v);
        if s.last() == v && t.contains(v) {
            let k = choose|k: int| 0 <= k < t.len() && t[k] == v;
            assert(s[k].id != s[s.len() - 1].id);
        }
    }
}

/// The order in which the versions are listed does not matter: as long as all have ids of their
/// own, the same versions are deleted and kept, for the same reasons, and the same are retained.
pub proof fn law_order_of_listing_is_irrelevant(
    a: Seq<Version>,
    b: Seq<Version>,
    policy: Policy,
    now: Timestamp,
    protected: Set<Seq<char>>,
    attesting: Set<Seq<char>>,
)
    requires
        a.to_multiset() == b.to_multiset(),
        distinct_ids(a),
    ensures
        ({
            let sa = selected(a, policy, now);
            let sb = selected(b, policy, now);
            let pa = finalized(sa, protected, attesting);
            let pb = finalized(sb, protected, attesting);
            &&& sa.retained == sb.retained
            &&& sa.has_untagged == sb.has_untagged
            &&& pa.delete.to_multiset() == pb.delete.to_multiset()
            &&& pa.keep.to_multiset() == pb.keep.to_multiset()
        }),
{
    broadcast use group_to_multiset_ensures;

    let sa = selected(a, policy, now);
    let sb = selected(b, policy, now);
    let ra = ranked_builds(a);
    let rb = ranked_builds(b);
    lemma_ranked_builds(a);
    lemma_ranked_builds(b);
    lemma_ranked_sorted(a);
    lemma_ranked_sorted(b);
    lemma_filter_multiset(a, b, is_build());
    assert forall|v: Version| #[trigger] ra.to_multiset().count(v) <= a.to_multiset().count(v) by {
        lemma_filter_count(a, is_build(), v);
    }
    lemma_distinct_below(a, ra);
    lemma_ranking_unique(ra, rb);
    assert(ra == rb);

    let shielded = |v: Version| class(v) == Classification::Protected;
    lemma_filter_multiset(a, b, shielded);
    let digest = |v: Version| v.digest;
    lemma_map_multiset(a.filter(shielded), b.filter(shielded), digest);
    lemma_same_elements(
        a.filter(shielded).map_values(digest),
        b.filter(shielded).map_values(digest),
    );
    lemma_same_elements(a, b);
    assert(sa.has_untagged == sb.has_untagged) by {
        lemma_any_untagged(a, b);
        lemma_any_untagged(b, a);
    }

    let why = |v: Version| keep_outright(v);
    lemma_filter_multiset(a, b, kept_outright(policy, now));
    lemma_map_multiset(
        a.filter(kept_outright(policy, now)),
        b.filter(kept_outright(policy, now)),
        why,
    );
    lemma_filter_multiset(a, b, is_candidate(policy, now));
    lemma_filter_multiset(sa.candidates, sb.candidates, is_orphan(protected, attesting));
    lemma_filter_multiset(sa.candidates, sb.candidates, is_needed(protected, attesting));
    let oa = sa.candidates.filter(is_orphan(protected, attesting));
    let ob = sb.candidates.filter(is_orphan(protected, attesting));
    let na = sa.candidates.filter(is_needed(protected, attesting));
    let nb = sb.candidates.filter(is_needed(protected, attesting));
    lemma_map_multiset(
        oa,
        ob,
        |v: Version| Deletion { version: v, reason: DeleteReason::OrphanedChild },
    );
    lemma_map_multiset(na, nb, keep_needed(protected));
    lemma_multiset_commutative(sa.deletable, delete_for(oa, DeleteReason::OrphanedChild));
    lemma_multiset_commutative(sb.deletable, delete_for(ob, DeleteReason::OrphanedChild));
    lemma_multiset_commutative(sa.kept, na.map_values(keep_needed(protected)));
    lemma_multiset_commutative(sb.kept, nb.map_values(keep_needed(protected)));
    let within = keep_for(builds_within(a, policy), KeepReason::WithinKeepAtLeast);
    let recent = keep_for(
        builds_beyond(a, policy).filter(is_recent(policy, now)),
        KeepReason::NotOldEnough,
    );
    let fa = a.filter(kept_outright(policy, now)).map_values(why);
    let fb = b.filter(kept_outright(policy, now)).map_values(why);
    assert(sa.kept == fa + within + recent);
    assert(sb.kept == fb + within + recent);
    lemma_multiset_commutative(fa + within, recent);
    lemma_multiset_commutative(fb + within, recent);
    lemma_multiset_commutative(fa, within);
    lemma_multiset_commutative(fb, within);
}

proof fn lemma_any_untagged(a: Seq<Version>, b: Seq<Version>)
    requires
        a.to_set() == b.to_set(),
    ensures
        any_untagged(a) ==> any_untagged(b),
{
    if any_untagged(a) {
        let k = choose|k: int|
            0 <= k < a.len() && class(#[trigger] a[k]) == Classification::Untagged;
        assert(a.to_set().contains(a[k]));
        assert(b.contains(a[k]));
        let m = choose|m: int| 0 <= m < b.len() && b[m] == a[k];
        assert(class(b[m]) == Classification::Untagged);
    }
}

/// Whether every version of a list is no less recent than those after it.
spec fn in_order(s: Seq<Version>) -> bool {
    forall|i: int, j: int|
        0 <= i < j < s.len() ==> no_less_recent(#[trigger] s[i], #[trigger] s[j])
}

/// A filter keeps the order.
proof fn lemma_filter_in_order(s: Seq<Version>, f: spec_fn(Version) -> bool)
    requires
        in_order(s),
    ensures
        in_order(s.filter(f)),
    decreases s.len(),
{
    reveal(Seq::filter);
    if s.len() > 0 {
        let t = s.drop_last();
        assert forall|i: int, j: int| 0 <= i < j < t.len() implies no_less_recent(
            #[trigger] t[i],
            #[trigger] t[j],
        ) by {
            assert(no_less_recent(s[i], s[j]));
        }
        lemma_filter_in_order(t, f);
        if f(s.last()) {
            let u = t.filter(f);
            assert forall|i: int, j: int| 0 <= i < j < s.filter(f).len() implies no_less_recent(
                #[trigger] s.filter(f)[i],
                #[trigger] s.filter(f)[j],
            ) by {
                if j < u.len() {
                    assert(no_less_recent(u[i], u[j]));
                } else {
                    lemma_filtered(t, f, u[i]);
                    assert(u.contains(u[i]));
                    let k = choose|k: int| 0 <= k < t.len() && t[k] == u[i];
                    assert(no_less_recent(s[k], s[s.len() - 1]));
                }
            }
        }
    }
}

/// Build versions that are listed in their order are ranked as they are listed.
proof fn lemma_ranked_as_listed(s: Seq<Version>)
    requires
        in_order(s),
        forall|i: int| 0 <= i < s.len() ==> class(#[trigger] s[i]) == Classification::Build,
    ensures
        ranked_builds(s) == s,
{
    let places = Seq::new(s.len(), |i: int| i);
    let g = |i: int| class(s[i]) == Classification::Build;
    let leq = build_rank(s);
    assert forall|i: int| 0 <= i < places.len() implies g(#[trigger] places[i]) by {
        assert(class(s[i]) == Classification::Build);
    }
    lemma_filter_all(places, g);
    lemma_build_rank_total(s);
    places.lemma_sort_by_ensures(leq);
    assert forall|i: int, j: int| 0 <= i < j < places.len() implies #[trigger] leq(
        places[i],
        places[j],
    ) by {
        assert(no_less_recent(s[i], s[j]));
    }
    lemma_sorted_unique(places, places.sort_by(leq), leq);
    assert(ranked_builds(s) =~= s);
}

/// Where nothing passes, nothing is left.
pub proof fn lemma_filter_none<A>(s: Seq<A>, f: spec_fn(A) -> bool)
    requires
        forall|i: int| 0 <= i < s.len() ==> !f(#[trigger] s[i]),
    ensures
        s.filter(f) == Seq::<A>::empty(),
{
    if s.filter(f).len() > 0 {
        let a = s.filter(f)[0];
        assert(s.filter(f).contains(a));
        lemma_filtered(s, f, a);
        let k = choose|k: int| 0 <= k < s.len() && s[k] == a;
        assert(!f(s[k]));
    }
    assert(s.filter(f) =~= Seq::<A>::empty());
}

/// The versions that a selection keeps outright, and those kept by number and for their age.
spec fn kept_parts(versions: Seq<Version>, policy: Policy, now: Timestamp) -> (
    Seq<Version>,
    Seq<Version>,
    Seq<Version>,
) {
    (
        versions.filter(kept_outright(policy, now)),
        builds_within(versions, policy),
        builds_beyond(versions, policy).filter(is_recent(policy, now)),
    )
}

/// Of what a selection keeps, together with versions that are no builds, no build is deleted.
proof fn lemma_no_build_left(
    versions: Seq<Version>,
    policy: Policy,
    now: Timestamp,
    extra: Seq<Version>,
)
    requires
        forall|i: int| 0 <= i < extra.len() ==> class(#[trigger] extra[i]) != Classification::Build,
    ensures
        ({
            let (o, w, r) = kept_parts(versions, policy, now);
            selected(o + w + r + extra, policy, now).deletable == Seq::<Deletion>::empty()
        }),
{
    let (o, w, r) = kept_parts(versions, policy, now);
    let rest = o + w + r + extra;
    let ranked = ranked_builds(versions);
    let beyond = builds_beyond(versions, policy);
    let f = is_build();
    assert forall|i: int| 0 <= i < o.len() implies !f(#[trigger] o[i]) by {
        assert(o.contains(o[i]));
        lemma_filtered(versions, kept_outright(policy, now), o[i]);
    }
    lemma_filter_none(o, f);
    lemma_filter_none(extra, f);
    lemma_ranked_sorted(versions);
    assert(in_order(ranked));
    assert forall|i: int| 0 <= i < w.len() implies f(#[trigger] w[i]) by {
        assert(ranked[i] == w[i]);
        assert(ranked.contains(w[i]));
        lemma_ranked_contains(versions, w[i]);
    }
    assert forall|i: int| 0 <= i < r.len() implies f(#[trigger] r[i]) by {
        assert(r.contains(r[i]));
        lemma_filtered(beyond, is_recent(policy, now), r[i]);
        lemma_beyond_contains(versions, policy, r[i]);
    }
    lemma_filter_all(w, f);
    lemma_filter_all(r, f);
    Seq::filter_distributes_over_add(o + w + r, extra, f);
    Seq::filter_distributes_over_add(o + w, r, f);
    Seq::filter_distributes_over_add(o, w, f);
    let builds = w + r;
    assert(rest.filter(f) =~= builds);
    assert(in_order(beyond)) by {
        assert forall|i: int, j: int| 0 <= i < j < beyond.len() implies no_less_recent(
            #[trigger] beyond[i],
            #[trigger] beyond[j],
        ) by {
            assert(no_less_recent(
                ranked[policy.keep_at_least + i],
                ranked[policy.keep_at_least + j],
            ));
        }
    }
    lemma_filter_in_order(beyond, is_recent(policy, now));
    assert forall|i: int, j: int| 0 <= i < j < builds.len() implies no_less_recent(
        #[trigger] builds[i],
        #[trigger] builds[j],
    ) by {
        if j < w.len() {
            assert(no_less_recent(ranked[i], ranked[j]));
        } else if i >= w.len() {
            assert(no_less_recent(r[i - w.len()], r[j - w.len()]));
        } else {
            let x = r[j - w.len()];
            assert(r.contains(x));
            lemma_filtered(beyond, is_recent(policy, now), x);
            let k = choose|k: int| 0 <= k < beyond.len() && beyond[k] == x;
            assert(no_less_recent(ranked[i], ranked[policy.keep_at_least + k]));
        }
    }
    assert forall|i: int| 0 <= i < builds.len() implies class(#[trigger] builds[i])
        == Classification::Build by {
        if i < w.len() {
            assert(f(w[i]));
        } else {
            assert(f(r[i - w.len()]));
        }
    }
    lemma_ranked_as_listed(builds);
    lemma_ranked_alone(rest);
    assert(ranked_builds(rest) == builds);
    let left = builds_beyond(rest, policy);
    assert(left.len() > 0 ==> left =~= r);
    assert forall|i: int| 0 <= i < left.len() implies !is_old(policy, now)(#[trigger] left[i]) by {
        assert(r.contains(r[i]));
        lemma_filtered(beyond, is_recent(policy, now), r[i]);
    }
    lemma_filter_none(left, is_old(policy, now));
    assert(selected(rest, policy, now).deletable =~= Seq::<Deletion>::empty());
}

/// Planning again what a plan keeps, at the same time and with the same knowledge, deletes
/// nothing: once carried out, a plan is done.
pub proof fn law_planning_again_deletes_nothing(
    versions: Seq<Version>,
    policy: Policy,
    now: Timestamp,
    protected: Set<Seq<char>>,
    attesting: Set<Seq<char>>,
)
    ensures
        ({
            let plan = finalized(selected(versions, policy, now), protected, attesting);
            let again = selected(retained(plan), policy, now);
            finalized(again, protected, attesting).delete == Seq::<Deletion>::empty()
        }),
        ({
            let plan = finalized_builds_only(selected(versions, policy, now));
            let again = selected(retained(plan), policy, now);
            finalized_builds_only(again).delete == Seq::<Deletion>::empty()
        }),
{
    let s = selected(versions, policy, now);
    let (o, w, r) = kept_parts(versions, policy, now);
    let candidate = is_candidate(policy, now);
    let needed = s.candidates.filter(is_needed(protected, attesting));
    let full = finalized(s, protected, attesting);
    assert(retained(full) =~= o + w + r + needed);
    assert forall|i: int| 0 <= i < needed.len() implies class(#[trigger] needed[i])
        != Classification::Build by {
        assert(needed.contains(needed[i]));
        lemma_filtered(s.candidates, is_needed(protected, attesting), needed[i]);
        lemma_filtered(versions, candidate, needed[i]);
    }
    lemma_no_build_left(versions, policy, now, needed);
    let rest = retained(full);
    let again = selected(rest, policy, now);
    let orphan = is_orphan(protected, attesting);
    assert forall|i: int| 0 <= i < again.candidates.len() implies !orphan(
        #[trigger] again.candidates[i],
    ) by {
        let v = again.candidates[i];
        assert(again.candidates.contains(v));
        lemma_filtered(rest, candidate, v);
        lemma_added(o + w + r, needed, v);
        lemma_added(o + w, r, v);
        lemma_added(o, w, v);
        lemma_filtered(versions, kept_outright(policy, now), v);
        lemma_filtered(builds_beyond(versions, policy), is_recent(policy, now), v);
        lemma_beyond_contains(versions, policy, v);
        lemma_filtered(s.candidates, is_needed(protected, attesting), v);
        if w.contains(v) {
            let k = choose|k: int| 0 <= k < w.len() && w[k] == v;
            assert(ranked_builds(versions)[k] == v);
            assert(ranked_builds(versions).contains(v));
            lemma_ranked_contains(versions, v);
        }
    }
    lemma_filter_none(again.candidates, orphan);
    assert(finalized(again, protected, attesting).delete =~= Seq::<Deletion>::empty());

    let part = finalized_builds_only(s);
    assert(retained(part) =~= o + w + r + s.candidates);
    assert forall|i: int| 0 <= i < s.candidates.len() implies class(#[trigger] s.candidates[i])
        != Classification::Build by {
        assert(s.candidates.contains(s.candidates[i]));
        lemma_filtered(versions, candidate, s.candidates[i]);
    }
    lemma_no_build_left(versions, policy, now, s.candidates);
}

/// A policy that asks to keep as much or more, in number and in age, deletes no other version, and
/// neither does knowing of more references.
pub proof fn law_keeping_more_deletes_no_other(
    versions: Seq<Version>,
    now: Timestamp,
    policy: Policy,
    protected: Set<Seq<char>>,
    attesting: Set<Seq<char>>,
    keener: Policy,
    more_protected: Set<Seq<char>>,
    more_attesting: Set<Seq<char>>,
    d: Deletion,
)
    requires
        policy.keep_at_least <= keener.keep_at_least,
        policy.older_than_days <= keener.older_than_days,
        protected.subset_of(more_protected),
        attesting.subset_of(more_attesting),
        finalized(
            selected(versions, keener, now),
            more_protected,
            more_attesting,
        ).delete.contains(d),
    ensures
        finalized(selected(versions, policy, now), protected, attesting).delete.contains(d),
{
    law_exactly_what_is_due_is_deleted(versions, keener, now, more_protected, more_attesting, d);
    law_exactly_what_is_due_is_deleted(versions, policy, now, protected, attesting, d);
    if d.reason == DeleteReason::OldBuildImage {
        let fewer = builds_beyond(versions, keener);
        let more = builds_beyond(versions, policy);
        let k = choose|k: int| 0 <= k < fewer.len() && fewer[k] == d.version;
        let shift = keener.keep_at_least - policy.keep_at_least;
        assert(more[k + shift] == d.version);
    }
}

/// Whether two versions are the same but for their tags, which put them in the same class.
pub open spec fn alike_but_for_tags(a: Version, b: Version) -> bool {
    a.id == b.id && a.digest == b.digest && a.created_at == b.created_at && class(a) == class(b)
}

/// Whether two lists hold versions that are, one by one, the same but for their tags.
pub open spec fn all_alike(a: Seq<Version>, b: Seq<Version>) -> bool {
    a.len() == b.len() && forall|i: int|
        0 <= i < a.len() ==> alike_but_for_tags(#[trigger] a[i], #[trigger] b[i])
}

/// A filter that does not look at the tags keeps lists alike.
proof fn lemma_filter_alike(a: Seq<Version>, b: Seq<Version>, f: spec_fn(Version) -> bool)
    requires
        all_alike(a, b),
        forall|x: Version, y: Version| alike_but_for_tags(x, y) ==> #[trigger] f(x) == #[trigger] f(
            y,
        ),
    ensures
        all_alike(a.filter(f), b.filter(f)),
    decreases a.len(),
{
    reveal(Seq::filter);
    if a.len() > 0 {
        let x = a[a.len() - 1];
        let y = b[b.len() - 1];
        assert(alike_but_for_tags(x, y));
        assert(f(x) == f(y));
        assert forall|i: int| 0 <= i < a.drop_last().len() implies alike_but_for_tags(
            #[trigger] a.drop_last()[i],
            #[trigger] b.drop_last()[i],
        ) by {
            assert(alike_but_for_tags(a[i], b[i]));
        }
        lemma_filter_alike(a.drop_last(), b.drop_last(), f);
    }
}

/// Lists that are alike are ranked alike.
proof fn lemma_ranked_alike(a: Seq<Version>, b: Seq<Version>)
    requires
        all_alike(a, b),
    ensures
        all_alike(ranked_builds(a), ranked_builds(b)),
{
    let places = Seq::new(a.len(), |i: int| i);
    let fa = |i: int| class(a[i]) == Classification::Build;
    let fb = |i: int| class(b[i]) == Classification::Build;
    lemma_filter_same(places, fa, fb);
    assert(build_places(a) == build_places(b));
    let at = build_places(a);
    lemma_build_places(a);
    let la = build_rank(a);
    let lb = build_rank(b);
    lemma_build_rank_total(a);
    lemma_build_rank_total(b);
    at.lemma_sort_by_ensures(la);
    at.lemma_sort_by_ensures(lb);
    let sa = at.sort_by(la);
    let sb = at.sort_by(lb);
    lemma_places_among(at, sa, a.len() as int);
    lemma_places_among(at, sb, a.len() as int);
    assert forall|i: int, j: int| 0 <= i < j < sb.len() implies #[trigger] la(sb[i], sb[j]) by {
        assert(lb(sb[i], sb[j]));
        assert(alike_but_for_tags(a[sb[i]], b[sb[i]]));
        assert(alike_but_for_tags(a[sb[j]], b[sb[j]]));
    }
    lemma_sorted_unique(sa, sb, la);
    assert forall|i: int| 0 <= i < ranked_builds(a).len() implies alike_but_for_tags(
        #[trigger] ranked_builds(a)[i],
        #[trigger] ranked_builds(b)[i],
    ) by {
        assert(alike_but_for_tags(a[sa[i]], b[sa[i]]));
    }
}

/// Rearranged places stay in range.
proof fn lemma_places_among(at: Seq<int>, sorted: Seq<int>, n: int)
    requires
        sorted.to_multiset() == at.to_multiset(),
        forall|i: int| 0 <= i < at.len() ==> 0 <= #[trigger] at[i] < n,
    ensures
        sorted.len() == at.len(),
        forall|i: int| 0 <= i < sorted.len() ==> 0 <= #[trigger] sorted[i] < n,
{
    lemma_same_elements(sorted, at);
    assert forall|i: int| 0 <= i < sorted.len() implies 0 <= #[trigger] sorted[i] < n by {
        assert(sorted.to_set().contains(sorted[i]));
        assert(at.contains(sorted[i]));
    }
}

/// Filters that agree on every element leave the same.
proof fn lemma_filter_same<A>(s: Seq<A>, f: spec_fn(A) -> bool, g: spec_fn(A) -> bool)
    requires
        forall|i: int| 0 <= i < s.len() ==> f(#[trigger] s[i]) == g(s[i]),
    ensures
        s.filter(f) == s.filter(g),
    decreases s.len(),
{
    reveal(Seq::filter);
    if s.len() > 0 {
        assert forall|i: int| 0 <= i < s.drop_last().len() implies f(#[trigger] s.drop_last()[i])
            == g(s.drop_last()[i]) by {
            assert(f(s[i]) == g(s[i]));
        }
        lemma_filter_same(s.drop_last(), f, g);
        assert(f(s[s.len() - 1]) == g(s[s.len() - 1]));
    }
}

/// Apart from the class that it gives a version, a tag decides nothing: the age is that of the
/// creation, never the digits in a tag. Versions that differ only in their tags, and not in their
/// class, are deleted and kept alike, for the same reasons.
pub proof fn law_only_the_class_of_tags_matters(
    a: Seq<Version>,
    b: Seq<Version>,
    policy: Policy,
    now: Timestamp,
    protected: Set<Seq<char>>,
    attesting: Set<Seq<char>>,
)
    requires
        all_alike(a, b),
    ensures
        ({
            let pa = finalized(selected(a, policy, now), protected, attesting);
            let pb = finalized(selected(b, policy, now), protected, attesting);
            &&& all_alike(deleted(pa), deleted(pb))
            &&& all_alike(retained(pa), retained(pb))
            &&& forall|i: int|
                0 <= i < pa.delete.len() ==> (#[trigger] pa.delete[i]).reason
                    == pb.delete[i].reason
            &&& forall|i: int|
                0 <= i < pa.keep.len() ==> (#[trigger] pa.keep[i]).reason == pb.keep[i].reason
        }),
{
    let sa = selected(a, policy, now);
    let sb = selected(b, policy, now);
    let pa = finalized(sa, protected, attesting);
    let pb = finalized(sb, protected, attesting);
    lemma_ranked_alike(a, b);
    let ra = ranked_builds(a);
    let rb = ranked_builds(b);
    let wa = builds_within(a, policy);
    let wb = builds_within(b, policy);
    let ba = builds_beyond(a, policy);
    let bb = builds_beyond(b, policy);
    assert(all_alike(wa, wb)) by {
        assert forall|i: int| 0 <= i < wa.len() implies alike_but_for_tags(
            #[trigger] wa[i],
            #[trigger] wb[i],
        ) by {
            assert(alike_but_for_tags(ra[i], rb[i]));
        }
    }
    assert(all_alike(ba, bb)) by {
        assert forall|i: int| 0 <= i < ba.len() implies alike_but_for_tags(
            #[trigger] ba[i],
            #[trigger] bb[i],
        ) by {
            let k = policy.keep_at_least as int;
            assert(alike_but_for_tags(ra[k + i], rb[k + i]));
        }
    }
    lemma_filter_alike(ba, bb, is_old(policy, now));
    lemma_filter_alike(ba, bb, is_recent(policy, now));
    lemma_filter_alike(a, b, kept_outright(policy, now));
    lemma_filter_alike(a, b, is_candidate(policy, now));
    lemma_filter_alike(sa.candidates, sb.candidates, is_orphan(protected, attesting));
    lemma_filter_alike(sa.candidates, sb.candidates, is_needed(protected, attesting));
    let na = sa.candidates.filter(is_needed(protected, attesting));
    let nb = sb.candidates.filter(is_needed(protected, attesting));
    let oa = a.filter(kept_outright(policy, now));
    let ob = b.filter(kept_outright(policy, now));
    let ya = ba.filter(is_recent(policy, now));
    let yb = bb.filter(is_recent(policy, now));
    assert(pa.keep.len() == oa.len() + wa.len() + ya.len() + na.len());
    assert forall|i: int| 0 <= i < pa.keep.len() implies (#[trigger] pa.keep[i]).reason
        == pb.keep[i].reason && alike_but_for_tags(pa.keep[i].version, pb.keep[i].version) by {
        if i < oa.len() {
            assert(alike_but_for_tags(oa[i], ob[i]));
        } else if i < oa.len() + wa.len() {
            assert(alike_but_for_tags(wa[i - oa.len()], wb[i - oa.len()]));
        } else if i < oa.len() + wa.len() + ya.len() {
            let k = i - oa.len() - wa.len();
            assert(alike_but_for_tags(ya[k], yb[k]));
        } else {
            let k = i - oa.len() - wa.len() - ya.len();
            assert(alike_but_for_tags(na[k], nb[k]));
        }
    }
    let da = ba.filter(is_old(policy, now));
    let db = bb.filter(is_old(policy, now));
    let xa = sa.candidates.filter(is_orphan(protected, attesting));
    let xb = sb.candidates.filter(is_orphan(protected, attesting));
    assert forall|i: int| 0 <= i < pa.delete.len() implies (#[trigger] pa.delete[i]).reason
        == pb.delete[i].reason && alike_but_for_tags(
        pa.delete[i].version,
        pb.delete[i].version,
    ) by {
        if i < da.len() {
            assert(alike_but_for_tags(da[i], db[i]));
        } else {
            assert(alike_but_for_tags(xa[i - da.len()], xb[i - da.len()]));
        }
    }
    assert forall|i: int| 0 <= i < deleted(pa).len() implies alike_but_for_tags(
        #[trigger] deleted(pa)[i],
        #[trigger] deleted(pb)[i],
    ) by {
        assert(pa.delete[i].reason == pb.delete[i].reason);
    }
    assert forall|i: int| 0 <= i < retained(pa).len() implies alike_but_for_tags(
        #[trigger] retained(pa)[i],
        #[trigger] retained(pb)[i],
    ) by {
        assert(pa.keep[i].reason == pb.keep[i].reason);
    }
}

/// How many build versions come before the one at place `i`: those created later, those created at
/// the same instant with a larger id, and those with the same instant and id that are listed
/// earlier.
pub open spec fn recency_rank(versions: Seq<Version>, i: int) -> nat {
    Seq::new(versions.len(), |j: int| j).filter(
        |j: int|
            {
                let v = versions[i];
                let u = versions[j];
                &&& class_of(u.tags) == Classification::Build
                &&& v.created_at.before(u.created_at) || (v.created_at == u.created_at && (v.id
                    < u.id || (v.id == u.id && j < i)))
            },
    ).len()
}

/// Of a list of places of which the first `k` pass and the others do not, a filter leaves `k`.
proof fn lemma_filter_prefix(s: Seq<int>, f: spec_fn(int) -> bool, k: int)
    requires
        0 <= k <= s.len(),
        forall|i: int| 0 <= i < k ==> f(#[trigger] s[i]),
        forall|i: int| k <= i < s.len() ==> !f(#[trigger] s[i]),
    ensures
        s.filter(f).len() == k,
{
    let front = s.take(k);
    let back = s.skip(k);
    assert(front + back =~= s);
    Seq::filter_distributes_over_add(front, back, f);
    assert forall|i: int| 0 <= i < front.len() implies f(#[trigger] front[i]) by {
        assert(f(s[i]));
    }
    assert forall|i: int| 0 <= i < back.len() implies !f(#[trigger] back[i]) by {
        assert(!f(s[k + i]));
    }
    lemma_filter_all(front, f);
    lemma_filter_none(back, f);
}

/// The place that is sorted to `q` has rank `q`.
proof fn lemma_rank_of_place(versions: Seq<Version>, q: int)
    requires
        0 <= q < build_places(versions).sort_by(build_rank(versions)).len(),
    ensures
        recency_rank(versions, build_places(versions).sort_by(build_rank(versions))[q]) == q,
{
    let at = build_places(versions);
    let leq = build_rank(versions);
    let order = at.sort_by(leq);
    let i = order[q];
    let places = Seq::new(versions.len(), |j: int| j);
    let g = |j: int| class(versions[j]) == Classification::Build;
    let h = |j: int|
        {
            let v = versions[i];
            let u = versions[j];
            &&& class_of(u.tags) == Classification::Build
            &&& v.created_at.before(u.created_at) || (v.created_at == u.created_at && (v.id < u.id
                || (v.id == u.id && j < i)))
        };
    lemma_build_rank_total(versions);
    lemma_build_places(versions);
    at.lemma_sort_by_ensures(leq);
    lemma_same_elements(order, at);
    lemma_places_once(at, order);
    assert forall|k: int| 0 <= k < q implies h(#[trigger] order[k]) by {
        assert(leq(order[k], order[q]));
        assert(order[k] != order[q]);
        assert(order.to_set().contains(order[k]));
        assert(at.contains(order[k]));
        lemma_filtered(places, g, order[k]);
    }
    assert forall|k: int| q <= k < order.len() implies !h(#[trigger] order[k]) by {
        if k > q {
            assert(leq(order[q], order[k]));
        }
    }
    lemma_filter_prefix(order, h, q);
    lemma_filter_multiset(order, at, h);
    lemma_same_elements(order.filter(h), at.filter(h));
    lemma_filter_filter(places, g, h);
    assert(at.filter(h) == places.filter(h));
}

/// A build version stands in the ranking where as many others come before it.
proof fn lemma_ranked_at(versions: Seq<Version>, i: int)
    requires
        0 <= i < versions.len(),
        class(versions[i]) == Classification::Build,
    ensures
        recency_rank(versions, i) < ranked_builds(versions).len(),
        ranked_builds(versions)[recency_rank(versions, i) as int] == versions[i],
{
    let at = build_places(versions);
    let leq = build_rank(versions);
    let order = at.sort_by(leq);
    let places = Seq::new(versions.len(), |j: int| j);
    let g = |j: int| class(versions[j]) == Classification::Build;
    lemma_build_rank_total(versions);
    at.lemma_sort_by_ensures(leq);
    lemma_same_elements(order, at);
    assert(places[i] == i);
    lemma_filtered(places, g, i);
    assert(at.to_set().contains(i));
    assert(order.contains(i));
    let q = choose|q: int| 0 <= q < order.len() && order[q] == i;
    lemma_rank_of_place(versions, q);
}

/// Places that rise are all different, and stay so when they are rearranged.
proof fn lemma_places_once(at: Seq<int>, order: Seq<int>)
    requires
        order.to_multiset() == at.to_multiset(),
        forall|i: int, j: int| 0 <= i < j < at.len() ==> #[trigger] at[i] < #[trigger] at[j],
    ensures
        forall|i: int, j: int| 0 <= i < j < order.len() ==> #[trigger] order[i] != #[trigger] order[j],
{
    assert(at.no_duplicates());
    at.lemma_multiset_has_no_duplicates();
    order.lemma_multiset_has_no_duplicates_conv();
}

/// Which builds are within the minimum, and which beyond, by rank.
proof fn lemma_within_by_rank(versions: Seq<Version>, policy: Policy, v: Version)
    ensures
        builds_within(versions, policy).contains(v) <==> exists|i: int|
            0 <= i < versions.len() && #[trigger] versions[i] == v && class_of(v.tags)
                == Classification::Build && recency_rank(versions, i) < policy.keep_at_least,
        builds_beyond(versions, policy).contains(v) <==> exists|i: int|
            0 <= i < versions.len() && #[trigger] versions[i] == v && class_of(v.tags)
                == Classification::Build && recency_rank(versions, i) >= policy.keep_at_least,
{
    let ranked = ranked_builds(versions);
    let within = builds_within(versions, policy);
    let beyond = builds_beyond(versions, policy);
    let keep = policy.keep_at_least as int;
    if within.contains(v) {
        let k = choose|k: int| 0 <= k < within.len() && within[k] == v;
        assert(ranked[k] == v);
        lemma_ranked_from(versions, k);
        let i = choose|i: int|
            0 <= i < versions.len() && #[trigger] versions[i] == ranked[k] && class(versions[i])
                == Classification::Build && recency_rank(versions, i) == k;
        assert(versions[i] == v);
    }
    if beyond.contains(v) {
        let k = choose|k: int| 0 <= k < beyond.len() && beyond[k] == v;
        assert(ranked[keep + k] == v);
        lemma_ranked_from(versions, keep + k);
        let i = choose|i: int|
            0 <= i < versions.len() && #[trigger] versions[i] == ranked[keep + k] && class(
                versions[i],
            ) == Classification::Build && recency_rank(versions, i) == keep + k;
        assert(versions[i] == v);
    }
    if exists|i: int|
        0 <= i < versions.len() && #[trigger] versions[i] == v && class_of(v.tags)
            == Classification::Build && recency_rank(versions, i) < policy.keep_at_least {
        let i = choose|i: int|
            0 <= i < versions.len() && #[trigger] versions[i] == v && class_of(v.tags)
                == Classification::Build && recency_rank(versions, i) < policy.keep_at_least;
        lemma_ranked_at(versions, i);
        assert(within[recency_rank(versions, i) as int] == v);
    }
    if exists|i: int|
        0 <= i < versions.len() && #[trigger] versions[i] == v && class_of(v.tags)
            == Classification::Build && recency_rank(versions, i) >= policy.keep_at_least {
        let i = choose|i: int|
            0 <= i < versions.len() && #[trigger] versions[i] == v && class_of(v.tags)
                == Classification::Build && recency_rank(versions, i) >= policy.keep_at_least;
        lemma_ranked_at(versions, i);
        assert(beyond[recency_rank(versions, i) - keep] == v);
    }
}

/// What stands in the ranking is a build version of that rank.
proof fn lemma_ranked_from(versions: Seq<Version>, k: int)
    requires
        0 <= k < ranked_builds(versions).len(),
    ensures
        exists|i: int|
            0 <= i < versions.len() && #[trigger] versions[i] == ranked_builds(versions)[k]
                && class(versions[i]) == Classification::Build && recency_rank(versions, i) == k,
{
    let at = build_places(versions);
    let leq = build_rank(versions);
    let order = at.sort_by(leq);
    lemma_build_rank_total(versions);
    lemma_build_places(versions);
    at.lemma_sort_by_ensures(leq);
    lemma_places_among(at, order, versions.len() as int);
    lemma_same_elements(order, at);
    let i = order[k];
    assert(order.to_set().contains(i));
    assert(at.contains(i));
    let m = choose|m: int| 0 <= m < at.len() && at[m] == i;
    assert(class(versions[at[m]]) == Classification::Build);
    lemma_rank_of_place(versions, k);
    assert(versions[i] == ranked_builds(versions)[k]);
}

/// What a selection decides about each version. It deletes a version that has tags, all of them
/// build tags, where at least as many builds come before it as are kept and it is older than the
/// cutoff. It leaves open an untagged version that is older. It keeps the others: for a tag that is
/// no build tag, for being among the most recent builds, or for not being older.
pub proof fn law_selection_of_each_version(
    versions: Seq<Version>,
    policy: Policy,
    now: Timestamp,
    v: Version,
)
    ensures
        ({
            let s = selected(versions, policy, now);
            let here = versions.contains(v);
            let old_enough = policy.older(v.created_at, now);
            let text_tagged = exists|i: int| 0 <= i < v.tags.len() && !build_tag(#[trigger] v.tags[i]);
            let build = v.tags.len() > 0 && forall|i: int|
                0 <= i < v.tags.len() ==> build_tag(#[trigger] v.tags[i]);
            let recent = exists|i: int|
                0 <= i < versions.len() && #[trigger] versions[i] == v && recency_rank(versions, i)
                    < policy.keep_at_least;
            let beyond = exists|i: int|
                0 <= i < versions.len() && #[trigger] versions[i] == v && recency_rank(versions, i)
                    >= policy.keep_at_least;
            &&& s.deletable.contains(Deletion { version: v, reason: DeleteReason::OldBuildImage })
                <==> here && build && beyond && old_enough
            &&& !s.deletable.contains(Deletion { version: v, reason: DeleteReason::OrphanedChild })
            &&& s.candidates.contains(v) <==> here && v.tags.len() == 0 && old_enough
            &&& s.kept.contains(Keeping { version: v, reason: KeepReason::TextTagged }) <==> here
                && text_tagged
            &&& s.kept.contains(Keeping { version: v, reason: KeepReason::WithinKeepAtLeast })
                <==> here && build && recent
            &&& s.kept.contains(Keeping { version: v, reason: KeepReason::NotOldEnough }) <==> here
                && !old_enough && (v.tags.len() == 0 || (build && beyond))
            &&& !s.kept.contains(Keeping { version: v, reason: KeepReason::ReferencedByRetained })
            &&& !s.kept.contains(Keeping { version: v, reason: KeepReason::AttestsRetained })
            &&& !s.kept.contains(Keeping { version: v, reason: KeepReason::UntaggedPassSkipped })
        }),
{
    let s = selected(versions, policy, now);
    let within = builds_within(versions, policy);
    let beyond = builds_beyond(versions, policy);
    let recent = beyond.filter(is_recent(policy, now));
    let outright = versions.filter(kept_outright(policy, now));
    law_class_of_tags(v.tags);
    lemma_within_by_rank(versions, policy, v);
    lemma_filtered(beyond, is_old(policy, now), v);
    lemma_filtered(beyond, is_recent(policy, now), v);
    lemma_filtered(versions, is_candidate(policy, now), v);
    lemma_filtered(versions, kept_outright(policy, now), v);
    let gone = beyond.filter(is_old(policy, now));
    lemma_delete_for(
        gone,
        DeleteReason::OldBuildImage,
        Deletion { version: v, reason: DeleteReason::OldBuildImage },
    );
    lemma_delete_for(
        gone,
        DeleteReason::OldBuildImage,
        Deletion { version: v, reason: DeleteReason::OrphanedChild },
    );
    assert forall|why: KeepReason| #[trigger]
        s.kept.contains(Keeping { version: v, reason: why }) <==> (outright.contains(v)
            && keep_outright(v).reason == why) || (within.contains(v) && why
            == KeepReason::WithinKeepAtLeast) || (recent.contains(v) && why
            == KeepReason::NotOldEnough) by {
        let k = Keeping { version: v, reason: why };
        let first = outright.map_values(|x: Version| keep_outright(x));
        let second = keep_for(within, KeepReason::WithinKeepAtLeast);
        let third = keep_for(recent, KeepReason::NotOldEnough);
        lemma_added(first + second, third, k);
        lemma_added(first, second, k);
        lemma_keep_for(within, KeepReason::WithinKeepAtLeast, k);
        lemma_keep_for(recent, KeepReason::NotOldEnough, k);
        if first.contains(k) {
            let m = choose|m: int| 0 <= m < first.len() && first[m] == k;
            assert(outright[m] == v);
        }
        if outright.contains(v) && keep_outright(v).reason == why {
            let m = choose|m: int| 0 <= m < outright.len() && outright[m] == v;
            assert(first[m] == k);
        }
    }
}

/// A list of versions that are kept for one reason keeps the versions of the list for that reason.
proof fn lemma_keep_for(s: Seq<Version>, reason: KeepReason, k: Keeping)
    ensures
        keep_for(s, reason).contains(k) <==> s.contains(k.version) && k.reason == reason,
{
    let all = keep_for(s, reason);
    if all.contains(k) {
        let m = choose|m: int| 0 <= m < all.len() && all[m] == k;
        assert(s[m] == k.version);
    }
    if s.contains(k.version) && k.reason == reason {
        let m = choose|m: int| 0 <= m < s.len() && s[m] == k.version;
        assert(all[m] == k);
    }
}

/// The retained set is that of the digests of the tagged versions that are kept, no more and no
/// fewer: their manifests are read, so that their children are protected.
pub proof fn law_retained_are_the_kept_tagged(
    versions: Seq<Version>,
    policy: Policy,
    now: Timestamp,
    digest: Seq<char>,
)
    ensures
        ({
            let s = selected(versions, policy, now);
            s.retained.contains(digest) <==> exists|k: int|
                0 <= k < s.kept.len() && (#[trigger] s.kept[k]).version.digest == digest
                    && s.kept[k].version.tags.len() > 0
        }),
{
    let s = selected(versions, policy, now);
    let within = builds_within(versions, policy);
    let beyond = builds_beyond(versions, policy);
    let recent = beyond.filter(is_recent(policy, now));
    let outright = versions.filter(kept_outright(policy, now));
    let shielded = |v: Version| class(v) == Classification::Protected;
    let protected = versions.filter(shielded);
    let n = outright.len();
    let m = within.len();
    assert forall|k: int| 0 <= k < s.kept.len() implies (#[trigger] s.kept[k]).version == if k < n {
        outright[k]
    } else if k < n + m {
        within[k - n]
    } else {
        recent[k - n - m]
    } by {}
    if s.retained.contains(digest) {
        if digests_of(protected).contains(digest) {
            let v = lemma_digest_owner(protected, digest);
            lemma_filtered(versions, shielded, v);
            lemma_filtered(versions, kept_outright(policy, now), v);
            let k = choose|k: int| 0 <= k < n && outright[k] == v;
            assert(s.kept[k].version.digest == digest && s.kept[k].version.tags.len() > 0);
        } else if digests_of(within).contains(digest) {
            let v = lemma_digest_owner(within, digest);
            let k = choose|k: int| 0 <= k < m && within[k] == v;
            lemma_within_by_rank(versions, policy, v);
            assert(s.kept[n + k].version.digest == digest && s.kept[n + k].version.tags.len() > 0);
        } else {
            let v = lemma_digest_owner(recent, digest);
            let k = choose|k: int| 0 <= k < recent.len() && recent[k] == v;
            lemma_filtered(beyond, is_recent(policy, now), v);
            lemma_beyond_contains(versions, policy, v);
            assert(s.kept[n + m + k].version.digest == digest && s.kept[n + m + k].version.tags.len()
                > 0);
        }
    }
    if exists|k: int|
        0 <= k < s.kept.len() && (#[trigger] s.kept[k]).version.digest == digest
            && s.kept[k].version.tags.len() > 0 {
        let k = choose|k: int|
            0 <= k < s.kept.len() && (#[trigger] s.kept[k]).version.digest == digest
                && s.kept[k].version.tags.len() > 0;
        let v = s.kept[k].version;
        let digest_at = |x: Version| x.digest;
        if k < n {
            assert(outright.contains(v));
            lemma_filtered(versions, kept_outright(policy, now), v);
            lemma_filtered(versions, shielded, v);
            let j = choose|j: int| 0 <= j < protected.len() && protected[j] == v;
            assert(protected.map_values(digest_at)[j] == digest);
            assert(digests_of(protected).contains(digest));
        } else if k < n + m {
            assert(within.map_values(digest_at)[k - n] == digest);
            assert(digests_of(within).contains(digest));
        } else {
            assert(recent.map_values(digest_at)[k - n - m] == digest);
            assert(digests_of(recent).contains(digest));
        }
    }
}

/// A version whose digest is among those of a list.
proof fn lemma_digest_owner(s: Seq<Version>, digest: Seq<char>) -> (v: Version)
    requires
        digests_of(s).contains(digest),
    ensures
        s.contains(v),
        v.digest == digest,
{
    let all = s.map_values(|x: Version| x.digest);
    assert(all.contains(digest));
    let k = choose|k: int| 0 <= k < all.len() && all[k] == digest;
    assert(s.contains(s[k]));
    s[k]
}

/// Every version with a tag that is no build tag is retained, whatever other tags it carries.
pub proof fn law_text_tagged_is_retained(
    versions: Seq<Version>,
    policy: Policy,
    now: Timestamp,
    v: Version,
    tag: Seq<char>,
)
    requires
        versions.contains(v),
        v.tags.contains(tag),
        !build_tag(tag),
    ensures
        selected(versions, policy, now).retained.contains(v.digest),
{
    let s = selected(versions, policy, now);
    let i = choose|i: int| 0 <= i < v.tags.len() && v.tags[i] == tag;
    assert(!build_tag(v.tags[i]));
    law_selection_of_each_version(versions, policy, now, v);
    let kept = Keeping { version: v, reason: KeepReason::TextTagged };
    assert(s.kept.contains(kept));
    let k = choose|k: int| 0 <= k < s.kept.len() && s.kept[k] == kept;
    assert(s.kept[k].version.digest == v.digest);
    law_retained_are_the_kept_tagged(versions, policy, now, v.digest);
}

/// The order in which a selection lists its decisions. Versions that are no builds come in the
/// order in which they were listed, and before the builds; builds come by recency.
pub proof fn law_order_of_a_selection(versions: Seq<Version>, policy: Policy, now: Timestamp)
    ensures
        ({
            let s = selected(versions, policy, now);
            let others = versions.filter(
                |v: Version|
                    class_of(v.tags) == Classification::Protected || (v.tags.len() == 0
                        && !policy.older(v.created_at, now)),
            );
            let n = others.len() as int;
            &&& s.candidates == versions.filter(
                |v: Version| v.tags.len() == 0 && policy.older(v.created_at, now),
            )
            &&& s.kept.len() >= n
            &&& forall|k: int| 0 <= k < n ==> (#[trigger] s.kept[k]).version == others[k]
            &&& forall|k: int|
                n <= k < s.kept.len() ==> class_of((#[trigger] s.kept[k]).version.tags)
                    == Classification::Build
            &&& forall|i: int, j: int|
                n <= i < j < s.kept.len() ==> no_less_recent(
                    (#[trigger] s.kept[i]).version,
                    (#[trigger] s.kept[j]).version,
                )
            &&& forall|i: int, j: int|
                0 <= i < j < s.deletable.len() ==> no_less_recent(
                    (#[trigger] s.deletable[i]).version,
                    (#[trigger] s.deletable[j]).version,
                )
        }),
{
    let s = selected(versions, policy, now);
    let f = |v: Version|
        class_of(v.tags) == Classification::Protected || (v.tags.len() == 0 && !policy.older(
            v.created_at,
            now,
        ));
    let g = |v: Version| v.tags.len() == 0 && policy.older(v.created_at, now);
    assert forall|v: Version| (class_of(v.tags) == Classification::Untagged) == (v.tags.len()
        == 0) by {
        law_class_of_tags(v.tags);
    }
    assert(f =~= kept_outright(policy, now));
    assert(g =~= is_candidate(policy, now));
    let (o, w, r) = kept_parts(versions, policy, now);
    let n = o.len() as int;
    let ranked = ranked_builds(versions);
    let beyond = builds_beyond(versions, policy);
    let keep = policy.keep_at_least as int;
    lemma_ranked_sorted(versions);
    assert(in_order(beyond)) by {
        assert forall|i: int, j: int| 0 <= i < j < beyond.len() implies no_less_recent(
            #[trigger] beyond[i],
            #[trigger] beyond[j],
        ) by {
            assert(no_less_recent(ranked[keep + i], ranked[keep + j]));
        }
    }
    lemma_filter_in_order(beyond, is_recent(policy, now));
    lemma_filter_in_order(beyond, is_old(policy, now));
    assert forall|k: int| n <= k < s.kept.len() implies class_of(
        (#[trigger] s.kept[k]).version.tags,
    ) == Classification::Build by {
        if k < n + w.len() {
            assert(ranked[k - n] == w[k - n]);
            assert(ranked.contains(w[k - n]));
            lemma_ranked_contains(versions, w[k - n]);
        } else {
            let x = r[k - n - w.len()];
            assert(r.contains(x));
            lemma_filtered(beyond, is_recent(policy, now), x);
            lemma_beyond_contains(versions, policy, x);
        }
    }
    assert forall|i: int, j: int| n <= i < j < s.kept.len() implies no_less_recent(
        (#[trigger] s.kept[i]).version,
        (#[trigger] s.kept[j]).version,
    ) by {
        if j < n + w.len() {
            assert(no_less_recent(ranked[i - n], ranked[j - n]));
        } else if i >= n + w.len() {
            assert(no_less_recent(r[i - n - w.len()], r[j - n - w.len()]));
        } else {
            let x = r[j - n - w.len()];
            assert(r.contains(x));
            lemma_filtered(beyond, is_recent(policy, now), x);
            let k = choose|k: int| 0 <= k < beyond.len() && beyond[k] == x;
            assert(no_less_recent(ranked[i - n], ranked[keep + k]));
        }
    }
    let gone = beyond.filter(is_old(policy, now));
    assert forall|i: int, j: int| 0 <= i < j < s.deletable.len() implies no_less_recent(
        (#[trigger] s.deletable[i]).version,
        (#[trigger] s.deletable[j]).version,
    ) by {
        assert(no_less_recent(gone[i], gone[j]));
    }
}

/// There is something untagged exactly where some version has no tags. An age is asked for exactly
/// there, and where there are more builds than are kept by number.
pub proof fn law_untagged_and_ages(versions: Seq<Version>, policy: Policy, now: Timestamp)
    ensures
        ({
            let untagged = exists|i: int|
                0 <= i < versions.len() && (#[trigger] versions[i]).tags.len() == 0;
            let builds = versions.filter(
                |v: Version| class_of(v.tags) == Classification::Build,
            ).len();
            &&& selected(versions, policy, now).has_untagged <==> untagged
            &&& asks_age(versions, policy) <==> untagged || builds > policy.keep_at_least
        }),
{
    assert forall|i: int| 0 <= i < versions.len() implies (class(#[trigger] versions[i])
        == Classification::Untagged <==> versions[i].tags.len() == 0) by {
        law_class_of_tags(versions[i].tags);
    }
    lemma_build_places(versions);
    assert(is_build() =~= (|v: Version| class_of(v.tags) == Classification::Build));
    assert(build_places(versions).map_values(|i: int| versions[i]).len() == build_places(
        versions,
    ).len());
}

/// Where no age is asked for, the days of the policy and the time have no part in a selection.
pub proof fn law_selection_without_ages(
    versions: Seq<Version>,
    policy: Policy,
    now: Timestamp,
    other: Policy,
    then: Timestamp,
)
    requires
        !asks_age(versions, policy),
        policy.keep_at_least == other.keep_at_least,
    ensures
        selected(versions, policy, now) == selected(versions, other, then),
{
    let a = selected(versions, policy, now);
    let b = selected(versions, other, then);
    lemma_ranked_builds(versions);
    assert(builds_beyond(versions, policy) =~= Seq::empty());
    assert(builds_beyond(versions, other) =~= Seq::empty());
    lemma_filter_none(builds_beyond(versions, policy), is_recent(policy, now));
    lemma_filter_none(builds_beyond(versions, policy), is_recent(other, then));
    lemma_filter_none(builds_beyond(versions, policy), is_old(policy, now));
    lemma_filter_none(builds_beyond(versions, policy), is_old(other, then));
    assert forall|i: int| 0 <= i < versions.len() implies class(#[trigger] versions[i])
        != Classification::Untagged by {}
    lemma_filter_same(versions, kept_outright(policy, now), kept_outright(other, then));
    lemma_filter_same(versions, is_candidate(policy, now), is_candidate(other, then));
    assert(a =~= b);
}

/// What becomes of a selection where everything is known. Its own deletions come first, and then
/// the candidates whose digest is neither referred to nor attests, in their order, as orphans. The
/// other candidates are kept after what it keeps, in their order, as referred to where they are.
pub proof fn law_finalized(
    s: Selected,
    protected: Set<Seq<char>>,
    attesting: Set<Seq<char>>,
)
    ensures
        ({
            let plan = finalized(s, protected, attesting);
            let orphans = s.candidates.filter(
                |v: Version| !protected.contains(v.digest) && !attesting.contains(v.digest),
            );
            let needed = s.candidates.filter(
                |v: Version| protected.contains(v.digest) || attesting.contains(v.digest),
            );
            let d = s.deletable.len();
            let k = s.kept.len();
            &&& plan.delete.len() == d + orphans.len()
            &&& forall|i: int| 0 <= i < d ==> #[trigger] plan.delete[i] == s.deletable[i]
            &&& forall|i: int|
                0 <= i < orphans.len() ==> #[trigger] plan.delete[d + i].version == orphans[i]
                    && plan.delete[d + i].reason == DeleteReason::OrphanedChild
            &&& plan.keep.len() == k + needed.len()
            &&& forall|i: int| 0 <= i < k ==> #[trigger] plan.keep[i] == s.kept[i]
            &&& forall|i: int|
                0 <= i < needed.len() ==> #[trigger] plan.keep[k + i].version == needed[i]
            &&& forall|i: int|
                0 <= i < needed.len() ==> (#[trigger] plan.keep[k + i].reason
                    == KeepReason::ReferencedByRetained <==> protected.contains(needed[i].digest))
            &&& forall|i: int|
                0 <= i < needed.len() ==> (#[trigger] plan.keep[k + i].reason
                    == KeepReason::AttestsRetained <==> !protected.contains(needed[i].digest))
        }),
{
    let f = |v: Version| !protected.contains(v.digest) && !attesting.contains(v.digest);
    let g = |v: Version| protected.contains(v.digest) || attesting.contains(v.digest);
    assert(f =~= is_orphan(protected, attesting));
    assert(g =~= is_needed(protected, attesting));
}

/// What becomes of a selection where not everything is known: its own deletions, and no other. The
/// candidates are kept after what it keeps, in their order.
pub proof fn law_finalized_builds_only(s: Selected)
    ensures
        ({
            let plan = finalized_builds_only(s);
            let k = s.kept.len();
            &&& plan.delete == s.deletable
            &&& plan.keep.len() == k + s.candidates.len()
            &&& forall|i: int| 0 <= i < k ==> #[trigger] plan.keep[i] == s.kept[i]
            &&& forall|i: int|
                0 <= i < s.candidates.len() ==> #[trigger] plan.keep[k + i].version
                    == s.candidates[i] && plan.keep[k + i].reason
                    == KeepReason::UntaggedPassSkipped
        }),
{
}

/// What the types of the planner hold is what their mathematical counterparts hold, field by field
/// and item by item.
pub proof fn law_planner_views(
    input: VersionInput,
    planned: PlannedDelete,
    kept: KeptVersion,
    candidate: CandidateUntagged,
    selection: Selection,
    plan: PrunePlan,
)
    ensures
        input@.id == input.id && input@.digest == input.digest@ && input@.created_at
            == input.created_at && input@.tags.len() == input.tags@.len(),
        forall|i: int| 0 <= i < input.tags@.len() ==> #[trigger] input@.tags[i] == input.tags@[i]@,
        planned@.version.id == planned.id && planned@.version.digest == planned.digest@
            && planned@.version.created_at == planned.created_at && planned@.reason
            == planned.reason && planned@.version.tags.len() == planned.tags@.len(),
        forall|i: int|
            0 <= i < planned.tags@.len() ==> #[trigger] planned@.version.tags[i]
                == planned.tags@[i]@,
        kept@.version.id == kept.id && kept@.version.digest == kept.digest@
            && kept@.version.created_at == kept.created_at && kept@.reason == kept.reason
            && kept@.version.tags.len() == kept.tags@.len(),
        forall|i: int|
            0 <= i < kept.tags@.len() ==> #[trigger] kept@.version.tags[i] == kept.tags@[i]@,
        candidate@.id == candidate.id && candidate@.digest == candidate.digest@
            && candidate@.created_at == candidate.created_at && candidate@.tags.len() == 0,
        selection@.retained == selection.retained_digests@,
        selection@.has_untagged == selection.has_untagged,
        selection@.deletable.len() == selection.deletable_build@.len(),
        forall|i: int|
            0 <= i < selection.deletable_build@.len() ==> #[trigger] selection@.deletable[i]
                == selection.deletable_build@[i]@,
        selection@.candidates.len() == selection.candidate_untagged@.len(),
        forall|i: int|
            0 <= i < selection.candidate_untagged@.len() ==> #[trigger] selection@.candidates[i]
                == selection.candidate_untagged@[i]@,
        selection@.kept.len() == selection.kept@.len(),
        forall|i: int|
            0 <= i < selection.kept@.len() ==> #[trigger] selection@.kept[i]
                == selection.kept@[i]@,
        plan@.delete.len() == plan.delete@.len(),
        forall|i: int|
            0 <= i < plan.delete@.len() ==> #[trigger] plan@.delete[i] == plan.delete@[i]@,
        plan@.keep.len() == plan.keep@.len(),
        forall|i: int| 0 <= i < plan.keep@.len() ==> #[trigger] plan@.keep[i] == plan.keep@[i]@,
{
}

/// The versions that inputs describe are those of the inputs, one by one.
pub proof fn law_inputs_one_by_one(inputs: Seq<VersionInput>)
    ensures
        versions_of(inputs).len() == inputs.len(),
        forall|i: int| 0 <= i < inputs.len() ==> #[trigger] versions_of(inputs)[i] == inputs[i]@,
{
}

} // verus!
