//! A run, decision by decision.
//!
//! A run plans every package first, which only reads, and then carries the plans out. Reading and
//! deleting is up to the caller. What is decided between the requests stands here, and with it the
//! rules that make a run safe:
//!
//! * no untagged version is deleted where a retained manifest could not be read;
//! * a candidate whose subject could not be read is kept;
//! * where the primary rate limit is used up, the package at hand is finished and the run stops;
//! * the tags of a version are read again right before it is deleted.

use crate::domain::digests::DigestSet;
use crate::domain::laws::{
    deleted, law_referenced_is_never_deleted, lemma_filter_all, lemma_filter_none, lemma_filtered,
};
use crate::domain::plan::{
    asks_age, finalize, finalize_builds_only, finalized, finalized_builds_only, lemma_filter_step,
    select, selected, CandidateUntagged, DeleteReason, Deletion, Plan, PlannedDelete, PrunePlan,
    Selection, Version, VersionInput,
};
use crate::domain::tag::{class_of, classify, Classification};
use crate::error::Error;
use crate::github::models::{tags_of, PackageVersion};
use crate::github::packages::{version_inputs, versions_in};
use crate::github::registry::ManifestInfo;
use crate::policy::Policy;
use crate::report::{
    delete_record, delete_word, keep_records, keep_word, law_zero_means_clean, planned_report,
    planned_report_of, removals, reports_of, stay_of, total, Count, DeleteRecord, Outline,
    PackageReport, PackageStatus, Removal, Report, Summary,
};
use crate::text::{decimal, decimal_string, opt_text, texts};
use crate::time::Timestamp;
use vstd::prelude::*;

verus! {

/// The plan of a package.
#[derive(Debug, Clone)]
pub struct PackagePlan {
    pub package: String,
    pub status: PackageStatus,
    pub message: Option<String>,
    pub plan: PrunePlan,
}

/// The plan of a package, mathematically.
#[verifier::ext_equal]
pub struct Planned {
    pub package: Seq<char>,
    pub status: PackageStatus,
    pub message: Option<Seq<char>>,
    pub plan: Plan,
}

impl View for PackagePlan {
    type V = Planned;

    open spec fn view(&self) -> Planned {
        Planned {
            package: self.package@,
            status: self.status,
            message: opt_text(self.message),
            plan: self.plan@,
        }
    }
}

/// The plans that a list describes.
pub open spec fn plans_of(v: Seq<PackagePlan>) -> Seq<Planned> {
    v.map_values(|x: PackagePlan| x@)
}

/// A plan that was made in full.
pub open spec fn clean_plan(package: Seq<char>, plan: Plan) -> Planned {
    Planned { package, status: PackageStatus::Clean, message: None, plan }
}

/// A plan that leaves something out.
pub open spec fn degraded_plan(package: Seq<char>, plan: Plan, message: Seq<char>) -> Planned {
    Planned { package, status: PackageStatus::Degraded, message: Some(message), plan }
}

/// The plan of a package that could not be planned: nothing is deleted.
pub open spec fn errored_plan(package: Seq<char>, message: Seq<char>) -> Planned {
    Planned {
        package,
        status: PackageStatus::Errored,
        message: Some(message),
        plan: Plan { delete: Seq::empty(), keep: Seq::empty() },
    }
}

/// A plan that was made in full.
fn clean(package: &str, plan: PrunePlan) -> (r: PackagePlan)
    ensures
        r@ == clean_plan(package@, plan@),
{
    PackagePlan { package: package.to_owned(), status: PackageStatus::Clean, message: None, plan }
}

/// A plan that leaves something out.
fn degraded(package: &str, plan: PrunePlan, message: String) -> (r: PackagePlan)
    ensures
        r@ == degraded_plan(package@, plan@, message@),
{
    PackagePlan {
        package: package.to_owned(),
        status: PackageStatus::Degraded,
        message: Some(message),
        plan,
    }
}

/// How the planning of a package begins.
pub enum Beginning {
    /// The plan is made: there is nothing untagged, so no manifest has to be read.
    Done(PackagePlan),
    /// A token for the registry is needed, to read the manifests of what is retained.
    NeedsToken(Selection),
}

/// How the planning of a package goes on once the retained manifests have been asked for.
pub enum Reading {
    /// The plan is made.
    Done(PackagePlan),
    /// The manifests of these candidates have to be read for their subjects.
    Scan {
        selection: Selection,
        /// The digests that retained manifests refer to.
        protected: DigestSet,
        candidates: Vec<String>,
    },
}

/// A digest, and the manifest that was read for it or what went wrong.
pub type Fetched = (String, Result<ManifestInfo, Error>);

/// Whether the primary rate limit kept a manifest from being read.
pub open spec fn was_limited(f: Fetched) -> bool {
    f.1 matches Err(e) && e is RateLimited
}

/// Whether `e` is the first error among the results that the primary rate limit caused.
pub open spec fn is_first_limit(results: Seq<Fetched>, e: Error) -> bool {
    exists|i: int|
        {
            &&& 0 <= i < results.len()
            &&& was_limited(#[trigger] results[i])
            &&& results[i].1 == Err::<ManifestInfo, Error>(e)
            &&& forall|j: int| 0 <= j < i ==> !was_limited(#[trigger] results[j])
        }
}

/// Whether the primary rate limit kept no manifest from being read.
pub open spec fn none_limited(results: Seq<Fetched>) -> bool {
    forall|i: int| 0 <= i < results.len() ==> !was_limited(#[trigger] results[i])
}

/// Whether every manifest was read.
pub open spec fn all_read(results: Seq<Fetched>) -> bool {
    forall|i: int| 0 <= i < results.len() ==> (#[trigger] results[i]).1 is Ok
}

/// Whether a manifest that was read refers to `digest` as a child.
pub open spec fn refers_to(f: Fetched, digest: Seq<char>) -> bool {
    f.1 matches Ok(info) && texts(info.children@).contains(digest)
}

/// The digests that manifests refer to as children.
pub open spec fn children_of(results: Seq<Fetched>) -> Set<Seq<char>> {
    Set::new(
        |d: Seq<char>|
            exists|i: int| 0 <= i < results.len() && refers_to(#[trigger] results[i], d),
    )
}

/// Whether a candidate has to be kept for its subject: it attests something retained, or its
/// manifest could not be read.
pub open spec fn must_stay(f: Fetched, retained: Set<Seq<char>>) -> bool {
    match f.1 {
        Ok(info) => opt_text(info.subject) matches Some(subject) && retained.contains(subject),
        Err(_) => true,
    }
}

/// The digests of the candidates that have to be kept for their subject.
pub open spec fn attesting_of(results: Seq<Fetched>, retained: Set<Seq<char>>) -> Set<Seq<char>> {
    Set::new(
        |d: Seq<char>|
            exists|i: int|
                0 <= i < results.len() && (#[trigger] results[i]).0@ == d && must_stay(
                    results[i],
                    retained,
                ),
    )
}

/// The digests of the candidates that no retained tagged version refers to.
pub open spec fn unreferenced(candidates: Seq<Version>, protected: Set<Seq<char>>) -> Seq<
    Seq<char>,
> {
    candidates.map_values(|v: Version| v.digest).filter(|d: Seq<char>| !protected.contains(d))
}

/// The message where no token could be had.
pub open spec fn no_token(e: Error) -> Seq<char> {
    "could not obtain registry token ("@ + e.text() + "); skipped untagged cleanup"@
}

/// Begin to plan a package, given its versions.
pub fn begin(package: &str, versions: &[PackageVersion], policy: &Policy, now: Timestamp) -> (r:
    Beginning)
    requires
        asks_age(versions_in(versions@), *policy) ==> policy.measurable(),
    ensures
        ({
            let s = selected(versions_in(versions@), *policy, now);
            match r {
                Beginning::Done(pp) => !s.has_untagged && pp@ == clean_plan(
                    package@,
                    finalized(s, Set::empty(), Set::empty()),
                ),
                Beginning::NeedsToken(selection) => s.has_untagged && selection@ == s,
            }
        }),
{
    let inputs: Vec<VersionInput> = version_inputs(versions);
    let selection: Selection = select(inputs.as_slice(), policy, now);
    if !selection.has_untagged {
        let nothing: DigestSet = DigestSet::new();
        let plan: PrunePlan = finalize(selection, &nothing, &nothing);
        return Beginning::Done(clean(package, plan));
    }
    Beginning::NeedsToken(selection)
}

/// The plan where no token could be had: no untagged version is looked at. Where the primary rate
/// limit is the reason, there is no plan.
pub fn without_token(package: &str, selection: Selection, e: Error) -> (r: Result<
    PackagePlan,
    Error,
>)
    ensures
        match r {
            Ok(pp) => e !is RateLimited && pp@ == degraded_plan(
                package@,
                finalized_builds_only(selection@),
                no_token(e),
            ),
            Err(limit) => e is RateLimited && limit == e,
        },
{
    if e.is_rate_limited() {
        return Err(e);
    }
    let plan: PrunePlan = finalize_builds_only(selection);
    let mut message: String = "could not obtain registry token (".to_owned();
    message.append(e.to_text().as_str());
    message.append("); skipped untagged cleanup");
    Ok(degraded(package, plan, message))
}

/// What the children of one manifest more add to what is referred to.
proof fn lemma_children_step(results: Seq<Fetched>, i: int)
    requires
        0 <= i < results.len(),
    ensures
        children_of(results.take(i + 1)) == match results[i].1 {
            Ok(info) => children_of(results.take(i)) + texts(info.children@).to_set(),
            Err(_) => children_of(results.take(i)),
        },
{
    let shorter = results.take(i);
    let longer = results.take(i + 1);
    let grown = match results[i].1 {
        Ok(info) => children_of(shorter) + texts(info.children@).to_set(),
        Err(_) => children_of(shorter),
    };
    assert forall|d: Seq<char>| children_of(longer).contains(d) == grown.contains(d) by {
        if children_of(longer).contains(d) {
            let k = choose|k: int| 0 <= k < longer.len() && refers_to(#[trigger] longer[k], d);
            if k < i {
                assert(refers_to(shorter[k], d));
            }
        }
        if children_of(shorter).contains(d) {
            let k = choose|k: int| 0 <= k < shorter.len() && refers_to(#[trigger] shorter[k], d);
            assert(refers_to(longer[k], d));
        }
        if refers_to(results[i], d) {
            assert(refers_to(longer[i], d));
        }
    }
    assert(children_of(longer) =~= grown);
}

/// Adds the digests of a list to a set.
fn insert_all(set: &mut DigestSet, digests: Vec<String>)
    ensures
        final(set)@ == old(set)@ + texts(digests@).to_set(),
{
    let ghost all = texts(digests@);
    let ghost given = digests@;
    let ghost before = set@;
    assert(all.take(0).to_set() =~= Set::<Seq<char>>::empty());
    assert(set@ =~= before + all.take(0).to_set());
    for d in it: digests.into_iter()
        invariant
            it.seq() == given,
            all == texts(given),
            set@ == before + all.take(it.index() as int).to_set(),
    {
        let ghost i = it.index() as int;
        let ghost now = set@;
        let ghost text = d@;
        set.insert(d);
        proof {
            assert(all[i] == text);
            let shorter = all.take(i);
            let longer = all.take(i + 1);
            assert(longer =~= shorter.push(text));
            assert forall|x: Seq<char>|
                longer.to_set().contains(x) == shorter.to_set().insert(text).contains(x) by {
                if longer.contains(x) {
                    let k = choose|k: int| 0 <= k < longer.len() && longer[k] == x;
                    if k < i {
                        assert(shorter[k] == x);
                    }
                }
                if shorter.contains(x) {
                    let k = choose|k: int| 0 <= k < shorter.len() && shorter[k] == x;
                    assert(longer[k] == x);
                }
                if x == text {
                    assert(longer[i] == x);
                }
            }
            assert(longer.to_set() =~= shorter.to_set().insert(text));
            assert(set@ =~= before + longer.to_set());
        }
    }
    assert(all.take(all.len() as int) =~= all);
}

/// The digests of the candidates that no retained tagged version refers to.
fn to_scan(candidates: &Vec<CandidateUntagged>, protected: &DigestSet) -> (r: Vec<String>)
    ensures
        texts(r@) == unreferenced(
            candidates@.map_values(|c: CandidateUntagged| c@),
            protected@,
        ),
{
    let ghost f = |d: Seq<char>| !protected@.contains(d);
    let ghost all = candidates@.map_values(|c: CandidateUntagged| c@).map_values(
        |v: Version| v.digest,
    );
    let mut digests: Vec<String> = Vec::new();
    proof {
        reveal(Seq::filter);
        assert(texts(digests@) =~= all.take(0).filter(f));
    }
    for i in 0..candidates.len()
        invariant
            f == (|d: Seq<char>| !protected@.contains(d)),
            all == candidates@.map_values(|c: CandidateUntagged| c@).map_values(
                |v: Version| v.digest,
            ),
            texts(digests@) == all.take(i as int).filter(f),
    {
        let c: &CandidateUntagged = &candidates[i];
        let ghost before = texts(digests@);
        proof {
            assert(all[i as int] == c.digest@);
            lemma_filter_step(all, i as int, f);
        }
        if !protected.contains(c.digest.as_str()) {
            digests.push(c.digest.clone());
            assert(texts(digests@) =~= before.push(c.digest@));
        }
    }
    assert(all.take(all.len() as int) =~= all);
    digests
}

/// Go on with the plan of a package, given what came of reading the manifests of everything that
/// is retained. If one of them is not known, neither is it known which untagged versions are its
/// children, so none is deleted.
pub fn retained_read(
    package: &str,
    selection: Selection,
    results: Vec<Fetched>,
    protect_subjects: bool,
) -> (r: Result<Reading, Error>)
    ensures
        match r {
            Err(e) => is_first_limit(results@, e),
            Ok(Reading::Done(pp)) => {
                &&& none_limited(results@)
                &&& all_read(results@) ==> !protect_subjects && pp@ == clean_plan(
                    package@,
                    finalized(selection@, children_of(results@), Set::empty()),
                )
                &&& !all_read(results@) ==> pp@ == degraded_plan(
                    package@,
                    finalized_builds_only(selection@),
                    "a retained manifest fetch failed; skipped untagged cleanup for safety"@,
                )
            },
            Ok(Reading::Scan { selection: kept, protected, candidates }) => {
                &&& all_read(results@)
                &&& protect_subjects
                &&& kept == selection
                &&& protected@ == children_of(results@)
                &&& texts(candidates@) == unreferenced(
                    selection@.candidates,
                    children_of(results@),
                )
            },
        },
{
    let ghost given = results@;
    let mut protected: DigestSet = DigestSet::new();
    let mut failed: bool = false;
    assert(children_of(given.take(0)) =~= Set::<Seq<char>>::empty());
    for f in it: results.into_iter()
        invariant
            it.seq() == given,
            given == results@,
            protected@ == children_of(given.take(it.index() as int)),
            failed == !all_read(given.take(it.index() as int)),
            forall|j: int| 0 <= j < it.index() ==> !was_limited(#[trigger] given[j]),
    {
        let ghost i = it.index() as int;
        proof {
            assert(given[i] == f);
            lemma_children_step(given, i);
            let shorter = given.take(i);
            let longer = given.take(i + 1);
            if !all_read(shorter) {
                let k = choose|k: int|
                    0 <= k < shorter.len() && !((#[trigger] shorter[k]).1 is Ok);
                assert(!(longer[k].1 is Ok));
            } else if f.1 is Ok {
                assert forall|k: int| 0 <= k < longer.len() implies (#[trigger] longer[k]).1
                    is Ok by {
                    if k < i {
                        assert(shorter[k].1 is Ok);
                    }
                }
            } else {
                assert(!(longer[i].1 is Ok));
            }
        }
        match f.1 {
            Ok(info) => {
                insert_all(&mut protected, info.children);
            },
            Err(e) => {
                if e.is_rate_limited() {
                    assert(was_limited(given[i]));
                    return Err(e);
                }
                failed = true;
            },
        }
    }
    assert(given.take(given.len() as int) =~= given);
    if failed {
        let plan: PrunePlan = finalize_builds_only(selection);
        return Ok(
            Reading::Done(
                degraded(
                    package,
                    plan,
                    "a retained manifest fetch failed; skipped untagged cleanup for safety".to_owned(),
                ),
            ),
        );
    }
    if protect_subjects {
        let candidates: Vec<String> = to_scan(&selection.candidate_untagged, &protected);
        return Ok(Reading::Scan { selection, protected, candidates });
    }
    let nothing: DigestSet = DigestSet::new();
    let plan: PrunePlan = finalize(selection, &protected, &nothing);
    Ok(Reading::Done(clean(package, plan)))
}

/// What one candidate more adds to those that have to be kept for their subject.
proof fn lemma_attesting_step(results: Seq<Fetched>, retained: Set<Seq<char>>, i: int)
    requires
        0 <= i < results.len(),
    ensures
        attesting_of(results.take(i + 1), retained) == if must_stay(results[i], retained) {
            attesting_of(results.take(i), retained).insert(results[i].0@)
        } else {
            attesting_of(results.take(i), retained)
        },
{
    let shorter = results.take(i);
    let longer = results.take(i + 1);
    let grown = if must_stay(results[i], retained) {
        attesting_of(shorter, retained).insert(results[i].0@)
    } else {
        attesting_of(shorter, retained)
    };
    assert forall|d: Seq<char>| attesting_of(longer, retained).contains(d) == grown.contains(d) by {
        if attesting_of(longer, retained).contains(d) {
            let k = choose|k: int|
                0 <= k < longer.len() && (#[trigger] longer[k]).0@ == d && must_stay(
                    longer[k],
                    retained,
                );
            if k < i {
                assert(shorter[k].0@ == d);
            }
        }
        if attesting_of(shorter, retained).contains(d) {
            let k = choose|k: int|
                0 <= k < shorter.len() && (#[trigger] shorter[k]).0@ == d && must_stay(
                    shorter[k],
                    retained,
                );
            assert(longer[k].0@ == d);
        }
        if must_stay(results[i], retained) && results[i].0@ == d {
            assert(longer[i].0@ == d);
        }
    }
    assert(attesting_of(longer, retained) =~= grown);
}

/// The plan of a package, given what came of reading the manifests of the candidates for their
/// subjects. A candidate that attests something retained is kept, and so is one whose manifest
/// could not be read.
pub fn scanned(
    package: &str,
    selection: Selection,
    protected: &DigestSet,
    results: Vec<Fetched>,
) -> (r: Result<PackagePlan, Error>)
    ensures
        match r {
            Err(e) => is_first_limit(results@, e),
            Ok(pp) => none_limited(results@) && pp@ == clean_plan(
                package@,
                finalized(
                    selection@,
                    protected@,
                    attesting_of(results@, selection@.retained),
                ),
            ),
        },
{
    let ghost given = results@;
    let ghost retained = selection@.retained;
    let mut attesting: DigestSet = DigestSet::new();
    assert(attesting_of(given.take(0), retained) =~= Set::<Seq<char>>::empty());
    for f in it: results.into_iter()
        invariant
            it.seq() == given,
            given == results@,
            retained == selection.retained_digests@,
            attesting@ == attesting_of(given.take(it.index() as int), retained),
            forall|j: int| 0 <= j < it.index() ==> !was_limited(#[trigger] given[j]),
    {
        let ghost i = it.index() as int;
        proof {
            assert(given[i] == f);
            lemma_attesting_step(given, retained, i);
        }
        match f.1 {
            Ok(info) => {
                let stays: bool = match &info.subject {
                    Some(subject) => selection.retained_digests.contains(subject.as_str()),
                    None => false,
                };
                if stays {
                    attesting.insert(f.0);
                }
            },
            Err(e) => {
                if e.is_rate_limited() {
                    assert(was_limited(given[i]));
                    return Err(e);
                }
                attesting.insert(f.0);
            },
        }
    }
    assert(given.take(given.len() as int) =~= given);
    let plan: PrunePlan = finalize(selection, protected, &attesting);
    Ok(clean(package, plan))
}

/// The planning of a run: what has been planned so far, and whether the primary rate limit ended
/// it.
pub struct Planning {
    pub plans: Vec<PackagePlan>,
    pub rate_limited: bool,
}

impl Planning {
    /// Nothing planned yet.
    pub fn new() -> (r: Planning)
        ensures
            plans_of(r.plans@) == Seq::<Planned>::empty(),
            !r.rate_limited,
    {
        let plans: Vec<PackagePlan> = Vec::new();
        assert(plans_of(plans@) =~= Seq::<Planned>::empty());
        Planning { plans, rate_limited: false }
    }

    /// Take in what came of planning a package. Tells whether to go on with the next one: the
    /// primary rate limit ends the planning, while any other error only costs that package.
    pub fn absorb(&mut self, package: &str, outcome: Result<PackagePlan, Error>) -> (go_on: bool)
        ensures
            match outcome {
                Ok(pp) => {
                    &&& go_on
                    &&& final(self).rate_limited == old(self).rate_limited
                    &&& final(self).plans@ == old(self).plans@.push(pp)
                },
                Err(e) => if e is RateLimited {
                    &&& !go_on
                    &&& final(self).rate_limited
                    &&& final(self).plans@ == old(self).plans@
                } else {
                    &&& go_on
                    &&& final(self).rate_limited == old(self).rate_limited
                    &&& plans_of(final(self).plans@) == plans_of(old(self).plans@).push(
                        errored_plan(package@, e.text()),
                    )
                },
            },
    {
        match outcome {
            Ok(pp) => {
                self.plans.push(pp);
                true
            },
            Err(e) => {
                if e.is_rate_limited() {
                    self.rate_limited = true;
                    return false;
                }
                let ghost before = plans_of(self.plans@);
                let pp: PackagePlan = PackagePlan {
                    package: package.to_owned(),
                    status: PackageStatus::Errored,
                    message: Some(e.to_text()),
                    plan: PrunePlan { delete: Vec::new(), keep: Vec::new() },
                };
                assert(pp@ =~= errored_plan(package@, e.text()));
                self.plans.push(pp);
                assert(plans_of(self.plans@) =~= before.push(pp@));
                true
            },
        }
    }

    /// Whether the number of planned deletions is one that the machine can hold.
    pub fn is_countable(&self) -> (r: bool)
        ensures
            r == (planned_total(plans_of(self.plans@)) <= usize::MAX),
    {
        checked_planned(&self.plans).is_some()
    }

    /// Decide how the run goes on once everything is planned. A dry run, a run without anything to
    /// delete, and one that would delete more than is allowed, end here: nothing is deleted.
    pub fn decide(&self, dry_run: bool, max_delete: Option<usize>) -> (r: Decision)
        requires
            !dry_run ==> planned_total(plans_of(self.plans@)) <= usize::MAX,
        ensures
            match r {
                Decision::Report(summary) => decided(
                    plans_of(self.plans@),
                    self.rate_limited,
                    dry_run,
                    max_delete,
                ) == Some(summary@),
                Decision::Execute => decided(
                    plans_of(self.plans@),
                    self.rate_limited,
                    dry_run,
                    max_delete,
                ) is None,
            },
    {
        if dry_run {
            return Decision::Report(build_summary(true, self.rate_limited, &self.plans));
        }
        let total: usize = checked_planned(&self.plans).unwrap();
        if total == 0 {
            return Decision::Report(build_summary(false, self.rate_limited, &self.plans));
        }
        if let Some(max) = max_delete {
            if total > max {
                let mut summary: Summary = build_summary(false, self.rate_limited, &self.plans);
                let ghost plain = summary@;
                let mut reason: String = "plan would delete ".to_owned();
                reason.append(decimal_string(total as u64).as_str());
                reason.append(" versions, exceeding max-delete ");
                reason.append(decimal_string(max as u64).as_str());
                reason.append(
                    "; nothing deleted — review, then re-run with a higher --max-delete",
                );
                summary.aborted = Some(reason);
                assert(summary@ =~= (Outline { aborted: Some(too_many(total as nat, max)), ..plain
                }));
                return Decision::Report(summary);
            }
        }
        Decision::Execute
    }
}

/// How a run goes on once everything is planned.
pub enum Decision {
    /// It ends, and this is its summary.
    Report(Summary),
    /// The plans are carried out.
    Execute,
}

/// The end of a run whose owner or packages could not even be asked for. Where the primary rate
/// limit is the reason, it is a run that was cut short, with nothing planned and nothing deleted;
/// any other error stays one.
pub fn cut_short(dry_run: bool, e: Error) -> (r: Result<Summary, Error>)
    ensures
        match r {
            Ok(s) => e is RateLimited && s@ == (Outline {
                dry_run,
                rate_limited: true,
                aborted: None,
                packages: Seq::empty(),
            }),
            Err(x) => !(e is RateLimited) && x == e,
        },
{
    if !e.is_rate_limited() {
        return Err(e);
    }
    let packages: Vec<PackageReport> = Vec::new();
    assert(reports_of(packages@) =~= Seq::<Report>::empty());
    Ok(Summary { dry_run, rate_limited: true, aborted: None, packages })
}

/// The number of planned deletions.
pub open spec fn planned_total(plans: Seq<Planned>) -> nat
    decreases plans.len(),
{
    if plans.len() == 0 {
        0
    } else {
        planned_total(plans.drop_last()) + plans.last().plan.delete.len()
    }
}

/// Why a run is aborted that would delete too much.
pub open spec fn too_many(total: nat, max: usize) -> Seq<char> {
    "plan would delete "@ + decimal(total) + " versions, exceeding max-delete "@ + decimal(
        max as nat,
    ) + "; nothing deleted — review, then re-run with a higher --max-delete"@
}

/// The report on a plan of which nothing is carried out.
pub open spec fn unexecuted(pp: Planned) -> Report {
    planned_report_of(pp.package, pp.status, pp.plan, pp.message)
}

/// The summary of plans of which nothing is carried out.
pub open spec fn plan_summary(plans: Seq<Planned>, rate_limited: bool, dry_run: bool) -> Outline {
    Outline {
        dry_run,
        rate_limited,
        aborted: None,
        packages: plans.map_values(|pp: Planned| unexecuted(pp)),
    }
}

/// The summary of a run that ends once everything is planned; `None` where the plans are to be
/// carried out.
pub open spec fn decided(
    plans: Seq<Planned>,
    rate_limited: bool,
    dry_run: bool,
    max_delete: Option<usize>,
) -> Option<Outline> {
    let total = planned_total(plans);
    if dry_run || total == 0 {
        Some(plan_summary(plans, rate_limited, dry_run))
    } else if max_delete matches Some(max) && total > max {
        Some(
            Outline {
                aborted: Some(too_many(total, max_delete->0)),
                ..plan_summary(plans, rate_limited, false)
            },
        )
    } else {
        None
    }
}

/// The number of planned deletions does not fall when plans are added.
proof fn lemma_planned_grows(plans: Seq<Planned>, k: int)
    requires
        0 <= k <= plans.len(),
    ensures
        planned_total(plans.take(k)) <= planned_total(plans),
    decreases plans.len(),
{
    if k < plans.len() {
        lemma_planned_grows(plans.drop_last(), k);
        assert(plans.drop_last().take(k) =~= plans.take(k));
    } else {
        assert(plans.take(k) =~= plans);
    }
}

/// The number of planned deletions, if the machine can hold it.
fn checked_planned(plans: &Vec<PackagePlan>) -> (r: Option<usize>)
    ensures
        match r {
            Some(n) => n == planned_total(plans_of(plans@)),
            None => planned_total(plans_of(plans@)) > usize::MAX,
        },
{
    let ghost all = plans_of(plans@);
    let mut sum: usize = 0;
    for i in 0..plans.len()
        invariant
            all == plans_of(plans@),
            sum == planned_total(all.take(i as int)),
    {
        let n: usize = plans[i].plan.delete.len();
        proof {
            assert(all[i as int] == plans@[i as int]@);
            assert(all[i as int].plan.delete.len() == n);
            assert(all.take(i as int + 1).drop_last() =~= all.take(i as int));
            lemma_planned_grows(all, i as int + 1);
        }
        match sum.checked_add(n) {
            Some(more) => {
                sum = more;
            },
            None => {
                return None;
            },
        }
    }
    assert(all.take(all.len() as int) =~= all);
    Some(sum)
}

/// A copy of an optional message.
fn copied(message: &Option<String>) -> (r: Option<String>)
    ensures
        opt_text(r) == opt_text(*message),
{
    match message {
        Some(m) => Some(m.clone()),
        None => None,
    }
}

/// The summary of plans of which nothing is carried out.
fn build_summary(dry_run: bool, rate_limited: bool, plans: &Vec<PackagePlan>) -> (r: Summary)
    ensures
        r@ == plan_summary(plans_of(plans@), rate_limited, dry_run),
{
    let ghost all = plans_of(plans@);
    let ghost f = |pp: Planned| unexecuted(pp);
    let mut packages: Vec<PackageReport> = Vec::new();
    assert(reports_of(packages@) =~= all.take(0).map_values(f));
    for i in 0..plans.len()
        invariant
            all == plans_of(plans@),
            f == (|pp: Planned| unexecuted(pp)),
            reports_of(packages@) == all.take(i as int).map_values(f),
    {
        let pp: &PackagePlan = &plans[i];
        let ghost before = reports_of(packages@);
        let report: PackageReport = planned_report(
            pp.package.as_str(),
            pp.status,
            &pp.plan,
            copied(&pp.message),
        );
        packages.push(report);
        proof {
            assert(all[i as int] == pp@);
            assert(reports_of(packages@) =~= before.push(f(pp@)));
            assert(all.take(i as int + 1).map_values(f) =~= before.push(f(pp@)));
        }
    }
    assert(all.take(all.len() as int) =~= all);
    Summary { dry_run, rate_limited, aborted: None, packages }
}

/// A message with an addition.
pub open spec fn merged(existing: Option<Seq<char>>, addition: Seq<char>) -> Option<Seq<char>> {
    match existing {
        Some(e) => Some(e + "; "@ + addition),
        None => Some(addition),
    }
}

/// A message with an addition.
pub fn merge(existing: Option<String>, addition: &str) -> (r: Option<String>)
    ensures
        opt_text(r) == merged(opt_text(existing), addition@),
{
    match existing {
        Some(e) => {
            let mut m: String = e;
            m.append("; ");
            m.append(addition);
            Some(m)
        },
        None => Some(addition.to_owned()),
    }
}

/// The message on a package whose plan was carried out.
pub open spec fn final_message(
    planned: Option<Seq<char>>,
    skipped: nat,
    failed: bool,
    hit_limit: bool,
) -> Option<Seq<char>> {
    let one = if skipped > 0 {
        merged(planned, decimal(skipped) + " skipped (tags changed since planning)"@)
    } else {
        planned
    };
    let two = if failed {
        merged(one, "one or more deletions failed"@)
    } else {
        one
    };
    if hit_limit {
        merged(two, "stopped by rate limit"@)
    } else {
        two
    }
}

/// The report on a package whose plan was carried out. It stays errored where it could not be
/// planned, and is degraded where something did not go as planned.
pub open spec fn final_report_of(
    pp: Planned,
    records: Seq<Removal>,
    deleted: usize,
    skipped: nat,
    failed: bool,
    hit_limit: bool,
) -> Report {
    Report {
        package: pp.package,
        status: if pp.status == PackageStatus::Errored {
            PackageStatus::Errored
        } else if failed || hit_limit || skipped > 0 {
            PackageStatus::Degraded
        } else {
            pp.status
        },
        kept: pp.plan.keep.len() as usize,
        planned_delete: pp.plan.delete.len() as usize,
        deleted,
        message: final_message(pp.message, skipped, failed, hit_limit),
        deletes: records,
        keeps: pp.plan.keep.map_values(stay_of()),
    }
}

/// The report on a package whose plan was carried out: what was deleted, and how often a version
/// was skipped.
pub fn final_report(
    pp: &PackagePlan,
    records: Vec<DeleteRecord>,
    deleted: usize,
    skipped: usize,
    failed: bool,
    hit_limit: bool,
) -> (r: PackageReport)
    ensures
        r@ == final_report_of(
            pp@,
            removals(records@),
            deleted,
            skipped as nat,
            failed,
            hit_limit,
        ),
{
    let disturbed: bool = failed || hit_limit || skipped > 0;
    let status: PackageStatus = match pp.status {
        PackageStatus::Errored => PackageStatus::Errored,
        planned => if disturbed {
            PackageStatus::Degraded
        } else {
            planned
        },
    };
    let mut message: Option<String> = copied(&pp.message);
    if skipped > 0 {
        let mut what: String = decimal_string(skipped as u64);
        what.append(" skipped (tags changed since planning)");
        message = merge(message, what.as_str());
    }
    if failed {
        message = merge(message, "one or more deletions failed");
    }
    if hit_limit {
        message = merge(message, "stopped by rate limit");
    }
    PackageReport {
        package: pp.package.clone(),
        status,
        kept: pp.plan.keep.len(),
        planned_delete: pp.plan.delete.len(),
        deleted,
        message,
        deletes: records,
        keeps: keep_records(&pp.plan),
    }
}

/// What came of a planned deletion.
pub enum Outcome {
    Deleted(DeleteRecord),
    /// The version is no longer what it was when the deletion was planned, or it could not be
    /// read.
    Skipped,
    Failed,
    RateLimited,
}

/// The class that a version must still have to be deleted for a reason.
pub open spec fn class_for(reason: DeleteReason) -> Classification {
    match reason {
        DeleteReason::OldBuildImage => Classification::Build,
        DeleteReason::OrphanedChild => Classification::Untagged,
    }
}

/// The record of a deletion that was carried out.
pub open spec fn executed_removal(package: Seq<char>, d: Deletion, at: Timestamp) -> Removal {
    Removal {
        package,
        version: d.version,
        reason: delete_word(d.reason),
        executed: true,
        deleted_at: Some(at),
    }
}

/// Whether an outcome is a deletion with the given record.
pub open spec fn is_deletion(o: Outcome, record: Removal) -> bool {
    o matches Outcome::Deleted(rec) && rec@ == record
}

/// The record of a deletion that was carried out.
pub fn deleted_record(package: &str, d: &PlannedDelete, deleted_at: Timestamp) -> (r: DeleteRecord)
    ensures
        r@ == executed_removal(package@, d@, deleted_at),
{
    delete_record(package, d, true, Some(deleted_at))
}

/// Decide, right before a deletion, whether it still is to take place, given the version as it is
/// now: `None` says that it is. Its tags may have changed since it was planned; a version that is
/// gone counts as deleted.
pub fn before_delete(
    package: &str,
    d: &PlannedDelete,
    now: Timestamp,
    found: Result<PackageVersion, Error>,
) -> (r: Option<Outcome>)
    ensures
        match found {
            Ok(v) => if class_of(tags_of(v)) == class_for(d.reason) {
                r is None
            } else {
                r == Some(Outcome::Skipped)
            },
            Err(e) => if e.status() == Some(404u16) {
                r matches Some(o) && is_deletion(o, executed_removal(package@, d@, now))
            } else if e is RateLimited {
                r == Some(Outcome::RateLimited)
            } else {
                r == Some(Outcome::Skipped)
            },
        },
{
    let expected: Classification = match d.reason {
        DeleteReason::OldBuildImage => Classification::Build,
        DeleteReason::OrphanedChild => Classification::Untagged,
    };
    match found {
        Ok(v) => {
            let tags: Vec<String> = v.tags();
            if classify(tags.as_slice()) != expected {
                Some(Outcome::Skipped)
            } else {
                None
            }
        },
        Err(e) => {
            let gone: bool = match e.api_status() {
                Some(status) => status == 404,
                None => false,
            };
            if gone {
                Some(Outcome::Deleted(deleted_record(package, d, now)))
            } else if e.is_rate_limited() {
                Some(Outcome::RateLimited)
            } else {
                Some(Outcome::Skipped)
            }
        },
    }
}

/// What came of a deletion, given how its request went.
pub fn after_delete(package: &str, d: &PlannedDelete, now: Timestamp, sent: Result<(), Error>) -> (r:
    Outcome)
    ensures
        match sent {
            Ok(_) => is_deletion(r, executed_removal(package@, d@, now)),
            Err(e) => if e is RateLimited {
                r == Outcome::RateLimited
            } else {
                r == Outcome::Failed
            },
        },
{
    match sent {
        Ok(_) => Outcome::Deleted(deleted_record(package, d, now)),
        Err(e) => if e.is_rate_limited() {
            Outcome::RateLimited
        } else {
            Outcome::Failed
        },
    }
}

/// Whether an outcome is a deletion.
pub open spec fn was_deleted() -> spec_fn(Outcome) -> bool {
    |o: Outcome| o is Deleted
}

/// Whether an outcome is a deletion that was skipped.
pub open spec fn was_skipped() -> spec_fn(Outcome) -> bool {
    |o: Outcome| o is Skipped
}

/// The records of the deletions among outcomes.
pub open spec fn records_in(outcomes: Seq<Outcome>) -> Seq<Removal> {
    outcomes.filter(was_deleted()).map_values(|o: Outcome| o->Deleted_0@)
}

/// Whether a deletion among outcomes failed.
pub open spec fn any_failed(outcomes: Seq<Outcome>) -> bool {
    exists|i: int| 0 <= i < outcomes.len() && (#[trigger] outcomes[i]) is Failed
}

/// Whether the primary rate limit was hit among outcomes.
pub open spec fn any_limited(outcomes: Seq<Outcome>) -> bool {
    exists|i: int| 0 <= i < outcomes.len() && (#[trigger] outcomes[i]) is RateLimited
}

/// The report on a package, given what came of its planned deletions.
pub open spec fn outcome_report(pp: Planned, outcomes: Seq<Outcome>) -> Report {
    final_report_of(
        pp,
        records_in(outcomes),
        records_in(outcomes).len() as usize,
        outcomes.filter(was_skipped()).len(),
        any_failed(outcomes),
        any_limited(outcomes),
    )
}

/// Whether a plan asks for no deletion at all.
pub open spec fn is_idle(pp: Planned) -> bool {
    pp.status == PackageStatus::Errored || pp.plan.delete.len() == 0
}

/// The report on a package that was not reached because the primary rate limit ended the run.
pub open spec fn halted_report(pp: Planned) -> Report {
    Report {
        status: PackageStatus::Degraded,
        message: merged(pp.message, "run stopped by rate limit before execution"@),
        ..unexecuted(pp)
    }
}

/// The carrying out of plans: the reports so far, and whether the primary rate limit ended it.
pub struct Execution {
    pub reports: Vec<PackageReport>,
    pub stopped: bool,
}

/// How far plans have been carried out, mathematically.
#[verifier::ext_equal]
pub struct Progress {
    pub reports: Seq<Report>,
    pub stopped: bool,
}

impl View for Execution {
    type V = Progress;

    open spec fn view(&self) -> Progress {
        Progress { reports: reports_of(self.reports@), stopped: self.stopped }
    }
}

/// Whether the deletions of a package are to take place.
pub open spec fn goes_ahead(progress: Progress, pp: Planned) -> bool {
    !is_idle(pp) && !progress.stopped
}

/// The progress after a package whose deletions do not take place.
pub open spec fn passed_over(progress: Progress, pp: Planned) -> Progress {
    Progress {
        reports: progress.reports.push(
            if is_idle(pp) {
                final_report_of(pp, Seq::empty(), 0, 0, false, progress.stopped)
            } else {
                halted_report(pp)
            },
        ),
        stopped: progress.stopped,
    }
}

/// The progress after a package whose deletions were attempted.
pub open spec fn attempted(progress: Progress, pp: Planned, outcomes: Seq<Outcome>) -> Progress {
    Progress {
        reports: progress.reports.push(outcome_report(pp, outcomes)),
        stopped: progress.stopped || any_limited(outcomes),
    }
}

impl Execution {
    /// Nothing carried out yet. If the planning was cut short, nothing will be.
    pub fn new(rate_limited: bool) -> (r: Execution)
        ensures
            r@ == (Progress { reports: Seq::empty(), stopped: rate_limited }),
    {
        let reports: Vec<PackageReport> = Vec::new();
        assert(reports_of(reports@) =~= Seq::<Report>::empty());
        Execution { reports, stopped: rate_limited }
    }

    /// Decide whether the deletions of a package are to take place. Where not, because there are
    /// none or because the run has stopped, the package is reported at once.
    pub fn before_package(&mut self, pp: &PackagePlan) -> (r: bool)
        ensures
            r == goes_ahead(old(self)@, pp@),
            final(self)@ == if r {
                old(self)@
            } else {
                passed_over(old(self)@, pp@)
            },
    {
        let ghost before = reports_of(self.reports@);
        let errored: bool = match pp.status {
            PackageStatus::Errored => true,
            _ => false,
        };
        if errored || pp.plan.delete.len() == 0 {
            let none: Vec<DeleteRecord> = Vec::new();
            assert(removals(none@) =~= Seq::<Removal>::empty());
            let report: PackageReport = final_report(pp, none, 0, 0, false, self.stopped);
            self.reports.push(report);
            assert(reports_of(self.reports@) =~= before.push(report@));
            return false;
        }
        if self.stopped {
            let mut report: PackageReport = planned_report(
                pp.package.as_str(),
                pp.status,
                &pp.plan,
                copied(&pp.message),
            );
            report.status = PackageStatus::Degraded;
            report.message = merge(
                copied(&pp.message),
                "run stopped by rate limit before execution",
            );
            assert(report@ =~= halted_report(pp@));
            self.reports.push(report);
            assert(reports_of(self.reports@) =~= before.push(report@));
            return false;
        }
        true
    }

    /// Report a package whose deletions have been attempted. Hitting the primary rate limit stops
    /// the run.
    pub fn after_package(&mut self, pp: &PackagePlan, outcomes: Vec<Outcome>)
        ensures
            final(self)@ == attempted(old(self)@, pp@, outcomes@),
    {
        let ghost before = reports_of(self.reports@);
        let ghost given = outcomes@;
        let ghost f = was_deleted();
        let ghost g = was_skipped();
        let ghost h = |o: Outcome| o->Deleted_0@;
        let mut records: Vec<DeleteRecord> = Vec::new();
        let mut skipped: usize = 0;
        let mut failed: bool = false;
        let mut hit_limit: bool = false;
        let total: usize = outcomes.len();
        proof {
            reveal(Seq::filter);
            assert(removals(records@) =~= given.take(0).filter(f).map_values(h));
        }
        for o in it: outcomes.into_iter()
            invariant
                it.seq() == given,
                given.len() == total,
                f == was_deleted(),
                g == was_skipped(),
                h == (|o: Outcome| o->Deleted_0@),
                removals(records@) == given.take(it.index() as int).filter(f).map_values(h),
                skipped == given.take(it.index() as int).filter(g).len(),
                skipped <= it.index(),
                failed == any_failed(given.take(it.index() as int)),
                hit_limit == any_limited(given.take(it.index() as int)),
        {
            let ghost i = it.index() as int;
            let ghost shorter = given.take(i);
            let ghost longer = given.take(i + 1);
            let ghost records_before = removals(records@);
            let ghost failed_before = failed;
            let ghost limit_before = hit_limit;
            proof {
                assert(given[i] == o);
                lemma_filter_step(given, i, f);
                lemma_filter_step(given, i, g);
                assert(longer =~= shorter.push(o));
            }
            match o {
                Outcome::Deleted(record) => {
                    records.push(record);
                    proof {
                        assert(removals(records@) =~= records_before.push(record@));
                        assert(shorter.filter(f).push(given[i]).map_values(h)
                            =~= records_before.push(record@));
                    }
                },
                Outcome::Skipped => {
                    skipped = skipped + 1;
                },
                Outcome::Failed => {
                    failed = true;
                },
                Outcome::RateLimited => {
                    hit_limit = true;
                },
            }
            proof {
                if failed_before {
                    let k = choose|k: int| 0 <= k < shorter.len() && (#[trigger] shorter[k]) is Failed;
                    assert(longer[k] is Failed);
                }
                if given[i] is Failed {
                    assert(longer[i] is Failed);
                }
                if any_failed(longer) && !(given[i] is Failed) {
                    let k = choose|k: int| 0 <= k < longer.len() && (#[trigger] longer[k]) is Failed;
                    assert(shorter[k] is Failed);
                }
                if limit_before {
                    let k = choose|k: int|
                        0 <= k < shorter.len() && (#[trigger] shorter[k]) is RateLimited;
                    assert(longer[k] is RateLimited);
                }
                if given[i] is RateLimited {
                    assert(longer[i] is RateLimited);
                }
                if any_limited(longer) && !(given[i] is RateLimited) {
                    let k = choose|k: int|
                        0 <= k < longer.len() && (#[trigger] longer[k]) is RateLimited;
                    assert(shorter[k] is RateLimited);
                }
            }
        }
        assert(given.take(given.len() as int) =~= given);
        if hit_limit {
            self.stopped = true;
        }
        let deleted: usize = records.len();
        assert(removals(records@).len() == deleted);
        let report: PackageReport = final_report(pp, records, deleted, skipped, failed, hit_limit);
        self.reports.push(report);
        assert(reports_of(self.reports@) =~= before.push(report@));
    }

    /// The summary of a run whose plans were carried out.
    pub fn finish(self) -> (r: Summary)
        ensures
            r@ == (Outline {
                dry_run: false,
                rate_limited: self.stopped,
                aborted: None,
                packages: reports_of(self.reports@),
            }),
    {
        Summary {
            dry_run: false,
            rate_limited: self.stopped,
            aborted: None,
            packages: self.reports,
        }
    }
}

/// The progress after one package more, given what comes of its deletions where they take place.
pub open spec fn stepped(progress: Progress, pp: Planned, outcomes: Seq<Outcome>) -> Progress {
    if goes_ahead(progress, pp) {
        attempted(progress, pp, outcomes)
    } else {
        passed_over(progress, pp)
    }
}

/// The progress after packages, given for each what comes of its deletions where they take place.
pub open spec fn progressed(
    progress: Progress,
    plans: Seq<Planned>,
    outcomes: Seq<Seq<Outcome>>,
) -> Progress
    decreases plans.len(),
{
    if plans.len() == 0 {
        progress
    } else {
        let last = plans.len() - 1;
        stepped(progressed(progress, plans.drop_last(), outcomes), plans.last(), outcomes[last])
    }
}

/// Whether a report tells of no deletion: none is counted, and each record is of one that was not
/// carried out.
pub open spec fn deletes_nothing(report: Report) -> bool {
    &&& report.deleted == 0
    &&& forall|i: int| 0 <= i < report.deletes.len() ==> !(#[trigger] report.deletes[i]).executed
}

/// Every package of a run is reported once, in the order of the plans.
pub proof fn law_every_package_is_reported(
    progress: Progress,
    plans: Seq<Planned>,
    outcomes: Seq<Seq<Outcome>>,
)
    ensures
        ({
            let reports = progressed(progress, plans, outcomes).reports;
            let before = progress.reports.len();
            &&& reports.len() == before + plans.len()
            &&& reports.take(before as int) == progress.reports
            &&& forall|k: int|
                0 <= k < plans.len() ==> (#[trigger] reports[before + k]).package
                    == plans[k].package
        }),
    decreases plans.len(),
{
    let before = progress.reports.len();
    if plans.len() > 0 {
        law_every_package_is_reported(progress, plans.drop_last(), outcomes);
        let shorter = progressed(progress, plans.drop_last(), outcomes).reports;
        let longer = progressed(progress, plans, outcomes).reports;
        assert(longer.take(before as int) =~= shorter.take(before as int));
        assert forall|k: int| 0 <= k < plans.len() implies (#[trigger] longer[before + k]).package
            == plans[k].package by {
            if k < plans.len() - 1 {
                assert(longer[before + k] == shorter[before + k]);
                assert(plans.drop_last()[k] == plans[k]);
            }
        }
    } else {
        assert(progress.reports.take(before as int) =~= progress.reports);
    }
}

/// Once the primary rate limit has stopped a run, it stays stopped and deletes nothing more.
pub proof fn law_stopped_run_deletes_nothing_more(
    progress: Progress,
    plans: Seq<Planned>,
    outcomes: Seq<Seq<Outcome>>,
)
    requires
        progress.stopped,
    ensures
        ({
            let after = progressed(progress, plans, outcomes);
            &&& after.stopped
            &&& after.reports.len() == progress.reports.len() + plans.len()
            &&& forall|k: int|
                progress.reports.len() <= k < after.reports.len() ==> deletes_nothing(
                    #[trigger] after.reports[k],
                )
        }),
    decreases plans.len(),
{
    if plans.len() > 0 {
        law_stopped_run_deletes_nothing_more(progress, plans.drop_last(), outcomes);
        let shorter = progressed(progress, plans.drop_last(), outcomes);
        let longer = progressed(progress, plans, outcomes);
        assert forall|k: int| progress.reports.len() <= k < longer.reports.len() implies
            deletes_nothing(#[trigger] longer.reports[k]) by {
            if k < longer.reports.len() - 1 {
                assert(longer.reports[k] == shorter.reports[k]);
            }
        }
    }
}

/// A package that could not be planned, or of which nothing is to be deleted, loses nothing.
pub proof fn law_idle_package_loses_nothing(
    progress: Progress,
    pp: Planned,
    outcomes: Seq<Outcome>,
)
    requires
        is_idle(pp),
    ensures
        deletes_nothing(stepped(progress, pp, outcomes).reports.last()),
{
}

/// A run that ends once everything is planned has deleted nothing, and reports every package.
pub proof fn law_run_without_execution_deletes_nothing(
    plans: Seq<Planned>,
    rate_limited: bool,
    dry_run: bool,
    max_delete: Option<usize>,
)
    ensures
        decided(plans, rate_limited, dry_run, max_delete) matches Some(s) ==> {
            &&& s.packages.len() == plans.len()
            &&& s.deleted() == 0
            &&& forall|k: int|
                0 <= k < s.packages.len() ==> deletes_nothing(#[trigger] s.packages[k])
        },
{
    if let Some(s) = decided(plans, rate_limited, dry_run, max_delete) {
        lemma_none_deleted(s.packages);
    }
}

proof fn lemma_none_deleted(packages: Seq<Report>)
    requires
        forall|k: int| 0 <= k < packages.len() ==> (#[trigger] packages[k]).deleted == 0,
    ensures
        total(packages, Count::Deleted) == 0,
    decreases packages.len(),
{
    if packages.len() > 0 {
        assert forall|k: int| 0 <= k < packages.drop_last().len() implies (
        #[trigger] packages.drop_last()[k]).deleted == 0 by {
            assert(packages[k].deleted == 0);
        }
        lemma_none_deleted(packages.drop_last());
        assert(packages[packages.len() - 1].deleted == 0);
    }
}

/// The summary of a run that ends once everything is planned counts every planned deletion.
pub proof fn law_planned_deletions_are_counted(
    plans: Seq<Planned>,
    rate_limited: bool,
    dry_run: bool,
    max_delete: Option<usize>,
)
    requires
        forall|k: int|
            0 <= k < plans.len() ==> (#[trigger] plans[k]).plan.delete.len() <= usize::MAX,
    ensures
        decided(plans, rate_limited, dry_run, max_delete) matches Some(s) ==> s.planned()
            == planned_total(plans),
{
    lemma_planned_counted(plans);
}

proof fn lemma_planned_counted(plans: Seq<Planned>)
    requires
        forall|k: int|
            0 <= k < plans.len() ==> (#[trigger] plans[k]).plan.delete.len() <= usize::MAX,
    ensures
        total(plans.map_values(|pp: Planned| unexecuted(pp)), Count::Planned) == planned_total(
            plans,
        ),
    decreases plans.len(),
{
    let f = |pp: Planned| unexecuted(pp);
    if plans.len() > 0 {
        assert forall|k: int| 0 <= k < plans.drop_last().len() implies (
        #[trigger] plans.drop_last()[k]).plan.delete.len() <= usize::MAX by {
            assert(plans[k].plan.delete.len() <= usize::MAX);
        }
        lemma_planned_counted(plans.drop_last());
        assert(plans.map_values(f).drop_last() =~= plans.drop_last().map_values(f));
        assert(plans[plans.len() - 1].plan.delete.len() <= usize::MAX);
    }
}

/// Plans are carried out only in a run that is to execute them, where there is something to delete
/// and not more than is allowed. Where there is more, the run is aborted and exits with 2.
pub proof fn law_execution_stays_within_the_cap(
    plans: Seq<Planned>,
    rate_limited: bool,
    dry_run: bool,
    max_delete: Option<usize>,
)
    ensures
        decided(plans, rate_limited, dry_run, max_delete) is None <==> !dry_run && planned_total(
            plans,
        ) > 0 && (max_delete matches Some(max) ==> planned_total(plans) <= max),
        decided(plans, rate_limited, dry_run, max_delete) matches Some(s) ==> (s.aborted is Some
            <==> !dry_run && (max_delete matches Some(max) && planned_total(plans) > max)),
        decided(plans, rate_limited, dry_run, max_delete) matches Some(s) ==> (s.aborted is Some
            ==> s.code() == 2 && s.word() == "aborted"@),
{
}

/// An untagged version that a retained manifest refers to as a child is not deleted.
pub proof fn law_children_of_retained_survive(
    versions: Seq<Version>,
    policy: Policy,
    now: Timestamp,
    results: Seq<Fetched>,
    attesting: Set<Seq<char>>,
    index: int,
    child: Version,
)
    requires
        0 <= index < results.len(),
        refers_to(results[index], child.digest),
        class_of(child.tags) == Classification::Untagged,
    ensures
        !deleted(
            finalized(selected(versions, policy, now), children_of(results), attesting),
        ).contains(child),
{
    assert(children_of(results).contains(child.digest));
    law_referenced_is_never_deleted(
        versions,
        policy,
        now,
        children_of(results),
        attesting,
        child,
    );
}

/// An untagged version that attests something retained is not deleted where subjects are looked
/// at, and neither is one whose manifest could not be read.
pub proof fn law_attestations_and_unread_survive(
    versions: Seq<Version>,
    policy: Policy,
    now: Timestamp,
    protected: Set<Seq<char>>,
    results: Seq<Fetched>,
    index: int,
    candidate: Version,
)
    requires
        0 <= index < results.len(),
        results[index].0@ == candidate.digest,
        must_stay(results[index], selected(versions, policy, now).retained),
        class_of(candidate.tags) == Classification::Untagged,
    ensures
        ({
            let s = selected(versions, policy, now);
            !deleted(finalized(s, protected, attesting_of(results, s.retained))).contains(candidate)
        }),
{
    let s = selected(versions, policy, now);
    let attesting = attesting_of(results, s.retained);
    assert(attesting.contains(candidate.digest));
    law_referenced_is_never_deleted(versions, policy, now, protected, attesting, candidate);
}

/// Where every planned deletion of a package was attempted and none was skipped, failed or hit the
/// rate limit, as many versions were deleted as planned, and the report says what the plan said.
pub proof fn law_undisturbed_execution_deletes_all(pp: Planned, outcomes: Seq<Outcome>)
    requires
        outcomes.len() == pp.plan.delete.len(),
        outcomes.len() <= usize::MAX,
        forall|i: int| 0 <= i < outcomes.len() ==> (#[trigger] outcomes[i]) is Deleted,
    ensures
        outcome_report(pp, outcomes).deleted == outcome_report(pp, outcomes).planned_delete,
        outcome_report(pp, outcomes).status == pp.status,
        outcome_report(pp, outcomes).message == pp.message,
{
    let f = was_deleted();
    let g = was_skipped();
    assert forall|i: int| 0 <= i < outcomes.len() implies f(#[trigger] outcomes[i]) by {
        assert(outcomes[i] is Deleted);
    }
    assert forall|i: int| 0 <= i < outcomes.len() implies !g(#[trigger] outcomes[i]) by {
        assert(outcomes[i] is Deleted);
    }
    lemma_filter_all(outcomes, f);
    lemma_filter_none(outcomes, g);
    assert(!any_failed(outcomes)) by {
        if any_failed(outcomes) {
            let k = choose|k: int| 0 <= k < outcomes.len() && (#[trigger] outcomes[k]) is Failed;
            assert(outcomes[k] is Deleted);
        }
    }
    assert(!any_limited(outcomes)) by {
        if any_limited(outcomes) {
            let k = choose|k: int|
                0 <= k < outcomes.len() && (#[trigger] outcomes[k]) is RateLimited;
            assert(outcomes[k] is Deleted);
        }
    }
}

/// Whether a report that is clean tells of as many deletions as were planned.
pub open spec fn clean_as_planned(report: Report) -> bool {
    report.status == PackageStatus::Clean ==> report.deleted == report.planned_delete
}

/// A package whose planned deletions were all attempted is clean only where as many versions were
/// deleted as planned.
pub proof fn law_clean_package_deletes_as_planned(pp: Planned, outcomes: Seq<Outcome>)
    requires
        outcomes.len() == pp.plan.delete.len(),
        !is_idle(pp),
    ensures
        outcome_report(pp, outcomes).status == PackageStatus::Clean ==> outcome_report(
            pp,
            outcomes,
        ).deleted == outcome_report(pp, outcomes).planned_delete,
{
    let f = was_deleted();
    let g = was_skipped();
    if outcome_report(pp, outcomes).status == PackageStatus::Clean {
        assert forall|i: int| 0 <= i < outcomes.len() implies f(#[trigger] outcomes[i]) by {
            assert(!(outcomes[i] is Failed) && !(outcomes[i] is RateLimited));
            if g(outcomes[i]) {
                lemma_filtered(outcomes, g, outcomes[i]);
                assert(outcomes.contains(outcomes[i]));
                assert(outcomes.filter(g).contains(outcomes[i]));
            }
        }
        lemma_filter_all(outcomes, f);
    }
}

/// Every clean report of a run whose plans were carried out tells of as many deletions as were
/// planned.
pub proof fn law_clean_reports_delete_as_planned(
    plans: Seq<Planned>,
    rate_limited: bool,
    outcomes: Seq<Seq<Outcome>>,
)
    requires
        forall|k: int|
            0 <= k < plans.len() ==> (#[trigger] outcomes[k]).len() == plans[k].plan.delete.len(),
    ensures
        ({
            let reports = progressed(
                Progress { reports: Seq::empty(), stopped: rate_limited },
                plans,
                outcomes,
            ).reports;
            forall|k: int| 0 <= k < reports.len() ==> clean_as_planned(#[trigger] reports[k])
        }),
    decreases plans.len(),
{
    let start = Progress { reports: Seq::empty(), stopped: rate_limited };
    if plans.len() > 0 {
        assert forall|k: int| 0 <= k < plans.drop_last().len() implies (
        #[trigger] outcomes[k]).len() == plans.drop_last()[k].plan.delete.len() by {
            assert(outcomes[k].len() == plans[k].plan.delete.len());
        }
        law_clean_reports_delete_as_planned(plans.drop_last(), rate_limited, outcomes);
        let shorter = progressed(start, plans.drop_last(), outcomes);
        let longer = progressed(start, plans, outcomes);
        let pp = plans.last();
        let last = outcomes[plans.len() - 1];
        if goes_ahead(shorter, pp) {
            law_clean_package_deletes_as_planned(pp, last);
        }
        assert(clean_as_planned(longer.reports.last()));
        assert forall|k: int| 0 <= k < longer.reports.len() implies clean_as_planned(
            #[trigger] longer.reports[k],
        ) by {
            if k < longer.reports.len() - 1 {
                assert(longer.reports[k] == shorter.reports[k]);
            }
        }
    }
}

/// A run whose plans were carried out, and that exits with zero, has deleted as many versions as
/// it planned.
pub proof fn law_zero_exit_deletes_as_planned(
    plans: Seq<Planned>,
    rate_limited: bool,
    outcomes: Seq<Seq<Outcome>>,
)
    requires
        forall|k: int|
            0 <= k < plans.len() ==> (#[trigger] outcomes[k]).len() == plans[k].plan.delete.len(),
    ensures
        ({
            let after = progressed(
                Progress { reports: Seq::empty(), stopped: rate_limited },
                plans,
                outcomes,
            );
            let s = Outline {
                dry_run: false,
                rate_limited: after.stopped,
                aborted: None,
                packages: after.reports,
            };
            s.code() == 0 ==> s.deleted() == s.planned()
        }),
{
    let after = progressed(
        Progress { reports: Seq::empty(), stopped: rate_limited },
        plans,
        outcomes,
    );
    let s = Outline {
        dry_run: false,
        rate_limited: after.stopped,
        aborted: None,
        packages: after.reports,
    };
    if s.code() == 0 {
        law_clean_reports_delete_as_planned(plans, rate_limited, outcomes);
        law_zero_means_clean(s);
        assert forall|k: int| 0 <= k < s.packages.len() implies (#[trigger] s.packages[k]).deleted
            == s.packages[k].planned_delete by {
            assert(clean_as_planned(after.reports[k]));
        }
        lemma_same_totals(s.packages);
    }
}

proof fn lemma_same_totals(packages: Seq<Report>)
    requires
        forall|k: int|
            0 <= k < packages.len() ==> (#[trigger] packages[k]).deleted
                == packages[k].planned_delete,
    ensures
        total(packages, Count::Deleted) == total(packages, Count::Planned),
    decreases packages.len(),
{
    if packages.len() > 0 {
        assert forall|k: int| 0 <= k < packages.drop_last().len() implies (
        #[trigger] packages.drop_last()[k]).deleted == packages.drop_last()[k].planned_delete by {
            assert(packages[k].deleted == packages[k].planned_delete);
        }
        lemma_same_totals(packages.drop_last());
        assert(packages[packages.len() - 1].deleted == packages[packages.len() - 1].planned_delete);
    }
}

/// A package that could not be planned is reported as errored, also where the primary rate limit
/// has stopped the run.
pub proof fn law_errored_stays_errored(progress: Progress, pp: Planned, outcomes: Seq<Outcome>)
    requires
        pp.status == PackageStatus::Errored,
    ensures
        stepped(progress, pp, outcomes).reports.last().status == PackageStatus::Errored,
{
}

/// No more versions are deleted than were attempted.
pub proof fn law_no_more_deleted_than_attempted(pp: Planned, outcomes: Seq<Outcome>)
    requires
        outcomes.len() <= usize::MAX,
    ensures
        outcome_report(pp, outcomes).deleted <= outcomes.len(),
        outcome_report(pp, outcomes).deleted == outcome_report(pp, outcomes).deletes.len(),
{
    broadcast use vstd::seq_lib::group_filter_ensures;

    assert(outcomes.filter(was_deleted()).len() <= outcomes.len());
}

/// What the types of a run hold is what their mathematical counterparts hold, field by field and
/// item by item.
pub proof fn law_run_views(pp: PackagePlan, plans: Seq<PackagePlan>, execution: Execution)
    ensures
        pp@.package == pp.package@ && pp@.status == pp.status && pp@.plan == pp.plan@,
        pp@.message is Some <==> pp.message is Some,
        pp.message is Some ==> pp@.message == Some(pp.message->0@),
        plans_of(plans).len() == plans.len(),
        forall|i: int| 0 <= i < plans.len() ==> #[trigger] plans_of(plans)[i] == plans[i]@,
        execution@.stopped == execution.stopped,
        execution@.reports.len() == execution.reports@.len(),
        forall|i: int|
            0 <= i < execution.reports@.len() ==> #[trigger] execution@.reports[i]
                == execution.reports@[i]@,
{
}

/// A plan made in full is clean and says nothing; one that leaves something out is degraded and says
/// why; a package that could not be planned is errored, says why, and neither deletes nor keeps.
pub proof fn law_kinds_of_plans(package: Seq<char>, plan: Plan, message: Seq<char>)
    ensures
        ({
            let full = clean_plan(package, plan);
            let part = degraded_plan(package, plan, message);
            let none = errored_plan(package, message);
            &&& full.package == package && full.plan == plan && full.message is None && full.status
                == PackageStatus::Clean
            &&& part.package == package && part.plan == plan && part.message == Some(message)
                && part.status == PackageStatus::Degraded
            &&& none.package == package && none.message == Some(message) && none.status
                == PackageStatus::Errored && none.plan.delete.len() == 0 && none.plan.keep.len()
                == 0
        }),
{
}

/// What results of reading manifests tell: whether all were read, and whether the primary rate limit
/// kept one from being read. The limit that counts is the first.
pub proof fn law_results_of_reading(results: Seq<Fetched>, e: Error)
    ensures
        all_read(results) <==> forall|i: int|
            0 <= i < results.len() ==> (#[trigger] results[i]).1 is Ok,
        none_limited(results) <==> forall|i: int|
            0 <= i < results.len() ==> !((#[trigger] results[i]).1 is Err && results[i].1->Err_0
                is RateLimited),
        is_first_limit(results, e) <==> exists|i: int|
            {
                &&& 0 <= i < results.len()
                &&& (#[trigger] results[i]).1 is Err && results[i].1->Err_0 == e
                &&& e is RateLimited
                &&& forall|j: int|
                    0 <= j < i ==> !((#[trigger] results[j]).1 is Err && results[j].1->Err_0
                        is RateLimited)
            },
        all_read(results) ==> none_limited(results),
{
    assert forall|i: int| 0 <= i < results.len() implies (was_limited(#[trigger] results[i]) <==> (
    results[i].1 is Err && results[i].1->Err_0 is RateLimited)) by {}
    if is_first_limit(results, e) {
        let i = choose|i: int|
            {
                &&& 0 <= i < results.len()
                &&& was_limited(#[trigger] results[i])
                &&& results[i].1 == Err::<ManifestInfo, Error>(e)
                &&& forall|j: int| 0 <= j < i ==> !was_limited(#[trigger] results[j])
            };
        assert(results[i].1->Err_0 == e);
        assert forall|j: int| 0 <= j < i implies !((#[trigger] results[j]).1 is Err
            && results[j].1->Err_0 is RateLimited) by {
            assert(!was_limited(results[j]));
        }
    }
    if exists|i: int|
        {
            &&& 0 <= i < results.len()
            &&& (#[trigger] results[i]).1 is Err && results[i].1->Err_0 == e
            &&& e is RateLimited
            &&& forall|j: int|
                0 <= j < i ==> !((#[trigger] results[j]).1 is Err && results[j].1->Err_0
                    is RateLimited)
        } {
        let i = choose|i: int|
            {
                &&& 0 <= i < results.len()
                &&& (#[trigger] results[i]).1 is Err && results[i].1->Err_0 == e
                &&& e is RateLimited
                &&& forall|j: int|
                    0 <= j < i ==> !((#[trigger] results[j]).1 is Err && results[j].1->Err_0
                        is RateLimited)
            };
        assert(was_limited(results[i]));
        assert(results[i].1 == Err::<ManifestInfo, Error>(e));
        assert forall|j: int| 0 <= j < i implies !was_limited(#[trigger] results[j]) by {
            assert(!(results[j].1 is Err && results[j].1->Err_0 is RateLimited));
        }
    }
}

/// A digest is referred to exactly where it is one of the children of some manifest that was read.
pub proof fn law_children_by_name(results: Seq<Fetched>, digest: Seq<char>)
    ensures
        children_of(results).contains(digest) <==> exists|i: int, j: int|
            {
                &&& 0 <= i < results.len()
                &&& (#[trigger] results[i]).1 is Ok
                &&& 0 <= j < results[i].1->Ok_0.children@.len()
                &&& (#[trigger] results[i].1->Ok_0.children@[j])@ == digest
            },
{
    if children_of(results).contains(digest) {
        let i = choose|i: int| 0 <= i < results.len() && refers_to(#[trigger] results[i], digest);
        let names = texts(results[i].1->Ok_0.children@);
        let j = choose|j: int| 0 <= j < names.len() && names[j] == digest;
        assert(results[i].1->Ok_0.children@[j]@ == digest);
    }
    if exists|i: int, j: int|
        {
            &&& 0 <= i < results.len()
            &&& (#[trigger] results[i]).1 is Ok
            &&& 0 <= j < results[i].1->Ok_0.children@.len()
            &&& (#[trigger] results[i].1->Ok_0.children@[j])@ == digest
        } {
        let (i, j) = choose|i: int, j: int|
            {
                &&& 0 <= i < results.len()
                &&& (#[trigger] results[i]).1 is Ok
                &&& 0 <= j < results[i].1->Ok_0.children@.len()
                &&& (#[trigger] results[i].1->Ok_0.children@[j])@ == digest
            };
        assert(texts(results[i].1->Ok_0.children@)[j] == digest);
        assert(refers_to(results[i], digest));
    }
}

/// A candidate is kept for its subject exactly where its manifest could not be read, or names a
/// subject that is retained.
pub proof fn law_attesting_by_name(
    results: Seq<Fetched>,
    retained: Set<Seq<char>>,
    digest: Seq<char>,
)
    ensures
        attesting_of(results, retained).contains(digest) <==> exists|i: int|
            {
                &&& 0 <= i < results.len()
                &&& (#[trigger] results[i]).0@ == digest
                &&& results[i].1 is Err || (results[i].1->Ok_0.subject is Some && retained.contains(
                    results[i].1->Ok_0.subject->0@,
                ))
            },
{
}

/// The candidates whose subjects are looked at: those that no retained manifest refers to, all of
/// them, in their order.
pub proof fn law_candidates_to_scan(candidates: Seq<Version>, protected: Set<Seq<char>>, v: Version)
    ensures
        ({
            let none = Seq::<Version>::empty();
            &&& unreferenced(none, protected).len() == 0
            &&& protected.contains(v.digest) ==> unreferenced(candidates.push(v), protected)
                == unreferenced(candidates, protected)
            &&& !protected.contains(v.digest) ==> unreferenced(candidates.push(v), protected)
                == unreferenced(candidates, protected).push(v.digest)
        }),
{
    let digest = |x: Version| x.digest;
    let f = |d: Seq<char>| !protected.contains(d);
    let all = candidates.push(v).map_values(digest);
    let n = candidates.len() as int;
    assert(all.take(n) =~= candidates.map_values(digest));
    assert(all.take(n + 1) =~= all);
    lemma_filter_step(all, n, f);
    reveal(Seq::filter);
    assert(Seq::<Version>::empty().map_values(digest) =~= Seq::<Seq<char>>::empty());
}

/// What is said where no token could be had, and where too much would be deleted.
pub proof fn law_messages_of_planning(e: Error, total: nat, max: usize)
    ensures
        no_token(e) == "could not obtain registry token ("@ + e.text()
            + "); skipped untagged cleanup"@,
        too_many(total, max) == "plan would delete "@ + decimal(total)
            + " versions, exceeding max-delete "@ + decimal(max as nat)
            + "; nothing deleted — review, then re-run with a higher --max-delete"@,
{
}

/// The number of planned deletions adds up: each package more adds its own.
pub proof fn law_planned_total_adds_up(plans: Seq<Planned>, pp: Planned)
    ensures
        planned_total(Seq::empty()) == 0,
        planned_total(plans.push(pp)) == planned_total(plans) + pp.plan.delete.len(),
{
    assert(plans.push(pp).drop_last() =~= plans);
}

/// The summary of a run that ends once everything is planned: whether it was dry, whether it was cut
/// short, and for each package, in the order of the plans, what its plan says.
pub proof fn law_summary_after_planning(
    plans: Seq<Planned>,
    rate_limited: bool,
    dry_run: bool,
    max_delete: Option<usize>,
    k: int,
)
    ensures
        decided(plans, rate_limited, dry_run, max_delete) matches Some(s) ==> {
            &&& s.dry_run == dry_run && s.rate_limited == rate_limited
            &&& s.aborted is Some ==> s.aborted == Some(
                too_many(planned_total(plans), max_delete->0),
            )
            &&& s.packages.len() == plans.len()
        },
        0 <= k < plans.len() && plans[k].plan.delete.len() <= usize::MAX && plans[k].plan.keep.len()
            <= usize::MAX ==> (decided(plans, rate_limited, dry_run, max_delete) matches Some(s) ==> {
            let r = s.packages[k];
            let pp = plans[k];
            &&& r.package == pp.package && r.status == pp.status && r.message == pp.message
            &&& r.planned_delete == pp.plan.delete.len() && r.kept == pp.plan.keep.len()
            &&& r.deletes.len() == pp.plan.delete.len() && r.keeps.len() == pp.plan.keep.len()
            &&& forall|i: int|
                0 <= i < pp.plan.delete.len() ==> (#[trigger] r.deletes[i]).version
                    == pp.plan.delete[i].version && r.deletes[i].reason == delete_word(
                    pp.plan.delete[i].reason,
                ) && r.deletes[i].package == pp.package
            &&& forall|i: int|
                0 <= i < pp.plan.keep.len() ==> (#[trigger] r.keeps[i]).version
                    == pp.plan.keep[i].version && r.keeps[i].reason == keep_word(
                    pp.plan.keep[i].reason,
                )
        }),
{
}

/// What is said of a package after its deletions: what the plan said, then what was skipped, then
/// what failed, then the rate limit, with `; ` between them.
pub proof fn law_final_messages(
    planned: Option<Seq<char>>,
    more: Seq<char>,
    skipped: nat,
    failed: bool,
    hit_limit: bool,
)
    ensures
        planned is None ==> merged(planned, more) == Some(more),
        planned matches Some(m) ==> merged(planned, more) == Some(m + "; "@ + more),
        final_message(planned, 0, false, false) == planned,
        skipped > 0 ==> final_message(planned, skipped, false, false) == merged(
            planned,
            decimal(skipped) + " skipped (tags changed since planning)"@,
        ),
        final_message(planned, skipped, true, false) == merged(
            final_message(planned, skipped, false, false),
            "one or more deletions failed"@,
        ),
        final_message(planned, skipped, failed, true) == merged(
            final_message(planned, skipped, failed, false),
            "stopped by rate limit"@,
        ),
{
}

/// The report on a package whose deletions were attempted. Its status is that of the plan, unless
/// something did not go as planned; a package that could not be planned stays errored.
pub proof fn law_final_report(
    pp: Planned,
    records: Seq<Removal>,
    deleted: usize,
    skipped: nat,
    failed: bool,
    hit_limit: bool,
)
    requires
        pp.plan.delete.len() <= usize::MAX,
        pp.plan.keep.len() <= usize::MAX,
    ensures
        ({
            let r = final_report_of(pp, records, deleted, skipped, failed, hit_limit);
            let undisturbed = skipped == 0 && !failed && !hit_limit;
            &&& r.package == pp.package && r.deletes == records && r.deleted == deleted
            &&& r.kept == pp.plan.keep.len() && r.planned_delete == pp.plan.delete.len()
            &&& r.message == final_message(pp.message, skipped, failed, hit_limit)
            &&& pp.status == PackageStatus::Errored || undisturbed ==> r.status == pp.status
            &&& pp.status != PackageStatus::Errored && !undisturbed ==> r.status
                == PackageStatus::Degraded
            &&& r.keeps.len() == pp.plan.keep.len()
            &&& forall|i: int|
                0 <= i < pp.plan.keep.len() ==> (#[trigger] r.keeps[i]).version
                    == pp.plan.keep[i].version && r.keeps[i].reason == keep_word(
                    pp.plan.keep[i].reason,
                )
        }),
{
}

/// What one outcome more adds to the report on a package: a deletion its record, at the end; a skip
/// one to the number of skips; a failure and the rate limit that there was one.
pub proof fn law_outcomes_add_up(outcomes: Seq<Outcome>, o: Outcome)
    ensures
        ({
            let more = outcomes.push(o);
            let none = Seq::<Outcome>::empty();
            &&& records_in(none).len() == 0 && none.filter(was_skipped()).len() == 0
            &&& !any_failed(none) && !any_limited(none)
            &&& o matches Outcome::Deleted(rec) ==> records_in(more) == records_in(outcomes).push(
                rec@,
            )
            &&& !(o is Deleted) ==> records_in(more) == records_in(outcomes)
            &&& more.filter(was_skipped()).len() == outcomes.filter(was_skipped()).len() + if o
                is Skipped {
                1int
            } else {
                0
            }
            &&& any_failed(more) <==> any_failed(outcomes) || o is Failed
            &&& any_limited(more) <==> any_limited(outcomes) || o is RateLimited
        }),
{
    let more = outcomes.push(o);
    let n = outcomes.len() as int;
    let h = |x: Outcome| x->Deleted_0@;
    assert(more.take(n) =~= outcomes);
    assert(more.take(n + 1) =~= more);
    lemma_filter_step(more, n, was_deleted());
    lemma_filter_step(more, n, was_skipped());
    assert(outcomes.filter(was_deleted()).push(o).map_values(h) =~= outcomes.filter(
        was_deleted(),
    ).map_values(h).push(h(o)));
    assert(more[n] == o);
    assert forall|k: int| 0 <= k < n implies more[k] == #[trigger] outcomes[k] by {}
    if any_failed(outcomes) {
        let k = choose|k: int| 0 <= k < n && (#[trigger] outcomes[k]) is Failed;
        assert(more[k] is Failed);
    }
    if any_failed(more) && !(o is Failed) {
        let k = choose|k: int| 0 <= k < more.len() && (#[trigger] more[k]) is Failed;
        assert(outcomes[k] is Failed);
    }
    if any_limited(outcomes) {
        let k = choose|k: int| 0 <= k < n && (#[trigger] outcomes[k]) is RateLimited;
        assert(more[k] is RateLimited);
    }
    if any_limited(more) && !(o is RateLimited) {
        let k = choose|k: int| 0 <= k < more.len() && (#[trigger] more[k]) is RateLimited;
        assert(outcomes[k] is RateLimited);
    }
    reveal(Seq::filter);
    assert(records_in(Seq::empty()) =~= Seq::<Removal>::empty());
}

/// The report on a package is made of what came of its deletions: the records, how many they are,
/// how many were skipped, and whether any failed or hit the rate limit.
pub proof fn law_report_of_outcomes(pp: Planned, outcomes: Seq<Outcome>)
    ensures
        outcome_report(pp, outcomes) == final_report_of(
            pp,
            records_in(outcomes),
            records_in(outcomes).len() as usize,
            outcomes.filter(was_skipped()).len(),
            any_failed(outcomes),
            any_limited(outcomes),
        ),
{
}

/// A build is deleted only while it is one, and an orphan only while it has no tags. What is recorded
/// of a deletion is the planned version, its reason, and when it was carried out.
pub proof fn law_what_is_checked_and_recorded(package: Seq<char>, d: Deletion, at: Timestamp)
    ensures
        d.reason == DeleteReason::OldBuildImage ==> class_for(d.reason) == Classification::Build,
        d.reason == DeleteReason::OrphanedChild ==> class_for(d.reason) == Classification::Untagged,
        ({
            let r = executed_removal(package, d, at);
            &&& r.package == package && r.version == d.version && r.reason == delete_word(d.reason)
            &&& r.executed && r.deleted_at == Some(at)
        }),
{
}

/// The deletions of a package take place exactly where the run has not stopped, the package could be
/// planned, and there is something to delete. Whether they do or not, the package is reported once,
/// after those before it; the run stops where the rate limit is hit, and never goes on after that.
pub proof fn law_step_of_a_run(progress: Progress, pp: Planned, outcomes: Seq<Outcome>)
    ensures
        ({
            let ahead = !progress.stopped && pp.status != PackageStatus::Errored
                && pp.plan.delete.len() > 0;
            let after = attempted(progress, pp, outcomes);
            let over = passed_over(progress, pp);
            &&& goes_ahead(progress, pp) <==> ahead
            &&& after.reports == progress.reports.push(outcome_report(pp, outcomes))
            &&& after.stopped <==> progress.stopped || any_limited(outcomes)
            &&& over.stopped == progress.stopped
            &&& over.reports.len() == progress.reports.len() + 1
            &&& over.reports.drop_last() == progress.reports
            &&& pp.status == PackageStatus::Errored || pp.plan.delete.len() == 0
                ==> over.reports.last() == final_report_of(
                pp,
                Seq::empty(),
                0,
                0,
                false,
                progress.stopped,
            )
        }),
{
    assert(passed_over(progress, pp).reports.drop_last() =~= progress.reports);
}

/// A package that a stopped run does not reach is degraded. Its report lists its plan, none of it
/// executed, and says so after what the plan said.
pub proof fn law_package_not_reached(progress: Progress, pp: Planned)
    requires
        progress.stopped,
        pp.status != PackageStatus::Errored,
        pp.plan.delete.len() > 0,
    ensures
        ({
            let r = passed_over(progress, pp).reports.last();
            let plan = planned_report_of(pp.package, pp.status, pp.plan, pp.message);
            &&& r.status == PackageStatus::Degraded
            &&& r.message == merged(pp.message, "run stopped by rate limit before execution"@)
            &&& r.package == plan.package && r.kept == plan.kept && r.planned_delete
                == plan.planned_delete && r.deleted == 0 && r.deletes == plan.deletes && r.keeps
                == plan.keeps
        }),
{
}

/// A run goes through its packages one after the other.
pub proof fn law_run_goes_on(
    progress: Progress,
    plans: Seq<Planned>,
    outcomes: Seq<Seq<Outcome>>,
    pp: Planned,
)
    ensures
        progressed(progress, Seq::empty(), outcomes) == progress,
        ({
            let before = progressed(progress, plans, outcomes);
            let last = outcomes[plans.len() as int];
            progressed(progress, plans.push(pp), outcomes) == if goes_ahead(before, pp) {
                attempted(before, pp, last)
            } else {
                passed_over(before, pp)
            }
        }),
{
    assert(plans.push(pp).drop_last() =~= plans);
}

/// An outcome is a deletion with a record exactly where it is a deletion, and that is its record.
pub proof fn law_recorded_deletions(o: Outcome, record: Removal)
    ensures
        is_deletion(o, record) <==> o is Deleted && o->Deleted_0@ == record,
{
}

} // verus!
