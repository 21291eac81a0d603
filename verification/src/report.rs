//! What a run reports: a summary for machines and for people, and the workflow annotations.

use crate::domain::plan::{
    lemma_filter_step, DeleteReason, Deletion, KeepReason, Keeping, KeptVersion, Plan, PlannedDelete, PrunePlan,
    Version,
};
use crate::text::{decimal, decimal_string, join, joined, opt_text, texts};
use crate::time::Timestamp;
use vstd::prelude::*;

verus! {

/// How the processing of a package went.
#[derive(Debug, Clone, Copy, PartialEq, Eq, Structural)]
pub enum PackageStatus {
    /// Fully processed as planned.
    Clean,
    /// Processed, but not as planned: no untagged version was looked at, a deletion was skipped or
    /// failed, or the run was cut short by the rate limit.
    Degraded,
    /// Could not be processed; nothing was deleted for it.
    Errored,
}

/// A version that was, or is planned to be, deleted.
#[derive(Debug, Clone)]
pub struct DeleteRecord {
    pub package: String,
    pub version_id: u64,
    pub digest: String,
    pub tags: Vec<String>,
    pub created_at: Timestamp,
    pub reason: &'static str,
    /// Whether it was deleted.
    pub executed: bool,
    pub deleted_at: Option<Timestamp>,
}

/// A version that is kept, and why.
#[derive(Debug, Clone)]
pub struct KeepRecord {
    pub version_id: u64,
    pub digest: String,
    pub tags: Vec<String>,
    pub created_at: Timestamp,
    pub reason: &'static str,
}

/// What happened to a package.
#[derive(Debug, Clone)]
pub struct PackageReport {
    pub package: String,
    pub status: PackageStatus,
    pub kept: usize,
    /// Number of versions that the plan deletes.
    pub planned_delete: usize,
    /// Number of versions that were deleted: as many as planned where a plan was carried out and
    /// the package is clean, and none in a dry run.
    pub deleted: usize,
    pub message: Option<String>,
    pub deletes: Vec<DeleteRecord>,
    pub keeps: Vec<KeepRecord>,
}

/// What happened in a run.
#[derive(Debug, Clone)]
pub struct Summary {
    pub dry_run: bool,
    /// Whether a package was cut short by the primary rate limit.
    pub rate_limited: bool,
    /// Why the run was aborted before it deleted anything, if it was.
    pub aborted: Option<String>,
    pub packages: Vec<PackageReport>,
}

/// A record of a deletion, mathematically.
#[verifier::ext_equal]
pub struct Removal {
    pub package: Seq<char>,
    pub version: Version,
    pub reason: Seq<char>,
    pub executed: bool,
    pub deleted_at: Option<Timestamp>,
}

/// A record of a version that is kept, mathematically.
#[verifier::ext_equal]
pub struct Stay {
    pub version: Version,
    pub reason: Seq<char>,
}

/// The report on a package, mathematically.
#[verifier::ext_equal]
pub struct Report {
    pub package: Seq<char>,
    pub status: PackageStatus,
    pub kept: usize,
    pub planned_delete: usize,
    pub deleted: usize,
    pub message: Option<Seq<char>>,
    pub deletes: Seq<Removal>,
    pub keeps: Seq<Stay>,
}

/// The summary of a run, mathematically.
#[verifier::ext_equal]
pub struct Outline {
    pub dry_run: bool,
    pub rate_limited: bool,
    pub aborted: Option<Seq<char>>,
    pub packages: Seq<Report>,
}

impl View for DeleteRecord {
    type V = Removal;

    open spec fn view(&self) -> Removal {
        Removal {
            package: self.package@,
            version: Version {
                id: self.version_id,
                digest: self.digest@,
                tags: texts(self.tags@),
                created_at: self.created_at,
            },
            reason: self.reason@,
            executed: self.executed,
            deleted_at: self.deleted_at,
        }
    }
}

impl View for KeepRecord {
    type V = Stay;

    open spec fn view(&self) -> Stay {
        Stay {
            version: Version {
                id: self.version_id,
                digest: self.digest@,
                tags: texts(self.tags@),
                created_at: self.created_at,
            },
            reason: self.reason@,
        }
    }
}

/// The removals that a list of records describes.
pub open spec fn removals(v: Seq<DeleteRecord>) -> Seq<Removal> {
    v.map_values(|x: DeleteRecord| x@)
}

/// What a list of records of kept versions describes.
pub open spec fn stays(v: Seq<KeepRecord>) -> Seq<Stay> {
    v.map_values(|x: KeepRecord| x@)
}

/// What a list of reports describes.
pub open spec fn reports_of(v: Seq<PackageReport>) -> Seq<Report> {
    v.map_values(|x: PackageReport| x@)
}

impl View for PackageReport {
    type V = Report;

    open spec fn view(&self) -> Report {
        Report {
            package: self.package@,
            status: self.status,
            kept: self.kept,
            planned_delete: self.planned_delete,
            deleted: self.deleted,
            message: opt_text(self.message),
            deletes: removals(self.deletes@),
            keeps: stays(self.keeps@),
        }
    }
}

impl View for Summary {
    type V = Outline;

    open spec fn view(&self) -> Outline {
        Outline {
            dry_run: self.dry_run,
            rate_limited: self.rate_limited,
            aborted: opt_text(self.aborted),
            packages: reports_of(self.packages@),
        }
    }
}

/// The word for a reason to delete.
pub open spec fn delete_word(r: DeleteReason) -> Seq<char> {
    match r {
        DeleteReason::OldBuildImage => "old-build-image"@,
        DeleteReason::OrphanedChild => "orphaned-child"@,
    }
}

/// The word for a reason to keep.
pub open spec fn keep_word(r: KeepReason) -> Seq<char> {
    match r {
        KeepReason::TextTagged => "text-tagged"@,
        KeepReason::WithinKeepAtLeast => "within-keep-at-least"@,
        KeepReason::NotOldEnough => "not-old-enough"@,
        KeepReason::ReferencedByRetained => "referenced-by-retained"@,
        KeepReason::AttestsRetained => "attests-retained"@,
        KeepReason::UntaggedPassSkipped => "untagged-pass-skipped"@,
    }
}

/// The word for a reason to delete.
pub fn delete_reason_str(r: DeleteReason) -> (word: &'static str)
    ensures
        word@ == delete_word(r),
{
    match r {
        DeleteReason::OldBuildImage => "old-build-image",
        DeleteReason::OrphanedChild => "orphaned-child",
    }
}

/// The word for a reason to keep.
pub fn keep_reason_str(r: KeepReason) -> (word: &'static str)
    ensures
        word@ == keep_word(r),
{
    match r {
        KeepReason::TextTagged => "text-tagged",
        KeepReason::WithinKeepAtLeast => "within-keep-at-least",
        KeepReason::NotOldEnough => "not-old-enough",
        KeepReason::ReferencedByRetained => "referenced-by-retained",
        KeepReason::AttestsRetained => "attests-retained",
        KeepReason::UntaggedPassSkipped => "untagged-pass-skipped",
    }
}

/// The word for a status in the table of the step summary.
pub open spec fn table_word(s: PackageStatus) -> Seq<char> {
    match s {
        PackageStatus::Clean => "ok"@,
        PackageStatus::Degraded => "DEGRADED"@,
        PackageStatus::Errored => "ERROR"@,
    }
}

/// The word for a status in the table of the step summary.
pub fn status_word(s: PackageStatus) -> (word: &'static str)
    ensures
        word@ == table_word(s),
{
    match s {
        PackageStatus::Clean => "ok",
        PackageStatus::Degraded => "DEGRADED",
        PackageStatus::Errored => "ERROR",
    }
}

/// Whether any package has the given status.
pub open spec fn any_status(packages: Seq<Report>, status: PackageStatus) -> bool {
    exists|i: int| 0 <= i < packages.len() && (#[trigger] packages[i]).status == status
}

/// One of the numbers in a report.
#[derive(Clone, Copy)]
pub enum Count {
    Kept,
    Planned,
    Deleted,
}

/// A number of a report.
pub open spec fn number(p: Report, which: Count) -> nat {
    match which {
        Count::Kept => p.kept as nat,
        Count::Planned => p.planned_delete as nat,
        Count::Deleted => p.deleted as nat,
    }
}

/// The sum of a number over all packages.
pub open spec fn total(packages: Seq<Report>, which: Count) -> nat
    decreases packages.len(),
{
    if packages.len() == 0 {
        0
    } else {
        total(packages.drop_last(), which) + number(packages.last(), which)
    }
}

impl Outline {
    /// The worst status of any package: errored before degraded before clean.
    pub open spec fn worst(self) -> PackageStatus {
        if any_status(self.packages, PackageStatus::Errored) {
            PackageStatus::Errored
        } else if any_status(self.packages, PackageStatus::Degraded) {
            PackageStatus::Degraded
        } else {
            PackageStatus::Clean
        }
    }

    /// The exit code: zero for a clean run, two for one that is safe to run again.
    pub open spec fn code(self) -> i32 {
        if self.aborted is Some || self.rate_limited || self.worst() != PackageStatus::Clean {
            2
        } else {
            0
        }
    }

    /// The status of the run in one word.
    pub open spec fn word(self) -> Seq<char> {
        if self.aborted is Some {
            "aborted"@
        } else {
            match self.worst() {
                PackageStatus::Clean => if self.rate_limited {
                    "degraded"@
                } else {
                    "clean"@
                },
                PackageStatus::Degraded => "degraded"@,
                PackageStatus::Errored => "errored"@,
            }
        }
    }

    /// The number of planned deletions of all packages.
    pub open spec fn planned(self) -> nat {
        total(self.packages, Count::Planned)
    }

    /// The number of deletions of all packages.
    pub open spec fn deleted(self) -> nat {
        total(self.packages, Count::Deleted)
    }

    /// The number of kept versions of all packages.
    pub open spec fn kept(self) -> nat {
        total(self.packages, Count::Kept)
    }

    /// Whether the totals of a run are numbers that the machine can hold.
    pub open spec fn totals_fit(self) -> bool {
        self.planned() <= usize::MAX && self.deleted() <= usize::MAX && self.kept() <= usize::MAX
    }
}

/// A total does not fall when packages are added.
proof fn lemma_total_grows(packages: Seq<Report>, which: Count, k: int)
    requires
        0 <= k <= packages.len(),
    ensures
        total(packages.take(k), which) <= total(packages, which),
    decreases packages.len(),
{
    if k < packages.len() {
        lemma_total_grows(packages.drop_last(), which, k);
        assert(packages.drop_last().take(k) =~= packages.take(k));
    } else {
        assert(packages.take(k) =~= packages);
    }
}

/// The sum of a number over all packages, if the machine can hold it.
fn checked_total(packages: &Vec<PackageReport>, which: Count) -> (r: Option<usize>)
    ensures
        match r {
            Some(n) => n == total(reports_of(packages@), which),
            None => total(reports_of(packages@), which) > usize::MAX,
        },
{
    let ghost all = reports_of(packages@);
    let mut sum: usize = 0;
    for i in 0..packages.len()
        invariant
            all == reports_of(packages@),
            sum == total(all.take(i as int), which),
    {
        let p: &PackageReport = &packages[i];
        let n: usize = match which {
            Count::Kept => p.kept,
            Count::Planned => p.planned_delete,
            Count::Deleted => p.deleted,
        };
        proof {
            assert(all[i as int] == p@);
            assert(all.take(i as int + 1).drop_last() =~= all.take(i as int));
            lemma_total_grows(all, which, i as int + 1);
        }
        match sum.checked_add(n) {
            Some(more) => {
                sum = more;
            },
            None => {
                return None;
            },
        }
    }
    assert(all.take(all.len() as int) =~= all);
    Some(sum)
}

impl Summary {
    /// The worst status of any package.
    pub fn worst_status(&self) -> (r: PackageStatus)
        ensures
            r == self@.worst(),
    {
        let ghost all = self@.packages;
        let mut worst: PackageStatus = PackageStatus::Clean;
        for i in 0..self.packages.len()
            invariant
                all == self@.packages,
                worst == (Outline { packages: all.take(i as int), ..self@ }).worst(),
        {
            let status: PackageStatus = self.packages[i].status;
            let ghost shorter = all.take(i as int);
            let ghost longer = all.take(i as int + 1);
            proof {
                assert(all[i as int].status == status);
                assert(longer =~= shorter.push(all[i as int]));
                assert forall|s: PackageStatus|
                    #[trigger] any_status(longer, s) == (any_status(shorter, s) || status == s) by {
                    if any_status(shorter, s) {
                        let k = choose|k: int|
                            0 <= k < shorter.len() && (#[trigger] shorter[k]).status == s;
                        assert(longer[k].status == s);
                    }
                    if status == s {
                        assert(longer[i as int].status == s);
                    }
                    if any_status(longer, s) && status != s {
                        let k = choose|k: int|
                            0 <= k < longer.len() && (#[trigger] longer[k]).status == s;
                        assert(shorter[k].status == s);
                    }
                }
            }
            worst =
            match (worst, status) {
                (_, PackageStatus::Errored) => PackageStatus::Errored,
                (PackageStatus::Errored, _) => PackageStatus::Errored,
                (_, PackageStatus::Degraded) => PackageStatus::Degraded,
                (PackageStatus::Degraded, _) => PackageStatus::Degraded,
                _ => PackageStatus::Clean,
            };
        }
        assert(all.take(all.len() as int) =~= all);
        worst
    }

    /// The exit code of the process: 0 for a clean run; 2 where the run was aborted or cut short
    /// by the rate limit, or a package degraded or errored. All of these are safe to run again.
    pub fn exit_code(&self) -> (r: i32)
        ensures
            r == self@.code(),
    {
        if self.aborted.is_some() || self.rate_limited || self.worst_status()
            != PackageStatus::Clean {
            2
        } else {
            0
        }
    }

    /// The status of the run in one word.
    pub fn status_word(&self) -> (r: &'static str)
        ensures
            r@ == self@.word(),
    {
        if self.aborted.is_some() {
            "aborted"
        } else {
            match self.worst_status() {
                PackageStatus::Clean => if self.rate_limited {
                    "degraded"
                } else {
                    "clean"
                },
                PackageStatus::Degraded => "degraded",
                PackageStatus::Errored => "errored",
            }
        }
    }

    /// The number of planned deletions of all packages.
    pub fn total_planned_delete(&self) -> (r: usize)
        requires
            self@.planned() <= usize::MAX,
        ensures
            r == self@.planned(),
    {
        checked_total(&self.packages, Count::Planned).unwrap()
    }

    /// The number of deletions of all packages.
    pub fn total_deleted(&self) -> (r: usize)
        requires
            self@.deleted() <= usize::MAX,
        ensures
            r == self@.deleted(),
    {
        checked_total(&self.packages, Count::Deleted).unwrap()
    }

    /// The number of kept versions of all packages.
    pub fn total_kept(&self) -> (r: usize)
        requires
            self@.kept() <= usize::MAX,
        ensures
            r == self@.kept(),
    {
        checked_total(&self.packages, Count::Kept).unwrap()
    }

    /// Whether the totals of the run are numbers that the machine can hold.
    pub fn has_totals(&self) -> (r: bool)
        ensures
            r == self@.totals_fit(),
    {
        checked_total(&self.packages, Count::Planned).is_some() && checked_total(
            &self.packages,
            Count::Deleted,
        ).is_some() && checked_total(&self.packages, Count::Kept).is_some()
    }
}

/// The record of a deletion that has not been carried out.
pub open spec fn planned_removal(package: Seq<char>) -> spec_fn(Deletion) -> Removal {
    |d: Deletion|
        Removal {
            package,
            version: d.version,
            reason: delete_word(d.reason),
            executed: false,
            deleted_at: None,
        }
}

/// The record of a version that is kept.
pub open spec fn stay_of() -> spec_fn(Keeping) -> Stay {
    |k: Keeping| Stay { version: k.version, reason: keep_word(k.reason) }
}

/// The report on a plan of which nothing has been carried out.
pub open spec fn planned_report_of(
    package: Seq<char>,
    status: PackageStatus,
    plan: Plan,
    message: Option<Seq<char>>,
) -> Report {
    Report {
        package,
        status,
        kept: plan.keep.len() as usize,
        planned_delete: plan.delete.len() as usize,
        deleted: 0,
        message,
        deletes: plan.delete.map_values(planned_removal(package)),
        keeps: plan.keep.map_values(stay_of()),
    }
}

/// The record of a planned deletion.
pub(crate) fn delete_record(
    package: &str,
    d: &PlannedDelete,
    executed: bool,
    deleted_at: Option<Timestamp>,
) -> (r: DeleteRecord)
    ensures
        r@ == (Removal {
            package: package@,
            version: d@.version,
            reason: delete_word(d.reason),
            executed,
            deleted_at,
        }),
{
    let tags: Vec<String> = d.tags.clone();
    assert(tags@ =~= d.tags@);
    DeleteRecord {
        package: package.to_owned(),
        version_id: d.id,
        digest: d.digest.clone(),
        tags,
        created_at: d.created_at,
        reason: delete_reason_str(d.reason),
        executed,
        deleted_at,
    }
}

/// The report on a plan of which nothing has been carried out: its deletions are listed as not
/// executed. It serves a dry run, an aborted run, and a run that was cut short.
pub fn planned_report(
    package: &str,
    status: PackageStatus,
    plan: &PrunePlan,
    message: Option<String>,
) -> (r: PackageReport)
    ensures
        r@ == planned_report_of(package@, status, plan@, opt_text(message)),
        r.kept == plan.keep@.len(),
        r.planned_delete == plan.delete@.len(),
{
    let ghost all = plan@.delete;
    let ghost f = planned_removal(package@);
    let mut deletes: Vec<DeleteRecord> = Vec::new();
    assert(removals(deletes@) =~= all.take(0).map_values(f));
    for i in 0..plan.delete.len()
        invariant
            all == plan@.delete,
            f == planned_removal(package@),
            removals(deletes@) == all.take(i as int).map_values(f),
    {
        let ghost before = removals(deletes@);
        deletes.push(delete_record(package, &plan.delete[i], false, None));
        proof {
            assert(all[i as int] == plan.delete@[i as int]@);
            assert(removals(deletes@) =~= before.push(f(all[i as int])));
            assert(all.take(i as int + 1).map_values(f) =~= before.push(f(all[i as int])));
        }
    }
    assert(all.take(all.len() as int) =~= all);
    PackageReport {
        package: package.to_owned(),
        status,
        kept: plan.keep.len(),
        planned_delete: plan.delete.len(),
        deleted: 0,
        message,
        deletes,
        keeps: keep_records(plan),
    }
}

/// The records of the versions that a plan keeps.
pub fn keep_records(plan: &PrunePlan) -> (r: Vec<KeepRecord>)
    ensures
        stays(r@) == plan@.keep.map_values(stay_of()),
{
    let ghost all = plan@.keep;
    let ghost f = stay_of();
    let mut records: Vec<KeepRecord> = Vec::new();
    assert(stays(records@) =~= all.take(0).map_values(f));
    for i in 0..plan.keep.len()
        invariant
            all == plan@.keep,
            f == stay_of(),
            stays(records@) == all.take(i as int).map_values(f),
    {
        let k: &KeptVersion = &plan.keep[i];
        let ghost before = stays(records@);
        let tags: Vec<String> = k.tags.clone();
        assert(tags@ =~= k.tags@);
        records.push(
            KeepRecord {
                version_id: k.id,
                digest: k.digest.clone(),
                tags,
                created_at: k.created_at,
                reason: keep_reason_str(k.reason),
            },
        );
        proof {
            assert(all[i as int] == k@);
            assert(stays(records@) =~= before.push(f(all[i as int])));
            assert(all.take(i as int + 1).map_values(f) =~= before.push(f(all[i as int])));
        }
    }
    assert(all.take(all.len() as int) =~= all);
    records
}

/// The words for the mode of a run.
pub open spec fn mode_words(dry_run: bool) -> Seq<char> {
    if dry_run {
        "Dry run — nothing was deleted (plan only)"@
    } else {
        "Execute"@
    }
}

/// The lines of the step summary above its table.
pub open spec fn summary_head(s: Outline) -> Seq<char> {
    "### container-image-pruner\n\n"@ + "**Mode:** "@ + mode_words(s.dry_run) + "  \n"@ + (
    match s.aborted {
        Some(reason) => "**Aborted:** "@ + reason + "  \n"@,
        None => Seq::empty(),
    }) + (if s.rate_limited {
        "**Note:** cut short by the GitHub rate limit — safe to re-run (converges).  \n"@
    } else {
        Seq::empty()
    }) + "\n| Package | Status | Kept | Planned | "@ + (if s.dry_run {
        "Planned"@
    } else {
        "Deleted"@
    }) + " |\n|---|---|---:|---:|---:|\n"@
}

/// The row of a package in the table of the step summary.
pub open spec fn summary_row(p: Report) -> Seq<char> {
    "| "@ + p.package + " | "@ + table_word(p.status) + " | "@ + decimal(p.kept as nat) + " | "@
        + decimal(p.planned_delete as nat) + " | "@ + decimal(p.deleted as nat) + " |\n"@
}

/// The rows of packages, one after the other.
pub open spec fn summary_rows(packages: Seq<Report>) -> Seq<char>
    decreases packages.len(),
{
    if packages.len() == 0 {
        Seq::empty()
    } else {
        summary_rows(packages.drop_last()) + summary_row(packages.last())
    }
}

/// The line of totals below the table of the step summary.
pub open spec fn summary_totals(s: Outline) -> Seq<char> {
    "\n**Total:** kept "@ + decimal(s.kept()) + ", planned "@ + decimal(s.planned()) + ", deleted "@
        + decimal(s.deleted()) + " across "@ + decimal(s.packages.len()) + " package(s).\n"@
}

/// Whether a package has a message.
pub open spec fn has_message() -> spec_fn(Report) -> bool {
    |p: Report| p.message is Some
}

/// The note on a package with a message.
pub open spec fn note_of() -> spec_fn(Report) -> Seq<char> {
    |p: Report| "- **"@ + p.package + "**: "@ + p.message->0
}

/// The notes on the packages that have a message.
pub open spec fn notes_of(packages: Seq<Report>) -> Seq<Seq<char>> {
    packages.filter(has_message()).map_values(note_of())
}

/// The notes at the end of the step summary, if there are any.
pub open spec fn summary_notes(packages: Seq<Report>) -> Seq<char> {
    if notes_of(packages).len() == 0 {
        Seq::empty()
    } else {
        "\n**Notes:**\n"@ + join(notes_of(packages), "\n"@) + "\n"@
    }
}

/// The step summary of a run.
pub open spec fn step_summary(s: Outline) -> Seq<char> {
    summary_head(s) + summary_rows(s.packages) + summary_totals(s) + summary_notes(s.packages)
}

fn head_text(summary: &Summary) -> (r: String)
    ensures
        r@ == summary_head(summary@),
{
    let mut out: String = "### container-image-pruner\n\n".to_owned();
    out.append("**Mode:** ");
    if summary.dry_run {
        out.append("Dry run — nothing was deleted (plan only)");
    } else {
        out.append("Execute");
    }
    out.append("  \n");
    let mut aborted: String = String::new();
    if let Some(reason) = &summary.aborted {
        aborted.append("**Aborted:** ");
        aborted.append(reason.as_str());
        aborted.append("  \n");
        assert(aborted@ =~= "**Aborted:** "@ + reason@ + "  \n"@);
    }
    out.append(aborted.as_str());
    let mut limited: String = String::new();
    if summary.rate_limited {
        limited.append(
            "**Note:** cut short by the GitHub rate limit — safe to re-run (converges).  \n",
        );
    }
    assert(summary.rate_limited ==> limited@
        =~= "**Note:** cut short by the GitHub rate limit — safe to re-run (converges).  \n"@);
    out.append(limited.as_str());
    out.append("\n| Package | Status | Kept | Planned | ");
    if summary.dry_run {
        out.append("Planned");
    } else {
        out.append("Deleted");
    }
    out.append(" |\n|---|---|---:|---:|---:|\n");
    out
}

fn row_text(p: &PackageReport) -> (r: String)
    ensures
        r@ == summary_row(p@),
{
    let mut out: String = "| ".to_owned();
    out.append(p.package.as_str());
    out.append(" | ");
    out.append(status_word(p.status));
    out.append(" | ");
    out.append(decimal_string(p.kept as u64).as_str());
    out.append(" | ");
    out.append(decimal_string(p.planned_delete as u64).as_str());
    out.append(" | ");
    out.append(decimal_string(p.deleted as u64).as_str());
    out.append(" |\n");
    out
}

fn totals_text(summary: &Summary) -> (r: String)
    requires
        summary@.totals_fit(),
    ensures
        r@ == summary_totals(summary@),
{
    let mut out: String = "\n**Total:** kept ".to_owned();
    out.append(decimal_string(summary.total_kept() as u64).as_str());
    out.append(", planned ");
    out.append(decimal_string(summary.total_planned_delete() as u64).as_str());
    out.append(", deleted ");
    out.append(decimal_string(summary.total_deleted() as u64).as_str());
    out.append(" across ");
    out.append(decimal_string(summary.packages.len() as u64).as_str());
    out.append(" package(s).\n");
    out
}

fn note_texts(packages: &Vec<PackageReport>) -> (r: Vec<String>)
    ensures
        texts(r@) == notes_of(reports_of(packages@)),
{
    let ghost all = reports_of(packages@);
    let ghost f = has_message();
    let mut notes: Vec<String> = Vec::new();
    proof {
        reveal(Seq::filter);
        assert(texts(notes@) =~= all.take(0).filter(f).map_values(note_of()));
    }
    for i in 0..packages.len()
        invariant
            all == reports_of(packages@),
            f == has_message(),
            texts(notes@) == all.take(i as int).filter(f).map_values(note_of()),
    {
        let p: &PackageReport = &packages[i];
        let ghost before = texts(notes@);
        proof {
            assert(all[i as int] == p@);
            lemma_filter_step(all, i as int, f);
        }
        if let Some(m) = &p.message {
            let mut note: String = "- **".to_owned();
            note.append(p.package.as_str());
            note.append("**: ");
            note.append(m.as_str());
            notes.push(note);
            proof {
                assert(texts(notes@) =~= before.push(note_of()(p@)));
                assert(all.take(i as int).filter(f).push(p@).map_values(note_of()) =~= before.push(
                    note_of()(p@),
                ));
            }
        }
    }
    assert(all.take(all.len() as int) =~= all);
    notes
}

/// The step summary of a run in Markdown: one row for each package, totals and notes. It does
/// not list the versions, which the machine-readable summary does.
pub fn step_summary_markdown(summary: &Summary) -> (r: String)
    requires
        summary@.totals_fit(),
    ensures
        r@ == step_summary(summary@),
{
    let ghost all = summary@.packages;
    let mut rows: String = String::new();
    assert(rows@ =~= summary_rows(all.take(0)));
    for i in 0..summary.packages.len()
        invariant
            all == summary@.packages,
            rows@ == summary_rows(all.take(i as int)),
    {
        rows.append(row_text(&summary.packages[i]).as_str());
        assert(all[i as int] == summary.packages@[i as int]@);
        assert(all.take(i as int + 1).drop_last() =~= all.take(i as int));
    }
    assert(all.take(all.len() as int) =~= all);
    let notes: Vec<String> = note_texts(&summary.packages);
    let ghost noted = texts(notes@);
    let mut out: String = head_text(summary);
    out.append(rows.as_str());
    out.append(totals_text(summary).as_str());
    let mut tail: String = String::new();
    if notes.len() > 0 {
        tail.append("\n**Notes:**\n");
        tail.append(joined(&notes, "\n").as_str());
        tail.append("\n");
        assert(tail@ =~= "\n**Notes:**\n"@ + join(noted, "\n"@) + "\n"@);
    }
    assert(noted.len() == notes@.len());
    out.append(tail.as_str());
    out
}

/// The lines that a run hands to later steps of a workflow.
pub open spec fn output_lines(s: Outline) -> Seq<char> {
    "deleted="@ + decimal(s.deleted()) + "\nplanned-delete="@ + decimal(s.planned()) + "\nstatus="@
        + s.word() + "\n"@
}

/// The `key=value` lines that a run hands to later steps of a workflow.
pub fn github_outputs(summary: &Summary) -> (r: String)
    requires
        summary@.deleted() <= usize::MAX,
        summary@.planned() <= usize::MAX,
    ensures
        r@ == output_lines(summary@),
{
    let mut out: String = "deleted=".to_owned();
    out.append(decimal_string(summary.total_deleted() as u64).as_str());
    out.append("\nplanned-delete=");
    out.append(decimal_string(summary.total_planned_delete() as u64).as_str());
    out.append("\nstatus=");
    out.append(summary.status_word());
    out.append("\n");
    out
}

/// Whether a package should be noticed.
pub open spec fn is_remarkable() -> spec_fn(Report) -> bool {
    |p: Report| p.status != PackageStatus::Clean
}

/// The annotation of a package that degraded or errored.
pub open spec fn annotation_of() -> spec_fn(Report) -> Seq<char> {
    |p: Report|
        if p.status == PackageStatus::Errored {
            "::error title=prune failed for "@ + p.package + "::"@ + (match p.message {
                Some(m) => m,
                None => "errored"@,
            })
        } else {
            "::warning title=prune degraded for "@ + p.package + "::"@ + (match p.message {
                Some(m) => m,
                None => "degraded"@,
            })
        }
}

/// The annotation of an aborted run, if it was aborted.
pub open spec fn abort_annotation(aborted: Option<Seq<char>>) -> Seq<Seq<char>> {
    match aborted {
        Some(reason) => seq!["::warning title=container-image-pruner aborted::"@ + reason],
        None => Seq::empty(),
    }
}

/// The annotations of a run.
pub open spec fn annotations_of(s: Outline) -> Seq<Seq<char>> {
    abort_annotation(s.aborted) + s.packages.filter(is_remarkable()).map_values(annotation_of())
}

fn annotation_text(title: &str, package: &str, message: &Option<String>, plain: &str) -> (r: String)
    ensures
        r@ == title@ + package@ + "::"@ + (match opt_text(*message) {
            Some(m) => m,
            None => plain@,
        }),
{
    let mut out: String = title.to_owned();
    out.append(package);
    out.append("::");
    match message {
        Some(m) => {
            out.append(m.as_str());
        },
        None => {
            out.append(plain);
        },
    }
    out
}

/// The workflow annotations for what a person should notice: an abort, and each package that
/// degraded or errored.
pub fn annotations(summary: &Summary) -> (r: Vec<String>)
    ensures
        texts(r@) == annotations_of(summary@),
{
    let ghost all = summary@.packages;
    let ghost f = is_remarkable();
    let ghost g = annotation_of();
    let ghost first = abort_annotation(summary@.aborted);
    let mut lines: Vec<String> = Vec::new();
    if let Some(reason) = &summary.aborted {
        let mut line: String = "::warning title=container-image-pruner aborted::".to_owned();
        line.append(reason.as_str());
        lines.push(line);
    }
    proof {
        reveal(Seq::filter);
        assert(texts(lines@) =~= first + all.take(0).filter(f).map_values(g));
    }
    for i in 0..summary.packages.len()
        invariant
            all == summary@.packages,
            f == is_remarkable(),
            g == annotation_of(),
            texts(lines@) == first + all.take(i as int).filter(f).map_values(g),
    {
        let p: &PackageReport = &summary.packages[i];
        let ghost before = texts(lines@);
        proof {
            assert(all[i as int] == p@);
            lemma_filter_step(all, i as int, f);
        }
        match p.status {
            PackageStatus::Errored => {
                lines.push(
                    annotation_text(
                        "::error title=prune failed for ",
                        p.package.as_str(),
                        &p.message,
                        "errored",
                    ),
                );
            },
            PackageStatus::Degraded => {
                lines.push(
                    annotation_text(
                        "::warning title=prune degraded for ",
                        p.package.as_str(),
                        &p.message,
                        "degraded",
                    ),
                );
            },
            PackageStatus::Clean => {},
        }
        proof {
            if f(p@) {
                assert(texts(lines@) =~= before.push(g(p@)));
                assert(texts(lines@) =~= first + all.take(i as int).filter(f).push(p@).map_values(
                    g,
                ));
            }
        }
    }
    assert(all.take(all.len() as int) =~= all);
    lines
}

/// A run exits with zero exactly where its status is `clean`: it was neither aborted nor cut
/// short, and every package was fully processed.
pub proof fn law_zero_means_clean(s: Outline)
    ensures
        s.code() == 0 <==> s.word() == "clean"@,
        s.code() == 0 <==> s.aborted is None && !s.rate_limited && forall|i: int|
            0 <= i < s.packages.len() ==> (#[trigger] s.packages[i]).status == PackageStatus::Clean,
        s.code() == 0 || s.code() == 2,
{
    reveal_strlit("clean");
    reveal_strlit("degraded");
    reveal_strlit("errored");
    reveal_strlit("aborted");
    assert("clean"@.len() == 5 && "degraded"@.len() == 8 && "errored"@.len() == 7
        && "aborted"@.len() == 7);
    if s.worst() != PackageStatus::Clean {
        let bad = choose|i: int|
            0 <= i < s.packages.len() && (#[trigger] s.packages[i]).status != PackageStatus::Clean;
        assert(s.packages[bad].status != PackageStatus::Clean);
    } else {
        assert forall|i: int| 0 <= i < s.packages.len() implies (#[trigger] s.packages[i]).status
            == PackageStatus::Clean by {
            let status = s.packages[i].status;
            assert(any_status(s.packages, status));
        }
    }
}

/// What the types of a report hold is what their mathematical counterparts hold, field by field and
/// item by item.
pub proof fn law_report_views(
    gone: DeleteRecord,
    here: KeepRecord,
    report: PackageReport,
    summary: Summary,
)
    ensures
        gone@.package == gone.package@ && gone@.version.id == gone.version_id
            && gone@.version.digest == gone.digest@ && gone@.version.created_at == gone.created_at
            && gone@.reason == gone.reason@ && gone@.executed == gone.executed && gone@.deleted_at
            == gone.deleted_at && gone@.version.tags.len() == gone.tags@.len(),
        forall|i: int|
            0 <= i < gone.tags@.len() ==> #[trigger] gone@.version.tags[i] == gone.tags@[i]@,
        here@.version.id == here.version_id && here@.version.digest == here.digest@
            && here@.version.created_at == here.created_at && here@.reason == here.reason@
            && here@.version.tags.len() == here.tags@.len(),
        forall|i: int|
            0 <= i < here.tags@.len() ==> #[trigger] here@.version.tags[i] == here.tags@[i]@,
        report@.package == report.package@ && report@.status == report.status && report@.kept
            == report.kept && report@.planned_delete == report.planned_delete && report@.deleted
            == report.deleted,
        report@.message is Some <==> report.message is Some,
        report.message is Some ==> report@.message == Some(report.message->0@),
        report@.deletes.len() == report.deletes@.len(),
        forall|i: int|
            0 <= i < report.deletes@.len() ==> #[trigger] report@.deletes[i]
                == report.deletes@[i]@,
        report@.keeps.len() == report.keeps@.len(),
        forall|i: int|
            0 <= i < report.keeps@.len() ==> #[trigger] report@.keeps[i] == report.keeps@[i]@,
        summary@.dry_run == summary.dry_run && summary@.rate_limited == summary.rate_limited,
        summary@.aborted is Some <==> summary.aborted is Some,
        summary.aborted is Some ==> summary@.aborted == Some(summary.aborted->0@),
        summary@.packages.len() == summary.packages@.len(),
        forall|i: int|
            0 <= i < summary.packages@.len() ==> #[trigger] summary@.packages[i]
                == summary.packages@[i]@,
{
}

/// The status of a run in one word: an abort outweighs everything, then a package that errored, then
/// one that degraded, then the rate limit.
pub proof fn law_status_words(s: Outline)
    ensures
        ({
            let errored = exists|i: int|
                0 <= i < s.packages.len() && (#[trigger] s.packages[i]).status
                    == PackageStatus::Errored;
            let degraded = exists|i: int|
                0 <= i < s.packages.len() && (#[trigger] s.packages[i]).status
                    == PackageStatus::Degraded;
            &&& s.worst() == PackageStatus::Errored <==> errored
            &&& s.worst() == PackageStatus::Degraded <==> degraded && !errored
            &&& s.worst() == PackageStatus::Clean <==> !degraded && !errored
            &&& s.aborted is Some ==> s.word() == "aborted"@
            &&& s.aborted is None && errored ==> s.word() == "errored"@
            &&& s.aborted is None && !errored && (degraded || s.rate_limited) ==> s.word()
                == "degraded"@
            &&& s.aborted is None && !errored && !degraded && !s.rate_limited ==> s.word()
                == "clean"@
        }),
{
}

/// The totals of a run add up: each package more adds its own numbers.
pub proof fn law_totals_add_up(s: Outline, p: Report)
    ensures
        ({
            let none = Outline { packages: Seq::empty(), ..s };
            let more = Outline { packages: s.packages.push(p), ..s };
            &&& none.planned() == 0 && none.deleted() == 0 && none.kept() == 0
            &&& more.planned() == s.planned() + p.planned_delete
            &&& more.deleted() == s.deleted() + p.deleted
            &&& more.kept() == s.kept() + p.kept
        }),
{
    assert(s.packages.push(p).drop_last() =~= s.packages);
}

/// The words for reasons and statuses, each of its own.
pub proof fn law_words()
    ensures
        delete_word(DeleteReason::OldBuildImage) == "old-build-image"@,
        delete_word(DeleteReason::OrphanedChild) == "orphaned-child"@,
        keep_word(KeepReason::TextTagged) == "text-tagged"@,
        keep_word(KeepReason::WithinKeepAtLeast) == "within-keep-at-least"@,
        keep_word(KeepReason::NotOldEnough) == "not-old-enough"@,
        keep_word(KeepReason::ReferencedByRetained) == "referenced-by-retained"@,
        keep_word(KeepReason::AttestsRetained) == "attests-retained"@,
        keep_word(KeepReason::UntaggedPassSkipped) == "untagged-pass-skipped"@,
        table_word(PackageStatus::Clean) == "ok"@,
        table_word(PackageStatus::Degraded) == "DEGRADED"@,
        table_word(PackageStatus::Errored) == "ERROR"@,
{
}

/// The report on a plan of which nothing is carried out lists every deletion of the plan as not
/// executed and every version that it keeps, in their order, with the words for their reasons.
pub proof fn law_planned_report(
    package: Seq<char>,
    status: PackageStatus,
    plan: Plan,
    message: Option<Seq<char>>,
)
    ensures
        ({
            let r = planned_report_of(package, status, plan, message);
            &&& r.package == package && r.status == status && r.message == message && r.deleted == 0
            &&& plan.keep.len() <= usize::MAX ==> r.kept == plan.keep.len()
            &&& plan.delete.len() <= usize::MAX ==> r.planned_delete == plan.delete.len()
            &&& r.deletes.len() == plan.delete.len()
            &&& forall|i: int|
                0 <= i < plan.delete.len() ==> {
                    let d = #[trigger] r.deletes[i];
                    &&& d.package == package && d.version == plan.delete[i].version
                    &&& d.reason == delete_word(plan.delete[i].reason)
                    &&& !d.executed && d.deleted_at is None
                }
            &&& r.keeps.len() == plan.keep.len()
            &&& forall|i: int|
                0 <= i < plan.keep.len() ==> (#[trigger] r.keeps[i]).version
                    == plan.keep[i].version && r.keeps[i].reason == keep_word(plan.keep[i].reason)
        }),
{
}

/// The first lines of the step summary: the mode, why the run was aborted if it was, a note if it
/// was cut short, and the head of the table.
pub proof fn law_head_of_the_step_summary(s: Outline)
    ensures
        ({
            let mode = "### container-image-pruner\n\n"@ + "**Mode:** "@ + (if s.dry_run {
                "Dry run — nothing was deleted (plan only)"@
            } else {
                "Execute"@
            }) + "  \n"@;
            let aborted = match s.aborted {
                Some(reason) => "**Aborted:** "@ + reason + "  \n"@,
                None => Seq::empty(),
            };
            let limited = if s.rate_limited {
                "**Note:** cut short by the GitHub rate limit — safe to re-run (converges).  \n"@
            } else {
                Seq::empty()
            };
            let table = "\n| Package | Status | Kept | Planned | "@ + (if s.dry_run {
                "Planned"@
            } else {
                "Deleted"@
            }) + " |\n|---|---|---:|---:|---:|\n"@;
            summary_head(s) == mode + aborted + limited + table
        }),
{
    let mode = "### container-image-pruner\n\n"@ + "**Mode:** "@ + (if s.dry_run {
        "Dry run — nothing was deleted (plan only)"@
    } else {
        "Execute"@
    }) + "  \n"@;
    let aborted = match s.aborted {
        Some(reason) => "**Aborted:** "@ + reason + "  \n"@,
        None => Seq::empty(),
    };
    let limited = if s.rate_limited {
        "**Note:** cut short by the GitHub rate limit — safe to re-run (converges).  \n"@
    } else {
        Seq::empty()
    };
    let table = "\n| Package | Status | Kept | Planned | "@ + (if s.dry_run {
        "Planned"@
    } else {
        "Deleted"@
    }) + " |\n|---|---|---:|---:|---:|\n"@;
    assert(summary_head(s) =~= mode + aborted + limited + table);
}

/// How the step summary grows with a package more: a row of its own at the end of the table, and,
/// where it has a message, a note at the end of the notes.
pub proof fn law_step_summary_grows(packages: Seq<Report>, p: Report)
    ensures
        summary_rows(Seq::empty()) == Seq::<char>::empty(),
        summary_rows(packages.push(p)) == summary_rows(packages) + "| "@ + p.package + " | "@
            + table_word(p.status) + " | "@ + decimal(p.kept as nat) + " | "@ + decimal(
            p.planned_delete as nat,
        ) + " | "@ + decimal(p.deleted as nat) + " |\n"@,
        notes_of(Seq::empty()) == Seq::<Seq<char>>::empty(),
        p.message is None ==> notes_of(packages.push(p)) == notes_of(packages),
        p.message matches Some(m) ==> notes_of(packages.push(p)) == notes_of(packages).push(
            "- **"@ + p.package + "**: "@ + m,
        ),
{
    let f = has_message();
    let more = packages.push(p);
    assert(more.drop_last() =~= packages);
    assert(summary_rows(more) =~= summary_rows(packages) + "| "@ + p.package + " | "@ + table_word(
        p.status,
    ) + " | "@ + decimal(p.kept as nat) + " | "@ + decimal(p.planned_delete as nat) + " | "@
        + decimal(p.deleted as nat) + " |\n"@);
    assert(more.take(packages.len() as int) =~= packages);
    assert(more.take(more.len() as int) =~= more);
    lemma_filter_step(more, packages.len() as int, f);
    assert(packages.filter(f).push(p).map_values(note_of()) =~= packages.filter(f).map_values(
        note_of(),
    ).push(note_of()(p)));
    reveal(Seq::filter);
    assert(notes_of(Seq::empty()) =~= Seq::<Seq<char>>::empty());
}

/// The step summary is its head, the table, the totals and the notes; without any note it ends with
/// the totals.
pub proof fn law_step_summary_in_parts(s: Outline)
    ensures
        ({
            let totals = "\n**Total:** kept "@ + decimal(s.kept()) + ", planned "@ + decimal(
                s.planned(),
            ) + ", deleted "@ + decimal(s.deleted()) + " across "@ + decimal(s.packages.len())
                + " package(s).\n"@;
            let notes = notes_of(s.packages);
            let upper = summary_head(s) + summary_rows(s.packages) + totals;
            &&& notes.len() == 0 ==> step_summary(s) == upper
            &&& notes.len() > 0 ==> step_summary(s) == upper + "\n**Notes:**\n"@ + join(
                notes,
                "\n"@,
            ) + "\n"@
        }),
{
    let totals = "\n**Total:** kept "@ + decimal(s.kept()) + ", planned "@ + decimal(s.planned())
        + ", deleted "@ + decimal(s.deleted()) + " across "@ + decimal(s.packages.len())
        + " package(s).\n"@;
    let notes = notes_of(s.packages);
    let upper = summary_head(s) + summary_rows(s.packages) + totals;
    if notes.len() == 0 {
        assert(step_summary(s) =~= upper);
    } else {
        assert(step_summary(s) =~= upper + "\n**Notes:**\n"@ + join(notes, "\n"@) + "\n"@);
    }
}

/// The outputs name the two totals and the status, each on a line of its own.
pub proof fn law_outputs(s: Outline)
    ensures
        output_lines(s) == "deleted="@ + decimal(s.deleted()) + "\nplanned-delete="@ + decimal(
            s.planned(),
        ) + "\nstatus="@ + s.word() + "\n"@,
{
}

/// A package more is annotated exactly where it is not clean, at the end, with its message or, for
/// want of one, its status. An abort is annotated before all packages.
pub proof fn law_annotations_grow(s: Outline, p: Report)
    ensures
        ({
            let none = Outline { packages: Seq::empty(), ..s };
            let more = Outline { packages: s.packages.push(p), ..s };
            &&& s.aborted is None ==> annotations_of(none).len() == 0
            &&& s.aborted matches Some(reason) ==> annotations_of(none)
                == seq!["::warning title=container-image-pruner aborted::"@ + reason]
            &&& p.status == PackageStatus::Clean ==> annotations_of(more) == annotations_of(s)
            &&& p.status == PackageStatus::Degraded ==> annotations_of(more) == annotations_of(
                s,
            ).push(
                "::warning title=prune degraded for "@ + p.package + "::"@ + (match p.message {
                    Some(m) => m,
                    None => "degraded"@,
                }),
            )
            &&& p.status == PackageStatus::Errored ==> annotations_of(more) == annotations_of(
                s,
            ).push(
                "::error title=prune failed for "@ + p.package + "::"@ + (match p.message {
                    Some(m) => m,
                    None => "errored"@,
                }),
            )
        }),
{
    let f = is_remarkable();
    let g = annotation_of();
    let none = Outline { packages: Seq::empty(), ..s };
    let all = s.packages.push(p);
    let more = Outline { packages: all, ..s };
    let n = s.packages.len() as int;
    assert(all.take(n) =~= s.packages);
    assert(all.take(n + 1) =~= all);
    lemma_filter_step(all, n, f);
    assert(annotations_of(none) =~= abort_annotation(s.aborted)) by {
        reveal(Seq::filter);
    }
    if p.status != PackageStatus::Clean {
        assert(annotations_of(more) =~= annotations_of(s).push(g(p)));
    }
}

/// The totals can be told where each of the three is a number that the machine can hold.
pub proof fn law_totals_that_fit(s: Outline)
    ensures
        s.totals_fit() <==> s.planned() <= usize::MAX && s.deleted() <= usize::MAX && s.kept()
            <= usize::MAX,
{
}

} // verus!
