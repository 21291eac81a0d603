//! The settings of a run, resolved from the arguments of the command line.

use crate::policy::Policy;
use std::path::PathBuf;
use vstd::prelude::*;

verus! {

/// A path of the file system, which the library only passes on.
#[verifier::external_type_specification]
#[verifier::external_body]
pub struct ExPathBuf(PathBuf);

/// Who owns the packages.
#[derive(Debug, Clone, Copy, PartialEq, Eq, Structural)]
pub enum OwnerType {
    User,
    Organization,
}

/// The segment of a REST path that stands for a kind of owner.
pub open spec fn segment_of(owner_type: OwnerType) -> Seq<char> {
    match owner_type {
        OwnerType::User => "users"@,
        OwnerType::Organization => "orgs"@,
    }
}

impl OwnerType {
    /// The segment of a REST path for this kind of owner: `users` or `orgs`.
    pub fn path_segment(self) -> (r: &'static str)
        ensures
            r@ == segment_of(self),
    {
        match self {
            OwnerType::User => "users",
            OwnerType::Organization => "orgs",
        }
    }
}

/// The settings of a run.
#[derive(Debug, Clone)]
pub struct Config {
    /// Owner of the packages (login of a user or an organization).
    pub owner: String,
    /// Name of a single package. `None` means every container package of the owner.
    pub package: Option<String>,
    /// Kind of the owner. `None` means that the API is asked.
    pub owner_type: Option<OwnerType>,
    pub policy: Policy,
    /// GitHub token with `read:packages` (and `delete:packages` to delete).
    pub token: String,
    /// Whether the plan is only reported and nothing is deleted.
    pub dry_run: bool,
    /// Abort a run whose plan would delete more versions than this.
    pub max_delete: Option<usize>,
    /// How many read requests run at a time.
    pub read_concurrency: usize,
    /// How many DELETE requests run at a time (few, because of GitHub's secondary rate limits).
    pub delete_concurrency: usize,
    /// Also protect attestations that are linked to retained images by their subject.
    pub protect_subject_attestations: bool,
    /// File to which a record of each deletion is appended.
    pub audit_log: Option<PathBuf>,
    /// Base of the REST API, in place of `https://api.github.com`.
    pub api_base: Option<String>,
    /// Base of the registry, in place of `https://ghcr.io`.
    pub registry_base: Option<String>,
}

/// The segments of a REST path for the two kinds of owners.
pub proof fn law_segments_of_owners()
    ensures
        segment_of(OwnerType::User) == "users"@,
        segment_of(OwnerType::Organization) == "orgs"@,
{
}

} // verus!
