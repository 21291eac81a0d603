//! What the GitHub Packages API and the OCI registry answer, as far as a run reads it.

use crate::text::texts;
use crate::time::Timestamp;
use vstd::prelude::*;

verus! {

/// A version of a container package.
#[derive(Debug, Clone)]
pub struct PackageVersion {
    pub id: u64,
    /// The name of the version, which for a container package is its digest.
    pub name: String,
    pub created_at: Timestamp,
    pub metadata: Option<Metadata>,
}

/// The metadata of a version.
#[derive(Debug, Clone)]
pub struct Metadata {
    pub container: Option<ContainerMetadata>,
}

/// The part of the metadata that only container packages have.
#[derive(Debug, Clone)]
pub struct ContainerMetadata {
    pub tags: Vec<String>,
}

/// A package, as the list of packages gives it.
#[derive(Debug, Clone)]
pub struct Package {
    pub name: String,
}

/// An owner, as far as its kind is concerned.
#[derive(Debug, Clone)]
pub struct OwnerInfo {
    /// `User` or `Organization`.
    pub kind: String,
}

/// A manifest of the registry. It is an index where it has children, and an attestation where
/// it has a subject.
#[derive(Debug, Clone, Default)]
pub struct Manifest {
    pub manifests: Vec<Descriptor>,
    pub subject: Option<Descriptor>,
}

/// A reference to a manifest.
#[derive(Debug, Clone)]
pub struct Descriptor {
    pub digest: String,
    pub media_type: Option<String>,
}

/// The answer of the token endpoint of the registry.
#[derive(Debug, Clone)]
pub struct TokenResponse {
    pub token: String,
}

/// The tags in the metadata of a version; none where there is no such metadata.
pub open spec fn tags_of(v: PackageVersion) -> Seq<Seq<char>> {
    match v.metadata {
        Some(m) => match m.container {
            Some(c) => texts(c.tags@),
            None => Seq::empty(),
        },
        None => Seq::empty(),
    }
}

impl PackageVersion {
    /// The tags of the version.
    pub fn tags(&self) -> (r: Vec<String>)
        ensures
            texts(r@) == tags_of(*self),
    {
        match &self.metadata {
            Some(m) => match &m.container {
                Some(c) => {
                    let r: Vec<String> = c.tags.clone();
                    assert(r@ =~= c.tags@);
                    r
                },
                None => {
                    let r: Vec<String> = Vec::new();
                    assert(texts(r@) =~= Seq::<Seq<char>>::empty());
                    r
                },
            },
            None => {
                let r: Vec<String> = Vec::new();
                assert(texts(r@) =~= Seq::<Seq<char>>::empty());
                r
            },
        }
    }
}

/// The tags of a version are those in the metadata of its container, all of them in their order;
/// without such metadata it has none.
pub proof fn law_tags_of_a_version(v: PackageVersion)
    ensures
        ({
            let listed = v.metadata is Some && v.metadata->0.container is Some;
            let tags = v.metadata->0.container->0.tags@;
            &&& !listed ==> tags_of(v).len() == 0
            &&& listed ==> tags_of(v).len() == tags.len() && forall|i: int|
                0 <= i < tags.len() ==> #[trigger] tags_of(v)[i] == tags[i]@
        }),
{
}

} // verus!
