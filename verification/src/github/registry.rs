//! Manifests of the OCI registry.
//!
//! Of a manifest only two things matter: which child manifests it refers to (the platforms of an
//! image index, and the attestations embedded in it), and whether it has a subject, as an
//! attestation that is linked to an image has.

use crate::github::client::Request;
use crate::github::models::{Descriptor, Manifest};
use crate::text::{ascii_lowercase, lowercase, lowercase_text, opt_text, texts};
use vstd::prelude::*;
use vstd::utf8::is_ascii_chars;

verus! {

/// The media types of manifests. All four are named, so that a registry can also answer with the
/// manifest of an image for a single platform.
pub const ACCEPT_MANIFESTS: &'static str =
    "application/vnd.oci.image.index.v1+json, application/vnd.docker.distribution.manifest.list.v2+json, application/vnd.oci.image.manifest.v1+json, application/vnd.docker.distribution.manifest.v2+json";

/// What a manifest tells about its relations.
#[derive(Debug, Clone, Default, PartialEq, Eq)]
pub struct ManifestInfo {
    /// Digests of child manifests; none where the manifest is no index.
    pub children: Vec<String>,
    /// The digest that the manifest attests, if it has a subject.
    pub subject: Option<String>,
}

/// The digests that descriptors name.
pub open spec fn digests_in(v: Seq<Descriptor>) -> Seq<Seq<char>> {
    v.map_values(|d: Descriptor| d.digest@)
}

/// The children and the subject of a manifest.
pub fn manifest_info(manifest: Manifest) -> (r: ManifestInfo)
    ensures
        texts(r.children@) == digests_in(manifest.manifests@),
        r.children@.len() == manifest.manifests@.len(),
        forall|i: int|
            0 <= i < manifest.manifests@.len() ==> (#[trigger] r.children@[i])@
                == manifest.manifests@[i].digest@,
        opt_text(r.subject) == match manifest.subject {
            Some(d) => Some(d.digest@),
            None => None,
        },
{
    let Manifest { manifests, subject } = manifest;
    let ghost all = manifests@;
    let mut children: Vec<String> = Vec::new();
    for d in it: manifests.into_iter()
        invariant
            it.seq() == all,
            texts(children@) == digests_in(all.take(it.index() as int)),
    {
        let ghost i = it.index() as int;
        let ghost before = texts(children@);
        let ghost digest = d.digest@;
        children.push(d.digest);
        proof {
            assert(all[i].digest@ == digest);
            assert(texts(children@) =~= before.push(digest));
            assert(digests_in(all.take(i + 1)) =~= before.push(digest));
        }
    }
    assert(all.take(all.len() as int) =~= all);
    let subject: Option<String> = match subject {
        Some(d) => Some(d.digest),
        None => None,
    };
    proof {
        assert(texts(children@).len() == children@.len());
        assert forall|i: int| 0 <= i < all.len() implies (#[trigger] children@[i])@
            == all[i].digest@ by {
            assert(texts(children@)[i] == children@[i]@);
        }
    }
    ManifestInfo { children, subject }
}

/// Where the manifest of a digest is, given owner and package in lower case, as the registry wants
/// them. Slashes in the name of a package separate segments of the path and are left as they are.
pub open spec fn manifest_url(
    registry_base: Seq<char>,
    lower_owner: Seq<char>,
    lower_package: Seq<char>,
    digest: Seq<char>,
) -> Seq<char> {
    registry_base + "/v2/"@ + lower_owner + "/"@ + lower_package + "/manifests/"@ + digest
}

/// The request for the manifest of a digest.
pub fn manifest_request(registry_base: &str, owner: &str, package: &str, digest: &str) -> (r:
    Request)
    ensures
        r.url@ == manifest_url(
            registry_base@,
            lowercase_text(owner@),
            lowercase_text(package@),
            digest@,
        ),
        is_ascii_chars(owner@) && is_ascii_chars(package@) ==> r.url@ == manifest_url(
            registry_base@,
            ascii_lowercase(owner@),
            ascii_lowercase(package@),
            digest@,
        ),
        r.context@ == "manifest "@ + digest@,
{
    let mut url: String = registry_base.to_owned();
    url.append("/v2/");
    url.append(lowercase(owner).as_str());
    url.append("/");
    url.append(lowercase(package).as_str());
    url.append("/manifests/");
    url.append(digest);
    let mut context: String = "manifest ".to_owned();
    context.append(digest);
    Request { url, context }
}

/// A manifest has a child for each of its descriptors, whatever their media types: the digest that
/// the descriptor names, at the same place.
pub proof fn law_a_child_for_each_descriptor(descriptors: Seq<Descriptor>)
    ensures
        digests_in(descriptors).len() == descriptors.len(),
        forall|i: int|
            0 <= i < descriptors.len() ==> #[trigger] digests_in(descriptors)[i]
                == descriptors[i].digest@,
{
}

/// Where a manifest is.
pub proof fn law_place_of_a_manifest(
    base: Seq<char>,
    owner: Seq<char>,
    package: Seq<char>,
    digest: Seq<char>,
)
    ensures
        manifest_url(base, owner, package, digest) == base + "/v2/"@ + owner + "/"@ + package
            + "/manifests/"@ + digest,
{
}

} // verus!
