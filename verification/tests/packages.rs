//! The packages API, the registry and its tokens.

use container_image_pruner::config::OwnerType;
use container_image_pruner::error::Error;
use container_image_pruner::github::auth::token_request;
use container_image_pruner::github::client::{base_or, API_BASE, REGISTRY_BASE};
use container_image_pruner::github::models::{
    ContainerMetadata, Descriptor, Manifest, Metadata, OwnerInfo, Package, PackageVersion,
};
use container_image_pruner::github::packages::{
    delete_result, encode_segment, next_page_url, owner_request, owner_type_of, package_names,
    packages_request, version_inputs, version_request, versions_request, Pages,
};
use container_image_pruner::github::registry::{
    manifest_info, manifest_request, ManifestInfo, ACCEPT_MANIFESTS,
};
use container_image_pruner::time::Timestamp;
use reqwest::header::HeaderMap;

fn link(h: &HeaderMap) -> Option<&str> {
    h.get(reqwest::header::LINK).and_then(|v| v.to_str().ok())
}

#[test]
fn parses_next_link() {
    let mut h = HeaderMap::new();
    h.insert(
        reqwest::header::LINK,
        "<https://api.github.com/x?page=2>; rel=\"next\", \
         <https://api.github.com/x?page=5>; rel=\"last\""
            .parse()
            .unwrap(),
    );
    assert_eq!(
        next_page_url(link(&h)).as_deref(),
        Some("https://api.github.com/x?page=2")
    );
}

#[test]
fn no_next_link() {
    let mut h = HeaderMap::new();
    h.insert(
        reqwest::header::LINK,
        "<https://api.github.com/x?page=1>; rel=\"prev\""
            .parse()
            .unwrap(),
    );
    assert_eq!(next_page_url(link(&h)), None);
    assert_eq!(next_page_url(link(&HeaderMap::new())), None);
}

#[test]
fn encodes_slashes_and_keeps_dots() {
    assert_eq!(encode_segment("loyalist.lib.unb.ca"), "loyalist.lib.unb.ca");
    assert_eq!(encode_segment("team/app"), "team%2Fapp");
}

#[test]
fn next_link_edges() {
    // The next page need not come first, and white space does not matter.
    assert_eq!(
        next_page_url(Some("<u1>; rel=\"prev\" ,  <u2> ;a=b;  rel=\"next\" ")).as_deref(),
        Some("u2")
    );
    assert_eq!(next_page_url(Some("<a>; rel=\"next\", <b>; rel=\"next\"")).as_deref(), Some("a"));
    assert_eq!(next_page_url(Some("u; rel=\"next\"")).as_deref(), Some("u"));
    assert_eq!(next_page_url(Some("<>; rel=\"next\"")).as_deref(), Some(""));
    assert_eq!(next_page_url(Some("<u>; rel=next")), None);
    assert_eq!(next_page_url(Some("rel=\"next\"")), None);
    assert_eq!(next_page_url(Some("")), None);
}

#[test]
fn pages_are_read_in_order() {
    let mut pages = Pages::new("u?page=1".to_string());
    assert_eq!(pages.next.as_deref(), Some("u?page=1"));
    pages.absorb(vec![1, 2], Some("<u?page=2>; rel=\"next\""));
    assert_eq!(pages.next.as_deref(), Some("u?page=2"));
    pages.absorb(vec![], Some("<u?page=3>; rel=\"next\", <u?page=1>; rel=\"prev\""));
    assert_eq!(pages.next.as_deref(), Some("u?page=3"));
    pages.absorb(vec![3], None);
    assert_eq!(pages.next, None);
    assert_eq!(pages.items, vec![1, 2, 3]);
}

fn decode(s: &str) -> Vec<u8> {
    let b = s.as_bytes();
    let mut out = Vec::new();
    let mut i = 0;
    while i < b.len() {
        if b[i] == b'%' {
            out.push(u8::from_str_radix(&s[i + 1..i + 3], 16).unwrap());
            i += 3;
        } else {
            out.push(b[i]);
            i += 1;
        }
    }
    out
}

#[test]
fn every_segment_decodes() {
    assert_eq!(encode_segment("~a-Z_0.9"), "~a-Z_0.9");
    assert_eq!(encode_segment(""), "");
    assert_eq!(encode_segment("%"), "%25");
    assert_eq!(encode_segment("é"), "%C3%A9");
    assert_eq!(encode_segment("\n"), "%0A");
    for n in 0..=0x10ffff_u32 {
        if let Some(c) = char::from_u32(n) {
            if n % 97 == 0 || n < 0x800 {
                let s = c.to_string();
                let e = encode_segment(&s);
                assert_eq!(decode(&e), s.as_bytes());
                assert!(e.bytes().all(|b| b == b'%' || b.is_ascii_alphanumeric() || b"-._~".contains(&b)));
            }
        }
    }
}

#[test]
fn places_of_the_api() {
    let r = owner_request("https://api", "unb-libraries");
    assert_eq!(r.url, "https://api/users/unb-libraries");
    assert_eq!(r.context, "owner info for unb-libraries");
    let r = packages_request("https://api", OwnerType::User, "o");
    assert_eq!(r.url, "https://api/users/o/packages?package_type=container&per_page=100");
    assert_eq!(r.context, "packages for o");
    let r = versions_request("https://api", OwnerType::Organization, "o", "team/app");
    assert_eq!(r.url, "https://api/orgs/o/packages/container/team%2Fapp/versions?per_page=100");
    assert_eq!(r.context, "versions for o/team/app");
    let r = version_request("https://api", OwnerType::Organization, "o", "pkg", 42);
    assert_eq!(r.url, "https://api/orgs/o/packages/container/pkg/versions/42");
    assert_eq!(r.context, "version 42 for o/pkg");
}

#[test]
fn different_versions_are_in_different_places() {
    let url = |p: &str, id: u64| version_request("b", OwnerType::User, "o", p, id).url;
    assert_ne!(url("p", 1), url("p", 11));
    assert_ne!(url("p/versions/1", 1), url("p", 1));
    assert_ne!(url("p%2F", 1), url("p/", 1));
}

#[test]
fn places_of_the_registry_are_in_lower_case() {
    let r = manifest_request("https://ghcr.io", "UNB", "Team/App", "sha256:Ab");
    assert_eq!(r.url, "https://ghcr.io/v2/unb/team/app/manifests/sha256:Ab");
    assert_eq!(r.context, "manifest sha256:Ab");
    let t = token_request("https://ghcr.io", "UNB", "Team/App");
    assert_eq!(
        t.url,
        "https://ghcr.io/token?service=ghcr.io&scope=repository:unb/team/app:pull"
    );
    assert_eq!(t.user, "unb");
    assert_eq!(t.context, "ghcr token for unb/team/app");
    assert_eq!(token_request("b", "É", "Σ").user, "é");
    assert_eq!(ACCEPT_MANIFESTS.split(", ").count(), 4);
}

#[test]
fn bases_can_be_replaced() {
    assert_eq!(base_or(&None, API_BASE), "https://api.github.com");
    assert_eq!(base_or(&None, REGISTRY_BASE), "https://ghcr.io");
    assert_eq!(base_or(&Some("http://x".to_string()), API_BASE), "http://x");
}

fn kind(k: &str) -> OwnerInfo {
    OwnerInfo { kind: k.to_string() }
}

#[test]
fn kinds_of_owners() {
    assert_eq!(
        owner_type_of(&kind("Organization"), "unb-libraries").unwrap(),
        OwnerType::Organization
    );
    assert_eq!(owner_type_of(&kind("User"), "o").unwrap(), OwnerType::User);
    match owner_type_of(&kind("B\"ot"), "o") {
        Err(Error::Config(m)) => assert_eq!(m, "unexpected owner type \"B\\\"ot\" for o"),
        other => panic!("{other:?}"),
    }
    assert!(owner_type_of(&kind("user"), "o").is_err());
}

fn version(id: u64, metadata: Option<Metadata>) -> PackageVersion {
    PackageVersion {
        id,
        name: format!("sha256:{id}"),
        created_at: Timestamp::new(id as i64, 7).unwrap(),
        metadata,
    }
}

fn tagged(tags: &[&str]) -> Option<Metadata> {
    let tags = tags.iter().map(|t| t.to_string()).collect();
    Some(Metadata { container: Some(ContainerMetadata { tags }) })
}

#[test]
fn versions_become_inputs() {
    let versions = vec![
        version(1, tagged(&["prod", "x"])),
        version(2, tagged(&[])),
        version(3, Some(Metadata { container: None })),
        version(4, None),
    ];
    assert_eq!(versions[0].tags(), vec!["prod".to_string(), "x".to_string()]);
    assert!(versions[2].tags().is_empty() && versions[3].tags().is_empty());
    let inputs = version_inputs(&versions);
    assert_eq!(inputs.len(), 4);
    assert_eq!(inputs[0].tags, vec!["prod".to_string(), "x".to_string()]);
    assert!(inputs[1].tags.is_empty() && inputs[2].tags.is_empty() && inputs[3].tags.is_empty());
    for (i, input) in inputs.iter().enumerate() {
        assert_eq!(input.id, i as u64 + 1);
        assert_eq!(input.digest, format!("sha256:{}", i + 1));
        assert_eq!(input.created_at, versions[i].created_at);
    }
}

#[test]
fn names_of_packages_keep_their_order() {
    let p = |n: &str| Package { name: n.to_string() };
    assert_eq!(package_names(vec![p("b"), p("a")]), vec!["b".to_string(), "a".to_string()]);
    assert!(package_names(vec![]).is_empty());
}

fn api(status: u16) -> Error {
    Error::Api { status, url: "u".to_string(), message: "m".to_string() }
}

#[test]
fn deleting_what_is_gone_succeeds() {
    assert!(delete_result(Ok(())).is_ok());
    assert!(delete_result(Err(api(404))).is_ok());
    assert_eq!(delete_result(Err(api(403))).unwrap_err().api_status(), Some(403));
    assert!(delete_result(Err(Error::Http("no".to_string()))).is_err());
}

fn descriptor(d: &str) -> Descriptor {
    Descriptor { digest: d.to_string(), media_type: None }
}

#[test]
fn relations_of_manifests() {
    let index = Manifest {
        manifests: vec![
            descriptor("sha256:amd64"),
            descriptor("sha256:arm64"),
            descriptor("sha256:attest"),
        ],
        subject: None,
    };
    let info = manifest_info(index);
    assert_eq!(
        info.children,
        vec![
            "sha256:amd64".to_string(),
            "sha256:arm64".to_string(),
            "sha256:attest".to_string()
        ]
    );
    assert_eq!(info.subject, None);
    let attestation = Manifest { manifests: vec![], subject: Some(descriptor("sha256:image")) };
    let info = manifest_info(attestation);
    assert!(info.children.is_empty());
    assert_eq!(info.subject.as_deref(), Some("sha256:image"));
    let plain = manifest_info(Manifest::default());
    assert_eq!(plain, ManifestInfo::default());
}
