//! Arguments and settings.

use container_image_pruner::cli::{parse_image, Args, OwnerTypeArg};
use container_image_pruner::config::OwnerType;
use container_image_pruner::error::Error;
use std::path::PathBuf;

#[test]
fn parses_valid_reference() {
    let (o, p) = parse_image("ghcr.io/unb-libraries/cogswell.lib.unb.ca").unwrap();
    assert_eq!(o, "unb-libraries");
    assert_eq!(p, "cogswell.lib.unb.ca");
}

#[test]
fn rejects_missing_host() {
    assert!(parse_image("unb-libraries/foo").is_err());
}

#[test]
fn rejects_extra_segments() {
    assert!(parse_image("ghcr.io/unb-libraries/group/foo").is_err());
}

#[test]
fn rejects_non_ghcr_host() {
    assert!(parse_image("docker.io/unb-libraries/foo").is_err());
}

#[test]
fn rejects_tag_or_digest() {
    assert!(parse_image("ghcr.io/unb-libraries/foo:dev").is_err());
    assert!(parse_image("ghcr.io/unb-libraries/foo@sha256:abc").is_err());
}

#[test]
fn preserves_case_and_dots() {
    // Parsing keeps the spelling; only the registry wants lower case.
    let (o, p) = parse_image("ghcr.io/UNB-Libraries/Foo.Bar").unwrap();
    assert_eq!(o, "UNB-Libraries");
    assert_eq!(p, "Foo.Bar");
}

fn image_complaint(image: &str) -> String {
    match parse_image(image) {
        Err(Error::Config(m)) => m,
        other => panic!("{other:?}"),
    }
}

#[test]
fn image_complaints_quote_the_reference_as_given() {
    assert_eq!(
        image_complaint(" ghcr.io/o/p:dev\n"),
        "--image \" ghcr.io/o/p:dev\\n\" must be a bare repository (no :tag or @digest)"
    );
    assert_eq!(
        image_complaint("ghcr.io/o"),
        "--image \"ghcr.io/o\" must be exactly ghcr.io/<owner>/<package>"
    );
    assert_eq!(
        image_complaint("quay.io/o/p"),
        "--image \"quay.io/o/p\" must be on ghcr.io (got host \"quay.io\")"
    );
}

#[test]
fn image_edges() {
    assert_eq!(
        parse_image("\t ghcr.io/o/p \u{3000}").unwrap(),
        ("o".to_string(), "p".to_string())
    );
    // Only the last segment is searched for a tag.
    assert_eq!(
        parse_image("ghcr.io/o:1/p").unwrap(),
        ("o:1".to_string(), "p".to_string())
    );
    assert!(parse_image("").is_err());
    assert!(parse_image("ghcr.io//p").is_err());
    assert!(parse_image("ghcr.io/o/").is_err());
    assert!(parse_image("/o/p").is_err());
    assert!(parse_image("GHCR.io/o/p").is_err());
    assert!(parse_image("ghcr.io/o@1/p").is_err());
}

fn args() -> Args {
    Args {
        image: None,
        owner: Some("o".to_string()),
        package: None,
        older_than_days: Some(60),
        keep_at_least: Some(5),
        token: Some("t".to_string()),
        execute: false,
        max_delete: None,
        owner_type: None,
        protect_subject_attestations: false,
        read_concurrency: None,
        delete_concurrency: None,
        audit_log: None,
        github_api_url: None,
        registry_url: None,
    }
}

#[test]
fn resolves_with_defaults() {
    let c = args().resolve().unwrap();
    assert_eq!(c.owner, "o");
    assert_eq!(c.package, None);
    assert_eq!(c.owner_type, None);
    assert_eq!(c.policy.older_than_days, 60);
    assert_eq!(c.policy.keep_at_least, 5);
    assert_eq!(c.token, "t");
    assert!(c.dry_run);
    assert_eq!(c.max_delete, None);
    assert_eq!(c.read_concurrency, 8);
    assert_eq!(c.delete_concurrency, 3);
    assert!(!c.protect_subject_attestations);
    assert_eq!(c.audit_log, None);
    assert_eq!(c.api_base, None);
    assert_eq!(c.registry_base, None);
}

#[test]
fn resolves_everything_given() {
    let c = Args {
        image: Some("ghcr.io/Own/Pkg".to_string()),
        owner: None,
        execute: true,
        max_delete: Some(500),
        owner_type: Some(OwnerTypeArg::Org),
        protect_subject_attestations: true,
        read_concurrency: Some(1),
        delete_concurrency: Some(2),
        audit_log: Some(PathBuf::from("audit.jsonl")),
        github_api_url: Some("http://api".to_string()),
        registry_url: Some("http://reg".to_string()),
        ..args()
    }
    .resolve()
    .unwrap();
    assert_eq!(c.owner, "Own");
    assert_eq!(c.package.as_deref(), Some("Pkg"));
    assert_eq!(c.owner_type, Some(OwnerType::Organization));
    assert!(!c.dry_run);
    assert_eq!(c.max_delete, Some(500));
    assert_eq!(c.read_concurrency, 1);
    assert_eq!(c.delete_concurrency, 2);
    assert!(c.protect_subject_attestations);
    assert_eq!(c.audit_log, Some(PathBuf::from("audit.jsonl")));
    assert_eq!(c.api_base.as_deref(), Some("http://api"));
    assert_eq!(c.registry_base.as_deref(), Some("http://reg"));
    let user = Args { owner_type: Some(OwnerTypeArg::User), package: Some("p".to_string()), ..args() };
    let c = user.resolve().unwrap();
    assert_eq!(c.owner_type, Some(OwnerType::User));
    assert_eq!(c.package.as_deref(), Some("p"));
}

fn complaint_about(a: Args) -> String {
    match a.resolve() {
        Err(Error::Config(m)) => m,
        other => panic!("{other:?}"),
    }
}

#[test]
fn refuses_incomplete_settings_in_order() {
    let nothing = Args {
        owner: None,
        older_than_days: None,
        keep_at_least: None,
        token: None,
        read_concurrency: Some(0),
        ..args()
    };
    assert_eq!(
        complaint_about(nothing),
        "a target is required: pass --image ghcr.io/<owner>/<package>, or the positional owner \
         [package]"
    );
    assert_eq!(
        complaint_about(Args { image: Some("x".to_string()), token: None, ..args() }),
        "--image \"x\" must be exactly ghcr.io/<owner>/<package>"
    );
    assert_eq!(
        complaint_about(Args { older_than_days: None, keep_at_least: None, ..args() }),
        "--older-than-days is required"
    );
    assert_eq!(
        complaint_about(Args { older_than_days: Some(-1), keep_at_least: None, ..args() }),
        "--older-than-days must be >= 0"
    );
    assert_eq!(
        complaint_about(Args { keep_at_least: None, token: None, ..args() }),
        "--keep-at-least is required"
    );
    assert_eq!(
        complaint_about(Args { token: None, read_concurrency: Some(0), ..args() }),
        "no GitHub token: set GITHUB_TOKEN (or pass --token)"
    );
    assert_eq!(
        complaint_about(Args { read_concurrency: Some(0), ..args() }),
        "concurrency values must be >= 1"
    );
    assert_eq!(
        complaint_about(Args { delete_concurrency: Some(0), ..args() }),
        "concurrency values must be >= 1"
    );
    assert!(Args { older_than_days: Some(0), keep_at_least: Some(0), ..args() }.resolve().is_ok());
}

#[test]
fn owner_types_have_their_segments() {
    assert_eq!(OwnerType::User.path_segment(), "users");
    assert_eq!(OwnerType::Organization.path_segment(), "orgs");
}
