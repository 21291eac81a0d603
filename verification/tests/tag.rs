//! Classification of tags.

use container_image_pruner::domain::tag::{classify, is_build_tag, Classification};

fn s(v: &[&str]) -> Vec<String> {
    v.iter().map(|x| x.to_string()).collect()
}

#[test]
fn real_dockworker_tags_are_build_tags() {
    for t in [
        "afef854e-20260704210783",
        "afef854e-20260704210775",
        "afef854e-20260702140751",
        "fcb877e8-20260629110615",
    ] {
        assert!(is_build_tag(t), "{t} should classify as a build tag");
    }
}

#[test]
fn short_and_long_shas() {
    assert!(is_build_tag("a1b2c3d-20250115143022")); // 7-char sha
    assert!(is_build_tag(&format!("{}-20250115143022", "a".repeat(40)))); // full sha
}

#[test]
fn text_tags_are_not_build_tags() {
    for t in ["prod", "dev", "feature-ee-33", "main", "v1.2.3", "latest"] {
        assert!(!is_build_tag(t), "{t} must not be a build tag");
    }
}

#[test]
fn near_misses_are_rejected() {
    assert!(!is_build_tag("afef854e-19990704210783")); // year not 20xx
    assert!(!is_build_tag("afef854e-20261304210783")); // month 13
    assert!(!is_build_tag("afef854e-20260732210783")); // day 32
    assert!(!is_build_tag("afef854e-20260704250783")); // hour 25
    assert!(!is_build_tag("afef854e-2026070421078")); // 13 digits
    assert!(!is_build_tag("afef854e-202607042107835")); // 15 digits
    assert!(!is_build_tag("abc-20260704210783")); // sha too short (<7)
    assert!(!is_build_tag("ZZZZZZZZ-20260704210783")); // non-hex
    assert!(!is_build_tag("sha256-abc.sig")); // cosign-style
}

#[test]
fn classification() {
    assert_eq!(classify(&[]), Classification::Untagged);
    assert_eq!(
        classify(&s(&["afef854e-20260704210783"])),
        Classification::Build
    );
    assert_eq!(classify(&s(&["prod"])), Classification::Protected);
    // A version tagged both build and prod is protected (does not count toward keep).
    assert_eq!(
        classify(&s(&["afef854e-20260704210783", "prod"])),
        Classification::Protected
    );
}

#[test]
fn ranges_of_month_day_and_hour() {
    for (t, expected) in [
        ("afef854e-20260101000000", true),
        ("afef854e-20261231239999", true),
        ("afef854e-20260001000000", false),
        ("afef854e-20260100000000", false),
        ("afef854e-20260101240000", false),
        ("afef854e-20990229000000", true),
        ("afef854e-20000101000000", true),
    ] {
        assert_eq!(is_build_tag(t), expected, "{t}");
    }
}

#[test]
fn length_of_the_hash() {
    assert!(!is_build_tag(&format!("{}-20250115143022", "a".repeat(6))));
    assert!(!is_build_tag(&format!("{}-20250115143022", "a".repeat(41))));
    assert!(!is_build_tag("20250115143022"));
    assert!(!is_build_tag(""));
    assert!(!is_build_tag("AFEF854E-20260704210783"));
    assert!(!is_build_tag("afef854e-20260704210783\n"));
    assert!(!is_build_tag(" afef854e-20260704210783"));
    assert!(!is_build_tag("afef854e_20260704210783"));
}

#[test]
fn digits_of_other_scripts() {
    // `\d` takes the decimal digits of every script; only month, day and hour are read.
    assert!(is_build_tag("afef854e-20260704210٣٤٥"));
    assert!(is_build_tag("afef854e-20٢٦0704210783"));
    assert!(!is_build_tag("afef854e-2026٠704210783"));
    assert!(!is_build_tag("afef854e-202607042107²³"));
    assert!(!is_build_tag("afef854é-20260704210783"));
}

#[test]
fn last_four_digits_are_free() {
    for tail in ["0000", "9999", "1383", "0783"] {
        assert!(is_build_tag(&format!("afef854e-2026070421{tail}")));
    }
    assert!(!is_build_tag("afef854e-2026070421078x"));
}

#[test]
fn order_and_repetition_of_tags_do_not_matter() {
    let b = "afef854e-20260704210783";
    assert_eq!(classify(&s(&["prod", b])), Classification::Protected);
    assert_eq!(classify(&s(&[b, "prod", b])), Classification::Protected);
    assert_eq!(classify(&s(&[b, b])), Classification::Build);
    assert_eq!(classify(&s(&[""])), Classification::Protected);
}
