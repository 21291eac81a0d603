//! Failures of requests, and errors.

use container_image_pruner::error::Error;
use container_image_pruner::github::client::{
    backoff, can_classify, can_truncate, classify_body, classify_head, header_u64, is_secondary,
    is_success, judge_body, truncate, FailureHead, Retry, Sending, MAX_RETRIES,
};
use container_image_pruner::time::Timestamp;

fn at(secs: i64) -> Timestamp {
    Timestamp::new(secs, 0).unwrap()
}

fn head(status: u16) -> FailureHead {
    FailureHead { status, retry_after: None, remaining: None, reset: None }
}

fn wait_of(r: Option<Retry>) -> u64 {
    match r {
        Some(Retry::After(ms)) => ms,
        other => panic!("{other:?}"),
    }
}

fn reset_of(r: Option<Retry>) -> Timestamp {
    match r {
        Some(Retry::Return(Error::RateLimited { reset_at })) => reset_at,
        other => panic!("{other:?}"),
    }
}

#[test]
fn statuses_of_success() {
    for status in 100..700_u16 {
        assert_eq!(
            is_success(status),
            reqwest::StatusCode::from_u16(status).unwrap().is_success()
        );
    }
}

#[test]
fn primary_limit_gives_up_at_once() {
    let limited = FailureHead { remaining: Some(0), reset: Some(4_102_444_800), ..head(403) };
    assert_eq!(reset_of(classify_head(&limited, 0, None, at(5))), at(4_102_444_800));
    let unnamed = FailureHead { reset: None, status: 429, ..limited };
    assert_eq!(reset_of(classify_head(&unnamed, 0, None, at(5))), at(5));
    // A number beyond every instant counts as none; one beyond `i64` wraps around.
    let far = FailureHead { reset: Some(9_000_000_000_000), ..limited };
    assert_eq!(reset_of(classify_head(&far, 0, None, at(5))), at(5));
    let wrapped = FailureHead { reset: Some(u64::MAX), ..limited };
    assert_eq!(reset_of(classify_head(&wrapped, 0, None, at(5))), at(-1));
    // The primary limit outweighs `retry-after`, but needs a status that fits.
    let both = FailureHead { retry_after: Some(1), ..limited };
    assert_eq!(reset_of(classify_head(&both, 0, None, at(5))), at(4_102_444_800));
    let other = FailureHead { status: 404, ..limited };
    assert!(classify_head(&other, 0, None, at(5)).is_none());
    let left = FailureHead { remaining: Some(1), ..limited };
    assert!(classify_head(&left, 0, None, at(5)).is_none());
}

#[test]
fn retry_after_is_honoured_up_to_a_limit() {
    for (secs, ms) in [(0, 0), (7, 7_000), (29, 29_000), (30, 30_000), (u64::MAX, 30_000)] {
        let h = FailureHead { retry_after: Some(secs), ..head(429) };
        assert_eq!(wait_of(classify_head(&h, 3, Some(1), at(0))), ms);
    }
    // Only a status of a rate limit makes it count.
    let h = FailureHead { retry_after: Some(7), ..head(503) };
    assert_eq!(wait_of(classify_head(&h, 0, None, at(0))), 500);
    let h = FailureHead { retry_after: Some(7), ..head(404) };
    assert!(classify_head(&h, 0, None, at(0)).is_none());
}

#[test]
fn server_errors_wait() {
    for status in [500, 502, 599] {
        assert_eq!(wait_of(classify_head(&head(status), 2, None, at(0))), 2_000);
    }
    for status in [400, 401, 403, 404, 429, 499, 600, 302] {
        assert!(classify_head(&head(status), 2, None, at(0)).is_none());
    }
}

#[test]
fn bodies_decide_the_rest() {
    let text = "You have exceeded a Secondary Rate LIMIT. Wait.";
    assert!(is_secondary(text) && !is_secondary("secondary  rate limit"));
    for status in [403, 429] {
        match classify_body(status, "u".to_string(), text, 1, Some(0)) {
            Retry::After(ms) => assert_eq!(ms, 1_000),
            other => panic!("{other:?}"),
        }
    }
    match classify_body(404, "u".to_string(), &format!(" {text}\n"), 1, None) {
        Retry::Return(Error::Api { status, url, message }) => {
            assert_eq!((status, url.as_str(), message.as_str()), (404, "u", text));
        }
        other => panic!("{other:?}"),
    }
    match classify_body(403, "u".to_string(), "no scope", 1, None) {
        Retry::Return(Error::Api { status, message, .. }) => {
            assert_eq!((status, message.as_str()), (403, "no scope"));
        }
        other => panic!("{other:?}"),
    }
}

#[test]
fn long_messages_are_cut() {
    let exact = "a".repeat(300);
    assert_eq!(truncate(&format!("  {exact}  ")), exact);
    assert_eq!(truncate(&format!("{exact}b")), format!("{exact}…"));
    let two = "é".repeat(151);
    assert!(can_truncate(&two));
    assert_eq!(truncate(&two), format!("{}…", "é".repeat(150)));
    assert!(!can_truncate(&format!("a{two}")));
    assert!(can_truncate(&format!("a{}", "é".repeat(149))));
    assert_eq!(truncate(""), "");
}

#[test]
fn tries_are_bounded() {
    let mut sending = Sending::new();
    for attempt in 0..MAX_RETRIES {
        assert_eq!(sending.attempt(), attempt);
        assert!(matches!(sending.after_failure(Retry::After(5), 500), Retry::After(5)));
    }
    assert_eq!(sending.attempt(), MAX_RETRIES);
    match sending.after_failure(Retry::After(5), 503) {
        Retry::Return(Error::Api { status, url, message }) => {
            assert_eq!((status, url.as_str(), message.as_str()), (503, "", "exhausted retries"));
        }
        other => panic!("{other:?}"),
    }
    let mut sending = Sending::new();
    let given_up = sending.after_failure(Retry::Return(Error::Auth("a".to_string())), 503);
    assert!(matches!(given_up, Retry::Return(Error::Auth(_))));
    assert_eq!(sending.attempt(), 0);
}

#[test]
fn passing_transport_failures_are_retried() {
    let mut sending = Sending::new();
    let fixed = sending.after_transport_failure(false, "x".to_string(), None);
    assert!(matches!(fixed, Retry::Return(Error::Http(_))));
    let mut waits = Vec::new();
    let last = loop {
        match sending.after_transport_failure(true, "gone".to_string(), None) {
            Retry::After(ms) => waits.push(ms),
            Retry::Return(e) => break e,
        }
    };
    assert_eq!(waits, vec![500, 1_000, 2_000, 4_000]);
    assert_eq!(last.to_text(), "HTTP transport error: gone");
}

#[test]
fn bodies_that_can_be_judged() {
    let odd = format!("a{}", "é".repeat(151));
    assert!(!can_classify(404, &odd) && !can_classify(403, &odd));
    let limit = format!("{odd} secondary rate limit");
    assert!(can_classify(403, &limit) && can_classify(429, &limit) && !can_classify(404, &limit));
    assert!(can_classify(404, "short"));
    assert!(judge_body(404, "u".to_string(), &odd, 0, None).is_none());
    assert!(matches!(
        judge_body(429, "u".to_string(), &limit, 0, None),
        Some(Retry::After(500))
    ));
    match judge_body(404, "u".to_string(), "short ", 0, None) {
        Some(Retry::Return(e)) => assert_eq!(e.to_text(), "API error 404 at u: short"),
        other => panic!("{other:?}"),
    }
}

#[test]
fn waits_double_up_to_a_limit() {
    let plain: Vec<u64> = (0..9).map(|a| backoff(a, None)).collect();
    assert_eq!(
        plain,
        vec![500, 1_000, 2_000, 4_000, 8_000, 16_000, 30_000, 30_000, 30_000]
    );
    assert_eq!(backoff(u32::MAX, None), 30_000);
    assert_eq!(backoff(0, Some(125)), 625);
    assert_eq!(backoff(0, Some(126)), 500);
    assert_eq!(backoff(6, Some(999_999_999)), 30_000 + 999_999_999 % 7_501);
    let longest: u64 = [125, 250, 500, 1_000]
        .iter()
        .enumerate()
        .map(|(a, n)| backoff(a as u32, Some(*n)))
        .sum();
    assert_eq!(longest, 9_375);
}

#[test]
fn numbers_in_headers() {
    assert_eq!(header_u64(None), None);
    assert_eq!(header_u64(Some(" 12\t")), Some(12));
    assert_eq!(header_u64(Some("+0")), Some(0));
    assert_eq!(header_u64(Some("1.5")), None);
    assert_eq!(header_u64(Some("")), None);
    assert_eq!(header_u64(Some("Wed, 21 Oct 2015 07:28:00 GMT")), None);
}

#[test]
fn texts_of_errors() {
    let s = |x: &str| x.to_string();
    for (e, text) in [
        (Error::Config(s("c")), "configuration error: c"),
        (Error::Auth(s("a")), "authentication/authorization error: a"),
        (Error::Http(s("h")), "HTTP transport error: h"),
        (
            Error::Api { status: 404, url: s("u"), message: s("m") },
            "API error 404 at u: m",
        ),
        (
            Error::Parse { context: s("x"), source: s("y") },
            "failed to parse x: y",
        ),
        (
            Error::RateLimited { reset_at: at(0) },
            "primary rate limit exhausted; resets at 1970-01-01 00:00:00 UTC",
        ),
        (Error::Io(s("i")), "io error: i"),
    ] {
        assert_eq!(e.to_text(), text);
        assert_eq!(e.is_rate_limited(), matches!(e, Error::RateLimited { .. }));
        assert_eq!(e.api_status(), if matches!(e, Error::Api { .. }) { Some(404) } else { None });
    }
}
