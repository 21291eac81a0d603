//! What every request has in common: where the APIs are, and what to do when a request fails.
//!
//! * The primary rate limit is used up (`x-ratelimit-remaining: 0`): give up at once with
//!   [`Error::RateLimited`], which ends a run early but cleanly.
//! * A secondary rate limit (403 or 429 with `retry-after`, or with a body that says so): wait as
//!   long as the server asks, up to 30 seconds, and try again.
//! * A server error or a transport failure: wait longer each time, and try again.
//! * Any other status of failure: [`Error::Api`].
//!
//! Retries are few, so that an endpoint that keeps failing is given up within seconds. A run can
//! be repeated, and it is better to give up early and to go on with the next run.

use crate::error::Error;
use crate::text::{
    ascii_lowercase, chars_of, contains_run, decimal_value, has_run, law_runs, lowercase,
    lowercase_text, parse_u64, string_of, trim, trimmed,
};
use crate::time::{is_instant, Timestamp, MAX_SECS, MIN_SECS};
use vstd::arithmetic::power2::{lemma2_to64, lemma_pow2_unfold, pow2};
use vstd::prelude::*;
use vstd::utf8::{
    decode_utf8, decode_utf8_encode_utf8, decode_utf8_split, encode_utf8, encode_utf8_decode_utf8,
    encode_utf8_first_scalar, encode_utf8_valid_utf8, is_ascii_chars, is_char_boundary,
    pop_first_scalar, valid_utf8_split,
};

verus! {

/// How often a request is sent again.
pub const MAX_RETRIES: u32 = 4;

/// The first wait, in milliseconds.
pub const BASE_BACKOFF_MS: u64 = 500;

/// The longest wait, in milliseconds, without jitter.
pub const MAX_BACKOFF_MS: u64 = 30_000;

/// The longest message, in bytes, that is taken from a body whole.
pub const MESSAGE_BYTES: usize = 300;

/// The version of the REST API.
pub const GITHUB_API_VERSION: &'static str = "2022-11-28";

/// Where the REST API is.
pub const API_BASE: &'static str = "https://api.github.com";

/// Where the registry is.
pub const REGISTRY_BASE: &'static str = "https://ghcr.io";

/// A request: where to send it, and what its answer is called where it cannot be read.
#[derive(Debug, Clone)]
pub struct Request {
    pub url: String,
    pub context: String,
}

/// The base of an API: the one given, or its usual one.
pub fn base_or(given: &Option<String>, usual: &str) -> (r: String)
    ensures
        r@ == match *given {
            Some(base) => base@,
            None => usual@,
        },
{
    match given {
        Some(base) => base.clone(),
        None => usual.to_owned(),
    }
}

/// What the head of an answer that reports a failure tells.
#[derive(Debug, Clone, Copy)]
pub struct FailureHead {
    pub status: u16,
    /// The seconds in `retry-after`.
    pub retry_after: Option<u64>,
    /// The number in `x-ratelimit-remaining`.
    pub remaining: Option<u64>,
    /// The seconds since 1970 in `x-ratelimit-reset`.
    pub reset: Option<u64>,
}

/// What to do about a failure.
#[derive(Debug, Clone)]
pub enum Retry {
    /// Give up.
    Return(Error),
    /// Try again after this many milliseconds.
    After(u64),
}

/// Whether a status can stand for a rate limit.
pub open spec fn may_be_limit(status: u16) -> bool {
    status == 403 || status == 429
}

/// Whether a status is one of success.
pub open spec fn is_success_status(status: u16) -> bool {
    200 <= status < 300
}

/// Whether a status is one of a server error.
pub open spec fn is_server_error(status: u16) -> bool {
    500 <= status < 600
}

/// The wait before the next try, without jitter: it doubles with each try, up to a limit.
pub open spec fn capped_backoff(attempt: u32) -> nat {
    let doublings = if attempt < 6 {
        attempt as nat
    } else {
        6
    };
    if BASE_BACKOFF_MS * pow2(doublings) < MAX_BACKOFF_MS {
        BASE_BACKOFF_MS as nat * pow2(doublings)
    } else {
        MAX_BACKOFF_MS as nat
    }
}

/// The wait before the next try. The jitter, of a quarter at most, comes from the clock.
pub open spec fn backoff_ms(attempt: u32, clock_nanos: Option<u32>) -> nat {
    capped_backoff(attempt) + match clock_nanos {
        Some(nanos) => nanos as nat % (capped_backoff(attempt) / 4 + 1),
        None => 0,
    }
}

/// The number of seconds that an unsigned number of them stands for as a signed one.
pub open spec fn wrapped_seconds(s: u64) -> int {
    if s <= i64::MAX {
        s as int
    } else {
        s - 0x1_0000_0000_0000_0000
    }
}

/// Whether `t` is the instant at which the rate limit is reset: the one that the server names, or
/// `now` where it names none.
pub open spec fn is_reset(reset: Option<u64>, now: Timestamp, t: Timestamp) -> bool {
    match reset {
        Some(s) => if is_instant(wrapped_seconds(s), 0) {
            t.secs() == wrapped_seconds(s) && t.nanos() == 0
        } else {
            t == now
        },
        None => t == now,
    }
}

/// Whether a failure means that the primary rate limit is used up.
pub open spec fn is_primary_limit(head: FailureHead) -> bool {
    head.remaining == Some(0u64) && may_be_limit(head.status)
}

/// Whether a failure with that head has to be judged by its body.
pub open spec fn needs_body(head: FailureHead) -> bool {
    &&& !is_primary_limit(head)
    &&& if may_be_limit(head.status) {
        head.retry_after is None
    } else {
        !is_server_error(head.status)
    }
}

/// Whether a body, once in lower case, says that a secondary rate limit was hit.
pub open spec fn names_secondary(lower: Seq<char>) -> bool {
    contains_run(lower, "secondary rate limit"@)
}

/// Whether a body says that a secondary rate limit was hit, in capitals or not.
pub open spec fn says_secondary(body: Seq<char>) -> bool {
    names_secondary(lowercase_text(body))
}

/// Whether a trimmed text is short enough, or can be cut after [`MESSAGE_BYTES`] bytes: there a
/// character ends.
pub open spec fn can_cut(t: Seq<char>) -> bool {
    encode_utf8(t).len() <= MESSAGE_BYTES || is_char_boundary(encode_utf8(t), MESSAGE_BYTES as int)
}

/// A body as a message: trimmed, and cut where it is long.
pub open spec fn message_of(body: Seq<char>) -> Seq<char> {
    let t = trim(body);
    if encode_utf8(t).len() <= MESSAGE_BYTES {
        t
    } else {
        decode_utf8(encode_utf8(t).subrange(0, MESSAGE_BYTES as int)) + "…"@
    }
}

/// Whether a status is one of success.
pub fn is_success(status: u16) -> (r: bool)
    ensures
        r == is_success_status(status),
{
    200 <= status && status < 300
}

/// The number that the value of a header spells, if there is one: decimal digits, with an
/// optional `+` before them and white space around them.
pub open spec fn header_value(value: Option<Seq<char>>) -> Option<u64> {
    match value {
        Some(v) => decimal_value(trim(v)),
        None => None,
    }
}

/// The number in the value of a header, if there is one.
pub fn header_u64(value: Option<&str>) -> (r: Option<u64>)
    ensures
        r == header_value(match value {
            Some(v) => Some(v@),
            None => None,
        }),
{
    match value {
        Some(v) => {
            let all: Vec<char> = chars_of(v);
            let t: Vec<char> = trimmed(&all);
            parse_u64(&t)
        },
        None => None,
    }
}

/// The wait before the next try, in milliseconds. It grows with the number of tries, and varies
/// a little with the nanoseconds of the clock, where the clock can be read.
pub fn backoff(attempt: u32, clock_nanos: Option<u32>) -> (r: u64)
    ensures
        r == backoff_ms(attempt, clock_nanos),
{
    let doublings: u32 = if attempt < 6 {
        attempt
    } else {
        6
    };
    proof {
        lemma2_to64();
    }
    let mut wait: u64 = BASE_BACKOFF_MS;
    for i in 0..doublings
        invariant
            doublings <= 6,
            wait == BASE_BACKOFF_MS * pow2(i as nat),
            wait <= 32_000,
            i < 6 ==> wait <= 16_000,
    {
        proof {
            lemma2_to64();
            lemma_pow2_unfold((i + 1) as nat);
        }
        wait = wait * 2;
    }
    let capped: u64 = if wait < MAX_BACKOFF_MS {
        wait
    } else {
        MAX_BACKOFF_MS
    };
    let jitter: u64 = match clock_nanos {
        Some(nanos) => nanos as u64 % (capped / 4 + 1),
        None => 0,
    };
    capped + jitter
}

/// Whether [`truncate`] can cut the text: it is short once trimmed, or a character ends where it
/// is cut.
pub fn can_truncate(s: &str) -> (r: bool)
    ensures
        r == can_cut(trim(s@)),
{
    let all: Vec<char> = chars_of(s);
    let t: Vec<char> = trimmed(&all);
    let text: String = string_of(&t);
    text.as_str().as_bytes().len() <= MESSAGE_BYTES || text.as_str().is_char_boundary(
        MESSAGE_BYTES,
    )
}

/// A body as a message: trimmed, and cut where it is long.
pub fn truncate(s: &str) -> (r: String)
    requires
        can_cut(trim(s@)),
    ensures
        r@ == message_of(s@),
{
    let all: Vec<char> = chars_of(s);
    let t: Vec<char> = trimmed(&all);
    let text: String = string_of(&t);
    if text.as_str().as_bytes().len() <= MESSAGE_BYTES {
        text
    } else {
        let (front, _): (&str, &str) = text.as_str().split_at(MESSAGE_BYTES);
        proof {
            encode_utf8_decode_utf8(front@);
        }
        let mut out: String = front.to_owned();
        out.append("…");
        out
    }
}

/// The instant at which the rate limit is reset.
fn reset_instant(reset: Option<u64>, now: Timestamp) -> (r: Timestamp)
    ensures
        is_reset(reset, now, r),
{
    match reset {
        Some(s) => {
            let secs: i64 = if s <= i64::MAX as u64 {
                s as i64
            } else {
                -((u64::MAX - s) as i64) - 1
            };
            match Timestamp::new(secs, 0) {
                Some(t) => t,
                None => now,
            }
        },
        None => now,
    }
}

/// What to do about a failure, as far as the head of the answer tells; `None` where its body has
/// to be read, for [`judge_body`].
pub fn classify_head(
    head: &FailureHead,
    attempt: u32,
    clock_nanos: Option<u32>,
    now: Timestamp,
) -> (r: Option<Retry>)
    ensures
        r is None <==> needs_body(*head),
        is_primary_limit(*head) ==> (r matches Some(Retry::Return(Error::RateLimited { reset_at }))
            && is_reset(head.reset, now, reset_at)),
        !needs_body(*head) && !is_primary_limit(*head) ==> (r matches Some(Retry::After(ms)) && ms
            == if may_be_limit(head.status) {
            if head.retry_after->0 < 30 {
                head.retry_after->0 * 1000
            } else {
                MAX_BACKOFF_MS as int
            }
        } else {
            backoff_ms(attempt, clock_nanos) as int
        }),
{
    let limit: bool = head.status == 403 || head.status == 429;
    let used_up: bool = match head.remaining {
        Some(n) => n == 0,
        None => false,
    };
    if used_up && limit {
        return Some(Retry::Return(Error::RateLimited { reset_at: reset_instant(head.reset, now) }));
    }
    if limit {
        return match head.retry_after {
            Some(secs) => {
                let longest: u64 = MAX_BACKOFF_MS / 1000;
                let wait: u64 = if secs < longest {
                    secs
                } else {
                    longest
                };
                Some(Retry::After(wait * 1000))
            },
            None => None,
        };
    }
    if 500 <= head.status && head.status < 600 {
        return Some(Retry::After(backoff(attempt, clock_nanos)));
    }
    None
}

/// What to do about a failure that its head leaves open, given the body of the answer.
pub fn classify_body(
    status: u16,
    url: String,
    body: &str,
    attempt: u32,
    clock_nanos: Option<u32>,
) -> (r: Retry)
    requires
        !(may_be_limit(status) && says_secondary(body@)) ==> can_cut(trim(body@)),
    ensures
        if may_be_limit(status) && says_secondary(body@) {
            r matches Retry::After(ms) && ms == backoff_ms(attempt, clock_nanos)
        } else {
            r matches Retry::Return(Error::Api { status: s, url: u, message: m }) && s == status
                && u == url && m@ == message_of(body@)
        },
{
    if (status == 403 || status == 429) && is_secondary(body) {
        return Retry::After(backoff(attempt, clock_nanos));
    }
    Retry::Return(Error::Api { status, url, message: truncate(body) })
}

/// Whether a body says that a secondary rate limit was hit, in capitals or not.
pub fn is_secondary(body: &str) -> (r: bool)
    ensures
        r == says_secondary(body@),
        is_ascii_chars(body@) ==> r == names_secondary(ascii_lowercase(body@)),
{
    let lower: String = lowercase(body);
    has_run(lower.as_str(), "secondary rate limit")
}

/// Whether the body of a failure can be judged by [`classify_body`].
pub fn can_classify(status: u16, body: &str) -> (r: bool)
    ensures
        r == (!(may_be_limit(status) && says_secondary(body@)) ==> can_cut(trim(body@))),
{
    ((status == 403 || status == 429) && is_secondary(body)) || can_truncate(body)
}

/// What to do about a failure that its head leaves open, given the body of the answer; `None` where
/// the body would have to be cut inside a character.
pub fn judge_body(
    status: u16,
    url: String,
    body: &str,
    attempt: u32,
    clock_nanos: Option<u32>,
) -> (r: Option<Retry>)
    ensures
        if may_be_limit(status) && says_secondary(body@) {
            r matches Some(Retry::After(ms)) && ms == backoff_ms(attempt, clock_nanos)
        } else if can_cut(trim(body@)) {
            r matches Some(Retry::Return(Error::Api { status: s, url: u, message: m })) && s
                == status && u == url && m@ == message_of(body@)
        } else {
            r is None
        },
{
    if can_classify(status, body) {
        Some(classify_body(status, url, body, attempt, clock_nanos))
    } else {
        None
    }
}

/// The sending of a request: how often it has been sent again.
pub struct Sending {
    retries: u32,
}

impl Sending {
    #[verifier::type_invariant]
    spec fn bounded(self) -> bool {
        self.retries <= MAX_RETRIES
    }

    /// How often the request has been sent again.
    pub closed spec fn spec_attempt(&self) -> u32 {
        self.retries
    }

    /// A request that is sent for the first time.
    pub fn new() -> (r: Sending)
        ensures
            r.spec_attempt() == 0,
    {
        Sending { retries: 0 }
    }

    /// How often the request has been sent again, which is never more than [`MAX_RETRIES`] times.
    #[verifier::when_used_as_spec(spec_attempt)]
    pub fn attempt(&self) -> (r: u32)
        ensures
            r == self.spec_attempt(),
            r <= MAX_RETRIES,
    {
        proof {
            use_type_invariant(self);
        }
        self.retries
    }

    /// What to do now about an answer of failure. The request is sent again only while it has not
    /// been sent too often.
    pub fn after_failure(&mut self, retry: Retry, status: u16) -> (r: Retry)
        ensures
            match retry {
                Retry::Return(e) => r == Retry::Return(e),
                Retry::After(ms) => if old(self).attempt() < MAX_RETRIES {
                    r == Retry::After(ms)
                } else {
                    r matches Retry::Return(Error::Api { status: s, url: u, message: m }) && s
                        == status && u@ == ""@ && m@ == "exhausted retries"@
                },
            },
            final(self).attempt() == old(self).attempt() + if r is After {
                1int
            } else {
                0
            },
    {
        match retry {
            Retry::Return(e) => Retry::Return(e),
            Retry::After(ms) => {
                if self.retries >= MAX_RETRIES {
                    Retry::Return(
                        Error::Api {
                            status,
                            url: "".to_owned(),
                            message: "exhausted retries".to_owned(),
                        },
                    )
                } else {
                    self.retries = self.retries + 1;
                    Retry::After(ms)
                }
            },
        }
    }

    /// What to do now about a transport failure. `passing` tells whether it is of a kind that may
    /// pass: a timeout, no connection, or a request that did not go through.
    pub fn after_transport_failure(
        &mut self,
        passing: bool,
        what: String,
        clock_nanos: Option<u32>,
    ) -> (r: Retry)
        ensures
            if passing && old(self).attempt() < MAX_RETRIES {
                r matches Retry::After(ms) && ms == backoff_ms(old(self).attempt(), clock_nanos)
            } else {
                r == Retry::Return(Error::Http(what))
            },
            final(self).attempt() == old(self).attempt() + if r is After {
                1int
            } else {
                0
            },
    {
        if passing && self.retries < MAX_RETRIES {
            let wait: u64 = backoff(self.retries, clock_nanos);
            self.retries = self.retries + 1;
            Retry::After(wait)
        } else {
            Retry::Return(Error::Http(what))
        }
    }
}

/// A wait is never shorter than its share without jitter, and never longer than that and a
/// quarter of it. No wait is longer than 37.5 seconds.
pub proof fn law_backoff_bounds(attempt: u32, clock_nanos: Option<u32>)
    ensures
        capped_backoff(attempt) <= backoff_ms(attempt, clock_nanos) <= capped_backoff(attempt)
            + capped_backoff(attempt) / 4,
        BASE_BACKOFF_MS <= backoff_ms(attempt, clock_nanos) <= 37_500,
{
    lemma2_to64();
    if attempt < 6 {
        let e = attempt as nat;
        assert(e == 0 || e == 1 || e == 2 || e == 3 || e == 4 || e == 5);
    }
    assert(BASE_BACKOFF_MS <= capped_backoff(attempt) <= MAX_BACKOFF_MS);
    if let Some(nanos) = clock_nanos {
        let quarter = capped_backoff(attempt) / 4;
        assert(nanos as nat % (quarter + 1) <= quarter) by (nonlinear_arith)
            requires
                quarter >= 0,
        ;
    }
}

/// Later waits are no shorter, before jitter.
pub proof fn law_backoff_grows(earlier: u32, later: u32)
    requires
        earlier <= later,
    ensures
        capped_backoff(earlier) <= capped_backoff(later),
{
    lemma2_to64();
    let a: nat = if earlier < 6 {
        earlier as nat
    } else {
        6
    };
    let b: nat = if later < 6 {
        later as nat
    } else {
        6
    };
    assert(a == 0 || a == 1 || a == 2 || a == 3 || a == 4 || a == 5 || a == 6);
    assert(b == 0 || b == 1 || b == 2 || b == 3 || b == 4 || b == 5 || b == 6);
}

/// An endpoint that keeps failing is given up within seconds: the four waits between its tries take
/// 7.5 seconds together, and not quite two seconds more with jitter.
pub proof fn law_giving_up_takes_seconds(clocks: Seq<Option<u32>>)
    requires
        clocks.len() == MAX_RETRIES,
    ensures
        clocks.len() == 4,
        7_500 <= backoff_ms(0, clocks[0]) + backoff_ms(1, clocks[1]) + backoff_ms(2, clocks[2])
            + backoff_ms(3, clocks[3]) <= 9_375,
{
    lemma2_to64();
    law_backoff_bounds(0, clocks[0]);
    law_backoff_bounds(1, clocks[1]);
    law_backoff_bounds(2, clocks[2]);
    law_backoff_bounds(3, clocks[3]);
    assert(capped_backoff(0) == 500 && capped_backoff(1) == 1000 && capped_backoff(2) == 2000
        && capped_backoff(3) == 4000);
}

/// The waits without jitter: half a second at first, then twice as long each time, and never more
/// than thirty seconds.
pub proof fn law_waits_double(attempt: u32)
    requires
        attempt < u32::MAX,
    ensures
        capped_backoff(0) == 500,
        capped_backoff((attempt + 1) as u32) == if 2 * capped_backoff(attempt) < 30_000 {
            2 * capped_backoff(attempt)
        } else {
            30_000
        },
{
    lemma2_to64();
    if attempt < 6 {
        let e = attempt as nat;
        assert(e == 0 || e == 1 || e == 2 || e == 3 || e == 4 || e == 5);
    }
}

/// The jitter of a wait is what the nanoseconds of the clock leave when they are divided by a
/// quarter of the wait and one; without a clock there is none.
pub proof fn law_jitter(attempt: u32, clock_nanos: Option<u32>)
    ensures
        ({
            let plain = capped_backoff(attempt);
            let jitter = backoff_ms(attempt, clock_nanos) - plain;
            &&& 0 <= jitter <= plain / 4
            &&& clock_nanos is None ==> jitter == 0
            &&& clock_nanos matches Some(nanos) ==> (nanos - jitter) % (plain / 4
                + 1) as int == 0
        }),
{
    law_backoff_bounds(attempt, clock_nanos);
    if let Some(nanos) = clock_nanos {
        let q = capped_backoff(attempt) as int / 4 + 1;
        let n = nanos as int;
        assert(q > 0);
        assert((n - n % q) % q == 0) by (nonlinear_arith)
            requires
                q > 0,
        {
            vstd::arithmetic::div_mod::lemma_fundamental_div_mod(n, q);
            vstd::arithmetic::div_mod::lemma_mod_multiples_basic(n / q, q);
            assert(n - n % q == (n / q) * q);
        }
    }
}

/// Which statuses stand for success, for a server error, and possibly for a rate limit.
pub proof fn law_statuses(status: u16)
    ensures
        is_success_status(status) <==> status as int / 100 == 2,
        is_server_error(status) <==> status as int / 100 == 5,
        may_be_limit(status) <==> status == 403 || status == 429,
{
}

/// What a failure comes to by its head: the primary limit, a body to be read, or a wait.
pub proof fn law_heads(head: FailureHead)
    ensures
        ({
            let limit = head.status == 403 || head.status == 429;
            let used_up = head.remaining is Some && head.remaining->0 == 0;
            &&& is_primary_limit(head) <==> limit && used_up
            &&& limit && used_up ==> !needs_body(head)
            &&& limit && !used_up ==> (needs_body(head) <==> head.retry_after is None)
            &&& !limit ==> (needs_body(head) <==> !(500 <= head.status <= 599))
        }),
{
}

/// A number of seconds is read as the signed number of the same 64 bits.
pub proof fn law_wrapped_seconds(s: u64)
    ensures
        i64::MIN <= wrapped_seconds(s) <= i64::MAX,
        wrapped_seconds(s) == s || wrapped_seconds(s) == s - 0x1_0000_0000_0000_0000,
        s as int <= i64::MAX ==> wrapped_seconds(s) == s,
{
}

/// The limit is reset at the second that the server names, if that is an instant, and otherwise
/// now.
pub proof fn law_reset(reset: Option<u64>, now: Timestamp, t: Timestamp)
    ensures
        ({
            let named = reset is Some && MIN_SECS <= wrapped_seconds(reset->0) <= MAX_SECS;
            &&& named ==> (is_reset(reset, now, t) <==> t.secs() == wrapped_seconds(reset->0)
                && t.nanos() == 0)
            &&& !named ==> (is_reset(reset, now, t) <==> t == now)
        }),
{
}

/// A body says that a secondary limit was hit where those words stand in it once it is in lower case,
/// wherever that is.
pub proof fn law_secondary_anywhere(
    front: Seq<char>,
    back: Seq<char>,
    lower: Seq<char>,
    body: Seq<char>,
)
    ensures
        says_secondary(body) <==> exists|f: Seq<char>, b: Seq<char>|
            lowercase_text(body) == #[trigger] (f + "secondary rate limit"@ + b),
        names_secondary(front + "secondary rate limit"@ + back),
        names_secondary(lower) <==> exists|f: Seq<char>, b: Seq<char>|
            lower == #[trigger] (f + "secondary rate limit"@ + b),
{
    law_runs(lower, "secondary rate limit"@);
    law_runs(lowercase_text(body), "secondary rate limit"@);
    law_runs(front + "secondary rate limit"@ + back, "secondary rate limit"@);
}

/// A body as a message: trimmed, and whole where it has up to 300 bytes. A longer one is cut to the
/// characters of its first 300 bytes, and an ellipsis follows.
pub proof fn law_messages(body: Seq<char>)
    requires
        can_cut(trim(body)),
    ensures
        encode_utf8(trim(body)).len() <= 300 ==> message_of(body) == trim(body),
        encode_utf8(trim(body)).len() > 300 ==> exists|front: Seq<char>, back: Seq<char>|
            {
                &&& trim(body) == #[trigger] (front + back)
                &&& encode_utf8(front).len() == 300
                &&& message_of(body) == front + "…"@
            },
{
    let t = trim(body);
    let bytes = encode_utf8(t);
    if bytes.len() > 300 {
        let front = decode_utf8(bytes.subrange(0, 300));
        let back = decode_utf8(bytes.subrange(300, bytes.len() as int));
        encode_utf8_valid_utf8(t);
        encode_utf8_decode_utf8(t);
        valid_utf8_split(bytes, 300);
        decode_utf8_split(bytes, 300);
        decode_utf8_encode_utf8(bytes.subrange(0, 300));
        assert(t =~= front + back);
    }
}

/// A text can be cut where it has up to 300 bytes, or where some characters at its front have 300
/// bytes together.
pub proof fn law_what_can_be_cut(t: Seq<char>)
    ensures
        can_cut(t) <==> encode_utf8(t).len() <= 300 || exists|front: Seq<char>, back: Seq<char>|
            t == #[trigger] (front + back) && encode_utf8(front).len() == 300,
{
    let bytes = encode_utf8(t);
    if bytes.len() > 300 && is_char_boundary(bytes, 300) {
        let front = decode_utf8(bytes.subrange(0, 300));
        let back = decode_utf8(bytes.subrange(300, bytes.len() as int));
        encode_utf8_valid_utf8(t);
        encode_utf8_decode_utf8(t);
        valid_utf8_split(bytes, 300);
        decode_utf8_split(bytes, 300);
        decode_utf8_encode_utf8(bytes.subrange(0, 300));
        assert(t =~= front + back);
    }
    if exists|front: Seq<char>, back: Seq<char>|
        t == #[trigger] (front + back) && encode_utf8(front).len() == 300 {
        let (front, back) = choose|front: Seq<char>, back: Seq<char>|
            t == #[trigger] (front + back) && encode_utf8(front).len() == 300;
        lemma_boundary(front, back);
    }
}

/// The bytes of the front of a text end where a character does.
proof fn lemma_boundary(front: Seq<char>, back: Seq<char>)
    ensures
        encode_utf8(front).len() <= encode_utf8(front + back).len(),
        is_char_boundary(encode_utf8(front + back), encode_utf8(front).len() as int),
    decreases front.len(),
{
    let t = front + back;
    encode_utf8_valid_utf8(t);
    if front.len() > 0 {
        let rest = front.drop_first();
        lemma_boundary(rest, back);
        encode_utf8_first_scalar(t);
        assert(t.drop_first() =~= rest + back);
        assert(t[0] == front[0]);
        assert(pop_first_scalar(encode_utf8(t)) =~= encode_utf8(rest + back));
    }
}

/// A header has a number where its value, without white space around it, is one.
pub proof fn law_header_numbers(value: Seq<char>)
    ensures
        header_value(None) is None,
        header_value(Some(value)) == decimal_value(trim(value)),
{
}

} // verus!
