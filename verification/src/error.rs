//! The errors of a run.
//!
//! Being out of the primary rate limit is an error of its own: a run then finishes the package at
//! hand and stops, so that a later run can go on.

use crate::text::{decimal, decimal_string};
use crate::time::{utc_display, Timestamp};
use vstd::prelude::*;

verus! {

/// What can go wrong.
#[derive(Debug, Clone)]
pub enum Error {
    /// Bad arguments or settings.
    Config(String),
    /// The token is missing, invalid, or lacks a scope.
    Auth(String),
    /// A transport failure (DNS, TLS, connect, timeout) that outlived the retries, in words.
    Http(String),
    /// A status of failure that stands for nothing else.
    Api { status: u16, url: String, message: String },
    /// A body did not have the expected shape.
    Parse {
        context: String,
        /// What the parser says of it.
        source: String,
    },
    /// The primary rate limit of GitHub is used up.
    RateLimited { reset_at: Timestamp },
    /// Local input or output failed, in words.
    Io(String),
}

impl Error {
    /// The text of an error.
    pub open spec fn text(self) -> Seq<char> {
        match self {
            Error::Config(m) => "configuration error: "@ + m@,
            Error::Auth(m) => "authentication/authorization error: "@ + m@,
            Error::Http(m) => "HTTP transport error: "@ + m@,
            Error::Api { status, url, message } => "API error "@ + decimal(status as nat) + " at "@
                + url@ + ": "@ + message@,
            Error::Parse { context, source } => "failed to parse "@ + context@ + ": "@ + source@,
            Error::RateLimited { reset_at } => "primary rate limit exhausted; resets at "@
                + utc_display(reset_at.secs(), reset_at.nanos()),
            Error::Io(m) => "io error: "@ + m@,
        }
    }

    /// The status of an unclassified failure.
    pub open spec fn status(self) -> Option<u16> {
        match self {
            Error::Api { status, .. } => Some(status),
            _ => None,
        }
    }

    /// Whether the primary rate limit is used up.
    pub fn is_rate_limited(&self) -> (r: bool)
        ensures
            r == (*self is RateLimited),
    {
        match self {
            Error::RateLimited { .. } => true,
            _ => false,
        }
    }

    /// The status of an unclassified failure.
    pub fn api_status(&self) -> (r: Option<u16>)
        ensures
            r == self.status(),
    {
        match self {
            Error::Api { status, .. } => Some(*status),
            _ => None,
        }
    }

    /// The text of an error.
    pub fn to_text(&self) -> (r: String)
        ensures
            r@ == self.text(),
    {
        match self {
            Error::Config(m) => {
                let mut out: String = "configuration error: ".to_owned();
                out.append(m.as_str());
                out
            },
            Error::Auth(m) => {
                let mut out: String = "authentication/authorization error: ".to_owned();
                out.append(m.as_str());
                out
            },
            Error::Http(m) => {
                let mut out: String = "HTTP transport error: ".to_owned();
                out.append(m.as_str());
                out
            },
            Error::Api { status, url, message } => {
                let mut out: String = "API error ".to_owned();
                out.append(decimal_string(*status as u64).as_str());
                out.append(" at ");
                out.append(url.as_str());
                out.append(": ");
                out.append(message.as_str());
                out
            },
            Error::Parse { context, source } => {
                let mut out: String = "failed to parse ".to_owned();
                out.append(context.as_str());
                out.append(": ");
                out.append(source.as_str());
                out
            },
            Error::RateLimited { reset_at } => {
                let mut out: String = "primary rate limit exhausted; resets at ".to_owned();
                out.append(reset_at.display().as_str());
                out
            },
            Error::Io(m) => {
                let mut out: String = "io error: ".to_owned();
                out.append(m.as_str());
                out
            },
        }
    }
}

/// The text of each kind of error, whatever it holds.
pub proof fn law_texts_of_errors(m: String, more: String, status: u16, at: Timestamp)
    ensures
        Error::Config(m).text() == "configuration error: "@ + m@,
        Error::Auth(m).text() == "authentication/authorization error: "@ + m@,
        Error::Http(m).text() == "HTTP transport error: "@ + m@,
        Error::Io(m).text() == "io error: "@ + m@,
        (Error::Api { status, url: m, message: more }).text() == "API error "@ + decimal(
            status as nat,
        ) + " at "@ + m@ + ": "@ + more@,
        (Error::Parse { context: m, source: more }).text() == "failed to parse "@ + m@ + ": "@
            + more@,
        (Error::RateLimited { reset_at: at }).text() == "primary rate limit exhausted; resets at "@
            + utc_display(at.secs(), at.nanos()),
{
}

/// Only an unclassified failure has a status, and it is its own.
pub proof fn law_statuses_of_errors(e: Error)
    ensures
        e is Api ==> e.status() == Some(e->status),
        !(e is Api) ==> e.status() is None,
{
}

} // verus!
