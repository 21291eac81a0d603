//! Tokens of the registry.
//!
//! The token of the user is exchanged for a short-lived one that allows to pull from a single
//! repository. It is asked for once for each package and serves all its manifests.

use crate::text::{ascii_lowercase, lowercase, lowercase_text};
use vstd::prelude::*;
use vstd::utf8::is_ascii_chars;

verus! {

/// The request for a token.
#[derive(Debug, Clone)]
pub struct TokenRequest {
    pub url: String,
    /// The name that goes with the token of the user.
    pub user: String,
    /// What the answer is called where it cannot be read.
    pub context: String,
}

/// Where a token to pull from a repository is, given owner and package in lower case, as the
/// registry wants them.
pub open spec fn token_url(
    registry_base: Seq<char>,
    lower_owner: Seq<char>,
    lower_package: Seq<char>,
) -> Seq<char> {
    registry_base + "/token?service=ghcr.io&scope=repository:"@ + lower_owner + "/"@ + lower_package
        + ":pull"@
}

/// Whether a request asks for a token to pull from a repository, given owner and package in lower
/// case.
pub open spec fn asks_for_token(
    r: TokenRequest,
    registry_base: Seq<char>,
    lower_owner: Seq<char>,
    lower_package: Seq<char>,
) -> bool {
    &&& r.url@ == token_url(registry_base, lower_owner, lower_package)
    &&& r.user@ == lower_owner
    &&& r.context@ == "ghcr token for "@ + lower_owner + "/"@ + lower_package
}

/// The request for a token to pull from a repository.
pub fn token_request(registry_base: &str, owner: &str, package: &str) -> (r: TokenRequest)
    ensures
        asks_for_token(r, registry_base@, lowercase_text(owner@), lowercase_text(package@)),
        is_ascii_chars(owner@) && is_ascii_chars(package@) ==> asks_for_token(
            r,
            registry_base@,
            ascii_lowercase(owner@),
            ascii_lowercase(package@),
        ),
{
    let user: String = lowercase(owner);
    let name: String = lowercase(package);
    let mut url: String = registry_base.to_owned();
    url.append("/token?service=ghcr.io&scope=repository:");
    url.append(user.as_str());
    url.append("/");
    url.append(name.as_str());
    url.append(":pull");
    let mut context: String = "ghcr token for ".to_owned();
    context.append(user.as_str());
    context.append("/");
    context.append(name.as_str());
    TokenRequest { url, user, context }
}

/// Where a token is, whose name goes with it, and what the answer is called.
pub proof fn law_place_of_a_token(
    r: TokenRequest,
    base: Seq<char>,
    owner: Seq<char>,
    package: Seq<char>,
)
    requires
        asks_for_token(r, base, owner, package),
    ensures
        r.url@ == base + "/token?service=ghcr.io&scope=repository:"@ + owner + "/"@ + package
            + ":pull"@,
        r.user@ == owner,
        r.context@ == "ghcr token for "@ + owner + "/"@ + package,
{
}

} // verus!
