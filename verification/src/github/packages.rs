//! The GitHub Packages API: the kind of an owner, the packages of an owner, the versions of a
//! package (page by page), a single version, and its deletion.

use crate::config::{segment_of, OwnerType};
use crate::domain::plan::{versions_of, Version, VersionInput};
use crate::error::Error;
use crate::github::client::Request;
use crate::github::models::{tags_of, OwnerInfo, Package, PackageVersion};
use crate::text::{
    chars_of, debug_text, decimal, decimal_string, is_ascii_digit, is_white, law_stripped_back, law_stripped_front, lemma_decimal_digits,
    lemma_split_append, lemma_split_free, lemma_split_nonempty, lemma_split_prepend, opt_text, pieces, quoted, same_chars, same_text, spelled, split, string_of,
    strip_end, strip_start, texts, trim, trimmed, without_back, without_front,
};
use vstd::prelude::*;
use vstd::utf8::{decode_utf8, encode_utf8};

verus! {

/// Whether a byte stands for itself in a segment of a path: a letter, a digit, or one of `-`,
/// `.`, `_` and `~`.
pub open spec fn is_unreserved(b: u8) -> bool {
    ||| 0x41 <= b <= 0x5a
    ||| 0x61 <= b <= 0x7a
    ||| 0x30 <= b <= 0x39
    ||| b == 0x2d
    ||| b == 0x2e
    ||| b == 0x5f
    ||| b == 0x7e
}

/// A hexadecimal digit, in upper case.
pub open spec fn hex_digit(n: int) -> char {
    if n < 10 {
        (48 + n) as char
    } else {
        (55 + n) as char
    }
}

/// A byte in a segment of a path.
pub open spec fn encoded_byte(b: u8) -> Seq<char> {
    if is_unreserved(b) {
        seq![b as char]
    } else {
        seq!['%', hex_digit(b as int / 16), hex_digit(b as int % 16)]
    }
}

/// Bytes in a segment of a path.
pub open spec fn encoded_bytes(bytes: Seq<u8>) -> Seq<char>
    decreases bytes.len(),
{
    if bytes.len() == 0 {
        Seq::empty()
    } else {
        encoded_byte(bytes[0]) + encoded_bytes(bytes.drop_first())
    }
}

/// A text as a segment of a path: its bytes in UTF-8, of which those that are reserved are
/// written as `%` and two hexadecimal digits.
pub open spec fn encoded_segment(s: Seq<char>) -> Seq<char> {
    encoded_bytes(encode_utf8(s))
}

fn hex_char(n: u8) -> (r: char)
    requires
        n < 16,
    ensures
        r == hex_digit(n as int),
{
    if n < 10 {
        (48 + n) as char
    } else {
        (55 + n) as char
    }
}

/// A text as a segment of a path. The names of packages may hold `/` and other characters that
/// are reserved there.
pub fn encode_segment(s: &str) -> (r: String)
    ensures
        r@ == encoded_segment(s@),
{
    let bytes: &[u8] = s.as_bytes();
    let ghost all = encode_utf8(s@);
    let mut out: String = String::new();
    assert(all.skip(0) =~= all);
    for i in 0..bytes.len()
        invariant
            bytes@ == all,
            out@ + encoded_bytes(all.skip(i as int)) == encoded_bytes(all),
    {
        let b: u8 = bytes[i];
        let ghost before = out@;
        let ghost rest = all.skip(i as int);
        assert(rest[0] == b);
        assert(rest.drop_first() =~= all.skip(i as int + 1));
        if (0x41 <= b && b <= 0x5a) || (0x61 <= b && b <= 0x7a) || (0x30 <= b && b <= 0x39) || b
            == 0x2d || b == 0x2e || b == 0x5f || b == 0x7e {
            out.push(b as char);
        } else {
            out.push('%');
            out.push(hex_char(b / 16));
            out.push(hex_char(b % 16));
        }
        assert(out@ =~= before + encoded_byte(b));
        assert(out@ + encoded_bytes(rest.drop_first()) =~= before + (encoded_byte(b)
            + encoded_bytes(rest.drop_first())));
    }
    assert(all.skip(all.len() as int) =~= Seq::<u8>::empty());
    assert(out@ =~= out@ + encoded_bytes(all.skip(all.len() as int)));
    out
}

/// Where the packages of an owner are.
pub open spec fn owner_url(api_base: Seq<char>, owner_type: OwnerType, owner: Seq<char>) -> Seq<
    char,
> {
    api_base + "/"@ + segment_of(owner_type) + "/"@ + owner + "/packages"@
}

/// Where a package is.
pub open spec fn package_url(
    api_base: Seq<char>,
    owner_type: OwnerType,
    owner: Seq<char>,
    package: Seq<char>,
) -> Seq<char> {
    owner_url(api_base, owner_type, owner) + "/container/"@ + encoded_segment(package)
}

/// Where a version of a package is.
pub open spec fn version_url(
    api_base: Seq<char>,
    owner_type: OwnerType,
    owner: Seq<char>,
    package: Seq<char>,
    id: u64,
) -> Seq<char> {
    package_url(api_base, owner_type, owner, package) + "/versions/"@ + decimal(id as nat)
}

fn owner_base(api_base: &str, owner_type: OwnerType, owner: &str) -> (r: String)
    ensures
        r@ == owner_url(api_base@, owner_type, owner@),
{
    let mut url: String = api_base.to_owned();
    url.append("/");
    url.append(owner_type.path_segment());
    url.append("/");
    url.append(owner);
    url.append("/packages");
    url
}

fn package_base(api_base: &str, owner_type: OwnerType, owner: &str, package: &str) -> (r: String)
    ensures
        r@ == package_url(api_base@, owner_type, owner@, package@),
{
    let mut url: String = owner_base(api_base, owner_type, owner);
    url.append("/container/");
    url.append(encode_segment(package).as_str());
    url
}

/// The request for what kind of owner an owner is.
pub fn owner_request(api_base: &str, owner: &str) -> (r: Request)
    ensures
        r.url@ == api_base@ + "/users/"@ + owner@,
        r.context@ == "owner info for "@ + owner@,
{
    let mut url: String = api_base.to_owned();
    url.append("/users/");
    url.append(owner);
    let mut context: String = "owner info for ".to_owned();
    context.append(owner);
    Request { url, context }
}

/// The request for the first page of the container packages of an owner.
pub fn packages_request(api_base: &str, owner_type: OwnerType, owner: &str) -> (r: Request)
    ensures
        r.url@ == owner_url(api_base@, owner_type, owner@)
            + "?package_type=container&per_page=100"@,
        r.context@ == "packages for "@ + owner@,
{
    let mut url: String = owner_base(api_base, owner_type, owner);
    url.append("?package_type=container&per_page=100");
    let mut context: String = "packages for ".to_owned();
    context.append(owner);
    Request { url, context }
}

/// The request for the first page of the versions of a package.
pub fn versions_request(api_base: &str, owner_type: OwnerType, owner: &str, package: &str) -> (r:
    Request)
    ensures
        r.url@ == package_url(api_base@, owner_type, owner@, package@) + "/versions?per_page=100"@,
        r.context@ == "versions for "@ + owner@ + "/"@ + package@,
{
    let mut url: String = package_base(api_base, owner_type, owner, package);
    url.append("/versions?per_page=100");
    let mut context: String = "versions for ".to_owned();
    context.append(owner);
    context.append("/");
    context.append(package);
    Request { url, context }
}

/// The request for a single version of a package. A deletion is sent to the same place.
pub fn version_request(
    api_base: &str,
    owner_type: OwnerType,
    owner: &str,
    package: &str,
    id: u64,
) -> (r: Request)
    ensures
        r.url@ == version_url(api_base@, owner_type, owner@, package@, id),
        r.context@ == "version "@ + decimal(id as nat) + " for "@ + owner@ + "/"@ + package@,
{
    let number: String = decimal_string(id);
    let mut url: String = package_base(api_base, owner_type, owner, package);
    url.append("/versions/");
    url.append(number.as_str());
    let mut context: String = "version ".to_owned();
    context.append(number.as_str());
    context.append(" for ");
    context.append(owner);
    context.append("/");
    context.append(package);
    Request { url, context }
}

/// The kind of owner that an answer names, or an error where it names none that is known.
pub fn owner_type_of(info: &OwnerInfo, owner: &str) -> (r: Result<OwnerType, Error>)
    ensures
        match r {
            Ok(OwnerType::Organization) => info.kind@ == "Organization"@,
            Ok(OwnerType::User) => info.kind@ == "User"@,
            Err(Error::Config(m)) => info.kind@ != "Organization"@ && info.kind@ != "User"@ && m@
                == "unexpected owner type "@ + debug_text(info.kind@) + " for "@ + owner@,
            Err(_) => false,
        },
{
    if same_text(info.kind.as_str(), "Organization") {
        Ok(OwnerType::Organization)
    } else if same_text(info.kind.as_str(), "User") {
        Ok(OwnerType::User)
    } else {
        let mut m: String = "unexpected owner type ".to_owned();
        m.append(quoted(info.kind.as_str()).as_str());
        m.append(" for ");
        m.append(owner);
        Err(Error::Config(m))
    }
}

/// The names of packages.
pub open spec fn names_of(packages: Seq<Package>) -> Seq<Seq<char>> {
    packages.map_values(|p: Package| p.name@)
}

/// The names of packages, in their order.
pub fn package_names(packages: Vec<Package>) -> (r: Vec<String>)
    ensures
        texts(r@) == names_of(packages@),
{
    let ghost all = packages@;
    let mut names: Vec<String> = Vec::new();
    for p in it: packages.into_iter()
        invariant
            it.seq() == all,
            texts(names@) == names_of(all.take(it.index() as int)),
    {
        let ghost i = it.index() as int;
        let ghost before = texts(names@);
        let ghost name = p.name@;
        names.push(p.name);
        proof {
            assert(all[i].name@ == name);
            assert(texts(names@) =~= before.push(name));
            assert(names_of(all.take(i + 1)) =~= before.push(name));
        }
    }
    assert(all.take(all.len() as int) =~= all);
    names
}

/// The version that an answer describes.
pub open spec fn version_in(v: PackageVersion) -> Version {
    Version { id: v.id, digest: v.name@, tags: tags_of(v), created_at: v.created_at }
}

/// The versions that answers describe.
pub open spec fn versions_in(v: Seq<PackageVersion>) -> Seq<Version> {
    v.map_values(|x: PackageVersion| version_in(x))
}

/// The versions of a package as the planner sees them, in their order.
pub fn version_inputs(versions: &[PackageVersion]) -> (r: Vec<VersionInput>)
    ensures
        versions_of(r@) == versions_in(versions@),
{
    let ghost all = versions@;
    let mut inputs: Vec<VersionInput> = Vec::new();
    assert(versions_of(inputs@) =~= versions_in(all.take(0)));
    for i in 0..versions.len()
        invariant
            all == versions@,
            versions_of(inputs@) == versions_in(all.take(i as int)),
    {
        let v: &PackageVersion = &versions[i];
        let ghost before = versions_of(inputs@);
        inputs.push(
            VersionInput {
                id: v.id,
                digest: v.name.clone(),
                tags: v.tags(),
                created_at: v.created_at,
            },
        );
        proof {
            assert(versions_of(inputs@) =~= before.push(version_in(*v)));
            assert(versions_in(all.take(i as int + 1)) =~= before.push(version_in(*v)));
        }
    }
    assert(all.take(all.len() as int) =~= all);
    inputs
}

/// What a deletion comes to, given how its request went. A version that is not there counts as
/// deleted, so that deletions can be repeated.
pub fn delete_result(sent: Result<(), Error>) -> (r: Result<(), Error>)
    ensures
        match sent {
            Ok(_) => r is Ok,
            Err(e) => if e.status() == Some(404u16) {
                r is Ok
            } else {
                r == Err::<(), Error>(e)
            },
        },
{
    match sent {
        Ok(_) => Ok(()),
        Err(e) => match e.api_status() {
            Some(status) => if status == 404 {
                Ok(())
            } else {
                Err(e)
            },
            None => Err(e),
        },
    }
}

/// Whether a part of a `Link` header leads to the next page: one of its parameters is
/// `rel="next"`.
pub open spec fn leads_to_next(part: Seq<char>) -> bool {
    exists|j: int|
        1 <= j < split(part, ';').len() && trim(#[trigger] split(part, ';')[j])
            == "rel=\"next\""@
}

/// The URL in a part of a `Link` header, without the brackets around it.
pub open spec fn link_target(part: Seq<char>) -> Seq<char> {
    strip_end(
        strip_start(trim(split(part, ';')[0]), |c: char| c == '<'),
        |c: char| c == '>',
    )
}

/// The target of the first part that leads to the next page.
pub open spec fn first_next(parts: Seq<Seq<char>>) -> Option<Seq<char>>
    decreases parts.len(),
{
    if parts.len() == 0 {
        None
    } else if leads_to_next(parts[0]) {
        Some(link_target(parts[0]))
    } else {
        first_next(parts.drop_first())
    }
}

/// The URL of the next page that a `Link` header names.
pub open spec fn next_page(link: Seq<char>) -> Option<Seq<char>> {
    first_next(split(link, ','))
}

/// The target of a part of a `Link` header, if it leads to the next page.
fn next_target(part: &Vec<char>) -> (r: Option<String>)
    ensures
        match r {
            Some(url) => leads_to_next(part@) && url@ == link_target(part@),
            None => !leads_to_next(part@),
        },
{
    let segments: Vec<Vec<char>> = pieces(part, ';');
    let ghost all = split(part@, ';');
    proof {
        lemma_split_nonempty(part@, ';');
        assert(spelled(segments@)[0] == segments@[0]@);
    }
    let mut j: usize = 1;
    while j < segments.len()
        invariant
            spelled(segments@) == all,
            all == split(part@, ';'),
            all.len() > 0,
            all[0] == segments@[0]@,
            1 <= j <= segments@.len(),
            forall|k: int| 1 <= k < j ==> trim(#[trigger] all[k]) != "rel=\"next\""@,
        decreases segments@.len() - j,
    {
        assert(spelled(segments@)[j as int] == segments@[j as int]@);
        if same_chars(&trimmed(&segments[j]), &chars_of("rel=\"next\"")) {
            assert(trim(split(part@, ';')[j as int]) == "rel=\"next\""@);
            let target: Vec<char> = trimmed(&segments[0]);
            let url: Vec<char> = without_back(&without_front(&target, '<'), '>');
            return Some(string_of(&url));
        }
        j = j + 1;
    }
    None
}

/// The URL of the next page, given the `Link` header of a page, if it has one.
pub fn next_page_url(link: Option<&str>) -> (r: Option<String>)
    ensures
        match link {
            Some(l) => match r {
                Some(url) => next_page(l@) == Some(url@),
                None => next_page(l@) is None,
            },
            None => r is None,
        },
{
    let text: &str = match link {
        Some(l) => l,
        None => {
            return None;
        },
    };
    let parts: Vec<Vec<char>> = pieces(&chars_of(text), ',');
    let ghost all = split(text@, ',');
    assert(all.skip(0) =~= all);
    for i in 0..parts.len()
        invariant
            link == Some(text),
            all == split(text@, ','),
            spelled(parts@) == all,
            first_next(all.skip(i as int)) == first_next(all),
    {
        let ghost part = parts@[i as int]@;
        assert(spelled(parts@)[i as int] == part);
        assert(all.skip(i as int)[0] == part);
        assert(all.skip(i as int).drop_first() =~= all.skip(i as int + 1));
        if let Some(url) = next_target(&parts[i]) {
            return Some(url);
        }
    }
    assert(all.skip(all.len() as int) =~= Seq::<Seq<char>>::empty());
    None
}

/// The reading of a list page by page: what has been read, and where the next page is.
pub struct Pages<T> {
    pub items: Vec<T>,
    pub next: Option<String>,
}

impl<T> Pages<T> {
    /// Nothing read yet.
    pub fn new(first_url: String) -> (r: Pages<T>)
        ensures
            r.items@ == Seq::<T>::empty(),
            r.next == Some(first_url),
    {
        Pages { items: Vec::new(), next: Some(first_url) }
    }

    /// Take in a page and its `Link` header, if it has one: its items come after those read
    /// before, and the reading goes on where the header leads to a next page.
    pub fn absorb(&mut self, page: Vec<T>, link: Option<&str>)
        ensures
            final(self).items@ == old(self).items@ + page@,
            opt_text(final(self).next) == match link {
                Some(l) => next_page(l@),
                None => None,
            },
    {
        let mut more: Vec<T> = page;
        self.items.append(&mut more);
        self.next = next_page_url(link);
    }
}

/// The number that a hexadecimal digit in upper case spells.
pub open spec fn hex_value(c: char) -> int {
    if '0' <= c <= '9' {
        c as int - 48
    } else {
        c as int - 55
    }
}

/// The bytes that a segment of a path stands for: `%` and two hexadecimal digits for one byte, any
/// other character for itself.
pub open spec fn decoded_bytes(t: Seq<char>) -> Seq<u8>
    decreases t.len(),
{
    if t.len() == 0 {
        Seq::empty()
    } else if t[0] == '%' && t.len() >= 3 {
        seq![(hex_value(t[1]) * 16 + hex_value(t[2])) as u8] + decoded_bytes(t.skip(3))
    } else {
        seq![t[0] as u8] + decoded_bytes(t.skip(1))
    }
}

proof fn lemma_decoded_bytes(bytes: Seq<u8>)
    ensures
        decoded_bytes(encoded_bytes(bytes)) == bytes,
    decreases bytes.len(),
{
    if bytes.len() > 0 {
        let b = bytes[0];
        let rest = bytes.drop_first();
        let t = encoded_bytes(bytes);
        lemma_decoded_bytes(rest);
        if is_unreserved(b) {
            assert(t.skip(1) =~= encoded_bytes(rest));
            assert(t[0] == b as char);
        } else {
            assert(t.skip(3) =~= encoded_bytes(rest));
            assert(t[1] == hex_digit(b as int / 16) && t[2] == hex_digit(b as int % 16));
            assert(hex_value(t[1]) == b as int / 16 && hex_value(t[2]) == b as int % 16);
        }
        assert(seq![b] + rest =~= bytes);
    } else {
        assert(bytes =~= Seq::<u8>::empty());
    }
}

/// Whether `c` can occur in an encoded segment.
pub open spec fn is_segment_char(c: char) -> bool {
    c == '%' || ('\0' <= c <= '\u{7f}' && is_unreserved(c as u8))
}

proof fn lemma_encoded_chars(bytes: Seq<u8>)
    ensures
        forall|i: int|
            0 <= i < encoded_bytes(bytes).len() ==> is_segment_char(
                #[trigger] encoded_bytes(bytes)[i],
            ),
    decreases bytes.len(),
{
    if bytes.len() > 0 {
        lemma_encoded_chars(bytes.drop_first());
        let b = bytes[0];
        let rest = encoded_bytes(bytes.drop_first());
        assert forall|i: int| 0 <= i < encoded_bytes(bytes).len() implies is_segment_char(
            #[trigger] encoded_bytes(bytes)[i],
        ) by {
            let first = encoded_byte(b);
            if i < first.len() {
                assert(encoded_bytes(bytes)[i] == first[i]);
            } else {
                assert(encoded_bytes(bytes)[i] == rest[i - first.len()]);
            }
        }
    }
}

/// Decoding an encoded segment gives the text back, so that no two texts have the same encoding.
pub proof fn law_segment_decodes(s: Seq<char>)
    ensures
        decode_utf8(decoded_bytes(encoded_segment(s))) == s,
{
    lemma_decoded_bytes(encode_utf8(s));
    vstd::utf8::encode_utf8_decode_utf8(s);
}

/// An encoded segment holds unreserved characters and `%` only: no `/` ends it early, and no `?`
/// or `#` ends the path.
pub proof fn law_segment_is_one_segment(s: Seq<char>)
    ensures
        forall|i: int|
            0 <= i < encoded_segment(s).len() ==> is_segment_char(#[trigger] encoded_segment(s)[i]),
        !encoded_segment(s).contains('/'),
        !encoded_segment(s).contains('?'),
        !encoded_segment(s).contains('#'),
{
    lemma_encoded_chars(encode_utf8(s));
}

/// Unreserved characters stand for themselves.
pub proof fn law_unreserved_unchanged(s: Seq<char>)
    requires
        forall|i: int|
            0 <= i < s.len() ==> 'A' <= #[trigger] s[i] <= 'Z' || 'a' <= s[i] <= 'z' || '0' <= s[i]
                <= '9' || s[i] == '-' || s[i] == '.' || s[i] == '_' || s[i] == '~',
    ensures
        encoded_segment(s) == s,
{
    assert(vstd::utf8::is_ascii_chars(s)) by {
        assert forall|i: int| 0 <= i < s.len() implies '\0' <= #[trigger] s[i] <= '\u{7f}' by {
            assert('A' <= s[i] <= 'Z' || 'a' <= s[i] <= 'z' || '0' <= s[i] <= '9' || s[i] == '-'
                || s[i] == '.' || s[i] == '_' || s[i] == '~');
        }
    }
    vstd::utf8::is_ascii_chars_encode_utf8(s);
    lemma_unreserved_bytes(encode_utf8(s));
    assert(encoded_segment(s) =~= s);
}

proof fn lemma_unreserved_bytes(bytes: Seq<u8>)
    requires
        forall|i: int| 0 <= i < bytes.len() ==> is_unreserved(#[trigger] bytes[i]),
    ensures
        encoded_bytes(bytes) == Seq::new(bytes.len(), |i: int| bytes[i] as char),
    decreases bytes.len(),
{
    if bytes.len() > 0 {
        let rest = bytes.drop_first();
        assert forall|i: int| 0 <= i < rest.len() implies is_unreserved(#[trigger] rest[i]) by {
            assert(rest[i] == bytes[i + 1]);
        }
        lemma_unreserved_bytes(rest);
        assert(is_unreserved(bytes[0]));
    }
    assert(encoded_bytes(bytes) =~= Seq::new(bytes.len(), |i: int| bytes[i] as char));
}

/// Different versions of an owner's packages are in different places, so that a deletion reaches
/// the version that it is meant for.
pub proof fn law_versions_apart(
    api_base: Seq<char>,
    owner_type: OwnerType,
    owner: Seq<char>,
    package: Seq<char>,
    id: u64,
    other_package: Seq<char>,
    other_id: u64,
)
    requires
        version_url(api_base, owner_type, owner, package, id) == version_url(
            api_base,
            owner_type,
            owner,
            other_package,
            other_id,
        ),
    ensures
        package == other_package,
        id == other_id,
{
    let front = owner_url(api_base, owner_type, owner) + "/container"@;
    lemma_version_url_pieces(api_base, owner_type, owner, package, id);
    lemma_version_url_pieces(api_base, owner_type, owner, other_package, other_id);
    let a = split(front, '/').push(encoded_segment(package)).push("versions"@).push(
        decimal(id as nat),
    );
    let b = split(front, '/').push(encoded_segment(other_package)).push("versions"@).push(
        decimal(other_id as nat),
    );
    assert(a == b);
    assert(a.last() == b.last());
    assert(a[a.len() - 3] == b[b.len() - 3]);
    lemma_decimal_digits(id as nat);
    lemma_decimal_digits(other_id as nat);
    law_segment_decodes(package);
    law_segment_decodes(other_package);
}

/// The pieces of the place of a version between its slashes.
proof fn lemma_version_url_pieces(
    api_base: Seq<char>,
    owner_type: OwnerType,
    owner: Seq<char>,
    package: Seq<char>,
    id: u64,
)
    ensures
        split(version_url(api_base, owner_type, owner, package, id), '/') == split(
            owner_url(api_base, owner_type, owner) + "/container"@,
            '/',
        ).push(encoded_segment(package)).push("versions"@).push(decimal(id as nat)),
{
    reveal_strlit("/container");
    reveal_strlit("/container/");
    reveal_strlit("/versions/");
    reveal_strlit("versions");
    let base = owner_url(api_base, owner_type, owner);
    let front = base + "/container"@;
    let segment = encoded_segment(package);
    let number = decimal(id as nat);
    lemma_decimal_digits(id as nat);
    law_segment_is_one_segment(package);
    assert(!number.contains('/')) by {
        assert forall|i: int| 0 <= i < number.len() implies number[i] != '/' by {
            assert(is_ascii_digit(number[i]));
        }
    }
    let one = front + seq!['/'] + segment;
    let two = one + seq!['/'] + "versions"@;
    let three = two + seq!['/'] + number;
    lemma_split_append(front, '/', segment);
    lemma_split_append(one, '/', "versions"@);
    lemma_split_append(two, '/', number);
    assert(base + "/container/"@ =~= front + seq!['/']);
    assert("/versions/"@ =~= seq!['/'] + "versions"@ + seq!['/']);
    assert(version_url(api_base, owner_type, owner, package, id) =~= three);
}

/// A `Link` header that begins with a URL in brackets and says that it is the next page leads to
/// that URL, whatever other links follow.
pub proof fn law_next_link_reads_back(url: Seq<char>, others: Seq<char>)
    requires
        !url.contains(','),
        !url.contains(';'),
        url.len() > 0 ==> url[0] != '<' && url.last() != '>',
        others.len() > 0 ==> others[0] == ',',
    ensures
        next_page("<"@ + url + ">; rel=\"next\""@ + others) == Some(url),
{
    reveal_strlit("<");
    reveal_strlit(">; rel=\"next\"");
    reveal_strlit("rel=\"next\"");
    let bracketed = seq!['<'] + url + seq!['>'];
    let relation = seq![' '] + "rel=\"next\""@;
    let part = "<"@ + url + ">; rel=\"next\""@;
    let link = part + others;
    assert(part =~= bracketed + seq![';'] + relation);
    assert(!part.contains(',')) by {
        assert forall|i: int| 0 <= i < part.len() implies part[i] != ',' by {
            if 1 <= i < 1 + url.len() {
                assert(part[i] == url[i - 1]);
                assert(url.contains(part[i]));
            }
        }
    }
    assert(!bracketed.contains(';')) by {
        assert forall|i: int| 0 <= i < bracketed.len() implies bracketed[i] != ';' by {
            if 1 <= i < 1 + url.len() {
                assert(bracketed[i] == url[i - 1]);
                assert(url.contains(bracketed[i]));
            }
        }
    }
    assert(!relation.contains(';'));
    lemma_split_free(bracketed, ';');
    lemma_split_append(bracketed, ';', relation);
    let segments = split(part, ';');
    assert(segments =~= seq![bracketed, relation]);
    if others.len() > 0 {
        assert(link =~= part + seq![','] + others.drop_first());
        lemma_split_prepend(part, ',', others.drop_first());
    } else {
        assert(link =~= part);
        lemma_split_free(part, ',');
    }
    assert(split(link, ',')[0] == part);

    let white = |c: char| is_white(c);
    reveal_with_fuel(strip_start, 3);
    reveal_with_fuel(strip_end, 3);
    assert(relation.drop_first() =~= "rel=\"next\""@);
    assert(strip_start(relation, white) == "rel=\"next\""@);
    assert(trim(relation) == "rel=\"next\""@);
    assert(trim(segments[1]) == "rel=\"next\""@);
    assert(leads_to_next(part));

    assert(trim(bracketed) == bracketed);
    let open = |c: char| c == '<';
    let close = |c: char| c == '>';
    let rest = url + seq!['>'];
    assert(bracketed.drop_first() =~= rest);
    assert(rest[0] != '<');
    assert(strip_start(bracketed, open) == rest);
    assert(rest.drop_last() =~= url);
    assert(strip_end(rest, close) == url);
}

/// A text is encoded byte by byte: letters, digits, `-`, `.`, `_` and `~` stand for themselves, and
/// any other byte is `%` and its two hexadecimal digits in upper case.
pub proof fn law_encoding_byte_by_byte(s: Seq<char>, front: Seq<u8>, b: u8)
    ensures
        encoded_segment(s) == encoded_bytes(encode_utf8(s)),
        encoded_bytes(Seq::empty()) == Seq::<char>::empty(),
        ({
            let code = encoded_bytes(front.push(b)).skip(encoded_bytes(front).len() as int);
            let plain = 0x41 <= b <= 0x5a || 0x61 <= b <= 0x7a || 0x30 <= b <= 0x39 || b == 0x2d || b
                == 0x2e || b == 0x5f || b == 0x7e;
            let high = b as int / 16;
            let low = b as int % 16;
            &&& encoded_bytes(front.push(b)).take(encoded_bytes(front).len() as int)
                == encoded_bytes(front)
            &&& plain ==> code == seq![b as char]
            &&& !plain ==> code.len() == 3 && code[0] == '%'
            &&& !plain ==> code[1] as int == if high < 10 {
                '0' as int + high
            } else {
                'A' as int + (high - 10)
            }
            &&& !plain ==> code[2] as int == if low < 10 {
                '0' as int + low
            } else {
                'A' as int + (low - 10)
            }
        }),
{
    lemma_encoded_push(front, b);
    let whole = encoded_bytes(front.push(b));
    let n = encoded_bytes(front).len() as int;
    assert(whole.take(n) =~= encoded_bytes(front));
    assert(whole.skip(n) =~= encoded_byte(b));
}

proof fn lemma_encoded_push(front: Seq<u8>, b: u8)
    ensures
        encoded_bytes(front.push(b)) == encoded_bytes(front) + encoded_byte(b),
    decreases front.len(),
{
    if front.len() > 0 {
        let rest = front.drop_first();
        lemma_encoded_push(rest, b);
        assert(front.push(b).drop_first() =~= rest.push(b));
        assert(encoded_bytes(front.push(b)) =~= encoded_bytes(front) + encoded_byte(b));
    } else {
        assert(front.push(b).drop_first() =~= front);
        assert(encoded_bytes(front) =~= Seq::<char>::empty());
        assert(encoded_bytes(front.push(b)) =~= encoded_bytes(front) + encoded_byte(b));
    }
}

/// Where the packages of an owner, a package, and a version of it are.
pub proof fn law_places(
    base: Seq<char>,
    owner_type: OwnerType,
    owner: Seq<char>,
    package: Seq<char>,
    id: u64,
)
    ensures
        ({
            let kind = match owner_type {
                OwnerType::User => "users"@,
                OwnerType::Organization => "orgs"@,
            };
            let all = base + "/"@ + kind + "/"@ + owner + "/packages"@;
            let one = all + "/container/"@ + encoded_segment(package);
            &&& owner_url(base, owner_type, owner) == all
            &&& package_url(base, owner_type, owner, package) == one
            &&& version_url(base, owner_type, owner, package, id) == one + "/versions/"@ + decimal(
                id as nat,
            )
        }),
{
}

/// Packages give their names, and answers their versions, one by one, with nothing left out.
pub proof fn law_answers_one_by_one(packages: Seq<Package>, versions: Seq<PackageVersion>)
    ensures
        names_of(packages).len() == packages.len(),
        forall|i: int|
            0 <= i < packages.len() ==> #[trigger] names_of(packages)[i] == packages[i].name@,
        versions_in(versions).len() == versions.len(),
        forall|i: int|
            0 <= i < versions.len() ==> {
                let v = #[trigger] versions_in(versions)[i];
                let a = versions[i];
                v.id == a.id && v.digest == a.name@ && v.created_at == a.created_at && v.tags
                    == tags_of(a)
            },
{
}

/// The next page is found wherever it stands in the header: it is the target of the first part that
/// has the parameter `rel="next"`. Only where no part has it, there is none.
pub proof fn law_next_page_wherever_it_stands(link: Seq<char>, i: int)
    ensures
        ({
            let parts = split(link, ',');
            let next = |p: Seq<char>|
                exists|j: int|
                    1 <= j < split(p, ';').len() && trim(#[trigger] split(p, ';')[j])
                        == "rel=\"next\""@;
            &&& 0 <= i < parts.len() && next(parts[i]) && (forall|k: int|
                0 <= k < i ==> !next(#[trigger] parts[k])) ==> next_page(link) == Some(
                link_target(parts[i]),
            )
            &&& next_page(link) is None <==> forall|k: int|
                0 <= k < parts.len() ==> !next(#[trigger] parts[k])
        }),
{
    let parts = split(link, ',');
    let next = |p: Seq<char>|
        exists|j: int|
            1 <= j < split(p, ';').len() && trim(#[trigger] split(p, ';')[j]) == "rel=\"next\""@;
    assert forall|p: Seq<char>| #[trigger] next(p) == leads_to_next(p) by {}
    lemma_first_next(parts, i);
    if next_page(link) is None {
        assert forall|k: int| 0 <= k < parts.len() implies !next(#[trigger] parts[k]) by {
            assert(!leads_to_next(parts[k]));
        }
    } else if forall|k: int| 0 <= k < parts.len() ==> !next(#[trigger] parts[k]) {
        assert forall|k: int| 0 <= k < parts.len() implies !leads_to_next(#[trigger] parts[k]) by {
            assert(!next(parts[k]));
        }
    }
    if 0 <= i < parts.len() && next(parts[i]) && (forall|k: int|
        0 <= k < i ==> !next(#[trigger] parts[k])) {
        assert forall|k: int| 0 <= k < i implies !leads_to_next(#[trigger] parts[k]) by {
            assert(!next(parts[k]));
        }
    }
}

proof fn lemma_first_next(parts: Seq<Seq<char>>, i: int)
    ensures
        0 <= i < parts.len() && leads_to_next(parts[i]) && (forall|k: int|
            0 <= k < i ==> !leads_to_next(#[trigger] parts[k])) ==> first_next(parts) == Some(
            link_target(parts[i]),
        ),
        first_next(parts) is None <==> forall|k: int|
            0 <= k < parts.len() ==> !leads_to_next(#[trigger] parts[k]),
    decreases parts.len(),
{
    if parts.len() > 0 && !leads_to_next(parts[0]) {
        let rest = parts.drop_first();
        lemma_first_next(rest, i - 1);
        assert forall|k: int| 0 <= k < rest.len() implies #[trigger] rest[k] == parts[k + 1] by {}
        if forall|k: int| 0 <= k < i ==> !leads_to_next(#[trigger] parts[k]) {
            assert forall|k: int| 0 <= k < i - 1 && k < rest.len() implies !leads_to_next(
                #[trigger] rest[k],
            ) by {
                assert(!leads_to_next(parts[k + 1]));
            }
        }
        if forall|k: int| 0 <= k < rest.len() ==> !leads_to_next(#[trigger] rest[k]) {
            assert forall|k: int| 0 <= k < parts.len() implies !leads_to_next(
                #[trigger] parts[k],
            ) by {
                if k > 0 {
                    assert(!leads_to_next(rest[k - 1]));
                }
            }
        }
        if forall|k: int| 0 <= k < parts.len() ==> !leads_to_next(#[trigger] parts[k]) {
            assert forall|k: int| 0 <= k < rest.len() implies !leads_to_next(#[trigger] rest[k]) by {
                assert(!leads_to_next(parts[k + 1]));
            }
        }
    }
}

/// The target of a part of the header is what stands before its first semicolon, without white space
/// around it, and then without `<` at its front and `>` at its back.
pub proof fn law_target_of_a_link(part: Seq<char>)
    ensures
        ({
            let field = trim(split(part, ';')[0]);
            let target = link_target(part);
            &&& target.len() > 0 ==> target[0] != '<' && target.last() != '>'
            &&& exists|from: int|
                {
                    &&& 0 <= from <= from + target.len() <= field.len()
                    &&& target == #[trigger] field.subrange(from, from + target.len())
                    &&& forall|i: int| 0 <= i < from ==> #[trigger] field[i] == '<'
                    &&& forall|i: int|
                        from + target.len() <= i < field.len() ==> #[trigger] field[i] == '>'
                }
        }),
{
    let field = trim(split(part, ';')[0]);
    let open = |c: char| c == '<';
    let close = |c: char| c == '>';
    let t = strip_start(field, open);
    let target = link_target(part);
    law_stripped_front(field, open);
    law_stripped_back(t, close);
    let from = field.len() - t.len();
    assert(target =~= field.subrange(from, from + target.len()));
    assert forall|i: int| 0 <= i < from implies #[trigger] field[i] == '<' by {
        assert(open(field[i]));
    }
    assert forall|i: int| from + target.len() <= i < field.len() implies #[trigger] field[i]
        == '>' by {
        assert(t[i - from] == field[i]);
        assert(close(t[i - from]));
    }
    if target.len() > 0 {
        assert(target[0] == t[0]);
    }
}

} // verus!
