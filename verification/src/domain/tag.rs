//! Tag classification.
//!
//! A build pushes the tag `<short-sha>-<TIMESTAMP>`. The fourteen digits of `TIMESTAMP` are
//! year, month, day, hour, the month again, and hundredths of a second, which is why real tags
//! show "seconds" such as 83 (`afef854e-20260704210783`). They are no date and time.
//!
//! So a tag is never read as a time (the age of a version is that of its creation). It is
//! classified by its shape, and only the stable prefix (a year 20xx, a month, a day, an hour)
//! is held to its range. The last four digits are left free: should the format be corrected
//! one day, tags of both kinds are still build tags.

use crate::text::texts;
use vstd::prelude::*;

verus! {

/// The shape of a build tag: seven to forty hexadecimal digits in lower case, a hyphen, `20`
/// and two digits, three groups of two digits, and four digits more.
pub const BUILD_TAG_PATTERN: &'static str = r"^[0-9a-f]{7,40}-(20\d{2})(\d{2})(\d{2})(\d{2})\d{4}$";

/// How a package version relates to pruning, derived from its tags.
#[derive(Debug, Clone, Copy, PartialEq, Eq, Structural)]
pub enum Classification {
    /// Carries at least one tag that is no build tag. Never deleted.
    Protected,
    /// Every tag is a build tag. Counts toward the minimum that is kept, and can be pruned by
    /// its age.
    Build,
    /// No tags at all: a child of a multi-arch image, an attestation, or an orphan.
    Untagged,
}

/// Whether `c` is a hexadecimal digit in lower case.
pub open spec fn is_hex_digit(c: char) -> bool {
    '0' <= c <= '9' || 'a' <= c <= 'f'
}

/// Whether a character beyond ASCII is in the class `\d` of the `regex` crate, the decimal
/// digits of all scripts.
pub uninterp spec fn is_foreign_digit(c: char) -> bool;

/// Whether `c` is a decimal digit: one of `0` to `9`, or one of another script, as `foreign`
/// tells them.
pub open spec fn is_decimal_digit(c: char, foreign: spec_fn(char) -> bool) -> bool {
    '0' <= c <= '9' || (c > '\u{7f}' && foreign(c))
}

/// Whether `t` has the shape that [`BUILD_TAG_PATTERN`] describes. All but the last fifteen
/// characters are the hash.
pub open spec fn has_build_shape(t: Seq<char>, foreign: spec_fn(char) -> bool) -> bool {
    let n = t.len() - 15;
    &&& 7 <= n <= 40
    &&& forall|i: int| 0 <= i < n ==> is_hex_digit(#[trigger] t[i])
    &&& t[n] == '-'
    &&& t[n + 1] == '2'
    &&& t[n + 2] == '0'
    &&& forall|i: int| n + 3 <= i < t.len() ==> is_decimal_digit(#[trigger] t[i], foreign)
}

/// The number that two digits `0` to `9` spell, if they are such.
pub open spec fn two_digits(s: Seq<char>) -> Option<int> {
    if s.len() == 2 && '0' <= s[0] <= '9' && '0' <= s[1] <= '9' {
        Some((s[0] as int - 48) * 10 + (s[1] as int - 48))
    } else {
        None
    }
}

/// Whether `t` is a build tag: it has the shape, and its month, day and hour are in range.
pub open spec fn build_tag(t: Seq<char>) -> bool {
    let n = t.len() - 15;
    &&& has_build_shape(t, |c: char| is_foreign_digit(c))
    &&& two_digits(t.subrange(n + 5, n + 7)) matches Some(month) && 1 <= month <= 12
    &&& two_digits(t.subrange(n + 7, n + 9)) matches Some(day) && 1 <= day <= 31
    &&& two_digits(t.subrange(n + 9, n + 11)) matches Some(hour) && hour <= 23
}

/// The class of a version with the given tags.
pub open spec fn class_of(tags: Seq<Seq<char>>) -> Classification {
    if tags.len() == 0 {
        Classification::Untagged
    } else if forall|i: int| 0 <= i < tags.len() ==> build_tag(#[trigger] tags[i]) {
        Classification::Build
    } else {
        Classification::Protected
    }
}

/// Calls `regex::Regex::captures` with the expression that the pattern spells, and gives the
/// texts of its four groups: year, month, day and hour. `[0-9a-f]{7,40}` and `\d{n}` match that
/// many characters of their class, `^` and `$` hold the match to the whole text, and a group
/// captures what it matched. As no hexadecimal digit is a hyphen, a text matches in one way.
#[verifier::external_body]
fn build_tag_groups(pattern: &str, text: &str) -> (r: Option<(String, String, String, String)>)
    requires
        pattern@ == BUILD_TAG_PATTERN@,
    ensures
        r is Some <==> has_build_shape(text@, |c: char| is_foreign_digit(c)),
        r matches Some(groups) ==> {
            let n = text@.len() - 15;
            &&& groups.0@ == text@.subrange(n + 1, n + 5)
            &&& groups.1@ == text@.subrange(n + 5, n + 7)
            &&& groups.2@ == text@.subrange(n + 7, n + 9)
            &&& groups.3@ == text@.subrange(n + 9, n + 11)
        },
{
    let expression = regex::Regex::new(pattern).unwrap();
    expression.captures(text).map(
        |c| (c[1].to_string(), c[2].to_string(), c[3].to_string(), c[4].to_string()),
    )
}

/// The number that a text of two digits `0` to `9` spells.
fn two_digit_number(s: &String) -> (r: Option<u32>)
    ensures
        match r {
            Some(n) => two_digits(s@) == Some(n as int),
            None => two_digits(s@) is None,
        },
{
    let t: &str = s.as_str();
    if t.unicode_len() != 2 {
        return None;
    }
    let tens: char = t.get_char(0);
    let units: char = t.get_char(1);
    if '0' <= tens && tens <= '9' && '0' <= units && units <= '9' {
        Some((tens as u32 - 48) * 10 + (units as u32 - 48))
    } else {
        None
    }
}

/// Whether `tag` is a build tag.
pub fn is_build_tag(tag: &str) -> (r: bool)
    ensures
        r == build_tag(tag@),
{
    match build_tag_groups(BUILD_TAG_PATTERN, tag) {
        Some(groups) => {
            let month: Option<u32> = two_digit_number(&groups.1);
            let day: Option<u32> = two_digit_number(&groups.2);
            let hour: Option<u32> = two_digit_number(&groups.3);
            let month: u32 = month.unwrap_or(0);
            let day: u32 = day.unwrap_or(0);
            let hour: u32 = hour.unwrap_or(99);
            1 <= month && month <= 12 && 1 <= day && day <= 31 && hour <= 23
        },
        None => false,
    }
}

/// Classify a version from its tags. Without tags it is `Untagged`; where every tag is a build
/// tag it is `Build`; one tag of another kind is enough to make it `Protected`.
pub fn classify(tags: &[String]) -> (r: Classification)
    ensures
        r == class_of(texts(tags@)),
{
    if tags.len() == 0 {
        return Classification::Untagged;
    }
    for i in 0..tags.len()
        invariant
            forall|j: int| 0 <= j < i ==> build_tag(#[trigger] texts(tags@)[j]),
    {
        if !is_build_tag(tags[i].as_str()) {
            assert(!build_tag(texts(tags@)[i as int]));
            return Classification::Protected;
        }
    }
    Classification::Build
}

/// A single tag that is no build tag protects a version, whatever its other tags.
pub proof fn law_one_text_tag_protects(tags: Seq<Seq<char>>, tag: Seq<char>)
    requires
        tags.contains(tag),
        !build_tag(tag),
    ensures
        class_of(tags) == Classification::Protected,
{
    let k = choose|k: int| 0 <= k < tags.len() && tags[k] == tag;
    assert(!build_tag(tags[k]));
}

/// The class of a version does not depend on the order of its tags, nor on how often one occurs.
pub proof fn law_class_depends_on_the_set_of_tags(a: Seq<Seq<char>>, b: Seq<Seq<char>>)
    requires
        a.to_set() == b.to_set(),
    ensures
        class_of(a) == class_of(b),
{
    lemma_class_of_subset(a, b);
    lemma_class_of_subset(b, a);
}

proof fn lemma_class_of_subset(a: Seq<Seq<char>>, b: Seq<Seq<char>>)
    requires
        a.to_set() == b.to_set(),
    ensures
        class_of(a) == Classification::Untagged ==> class_of(b) == Classification::Untagged,
        class_of(a) == Classification::Protected ==> class_of(b) == Classification::Protected,
{
    if a.len() == 0 && b.len() > 0 {
        assert(b.to_set().contains(b[0]));
        assert(a.contains(b[0]));
    }
    if class_of(a) == Classification::Protected {
        let k = choose|k: int| 0 <= k < a.len() && !build_tag(#[trigger] a[k]);
        assert(a.to_set().contains(a[k]));
        assert(b.contains(a[k]));
        law_one_text_tag_protects(b, a[k]);
    }
}

/// The last four digits of a build tag are free: any digits in their place make a build tag too.
pub proof fn law_last_digits_are_free(t: Seq<char>, u: Seq<char>)
    requires
        build_tag(t),
        u.len() == t.len(),
        u.take(t.len() - 4) == t.take(t.len() - 4),
        forall|i: int|
            t.len() - 4 <= i < t.len() ==> is_decimal_digit(
                #[trigger] u[i],
                |c: char| is_foreign_digit(c),
            ),
    ensures
        build_tag(u),
{
    let n = t.len() - 15;
    let foreign = |c: char| is_foreign_digit(c);
    assert forall|i: int| 0 <= i < t.len() - 4 implies u[i] == t[i] by {
        assert(u.take(t.len() - 4)[i] == t.take(t.len() - 4)[i]);
    }
    assert forall|i: int| 0 <= i < n implies is_hex_digit(#[trigger] u[i]) by {
        assert(is_hex_digit(t[i]));
    }
    assert forall|i: int| n + 3 <= i < u.len() implies is_decimal_digit(
        #[trigger] u[i],
        foreign,
    ) by {
        if i < t.len() - 4 {
            assert(is_decimal_digit(t[i], foreign));
        }
    }
    assert(u.subrange(n + 5, n + 7) =~= t.subrange(n + 5, n + 7));
    assert(u.subrange(n + 7, n + 9) =~= t.subrange(n + 7, n + 9));
    assert(u.subrange(n + 9, n + 11) =~= t.subrange(n + 9, n + 11));
}

/// A build tag has one hyphen, fifteen characters from its end, and no dot, slash, colon or
/// capital letter. So a version number, a `.sig` and most names of branches are no build tags.
pub proof fn law_build_tag_alphabet(t: Seq<char>)
    requires
        build_tag(t),
    ensures
        22 <= t.len() <= 55,
        forall|i: int| 0 <= i < t.len() ==> ((#[trigger] t[i]) == '-' <==> i == t.len() - 15),
        forall|i: int|
            0 <= i < t.len() ==> (#[trigger] t[i]) != '.' && t[i] != '/' && t[i] != ':' && !('A'
                <= t[i] <= 'Z'),
{
    let n = t.len() - 15;
    let foreign = |c: char| is_foreign_digit(c);
    assert forall|i: int| 0 <= i < t.len() implies ((#[trigger] t[i]) == '-' <==> i == t.len() - 15)
        && t[i] != '.' && t[i] != '/' && t[i] != ':' && !('A' <= t[i] <= 'Z') by {
        if i < n {
            assert(is_hex_digit(t[i]));
        } else if i >= n + 3 {
            assert(is_decimal_digit(t[i], foreign));
        }
    }
}

/// The class of a version, for every list of tags: untagged without any, build where every tag is a
/// build tag, and protected where some tag is not.
pub proof fn law_class_of_tags(tags: Seq<Seq<char>>)
    ensures
        class_of(tags) == Classification::Untagged <==> tags.len() == 0,
        class_of(tags) == Classification::Build <==> tags.len() > 0 && forall|i: int|
            0 <= i < tags.len() ==> build_tag(#[trigger] tags[i]),
        class_of(tags) == Classification::Protected <==> exists|i: int|
            0 <= i < tags.len() && !build_tag(#[trigger] tags[i]),
{
}

/// One tag more keeps the class of a version, but for two cases: the first tag ends its being
/// untagged, and a tag that is no build tag makes it protected.
pub proof fn law_class_with_one_tag_more(tags: Seq<Seq<char>>, tag: Seq<char>)
    ensures
        class_of(tags.push(tag)) == if !build_tag(tag) {
            Classification::Protected
        } else if tags.len() == 0 {
            Classification::Build
        } else {
            class_of(tags)
        },
{
    let more = tags.push(tag);
    assert(more[tags.len() as int] == tag);
    assert forall|i: int| 0 <= i < tags.len() implies more[i] == #[trigger] tags[i] by {}
    law_class_of_tags(tags);
    law_class_of_tags(more);
    if class_of(tags) == Classification::Protected {
        let k = choose|k: int| 0 <= k < tags.len() && !build_tag(#[trigger] tags[k]);
        assert(!build_tag(more[k]));
    } else if build_tag(tag) {
        assert forall|i: int| 0 <= i < more.len() implies build_tag(#[trigger] more[i]) by {
            if i < tags.len() {
                assert(build_tag(tags[i]));
            }
        }
    }
}

/// What a build tag is, character by character: 7 to 40 lower-case hexadecimal digits, a hyphen, a
/// year from 2000 on, a month from 01 to 12, a day from 01 to 31, an hour from 00 to 23, and four
/// digits more. The last two digits of the year and the last four of the tag may be of any script.
pub proof fn law_build_tag_by_character(t: Seq<char>)
    ensures
        build_tag(t) <==> {
            let n = t.len() - 15;
            &&& 7 <= n <= 40
            &&& forall|i: int|
                0 <= i < n ==> '0' <= #[trigger] t[i] <= '9' || 'a' <= t[i] <= 'f'
            &&& t[n] == '-' && t[n + 1] == '2' && t[n + 2] == '0'
            &&& forall|i: int|
                n + 3 <= i < n + 5 || n + 11 <= i < n + 15 ==> '0' <= #[trigger] t[i] <= '9' || (
                t[i] > '\u{7f}' && is_foreign_digit(t[i]))
            &&& forall|i: int| n + 5 <= i < n + 11 ==> '0' <= #[trigger] t[i] <= '9'
            &&& 1 <= (t[n + 5] as int - 48) * 10 + (t[n + 6] as int - 48) <= 12
            &&& 1 <= (t[n + 7] as int - 48) * 10 + (t[n + 8] as int - 48) <= 31
            &&& (t[n + 9] as int - 48) * 10 + (t[n + 10] as int - 48) <= 23
        },
{
    let n = t.len() - 15;
    let foreign = |c: char| is_foreign_digit(c);
    if 7 <= n <= 40 {
        assert(t.subrange(n + 5, n + 7)[0] == t[n + 5] && t.subrange(n + 5, n + 7)[1] == t[n + 6]);
        assert(t.subrange(n + 7, n + 9)[0] == t[n + 7] && t.subrange(n + 7, n + 9)[1] == t[n + 8]);
        assert(t.subrange(n + 9, n + 11)[0] == t[n + 9] && t.subrange(n + 9, n + 11)[1]
            == t[n + 10]);
        if build_tag(t) {
            assert forall|i: int| 0 <= i < n implies '0' <= #[trigger] t[i] <= '9' || 'a' <= t[i]
                <= 'f' by {
                assert(is_hex_digit(t[i]));
            }
            assert forall|i: int|
                n + 3 <= i < n + 5 || n + 11 <= i < n + 15 implies '0' <= #[trigger] t[i] <= '9' || (
            t[i] > '\u{7f}' && is_foreign_digit(t[i])) by {
                assert(is_decimal_digit(t[i], foreign));
            }
        } else if has_build_shape(t, foreign) {
        } else {
            if (forall|i: int|
                0 <= i < n ==> '0' <= #[trigger] t[i] <= '9' || 'a' <= t[i] <= 'f') && (forall|
                i: int,
            |
                n + 3 <= i < n + 5 || n + 11 <= i < n + 15 ==> '0' <= #[trigger] t[i] <= '9' || (
                t[i] > '\u{7f}' && is_foreign_digit(t[i]))) && (forall|i: int|
                n + 5 <= i < n + 11 ==> '0' <= #[trigger] t[i] <= '9') && t[n] == '-' && t[n + 1]
                == '2' && t[n + 2] == '0' {
                assert forall|i: int| 0 <= i < n implies is_hex_digit(#[trigger] t[i]) by {}
                assert forall|i: int| n + 3 <= i < t.len() implies is_decimal_digit(
                    #[trigger] t[i],
                    foreign,
                ) by {}
                assert(has_build_shape(t, foreign));
            }
        }
    }
}

} // verus!
