//! Text on sequences of characters: trimming, splitting, searching and decimal numerals.
//!
//! The specification functions work on `Seq<char>`, the view of `str` and `String`. The
//! executable functions beside them work on `Vec<char>`, so that a text can be indexed.

use vstd::prelude::*;
use vstd::utf8::is_ascii_chars;

verus! {

/// `String::push` appends one character.
pub assume_specification[ String::push ](s: &mut String, c: char)
    ensures
        final(s)@ == old(s)@.push(c),
;

/// The text that `{:?}` makes of a string: quoted, with some characters escaped.
pub uninterp spec fn debug_text(s: Seq<char>) -> Seq<char>;

/// The text that `str::to_lowercase` makes of a string.
pub uninterp spec fn lowercase_text(s: Seq<char>) -> Seq<char>;

/// Calls the `Debug` of `str`. Which characters it escapes, and how, is not stated.
#[verifier::external_body]
pub(crate) fn quoted(s: &str) -> (r: String)
    ensures
        r@ == debug_text(s@),
{
    format!("{s:?}")
}

/// Calls `str::to_lowercase`. On ASCII text it maps `A` to `Z` to `a` to `z` and leaves the rest;
/// what it does to other letters is not stated.
#[verifier::external_body]
pub(crate) fn lowercase(s: &str) -> (r: String)
    ensures
        r@ == lowercase_text(s@),
        is_ascii_chars(s@) ==> r@ == ascii_lowercase(s@),
{
    s.to_lowercase()
}

/// A letter `A` to `Z` in lower case, and any other character as it is.
pub open spec fn ascii_lower(c: char) -> char {
    if 'A' <= c <= 'Z' {
        (c as u32 + 32) as char
    } else {
        c
    }
}

/// ASCII text in lower case.
pub open spec fn ascii_lowercase(s: Seq<char>) -> Seq<char> {
    s.map_values(|c: char| ascii_lower(c))
}

/// The characters with the Unicode property `White_Space`.
pub open spec fn is_white(c: char) -> bool {
    ||| '\u{9}' <= c <= '\u{d}'
    ||| c == '\u{20}'
    ||| c == '\u{85}'
    ||| c == '\u{a0}'
    ||| c == '\u{1680}'
    ||| '\u{2000}' <= c <= '\u{200a}'
    ||| c == '\u{2028}'
    ||| c == '\u{2029}'
    ||| c == '\u{202f}'
    ||| c == '\u{205f}'
    ||| c == '\u{3000}'
}

/// `s` without the characters at its front that satisfy `drop`.
pub open spec fn strip_start(s: Seq<char>, drop: spec_fn(char) -> bool) -> Seq<char>
    decreases s.len(),
{
    if s.len() > 0 && drop(s[0]) {
        strip_start(s.drop_first(), drop)
    } else {
        s
    }
}

/// `s` without the characters at its back that satisfy `drop`.
pub open spec fn strip_end(s: Seq<char>, drop: spec_fn(char) -> bool) -> Seq<char>
    decreases s.len(),
{
    if s.len() > 0 && drop(s.last()) {
        strip_end(s.drop_last(), drop)
    } else {
        s
    }
}

/// `s` without white space at either end.
pub open spec fn trim(s: Seq<char>) -> Seq<char> {
    strip_end(strip_start(s, |c: char| is_white(c)), |c: char| is_white(c))
}

/// The characters of a text.
pub fn chars_of(s: &str) -> (r: Vec<char>)
    ensures
        r@ == s@,
{
    let mut r: Vec<char> = Vec::new();
    for c in it: s.chars()
        invariant
            r@ == s@.take(it.index() as int),
            it.seq() == s@,
    {
        r.push(c);
        assert(s@.take(it.index() as int + 1) =~= s@.take(it.index() as int).push(c));
    }
    assert(s@.take(s@.len() as int) =~= s@);
    r
}

/// The text that a vector of characters spells.
pub fn string_of(v: &Vec<char>) -> (r: String)
    ensures
        r@ == v@,
{
    let mut r: String = String::new();
    for i in 0..v.len()
        invariant
            r@ == v@.take(i as int),
    {
        r.push(v[i]);
        assert(v@.take(i as int + 1) =~= v@.take(i as int).push(v@[i as int]));
    }
    assert(v@.take(v@.len() as int) =~= v@);
    r
}

/// The pieces of `s` between the occurrences of `sep`: one piece more than there are separators.
pub open spec fn split(s: Seq<char>, sep: char) -> Seq<Seq<char>>
    decreases s.len(),
{
    if s.len() == 0 {
        seq![Seq::<char>::empty()]
    } else {
        let front = split(s.drop_last(), sep);
        if s.last() == sep {
            front.push(Seq::<char>::empty())
        } else {
            front.update(front.len() - 1, front.last().push(s.last()))
        }
    }
}

/// The parts one after the other, with `sep` between each two.
pub open spec fn join(parts: Seq<Seq<char>>, sep: Seq<char>) -> Seq<char>
    decreases parts.len(),
{
    if parts.len() == 0 {
        Seq::<char>::empty()
    } else if parts.len() == 1 {
        parts[0]
    } else {
        join(parts.drop_last(), sep) + sep + parts.last()
    }
}

/// Whether `needle` stands in `hay` as a run of consecutive characters.
pub open spec fn contains_run(hay: Seq<char>, needle: Seq<char>) -> bool {
    exists|i: int|
        0 <= i && i + needle.len() <= hay.len() && #[trigger] hay.subrange(i, i + needle.len())
            == needle
}

/// The decimal numeral of `n`, without leading zeros.
pub open spec fn decimal(n: nat) -> Seq<char>
    decreases n,
{
    if n < 10 {
        seq![(48 + n) as char]
    } else {
        decimal(n / 10).push((48 + n % 10) as char)
    }
}

/// The texts that the strings of a vector hold.
pub open spec fn texts(v: Seq<String>) -> Seq<Seq<char>> {
    v.map_values(|s: String| s@)
}

/// The text of an optional string.
pub open spec fn opt_text(s: Option<String>) -> Option<Seq<char>> {
    match s {
        Some(t) => Some(t@),
        None => None,
    }
}

/// A split has at least one piece.
pub proof fn lemma_split_nonempty(s: Seq<char>, sep: char)
    ensures
        split(s, sep).len() > 0,
    decreases s.len(),
{
    if s.len() > 0 {
        lemma_split_nonempty(s.drop_last(), sep);
    }
}

/// No piece of a split holds the separator.
pub proof fn lemma_split_pieces_free(s: Seq<char>, sep: char)
    ensures
        forall|k: int| 0 <= k < split(s, sep).len() ==> !(#[trigger] split(s, sep)[k]).contains(sep),
    decreases s.len(),
{
    if s.len() > 0 {
        let front = split(s.drop_last(), sep);
        lemma_split_nonempty(s.drop_last(), sep);
        lemma_split_pieces_free(s.drop_last(), sep);
        assert forall|k: int| 0 <= k < split(s, sep).len() implies !(#[trigger] split(
            s,
            sep,
        )[k]).contains(sep) by {
            if s.last() != sep && k == front.len() - 1 {
                assert(!front[k].contains(sep));
                let grown = front[k].push(s.last());
                assert forall|j: int| 0 <= j < grown.len() implies grown[j] != sep by {
                    if j < front[k].len() {
                        assert(front[k][j] == grown[j]);
                    }
                }
            } else if k < front.len() {
                assert(split(s, sep)[k] == front[k]);
            }
        }
    }
}

/// Putting the separator back between the pieces of a split gives the text back.
pub proof fn lemma_join_split(s: Seq<char>, sep: char)
    ensures
        join(split(s, sep), seq![sep]) == s,
    decreases s.len(),
{
    if s.len() == 0 {
        assert(join(split(s, sep), seq![sep]) =~= s);
    } else {
        let front = split(s.drop_last(), sep);
        let whole = split(s, sep);
        lemma_split_nonempty(s.drop_last(), sep);
        lemma_join_split(s.drop_last(), sep);
        if s.last() == sep {
            assert(whole.drop_last() =~= front);
            assert(join(whole, seq![sep]) =~= s.drop_last() + seq![sep]);
        } else {
            if front.len() > 1 {
                assert(whole.drop_last() =~= front.drop_last());
            }
            assert(join(whole, seq![sep]) =~= s.drop_last().push(s.last()));
        }
        assert(s =~= s.drop_last().push(s.last()));
    }
}

/// A text without the separator is the one piece of its split.
pub proof fn lemma_split_free(s: Seq<char>, sep: char)
    requires
        !s.contains(sep),
    ensures
        split(s, sep) == seq![s],
    decreases s.len(),
{
    if s.len() > 0 {
        assert(s.contains(s.last()));
        assert(!s.drop_last().contains(sep)) by {
            if s.drop_last().contains(sep) {
                let j = choose|j: int| 0 <= j < s.drop_last().len() && s.drop_last()[j] == sep;
                assert(s[j] == sep);
            }
        }
        lemma_split_free(s.drop_last(), sep);
        assert(s =~= s.drop_last().push(s.last()));
    } else {
        assert(s =~= Seq::<char>::empty());
    }
    assert(split(s, sep) =~= seq![s]);
}

/// Appending a separator and a piece without it appends that piece to the split.
pub proof fn lemma_split_append(front: Seq<char>, sep: char, piece: Seq<char>)
    requires
        !piece.contains(sep),
    ensures
        split(front + seq![sep] + piece, sep) == split(front, sep).push(piece),
    decreases piece.len(),
{
    let whole = front + seq![sep] + piece;
    if piece.len() == 0 {
        assert(whole.drop_last() =~= front);
        assert(whole.last() == sep);
        assert(piece =~= Seq::<char>::empty());
    } else {
        assert(piece.contains(piece.last()));
        assert(!piece.drop_last().contains(sep)) by {
            if piece.drop_last().contains(sep) {
                let j = choose|j: int|
                    0 <= j < piece.drop_last().len() && piece.drop_last()[j] == sep;
                assert(piece[j] == sep);
            }
        }
        lemma_split_append(front, sep, piece.drop_last());
        assert(whole.drop_last() =~= front + seq![sep] + piece.drop_last());
        assert(whole.last() == piece.last());
        assert(piece.drop_last().push(piece.last()) =~= piece);
        assert(split(whole, sep) =~= split(front, sep).push(piece));
    }
}

/// Whether a character is white space.
pub fn white(c: char) -> (r: bool)
    ensures
        r == is_white(c),
{
    ('\u{9}' <= c && c <= '\u{d}') || c == '\u{20}' || c == '\u{85}' || c == '\u{a0}' || c
        == '\u{1680}' || ('\u{2000}' <= c && c <= '\u{200a}') || c == '\u{2028}' || c == '\u{2029}'
        || c == '\u{202f}' || c == '\u{205f}' || c == '\u{3000}'
}

/// The characters of `v` from `from` up to, but without, `to`.
pub fn range_of(v: &Vec<char>, from: usize, to: usize) -> (r: Vec<char>)
    requires
        from <= to <= v@.len(),
    ensures
        r@ == v@.subrange(from as int, to as int),
{
    let mut r: Vec<char> = Vec::new();
    for i in from..to
        invariant
            from <= to <= v@.len(),
            r@ == v@.subrange(from as int, i as int),
    {
        r.push(v[i]);
        assert(v@.subrange(from as int, i as int + 1) =~= v@.subrange(from as int, i as int).push(
            v@[i as int],
        ));
    }
    r
}

/// `v` without white space at either end.
pub fn trimmed(v: &Vec<char>) -> (r: Vec<char>)
    ensures
        r@ == trim(v@),
{
    let ghost f = |c: char| is_white(c);
    let mut from: usize = 0;
    assert(v@.skip(0) =~= v@);
    while from < v.len() && white(v[from])
        invariant
            from <= v@.len(),
            f == (|c: char| is_white(c)),
            strip_start(v@, f) == strip_start(v@.skip(from as int), f),
        decreases v@.len() - from,
    {
        assert(v@.skip(from as int).drop_first() =~= v@.skip(from as int + 1));
        from = from + 1;
    }
    let ghost rest = v@.skip(from as int);
    let mut to: usize = v.len();
    assert(rest =~= v@.subrange(from as int, to as int));
    while from < to && white(v[to - 1])
        invariant
            from <= to <= v@.len(),
            f == (|c: char| is_white(c)),
            strip_end(rest, f) == strip_end(v@.subrange(from as int, to as int), f),
        decreases to,
    {
        assert(v@.subrange(from as int, to as int).drop_last() =~= v@.subrange(
            from as int,
            to as int - 1,
        ));
        to = to - 1;
    }
    range_of(v, from, to)
}

/// `v` without the characters `c` at its front.
pub fn without_front(v: &Vec<char>, c: char) -> (r: Vec<char>)
    ensures
        r@ == strip_start(v@, |x: char| x == c),
{
    let ghost f = |x: char| x == c;
    let mut from: usize = 0;
    assert(v@.skip(0) =~= v@);
    while from < v.len() && v[from] == c
        invariant
            from <= v@.len(),
            f == (|x: char| x == c),
            strip_start(v@, f) == strip_start(v@.skip(from as int), f),
        decreases v@.len() - from,
    {
        assert(v@.skip(from as int).drop_first() =~= v@.skip(from as int + 1));
        from = from + 1;
    }
    assert(v@.skip(from as int) =~= v@.subrange(from as int, v@.len() as int));
    range_of(v, from, v.len())
}

/// `v` without the characters `c` at its back.
pub fn without_back(v: &Vec<char>, c: char) -> (r: Vec<char>)
    ensures
        r@ == strip_end(v@, |x: char| x == c),
{
    let ghost f = |x: char| x == c;
    let mut to: usize = v.len();
    assert(v@.subrange(0, to as int) =~= v@);
    while to > 0 && v[to - 1] == c
        invariant
            to <= v@.len(),
            f == (|x: char| x == c),
            strip_end(v@, f) == strip_end(v@.subrange(0, to as int), f),
        decreases to,
    {
        assert(v@.subrange(0, to as int).drop_last() =~= v@.subrange(0, to as int - 1));
        to = to - 1;
    }
    range_of(v, 0, to)
}

/// The texts that the vectors of characters of a vector hold.
pub open spec fn spelled(v: Seq<Vec<char>>) -> Seq<Seq<char>> {
    v.map_values(|p: Vec<char>| p@)
}

/// The pieces of `v` between the occurrences of `sep`.
pub fn pieces(v: &Vec<char>, sep: char) -> (r: Vec<Vec<char>>)
    ensures
        spelled(r@) == split(v@, sep),
{
    let mut done: Vec<Vec<char>> = Vec::new();
    let mut last: Vec<char> = Vec::new();
    assert(v@.take(0) =~= Seq::<char>::empty());
    assert(spelled(done@).push(last@) =~= split(v@.take(0), sep));
    for i in 0..v.len()
        invariant
            spelled(done@).push(last@) == split(v@.take(i as int), sep),
    {
        let c: char = v[i];
        let ghost before = spelled(done@);
        let ghost piece = last@;
        let ghost next = v@.take(i as int + 1);
        assert(next.drop_last() =~= v@.take(i as int));
        if c == sep {
            done.push(last);
            last = Vec::new();
            assert(spelled(done@) =~= before.push(piece));
        } else {
            last.push(c);
            assert(before.push(piece).update(before.len() as int, piece.push(c)) =~= before.push(
                piece.push(c),
            ));
        }
    }
    assert(v@.take(v@.len() as int) =~= v@);
    let ghost before = spelled(done@);
    let ghost piece = last@;
    done.push(last);
    assert(spelled(done@) =~= before.push(piece));
    done
}

/// Whether `c` occurs in `v`.
pub fn holds_char(v: &Vec<char>, c: char) -> (r: bool)
    ensures
        r == v@.contains(c),
{
    for i in 0..v.len()
        invariant
            forall|j: int| 0 <= j < i ==> v@[j] != c,
    {
        if v[i] == c {
            assert(v@[i as int] == c);
            return true;
        }
    }
    false
}

/// Whether two vectors hold the same characters.
pub fn same_chars(a: &Vec<char>, b: &Vec<char>) -> (r: bool)
    ensures
        r == (a@ == b@),
{
    if a.len() != b.len() {
        return false;
    }
    for i in 0..a.len()
        invariant
            a@.len() == b@.len(),
            forall|j: int| 0 <= j < i ==> a@[j] == b@[j],
    {
        if a[i] != b[i] {
            assert(a@[i as int] != b@[i as int]);
            return false;
        }
    }
    assert(a@ =~= b@);
    true
}

/// Whether two texts are the same.
pub fn same_text(a: &str, b: &str) -> (r: bool)
    ensures
        r == (a@ == b@),
{
    let x: Vec<char> = chars_of(a);
    let y: Vec<char> = chars_of(b);
    same_chars(&x, &y)
}

/// Whether `needle` stands in `hay` as a run of consecutive characters.
pub fn has_run(hay: &str, needle: &str) -> (r: bool)
    ensures
        r == contains_run(hay@, needle@),
{
    let h: Vec<char> = chars_of(hay);
    let n: Vec<char> = chars_of(needle);
    if n.len() > h.len() {
        return false;
    }
    let last: usize = h.len() - n.len();
    let mut i: usize = 0;
    while i <= last
        invariant
            h@ == hay@,
            n@ == needle@,
            last == h.len() - n.len(),
            i <= last + 1,
            forall|k: int|
                0 <= k < i ==> #[trigger] hay@.subrange(k, k + needle@.len()) != needle@,
        decreases last + 1 - i,
    {
        let window: Vec<char> = range_of(&h, i, i + n.len());
        if same_chars(&window, &n) {
            assert(hay@.subrange(i as int, i as int + needle@.len()) == needle@);
            return true;
        }
        if i == last {
            return false;
        }
        i = i + 1;
    }
    false
}

/// The decimal numeral of `n`.
pub fn decimal_string(n: u64) -> (r: String)
    ensures
        r@ == decimal(n as nat),
    decreases n,
{
    let digit: char = (48u8 + (n % 10) as u8) as char;
    let mut r: String = if n < 10 {
        String::new()
    } else {
        decimal_string(n / 10)
    };
    r.push(digit);
    assert(n < 10 ==> r@ =~= decimal(n as nat));
    r
}

/// The strings one after the other, with `sep` between each two.
pub fn joined(parts: &Vec<String>, sep: &str) -> (r: String)
    ensures
        r@ == join(texts(parts@), sep@),
{
    let mut r: String = String::new();
    let ghost all = texts(parts@);
    for i in 0..parts.len()
        invariant
            all == texts(parts@),
            r@ == join(all.take(i as int), sep@),
    {
        let ghost before = r@;
        if i > 0 {
            r.append(sep);
        }
        r.append(parts[i].as_str());
        proof {
            assert(all[i as int] == parts@[i as int]@);
            assert(all.take(i as int + 1).drop_last() =~= all.take(i as int));
            if i == 0 {
                assert(before =~= Seq::<char>::empty());
                assert(r@ =~= all.take(1)[0]);
            }
        }
    }
    assert(all.take(all.len() as int) =~= all);
    r
}

/// Whether `c` is one of the digits `0` to `9`.
pub open spec fn is_ascii_digit(c: char) -> bool {
    '0' <= c <= '9'
}

/// The number that decimal digits spell.
pub open spec fn digits_value(s: Seq<char>) -> nat
    decreases s.len(),
{
    if s.len() == 0 {
        0
    } else {
        digits_value(s.drop_last()) * 10 + decimal_digit(s.last())
    }
}

/// The number that a digit spells.
pub open spec fn decimal_digit(c: char) -> nat {
    (c as u32 - 48) as nat
}

/// The digits of a numeral that may have a `+` before them.
pub open spec fn without_plus(s: Seq<char>) -> Seq<char> {
    if s.len() > 0 && s[0] == '+' {
        s.drop_first()
    } else {
        s
    }
}

/// The number that a text spells, if it is one: digits, with an optional `+` before them, of a
/// number that a `u64` can hold.
pub open spec fn decimal_value(s: Seq<char>) -> Option<u64> {
    let digits = without_plus(s);
    if digits.len() > 0 && (forall|i: int|
        0 <= i < digits.len() ==> is_ascii_digit(#[trigger] digits[i])) && digits_value(digits)
        <= u64::MAX {
        Some(digits_value(digits) as u64)
    } else {
        None
    }
}

/// A numeral with more digits spells no smaller number.
proof fn lemma_digits_grow(s: Seq<char>, k: int)
    requires
        0 <= k <= s.len(),
    ensures
        digits_value(s.take(k)) <= digits_value(s),
    decreases s.len(),
{
    if k < s.len() {
        lemma_digits_grow(s.drop_last(), k);
        assert(s.drop_last().take(k) =~= s.take(k));
    } else {
        assert(s.take(k) =~= s);
    }
}

/// The number that a text spells, if it is one.
pub fn parse_u64(v: &Vec<char>) -> (r: Option<u64>)
    ensures
        r == decimal_value(v@),
{
    let from: usize = if v.len() > 0 && v[0] == '+' {
        1
    } else {
        0
    };
    let ghost digits = without_plus(v@);
    assert(digits =~= v@.skip(from as int));
    if from == v.len() {
        return None;
    }
    let mut value: u64 = 0;
    assert(digits.take(0) =~= Seq::<char>::empty());
    for i in from..v.len()
        invariant
            from <= v@.len(),
            digits == v@.skip(from as int),
            digits == without_plus(v@),
            value == digits_value(digits.take(i - from)),
            forall|j: int| 0 <= j < i - from ==> is_ascii_digit(#[trigger] digits[j]),
    {
        let c: char = v[i];
        let ghost k = i - from;
        assert(digits[k] == c);
        if !('0' <= c && c <= '9') {
            assert(!is_ascii_digit(digits[k]));
            return None;
        }
        let digit: u64 = c as u64 - 48;
        proof {
            assert(digits.take(k + 1).drop_last() =~= digits.take(k));
            lemma_digits_grow(digits, k + 1);
        }
        if value > (u64::MAX - digit) / 10 {
            return None;
        }
        value = value * 10 + digit;
    }
    assert(digits.take(digits.len() as int) =~= digits);
    Some(value)
}

/// A piece without the separator, and the separator after it, put that piece before the split.
pub proof fn lemma_split_prepend(piece: Seq<char>, sep: char, rest: Seq<char>)
    requires
        !piece.contains(sep),
    ensures
        split(piece + seq![sep] + rest, sep) == seq![piece] + split(rest, sep),
    decreases rest.len(),
{
    let whole = piece + seq![sep] + rest;
    if rest.len() == 0 {
        lemma_split_free(piece, sep);
        assert(whole.drop_last() =~= piece);
        assert(split(whole, sep) =~= seq![piece] + split(rest, sep));
    } else {
        lemma_split_prepend(piece, sep, rest.drop_last());
        lemma_split_nonempty(rest.drop_last(), sep);
        assert(whole.drop_last() =~= piece + seq![sep] + rest.drop_last());
        assert(whole.last() == rest.last());
        assert(split(whole, sep) =~= seq![piece] + split(rest, sep));
    }
}

/// The decimal numeral of a number consists of digits, and spells that number.
pub proof fn lemma_decimal_digits(n: nat)
    ensures
        decimal(n).len() > 0,
        forall|i: int| 0 <= i < decimal(n).len() ==> is_ascii_digit(#[trigger] decimal(n)[i]),
        digits_value(decimal(n)) == n,
    decreases n,
{
    if n >= 10 {
        lemma_decimal_digits(n / 10);
        assert(decimal(n).drop_last() =~= decimal(n / 10));
    } else {
        reveal_with_fuel(digits_value, 2);
        assert(decimal(n).drop_last() =~= Seq::<char>::empty());
    }
}

/// A number that is written out as a decimal numeral is read back as the same number.
pub proof fn law_numeral_reads_back(n: u64)
    ensures
        decimal_value(decimal(n as nat)) == Some(n),
{
    lemma_decimal_digits(n as nat);
    assert(is_ascii_digit(decimal(n as nat)[0]));
    assert(without_plus(decimal(n as nat)) == decimal(n as nat));
}

/// Stripping the front takes away a prefix of characters to be dropped, and no more: what is left
/// does not begin with such a character.
pub proof fn law_stripped_front(s: Seq<char>, drop: spec_fn(char) -> bool)
    ensures
        ({
            let rest = strip_start(s, drop);
            let gone = s.len() - rest.len();
            &&& gone >= 0
            &&& rest == s.skip(gone)
            &&& forall|i: int| 0 <= i < gone ==> drop(#[trigger] s[i])
            &&& rest.len() > 0 ==> !drop(rest[0])
        }),
    decreases s.len(),
{
    if s.len() > 0 && drop(s[0]) {
        let t = s.drop_first();
        law_stripped_front(t, drop);
        let rest = strip_start(t, drop);
        let gone = s.len() - rest.len();
        assert(t.skip(gone - 1) =~= s.skip(gone));
        assert forall|i: int| 0 <= i < gone implies drop(#[trigger] s[i]) by {
            if i > 0 {
                assert(drop(t[i - 1]));
            }
        }
    } else {
        assert(s.skip(0) =~= s);
    }
}

/// Stripping the back takes away a suffix of characters to be dropped, and no more: what is left
/// does not end with such a character.
pub proof fn law_stripped_back(s: Seq<char>, drop: spec_fn(char) -> bool)
    ensures
        ({
            let rest = strip_end(s, drop);
            &&& rest.len() <= s.len()
            &&& rest == s.take(rest.len() as int)
            &&& forall|i: int| rest.len() <= i < s.len() ==> drop(#[trigger] s[i])
            &&& rest.len() > 0 ==> !drop(rest.last())
        }),
    decreases s.len(),
{
    if s.len() > 0 && drop(s.last()) {
        let t = s.drop_last();
        law_stripped_back(t, drop);
        let rest = strip_end(t, drop);
        assert(t.take(rest.len() as int) =~= s.take(rest.len() as int));
        assert forall|i: int| rest.len() <= i < s.len() implies drop(#[trigger] s[i]) by {
            if i < t.len() {
                assert(drop(t[i]));
            }
        }
    } else {
        assert(s.take(s.len() as int) =~= s);
    }
}

/// Trimming leaves a stretch of the text: all around it is white space, and neither of its ends
/// is.
pub proof fn law_trimmed(s: Seq<char>)
    ensures
        exists|from: int|
            {
                &&& 0 <= from <= from + trim(s).len() <= s.len()
                &&& trim(s) == #[trigger] s.subrange(from, from + trim(s).len())
                &&& forall|i: int|
                    0 <= i < s.len() && !(from <= i < from + trim(s).len()) ==> is_white(
                        #[trigger] s[i],
                    )
            },
        trim(s).len() > 0 ==> !is_white(trim(s)[0]) && !is_white(trim(s).last()),
{
    let f = |c: char| is_white(c);
    let t = strip_start(s, f);
    let r = strip_end(t, f);
    law_stripped_front(s, f);
    law_stripped_back(t, f);
    let from = s.len() - t.len();
    assert(r =~= s.subrange(from, from + r.len()));
    assert forall|i: int| 0 <= i < s.len() && !(from <= i < from + trim(s).len()) implies is_white(
        #[trigger] s[i],
    ) by {
        if i < from {
            assert(f(s[i]));
        } else {
            assert(t[i - from] == s[i]);
            assert(f(t[i - from]));
        }
    }
    if r.len() > 0 {
        assert(r[0] == t[0]);
    }
}

/// Nothing is joined to nothing, one part to itself, and each further part comes after the
/// separator.
pub proof fn law_joined(parts: Seq<Seq<char>>, sep: Seq<char>, last: Seq<char>)
    ensures
        join(Seq::empty(), sep) == Seq::<char>::empty(),
        join(seq![last], sep) == last,
        parts.len() > 0 ==> join(parts.push(last), sep) == join(parts, sep) + sep + last,
{
    assert(parts.push(last).drop_last() =~= parts);
}

/// A text holds a run exactly where it reads as something, the run, and something more.
pub proof fn law_runs(hay: Seq<char>, needle: Seq<char>)
    ensures
        contains_run(hay, needle) <==> exists|front: Seq<char>, back: Seq<char>|
            hay == #[trigger] (front + needle + back),
{
    if contains_run(hay, needle) {
        let i = choose|i: int|
            0 <= i && i + needle.len() <= hay.len() && #[trigger] hay.subrange(
                i,
                i + needle.len(),
            ) == needle;
        let front = hay.take(i);
        let back = hay.skip(i + needle.len());
        assert(hay =~= front + hay.subrange(i, i + needle.len()) + back);
        assert(hay == front + needle + back);
    }
    if exists|front: Seq<char>, back: Seq<char>| hay == #[trigger] (front + needle + back) {
        let (front, back) = choose|front: Seq<char>, back: Seq<char>|
            hay == #[trigger] (front + needle + back);
        let i = front.len() as int;
        assert(hay.subrange(i, i + needle.len()) =~= needle);
    }
}

/// Each digit that is appended to a numeral multiplies its number by ten and adds its own.
pub proof fn law_digits_add_up(s: Seq<char>, digit: char)
    requires
        '0' <= digit <= '9',
    ensures
        digits_value(Seq::empty()) == 0,
        digits_value(s.push(digit)) == 10 * digits_value(s) + (digit as int - '0' as int),
{
    assert(s.push(digit).drop_last() =~= s);
}

/// The numeral of a number is made of digits that spell it, and begins with a zero only where it is
/// zero.
pub proof fn law_numeral(n: nat)
    ensures
        decimal(n).len() > 0,
        forall|i: int| 0 <= i < decimal(n).len() ==> '0' <= #[trigger] decimal(n)[i] <= '9',
        digits_value(decimal(n)) == n,
        decimal(n)[0] == '0' ==> n == 0 && decimal(n).len() == 1,
    decreases n,
{
    lemma_decimal_digits(n);
    assert forall|i: int| 0 <= i < decimal(n).len() implies '0' <= #[trigger] decimal(n)[i]
        <= '9' by {
        assert(is_ascii_digit(decimal(n)[i]));
    }
    if n >= 10 {
        law_numeral(n / 10);
        assert(decimal(n)[0] == decimal(n / 10)[0]);
    }
}

/// What is read as a number: digits, with or without a plus sign before them, of a number that fits.
/// Anything else is not.
pub proof fn law_numbers_read(s: Seq<char>)
    ensures
        ({
            let digits = s.len() > 0 && forall|i: int|
                0 <= i < s.len() ==> '0' <= #[trigger] s[i] <= '9';
            let plus = seq!['+'] + s;
            &&& digits && digits_value(s) <= u64::MAX ==> decimal_value(s) == Some(
                digits_value(s) as u64,
            ) && decimal_value(plus) == Some(digits_value(s) as u64)
            &&& digits && digits_value(s) > u64::MAX ==> decimal_value(s) is None && decimal_value(
                plus,
            ) is None
            &&& !digits ==> decimal_value(plus) is None
            &&& !digits && !(s.len() > 0 && s[0] == '+') ==> decimal_value(s) is None
        }),
{
    let plus = seq!['+'] + s;
    assert(plus.drop_first() =~= s);
    assert(without_plus(plus) == s);
    if s.len() > 0 && forall|i: int| 0 <= i < s.len() ==> '0' <= #[trigger] s[i] <= '9' {
        assert('0' <= s[0] <= '9');
        assert forall|i: int| 0 <= i < s.len() implies is_ascii_digit(#[trigger] s[i]) by {
            assert('0' <= s[i] <= '9');
        }
    } else if s.len() > 0 {
        let k = choose|k: int| 0 <= k < s.len() && !('0' <= #[trigger] s[k] <= '9');
        assert(!is_ascii_digit(s[k]));
    }
}

/// The texts of strings are theirs, one by one.
pub proof fn law_texts_one_by_one(v: Seq<String>, w: Seq<Vec<char>>, o: Option<String>)
    ensures
        texts(v).len() == v.len(),
        forall|i: int| 0 <= i < v.len() ==> #[trigger] texts(v)[i] == v[i]@,
        spelled(w).len() == w.len(),
        forall|i: int| 0 <= i < w.len() ==> #[trigger] spelled(w)[i] == w[i]@,
        o is None <==> opt_text(o) is None,
        o is Some ==> opt_text(o) == Some(o->0@),
{
}

/// In lower case, the letters `A` to `Z` are those thirty-two further on, and every other character
/// is as it was.
pub proof fn law_lower_case(s: Seq<char>, i: int)
    requires
        0 <= i < s.len(),
    ensures
        ascii_lowercase(s).len() == s.len(),
        'A' <= s[i] <= 'Z' ==> ascii_lowercase(s)[i] as int == s[i] as int + 32,
        !('A' <= s[i] <= 'Z') ==> ascii_lowercase(s)[i] == s[i],
{
}

} // verus!
