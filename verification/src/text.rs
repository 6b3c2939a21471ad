//! Text as sequences of characters: trimming, splitting, ASCII case,
//! lexicographic order and decimal numbers.

use vstd::prelude::*;
#[allow(unused_imports)]
use vstd::utf8;
use vstd::slice::{slice_subrange, slice_to_vec};

verus! {

/// `String::push` appends one character to the end of the string.
pub assume_specification[ String::push ](s: &mut String, c: char)
    ensures
        final(s)@ == old(s)@.push(c),
;

// ---------------------------------------------------------------------
// Conversions
// ---------------------------------------------------------------------

/// What a list of strings reads.
pub open spec fn texts(list: Seq<String>) -> Seq<Seq<char>> {
    list.map_values(|s: String| s@)
}

/// What a list of character vectors reads.
pub open spec fn pieces(list: Seq<Vec<char>>) -> Seq<Seq<char>> {
    list.map_values(|s: Vec<char>| s@)
}

/// What an optional string reads.
pub open spec fn text_of(value: Option<String>) -> Option<Seq<char>> {
    match value {
        Some(s) => Some(s@),
        None => None,
    }
}

/// What an optional string slice reads.
pub open spec fn str_of(value: Option<&str>) -> Option<Seq<char>> {
    match value {
        Some(s) => Some(s@),
        None => None,
    }
}

/// The characters of a string, in order.
pub fn characters(text: &str) -> (res: Vec<char>)
    ensures
        res@ == text@,
{
    let mut out: Vec<char> = Vec::new();
    for c in it: text.chars()
        invariant
            out@ == it.seq().take(it.index()),
            it.seq() == text@,
    {
        out.push(c);
        assert(out@ == it.seq().take(it.index() + 1));
    }
    assert(out@ == text@);
    out
}

/// The string made of the given characters.
pub fn from_characters(chars: &[char]) -> (res: String)
    ensures
        res@ == chars@,
{
    let mut out = String::new();
    let mut i: usize = 0;
    while i < chars.len()
        invariant
            i <= chars@.len(),
            out@ == chars@.take(i as int),
        decreases chars@.len() - i,
    {
        out.push(chars[i]);
        i += 1;
        assert(out@ == chars@.take(i as int));
    }
    out
}

/// Whether two strings read the same.
pub fn same(left: &str, right: &str) -> (res: bool)
    ensures
        res == (left@ == right@),
{
    left.to_owned() == right.to_owned()
}

/// Whether the characters read the same as the string.
pub fn reads(chars: &[char], text: &str) -> (res: bool)
    ensures
        res == (chars@ == text@),
{
    from_characters(chars) == text.to_owned()
}

/// Whether an optional string holds exactly this text.
pub fn holds(value: &Option<String>, text: &str) -> (res: bool)
    ensures
        res == (text_of(*value) == Some(text@)),
{
    match value {
        Some(held) => same(held.as_str(), text),
        None => false,
    }
}

/// Whether the list holds the string.
pub fn contains_string(list: &[String], text: &str) -> (res: bool)
    ensures
        res == texts(list@).contains(text@),
{
    let mut i: usize = 0;
    while i < list.len()
        invariant
            i <= list@.len(),
            forall|k: int| 0 <= k < i ==> #[trigger] texts(list@)[k] != text@,
        decreases list@.len() - i,
    {
        if same(list[i].as_str(), text) {
            assert(texts(list@)[i as int] == text@);
            return true;
        }
        i += 1;
    }
    false
}

/// Reads bytes as text with `std::str::from_utf8`, which gives the text that
/// the bytes encode in UTF-8, and an error where they encode none.
#[verifier::external_body]
pub(crate) fn utf8_text(bytes: &[u8]) -> (res: Option<String>)
    ensures
        text_of(res) == if utf8::valid_utf8(bytes@) {
            Some(utf8::decode_utf8(bytes@))
        } else {
            None
        },
{
    match std::str::from_utf8(bytes) {
        Ok(text) => Some(text.to_owned()),
        Err(_) => None,
    }
}

/// A copy of a list of strings.
pub fn copy_strings(list: &[String]) -> (res: Vec<String>)
    ensures
        texts(res@) == texts(list@),
{
    let mut out: Vec<String> = Vec::new();
    let mut i: usize = 0;
    while i < list.len()
        invariant
            i <= list@.len(),
            texts(out@) == texts(list@).take(i as int),
        decreases list@.len() - i,
    {
        let ghost before = texts(out@);
        let item = list[i].clone();
        out.push(item);
        assert(texts(out@) =~= before.push(item@));
        assert(texts(list@).take(i + 1) =~= texts(list@).take(i as int).push(texts(list@)[i as int]));
        i += 1;
    }
    assert(texts(list@).take(i as int) =~= texts(list@));
    out
}

/// A copy of an optional string.
pub fn copy_option(value: &Option<String>) -> (res: Option<String>)
    ensures
        res == *value,
{
    match value {
        Some(text) => Some(text.clone()),
        None => None,
    }
}

/// Whether two lists of strings read the same.
pub fn same_strings(left: &[String], right: &[String]) -> (res: bool)
    ensures
        res == (texts(left@) == texts(right@)),
{
    if left.len() != right.len() {
        assert(texts(left@).len() != texts(right@).len());
        return false;
    }
    let mut i: usize = 0;
    while i < left.len()
        invariant
            i <= left@.len(),
            left@.len() == right@.len(),
            forall|k: int| 0 <= k < i ==> #[trigger] texts(left@)[k] == texts(right@)[k],
        decreases left@.len() - i,
    {
        if !same(left[i].as_str(), right[i].as_str()) {
            assert(texts(left@)[i as int] != texts(right@)[i as int]);
            return false;
        }
        i += 1;
    }
    assert(texts(left@) =~= texts(right@));
    true
}

/// The joined text of two strings.
pub fn join(left: &str, right: &str) -> (res: String)
    ensures
        res@ == left@ + right@,
{
    left.to_owned().concat(right)
}

// ---------------------------------------------------------------------
// White space
// ---------------------------------------------------------------------

/// The Unicode property `White_Space`.
pub open spec fn is_white(c: char) -> bool {
    ||| '\u{9}' <= c <= '\u{d}'
    ||| c == ' '
    ||| c == '\u{85}'
    ||| c == '\u{a0}'
    ||| c == '\u{1680}'
    ||| '\u{2000}' <= c <= '\u{200a}'
    ||| c == '\u{2028}'
    ||| c == '\u{2029}'
    ||| c == '\u{202f}'
    ||| c == '\u{205f}'
    ||| c == '\u{3000}'
}

/// Whether the character is white space.
pub fn is_white_space(c: char) -> (res: bool)
    ensures
        res == is_white(c),
{
    ('\u{9}' <= c && c <= '\u{d}') || c == ' ' || c == '\u{85}' || c == '\u{a0}' || c == '\u{1680}'
        || ('\u{2000}' <= c && c <= '\u{200a}') || c == '\u{2028}' || c == '\u{2029}' || c
        == '\u{202f}' || c == '\u{205f}' || c == '\u{3000}'
}

/// The text without its leading white space.
pub open spec fn trimmed_start(s: Seq<char>) -> Seq<char>
    decreases s.len(),
{
    if s.len() > 0 && is_white(s[0]) {
        trimmed_start(s.skip(1))
    } else {
        s
    }
}

/// The text without its trailing white space.
pub open spec fn trimmed_end(s: Seq<char>) -> Seq<char>
    decreases s.len(),
{
    if s.len() > 0 && is_white(s.last()) {
        trimmed_end(s.drop_last())
    } else {
        s
    }
}

/// The text without the white space around it.
pub open spec fn trimmed(s: Seq<char>) -> Seq<char> {
    trimmed_end(trimmed_start(s))
}

/// Removes the leading white space.
pub fn trim_start(s: &[char]) -> (res: &[char])
    ensures
        res@ == trimmed_start(s@),
{
    let mut i: usize = 0;
    assert(s@.skip(0) =~= s@);
    while i < s.len() && is_white_space(s[i])
        invariant
            i <= s@.len(),
            trimmed_start(s@) == trimmed_start(s@.skip(i as int)),
        decreases s@.len() - i,
    {
        assert(s@.skip(i as int).skip(1) =~= s@.skip(i + 1));
        i += 1;
    }
    assert(s@.skip(i as int) =~= s@.subrange(i as int, s@.len() as int));
    slice_subrange(s, i, s.len())
}

/// Removes the trailing white space.
pub fn trim_end(s: &[char]) -> (res: &[char])
    ensures
        res@ == trimmed_end(s@),
{
    let mut n: usize = s.len();
    assert(s@.take(n as int) =~= s@);
    while n > 0 && is_white_space(s[n - 1])
        invariant
            n <= s@.len(),
            trimmed_end(s@) == trimmed_end(s@.take(n as int)),
        decreases n,
    {
        assert(s@.take(n as int).drop_last() =~= s@.take(n - 1));
        n -= 1;
    }
    assert(s@.take(n as int) =~= s@.subrange(0, n as int));
    slice_subrange(s, 0, n)
}

/// Removes the white space on both sides.
pub fn trim(s: &[char]) -> (res: &[char])
    ensures
        res@ == trimmed(s@),
{
    trim_end(trim_start(s))
}

/// The trimmed text of a string.
pub fn trim_text(text: &str) -> (res: String)
    ensures
        res@ == trimmed(text@),
{
    let chars = characters(text);
    from_characters(trim(chars.as_slice()))
}

proof fn lemma_start(s: Seq<char>)
    ensures
        trimmed_start(s).len() <= s.len(),
        trimmed_start(s) == s.skip(s.len() - trimmed_start(s).len()),
        forall|i: int| 0 <= i < s.len() - trimmed_start(s).len() ==> is_white(#[trigger] s[i]),
        trimmed_start(s).len() > 0 ==> !is_white(trimmed_start(s)[0]),
    decreases s.len(),
{
    if s.len() > 0 && is_white(s[0]) {
        lemma_start(s.skip(1));
        let t = trimmed_start(s);
        assert(t =~= s.skip(s.len() - t.len()));
        assert forall|i: int| 0 <= i < s.len() - t.len() implies is_white(#[trigger] s[i]) by {
            if i > 0 {
                assert(s.skip(1)[i - 1] == s[i]);
            }
        }
    } else {
        assert(s.skip(0) =~= s);
    }
}

proof fn lemma_end(s: Seq<char>)
    ensures
        trimmed_end(s).len() <= s.len(),
        trimmed_end(s) == s.take(trimmed_end(s).len() as int),
        forall|i: int| trimmed_end(s).len() <= i < s.len() ==> is_white(#[trigger] s[i]),
        trimmed_end(s).len() > 0 ==> !is_white(trimmed_end(s).last()),
    decreases s.len(),
{
    if s.len() > 0 && is_white(s.last()) {
        lemma_end(s.drop_last());
        let t = trimmed_end(s);
        assert(t =~= s.take(t.len() as int));
        assert forall|i: int| t.len() <= i < s.len() implies is_white(#[trigger] s[i]) by {
            if i < s.len() - 1 {
                assert(s.drop_last()[i] == s[i]);
            }
        }
    } else {
        assert(s.take(s.len() as int) =~= s);
    }
}

/// Trimming takes white space away at both ends and nothing else, and leaves
/// none there.
pub proof fn trimming_takes_white_space_alone(s: Seq<char>)
    ensures
        trimmed(s).len() > 0 ==> !is_white(trimmed(s)[0]) && !is_white(trimmed(s).last()),
        exists|from: int, to: int|
            {
                &&& 0 <= from <= to <= s.len()
                &&& trimmed(s) == #[trigger] s.subrange(from, to)
                &&& forall|i: int| 0 <= i < from ==> is_white(#[trigger] s[i])
                &&& forall|i: int| to <= i < s.len() ==> is_white(#[trigger] s[i])
            },
        trimmed(trimmed(s)) == trimmed(s),
{
    let t = trimmed_start(s);
    lemma_start(s);
    lemma_end(t);
    let from = s.len() - t.len();
    let to = from + trimmed(s).len();
    assert(trimmed(s) =~= s.subrange(from, to));
    assert forall|i: int| to <= i < s.len() implies is_white(#[trigger] s[i]) by {
        assert(t[i - from] == s[i]);
    }
    if trimmed(s).len() > 0 {
        assert(trimmed(s)[0] == t[0]);
        assert(trimmed_start(trimmed(s)) == trimmed(s));
        assert(trimmed_end(trimmed(s)) == trimmed(s));
    }
}

// ---------------------------------------------------------------------
// ASCII case
// ---------------------------------------------------------------------

/// The lower-case form of an ASCII letter; every other character as it is.
pub open spec fn lowered_char(c: char) -> char {
    if 'A' <= c <= 'Z' {
        (c as u8 + 32) as char
    } else {
        c
    }
}

/// The text with its ASCII letters in lower case.
pub open spec fn lowered(s: Seq<char>) -> Seq<char> {
    s.map_values(|c: char| lowered_char(c))
}

/// Puts an ASCII letter in lower case.
pub fn lower_char(c: char) -> (res: char)
    ensures
        res == lowered_char(c),
{
    if 'A' <= c && c <= 'Z' {
        (c as u8 + 32) as char
    } else {
        c
    }
}

/// Puts the ASCII letters in lower case.
pub fn lower(s: &[char]) -> (res: Vec<char>)
    ensures
        res@ == lowered(s@),
{
    let mut out: Vec<char> = Vec::new();
    let mut i: usize = 0;
    while i < s.len()
        invariant
            i <= s@.len(),
            out@ == lowered(s@).take(i as int),
        decreases s@.len() - i,
    {
        out.push(lower_char(s[i]));
        i += 1;
        assert(out@ =~= lowered(s@).take(i as int));
    }
    assert(lowered(s@).take(i as int) =~= lowered(s@));
    out
}

/// A string with its ASCII letters in lower case.
pub fn lower_text(text: &str) -> (res: String)
    ensures
        res@ == lowered(text@),
{
    let chars = characters(text);
    let low = lower(chars.as_slice());
    from_characters(low.as_slice())
}

/// Whether two strings are equal but for the case of ASCII letters.
pub fn same_ignoring_case(left: &str, right: &str) -> (res: bool)
    ensures
        res == (lowered(left@) == lowered(right@)),
{
    lower_text(left) == lower_text(right)
}

/// Whether the character is an ASCII digit.
pub open spec fn is_digit(c: char) -> bool {
    '0' <= c <= '9'
}

/// Whether the character is an ASCII letter or digit.
pub open spec fn is_alphanumeric(c: char) -> bool {
    is_digit(c) || 'a' <= c <= 'z' || 'A' <= c <= 'Z'
}

/// Whether the character is a hexadecimal digit.
pub open spec fn is_hex_digit(c: char) -> bool {
    is_digit(c) || 'a' <= c <= 'f' || 'A' <= c <= 'F'
}

/// Whether every character is an ASCII digit.
pub open spec fn all_digits(s: Seq<char>) -> bool {
    forall|i: int| 0 <= i < s.len() ==> is_digit(#[trigger] s[i])
}

/// Tests that every character is an ASCII digit.
pub fn only_digits(s: &[char]) -> (res: bool)
    ensures
        res == all_digits(s@),
{
    let mut i: usize = 0;
    while i < s.len()
        invariant
            i <= s@.len(),
            forall|k: int| 0 <= k < i ==> is_digit(#[trigger] s@[k]),
        decreases s@.len() - i,
    {
        if !('0' <= s[i] && s[i] <= '9') {
            assert(!is_digit(s@[i as int]));
            return false;
        }
        i += 1;
    }
    true
}

/// Tests that every character is a hexadecimal digit.
pub fn only_hex_digits(s: &[char]) -> (res: bool)
    ensures
        res == (forall|i: int| 0 <= i < s@.len() ==> is_hex_digit(#[trigger] s@[i])),
{
    let mut i: usize = 0;
    while i < s.len()
        invariant
            i <= s@.len(),
            forall|k: int| 0 <= k < i ==> is_hex_digit(#[trigger] s@[k]),
        decreases s@.len() - i,
    {
        let c = s[i];
        if !(('0' <= c && c <= '9') || ('a' <= c && c <= 'f') || ('A' <= c && c <= 'F')) {
            assert(!is_hex_digit(s@[i as int]));
            return false;
        }
        i += 1;
    }
    true
}

/// Lower case is another form of the capital letters of ASCII alone: each
/// becomes the letter that stands as far behind `a` as it stands behind `A`.
pub proof fn lower_case_touches_capitals_alone(s: Seq<char>, i: int)
    requires
        0 <= i < s.len(),
    ensures
        lowered(s).len() == s.len(),
        !('A' <= s[i] <= 'Z') ==> lowered(s)[i] == s[i],
        'A' <= s[i] <= 'Z' ==> lowered(s)[i] as int - 'a' as int == s[i] as int - 'A' as int,
        !('A' <= lowered(s)[i] <= 'Z'),
        lowered(lowered(s)) == lowered(s),
{
    assert forall|k: int| 0 <= k < s.len() implies lowered(lowered(s))[k] == lowered(s)[k] by {
        assert(lowered(s)[k] == lowered_char(s[k]));
    }
    assert(lowered(lowered(s)) =~= lowered(s));
}

// ---------------------------------------------------------------------
// Searching
// ---------------------------------------------------------------------

/// The position of the first `c`; the length where there is none.
pub open spec fn first_index(s: Seq<char>, c: char) -> int
    decreases s.len(),
{
    if s.len() == 0 || s[0] == c {
        0
    } else {
        1 + first_index(s.skip(1), c)
    }
}

/// The first `c` lies at `first_index`, and none before it.
pub proof fn lemma_first_index(s: Seq<char>, c: char)
    ensures
        0 <= first_index(s, c) <= s.len(),
        first_index(s, c) < s.len() ==> s[first_index(s, c)] == c,
        forall|k: int| 0 <= k < first_index(s, c) ==> s[k] != c,
        first_index(s, c) < s.len() <==> s.contains(c),
    decreases s.len(),
{
    if s.len() > 0 && s[0] != c {
        lemma_first_index(s.skip(1), c);
        assert forall|k: int| 0 <= k < first_index(s, c) implies s[k] != c by {
            if k > 0 {
                assert(s.skip(1)[k - 1] == s[k]);
            }
        }
    }
}

/// Finds the first `c`.
pub fn find(s: &[char], c: char) -> (res: usize)
    ensures
        res == first_index(s@, c),
        res <= s@.len(),
{
    let mut i: usize = 0;
    assert(s@.skip(0) =~= s@);
    while i < s.len() && s[i] != c
        invariant
            i <= s@.len(),
            first_index(s@, c) == i + first_index(s@.skip(i as int), c),
        decreases s@.len() - i,
    {
        assert(s@.skip(i as int).skip(1) =~= s@.skip(i + 1));
        i += 1;
    }
    i
}

/// Whether the text begins with the prefix.
pub open spec fn starts(s: Seq<char>, prefix: Seq<char>) -> bool {
    s.len() >= prefix.len() && s.take(prefix.len() as int) == prefix
}

/// Whether the text ends with the suffix.
pub open spec fn ends(s: Seq<char>, suffix: Seq<char>) -> bool {
    s.len() >= suffix.len() && s.skip(s.len() - suffix.len()) == suffix
}

/// Whether `part` occurs in the text at this position.
pub open spec fn occurs_at(s: Seq<char>, part: Seq<char>, at: int) -> bool {
    0 <= at && at + part.len() <= s.len() && s.subrange(at, at + part.len()) == part
}

/// Whether `part` occurs anywhere in the text.
pub open spec fn occurs(s: Seq<char>, part: Seq<char>) -> bool {
    exists|at: int| occurs_at(s, part, at)
}

/// Tests that `part` occurs at this position.
pub fn is_at(s: &[char], part: &[char], at: usize) -> (res: bool)
    requires
        at <= s@.len(),
    ensures
        res == occurs_at(s@, part@, at as int),
{
    if s.len() - at < part.len() {
        return false;
    }
    let mut i: usize = 0;
    while i < part.len()
        invariant
            i <= part@.len(),
            at + part.len() <= s.len(),
            forall|k: int| 0 <= k < i ==> s@[at + k] == part@[k],
        decreases part@.len() - i,
    {
        if s[at + i] != part[i] {
            assert(s@.subrange(at as int, at + part@.len())[i as int] != part@[i as int]);
            return false;
        }
        i += 1;
    }
    assert(s@.subrange(at as int, at + part@.len()) =~= part@);
    true
}

/// Tests that the text begins with the prefix.
pub fn starts_with(s: &[char], prefix: &[char]) -> (res: bool)
    ensures
        res == starts(s@, prefix@),
{
    let res = is_at(s, prefix, 0);
    proof {
        if s@.len() >= prefix@.len() {
            assert(s@.take(prefix@.len() as int) =~= s@.subrange(0, prefix@.len() as int));
        }
    }
    res
}

/// Tests that the text ends with the suffix.
pub fn ends_with(s: &[char], suffix: &[char]) -> (res: bool)
    ensures
        res == ends(s@, suffix@),
{
    if s.len() < suffix.len() {
        return false;
    }
    let at = s.len() - suffix.len();
    assert(s@.skip(at as int) =~= s@.subrange(at as int, at + suffix@.len()));
    is_at(s, suffix, at)
}

/// What follows a prefix of the text.
pub fn after_prefix<'a>(s: &'a [char], prefix: &str) -> (res: Option<&'a [char]>)
    ensures
        match res {
            Some(rest) => starts(s@, prefix@) && rest@ == s@.skip(prefix@.len() as int),
            None => !starts(s@, prefix@),
        },
{
    let start = characters(prefix);
    if starts_with(s, start.as_slice()) {
        assert(s@.subrange(start@.len() as int, s@.len() as int) =~= s@.skip(start@.len() as int));
        Some(slice_subrange(s, start.len(), s.len()))
    } else {
        None
    }
}

/// What stands before a suffix of the text.
pub fn before_suffix<'a>(s: &'a [char], suffix: &str) -> (res: Option<&'a [char]>)
    ensures
        match res {
            Some(rest) => ends(s@, suffix@) && rest@ == s@.take(s@.len() - suffix@.len()),
            None => !ends(s@, suffix@),
        },
{
    let end = characters(suffix);
    if ends_with(s, end.as_slice()) {
        let n: usize = s.len() - end.len();
        assert(s@.subrange(0, n as int) =~= s@.take(n as int));
        Some(slice_subrange(s, 0, n))
    } else {
        None
    }
}

/// What follows the first occurrence of `part`.
pub open spec fn after_first(s: Seq<char>, part: Seq<char>) -> Option<Seq<char>>
    decreases s.len(),
{
    if starts(s, part) {
        Some(s.skip(part.len() as int))
    } else if s.len() == 0 {
        None
    } else {
        after_first(s.skip(1), part)
    }
}

/// What follows the first occurrence follows it directly, and nothing does
/// where there is none.
pub proof fn rest_follows_the_first_occurrence(s: Seq<char>, part: Seq<char>)
    ensures
        after_first(s, part) is Some <==> occurs(s, part),
        after_first(s, part) matches Some(rest) ==> exists|at: int|
            {
                &&& #[trigger] occurs_at(s, part, at)
                &&& rest == s.skip(at + part.len())
                &&& forall|k: int| 0 <= k < at ==> !occurs_at(s, part, k)
            },
    decreases s.len(),
{
    if starts(s, part) {
        assert(s.subrange(0, part.len() as int) =~= s.take(part.len() as int));
        assert(occurs_at(s, part, 0));
    } else {
        assert(!occurs_at(s, part, 0)) by {
            if occurs_at(s, part, 0) {
                assert(s.subrange(0, part.len() as int) =~= s.take(part.len() as int));
            }
        }
        if s.len() > 0 {
            let rest = s.skip(1);
            rest_follows_the_first_occurrence(rest, part);
            assert forall|k: int| 0 < k implies occurs_at(s, part, k) == occurs_at(
                rest,
                part,
                k - 1,
            ) by {
                if k + part.len() <= s.len() {
                    assert(rest.subrange(k - 1, k - 1 + part.len()) =~= s.subrange(
                        k,
                        k + part.len(),
                    ));
                }
            }
            if occurs(s, part) {
                let k = choose|k: int| occurs_at(s, part, k);
                assert(occurs_at(rest, part, k - 1));
            }
            if after_first(rest, part) is Some {
                let at = choose|at: int|
                    {
                        &&& #[trigger] occurs_at(rest, part, at)
                        &&& after_first(rest, part)->0 == rest.skip(at + part.len())
                        &&& forall|k: int| 0 <= k < at ==> !occurs_at(rest, part, k)
                    };
                assert(occurs_at(s, part, at + 1));
                assert(rest.skip(at + part.len()) =~= s.skip(at + 1 + part.len()));
                assert forall|k: int| 0 <= k < at + 1 implies !occurs_at(s, part, k) by {
                    if k > 0 {
                        assert(!occurs_at(rest, part, k - 1));
                    }
                }
            }
        } else {
            assert forall|k: int| !occurs_at(s, part, k) by {}
        }
    }
}

/// Finds what follows the first occurrence of `part`.
pub fn find_after<'a>(s: &'a [char], part: &str) -> (res: Option<&'a [char]>)
    ensures
        match res {
            Some(rest) => after_first(s@, part@) == Some(rest@),
            None => after_first(s@, part@) is None,
        },
{
    let mut i: usize = 0;
    assert(s@.skip(0) =~= s@);
    while i < s.len()
        invariant
            i <= s@.len(),
            after_first(s@, part@) == after_first(s@.skip(i as int), part@),
        decreases s@.len() - i,
    {
        assert(s@.subrange(i as int, s@.len() as int) =~= s@.skip(i as int));
        let rest = slice_subrange(s, i, s.len());
        if let Some(found) = after_prefix(rest, part) {
            return Some(found);
        }
        assert(s@.skip(i as int).skip(1) =~= s@.skip(i + 1));
        i += 1;
    }
    assert(s@.subrange(i as int, s@.len() as int) =~= s@.skip(i as int));
    after_prefix(slice_subrange(s, i, s.len()), part)
}

/// The position of the first occurrence of `part` at or after `from`, or
/// `None`.
pub open spec fn is_first_occurrence(s: Seq<char>, part: Seq<char>, from: int, at: int) -> bool {
    from <= at && occurs_at(s, part, at) && forall|k: int| from <= k < at ==> !occurs_at(s, part, k)
}

/// Finds the first occurrence of `part` at or after `from`.
pub fn find_from(s: &[char], part: &[char], from: usize) -> (res: Option<usize>)
    requires
        from <= s@.len(),
    ensures
        match res {
            Some(at) => is_first_occurrence(s@, part@, from as int, at as int),
            None => forall|k: int| from <= k ==> !occurs_at(s@, part@, k),
        },
{
    let mut at: usize = from;
    while at < s.len()
        invariant
            from <= at <= s@.len(),
            forall|k: int| from <= k < at ==> !occurs_at(s@, part@, k),
        decreases s@.len() - at,
    {
        if is_at(s, part, at) {
            return Some(at);
        }
        at += 1;
    }
    if is_at(s, part, at) {
        return Some(at);
    }
    None
}

/// Tests that `part` occurs in the text.
pub fn contains(s: &[char], part: &[char]) -> (res: bool)
    ensures
        res == occurs(s@, part@),
{
    let res = find_from(s, part, 0);
    proof {
        if res is Some {
            assert(occurs_at(s@, part@, res->0 as int));
        }
    }
    res.is_some()
}

/// Tests that the text holds the character.
pub fn contains_char(s: &[char], c: char) -> (res: bool)
    ensures
        res == s@.contains(c),
{
    proof {
        lemma_first_index(s@, c);
    }
    find(s, c) < s.len()
}

// ---------------------------------------------------------------------
// Splitting
// ---------------------------------------------------------------------

/// The parts between the separators.
pub open spec fn split_at_char(s: Seq<char>, c: char) -> Seq<Seq<char>>
    decreases s.len(),
    via split_at_char_decreases
{
    let i = first_index(s, c);
    if i >= s.len() {
        seq![s]
    } else {
        seq![s.take(i)] + split_at_char(s.skip(i + 1), c)
    }
}

#[via_fn]
proof fn split_at_char_decreases(s: Seq<char>, c: char) {
    lemma_first_index(s, c);
}

/// Splits the text at every `c`.
pub fn split(s: &[char], c: char) -> (res: Vec<Vec<char>>)
    ensures
        pieces(res@) == split_at_char(s@, c),
        res@.len() > 0,
{
    let mut out: Vec<Vec<char>> = Vec::new();
    let mut rest = s;
    assert(pieces(out@) + split_at_char(s@, c) =~= split_at_char(s@, c));
    loop
        invariant_except_break
            pieces(out@) + split_at_char(rest@, c) == split_at_char(s@, c),
        ensures
            pieces(out@) == split_at_char(s@, c),
            out@.len() > 0,
        decreases rest@.len(),
    {
        proof {
            lemma_first_index(rest@, c);
        }
        let i = find(rest, c);
        let ghost before = pieces(out@);
        if i >= rest.len() {
            out.push(slice_to_vec(rest));
            assert(pieces(out@) =~= before + seq![rest@]);
            break;
        }
        let ghost tail = split_at_char(rest@.skip(i + 1), c);
        out.push(slice_to_vec(slice_subrange(rest, 0, i)));
        assert(rest@.subrange(0, i as int) =~= rest@.take(i as int));
        assert(pieces(out@) =~= before + seq![rest@.take(i as int)]);
        assert(pieces(out@) + tail =~= before + (seq![rest@.take(i as int)] + tail));
        assert(rest@.subrange(i + 1, rest@.len() as int) =~= rest@.skip(i + 1));
        rest = slice_subrange(rest, i + 1, rest.len());
    }
    out
}

/// The parts with the separator between them.
pub open spec fn rejoined(parts: Seq<Seq<char>>, c: char) -> Seq<char>
    decreases parts.len(),
{
    if parts.len() == 0 {
        Seq::empty()
    } else if parts.len() == 1 {
        parts[0]
    } else {
        parts[0].push(c) + rejoined(parts.skip(1), c)
    }
}

/// The parts of a text, with the separator between them, are the text, and no
/// part holds a separator.
pub proof fn split_text_can_be_rejoined(s: Seq<char>, c: char)
    ensures
        split_at_char(s, c).len() > 0,
        rejoined(split_at_char(s, c), c) == s,
        forall|i: int|
            0 <= i < split_at_char(s, c).len() ==> !(#[trigger] split_at_char(s, c)[i]).contains(c),
    decreases s.len(),
{
    lemma_first_index(s, c);
    let i = first_index(s, c);
    let parts = split_at_char(s, c);
    if i < s.len() {
        let rest = s.skip(i + 1);
        split_text_can_be_rejoined(rest, c);
        assert(parts.skip(1) =~= split_at_char(rest, c));
        assert(parts[0] == s.take(i));
        assert(s.take(i).push(c) + rest =~= s);
        assert forall|k: int| 0 <= k < parts.len() implies !(#[trigger] parts[k]).contains(c) by {
            if k > 0 {
                assert(parts[k] == split_at_char(rest, c)[k - 1]);
            }
        }
    }
}

/// Two texts with the separator between them have the parts of the one and
/// then those of the other.
pub proof fn lemma_split_of_two(a: Seq<char>, c: char, b: Seq<char>)
    ensures
        split_at_char(a.push(c) + b, c) == split_at_char(a, c) + split_at_char(b, c),
    decreases a.len(),
{
    let s = a.push(c) + b;
    lemma_first_index(a, c);
    lemma_first_index(s, c);
    let i = first_index(a, c);
    assert(s[a.len() as int] == c);
    assert(s.contains(c));
    let found = first_index(s, c);
    assert(found <= a.len());
    if i < a.len() {
        assert(s[i] == c);
        assert(found == i) by {
            if found < i {
                assert(a[found] == s[found]);
            }
        }
        let rest = a.skip(i + 1);
        lemma_split_of_two(rest, c, b);
        assert(s.skip(i + 1) =~= rest.push(c) + b);
        assert(s.take(i) =~= a.take(i));
        assert(split_at_char(s, c) =~= split_at_char(a, c) + split_at_char(b, c));
    } else {
        assert(found == a.len()) by {
            if found < a.len() {
                assert(a[found] == s[found]);
            }
        }
        assert(s.take(found) =~= a);
        assert(s.skip(found + 1) =~= b);
        assert(split_at_char(s, c) =~= split_at_char(a, c) + split_at_char(b, c));
    }
}

/// What stands before the first `c`, and what stands behind it.
pub open spec fn divided(s: Seq<char>, c: char) -> Option<(Seq<char>, Seq<char>)> {
    let i = first_index(s, c);
    if i < s.len() {
        Some((s.take(i), s.skip(i + 1)))
    } else {
        None
    }
}

/// A text is divided at the first separator, wherever it has one: what stands
/// before it holds none, and nothing is lost but the separator.
pub proof fn division_is_at_the_first(s: Seq<char>, c: char)
    ensures
        divided(s, c) is Some <==> s.contains(c),
        divided(s, c) matches Some((before, behind)) ==> !before.contains(c) && before.push(c)
            + behind == s,
{
    lemma_first_index(s, c);
    if let Some((before, behind)) = divided(s, c) {
        assert(before.push(c) + behind =~= s);
    }
}

/// Divides the text at the first `c`.
pub fn split_once(s: &[char], c: char) -> (res: Option<(&[char], &[char])>)
    ensures
        match res {
            Some((left, right)) => divided(s@, c) == Some((left@, right@)),
            None => divided(s@, c) is None,
        },
{
    let i = find(s, c);
    if i >= s.len() {
        return None;
    }
    assert(s@.subrange(0, i as int) =~= s@.take(i as int));
    assert(s@.subrange(i + 1, s@.len() as int) =~= s@.skip(i + 1));
    Some((slice_subrange(s, 0, i), slice_subrange(s, i + 1, s.len())))
}

/// The length of the leading run without white space.
pub open spec fn word_len(s: Seq<char>) -> int
    decreases s.len(),
{
    if s.len() == 0 || is_white(s[0]) {
        0
    } else {
        1 + word_len(s.skip(1))
    }
}

proof fn lemma_word_len(s: Seq<char>)
    ensures
        0 <= word_len(s) <= s.len(),
        s.len() > 0 && !is_white(s[0]) ==> word_len(s) > 0,
    decreases s.len(),
{
    if s.len() > 0 && !is_white(s[0]) {
        lemma_word_len(s.skip(1));
    }
}

/// The parts before and behind the first white space.
pub open spec fn divided_at_white(s: Seq<char>) -> Option<(Seq<char>, Seq<char>)> {
    if word_len(s) < s.len() {
        Some((s.take(word_len(s)), s.skip(word_len(s) + 1)))
    } else {
        None
    }
}

proof fn lemma_word_ends_at_white(s: Seq<char>)
    ensures
        0 <= word_len(s) <= s.len(),
        word_len(s) < s.len() ==> is_white(s[word_len(s)]),
        forall|i: int| 0 <= i < word_len(s) ==> !is_white(#[trigger] s[i]),
    decreases s.len(),
{
    if s.len() > 0 && !is_white(s[0]) {
        let rest = s.skip(1);
        lemma_word_ends_at_white(rest);
        assert forall|i: int| 0 <= i < word_len(s) implies !is_white(#[trigger] s[i]) by {
            if i > 0 {
                assert(rest[i - 1] == s[i]);
            }
        }
    }
}

/// A text is divided at its first white space, wherever it has some: what
/// stands before it holds none, and one character is lost.
pub proof fn division_is_at_the_first_white_space(s: Seq<char>, i: int)
    requires
        0 <= i < s.len(),
    ensures
        is_white(s[i]) ==> divided_at_white(s) is Some,
        divided_at_white(s) matches Some((before, behind)) ==> {
            &&& before.len() < s.len()
            &&& is_white(s[before.len() as int])
            &&& before.push(s[before.len() as int]) + behind == s
            &&& i < before.len() ==> !is_white(s[i])
        },
{
    lemma_word_ends_at_white(s);
    if let Some((before, behind)) = divided_at_white(s) {
        assert(before.push(s[before.len() as int]) + behind =~= s);
    }
}

/// Splits the text at its first white space.
pub fn split_at_white(s: &[char]) -> (res: Option<(&[char], &[char])>)
    ensures
        match res {
            Some((a, b)) => divided_at_white(s@) == Some((a@, b@)),
            None => divided_at_white(s@) is None,
        },
{
    let mut i: usize = 0;
    assert(s@.skip(0) =~= s@);
    while i < s.len() && !is_white_space(s[i])
        invariant
            i <= s@.len(),
            word_len(s@) == i + word_len(s@.skip(i as int)),
        decreases s@.len() - i,
    {
        assert(s@.skip(i as int).skip(1) =~= s@.skip(i + 1));
        i += 1;
    }
    if i == s.len() {
        return None;
    }
    assert(s@.subrange(0, i as int) =~= s@.take(i as int));
    assert(s@.subrange(i + 1, s@.len() as int) =~= s@.skip(i + 1));
    Some((slice_subrange(s, 0, i), slice_subrange(s, i + 1, s.len())))
}

proof fn lemma_trimmed_start(s: Seq<char>)
    ensures
        trimmed_start(s).len() <= s.len(),
        trimmed_start(s).len() > 0 ==> !is_white(trimmed_start(s)[0]),
    decreases s.len(),
{
    if s.len() > 0 && is_white(s[0]) {
        lemma_trimmed_start(s.skip(1));
    }
}

/// The words between the white space.
pub open spec fn words(s: Seq<char>) -> Seq<Seq<char>>
    decreases s.len(),
    via words_decreases
{
    let t = trimmed_start(s);
    if t.len() == 0 {
        Seq::empty()
    } else {
        seq![t.take(word_len(t))] + words(t.skip(word_len(t)))
    }
}

#[via_fn]
proof fn words_decreases(s: Seq<char>) {
    lemma_trimmed_start(s);
    lemma_word_len(trimmed_start(s));
}

/// Splits the text at its white space.
pub fn split_words(s: &[char]) -> (res: Vec<Vec<char>>)
    ensures
        pieces(res@) == words(s@),
{
    let mut out: Vec<Vec<char>> = Vec::new();
    let mut rest = s;
    assert(pieces(out@) + words(s@) =~= words(s@));
    loop
        invariant_except_break
            pieces(out@) + words(rest@) == words(s@),
        ensures
            pieces(out@) == words(s@),
        decreases rest@.len(),
    {
        let t = trim_start(rest);
        proof {
            lemma_trimmed_start(rest@);
            lemma_word_len(t@);
        }
        if t.len() == 0 {
            assert(pieces(out@) + words(rest@) =~= pieces(out@));
            break;
        }
        let mut n: usize = 0;
        assert(t@.skip(0) =~= t@);
        while n < t.len() && !is_white_space(t[n])
            invariant
                n <= t@.len(),
                word_len(t@) == n + word_len(t@.skip(n as int)),
            decreases t@.len() - n,
        {
            assert(t@.skip(n as int).skip(1) =~= t@.skip(n + 1));
            n += 1;
        }
        assert(word_len(t@) == n);
        let ghost before = pieces(out@);
        let ghost tail = words(t@.skip(n as int));
        out.push(slice_to_vec(slice_subrange(t, 0, n)));
        assert(t@.subrange(0, n as int) =~= t@.take(n as int));
        assert(pieces(out@) =~= before + seq![t@.take(n as int)]);
        assert(pieces(out@) + tail =~= before + (seq![t@.take(n as int)] + tail));
        assert(t@.subrange(n as int, t@.len() as int) =~= t@.skip(n as int));
        rest = slice_subrange(t, n, t.len());
    }
    out
}

/// The text without one carriage return at its end.
pub open spec fn without_return(s: Seq<char>) -> Seq<char> {
    if s.len() > 0 && s.last() == '\r' {
        s.drop_last()
    } else {
        s
    }
}

/// The lines of a text. A line ends with a line feed, or with a carriage
/// return and a line feed; the last line need not end.
pub open spec fn lines(s: Seq<char>) -> Seq<Seq<char>>
    decreases s.len(),
    via lines_decreases
{
    let i = first_index(s, '\n');
    if s.len() == 0 {
        Seq::empty()
    } else if i >= s.len() {
        seq![s]
    } else {
        seq![without_return(s.take(i))] + lines(s.skip(i + 1))
    }
}

#[via_fn]
proof fn lines_decreases(s: Seq<char>) {
    lemma_first_index(s, '\n');
}

/// The lines of a text end at line feeds, with or without a carriage return
/// before them, and hold no line feed.
pub proof fn lines_end_at_line_feeds(line: Seq<char>, rest: Seq<char>)
    requires
        !line.contains('\n'),
        line.len() > 0 ==> line.last() != '\r',
    ensures
        lines(line.push('\n') + rest) == seq![line] + lines(rest),
        lines(line.push('\r').push('\n') + rest) == seq![line] + lines(rest),
        line.len() > 0 ==> lines(line) == seq![line],
        lines(Seq::empty()).len() == 0,
{
    let plain = line.push('\n') + rest;
    lemma_first_index(plain, '\n');
    assert(plain[line.len() as int] == '\n');
    assert(plain.contains('\n'));
    let i = first_index(plain, '\n');
    assert(i == line.len()) by {
        if i < line.len() {
            assert(line[i] == '\n');
        }
    }
    assert(plain.take(i) =~= line);
    assert(plain.skip(i + 1) =~= rest);
    let long = line.push('\r').push('\n') + rest;
    lemma_first_index(long, '\n');
    assert(long[line.len() as int + 1] == '\n');
    assert(long.contains('\n'));
    let k = first_index(long, '\n');
    assert(k == line.len() + 1) by {
        if k < line.len() {
            assert(line[k] == '\n');
        } else if k == line.len() {
            assert(long[k] == '\r');
        }
    }
    assert(long.take(k) =~= line.push('\r'));
    assert(line.push('\r').drop_last() =~= line);
    assert(long.skip(k + 1) =~= rest);
    lemma_first_index(line, '\n');
}

/// Splits the text into its lines.
pub fn split_lines(s: &[char]) -> (res: Vec<Vec<char>>)
    ensures
        pieces(res@) == lines(s@),
{
    let mut out: Vec<Vec<char>> = Vec::new();
    let mut rest = s;
    assert(pieces(out@) + lines(s@) =~= lines(s@));
    loop
        invariant_except_break
            pieces(out@) + lines(rest@) == lines(s@),
        ensures
            pieces(out@) == lines(s@),
        decreases rest@.len(),
    {
        proof {
            lemma_first_index(rest@, '\n');
        }
        if rest.len() == 0 {
            assert(pieces(out@) + lines(rest@) =~= pieces(out@));
            break;
        }
        let i = find(rest, '\n');
        let ghost before = pieces(out@);
        if i >= rest.len() {
            out.push(slice_to_vec(rest));
            assert(pieces(out@) =~= before + seq![rest@]);
            break;
        }
        let ghost tail = lines(rest@.skip(i + 1));
        let n = if i > 0 && rest[i - 1] == '\r' {
            i - 1
        } else {
            i
        };
        out.push(slice_to_vec(slice_subrange(rest, 0, n)));
        assert(rest@.subrange(0, n as int) =~= without_return(rest@.take(i as int)));
        assert(pieces(out@) =~= before + seq![without_return(rest@.take(i as int))]);
        assert(pieces(out@) + tail =~= before + (seq![without_return(rest@.take(i as int))]
            + tail));
        assert(rest@.subrange(i + 1, rest@.len() as int) =~= rest@.skip(i + 1));
        rest = slice_subrange(rest, i + 1, rest.len());
    }
    out
}

// ---------------------------------------------------------------------
// Stripping and replacing
// ---------------------------------------------------------------------

/// The text without the leading characters that `set` holds.
pub open spec fn stripped_start(s: Seq<char>, set: Seq<char>) -> Seq<char>
    decreases s.len(),
{
    if s.len() > 0 && set.contains(s[0]) {
        stripped_start(s.skip(1), set)
    } else {
        s
    }
}

/// The text without the trailing characters that `set` holds.
pub open spec fn stripped_end(s: Seq<char>, set: Seq<char>) -> Seq<char>
    decreases s.len(),
{
    if s.len() > 0 && set.contains(s.last()) {
        stripped_end(s.drop_last(), set)
    } else {
        s
    }
}

/// The text without the characters of `set` around it.
pub open spec fn stripped(s: Seq<char>, set: Seq<char>) -> Seq<char> {
    stripped_end(stripped_start(s, set), set)
}

/// Removes the characters of `set` on both sides.
pub fn strip<'a>(s: &'a [char], set: &[char]) -> (res: &'a [char])
    ensures
        res@ == stripped(s@, set@),
{
    let mut i: usize = 0;
    assert(s@.skip(0) =~= s@);
    while i < s.len() && contains_char(set, s[i])
        invariant
            i <= s@.len(),
            stripped_start(s@, set@) == stripped_start(s@.skip(i as int), set@),
        decreases s@.len() - i,
    {
        assert(s@.skip(i as int).skip(1) =~= s@.skip(i + 1));
        i += 1;
    }
    assert(s@.skip(i as int) =~= s@.subrange(i as int, s@.len() as int));
    let t = slice_subrange(s, i, s.len());
    let mut n: usize = t.len();
    assert(t@.take(n as int) =~= t@);
    while n > 0 && contains_char(set, t[n - 1])
        invariant
            n <= t@.len(),
            stripped_end(t@, set@) == stripped_end(t@.take(n as int), set@),
        decreases n,
    {
        assert(t@.take(n as int).drop_last() =~= t@.take(n - 1));
        n -= 1;
    }
    assert(t@.take(n as int) =~= t@.subrange(0, n as int));
    slice_subrange(t, 0, n)
}

/// The text without any of the copies of `suffix` at its end.
pub open spec fn without_suffixes(s: Seq<char>, suffix: Seq<char>) -> Seq<char>
    decreases s.len(),
{
    if suffix.len() > 0 && ends(s, suffix) {
        without_suffixes(s.take(s.len() - suffix.len()), suffix)
    } else {
        s
    }
}

/// What is left without a suffix begins the text and does not end with the
/// suffix; a text that does not end with it stays whole.
pub proof fn suffixes_are_taken_from_the_end(s: Seq<char>, suffix: Seq<char>)
    requires
        suffix.len() > 0,
    ensures
        starts(s, without_suffixes(s, suffix)),
        !ends(without_suffixes(s, suffix), suffix),
        !ends(s, suffix) ==> without_suffixes(s, suffix) == s,
        !ends(s, suffix) ==> without_suffixes(s + suffix, suffix) == s,
    decreases s.len(),
{
    if ends(s, suffix) {
        let shorter = s.take(s.len() - suffix.len());
        suffixes_are_taken_from_the_end(shorter, suffix);
        let left = without_suffixes(s, suffix);
        assert(s.take(left.len() as int) =~= shorter.take(left.len() as int));
    } else {
        assert(s.take(s.len() as int) =~= s);
        let longer = s + suffix;
        assert(longer.skip(longer.len() - suffix.len()) =~= suffix);
        assert(longer.take(longer.len() - suffix.len()) =~= s);
    }
}

/// Removes every copy of `suffix` at the end.
pub fn strip_suffixes<'a>(s: &'a [char], suffix: &[char]) -> (res: &'a [char])
    ensures
        res@ == without_suffixes(s@, suffix@),
{
    let mut t = s;
    while suffix.len() > 0 && ends_with(t, suffix)
        invariant
            without_suffixes(s@, suffix@) == without_suffixes(t@, suffix@),
        decreases t@.len(),
    {
        let n = t.len() - suffix.len();
        assert(t@.subrange(0, n as int) =~= t@.take(n as int));
        t = slice_subrange(t, 0, n);
    }
    t
}

/// The text with every occurrence of `from`, found from the left, replaced.
pub open spec fn replaced(s: Seq<char>, from: Seq<char>, to: Seq<char>) -> Seq<char>
    recommends
        from.len() > 0,
    decreases s.len(),
{
    if s.len() == 0 {
        s
    } else if from.len() > 0 && starts(s, from) {
        to + replaced(s.skip(from.len() as int), from, to)
    } else {
        seq![s[0]] + replaced(s.skip(1), from, to)
    }
}

/// A text that does not hold what is replaced stays as it is; replacing one
/// character by another changes it wherever it stands and nothing else.
pub proof fn replacing_changes_the_occurrences(s: Seq<char>, from: Seq<char>, to: Seq<char>)
    requires
        from.len() > 0,
    ensures
        !occurs(s, from) ==> replaced(s, from, to) == s,
        from.len() == 1 && to.len() == 1 ==> replaced(s, from, to).len() == s.len(),
        from.len() == 1 && to.len() == 1 ==> forall|i: int|
            0 <= i < s.len() ==> (#[trigger] replaced(s, from, to)[i]) == if s[i] == from[0] {
                to[0]
            } else {
                s[i]
            },
    decreases s.len(),
{
    if s.len() > 0 {
        let rest = s.skip(1);
        let all = replaced(s, from, to);
        replacing_changes_the_occurrences(rest, from, to);
        if starts(s, from) {
            assert(s.subrange(0, from.len() as int) =~= s.take(from.len() as int));
            assert(occurs_at(s, from, 0));
        }
        if occurs(rest, from) {
            let at = choose|at: int| occurs_at(rest, from, at);
            assert(rest.subrange(at, at + from.len()) =~= s.subrange(
                at + 1,
                at + 1 + from.len(),
            ));
            assert(occurs_at(s, from, at + 1));
        }
        if !occurs(s, from) {
            assert(seq![s[0]] + rest =~= s);
        }
        if from.len() == 1 && to.len() == 1 {
            assert(s.take(1) =~= seq![s[0]]);
            assert(from =~= seq![from[0]]);
            assert(to =~= seq![to[0]]);
            assert(starts(s, from) <==> s[0] == from[0]) by {
                if s[0] == from[0] {
                    assert(s.take(1) =~= from);
                }
            }
            assert forall|i: int| 0 <= i < s.len() implies (#[trigger] all[i]) == if s[i]
                == from[0] {
                to[0]
            } else {
                s[i]
            } by {
                if i > 0 {
                    assert(all[i] == replaced(rest, from, to)[i - 1]);
                    assert(rest[i - 1] == s[i]);
                }
            }
        }
    }
}

/// Replaces every occurrence of `from`.
pub fn replace(s: &[char], from: &[char], to: &[char]) -> (res: Vec<char>)
    requires
        from@.len() > 0,
    ensures
        res@ == replaced(s@, from@, to@),
{
    let mut out: Vec<char> = Vec::new();
    let mut i: usize = 0;
    assert(s@.skip(0) =~= s@);
    assert(out@ + replaced(s@, from@, to@) =~= replaced(s@, from@, to@));
    while i < s.len()
        invariant
            i <= s@.len(),
            from@.len() > 0,
            out@ + replaced(s@.skip(i as int), from@, to@) == replaced(s@, from@, to@),
        decreases s@.len() - i,
    {
        let ghost rest = s@.skip(i as int);
        let ghost before = out@;
        let here = is_at(s, from, i);
        proof {
            if i + from@.len() <= s@.len() {
                assert(rest.take(from@.len() as int) =~= s@.subrange(i as int, i + from@.len()));
            }
        }
        if here {
            let mut k: usize = 0;
            while k < to.len()
                invariant
                    k <= to@.len(),
                    out@ == before + to@.take(k as int),
                decreases to@.len() - k,
            {
                out.push(to[k]);
                k += 1;
                assert(out@ =~= before + to@.take(k as int));
            }
            assert(to@.take(k as int) =~= to@);
            assert(rest.skip(from@.len() as int) =~= s@.skip(i + from@.len()));
            proof {
                let tail = replaced(s@.skip(i + from@.len()), from@, to@);
                assert(out@ + tail =~= before + (to@ + tail));
            }
            i += from.len();
        } else {
            out.push(s[i]);
            assert(rest.skip(1) =~= s@.skip(i + 1));
            proof {
                let tail = replaced(s@.skip(i + 1), from@, to@);
                assert(out@ + tail =~= before + (seq![s@[i as int]] + tail));
            }
            i += 1;
        }
    }
    assert(out@ + replaced(s@.skip(i as int), from@, to@) =~= out@);
    out
}

// ---------------------------------------------------------------------
// Order
// ---------------------------------------------------------------------

/// The lexicographic order of texts by their characters.
pub open spec fn precedes(a: Seq<char>, b: Seq<char>) -> bool
    decreases a.len(),
{
    if b.len() == 0 {
        false
    } else if a.len() == 0 {
        true
    } else if a[0] != b[0] {
        a[0] < b[0]
    } else {
        precedes(a.skip(1), b.skip(1))
    }
}

/// No text precedes itself.
pub proof fn lemma_precedes_irreflexive(a: Seq<char>)
    ensures
        !precedes(a, a),
    decreases a.len(),
{
    if a.len() > 0 {
        lemma_precedes_irreflexive(a.skip(1));
    }
}

/// What precedes a text precedes all that the text precedes.
pub proof fn lemma_precedes_transitive(a: Seq<char>, b: Seq<char>, c: Seq<char>)
    requires
        precedes(a, b),
        precedes(b, c),
    ensures
        precedes(a, c),
    decreases a.len(),
{
    if a.len() > 0 && a[0] == b[0] && b[0] == c[0] {
        lemma_precedes_transitive(a.skip(1), b.skip(1), c.skip(1));
    }
}

/// Of two different texts one precedes the other.
pub proof fn lemma_precedes_total(a: Seq<char>, b: Seq<char>)
    ensures
        a == b || precedes(a, b) || precedes(b, a),
    decreases a.len(),
{
    if a.len() > 0 && b.len() > 0 && a[0] == b[0] {
        lemma_precedes_total(a.skip(1), b.skip(1));
        if a.skip(1) == b.skip(1) {
            assert(a =~= seq![a[0]] + a.skip(1));
            assert(b =~= seq![b[0]] + b.skip(1));
        }
    } else if a.len() == 0 && b.len() == 0 {
        assert(a =~= b);
    }
}

/// Texts are ordered by the first character in which they differ, and one that
/// begins another goes before it.
pub proof fn first_difference_decides(a: Seq<char>, b: Seq<char>, k: int)
    requires
        0 <= k <= a.len(),
        k <= b.len(),
        a.take(k) == b.take(k),
    ensures
        k == a.len() ==> (precedes(a, b) <==> k < b.len()),
        k == b.len() ==> !precedes(a, b),
        k < a.len() && k < b.len() && a[k] != b[k] ==> (precedes(a, b) <==> a[k] < b[k]),
    decreases k,
{
    if k > 0 {
        assert(a[0] == a.take(k)[0] && b[0] == b.take(k)[0]);
        assert(a.skip(1).take(k - 1) =~= a.take(k).skip(1));
        assert(b.skip(1).take(k - 1) =~= b.take(k).skip(1));
        first_difference_decides(a.skip(1), b.skip(1), k - 1);
    }
}

/// Compares two texts.
pub fn is_before(left: &str, right: &str) -> (res: bool)
    ensures
        res == precedes(left@, right@),
{
    let a = characters(left);
    let b = characters(right);
    let mut i: usize = 0;
    assert(a@.skip(0) =~= a@);
    assert(b@.skip(0) =~= b@);
    while i < a.len() && i < b.len() && a[i] == b[i]
        invariant
            i <= a@.len(),
            i <= b@.len(),
            precedes(a@, b@) == precedes(a@.skip(i as int), b@.skip(i as int)),
        decreases a@.len() - i,
    {
        assert(a@.skip(i as int).skip(1) =~= a@.skip(i + 1));
        assert(b@.skip(i as int).skip(1) =~= b@.skip(i + 1));
        i += 1;
    }
    if i >= b.len() {
        false
    } else if i >= a.len() {
        true
    } else {
        a[i] < b[i]
    }
}

// ---------------------------------------------------------------------
// Decimal numbers
// ---------------------------------------------------------------------

/// The character of a digit below ten.
pub open spec fn digit_char(d: int) -> char {
    (d + 48) as char
}

/// The decimal digits of a number.
pub open spec fn decimal(n: nat) -> Seq<char>
    decreases n,
{
    if n < 10 {
        seq![digit_char(n as int)]
    } else {
        decimal(n / 10).push(digit_char((n % 10) as int))
    }
}

/// Writes a number in decimal digits.
pub fn to_decimal(n: u64) -> (res: String)
    ensures
        res@ == decimal(n as nat),
    decreases n,
{
    let d: u8 = (n % 10) as u8;
    let c = (d + 48) as char;
    if n < 10 {
        let mut out = String::new();
        out.push(c);
        assert(out@ =~= decimal(n as nat));
        out
    } else {
        let mut out = to_decimal(n / 10);
        out.push(c);
        out
    }
}

/// The number that a row of digits stands for.
pub open spec fn number(s: Seq<char>) -> nat
    decreases s.len(),
{
    if s.len() == 0 {
        0
    } else {
        number(s.drop_last()) * 10 + (s.last() as nat - 48) as nat
    }
}

/// The decimal digits of a number stand for that number.
pub proof fn lemma_number_of_decimal(n: nat)
    ensures
        number(decimal(n)) == n,
    decreases n,
{
    let s = decimal(n);
    if n < 10 {
        assert(s.drop_last() =~= Seq::empty());
        assert(number(Seq::<char>::empty()) == 0);
    } else {
        lemma_number_of_decimal(n / 10);
        assert(s.drop_last() =~= decimal(n / 10));
    }
}

/// The 32-bit number that a text spells: decimal digits, with an optional
/// plus sign before them.
pub open spec fn parsed_u32(s: Seq<char>) -> Option<u32> {
    let d = if s.len() > 0 && s[0] == '+' {
        s.skip(1)
    } else {
        s
    };
    if d.len() > 0 && all_digits(d) && number(d) <= u32::MAX {
        Some(number(d) as u32)
    } else {
        None
    }
}

proof fn lemma_decimal_digits(n: nat)
    ensures
        decimal(n).len() > 0,
        all_digits(decimal(n)),
        n > 0 ==> decimal(n)[0] != '0',
    decreases n,
{
    if n >= 10 {
        lemma_decimal_digits(n / 10);
        let s = decimal(n);
        let before = decimal(n / 10);
        assert forall|i: int| 0 <= i < s.len() implies is_digit(#[trigger] s[i]) by {
            if i < before.len() {
                assert(is_digit(before[i]));
            }
        }
        assert(s[0] == before[0]);
    }
}

/// A number is read back from its decimal digits, which do not begin with a
/// zero but for zero itself, and a plus sign before them changes nothing.
pub proof fn written_numbers_are_read_back(n: u32)
    ensures
        parsed_u32(decimal(n as nat)) == Some(n),
        parsed_u32(seq!['+'] + decimal(n as nat)) == Some(n),
        n > 0 ==> decimal(n as nat)[0] != '0',
{
    lemma_decimal_digits(n as nat);
    lemma_number_of_decimal(n as nat);
    let d = decimal(n as nat);
    assert(is_digit(d[0]));
    assert((seq!['+'] + d).skip(1) =~= d);
}

/// A text with anything but digits behind an optional plus sign is no number,
/// nor is one without a digit.
pub proof fn other_texts_are_no_numbers(s: Seq<char>, i: int)
    ensures
        s.len() == 0 ==> parsed_u32(s) is None,
        s == seq!['+'] ==> parsed_u32(s) is None,
        0 < i < s.len() && !('0' <= s[i] <= '9') ==> parsed_u32(s) is None,
        s.len() > 0 && s[0] != '+' && !('0' <= s[0] <= '9') ==> parsed_u32(s) is None,
        parsed_u32(s) is Some && s[0] != '+' ==> number(s) == parsed_u32(s)->0,
{
    if s.len() > 0 {
        let d = if s[0] == '+' {
            s.skip(1)
        } else {
            s
        };
        if 0 < i < s.len() && !('0' <= s[i] <= '9') {
            let k = if s[0] == '+' {
                i - 1
            } else {
                i
            };
            assert(d[k] == s[i]);
            assert(!is_digit(d[k]));
        }
        if s[0] != '+' && !('0' <= s[0] <= '9') {
            assert(!is_digit(d[0]));
        }
    }
}

proof fn lemma_number_grows(s: Seq<char>, i: int)
    requires
        0 <= i <= s.len(),
    ensures
        number(s.take(i)) <= number(s),
    decreases s.len(),
{
    if i < s.len() {
        lemma_number_grows(s.drop_last(), i);
        assert(s.drop_last().take(i) =~= s.take(i));
    } else {
        assert(s.take(i) =~= s);
    }
}

/// Reads a 32-bit number.
pub fn parse_u32(s: &[char]) -> (res: Option<u32>)
    ensures
        res == parsed_u32(s@),
{
    let d = if s.len() > 0 && s[0] == '+' {
        assert(s@.subrange(1, s@.len() as int) =~= s@.skip(1));
        slice_subrange(s, 1, s.len())
    } else {
        s
    };
    if d.len() == 0 || !only_digits(d) {
        return None;
    }
    let mut value: u64 = 0;
    let mut i: usize = 0;
    while i < d.len()
        invariant
            i <= d@.len(),
            all_digits(d@),
            value == number(d@.take(i as int)),
            value <= u32::MAX,
            d@.len() > 0,
            d@ == if s@.len() > 0 && s@[0] == '+' {
                s@.skip(1)
            } else {
                s@
            },
        decreases d@.len() - i,
    {
        let c = d[i];
        assert(is_digit(d@[i as int]));
        assert(d@.take(i + 1).drop_last() =~= d@.take(i as int));
        value = value * 10 + (c as u64 - 48);
        assert(value == number(d@.take(i + 1)));
        if value > 4294967295 {
            proof {
                lemma_number_grows(d@, i + 1);
            }
            return None;
        }
        i += 1;
    }
    assert(d@.take(i as int) =~= d@);
    Some(value as u32)
}

} // verus!
