//! Text as sequences of characters: white space, occurrences, splitting and
//! unsigned decimal numbers.

use vstd::prelude::*;
use vstd::slice::slice_subrange;
use vstd::string::StringExecFns;
use crate::error::NumberError;

verus! {

/// Whether `c` is white space: a character with the Unicode property
/// `White_Space`.
pub open spec fn is_space(c: char) -> bool {
    let n = c as u32;
    ||| 0x09 <= n <= 0x0d
    ||| n == 0x20
    ||| n == 0x85
    ||| n == 0xa0
    ||| n == 0x1680
    ||| 0x2000 <= n <= 0x200a
    ||| n == 0x2028
    ||| n == 0x2029
    ||| n == 0x202f
    ||| n == 0x205f
    ||| n == 0x3000
}

/// How many characters of white space `s` begins with.
pub open spec fn leading_spaces(s: Seq<char>) -> nat
    decreases s.len(),
{
    if s.len() > 0 && is_space(s.first()) {
        1 + leading_spaces(s.drop_first())
    } else {
        0
    }
}

/// How many characters of white space `s` ends with.
pub open spec fn trailing_spaces(s: Seq<char>) -> nat
    decreases s.len(),
{
    if s.len() > 0 && is_space(s.last()) {
        1 + trailing_spaces(s.drop_last())
    } else {
        0
    }
}

/// `s` without the white space at its two ends.
pub open spec fn trimmed(s: Seq<char>) -> Seq<char> {
    let rest = s.skip(leading_spaces(s) as int);
    rest.take(rest.len() - trailing_spaces(rest))
}

/// Whether `needle` stands in `s` at position `at`.
pub open spec fn occurs_at(s: Seq<char>, needle: Seq<char>, at: int) -> bool {
    0 <= at && at + needle.len() <= s.len() && s.subrange(at, at + needle.len()) == needle
}

/// The first position at or after `from` where `needle` stands in `s`.
pub open spec fn first_occurrence_from(s: Seq<char>, needle: Seq<char>, from: int) -> Option<int>
    decreases s.len() + 1 - from,
{
    if from < 0 || from + needle.len() > s.len() {
        None
    } else if occurs_at(s, needle, from) {
        Some(from)
    } else {
        first_occurrence_from(s, needle, from + 1)
    }
}

/// The first position where `needle` stands in `s`.
pub open spec fn first_occurrence(s: Seq<char>, needle: Seq<char>) -> Option<int> {
    first_occurrence_from(s, needle, 0)
}

/// Whether `needle` stands somewhere in `s`.
pub open spec fn contains(s: Seq<char>, needle: Seq<char>) -> bool {
    first_occurrence(s, needle) is Some
}

/// The pieces of `s` between the occurrences of `separator`, found from left
/// to right without overlap. With an empty separator `s` is one piece.
pub open spec fn split(s: Seq<char>, separator: Seq<char>) -> Seq<Seq<char>>
    decreases s.len(),
{
    if separator.len() == 0 {
        seq![s]
    } else {
        match first_occurrence(s, separator) {
            Some(at) => if 0 <= at && at + separator.len() <= s.len() {
                seq![s.take(at)] + split(s.skip(at + separator.len()), separator)
            } else {
                seq![s]
            },
            None => seq![s],
        }
    }
}

/// `parts` written one after the other with `separator` between them.
pub open spec fn joined(parts: Seq<Seq<char>>, separator: Seq<char>) -> Seq<char>
    decreases parts.len(),
{
    if parts.len() == 0 {
        Seq::empty()
    } else if parts.len() == 1 {
        parts[0]
    } else {
        joined(parts.drop_last(), separator) + separator + parts.last()
    }
}

/// `parts` without its first `n`; nothing where it has no more than `n`.
pub open spec fn after<A>(parts: Seq<A>, n: nat) -> Seq<A> {
    if n <= parts.len() {
        parts.skip(n as int)
    } else {
        Seq::empty()
    }
}

/// `text` in lower case, as `str::to_lowercase` writes it.
pub uninterp spec fn lowercase_of(text: Seq<char>) -> Seq<char>;

/// Whether `c` is one of the digits `0` to `9`.
pub open spec fn is_digit(c: char) -> bool {
    '0' <= c <= '9'
}

/// Whether `s` holds digits only.
pub open spec fn all_digits(s: Seq<char>) -> bool {
    forall|i: int| 0 <= i < s.len() ==> is_digit(#[trigger] s[i])
}

/// The number that the digit `c` stands for.
pub open spec fn digit_value(c: char) -> nat {
    (c as u32 - '0' as u32) as nat
}

/// The number that the digits `s` write in base ten; 0 for no digits.
pub open spec fn digits_value(s: Seq<char>) -> nat
    decreases s.len(),
{
    if s.len() == 0 {
        0
    } else {
        digits_value(s.drop_last()) * 10 + digit_value(s.last())
    }
}

/// The digit that stands for `d`, a number below ten; nine for a greater
/// one.
pub open spec fn digit_char(d: nat) -> char {
    if d == 0 {
        '0'
    } else if d == 1 {
        '1'
    } else if d == 2 {
        '2'
    } else if d == 3 {
        '3'
    } else if d == 4 {
        '4'
    } else if d == 5 {
        '5'
    } else if d == 6 {
        '6'
    } else if d == 7 {
        '7'
    } else if d == 8 {
        '8'
    } else {
        '9'
    }
}

/// The digits that write `n` in base ten, without leading zeros.
pub open spec fn number_text(n: nat) -> Seq<char>
    decreases n,
{
    if n < 10 {
        seq![digit_char(n)]
    } else {
        number_text(n / 10).push(digit_char(n % 10))
    }
}

/// `s` without a plus sign at its front.
pub open spec fn unsigned_body(s: Seq<char>) -> Seq<char> {
    if s.len() > 0 && s.first() == '+' {
        s.drop_first()
    } else {
        s
    }
}

/// The number no greater than `max` that `s` writes: digits, which a plus
/// sign may precede.
pub open spec fn unsigned_of(s: Seq<char>, max: nat) -> Result<nat, NumberError> {
    let digits = unsigned_body(s);
    if s.len() == 0 {
        Err(NumberError::Empty)
    } else if digits.len() == 0 || !all_digits(digits) {
        Err(NumberError::InvalidDigit)
    } else if digits_value(digits) > max {
        Err(NumberError::Overflow)
    } else {
        Ok(digits_value(digits))
    }
}

/// The characters of `s`.
pub fn chars_of(s: &str) -> (chars: Vec<char>)
    ensures
        chars@ == s@,
{
    let mut chars: Vec<char> = Vec::new();
    for c in it: s.chars()
        invariant
            it.seq() == s@,
            chars@ == s@.take(it.index() as int),
    {
        chars.push(c);
    }
    chars
}

/// Whether `c` is white space.
pub fn is_whitespace(c: char) -> (space: bool)
    ensures
        space == is_space(c),
{
    let n: u32 = c as u32;
    (0x09 <= n && n <= 0x0d) || n == 0x20 || n == 0x85 || n == 0xa0 || n == 0x1680 || (0x2000 <= n
        && n <= 0x200a) || n == 0x2028 || n == 0x2029 || n == 0x202f || n == 0x205f || n == 0x3000
}

/// Where `s` without the white space at its two ends begins and ends.
pub fn trim_bounds(s: &[char]) -> (bounds: (usize, usize))
    ensures
        bounds.0 <= bounds.1 <= s@.len(),
        s@.subrange(bounds.0 as int, bounds.1 as int) == trimmed(s@),
{
    let mut start: usize = 0;
    assert(s@.skip(0) =~= s@);
    while start < s.len() && is_whitespace(s[start])
        invariant
            start <= s@.len(),
            leading_spaces(s@) == start + leading_spaces(s@.skip(start as int)),
        decreases s@.len() - start,
    {
        proof {
            assert(s@.skip(start as int).drop_first() =~= s@.skip(start as int + 1));
        }
        start += 1;
    }
    let ghost rest = s@.skip(start as int);
    let mut end: usize = s.len();
    assert(rest.take(rest.len() as int) =~= rest);
    while end > start && is_whitespace(s[end - 1])
        invariant
            start <= end <= s@.len(),
            rest == s@.skip(start as int),
            trailing_spaces(rest) == (s@.len() - end) + trailing_spaces(rest.take(end - start)),
        decreases end,
    {
        proof {
            assert(rest.take(end - start).drop_last() =~= rest.take(end - start - 1));
        }
        end -= 1;
    }
    proof {
        assert(rest.take(end - start) =~= s@.subrange(start as int, end as int));
    }
    (start, end)
}

/// `s` without the white space at its two ends.
pub fn trim(s: &str) -> (inner: &str)
    ensures
        inner@ == trimmed(s@),
{
    let chars = chars_of(s);
    let (start, end) = trim_bounds(chars.as_slice());
    s.substring_char(start, end)
}

/// Whether `needle` stands in `s` at position `at`.
pub fn stands_at(s: &[char], needle: &[char], at: usize) -> (found: bool)
    ensures
        found == occurs_at(s@, needle@, at as int),
{
    if needle.len() > s.len() || at > s.len() - needle.len() {
        return false;
    }
    let mut i: usize = 0;
    while i < needle.len()
        invariant
            i <= needle@.len(),
            at + needle@.len() <= s@.len() <= usize::MAX,
            forall|k: int| 0 <= k < i ==> s@[at + k] == needle@[k],
        decreases needle@.len() - i,
    {
        if s[at + i] != needle[i] {
            proof {
                assert(s@.subrange(at as int, at + needle@.len())[i as int] == s@[at + i]);
            }
            return false;
        }
        i += 1;
    }
    proof {
        assert(s@.subrange(at as int, at + needle@.len()) =~= needle@);
    }
    true
}

/// The first position at or after `from` where `needle` stands in `s`.
pub fn find_from(s: &[char], needle: &[char], from: usize) -> (at: Option<usize>)
    ensures
        match at {
            Some(i) => first_occurrence_from(s@, needle@, from as int) == Some(i as int),
            None => first_occurrence_from(s@, needle@, from as int) is None,
        },
{
    if needle.len() > s.len() {
        return None;
    }
    let last: usize = s.len() - needle.len();
    let mut i: usize = from;
    while i < last
        invariant
            from <= i,
            last + needle@.len() == s@.len(),
            first_occurrence_from(s@, needle@, from as int) == first_occurrence_from(
                s@,
                needle@,
                i as int,
            ),
        decreases last - i,
    {
        if stands_at(s, needle, i) {
            return Some(i);
        }
        i += 1;
    }
    if i == last && stands_at(s, needle, i) {
        Some(i)
    } else {
        assert(first_occurrence_from(s@, needle@, last + 1) is None);
        None
    }
}

/// Whether `a` and `b` hold the same characters.
pub fn same_chars(a: &[char], b: &[char]) -> (same: bool)
    ensures
        same == (a@ == b@),
{
    if a.len() != b.len() {
        return false;
    }
    let mut i: usize = 0;
    while i < a.len()
        invariant
            i <= a@.len() == b@.len(),
            forall|k: int| 0 <= k < i ==> a@[k] == b@[k],
        decreases a@.len() - i,
    {
        if a[i] != b[i] {
            return false;
        }
        i += 1;
    }
    assert(a@ =~= b@);
    true
}

/// Whether `a` and `b` are the same text.
pub fn same(a: &str, b: &str) -> (same: bool)
    ensures
        same == (a@ == b@),
{
    let left = chars_of(a);
    let right = chars_of(b);
    same_chars(left.as_slice(), right.as_slice())
}

/// Calls `str::to_lowercase`. Trusted: the result is what [`lowercase_of`]
/// names.
#[verifier::external_body]
pub(crate) fn to_lowercase(text: &str) -> (lower: String)
    ensures
        lower@ == lowercase_of(text@),
{
    text.to_lowercase()
}

/// Whether `s` holds `needle` when letters of either case count alike: both
/// are put in lower case first.
pub open spec fn contains_folded(s: Seq<char>, needle: Seq<char>) -> bool {
    contains(lowercase_of(s), lowercase_of(needle))
}

/// Whether `s` holds `needle` when letters of either case count alike.
pub fn has_folded(s: &str, needle: &str) -> (found: bool)
    ensures
        found == contains_folded(s@, needle@),
{
    let low = to_lowercase(s);
    let wanted = to_lowercase(needle);
    has(low.as_str(), wanted.as_str())
}

/// The texts of `parts` from position `from` on, each without the white space
/// at its ends, with `separator` between them.
pub fn join_trimmed(parts: &Vec<String>, from: usize, separator: &str) -> (line: String)
    ensures
        line@ == joined(
            after(parts.deep_view(), from as nat).map_values(|part: Seq<char>| trimmed(part)),
            separator@,
        ),
{
    let ghost pieces = after(parts.deep_view(), from as nat).map_values(
        |part: Seq<char>| trimmed(part),
    );
    let mut line = String::new();
    if from >= parts.len() {
        assert(pieces =~= Seq::empty());
        return line;
    }
    let mut i: usize = from;
    assert(pieces.take(0) =~= Seq::empty());
    while i < parts.len()
        invariant
            from <= i <= parts@.len(),
            from < parts@.len(),
            pieces == after(parts.deep_view(), from as nat).map_values(
                |part: Seq<char>| trimmed(part),
            ),
            line@ == joined(pieces.take(i - from), separator@),
        decreases parts@.len() - i,
    {
        proof {
            assert(pieces.take(i - from + 1).drop_last() =~= pieces.take(i - from));
            assert(pieces[i - from] == trimmed(parts@[i as int]@));
            assert(pieces.take(i - from + 1).last() == pieces[i - from]);
            if i == from {
                assert(pieces.take(1)[0] == pieces[0]);
                assert(line@ + trimmed(parts@[i as int]@) =~= trimmed(parts@[i as int]@));
            }
        }
        if i > from {
            line.append(separator);
        }
        line.append(trim(parts[i].as_str()));
        i += 1;
    }
    assert(pieces.take(pieces.len() as int) =~= pieces);
    line
}

/// Whether `text` is among `texts`.
pub fn holds(texts: &Vec<String>, text: &str) -> (found: bool)
    ensures
        found == texts.deep_view().contains(text@),
{
    let wanted = chars_of(text);
    let mut i: usize = 0;
    while i < texts.len()
        invariant
            i <= texts@.len(),
            wanted@ == text@,
            forall|k: int| 0 <= k < i ==> texts.deep_view()[k] != text@,
        decreases texts@.len() - i,
    {
        let here = chars_of(texts[i].as_str());
        assert(texts.deep_view()[i as int] == texts@[i as int]@);
        if same_chars(here.as_slice(), wanted.as_slice()) {
            return true;
        }
        i += 1;
    }
    false
}

/// `texts` with each text once, in the order of first occurrence.
pub fn unique(texts: Vec<String>) -> (once: Vec<String>)
    ensures
        once.deep_view().no_duplicates(),
        once.deep_view().to_set() == texts.deep_view().to_set(),
{
    let ghost all = texts.deep_view();
    let ghost given = texts@;
    let mut once: Vec<String> = Vec::new();
    assert(once.deep_view().to_set() =~= all.take(0).to_set());
    for text in it: texts
        invariant
            given == it.seq(),
            all == given.map_values(|s: String| s@),
            once.deep_view().no_duplicates(),
            once.deep_view().to_set() == all.take(it.index() as int).to_set(),
    {
        let ghost at = it.index() as int;
        let ghost before = once.deep_view();
        let known = holds(&once, text.as_str());
        if !known {
            once.push(text);
            assert(once.deep_view() =~= before.push(all[at]));
        }
        proof {
            let after = once.deep_view();
            let seen = all.take(at);
            let next = all.take(at + 1);
            assert(next =~= seen.push(all[at]));
            assert(after.to_set() =~= next.to_set()) by {
                assert forall|t: Seq<char>| after.to_set().contains(t) <==> next.to_set().contains(
                    t,
                ) by {
                    if after.contains(t) {
                        let k = choose|k: int| 0 <= k < after.len() && after[k] == t;
                        if k < before.len() {
                            assert(before.contains(t));
                            assert(seen.to_set().contains(t));
                            let j = choose|j: int| 0 <= j < seen.len() && seen[j] == t;
                            assert(next[j] == t);
                        } else {
                            assert(next[at] == t);
                        }
                    }
                    if next.contains(t) {
                        let j = choose|j: int| 0 <= j < next.len() && next[j] == t;
                        if j < at {
                            assert(seen[j] == t);
                            assert(seen.to_set().contains(t));
                            assert(before.contains(t));
                            let k = choose|k: int| 0 <= k < before.len() && before[k] == t;
                            assert(after[k] == t);
                        } else if known {
                            assert(before.contains(t));
                            let k = choose|k: int| 0 <= k < before.len() && before[k] == t;
                            assert(after[k] == t);
                        } else {
                            assert(after[before.len() as int] == t);
                        }
                    }
                }
            }
        }
    }
    proof {
        assert(all.take(all.len() as int) =~= all);
        assert(texts.deep_view() =~= all);
    }
    once
}

/// Whether `needle` stands somewhere in `s`.
pub fn has(s: &str, needle: &str) -> (found: bool)
    ensures
        found == contains(s@, needle@),
{
    let chars = chars_of(s);
    let wanted = chars_of(needle);
    find_from(chars.as_slice(), wanted.as_slice(), 0).is_some()
}

/// Whether `bounds` mark out the pieces into which `separator` splits `s`.
pub open spec fn bounds_of_split(
    bounds: Seq<(usize, usize)>,
    s: Seq<char>,
    separator: Seq<char>,
) -> bool {
    &&& bounds.len() == split(s, separator).len()
    &&& forall|i: int|
        0 <= i < bounds.len() ==> (#[trigger] bounds[i]).0 <= bounds[i].1 <= s.len()
            && s.subrange(bounds[i].0 as int, bounds[i].1 as int) == split(s, separator)[i]
}

/// Where the pieces of `s` between the occurrences of `separator` begin and
/// end.
pub fn split_bounds(s: &[char], separator: &[char]) -> (bounds: Vec<(usize, usize)>)
    ensures
        bounds_of_split(bounds@, s@, separator@),
{
    let total: usize = s.len();
    let mut bounds: Vec<(usize, usize)> = Vec::new();
    if separator.len() == 0 {
        bounds.push((0, total));
        assert(s@.subrange(0, total as int) =~= s@);
        return bounds;
    }
    let mut start: usize = 0;
    assert(s@.skip(0) =~= s@);
    loop
        invariant
            start <= s@.len() == total,
            separator@.len() > 0,
            bounds@.len() <= split(s@, separator@).len(),
            split(s@, separator@) == split(s@, separator@).take(bounds@.len() as int) + split(
                s@.skip(start as int),
                separator@,
            ),
            forall|i: int|
                0 <= i < bounds@.len() ==> (#[trigger] bounds@[i]).0 <= bounds@[i].1 <= s@.len()
                    && s@.subrange(bounds@[i].0 as int, bounds@[i].1 as int) == split(
                    s@,
                    separator@,
                )[i],
        decreases s@.len() - start,
    {
        let ghost rest = s@.skip(start as int);
        let ghost all = split(s@, separator@);
        let ghost done = bounds@.len() as int;
        let found = find_from(s, separator, start);
        proof {
            lemma_first_occurrence_skip(s@, separator@, start as int, start as int);
            assert(all.take(done).len() == done);
        }
        match found {
            Some(at) => {
                proof {
                    lemma_first_occurrence_bounds(s@, separator@, start as int);
                    assert(rest.take(at - start) =~= s@.subrange(start as int, at as int));
                    assert(rest.skip(at - start + separator@.len()) =~= s@.skip(
                        at + separator@.len(),
                    ));
                    let next = split(s@.skip(at + separator@.len()), separator@);
                    assert(split(rest, separator@) == seq![rest.take(at - start)] + next);
                    assert(all[done] == rest.take(at - start));
                    assert(all.take(done + 1) =~= all.take(done) + seq![rest.take(at - start)]);
                    assert(all =~= all.take(done + 1) + next);
                }
                bounds.push((start, at));
                start = at + separator.len();
            },
            None => {
                proof {
                    assert(rest =~= s@.subrange(start as int, total as int));
                    assert(split(rest, separator@) == seq![rest]);
                    assert(all[done] == rest);
                    assert(all.len() == done + 1);
                }
                bounds.push((start, total));
                return bounds;
            },
        }
    }
}

/// The pieces of `s` between the occurrences of `separator`.
pub fn pieces(s: &str, separator: &str) -> (parts: Vec<String>)
    ensures
        parts.deep_view() == split(s@, separator@),
{
    let chars = chars_of(s);
    let mark = chars_of(separator);
    let bounds = split_bounds(chars.as_slice(), mark.as_slice());
    let mut parts: Vec<String> = Vec::new();
    let mut i: usize = 0;
    while i < bounds.len()
        invariant
            i <= bounds@.len(),
            chars@ == s@,
            bounds_of_split(bounds@, s@, separator@),
            parts.deep_view() =~= split(s@, separator@).take(i as int),
        decreases bounds@.len() - i,
    {
        let (from, to) = bounds[i];
        let ghost before = parts.deep_view();
        parts.push(s.substring_char(from, to).to_owned());
        proof {
            assert(parts.deep_view() =~= before.push(s@.subrange(from as int, to as int)));
        }
        i += 1;
    }
    parts
}

/// Whether `s` holds digits only.
pub fn only_digits(s: &[char]) -> (digits: bool)
    ensures
        digits == all_digits(s@),
{
    let mut i: usize = 0;
    while i < s.len()
        invariant
            i <= s@.len(),
            forall|k: int| 0 <= k < i ==> is_digit(#[trigger] s@[k]),
        decreases s@.len() - i,
    {
        if !('0' <= s[i] && s[i] <= '9') {
            return false;
        }
        i += 1;
    }
    true
}

/// The number that `s` writes, where `s` holds digits only and the number is
/// no greater than `max`.
pub fn value_of_digits(s: &[char], max: u64) -> (value: Option<u64>)
    ensures
        match value {
            Some(n) => all_digits(s@) && n == digits_value(s@) && n <= max,
            None => !all_digits(s@) || digits_value(s@) > max,
        },
{
    let mut value: u64 = 0;
    let mut i: usize = 0;
    assert(s@.take(0) =~= Seq::<char>::empty());
    while i < s.len()
        invariant
            i <= s@.len(),
            all_digits(s@.take(i as int)),
            value == digits_value(s@.take(i as int)),
            value <= max,
        decreases s@.len() - i,
    {
        if !('0' <= s[i] && s[i] <= '9') {
            return None;
        }
        let digit: u64 = (s[i] as u32 - '0' as u32) as u64;
        proof {
            assert(s@.take(i + 1).drop_last() =~= s@.take(i as int));
            assert forall|k: int| 0 <= k < i + 1 implies is_digit(#[trigger] s@.take(i + 1)[k]) by {
                if k < i {
                    assert(is_digit(s@.take(i as int)[k]));
                }
            }
            lemma_digits_value_prefix(s@, i + 1);
        }
        if value > max / 10 || digit > max - value * 10 {
            return None;
        }
        value = value * 10 + digit;
        i += 1;
    }
    proof {
        assert(s@.take(s@.len() as int) =~= s@);
    }
    Some(value)
}

/// The number no greater than `max` that `s` writes: digits, which a plus
/// sign may precede.
pub fn parse_unsigned(s: &str, max: u64) -> (number: Result<u64, NumberError>)
    ensures
        match number {
            Ok(n) => unsigned_of(s@, max as nat) == Ok::<nat, NumberError>(n as nat),
            Err(e) => unsigned_of(s@, max as nat) == Err::<nat, NumberError>(e),
        },
{
    let chars = chars_of(s);
    if chars.len() == 0 {
        return Err(NumberError::Empty);
    }
    let start: usize = if chars[0] == '+' {
        1
    } else {
        0
    };
    let digits = slice_subrange(chars.as_slice(), start, chars.len());
    proof {
        assert(digits@ =~= unsigned_body(s@));
    }
    if digits.len() == 0 || !only_digits(digits) {
        return Err(NumberError::InvalidDigit);
    }
    match value_of_digits(digits, max) {
        Some(n) => Ok(n),
        None => Err(NumberError::Overflow),
    }
}

/// The text of the digit that stands for `d`.
pub fn digit_text(d: u8) -> (text: &'static str)
    ensures
        text@ == seq![digit_char(d as nat)],
{
    proof {
        reveal_strlit("0");
        reveal_strlit("1");
        reveal_strlit("2");
        reveal_strlit("3");
        reveal_strlit("4");
        reveal_strlit("5");
        reveal_strlit("6");
        reveal_strlit("7");
        reveal_strlit("8");
        reveal_strlit("9");
    }
    let text = if d == 0 {
        "0"
    } else if d == 1 {
        "1"
    } else if d == 2 {
        "2"
    } else if d == 3 {
        "3"
    } else if d == 4 {
        "4"
    } else if d == 5 {
        "5"
    } else if d == 6 {
        "6"
    } else if d == 7 {
        "7"
    } else if d == 8 {
        "8"
    } else {
        "9"
    };
    assert(text@ =~= seq![digit_char(d as nat)]);
    text
}

/// The digits that write `n` in base ten, without leading zeros.
pub fn number_to_text(n: u64) -> (text: String)
    ensures
        text@ == number_text(n as nat),
    decreases n,
{
    if n < 10 {
        digit_text(n as u8).to_owned()
    } else {
        let mut text = number_to_text(n / 10);
        text.append(digit_text((n % 10) as u8));
        assert(text@ =~= number_text(n as nat / 10).push(digit_char(n as nat % 10)));
        text
    }
}

/// The digits that write a number write that number: reading follows
/// writing.
pub proof fn lemma_number_text_value(n: nat)
    ensures
        all_digits(number_text(n)),
        digits_value(number_text(n)) == n,
        number_text(n).len() > 0,
    decreases n,
{
    if n < 10 {
        assert(number_text(n).drop_last() =~= Seq::<char>::empty());
        assert(digits_value(number_text(n)) == digit_value(digit_char(n))) by {
            reveal_with_fuel(digits_value, 2);
        }
    } else {
        lemma_number_text_value(n / 10);
        let head = number_text(n / 10);
        assert(number_text(n).drop_last() =~= head);
        assert forall|i: int| 0 <= i < number_text(n).len() implies is_digit(
            #[trigger] number_text(n)[i],
        ) by {
            if i < head.len() {
                assert(is_digit(head[i]));
            }
        }
    }
}

/// The digits of a prefix write no more than all the digits do.
pub proof fn lemma_digits_value_prefix(s: Seq<char>, n: int)
    requires
        0 <= n <= s.len(),
    ensures
        digits_value(s.take(n)) <= digits_value(s),
    decreases s.len() - n,
{
    if n < s.len() {
        lemma_digits_value_prefix(s, n + 1);
        assert(s.take(n + 1).drop_last() =~= s.take(n));
    } else {
        assert(s.take(n) =~= s);
    }
}

/// An occurrence sought from `from` lies at or after `from` and within `s`.
pub proof fn lemma_first_occurrence_bounds(s: Seq<char>, needle: Seq<char>, from: int)
    ensures
        first_occurrence_from(s, needle, from) matches Some(at) ==> from <= at && occurs_at(
            s,
            needle,
            at,
        ),
    decreases s.len() + 1 - from,
{
    if !(from < 0 || from + needle.len() > s.len()) && !occurs_at(s, needle, from) {
        lemma_first_occurrence_bounds(s, needle, from + 1);
    }
}

/// Where the needle stands at `at`, seeking from no later than `at` finds
/// it, there or before: what is found is the least position.
pub proof fn lemma_first_occurrence_least(s: Seq<char>, needle: Seq<char>, from: int, at: int)
    requires
        0 <= from <= at,
        occurs_at(s, needle, at),
    ensures
        first_occurrence_from(s, needle, from) matches Some(first) && from <= first <= at
            && occurs_at(s, needle, first),
    decreases at - from,
{
    if from < at && !occurs_at(s, needle, from) {
        lemma_first_occurrence_least(s, needle, from + 1, at);
    }
}

/// A text in which the separator's first character does not occur, then the
/// separator, then more text: that text is the first piece, and the pieces of
/// the rest follow.
pub proof fn lemma_split_first(first: Seq<char>, separator: Seq<char>, rest: Seq<char>)
    requires
        separator.len() > 0,
        forall|i: int| 0 <= i < first.len() ==> #[trigger] first[i] != separator[0],
    ensures
        split(first + separator + rest, separator) == seq![first] + split(rest, separator),
{
    let s = first + separator + rest;
    let at = first.len() as int;
    assert(s.subrange(at, at + separator.len()) =~= separator);
    lemma_first_occurrence_least(s, separator, 0, at);
    let found = first_occurrence(s, separator).unwrap();
    if found < at {
        assert(s.subrange(found, found + separator.len())[0] == separator[0]);
        assert(s[found] == first[found]);
    }
    assert(s.take(at) =~= first);
    assert(s.skip(at + separator.len()) =~= rest);
}

/// A text in which the separator's first character does not occur is one
/// piece.
pub proof fn lemma_split_whole(s: Seq<char>, separator: Seq<char>)
    requires
        separator.len() > 0,
        forall|i: int| 0 <= i < s.len() ==> #[trigger] s[i] != separator[0],
    ensures
        split(s, separator) == seq![s],
{
    lemma_first_occurrence_bounds(s, separator, 0);
    if first_occurrence(s, separator) is Some {
        let at = first_occurrence(s, separator).unwrap();
        assert(s.subrange(at, at + separator.len())[0] == separator[0]);
    }
}

/// Joined texts begin with the first of them.
pub proof fn lemma_joined_first(parts: Seq<Seq<char>>, separator: Seq<char>)
    requires
        parts.len() >= 2,
    ensures
        joined(parts, separator) == parts[0] + separator + joined(parts.drop_first(), separator),
    decreases parts.len(),
{
    if parts.len() == 2 {
        assert(joined(parts.drop_last(), separator) == parts[0]);
        assert(joined(parts.drop_first(), separator) == parts[1]);
    } else {
        lemma_joined_first(parts.drop_last(), separator);
        assert(parts.drop_last().drop_first() =~= parts.drop_first().drop_last());
        assert(parts.drop_first().last() == parts.last());
        assert(joined(parts, separator) =~= parts[0] + separator + joined(
            parts.drop_first(),
            separator,
        ));
    }
}

/// Splitting undoes joining: texts in which the separator's first character
/// does not occur, joined by the separator, split into those texts.
pub proof fn lemma_split_joined(parts: Seq<Seq<char>>, separator: Seq<char>)
    requires
        parts.len() > 0,
        separator.len() > 0,
        forall|p: int, i: int|
            0 <= p < parts.len() && 0 <= i < parts[p].len() ==> #[trigger] parts[p][i]
                != separator[0],
    ensures
        split(joined(parts, separator), separator) == parts,
    decreases parts.len(),
{
    if parts.len() == 1 {
        lemma_split_whole(parts[0], separator);
        assert(seq![parts[0]] =~= parts);
    } else {
        let rest = parts.drop_first();
        assert forall|p: int, i: int|
            0 <= p < rest.len() && 0 <= i < rest[p].len() implies #[trigger] rest[p][i]
            != separator[0] by {
            assert(parts[p + 1][i] != separator[0]);
        }
        lemma_split_joined(rest, separator);
        lemma_joined_first(parts, separator);
        lemma_split_first(parts[0], separator, joined(rest, separator));
        assert(seq![parts[0]] + rest =~= parts);
    }
}

/// Seeking in `s` from `from` is seeking in `s` without its first `cut`
/// characters from `from - cut`.
pub proof fn lemma_first_occurrence_skip(s: Seq<char>, needle: Seq<char>, cut: int, from: int)
    requires
        0 <= cut <= from,
        cut <= s.len(),
    ensures
        first_occurrence_from(s, needle, from) == match first_occurrence_from(
            s.skip(cut),
            needle,
            from - cut,
        ) {
            Some(at) => Some(at + cut),
            None => None,
        },
    decreases s.len() + 1 - from,
{
    if !(from < 0 || from + needle.len() > s.len()) {
        assert(s.skip(cut).subrange(from - cut, from - cut + needle.len()) =~= s.subrange(
            from,
            from + needle.len(),
        ));
        if !occurs_at(s, needle, from) {
            lemma_first_occurrence_skip(s, needle, cut, from + 1);
        }
    }
}

} // verus!
