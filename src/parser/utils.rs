//! Splitting lines into tokens and reading unsigned integers.
use vstd::prelude::*;

verus! {

/// Unicode `White_Space`: the characters that `str::trim` and
/// `str::split_whitespace` treat as blanks.
pub open spec fn is_white(c: char) -> bool {
    ('\t' <= c && c <= '\r') || c == ' ' || c == '\u{85}' || c == '\u{a0}' || c == '\u{1680}'
        || ('\u{2000}' <= c && c <= '\u{200a}') || c == '\u{2028}' || c == '\u{2029}'
        || c == '\u{202f}' || c == '\u{205f}' || c == '\u{3000}'
}

/// Whether `c` is a blank character.
pub fn is_white_char(c: char) -> (r: bool)
    ensures
        r == is_white(c),
{
    ('\t' <= c && c <= '\r') || c == ' ' || c == '\u{85}' || c == '\u{a0}' || c == '\u{1680}'
        || ('\u{2000}' <= c && c <= '\u{200a}') || c == '\u{2028}' || c == '\u{2029}'
        || c == '\u{202f}' || c == '\u{205f}' || c == '\u{3000}'
}

/// The first index at or after `i` that holds a `#`, or the length of `s`.
pub open spec fn hash_from(s: Seq<char>, i: int) -> int
    decreases s.len() - i,
{
    if i >= s.len() {
        s.len() as int
    } else if s[i] == '#' {
        i
    } else {
        hash_from(s, i + 1)
    }
}

/// The first index in `i..end` that holds a non-blank character, or `end`.
pub open spec fn lead_from(s: Seq<char>, i: int, end: int) -> int
    decreases end - i,
{
    if i >= end {
        end
    } else if !is_white(s[i]) {
        i
    } else {
        lead_from(s, i + 1, end)
    }
}

/// The end of `start..end` once blank characters are taken off its back.
pub open spec fn trail_to(s: Seq<char>, start: int, end: int) -> int
    decreases end - start,
{
    if end <= start {
        start
    } else if !is_white(s[end - 1]) {
        end
    } else {
        trail_to(s, start, end - 1)
    }
}

/// A line with everything from its first `#` on removed, then trimmed of
/// blanks at both ends.
pub open spec fn clean(line: Seq<char>) -> Seq<char> {
    let h = hash_from(line, 0);
    let a = lead_from(line, 0, h);
    let b = trail_to(line, a, h);
    line.subrange(a, b)
}

/// The first index at or after `i` that holds a blank character, or the length of `s`.
pub open spec fn word_end(s: Seq<char>, i: int) -> int
    decreases s.len() - i,
{
    if i >= s.len() {
        s.len() as int
    } else if is_white(s[i]) {
        i
    } else {
        word_end(s, i + 1)
    }
}

/// The maximal runs of non-blank characters of `s` at or after `i`, in order.
pub open spec fn tokens_from(s: Seq<char>, i: int) -> Seq<Seq<char>>
    decreases s.len() - i,
{
    if i < 0 || i >= s.len() {
        Seq::empty()
    } else {
        let a = lead_from(s, i, s.len() as int);
        if a >= s.len() {
            Seq::empty()
        } else {
            proof {
                lemma_lead_bounds(s, i, s.len() as int);
                lemma_word_end_bounds(s, a);
            }
            let b = word_end(s, a);
            seq![s.subrange(a, b)] + tokens_from(s, b)
        }
    }
}

/// The tokens of a line: its maximal runs of non-blank characters.
pub open spec fn tokens(s: Seq<char>) -> Seq<Seq<char>> {
    tokens_from(s, 0)
}

pub proof fn lemma_lead_bounds(s: Seq<char>, i: int, end: int)
    requires
        0 <= i <= end <= s.len(),
    ensures
        i <= lead_from(s, i, end) <= end,
        lead_from(s, i, end) < end ==> !is_white(s[lead_from(s, i, end)]),
        forall|k: int| i <= k < lead_from(s, i, end) ==> is_white(#[trigger] s[k]),
    decreases end - i,
{
    if i < end && is_white(s[i]) {
        lemma_lead_bounds(s, i + 1, end);
    }
}

pub proof fn lemma_word_end_bounds(s: Seq<char>, i: int)
    requires
        0 <= i <= s.len(),
    ensures
        i <= word_end(s, i) <= s.len(),
        i < s.len() && !is_white(s[i]) ==> i < word_end(s, i),
        word_end(s, i) < s.len() ==> is_white(s[word_end(s, i)]),
        forall|k: int| i <= k < word_end(s, i) ==> !is_white(#[trigger] s[k]),
    decreases s.len() - i,
{
    if i < s.len() && !is_white(s[i]) {
        lemma_word_end_bounds(s, i + 1);
    }
}

pub proof fn lemma_hash_bounds(s: Seq<char>, i: int)
    requires
        0 <= i <= s.len(),
    ensures
        i <= hash_from(s, i) <= s.len(),
        hash_from(s, i) < s.len() ==> s[hash_from(s, i)] == '#',
        forall|k: int| i <= k < hash_from(s, i) ==> #[trigger] s[k] != '#',
    decreases s.len() - i,
{
    if i < s.len() && s[i] != '#' {
        lemma_hash_bounds(s, i + 1);
    }
}

pub proof fn lemma_trail_bounds(s: Seq<char>, start: int, end: int)
    requires
        0 <= start <= end <= s.len(),
    ensures
        start <= trail_to(s, start, end) <= end,
        trail_to(s, start, end) > start ==> !is_white(s[trail_to(s, start, end) - 1]),
        forall|k: int| trail_to(s, start, end) <= k < end ==> is_white(#[trigger] s[k]),
    decreases end - start,
{
    if start < end && is_white(s[end - 1]) {
        lemma_trail_bounds(s, start, end - 1);
    }
}

/// The characters of `s`, in order.
pub fn chars_of(s: &str) -> (r: Vec<char>)
    ensures
        r@ == s@,
{
    let mut r: Vec<char> = Vec::new();
    for c in it: s.chars()
        invariant
            r@ == it.seq().take(it.index() as int),
    {
        r.push(c);
    }
    r
}

/// Relies on `String: FromIterator<char>`: collecting characters into a
/// string keeps them in order.
#[verifier::external_body]
pub(crate) fn string_of(chars: &[char]) -> (r: String)
    ensures
        r@ == chars@,
{
    chars.iter().collect()
}

/// The characters `s[start..end]` as a vector of their own.
pub fn copy_range(s: &Vec<char>, start: usize, end: usize) -> (r: Vec<char>)
    requires
        start <= end <= s.len(),
    ensures
        r@ == s@.subrange(start as int, end as int),
{
    let mut r: Vec<char> = Vec::new();
    let mut i: usize = start;
    while i < end
        invariant
            start <= i <= end <= s.len(),
            r@ == s@.subrange(start as int, i as int),
        decreases end - i,
    {
        r.push(s[i]);
        i = i + 1;
    }
    r
}

/// Removes a comment (from the first `#` on) and the blanks around what is left.
pub fn clean_chars(line: &Vec<char>) -> (r: Vec<char>)
    ensures
        r@ == clean(line@),
{
    let n = line.len();
    let mut h: usize = 0;
    while h < n && line[h] != '#'
        invariant
            h <= n == line.len(),
            hash_from(line@, h as int) == hash_from(line@, 0),
        decreases n - h,
    {
        h = h + 1;
    }
    let mut a: usize = 0;
    while a < h && is_white_char(line[a])
        invariant
            a <= h <= n == line.len(),
            h == hash_from(line@, 0),
            lead_from(line@, a as int, h as int) == lead_from(line@, 0, h as int),
        decreases h - a,
    {
        a = a + 1;
    }
    let mut b: usize = h;
    while b > a && is_white_char(line[b - 1])
        invariant
            a <= b <= h <= n == line.len(),
            h == hash_from(line@, 0),
            a == lead_from(line@, 0, h as int),
            trail_to(line@, a as int, b as int) == trail_to(line@, a as int, h as int),
        decreases b - a,
    {
        b = b - 1;
    }
    copy_range(line, a, b)
}

/// Splits `s` into its maximal runs of non-blank characters.
pub fn split_chars(s: &Vec<char>) -> (r: Vec<Vec<char>>)
    ensures
        r@.map_values(|t: Vec<char>| t@) == tokens(s@),
{
    let n = s.len();
    let mut r: Vec<Vec<char>> = Vec::new();
    let mut i: usize = 0;
    while i < n
        invariant
            i <= n == s.len(),
            r@.map_values(|t: Vec<char>| t@) + tokens_from(s@, i as int) == tokens(s@),
        decreases n - i,
    {
        let mut a: usize = i;
        while a < n && is_white_char(s[a])
            invariant
                i <= a <= n == s.len(),
                lead_from(s@, a as int, n as int) == lead_from(s@, i as int, n as int),
            decreases n - a,
        {
            a = a + 1;
        }
        if a >= n {
            assert(tokens_from(s@, i as int) == Seq::<Seq<char>>::empty());
            i = n;
        } else {
            let mut b: usize = a;
            while b < n && !is_white_char(s[b])
                invariant
                    a <= b <= n == s.len(),
                    word_end(s@, b as int) == word_end(s@, a as int),
                decreases n - b,
            {
                b = b + 1;
            }
            let t = copy_range(s, a, b);
            let ghost before = r@.map_values(|t: Vec<char>| t@);
            r.push(t);
            assert(r@.map_values(|t: Vec<char>| t@) == before.push(t@));
            assert(tokens_from(s@, i as int) == seq![t@] + tokens_from(s@, b as int));
            assert(before.push(t@) + tokens_from(s@, b as int) == before + tokens_from(s@, i as int));
            i = b;
        }
    }
    r
}

/// Whether `c` is an ASCII decimal digit.
pub open spec fn is_digit(c: char) -> bool {
    '0' <= c && c <= '9'
}

/// The value of a decimal digit.
pub open spec fn digit_value(c: char) -> int {
    c as int - '0' as int
}

/// The value of a string of decimal digits, most significant first.
pub open spec fn digits_value(s: Seq<char>) -> int
    decreases s.len(),
{
    if s.len() == 0 {
        0
    } else {
        digits_value(s.drop_last()) * 10 + digit_value(s.last())
    }
}

/// Whether every character of `s` is a decimal digit.
pub open spec fn all_digits(s: Seq<char>) -> bool {
    forall|k: int| 0 <= k < s.len() ==> is_digit(#[trigger] s[k])
}

/// The digits of an unsigned numeral: what follows an optional leading `+`.
pub open spec fn unsigned_digits(s: Seq<char>) -> Seq<char> {
    if s.len() > 0 && s[0] == '+' {
        s.drop_first()
    } else {
        s
    }
}

/// The value of an unsigned numeral (an optional `+`, then one or more
/// decimal digits) when it is at most `max`, as `str::parse` reads one for an
/// unsigned integer type whose largest value is `max`.
pub open spec fn unsigned_of(s: Seq<char>, max: int) -> Option<int> {
    let d = unsigned_digits(s);
    if d.len() > 0 && all_digits(d) && digits_value(d) <= max {
        Some(digits_value(d))
    } else {
        None
    }
}

pub proof fn lemma_digits_value_prefix(s: Seq<char>, j: int)
    requires
        0 <= j <= s.len(),
        all_digits(s),
    ensures
        0 <= digits_value(s.take(j)) <= digits_value(s),
    decreases s.len() - j,
{
    if j < s.len() {
        lemma_digits_value_prefix(s, j + 1);
        assert(s.take(j + 1).drop_last() == s.take(j));
        assert(is_digit(s[j]));
    } else {
        assert(s.take(j) == s);
        lemma_digits_value_nonneg(s);
    }
}

pub proof fn lemma_digits_value_nonneg(s: Seq<char>)
    requires
        all_digits(s),
    ensures
        digits_value(s) >= 0,
    decreases s.len(),
{
    if s.len() > 0 {
        assert(all_digits(s.drop_last()));
        assert(is_digit(s[s.len() - 1]));
        lemma_digits_value_nonneg(s.drop_last());
    }
}

/// An unsigned numeral's value lies between 0 and `max`.
pub proof fn lemma_unsigned_range(s: Seq<char>, max: int)
    requires
        unsigned_of(s, max) is Some,
    ensures
        0 <= unsigned_of(s, max)->0 <= max,
{
    lemma_digits_value_nonneg(unsigned_digits(s));
}

/// Reads an unsigned numeral no larger than `max`.
pub fn parse_unsigned(s: &Vec<char>, max: usize) -> (r: Option<usize>)
    ensures
        r is Some <==> unsigned_of(s@, max as int) is Some,
        r is Some ==> r->0 as int == unsigned_of(s@, max as int)->0,
{
    let n = s.len();
    let start: usize = if n > 0 && s[0] == '+' { 1 } else { 0 };
    let ghost d = unsigned_digits(s@);
    assert(d == s@.subrange(start as int, n as int));
    if start >= n {
        return None;
    }
    let mut value: usize = 0;
    let mut i: usize = start;
    while i < n
        invariant
            start <= i <= n == s.len(),
            d == s@.subrange(start as int, n as int),
            d == unsigned_digits(s@),
            all_digits(d.take(i - start)),
            value as int == digits_value(d.take(i - start)),
            value <= max,
        decreases n - i,
    {
        let c = s[i];
        if !('0' <= c && c <= '9') {
            assert(d[i - start] == c);
            assert(!is_digit(d[i - start]));
            assert(!all_digits(d));
            return None;
        }
        let digit = (c as u32 - '0' as u32) as usize;
        assert(d.take(i + 1 - start).drop_last() == d.take(i - start));
        assert(d.take(i + 1 - start).last() == c);
        if digit > max || value > (max - digit) / 10 {
            assert(value * 10 + digit > max) by (nonlinear_arith)
                requires
                    digit > max || value > (max - digit) / 10,
            ;
            proof {
                if all_digits(d) {
                    lemma_digits_value_prefix(d, i + 1 - start);
                }
            }
            return None;
        }
        assert(value * 10 + digit <= max) by (nonlinear_arith)
            requires
                value <= (max - digit) / 10,
                digit <= max,
        ;
        value = value * 10 + digit;
        i = i + 1;
        assert(all_digits(d.take(i - start))) by {
            assert forall|k: int| 0 <= k < d.take(i - start).len() implies is_digit(
                #[trigger] d.take(i - start)[k],
            ) by {
                if k < i - 1 - start {
                    assert(d.take(i - start)[k] == d.take(i - 1 - start)[k]);
                }
            }
        }
    }
    assert(d.take(n - start) == d);
    Some(value)
}

/// Reads a `usize` as `str::parse::<usize>` does.
pub fn parse_usize(s: &str) -> (r: Option<usize>)
    ensures
        r is Some <==> unsigned_of(s@, usize::MAX as int) is Some,
        r is Some ==> r->0 as int == unsigned_of(s@, usize::MAX as int)->0,
{
    let chars = chars_of(s);
    parse_unsigned(&chars, usize::MAX)
}

/// Reads a `u8` as `str::parse::<u8>` does.
pub fn parse_u8(s: &str) -> (r: Option<u8>)
    ensures
        r is Some <==> unsigned_of(s@, 255) is Some,
        r is Some ==> r->0 as int == unsigned_of(s@, 255)->0,
{
    let chars = chars_of(s);
    match parse_unsigned(&chars, 255) {
        Some(v) => Some(v as u8),
        None => None,
    }
}

/// The tokens before the first one that opens a comment (starts with `#`).
pub open spec fn before_comment(ts: Seq<Seq<char>>) -> Seq<Seq<char>>
    decreases ts.len(),
{
    if ts.len() == 0 || (ts[0].len() > 0 && ts[0][0] == '#') {
        Seq::empty()
    } else {
        seq![ts[0]] + before_comment(ts.drop_first())
    }
}

/// The words of a line: its blank-separated tokens, up to the first one that
/// starts a comment.
pub open spec fn words(s: Seq<char>) -> Seq<Seq<char>> {
    before_comment(tokens(s))
}

/// Splits a line at blanks, dropping the tokens from the first one that starts
/// with `#` on.
pub fn split_line(line: &str) -> (r: Vec<String>)
    ensures
        r@.map_values(|t: String| t@) == words(line@),
{
    let chars = chars_of(line);
    let ts = split_chars(&chars);
    let ghost all = ts@.map_values(|t: Vec<char>| t@);
    let mut r: Vec<String> = Vec::new();
    let mut i: usize = 0;
    assert(all.skip(0) == all);
    assert(r@.map_values(|t: String| t@) == Seq::<Seq<char>>::empty());
    assert(Seq::<Seq<char>>::empty() + before_comment(all) == before_comment(all));
    while i < ts.len()
        invariant
            i <= ts.len(),
            all == ts@.map_values(|t: Vec<char>| t@),
            all == tokens(line@),
            r@.map_values(|t: String| t@) + before_comment(all.skip(i as int)) == words(line@),
        decreases ts.len() - i,
    {
        assert(all.skip(i as int)[0] == ts@[i as int]@);
        if ts[i].len() > 0 && ts[i][0] == '#' {
            assert(before_comment(all.skip(i as int)) == Seq::<Seq<char>>::empty());
            assert(r@.map_values(|t: String| t@) + Seq::<Seq<char>>::empty() == r@.map_values(
                |t: String| t@,
            ));
            return r;
        }
        let ghost before = r@.map_values(|t: String| t@);
        let word = string_of(ts[i].as_slice());
        r.push(word);
        assert(r@.map_values(|t: String| t@) == before.push(ts@[i as int]@));
        assert(all.skip(i as int).drop_first() == all.skip(i + 1));
        assert(before.push(ts@[i as int]@) + before_comment(all.skip(i + 1)) == before
            + before_comment(all.skip(i as int)));
        i = i + 1;
    }
    assert(all.skip(i as int).len() == 0);
    assert(before_comment(all.skip(i as int)) == Seq::<Seq<char>>::empty());
    assert(r@.map_values(|t: String| t@) + Seq::<Seq<char>>::empty() == r@.map_values(
        |t: String| t@,
    ));
    r
}

/// The views of some strings.
pub open spec fn views(parts: Seq<String>) -> Seq<Seq<char>> {
    parts.map_values(|p: String| p@)
}

/// Splits `s` into its maximal runs of non-blank characters, as strings.
pub fn tokens_of(s: &Vec<char>) -> (r: Vec<String>)
    ensures
        views(r@) == tokens(s@),
{
    let ts = split_chars(s);
    let mut r: Vec<String> = Vec::new();
    let mut i: usize = 0;
    while i < ts.len()
        invariant
            i <= ts.len(),
            ts@.map_values(|t: Vec<char>| t@) == tokens(s@),
            views(r@) == ts@.map_values(|t: Vec<char>| t@).take(i as int),
        decreases ts.len() - i,
    {
        let ghost before = views(r@);
        r.push(string_of(ts[i].as_slice()));
        assert(views(r@) == before.push(ts@[i as int]@));
        assert(ts@.map_values(|t: Vec<char>| t@).take(i + 1) == ts@.map_values(
            |t: Vec<char>| t@,
        ).take(i as int).push(ts@[i as int]@));
        i = i + 1;
    }
    assert(ts@.map_values(|t: Vec<char>| t@).take(i as int) == ts@.map_values(|t: Vec<char>| t@));
    r
}

} // verus!
