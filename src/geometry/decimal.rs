//! Exact decimal numbers, read from the numerals of a document.
use vstd::prelude::*;

use crate::parser::utils::{all_digits, chars_of, digit_value, is_digit};
use vstd::arithmetic::div_mod::{lemma_div_denominator, lemma_hoist_over_denominator};

verus! {

/// Exponents written with a larger magnitude are read as this magnitude.
pub const EXPONENT_CAP: u64 = 1_000_000_000;

/// The number `(-1)^negative * digits * 10^exponent`, in canonical form: the
/// digits (values 0 to 9, most significant first) have no leading and no
/// trailing zero, and zero is written with no digits, exponent 0 and no sign.
/// Two canonical decimals are equal exactly when their values are.
#[derive(Debug, PartialEq, Eq, Default)]
pub struct Decimal {
    pub negative: bool,
    pub digits: Vec<u8>,
    pub exponent: i128,
}

/// The model of a decimal: sign, digits and exponent.
pub type DecimalModel = (bool, Seq<u8>, int);

impl View for Decimal {
    type V = DecimalModel;

    open spec fn view(&self) -> DecimalModel {
        (self.negative, self.digits@, self.exponent as int)
    }
}

/// The first index at or after `i` that holds `e` or `E`, or the length of `s`.
pub open spec fn exp_mark_from(s: Seq<char>, i: int) -> int
    decreases s.len() - i,
{
    if i >= s.len() {
        s.len() as int
    } else if s[i] == 'e' || s[i] == 'E' {
        i
    } else {
        exp_mark_from(s, i + 1)
    }
}

/// The first index in `i..end` that holds `.`, or `end`.
pub open spec fn dot_from(s: Seq<char>, i: int, end: int) -> int
    decreases end - i,
{
    if i >= end {
        end
    } else if s[i] == '.' {
        i
    } else {
        dot_from(s, i + 1, end)
    }
}

/// The length of an optional leading sign.
pub open spec fn sign_len(s: Seq<char>) -> int {
    if s.len() > 0 && (s[0] == '+' || s[0] == '-') {
        1
    } else {
        0
    }
}

/// The values of a string of decimal digits.
pub open spec fn digit_values(s: Seq<char>) -> Seq<u8> {
    s.map_values(|c: char| digit_value(c) as u8)
}

/// The first index at or after `i` whose digit is not zero, or the length of `d`.
pub open spec fn nonzero_from(d: Seq<u8>, i: int) -> int
    decreases d.len() - i,
{
    if i >= d.len() {
        d.len() as int
    } else if d[i] != 0 {
        i
    } else {
        nonzero_from(d, i + 1)
    }
}

/// The end of `start..end` once zeros are taken off its back.
pub open spec fn nonzero_to(d: Seq<u8>, start: int, end: int) -> int
    decreases end - start,
{
    if end <= start {
        start
    } else if d[end - 1] != 0 {
        end
    } else {
        nonzero_to(d, start, end - 1)
    }
}

/// The value of a string of decimal digits, saturating at `EXPONENT_CAP`.
pub open spec fn capped_value(s: Seq<char>) -> int
    decreases s.len(),
{
    if s.len() == 0 {
        0
    } else {
        let v = capped_value(s.drop_last()) * 10 + digit_value(s.last());
        if v > EXPONENT_CAP {
            EXPONENT_CAP as int
        } else {
            v
        }
    }
}

/// Where the mantissa of a numeral starts: after an optional sign.
pub open spec fn mantissa_start(s: Seq<char>) -> int {
    sign_len(s)
}

/// Where the exponent mark of a numeral stands, or its length.
pub open spec fn exp_mark(s: Seq<char>) -> int {
    exp_mark_from(s, mantissa_start(s))
}

/// Where the `.` of the mantissa stands, or the end of the mantissa.
pub open spec fn dot_pos(s: Seq<char>) -> int {
    dot_from(s, mantissa_start(s), exp_mark(s))
}

/// Where the fraction digits start.
pub open spec fn frac_start(s: Seq<char>) -> int {
    if dot_pos(s) < exp_mark(s) {
        dot_pos(s) + 1
    } else {
        exp_mark(s)
    }
}

/// The digits before the `.`.
pub open spec fn int_part(s: Seq<char>) -> Seq<char> {
    s.subrange(mantissa_start(s), dot_pos(s))
}

/// The digits after the `.`.
pub open spec fn frac_part(s: Seq<char>) -> Seq<char> {
    s.subrange(frac_start(s), exp_mark(s))
}

/// What follows the exponent mark.
pub open spec fn exp_text(s: Seq<char>) -> Seq<char> {
    if exp_mark(s) < s.len() {
        s.subrange(exp_mark(s) + 1, s.len() as int)
    } else {
        Seq::empty()
    }
}

/// The digits of the exponent, after its optional sign.
pub open spec fn exp_digits(s: Seq<char>) -> Seq<char> {
    exp_text(s).skip(sign_len(exp_text(s)))
}

/// Whether `s` is a numeral: an optional sign, then digits with at most one
/// `.` and at least one digit, then optionally `e` or `E`, an optional sign
/// and one or more digits.
pub open spec fn is_numeral(s: Seq<char>) -> bool {
    &&& all_digits(int_part(s))
    &&& all_digits(frac_part(s))
    &&& int_part(s).len() + frac_part(s).len() > 0
    &&& exp_mark(s) == s.len() || (exp_digits(s).len() > 0 && all_digits(exp_digits(s)))
}

/// The exponent as written, its magnitude capped at `EXPONENT_CAP`.
pub open spec fn written_exponent(s: Seq<char>) -> int {
    if exp_text(s).len() > 0 && exp_text(s)[0] == '-' {
        -capped_value(exp_digits(s))
    } else {
        capped_value(exp_digits(s))
    }
}

/// The canonical form of `(-1)^negative * all * 10^exp`, where `all` are the
/// digit values of the mantissa.
pub open spec fn canonical(negative: bool, all: Seq<u8>, exp: int) -> DecimalModel {
    let a = nonzero_from(all, 0);
    let b = nonzero_to(all, a, all.len() as int);
    if a == all.len() {
        (false, Seq::empty(), 0)
    } else {
        (negative, all.subrange(a, b), exp + (all.len() - b))
    }
}

/// The canonical decimal that the numeral `s` denotes, if it is one.
pub open spec fn decimal_of(s: Seq<char>) -> Option<DecimalModel> {
    if !is_numeral(s) {
        None
    } else {
        Some(
            canonical(
                s.len() > 0 && s[0] == '-',
                digit_values(int_part(s) + frac_part(s)),
                written_exponent(s) - frac_part(s).len(),
            ),
        )
    }
}

/// Whether a canonical decimal lies in the closed interval from 0 to 1. With
/// `k` digits and no leading zero the value lies in `[10^(k+e-1), 10^(k+e))`,
/// so it is at most 1 when `k + e <= 0`, or when `k + e == 1` and the digits
/// are a single 1 (`lemma_unit_interval_value` proves this).
pub open spec fn in_unit_interval(d: DecimalModel) -> bool {
    d.1.len() == 0 || (!d.0 && (d.1.len() + d.2 <= 0 || (d.1.len() + d.2 == 1 && d.1 == seq![
        1u8,
    ])))
}

/// Ten to the power `n`.
pub open spec fn pow10(n: nat) -> nat
    decreases n,
{
    if n == 0 {
        1
    } else {
        10 * pow10((n - 1) as nat)
    }
}

/// The integer that digit values spell, most significant first.
pub open spec fn mantissa(d: Seq<u8>) -> nat
    decreases d.len(),
{
    if d.len() == 0 {
        0
    } else {
        (mantissa(d.drop_last()) * 10 + d.last()) as nat
    }
}

/// Whether a decimal is in canonical form: digits from 0 to 9, no leading or
/// trailing zero, and zero written with no digits, no sign and exponent 0.
pub open spec fn is_canonical(d: DecimalModel) -> bool {
    &&& forall|k: int| 0 <= k < d.1.len() ==> #[trigger] d.1[k] <= 9
    &&& d.1.len() > 0 ==> d.1[0] != 0 && d.1[d.1.len() - 1] != 0
    &&& d.1.len() == 0 ==> !d.0 && d.2 == 0
}

/// Twice 255 times the value of a non-negative decimal, rounded down.
pub open spec fn halves(d: DecimalModel) -> int {
    if d.2 >= 0 {
        (510 * mantissa(d.1) * pow10(d.2 as nat)) as int
    } else {
        (510 * mantissa(d.1)) as int / pow10((-d.2) as nat) as int
    }
}

/// The byte nearest to 255 times the value of a decimal, halves rounded up.
pub open spec fn unit_byte(d: DecimalModel) -> int {
    (halves(d) + 1) / 2
}

pub proof fn lemma_small_powers()
    ensures
        pow10(0) == 1,
        pow10(1) == 10,
        pow10(2) == 100,
        pow10(3) == 1000,
{
    assert(pow10(0) == 1);
    assert(pow10(1) == 10);
    assert(pow10(2) == 100);
    assert(pow10(3) == 1000);
}

pub proof fn lemma_pow10_positive(n: nat)
    ensures
        pow10(n) >= 1,
    decreases n,
{
    if n > 0 {
        lemma_pow10_positive((n - 1) as nat);
    }
}

pub proof fn lemma_pow10_add(a: nat, b: nat)
    ensures
        pow10(a + b) == pow10(a) * pow10(b),
    decreases a,
{
    if a == 0 {
        assert(a + b == b);
        assert(pow10(a) == 1);
    } else {
        lemma_pow10_add((a - 1) as nat, b);
        assert(pow10(a) == 10 * pow10((a - 1) as nat));
        assert((a - 1 + b) as nat == (a + b - 1) as nat);
        assert(pow10(a + b) == 10 * pow10((a - 1 + b) as nat));
        assert(10 * (pow10((a - 1) as nat) * pow10(b)) == (10 * pow10((a - 1) as nat)) * pow10(b))
            by (nonlinear_arith);
    }
}

/// Putting a digit in front multiplies it by ten to the length of the rest.
pub proof fn lemma_mantissa_front(x: u8, s: Seq<u8>)
    ensures
        mantissa(seq![x] + s) == x * pow10(s.len()) + mantissa(s),
    decreases s.len(),
{
    let t = seq![x] + s;
    if s.len() == 0 {
        assert(t.drop_last() == Seq::<u8>::empty());
        assert(t.last() == x);
        assert(mantissa(Seq::<u8>::empty()) == 0);
        assert(pow10(0) == 1);
        assert(mantissa(t) == x);
    } else {
        assert(t.drop_last() == seq![x] + s.drop_last());
        assert(t.last() == s.last());
        lemma_mantissa_front(x, s.drop_last());
        assert(pow10(s.len()) == 10 * pow10((s.len() - 1) as nat));
        assert((x * pow10((s.len() - 1) as nat) + mantissa(s.drop_last())) * 10 + s.last() == x * (
        10 * pow10((s.len() - 1) as nat)) + (mantissa(s.drop_last()) * 10 + s.last()))
            by (nonlinear_arith);
    }
}

/// Digits from 0 to 9 spell a number below ten to any power at least their count.
pub proof fn lemma_mantissa_below(d: Seq<u8>, q: nat)
    requires
        forall|k: int| 0 <= k < d.len() ==> #[trigger] d[k] <= 9,
        d.len() <= q,
    ensures
        0 <= mantissa(d) < pow10(q),
    decreases q,
{
    if d.len() == 0 {
        lemma_pow10_positive(q);
    } else {
        lemma_mantissa_below(d.drop_last(), (q - 1) as nat);
        assert(d.last() <= 9);
        assert(pow10(q) == 10 * pow10((q - 1) as nat));
    }
}

/// A first digit that is not zero makes the number at least ten to one less
/// than the count of digits.
pub proof fn lemma_mantissa_above(d: Seq<u8>)
    requires
        d.len() > 0,
        d[0] != 0,
    ensures
        mantissa(d) >= pow10((d.len() - 1) as nat),
    decreases d.len(),
{
    if d.len() == 1 {
        assert(d.drop_last().len() == 0);
        assert(mantissa(d.drop_last()) == 0);
        assert(pow10(0) == 1);
    } else {
        assert(d.drop_last()[0] == d[0]);
        lemma_mantissa_above(d.drop_last());
        assert(pow10((d.len() - 1) as nat) == 10 * pow10((d.len() - 2) as nat));
    }
}

/// Ten to a power grows with the power.
pub proof fn lemma_pow10_monotone(a: nat, b: nat)
    requires
        a <= b,
    ensures
        pow10(a) <= pow10(b),
{
    lemma_pow10_add(a, (b - a) as nat);
    lemma_pow10_positive((b - a) as nat);
    lemma_pow10_positive(a);
    assert(pow10(a) * 1 <= pow10(a) * pow10((b - a) as nat)) by (nonlinear_arith)
        requires
            pow10((b - a) as nat) >= 1,
            pow10(a) >= 1,
    ;
}

/// With a last digit that is not zero, two or more digits never spell an
/// exact power of ten.
pub proof fn lemma_mantissa_not_power(d: Seq<u8>)
    requires
        d.len() >= 2,
        d[d.len() - 1] != 0,
        d[d.len() - 1] <= 9,
    ensures
        mantissa(d) != pow10((d.len() - 1) as nat),
{
    let p = pow10((d.len() - 2) as nat) as int;
    let h = mantissa(d.drop_last()) as int;
    let x = d[d.len() - 1] as int;
    assert(pow10((d.len() - 1) as nat) == 10 * p);
    assert(mantissa(d) == h * 10 + x);
    assert(h * 10 + x != 10 * p) by (nonlinear_arith)
        requires
            1 <= x <= 9,
    ;
}

/// For a canonical decimal, `in_unit_interval` says that its value,
/// `mantissa * 10^exponent`, lies between 0 and 1.
pub proof fn lemma_unit_interval_value(d: DecimalModel)
    requires
        is_canonical(d),
    ensures
        in_unit_interval(d) <==> (d.1.len() == 0 || (!d.0 && if d.2 >= 0 {
            mantissa(d.1) * pow10(d.2 as nat) <= 1
        } else {
            mantissa(d.1) <= pow10((-d.2) as nat)
        })),
{
    let k = d.1.len();
    if k > 0 && !d.0 {
        let m = mantissa(d.1);
        lemma_mantissa_above(d.1);
        lemma_mantissa_below(d.1, k);
        lemma_pow10_positive((k - 1) as nat);
        assert(d.1[0] != 0 && d.1[k - 1] != 0 && d.1[k - 1] <= 9);
        if d.2 >= 0 {
            let e = d.2 as nat;
            lemma_pow10_positive(e);
            if e > 0 {
                assert(pow10(e) == 10 * pow10((e - 1) as nat));
                lemma_pow10_positive((e - 1) as nat);
                assert(m * pow10(e) > 1) by (nonlinear_arith)
                    requires
                        m >= 1,
                        pow10(e) >= 10,
                ;
                assert(!in_unit_interval(d));
            } else if k == 1 {
                assert(e == 0 && pow10(e) == 1);
                assert(m * pow10(e) == m) by (nonlinear_arith)
                    requires
                        pow10(e) == 1,
                ;
                assert(d.1.drop_last().len() == 0);
                assert(mantissa(d.1.drop_last()) == 0);
                assert(m == d.1[0]);
                if d.1[0] == 1 {
                    assert(d.1 == seq![1u8]);
                    assert(in_unit_interval(d));
                    assert(m * pow10(e) <= 1);
                } else {
                    assert(d.1 != seq![1u8]);
                    assert(!in_unit_interval(d));
                    assert(m * pow10(e) > 1);
                }
            } else {
                lemma_pow10_monotone(1, (k - 1) as nat);
                assert(e == 0 && pow10(e) == 1);
                assert(m * pow10(e) == m) by (nonlinear_arith)
                    requires
                        pow10(e) == 1,
                ;
                assert(pow10(0) == 1);
                assert(pow10(1) == 10);
                assert(m * pow10(e) > 1);
                assert(!in_unit_interval(d));
            }
        } else {
            let q = (-d.2) as nat;
            if k <= q {
                lemma_pow10_monotone(k, q);
                assert(in_unit_interval(d));
                assert(m <= pow10(q));
            } else if k == q + 1 {
                lemma_mantissa_not_power(d.1);
                assert(d.1 != seq![1u8]);
                assert(!in_unit_interval(d));
                assert(m > pow10(q));
            } else {
                lemma_pow10_monotone(q + 1, (k - 1) as nat);
                assert(pow10(q + 1) == 10 * pow10(q));
                lemma_pow10_positive(q);
                assert(!in_unit_interval(d));
                assert(m > pow10(q));
            }
        }
    }
}

pub proof fn lemma_nonzero_bounds(d: Seq<u8>, i: int)
    requires
        0 <= i <= d.len(),
    ensures
        i <= nonzero_from(d, i) <= d.len(),
        nonzero_from(d, i) < d.len() ==> d[nonzero_from(d, i)] != 0,
    decreases d.len() - i,
{
    if i < d.len() && d[i] == 0 {
        lemma_nonzero_bounds(d, i + 1);
    }
}

pub proof fn lemma_nonzero_to_bounds(d: Seq<u8>, start: int, end: int)
    requires
        0 <= start <= end <= d.len(),
    ensures
        start <= nonzero_to(d, start, end) <= end,
        start < end && d[start] != 0 ==> nonzero_to(d, start, end) > start,
        nonzero_to(d, start, end) > start ==> d[nonzero_to(d, start, end) - 1] != 0,
    decreases end - start,
{
    if start < end && d[end - 1] == 0 {
        lemma_nonzero_to_bounds(d, start, end - 1);
    }
}

/// Whether `s[start..end]` holds only decimal digits.
fn digits_in(s: &Vec<char>, start: usize, end: usize) -> (r: bool)
    requires
        start <= end <= s.len(),
    ensures
        r == all_digits(s@.subrange(start as int, end as int)),
{
    let mut i: usize = start;
    while i < end
        invariant
            start <= i <= end <= s.len(),
            all_digits(s@.subrange(start as int, i as int)),
        decreases end - i,
    {
        if !('0' <= s[i] && s[i] <= '9') {
            assert(!is_digit(s@.subrange(start as int, end as int)[i - start]));
            return false;
        }
        i = i + 1;
        assert forall|k: int| 0 <= k < i - start implies is_digit(
            #[trigger] s@.subrange(start as int, i as int)[k],
        ) by {
            if k < i - 1 - start {
                assert(s@.subrange(start as int, i as int)[k] == s@.subrange(
                    start as int,
                    i - 1,
                )[k]);
            }
        }
    }
    true
}

/// Appends the digit values of `s[start..end]` to `out`.
fn push_digits(s: &Vec<char>, start: usize, end: usize, out: &mut Vec<u8>)
    requires
        start <= end <= s.len(),
        all_digits(s@.subrange(start as int, end as int)),
    ensures
        final(out)@ == old(out)@ + digit_values(s@.subrange(start as int, end as int)),
{
    let ghost first = old(out)@;
    let mut i: usize = start;
    while i < end
        invariant
            start <= i <= end <= s.len(),
            all_digits(s@.subrange(start as int, end as int)),
            out@ == first + digit_values(s@.subrange(start as int, i as int)),
        decreases end - i,
    {
        assert(is_digit(s@.subrange(start as int, end as int)[i - start]));
        let c = s[i];
        let v = (c as u32 - '0' as u32) as u8;
        out.push(v);
        i = i + 1;
        assert(digit_values(s@.subrange(start as int, i as int)) == digit_values(
            s@.subrange(start as int, i - 1),
        ).push(v));
    }
}

/// Reads the digits of an exponent, saturating at `EXPONENT_CAP`.
fn capped_digits(s: &Vec<char>, start: usize) -> (r: u64)
    requires
        start <= s.len(),
        all_digits(s@.subrange(start as int, s.len() as int)),
    ensures
        r as int == capped_value(s@.subrange(start as int, s.len() as int)),
        r <= EXPONENT_CAP,
{
    let n = s.len();
    let mut v: u64 = 0;
    let mut i: usize = start;
    while i < n
        invariant
            start <= i <= n == s.len(),
            all_digits(s@.subrange(start as int, n as int)),
            v as int == capped_value(s@.subrange(start as int, i as int)),
            v <= EXPONENT_CAP,
        decreases n - i,
    {
        assert(is_digit(s@.subrange(start as int, n as int)[i - start]));
        let d = (s[i] as u32 - '0' as u32) as u64;
        let next = v * 10 + d;
        v = if next > EXPONENT_CAP { EXPONENT_CAP } else { next };
        i = i + 1;
        assert(s@.subrange(start as int, i as int).drop_last() == s@.subrange(start as int, i - 1));
    }
    v
}

/// The exponent a numeral writes, if its exponent part (from `m` on) is well formed.
fn read_exponent(s: &Vec<char>, m: usize) -> (r: Option<i128>)
    requires
        m == exp_mark(s@),
        0 <= mantissa_start(s@) <= m <= s.len(),
    ensures
        r is Some <==> (m == s.len() || (exp_digits(s@).len() > 0 && all_digits(exp_digits(s@)))),
        r is Some ==> r->0 == written_exponent(s@),
        r is Some ==> -(EXPONENT_CAP as int) <= r->0 <= EXPONENT_CAP,
{
    let n = s.len();
    if m >= n {
        assert(exp_text(s@) == Seq::<char>::empty());
        assert(exp_digits(s@) == Seq::<char>::empty());
        return Some(0);
    }
    let mut k: usize = m + 1;
    let minus = k < n && s[k] == '-';
    if k < n && (s[k] == '+' || s[k] == '-') {
        k = k + 1;
    }
    assert(exp_digits(s@) == s@.subrange(k as int, n as int));
    if k >= n || !digits_in(s, k, n) {
        return None;
    }
    let mag = capped_digits(s, k);
    Some(if minus { -(mag as i128) } else { mag as i128 })
}

/// The canonical decimal `(-1)^negative * all * 10^exp`.
fn make_canonical(negative: bool, all: &Vec<u8>, exp: i128) -> (r: Decimal)
    requires
        -(EXPONENT_CAP as int) - usize::MAX <= exp <= EXPONENT_CAP,
        forall|k: int| 0 <= k < all@.len() ==> #[trigger] all@[k] <= 9,
    ensures
        r@ == canonical(negative, all@, exp as int),
        is_canonical(r@),
{
    let len = all.len();
    let mut a: usize = 0;
    while a < len && all[a] == 0
        invariant
            a <= len == all.len(),
            nonzero_from(all@, a as int) == nonzero_from(all@, 0),
        decreases len - a,
    {
        a = a + 1;
    }
    if a == len {
        return Decimal { negative: false, digits: Vec::new(), exponent: 0 };
    }
    let mut b: usize = len;
    while b > a && all[b - 1] == 0
        invariant
            a <= b <= len == all.len(),
            a == nonzero_from(all@, 0),
            nonzero_to(all@, a as int, b as int) == nonzero_to(all@, a as int, len as int),
        decreases b - a,
    {
        b = b - 1;
    }
    let mut digits: Vec<u8> = Vec::new();
    let mut j: usize = a;
    while j < b
        invariant
            a <= j <= b <= len == all.len(),
            digits@ == all@.subrange(a as int, j as int),
        decreases b - j,
    {
        digits.push(all[j]);
        j = j + 1;
    }
    proof {
        lemma_nonzero_bounds(all@, 0);
        lemma_nonzero_to_bounds(all@, a as int, len as int);
    }
    Decimal { negative, digits, exponent: exp + (len - b) as i128 }
}

impl Decimal {
    /// Reads a numeral from its characters.
    pub fn parse_chars(s: &Vec<char>) -> (r: Option<Decimal>)
        ensures
            r is Some <==> decimal_of(s@) is Some,
            r is Some ==> r->0@ == decimal_of(s@)->0,
            r is Some ==> is_canonical(r->0@),
    {
        let n = s.len();
        let i: usize = if n > 0 && (s[0] == '+' || s[0] == '-') { 1 } else { 0 };
        let mut m: usize = i;
        while m < n && !(s[m] == 'e' || s[m] == 'E')
            invariant
                i <= m <= n == s.len(),
                exp_mark_from(s@, m as int) == exp_mark_from(s@, i as int),
            decreases n - m,
        {
            m = m + 1;
        }
        let mut dot: usize = i;
        while dot < m && s[dot] != '.'
            invariant
                i <= dot <= m <= n == s.len(),
                dot_from(s@, dot as int, m as int) == dot_from(s@, i as int, m as int),
            decreases m - dot,
        {
            dot = dot + 1;
        }
        let fs: usize = if dot < m { dot + 1 } else { m };
        assert(int_part(s@) == s@.subrange(i as int, dot as int));
        assert(frac_part(s@) == s@.subrange(fs as int, m as int));
        if !digits_in(s, i, dot) || !digits_in(s, fs, m) || (dot - i) + (m - fs) == 0 {
            return None;
        }
        let written = match read_exponent(s, m) {
            Some(w) => w,
            None => {
                return None;
            },
        };
        let mut all: Vec<u8> = Vec::new();
        push_digits(s, i, dot, &mut all);
        push_digits(s, fs, m, &mut all);
        assert(all@ == digit_values(int_part(s@) + frac_part(s@)));
        assert forall|k: int| 0 <= k < all@.len() implies #[trigger] all@[k] <= 9 by {
            let both = int_part(s@) + frac_part(s@);
            if k < int_part(s@).len() {
                assert(both[k] == int_part(s@)[k]);
                assert(is_digit(int_part(s@)[k]));
            } else {
                assert(both[k] == frac_part(s@)[k - int_part(s@).len()]);
                assert(is_digit(frac_part(s@)[k - int_part(s@).len()]));
            }
        }
        Some(make_canonical(n > 0 && s[0] == '-', &all, written - (m - fs) as i128))
    }

    /// The number 1.
    pub fn one() -> (r: Decimal)
        ensures
            r@ == (false, seq![1u8], 0int),
    {
        let mut digits: Vec<u8> = Vec::new();
        digits.push(1);
        Decimal { negative: false, digits, exponent: 0 }
    }

    /// A decimal with the same sign, digits and exponent.
    pub fn copy(&self) -> (r: Decimal)
        ensures
            r@ == self@,
    {
        let mut digits: Vec<u8> = Vec::new();
        let mut i: usize = 0;
        while i < self.digits.len()
            invariant
                i <= self.digits.len(),
                digits@ == self.digits@.take(i as int),
            decreases self.digits.len() - i,
        {
            digits.push(self.digits[i]);
            i = i + 1;
        }
        assert(self.digits@.take(i as int) == self.digits@);
        Decimal { negative: self.negative, digits, exponent: self.exponent }
    }

    /// The byte nearest to 255 times the value, halves rounded up, for a
    /// canonical decimal in the unit interval.
    pub fn unit_to_byte(&self) -> (r: u8)
        requires
            is_canonical(self@),
            in_unit_interval(self@),
        ensures
            r as int == unit_byte(self@),
    {
        let k = self.digits.len();
        let ghost d = self.digits@;
        if k == 0 {
            assert(mantissa(d) == 0);
            return 0;
        }
        if self.exponent >= 0 {
            assert(d == seq![1u8] && self.exponent == 0);
            assert(d.drop_last() == Seq::<u8>::empty());
            assert(d.last() == 1);
            assert(mantissa(Seq::<u8>::empty()) == 0);
            assert(mantissa(d) == 1);
            return 255;
        }
        let mut c: u32 = 0;
        let mut t: usize = 0;
        assert(d.subrange(k as int, k as int) == Seq::<u8>::empty());
        while t < k
            invariant
                t <= k == self.digits.len(),
                d == self.digits@,
                is_canonical(self@),
                c <= 509,
                c as int == (510 * mantissa(d.subrange(k - t, k as int))) as int / pow10(
                    t as nat,
                ) as int,
            decreases k - t,
        {
            let x = self.digits[k - 1 - t] as u32;
            assert(x <= 9);
            let ghost tail = d.subrange(k - t, k as int);
            let ghost p = pow10(t as nat) as int;
            proof {
                assert(d.subrange(k - t - 1, k as int) == seq![x as u8] + tail);
                lemma_mantissa_front(x as u8, tail);
                lemma_pow10_positive(t as nat);
                let m = mantissa(tail) as int;
                assert(510 * (x * p + m) == 510 * m + (510 * x) * p) by (nonlinear_arith);
                lemma_hoist_over_denominator(510 * m, 510 * x as int, p as nat);
                lemma_div_denominator(510 * (x * p + m), p, 10);
                assert(pow10((t + 1) as nat) == 10 * pow10(t as nat));
                assert(p * 10 == 10 * p);
            }
            c = (510 * x + c) / 10;
            t = t + 1;
        }
        assert(d.subrange(0, k as int) == d);
        let ghost gap: int = -self.exponent - k;
        let ghost m = mantissa(d) as int;
        proof {
            lemma_pow10_add(k as nat, gap as nat);
            lemma_pow10_positive(k as nat);
            lemma_pow10_positive(gap as nat);
            lemma_div_denominator(510 * m, pow10(k as nat) as int, pow10(gap as nat) as int);
            lemma_small_powers();
        }
        let kk = k as i128;
        let f: u32 = if self.exponent <= -kk - 3 {
            proof {
                lemma_pow10_add(3, (gap - 3) as nat);
                lemma_pow10_positive((gap - 3) as nat);
                lemma_div_denominator(c as int, 1000, pow10((gap - 3) as nat) as int);
                assert(c as int / 1000 == 0);
            }
            0
        } else if self.exponent == -kk - 2 {
            c / 100
        } else if self.exponent == -kk - 1 {
            c / 10
        } else {
            c
        };
        ((f + 1) / 2) as u8
    }

    /// Reads a numeral such as `-1.5`, `.25`, `3.` or `6.02e23`.
    pub fn parse(s: &str) -> (r: Option<Decimal>)
        ensures
            r is Some <==> decimal_of(s@) is Some,
            r is Some ==> r->0@ == decimal_of(s@)->0,
            r is Some ==> is_canonical(r->0@),
    {
        let chars = chars_of(s);
        Decimal::parse_chars(&chars)
    }

    /// Whether the value lies in the closed interval from 0 to 1.
    pub fn is_in_unit_interval(&self) -> (r: bool)
        ensures
            r == in_unit_interval(self@),
    {
        let k = self.digits.len();
        if k == 0 {
            return true;
        }
        if self.negative {
            return false;
        }
        let one = k == 1 && self.digits[0] == 1;
        assert(one <==> self.digits@ == seq![1u8]) by {
            if k == 1 && self.digits[0] == 1 {
                assert(self.digits@ == seq![1u8]);
            }
        }
        self.exponent <= -(k as i128) || (one && self.exponent == 0)
    }
}

impl Clone for Decimal {
    fn clone(&self) -> (r: Self)
        ensures
            r@ == self@,
    {
        self.copy()
    }
}

} // verus!
