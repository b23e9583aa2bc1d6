//! Numeric literals: the decimal grammar of real-valued fields and the
//! unsigned integers that face corners use as indices.
//!
//! A real-valued field is never evaluated here. It is recognised, and kept
//! as written, so that whoever consumes the geometry can turn it into the
//! floating-point format of their choice without a second validation pass.

use vstd::prelude::*;

verus! {

/// ASCII decimal digit.
pub open spec fn is_digit(b: u8) -> bool {
    48 <= b <= 57
}

/// `+` or `-`.
pub open spec fn is_sign(b: u8) -> bool {
    b == 43 || b == 45
}

/// ASCII lower-casing of a single byte.
pub open spec fn lower(b: u8) -> u8 {
    if 65 <= b <= 90 {
        (b + 32) as u8
    } else {
        b
    }
}

/// Whether every byte of `s` is a digit.
pub open spec fn all_digits(s: Seq<u8>) -> bool {
    forall|i: int| 0 <= i < s.len() ==> is_digit(#[trigger] s[i])
}

/// Length of the run of digits at the start of `s`.
pub open spec fn digit_run(s: Seq<u8>) -> int
    decreases s.len(),
{
    if s.len() == 0 || !is_digit(s[0]) {
        0
    } else {
        1 + digit_run(s.drop_first())
    }
}

/// `s` with one leading sign removed, if it has one.
pub open spec fn without_sign(s: Seq<u8>) -> Seq<u8> {
    if s.len() > 0 && is_sign(s[0]) {
        s.drop_first()
    } else {
        s
    }
}

/// Whether `s` spells the lower-case word `w`, ignoring ASCII case.
pub open spec fn spells(s: Seq<u8>, w: Seq<u8>) -> bool {
    s.len() == w.len() && forall|i: int| 0 <= i < s.len() ==> lower(#[trigger] s[i]) == w[i]
}

/// The word `inf`.
pub open spec fn word_inf() -> Seq<u8> {
    seq![105u8, 110u8, 102u8]
}

/// The word `infinity`.
pub open spec fn word_infinity() -> Seq<u8> {
    seq![105u8, 110u8, 102u8, 105u8, 110u8, 105u8, 116u8, 121u8]
}

/// The word `nan`.
pub open spec fn word_nan() -> Seq<u8> {
    seq![110u8, 97u8, 110u8]
}

/// One of the three non-finite spellings.
pub open spec fn is_special(s: Seq<u8>) -> bool {
    spells(s, word_inf()) || spells(s, word_infinity()) || spells(s, word_nan())
}

/// An exponent: `e` or `E`, an optional sign, and at least one digit.
pub open spec fn is_exponent(s: Seq<u8>) -> bool {
    &&& s.len() > 0
    &&& lower(s[0]) == 101
    &&& without_sign(s.drop_first()).len() > 0
    &&& all_digits(without_sign(s.drop_first()))
}

/// The text of an unsigned decimal made of the given parts: the whole
/// digits, then, if there is a point, the point and the fraction digits,
/// then the exponent.
pub open spec fn decimal_of(whole: Seq<u8>, point: bool, fraction: Seq<u8>, exponent: Seq<u8>) -> Seq<
    u8,
> {
    if point {
        whole + seq![46u8] + fraction + exponent
    } else {
        whole + exponent
    }
}

/// Whether the parts make an unsigned decimal: digits before and after
/// the point, at least one digit in all, and an exponent or none.
pub open spec fn decimal_parts(
    whole: Seq<u8>,
    point: bool,
    fraction: Seq<u8>,
    exponent: Seq<u8>,
) -> bool {
    &&& all_digits(whole)
    &&& all_digits(fraction)
    &&& point || fraction.len() == 0
    &&& whole.len() + fraction.len() > 0
    &&& exponent.len() == 0 || is_exponent(exponent)
}

/// An unsigned decimal: digits with an optional point among them (at least
/// one digit in all), optionally followed by an exponent.
pub open spec fn is_decimal(s: Seq<u8>) -> bool {
    exists|whole: Seq<u8>, point: bool, fraction: Seq<u8>, exponent: Seq<u8>|
        #[trigger] decimal_of(whole, point, fraction, exponent) == s && decimal_parts(
            whole,
            point,
            fraction,
            exponent,
        )
}

/// What a scan from left to right makes of `s`: the longest run of digits
/// is the whole part, a point after it starts the fraction, which is the
/// longest run of digits again, and what is left has to be an exponent or
/// nothing.
pub open spec fn scans_as_decimal(s: Seq<u8>) -> bool {
    let whole = digit_run(s);
    let after_whole = s.skip(whole);
    if after_whole.len() > 0 && after_whole[0] == 46 {
        let fraction = digit_run(after_whole.drop_first());
        let tail = after_whole.drop_first().skip(fraction);
        whole + fraction > 0 && (tail.len() == 0 || is_exponent(tail))
    } else {
        whole > 0 && (after_whole.len() == 0 || is_exponent(after_whole))
    }
}

/// The literals accepted for a real-valued field: an optional sign followed
/// by a decimal or by one of `inf`, `infinity`, `nan` in any case. This is
/// exactly the set of strings that the standard library parses as a float,
/// so a field that passes can always be converted.
pub open spec fn is_number(s: Seq<u8>) -> bool {
    is_special(without_sign(s)) || is_decimal(without_sign(s))
}

/// `digit_run` stops at the first non-digit, or at the end.
pub proof fn lemma_digit_run(s: Seq<u8>)
    ensures
        0 <= digit_run(s) <= s.len(),
        forall|i: int| 0 <= i < digit_run(s) ==> is_digit(s[i]),
        digit_run(s) < s.len() ==> !is_digit(s[digit_run(s)]),
    decreases s.len(),
{
    if s.len() == 0 || !is_digit(s[0]) {
    } else {
        let t = s.drop_first();
        lemma_digit_run(t);
        assert forall|i: int| 0 <= i < digit_run(s) implies is_digit(s[i]) by {
            if i > 0 {
                assert(s[i] == t[i - 1]);
            }
        }
        assert(digit_run(t) < t.len() ==> t[digit_run(t)] == s[digit_run(s)]);
    }
}

/// Any position up to which `s` holds digits, and which is the end or holds
/// a non-digit, is what `digit_run` returns.
pub proof fn lemma_digit_run_is(s: Seq<u8>, n: int)
    requires
        0 <= n <= s.len(),
        forall|i: int| 0 <= i < n ==> is_digit(s[i]),
        n < s.len() ==> !is_digit(s[n]),
    ensures
        digit_run(s) == n,
{
    lemma_digit_run(s);
    let m = digit_run(s);
    if m < n {
        assert(!is_digit(s[m]));
    } else if m > n {
        assert(is_digit(s[n]));
    }
}

/// A scan from left to right finds a decimal exactly where there is one:
/// the parts of a decimal can be cut in one way only.
pub proof fn lemma_scan_finds_decimals(s: Seq<u8>)
    ensures
        is_decimal(s) == scans_as_decimal(s),
{
    lemma_digit_run(s);
    let a = digit_run(s);
    let after_whole = s.skip(a);
    if scans_as_decimal(s) {
        if after_whole.len() > 0 && after_whole[0] == 46 {
            let rest = after_whole.drop_first();
            lemma_digit_run(rest);
            let f = digit_run(rest);
            let whole = s.take(a);
            let fraction = rest.take(f);
            let tail = rest.skip(f);
            assert(decimal_of(whole, true, fraction, tail) =~= s);
            assert(decimal_parts(whole, true, fraction, tail));
        } else {
            let whole = s.take(a);
            assert(decimal_of(whole, false, Seq::empty(), after_whole) =~= s);
            assert(decimal_parts(whole, false, Seq::empty(), after_whole));
        }
    }
    if is_decimal(s) {
        let (whole, point, fraction, exponent): (Seq<u8>, bool, Seq<u8>, Seq<u8>) = choose|
            whole: Seq<u8>,
            point: bool,
            fraction: Seq<u8>,
            exponent: Seq<u8>,
        |
            #[trigger] decimal_of(whole, point, fraction, exponent) == s && decimal_parts(
                whole,
                point,
                fraction,
                exponent,
            );
        let n = whole.len() as int;
        assert forall|i: int| 0 <= i < n implies is_digit(s[i]) by {
            assert(s[i] == whole[i]);
        }
        if point {
            assert(s[n] == 46);
            lemma_digit_run_is(s, n);
            let rest = s.skip(n).drop_first();
            let m = fraction.len() as int;
            assert(rest =~= fraction + exponent);
            assert forall|i: int| 0 <= i < m implies is_digit(rest[i]) by {
                assert(rest[i] == fraction[i]);
            }
            if exponent.len() > 0 {
                assert(rest[m] == exponent[0]);
            }
            lemma_digit_run_is(rest, m);
            assert(rest.skip(m) =~= exponent);
        } else {
            if exponent.len() > 0 {
                assert(s[n] == exponent[0]);
            }
            lemma_digit_run_is(s, n);
            assert(s.skip(n) =~= exponent);
        }
    }
}

/// A single digit is a numeric literal.
pub proof fn lemma_digit_is_number(digit: u8)
    requires
        is_digit(digit),
    ensures
        is_number(seq![digit]),
{
    let s = seq![digit];
    assert(without_sign(s) == s);
    assert(decimal_of(s, false, Seq::empty(), Seq::empty()) =~= s);
    assert(decimal_parts(s, false, Seq::empty(), Seq::empty()));
}

fn is_digit_byte(b: u8) -> (r: bool)
    ensures
        r == is_digit(b),
{
    48 <= b && b <= 57
}

fn lower_byte(b: u8) -> (r: u8)
    ensures
        r == lower(b),
{
    if 65 <= b && b <= 90 {
        b + 32
    } else {
        b
    }
}

/// End of the digit run of `s` that starts at `from`.
fn skip_digits(s: &[u8], from: usize) -> (to: usize)
    requires
        from <= s@.len(),
    ensures
        from <= to <= s@.len(),
        to - from == digit_run(s@.skip(from as int)),
{
    let mut i: usize = from;
    while i < s.len() && is_digit_byte(s[i])
        invariant
            from <= i <= s@.len(),
            forall|k: int| from <= k < i ==> is_digit(s@[k]),
        decreases s@.len() - i,
    {
        i += 1;
    }
    proof {
        lemma_digit_run_is(s@.skip(from as int), i - from);
    }
    i
}

/// Start of `s[from..]` once one leading sign is dropped.
fn skip_sign(s: &[u8], from: usize) -> (to: usize)
    requires
        from <= s@.len(),
    ensures
        from <= to <= s@.len(),
        s@.skip(to as int) == without_sign(s@.skip(from as int)),
{
    if from < s.len() && (s[from] == 43 || s[from] == 45) {
        proof {
            assert(s@.skip(from as int).drop_first() =~= s@.skip(from + 1));
        }
        from + 1
    } else {
        from
    }
}

/// Whether `s[from..]` spells the first `n` bytes of `infinity`.
fn spells_infinity_prefix(s: &[u8], from: usize, n: usize) -> (r: bool)
    requires
        from <= s@.len(),
        n == 3 || n == 8,
    ensures
        r == spells(s@.skip(from as int), word_infinity().take(n as int)),
{
    let word: [u8; 8] = [105, 110, 102, 105, 110, 105, 116, 121];
    if s.len() - from != n {
        return false;
    }
    let ghost t = s@.skip(from as int);
    let ghost w = word_infinity().take(n as int);
    let mut i: usize = 0;
    while i < n
        invariant
            i <= n <= 8,
            from + n == s@.len() <= usize::MAX,
            t == s@.skip(from as int),
            w == word_infinity().take(n as int),
            word@ == word_infinity(),
            forall|k: int| 0 <= k < i ==> lower(#[trigger] t[k]) == w[k],
        decreases n - i,
    {
        if lower_byte(s[from + i]) != word[i] {
            proof {
                assert(lower(t[i as int]) != w[i as int]);
            }
            return false;
        }
        i += 1;
    }
    true
}

/// Whether `s[from..]` spells `nan`.
fn spells_nan(s: &[u8], from: usize) -> (r: bool)
    requires
        from <= s@.len(),
    ensures
        r == spells(s@.skip(from as int), word_nan()),
{
    if s.len() - from != 3 {
        return false;
    }
    let ghost t = s@.skip(from as int);
    let r = lower_byte(s[from]) == 110 && lower_byte(s[from + 1]) == 97 && lower_byte(s[from + 2])
        == 110;
    proof {
        assert(t[0] == s@[from as int] && t[1] == s@[from + 1] && t[2] == s@[from + 2]);
        if r {
            assert forall|i: int| 0 <= i < t.len() implies lower(#[trigger] t[i]) == word_nan()[i] by {
                assert(i == 0 || i == 1 || i == 2);
            }
        }
    }
    r
}

/// Decides [`is_exponent`] for `s[from..]`.
fn is_exponent_at(s: &[u8], from: usize) -> (r: bool)
    requires
        from <= s@.len(),
    ensures
        r == is_exponent(s@.skip(from as int)),
{
    if from >= s.len() || lower_byte(s[from]) != 101 {
        return false;
    }
    proof {
        assert(s@.skip(from as int).drop_first() =~= s@.skip(from + 1));
    }
    let digits = skip_sign(s, from + 1);
    let end = skip_digits(s, digits);
    proof {
        let d = s@.skip(digits as int);
        lemma_digit_run(d);
        if end == s@.len() && digits < end {
            assert(all_digits(d));
        }
        if end < s@.len() {
            assert(!is_digit(d[end - digits]));
        }
    }
    digits < end && end == s.len()
}

/// Decides [`is_number`].
pub fn is_number_text(s: &[u8]) -> (r: bool)
    ensures
        r == is_number(s@),
{
    proof {
        assert(s@.skip(0) =~= s@);
    }
    let body = skip_sign(s, 0);
    proof {
        assert(word_infinity().take(3) =~= word_inf());
        assert(word_infinity().take(8) =~= word_infinity());
    }
    if spells_infinity_prefix(s, body, 3) || spells_infinity_prefix(s, body, 8) || spells_nan(
        s,
        body,
    ) {
        return true;
    }
    let whole_end = skip_digits(s, body);
    let ghost u = s@.skip(body as int);
    proof {
        lemma_scan_finds_decimals(u);
        assert(u.skip(whole_end - body) =~= s@.skip(whole_end as int));
    }
    if whole_end < s.len() && s[whole_end] == 46 {
        let fraction_end = skip_digits(s, whole_end + 1);
        proof {
            assert(u.skip(whole_end - body).drop_first() =~= s@.skip(whole_end + 1));
            assert(s@.skip(whole_end + 1).skip(fraction_end - (whole_end + 1)) =~= s@.skip(
                fraction_end as int,
            ));
        }
        let digits = (whole_end - body) + (fraction_end - (whole_end + 1));
        digits > 0 && (fraction_end == s.len() || is_exponent_at(s, fraction_end))
    } else {
        whole_end > body && (whole_end == s.len() || is_exponent_at(s, whole_end))
    }
}

/// An unsigned integer literal: an optional `+` and at least one digit.
pub open spec fn is_unsigned(s: Seq<u8>) -> bool {
    let d = unsigned_digits(s);
    d.len() > 0 && all_digits(d)
}

/// The digits of an unsigned integer literal: `s` without a leading `+`.
pub open spec fn unsigned_digits(s: Seq<u8>) -> Seq<u8> {
    if s.len() > 0 && s[0] == 43 {
        s.drop_first()
    } else {
        s
    }
}

/// The number that a string of digits denotes in base ten.
pub open spec fn decimal_value(d: Seq<u8>) -> nat
    decreases d.len(),
{
    if d.len() == 0 {
        0
    } else {
        decimal_value(d.drop_last()) * 10 + (d.last() - 48) as nat
    }
}

/// The value of an unsigned integer literal.
pub open spec fn unsigned_value(s: Seq<u8>) -> nat {
    decimal_value(unsigned_digits(s))
}

/// `v`, or `max` if `v` is larger.
pub open spec fn capped(v: nat, max: nat) -> nat {
    if v <= max {
        v
    } else {
        max
    }
}

/// Reads an unsigned integer literal. A value beyond 128 bits comes back as
/// `u128::MAX`.
pub fn parse_unsigned(s: &[u8]) -> (r: Option<u128>)
    ensures
        r is Some <==> is_unsigned(s@),
        r matches Some(v) ==> v == capped(unsigned_value(s@), u128::MAX as nat),
{
    let start: usize = if s.len() > 0 && s[0] == 43 {
        1
    } else {
        0
    };
    let ghost d = unsigned_digits(s@);
    proof {
        assert(s@.skip(0) =~= s@);
        assert(d =~= s@.skip(start as int));
    }
    if start == s.len() {
        return None;
    }
    let mut acc: u128 = 0;
    let mut i: usize = start;
    proof {
        assert(d.take(0) =~= Seq::<u8>::empty());
    }
    while i < s.len()
        invariant
            start <= i <= s@.len(),
            d == s@.skip(start as int),
            d == unsigned_digits(s@),
            forall|k: int| 0 <= k < i - start ==> is_digit(#[trigger] d[k]),
            acc == capped(decimal_value(d.take(i - start)), u128::MAX as nat),
        decreases s@.len() - i,
    {
        let b = s[i];
        if !is_digit_byte(b) {
            proof {
                assert(!is_digit(d[i - start]));
            }
            return None;
        }
        proof {
            let p = d.take(i - start + 1);
            assert(p.drop_last() =~= d.take(i - start));
            assert(p.last() == b);
        }
        let digit: u128 = (b - 48) as u128;
        acc = match acc.checked_mul(10) {
            Some(m) => match m.checked_add(digit) {
                Some(v) => v,
                None => u128::MAX,
            },
            None => u128::MAX,
        };
        i += 1;
    }
    proof {
        assert(d.take(i - start) =~= d);
    }
    Some(acc)
}

} // verus!
