//! Non-negative decimals with nine fractional digits: percentages, factors and
//! scores, held exactly.
use crate::text::{
    chars, dec, dec_string, digits_value, index_of, is_digit, lemma_index_behind, lemma_index_of,
};
use vstd::prelude::*;

verus! {

/// Units in one.
pub const ONE: u64 = 1_000_000_000;

/// `self.0` billionths.
#[derive(Clone, Copy, Debug, PartialEq, Eq, PartialOrd, Ord, Hash, Structural)]
pub struct Fixed(pub u64);

impl Fixed {
    /// A whole number.
    pub fn whole(n: u64) -> (r: Fixed)
        requires
            n * ONE <= u64::MAX,
        ensures
            r.0 == n * ONE,
    {
        Fixed(n * ONE)
    }

    /// `n` hundredths, the resolution in which the kernel reports pressure.
    pub fn hundredths(n: u64) -> (r: Fixed)
        requires
            n * 10_000_000 <= u64::MAX,
        ensures
            r.0 == n * 10_000_000,
    {
        Fixed(n * 10_000_000)
    }

    /// `n` times this decimal, rounded down, held at the largest `u64`.
    pub fn scale(self, n: u64) -> (r: u64)
        ensures
            r == scaled(self, n as nat),
    {
        proof {
            assert(self.0 as u128 * n as u128 <= u64::MAX as u128 * u64::MAX as u128)
                by (nonlinear_arith)
                requires
                    self.0 <= u64::MAX,
                    n <= u64::MAX,
            ;
        }
        let product: u128 = self.0 as u128 * n as u128;
        let q: u128 = product / (ONE as u128);
        if q > u64::MAX as u128 {
            u64::MAX
        } else {
            q as u64
        }
    }

    /// This many percent of `n`, rounded down, held at the largest `u64`.
    pub fn percent_of(self, n: u64) -> (r: u64)
        ensures
            r == percentage(self, n as nat),
    {
        proof {
            assert(self.0 as u128 * n as u128 <= u64::MAX as u128 * u64::MAX as u128)
                by (nonlinear_arith)
                requires
                    self.0 <= u64::MAX,
                    n <= u64::MAX,
            ;
        }
        let product: u128 = self.0 as u128 * n as u128;
        let q: u128 = product / (100 * ONE as u128);
        if q > u64::MAX as u128 {
            u64::MAX
        } else {
            q as u64
        }
    }
}

/// `n` times the decimal `f`, rounded down, held at the largest `u64`.
pub open spec fn scaled(f: Fixed, n: nat) -> nat {
    clip((f.0 * n) as nat / ONE as nat)
}

/// `p` percent of `n`, rounded down, held at the largest `u64`.
pub open spec fn percentage(p: Fixed, n: nat) -> nat {
    clip((p.0 * n) as nat / (100 * ONE) as nat)
}

/// `n`, held at the largest `u64`.
pub open spec fn clip(n: nat) -> nat {
    if n > u64::MAX {
        u64::MAX as nat
    } else {
        n
    }
}

/// The product, held at the largest `u64`.
pub fn saturating_mul(a: u64, b: u64) -> (r: u64)
    ensures
        r == clip((a * b) as nat),
{
    proof {
        assert(a as u128 * b as u128 <= u64::MAX as u128 * u64::MAX as u128) by (nonlinear_arith)
            requires
                a <= u64::MAX,
                b <= u64::MAX,
        ;
    }
    let product: u128 = a as u128 * b as u128;
    if product > u64::MAX as u128 {
        u64::MAX
    } else {
        product as u64
    }
}

/// The share `part / whole` in percent, rounded down to a billionth.
pub open spec fn share_percent(part: nat, whole: nat) -> nat {
    part * 100 * ONE as nat / whole
}

/// `part` of `whole` in percent; zero where `whole` is.
pub fn percent_share(part: u64, whole: u64) -> (r: Fixed)
    requires
        part <= whole,
    ensures
        r.0 == if whole == 0 { 0 } else { share_percent(part as nat, whole as nat) },
        r.0 <= 100 * ONE,
{
    if whole == 0 {
        return Fixed(0);
    }
    let scaled: u128 = part as u128 * 100 * ONE as u128;
    let q: u128 = scaled / (whole as u128);
    proof {
        assert(q <= 100 * ONE) by (nonlinear_arith)
            requires
                part <= whole,
                whole > 0,
                q == (part * 100 * ONE) / (whole as int),
        ;
    }
    Fixed(q as u64)
}

/// `n / d`, rounded to the nearest whole number, ties to the even one.
pub open spec fn round_div(n: nat, d: nat) -> nat {
    let q = n / d;
    let twice = 2 * (n % d);
    if twice > d || (twice == d && q % 2 == 1) {
        q + 1
    } else {
        q
    }
}

/// How many billionths make one unit of the last of `digits` decimals, up to
/// three.
pub open spec fn last_decimal(digits: nat) -> nat {
    if digits == 0 {
        1_000_000_000
    } else if digits == 1 {
        100_000_000
    } else if digits == 2 {
        10_000_000
    } else {
        1_000_000
    }
}

/// `units` billionths with `digits` decimals, up to three.
pub open spec fn decimal_text(units: nat, digits: nat) -> Seq<char> {
    let q = round_div(units, last_decimal(digits));
    if digits == 0 {
        dec(q)
    } else if digits == 1 {
        dec(q / 10) + "."@ + dec(q % 10)
    } else if digits == 2 {
        dec(q / 100) + "."@ + dec(q % 100 / 10) + dec(q % 10)
    } else {
        dec(q / 1000) + "."@ + dec(q % 1000 / 100) + dec(q % 100 / 10) + dec(q % 10)
    }
}

fn rounded(n: u64, d: u64) -> (r: u64)
    requires
        2 <= d <= 1_000_000_000,
    ensures
        r == round_div(n as nat, d as nat),
{
    let q: u64 = n / d;
    let twice: u64 = 2 * (n % d);
    proof {
        assert(n / d <= n / 2) by (nonlinear_arith)
            requires
                d >= 2,
        ;
    }
    if twice > d || (twice == d && q % 2 == 1) {
        q + 1
    } else {
        q
    }
}

impl Fixed {
    /// The decimal with `digits` decimals, up to three.
    pub fn text(self, digits: u32) -> (r: String)
        requires
            digits <= 3,
        ensures
            r@ == decimal_text(self.0 as nat, digits as nat),
    {
        if digits == 0 {
            return dec_string(rounded(self.0, 1_000_000_000));
        }
        if digits == 1 {
            let q: u64 = rounded(self.0, 100_000_000);
            let mut s = dec_string(q / 10);
            s.append(".");
            s.append(dec_string(q % 10).as_str());
            return s;
        }
        if digits == 2 {
            let q: u64 = rounded(self.0, 10_000_000);
            let mut s = dec_string(q / 100);
            s.append(".");
            s.append(dec_string(q % 100 / 10).as_str());
            s.append(dec_string(q % 10).as_str());
            return s;
        }
        let q: u64 = rounded(self.0, 1_000_000);
        let mut s = dec_string(q / 1000);
        s.append(".");
        s.append(dec_string(q % 1000 / 100).as_str());
        s.append(dec_string(q % 100 / 10).as_str());
        s.append(dec_string(q % 10).as_str());
        s
    }
}

/// Nine zeros.
pub open spec fn nine_zeros() -> Seq<char> {
    Seq::new(9, |i: int| '0')
}

/// The first nine fractional digits, missing ones as zeros.
pub open spec fn nine_digits(frac: Seq<char>) -> Seq<char> {
    (frac + nine_zeros()).take(9)
}

/// Whether every character is a digit; the empty text counts.
pub open spec fn only_digits(s: Seq<char>) -> bool {
    forall|i: int| 0 <= i < s.len() ==> is_digit(#[trigger] s[i])
}

/// `s` without a plus sign at its start.
pub open spec fn without_plus(s: Seq<char>) -> Seq<char> {
    if s.len() > 0 && s[0] == '+' {
        s.drop_first()
    } else {
        s
    }
}

/// The decimal that `s` writes, in billionths: digits, then optionally a point
/// and more digits, with at least one digit in all and an optional plus sign
/// before them. Digits past the ninth fractional one are cut off.
pub open spec fn parse_fixed_value(s: Seq<char>) -> Option<nat> {
    let body = without_plus(s);
    let dot = index_of(body, '.') as int;
    let int_part = body.take(dot);
    let frac = if dot < body.len() {
        body.skip(dot + 1)
    } else {
        Seq::empty()
    };
    if only_digits(int_part) && only_digits(frac) && int_part.len() + frac.len() > 0 {
        Some(clip(digits_value(int_part) * ONE as nat + digits_value(nine_digits(frac))))
    } else {
        None
    }
}

proof fn lemma_nine_bound(s: Seq<char>)
    requires
        only_digits(s),
        s.len() <= 9,
    ensures
        digits_value(s) < 1_000_000_000,
{
    lemma_digit_count_bound(s);
    reveal_with_fuel(ten_to, 10);
    lemma_ten_to_monotone(s.len(), 9);
}

spec fn ten_to(n: nat) -> nat
    decreases n,
{
    if n == 0 {
        1
    } else {
        10 * ten_to((n - 1) as nat)
    }
}

proof fn lemma_ten_to_monotone(a: nat, b: nat)
    requires
        a <= b,
    ensures
        ten_to(a) <= ten_to(b),
    decreases b,
{
    if a < b {
        lemma_ten_to_monotone(a, (b - 1) as nat);
    }
}

proof fn lemma_digit_count_bound(s: Seq<char>)
    requires
        only_digits(s),
    ensures
        digits_value(s) < ten_to(s.len()),
    decreases s.len(),
{
    if s.len() > 0 {
        lemma_digit_count_bound(s.drop_last());
        assert(is_digit(s[s.len() - 1]));
    }
}

/// Reads a decimal: an optional plus sign, then digits with at most one point among
/// them. A minus sign, an exponent, `inf` and `nan` are refused.
pub fn parse_fixed(s: &str) -> (r: Option<Fixed>)
    ensures
        match r {
            Some(f) => parse_fixed_value(s@) == Some(f.0 as nat),
            None => parse_fixed_value(s@) is None,
        },
{
    let cs = chars(s);
    let from: usize = if cs.len() > 0 && cs[0] == '+' {
        1
    } else {
        0
    };
    let ghost body = cs@.skip(from as int);
    assert(body =~= without_plus(s@));
    let mut i: usize = from;
    let mut acc: u64 = 0;
    let mut over = false;
    assert(body.take(0) =~= Seq::<char>::empty());
    while i < cs.len() && cs[i] != '.'
        invariant
            from <= i <= cs.len(),
            body == cs@.skip(from as int),
            body == without_plus(s@),
            forall|k: int| 0 <= k < i - from ==> body[k] != '.' && is_digit(#[trigger] body[k]),
            !over ==> acc == digits_value(body.take(i - from)) && acc <= 18_446_744_073,
            over ==> digits_value(body.take(i - from)) > 18_446_744_073,
        decreases cs.len() - i,
    {
        let n: u32 = cs[i] as u32;
        assert(body[i - from] == cs@[i as int]);
        if n < 48 || n > 57 {
            proof {
                lemma_dot_after(body, i - from);
                let dot = index_of(body, '.') as int;
                assert(body.take(dot)[i - from] == cs@[i as int]);
                assert(!only_digits(body.take(dot)));
            }
            return None;
        }
        assert(body.take(i - from + 1).drop_last() =~= body.take(i - from));
        if !over {
            acc = acc * 10 + (n - 48) as u64;
            if acc > 18_446_744_073 {
                over = true;
            }
        }
        i = i + 1;
    }
    let ghost dot = i - from;
    proof {
        lemma_index_of(body, '.', dot);
    }
    let ghost int_part = body.take(dot);
    let ghost frac = if dot < body.len() {
        body.skip(dot + 1)
    } else {
        Seq::<char>::empty()
    };
    let whole_digits: usize = i - from;
    let mut low: u64 = 0;
    let mut taken: usize = 0;
    if i < cs.len() {
        i = i + 1;
    }
    let start: usize = i;
    let ghost nine = nine_digits(frac);
    assert(nine.take(0) =~= Seq::<char>::empty());
    assert(frac =~= cs@.skip(start as int));
    while i < cs.len()
        invariant
            start <= i <= cs.len(),
            frac == cs@.skip(start as int),
            body == without_plus(s@),
            dot == index_of(body, '.'),
            frac == if dot < body.len() {
                body.skip(dot + 1)
            } else {
                Seq::<char>::empty()
            },
            nine == nine_digits(frac),
            forall|k: int| 0 <= k < i - start ==> is_digit(#[trigger] frac[k]),
            taken == if i - start < 9 { i - start } else { 9 },
            low == digits_value(nine.take(taken as int)),
        decreases cs.len() - i,
    {
        let n: u32 = cs[i] as u32;
        assert(frac[i - start] == cs@[i as int]);
        if n < 48 || n > 57 {
            assert(!is_digit(frac[i - start]));
            return None;
        }
        if taken < 9 {
            assert(nine[taken as int] == frac[i - start]);
            assert(nine.take(taken as int + 1).drop_last() =~= nine.take(taken as int));
            proof {
                assert forall|k: int| 0 <= k < taken implies is_digit(
                    #[trigger] nine.take(taken as int)[k],
                ) by {
                    assert(is_digit(frac[k]));
                }
                lemma_nine_bound(nine.take(taken as int));
            }
            low = low * 10 + (n - 48) as u64;
            taken = taken + 1;
        }
        i = i + 1;
    }
    assert(only_digits(frac));
    if whole_digits == 0 && start == cs.len() {
        return None;
    }
    while taken < 9
        invariant
            taken <= 9,
            taken >= frac.len() || taken == 9,
            only_digits(frac),
            nine == nine_digits(frac),
            low == digits_value(nine.take(taken as int)),
        decreases 9 - taken,
    {
        assert(nine[taken as int] == '0');
        assert(nine.take(taken as int + 1).drop_last() =~= nine.take(taken as int));
        proof {
            assert forall|k: int| 0 <= k < taken implies is_digit(
                #[trigger] nine.take(taken as int)[k],
            ) by {
                if k < frac.len() {
                    assert(is_digit(frac[k]));
                }
            }
            lemma_nine_bound(nine.take(taken as int));
        }
        low = low * 10;
        taken = taken + 1;
    }
    assert(nine.take(9) =~= nine);
    proof {
        assert forall|k: int| 0 <= k < 9 implies is_digit(#[trigger] nine[k]) by {
            if k < frac.len() {
                assert(is_digit(frac[k]));
            }
        }
        lemma_nine_bound(nine);
        assert(only_digits(int_part)) by {
            assert forall|k: int| 0 <= k < int_part.len() implies is_digit(
                #[trigger] int_part[k],
            ) by {
                assert(is_digit(body[k]));
            }
        }
    }
    if over || (acc == 18_446_744_073 && low > 709_551_615) {
        Some(Fixed(u64::MAX))
    } else {
        Some(Fixed(acc * ONE + low))
    }
}

proof fn lemma_dot_after(s: Seq<char>, n: int)
    requires
        0 <= n < s.len(),
        forall|k: int| 0 <= k <= n ==> s[k] != '.',
    ensures
        index_of(s, '.') > n,
        index_of(s, '.') <= s.len(),
    decreases s.len(),
{
    if n > 0 {
        lemma_dot_after(s.drop_first(), n - 1);
    } else {
        lemma_index_bound(s.drop_first(), '.');
    }
}

proof fn lemma_index_bound(s: Seq<char>, c: char)
    ensures
        index_of(s, c) <= s.len(),
    decreases s.len(),
{
    if s.len() > 0 {
        lemma_index_bound(s.drop_first(), c);
    }
}

// -------------------------------------------------------------------- laws

/// A factor is in billionths and the product is rounded down; a percentage is in
/// billionths of a percent.
pub proof fn law_factors_and_percentages(f: Fixed, n: nat)
    ensures
        f.0 * n < 1_000_000_000 * u64::MAX ==> scaled(f, n) * 1_000_000_000 <= f.0 * n < (scaled(
            f,
            n,
        ) + 1) * 1_000_000_000,
        f.0 * n < 100_000_000_000 * u64::MAX ==> percentage(f, n) * 100_000_000_000 <= f.0 * n < (
        percentage(f, n) + 1) * 100_000_000_000,
        f.0 * n >= 1_000_000_000 * u64::MAX ==> scaled(f, n) == u64::MAX,
        f.0 * n >= 100_000_000_000 * u64::MAX ==> percentage(f, n) == u64::MAX,
{
    let x = (f.0 * n) as int;
    assert(0 <= x) by (nonlinear_arith)
        requires
            x == f.0 * n,
            n >= 0,
    ;
    let q = x / 1_000_000_000;
    let p = x / 100_000_000_000;
    assert(q * 1_000_000_000 <= x < (q + 1) * 1_000_000_000);
    assert(p * 100_000_000_000 <= x < (p + 1) * 100_000_000_000);
}

/// The share of a part in percent, in billionths and rounded down.
pub proof fn law_share_in_percent(part: nat, whole: nat)
    requires
        whole > 0,
    ensures
        share_percent(part, whole) * whole <= part * 100_000_000_000 < (share_percent(part, whole)
            + 1) * whole,
{
    let n = (part * 100 * ONE as nat) as int;
    let w = whole as int;
    vstd::arithmetic::div_mod::lemma_fundamental_div_mod(n, w);
    vstd::arithmetic::div_mod::lemma_mod_bound(n, w);
    let q = n / w;
    assert((q + 1) * w == q * w + w) by (nonlinear_arith);
    assert(q * w == w * q) by (nonlinear_arith);
}

/// A quotient is rounded to the nearest number, and to the even one of two.
pub proof fn law_rounding_to_nearest(n: nat, d: nat)
    requires
        d > 0,
    ensures
        -(d as int) <= 2 * (round_div(n, d) * d - n) <= d,
        2 * (round_div(n, d) * d - n) == d || 2 * (n - round_div(n, d) * d) == d ==> round_div(n, d)
            % 2 == 0,
{
    let (a, b) = (n as int, d as int);
    vstd::arithmetic::div_mod::lemma_fundamental_div_mod(a, b);
    vstd::arithmetic::div_mod::lemma_mod_bound(a, b);
    let q = a / b;
    assert((q + 1) * b == q * b + b) by (nonlinear_arith);
    assert(q * b == b * q) by (nonlinear_arith);
}

proof fn lemma_no_dot(s: Seq<char>)
    requires
        only_digits(s),
    ensures
        !s.contains('.'),
        s.len() > 0 ==> s[0] != '+',
{
    if s.contains('.') {
        let i = choose|i: int| 0 <= i < s.len() && s[i] == '.';
        assert(is_digit(s[i]));
    }
    if s.len() > 0 {
        assert(is_digit(s[0]));
    }
}

/// A number is read digit by digit: those before the point are whole ones, and the
/// nine behind it billionths. Without a point they are all whole, a missing digit
/// is a nought, and digits past the ninth do not count.
pub proof fn law_reading_decimals(whole: Seq<char>, frac: Seq<char>, more: Seq<char>)
    requires
        only_digits(whole),
        only_digits(frac),
        only_digits(more),
        whole.len() > 0,
    ensures
        parse_fixed_value(whole) == Some(clip(digits_value(whole) * 1_000_000_000)),
        parse_fixed_value(seq!['+'] + whole) == parse_fixed_value(whole),
        frac.len() == 9 ==> parse_fixed_value(whole + seq!['.'] + frac) == Some(
            clip(digits_value(whole) * 1_000_000_000 + digits_value(frac)),
        ),
        frac.len() == 9 ==> parse_fixed_value(whole + seq!['.'] + (frac + more))
            == parse_fixed_value(whole + seq!['.'] + frac),
        frac.len() < 9 ==> parse_fixed_value(whole + seq!['.'] + frac) == parse_fixed_value(
            whole + seq!['.'] + frac.push('0'),
        ),
{
    let e = Seq::<char>::empty();
    lemma_no_dot(whole);
    lemma_no_dot(frac);
    lemma_point(whole, frac);
    let long = frac + more;
    assert(only_digits(long)) by {
        assert forall|i: int| 0 <= i < long.len() implies is_digit(#[trigger] long[i]) by {
            if i < frac.len() {
                assert(long[i] == frac[i]);
            } else {
                assert(long[i] == more[i - frac.len()]);
            }
        }
    }
    lemma_point(whole, long);
    let padded = frac.push('0');
    assert(only_digits(padded));
    lemma_point(whole, padded);
    if frac.len() == 9 {
        assert(nine_digits(frac) =~= frac);
        assert(nine_digits(long) =~= frac);
    }
    if frac.len() < 9 {
        assert(nine_digits(padded) =~= nine_digits(frac));
    }
    lemma_index_behind(whole, e, '.');
    assert(whole + e =~= whole);
    assert(whole.take(whole.len() as int) =~= whole);
    assert((seq!['+'] + whole).drop_first() =~= whole);
    assert(only_digits(e));
    assert(nine_digits(e) =~= nine_zeros());
    lemma_zeros(9);
    assert(nine_zeros() =~= Seq::new(9, |i: int| '0'));
}

proof fn lemma_point(whole: Seq<char>, frac: Seq<char>)
    requires
        only_digits(whole),
        only_digits(frac),
        whole.len() > 0,
    ensures
        parse_fixed_value(whole + seq!['.'] + frac) == Some(
            clip(digits_value(whole) * 1_000_000_000 + digits_value(nine_digits(frac))),
        ),
{
    lemma_no_dot(whole);
    let s = whole + seq!['.'] + frac;
    let tail = seq!['.'] + frac;
    assert(s =~= whole + tail);
    lemma_index_behind(whole, tail, '.');
    assert(index_of(tail, '.') == 0);
    assert(s[0] == whole[0]);
    assert(s.take(whole.len() as int) =~= whole);
    assert(s.skip(whole.len() as int + 1) =~= frac);
}

proof fn lemma_zeros(n: nat)
    ensures
        digits_value(Seq::new(n, |i: int| '0')) == 0,
    decreases n,
{
    if n > 0 {
        lemma_zeros((n - 1) as nat);
        assert(Seq::new(n, |i: int| '0').drop_last() =~= Seq::new((n - 1) as nat, |i: int| '0'));
    }
}

/// A number is written with as many decimals as asked for, rounded to the nearest:
/// what is written is the whole ones, the point and each decimal.
pub proof fn law_writing_decimals(whole: nat, a: nat, b: nat, c: nat, units: nat)
    requires
        a < 10,
        b < 10,
        c < 10,
    ensures
        round_div(units, 1_000_000_000) == whole ==> decimal_text(units, 0) == dec(whole),
        round_div(units, 100_000_000) == 10 * whole + a ==> decimal_text(units, 1) == dec(whole)
            + "."@ + dec(a),
        round_div(units, 10_000_000) == 100 * whole + 10 * a + b ==> decimal_text(units, 2) == dec(
            whole,
        ) + "."@ + dec(a) + dec(b),
        round_div(units, 1_000_000) == 1000 * whole + 100 * a + 10 * b + c ==> decimal_text(
            units,
            3,
        ) == dec(whole) + "."@ + dec(a) + dec(b) + dec(c),
{
    lemma_decimal_places(whole, a, b, c);
}

proof fn lemma_decimal_places(whole: nat, a: nat, b: nat, c: nat)
    requires
        a < 10,
        b < 10,
        c < 10,
    ensures
        (10 * whole + a) / 10 == whole,
        (10 * whole + a) % 10 == a,
        (100 * whole + 10 * a + b) / 100 == whole,
        (100 * whole + 10 * a + b) % 100 / 10 == a,
        (100 * whole + 10 * a + b) % 10 == b,
        (1000 * whole + 100 * a + 10 * b + c) / 1000 == whole,
        (1000 * whole + 100 * a + 10 * b + c) % 1000 / 100 == a,
        (1000 * whole + 100 * a + 10 * b + c) % 100 / 10 == b,
        (1000 * whole + 100 * a + 10 * b + c) % 10 == c,
{
    let w = whole as int;
    let (x, y, z) = (a as int, b as int, c as int);
    lemma_quotient(10 * w + x, 10, w, x);
    let q = 100 * w + 10 * x + y;
    lemma_quotient(q, 100, w, 10 * x + y);
    lemma_quotient(q, 10, 10 * w + x, y);
    lemma_quotient(10 * x + y, 10, x, y);
    let p = 1000 * w + 100 * x + 10 * y + z;
    lemma_quotient(p, 1000, w, 100 * x + 10 * y + z);
    lemma_quotient(p, 100, 10 * w + x, 10 * y + z);
    lemma_quotient(p, 10, 100 * w + 10 * x + y, z);
    lemma_quotient(100 * x + 10 * y + z, 100, x, 10 * y + z);
    lemma_quotient(10 * y + z, 10, y, z);
}

proof fn lemma_quotient(n: int, d: int, q: int, r: int)
    requires
        n == q * d + r,
        0 <= r < d,
    ensures
        n / d == q,
        n % d == r,
{
    vstd::arithmetic::div_mod::lemma_fundamental_div_mod_converse(n, d, q, r);
}

// ------------------------------------------------ laws of the functions

/// A factor and a percentage of a number are rounded down.
pub proof fn law_shares_of_numbers(f: Fixed, n: u64, times: u64, part: u64)
    requires
        call_ensures(Fixed::scale, (f, n), times),
        call_ensures(Fixed::percent_of, (f, n), part),
    ensures
        f.0 * n < 1_000_000_000 * u64::MAX ==> times * 1_000_000_000 <= f.0 * n < (times + 1)
            * 1_000_000_000,
        f.0 * n < 100_000_000_000 * u64::MAX ==> part * 100_000_000_000 <= f.0 * n < (part + 1)
            * 100_000_000_000,
{
    law_factors_and_percentages(f, n as nat);
}

/// The share of a part in percent is rounded down, and nothing of nothing is nothing.
pub proof fn law_shares_in_percent(part: u64, whole: u64, r: Fixed)
    requires
        part <= whole,
        call_ensures(percent_share, (part, whole), r),
    ensures
        whole == 0 ==> r.0 == 0,
        whole > 0 ==> r.0 * whole <= part * 100_000_000_000 < (r.0 + 1) * whole,
        r.0 <= 100_000_000_000,
{
    if whole > 0 {
        law_share_in_percent(part as nat, whole as nat);
    }
}

/// Whole numbers and hundredths are exact.
pub proof fn law_whole_numbers(n: u64, w: Fixed, h: Fixed)
    requires
        call_ensures(Fixed::whole, (n,), w),
        call_ensures(Fixed::hundredths, (n,), h),
    ensures
        w.0 == n * 1_000_000_000,
        w.0 == 100 * h.0,
{
}

} // verus!
