//! Decimal numbers as yt-dlp prints them, read as IEEE double precision values and
//! truncated to integers. All in integer arithmetic.
use crate::text::{
    all_digits, chars_of, decimal, decimal_reads_back, digits_only, digits_value,
    digits_value_grows, find_first, first_of, first_place_is_found, is_digit,
};
use vstd::arithmetic::div_mod::{lemma_fundamental_div_mod, lemma_fundamental_div_mod_converse};
use vstd::arithmetic::power::{
    lemma_pow0, lemma_pow1, lemma_pow_adds, lemma_pow_distributes, lemma_pow_increases,
    lemma_pow_positive, pow,
};
use vstd::arithmetic::power2::{
    lemma2_to64, lemma_pow2, lemma_pow2_pos, lemma_pow2_strictly_increases, lemma_pow2_unfold,
    pow2,
};
use vstd::prelude::*;
use vstd::slice::slice_subrange;

verus! {

// ---------------------------------------------------------------------------
// Rounding
// ---------------------------------------------------------------------------
/// The integer nearest to `num / den`; the even one of two that are as near.
pub open spec fn nearest_even(num: int, den: int) -> int {
    let q = num / den;
    let r = num % den;
    if 2 * r > den || (2 * r == den && q % 2 == 1) {
        q + 1
    } else {
        q
    }
}

/// No integer is nearer, and of two that are as near it is the even one.
pub proof fn nearest_even_is_nearest(num: int, den: int, n: int)
    requires
        num >= 0,
        den > 0,
    ensures
        ({
            let best = nearest_even(num, den);
            let off = best * den - num;
            let other = n * den - num;
            &&& -den <= 2 * off <= den
            &&& 2 * off == den || 2 * off == -den ==> best % 2 == 0
            &&& (if off >= 0 { off } else { -off }) <= (if other >= 0 { other } else { -other })
        }),
{
    let q = num / den;
    let r = num % den;
    lemma_fundamental_div_mod(num, den);
    let best = nearest_even(num, den);
    assert(best * den == if best == q { den * q } else { den * q + den }) by (nonlinear_arith)
        requires
            best == q || best == q + 1,
    ;
    if n <= q {
        assert(n * den <= den * q) by (nonlinear_arith)
            requires
                n <= q,
                den > 0,
        ;
    } else {
        assert(n * den >= den * q + den) by (nonlinear_arith)
            requires
                n >= q + 1,
                den > 0,
        ;
    }
}

/// The number of binary digits of `n`.
pub open spec fn bits(n: nat) -> nat
    decreases n,
{
    if n == 0 {
        0
    } else {
        1 + bits(n / 2)
    }
}

/// The number `whole + f / q`, for `0 <= f < q`, rounded to 53 significant binary digits
/// and then truncated to an integer. (Below one half more digits follow the point than
/// are rounded to here, but what is truncated to is 0 in any case.)
pub open spec fn truncated_double(whole: nat, f: nat, q: nat) -> int {
    let b = bits(whole);
    if b >= 53 {
        let unit = pow2((b - 53) as nat) as int;
        nearest_even((whole * q + f) as int, unit * q) * unit
    } else {
        let parts = pow2((53 - b) as nat) as int;
        nearest_even((whole * q + f) * parts, q as int) / parts
    }
}

proof fn bits_bound(n: nat)
    requires
        n > 0,
    ensures
        bits(n) >= 1,
        pow2((bits(n) - 1) as nat) <= n < pow2(bits(n)),
    decreases n,
{
    lemma2_to64();
    if n == 1 {
        assert(bits(0) == 0);
        assert(bits(1) == 1 + bits(1nat / 2));
    } else {
        bits_bound(n / 2);
        lemma_pow2_unfold(bits(n));
        lemma_pow2_unfold((bits(n) - 1) as nat);
    }
}

/// With at least 53 digits before the point, the rounding drops digits of the integer
/// part.
proof fn large_double(whole: nat, f: nat, q: nat, unit: int)
    requires
        f < q,
        unit >= 1,
    ensures
        ({
            let h = whole as int / unit;
            let r = whole as int % unit;
            nearest_even((whole * q + f) as int, unit * q) == if 2 * (r * q + f) > unit * q || (2 * (r * q
                + f) == unit * q && h % 2 == 1) {
                h + 1
            } else {
                h
            }
        }),
{
    let h = whole as int / unit;
    let r = whole as int % unit;
    let qi = q as int;
    let fi = f as int;
    lemma_fundamental_div_mod(whole as int, unit);
    assert(whole * qi + fi == (unit * qi) * h + (r * qi + fi)) by (nonlinear_arith)
        requires
            whole == unit * h + r,
    ;
    assert(0 <= r * qi + fi < unit * qi) by (nonlinear_arith)
        requires
            0 <= r < unit,
            0 <= fi < qi,
    ;
    assert(unit * qi > 0) by (nonlinear_arith)
        requires
            unit >= 1,
            qi > 0,
    ;
    assert((unit * qi) * h == h * (unit * qi)) by (nonlinear_arith);
    lemma_fundamental_div_mod_converse(whole * qi + fi, unit * qi, h, r * qi + fi);
}

/// With fewer, the integer part grows by one exactly where the fraction is within half a
/// unit of the last digit below 1.
proof fn small_double(whole: nat, f: nat, q: nat, parts: int)
    requires
        f < q,
        parts >= 2,
        parts % 2 == 0,
    ensures
        nearest_even((whole * q + f) * parts, q as int) / parts == whole + if 2 * parts * (q - f)
            <= q {
            1int
        } else {
            0int
        },
{
    let w = whole as int;
    let qi = q as int;
    let fi = f as int;
    let x = (w * qi + fi) * parts;
    let h0 = (fi * parts) / qi;
    let r0 = (fi * parts) % qi;
    lemma_fundamental_div_mod(fi * parts, qi);
    assert(x == qi * (w * parts + h0) + r0) by (nonlinear_arith)
        requires
            x == (w * qi + fi) * parts,
            fi * parts == qi * h0 + r0,
    ;
    assert(qi * (w * parts + h0) == (w * parts + h0) * qi) by (nonlinear_arith);
    lemma_fundamental_div_mod_converse(x, qi, w * parts + h0, r0);
    let half = parts / 2;
    assert(w * parts == 2 * (w * half)) by (nonlinear_arith)
        requires
            parts == 2 * half,
    ;
    let up = 2 * r0 > qi || (2 * r0 == qi && h0 % 2 == 1);
    let m0 = if up {
        h0 + 1
    } else {
        h0
    };
    assert((w * parts + h0) % 2 == h0 % 2);
    assert(nearest_even(x, qi) == w * parts + m0);
    assert(0 <= h0 <= parts - 1) by (nonlinear_arith)
        requires
            fi * parts == qi * h0 + r0,
            0 <= r0 < qi,
            0 <= fi < qi,
            parts >= 2,
    ;
    assert(2 * parts * (qi - fi) == 2 * (parts * qi) - 2 * (fi * parts)) by (nonlinear_arith);
    if 2 * parts * (qi - fi) <= qi {
        assert(h0 == parts - 1) by (nonlinear_arith)
            requires
                fi * parts == qi * h0 + r0,
                0 <= r0 < qi,
                0 <= h0 <= parts - 1,
                2 * (parts * qi) - 2 * (fi * parts) <= qi,
        ;
        assert(qi * h0 == parts * qi - qi) by (nonlinear_arith)
            requires
                h0 == parts - 1,
        ;
        assert(2 * r0 >= qi);
        assert(m0 == parts);
        assert((w * parts + m0) == (w + 1) * parts + 0) by (nonlinear_arith)
            requires
                m0 == parts,
        ;
        lemma_fundamental_div_mod_converse(w * parts + m0, parts, w + 1, 0);
    } else {
        if m0 == parts {
            assert(h0 == parts - 1);
            assert(qi * h0 == parts * qi - qi) by (nonlinear_arith)
                requires
                    h0 == parts - 1,
            ;
            assert(false);
        }
        lemma_fundamental_div_mod_converse(w * parts + m0, parts, w, m0);
    }
}

/// Whole numbers up to 2^53 are read exactly.
pub proof fn whole_numbers_are_exact(whole: nat, q: nat)
    requires
        whole <= pow2(53),
        q >= 1,
    ensures
        truncated_double(whole, 0, q) == whole,
{
    lemma2_to64();
    lemma_pow2_unfold(54);
    lemma_pow2_unfold(53);
    lemma_pow2_pos(52);
    let b = bits(whole);
    let qi = q as int;
    if whole > 0 {
        bits_bound(whole);
        if b > 54 {
            lemma_pow2_strictly_increases(53, (b - 1) as nat);
        }
    }
    if b <= 52 {
        let parts = pow2((53 - b) as nat) as int;
        lemma_pow2_unfold((53 - b) as nat);
        lemma_pow2_pos((52 - b) as nat);
        small_double(whole, 0, q, parts);
        assert(2 * parts * (qi - 0) > qi) by (nonlinear_arith)
            requires
                parts >= 2,
                qi >= 1,
        ;
    } else {
        let unit = pow2((b - 53) as nat) as int;
        large_double(whole, 0, q, unit);
        lemma_fundamental_div_mod(whole as int, unit);
        if b == 54 {
            assert(whole == pow2(53));
            assert(whole as int % 2 == 0);
        }
        let r = whole as int % unit;
        assert(r == 0);
        assert(2 * (r * qi + 0) == 0) by (nonlinear_arith)
            requires
                r == 0,
        ;
        assert(unit * qi > 0) by (nonlinear_arith)
            requires
                unit >= 1,
                qi >= 1,
        ;
        let h = whole as int / unit;
        assert(h * unit == unit * h) by (nonlinear_arith);
    }
}

// ---------------------------------------------------------------------------
// Digits after the point
// ---------------------------------------------------------------------------
/// The digit at place `i`; 0 behind the last one.
pub open spec fn digit_at(s: Seq<char>, i: int) -> int {
    if 0 <= i < s.len() {
        s[i] as int - '0' as int
    } else {
        0
    }
}

/// The number that the first `j` digits of `s` write, zeros appended where `s` is shorter.
pub open spec fn leading(s: Seq<char>, j: nat) -> int
    decreases j,
{
    if j == 0 {
        0
    } else {
        10 * leading(s, (j - 1) as nat) + digit_at(s, j - 1)
    }
}

proof fn digit_range(s: Seq<char>, i: int)
    requires
        all_digits(s),
    ensures
        0 <= digit_at(s, i) <= 9,
{
    if 0 <= i < s.len() {
        assert(is_digit(s[i]));
    }
}

proof fn leading_bounds(s: Seq<char>, j: nat)
    requires
        all_digits(s),
    ensures
        0 <= leading(s, j) < pow(10, j),
    decreases j,
{
    lemma_pow0(10);
    if j > 0 {
        leading_bounds(s, (j - 1) as nat);
        digit_range(s, j - 1);
        lemma_pow_adds(10, (j - 1) as nat, 1);
        lemma_pow1(10);
    }
}

/// The first `n` digits are the number of that prefix.
proof fn leading_is_value(s: Seq<char>, j: nat)
    requires
        all_digits(s),
        j <= s.len(),
    ensures
        leading(s, j) == digits_value(s.take(j as int)),
    decreases j,
{
    if j > 0 {
        leading_is_value(s, (j - 1) as nat);
        assert(s.take(j as int).drop_last() =~= s.take(j - 1));
        assert(is_digit(s[j - 1]));
    }
}

/// Behind the last digit only zeros follow.
proof fn leading_beyond(s: Seq<char>, j: nat)
    requires
        all_digits(s),
        j >= s.len(),
    ensures
        leading(s, j) == digits_value(s) * pow(10, (j - s.len()) as nat),
    decreases j,
{
    lemma_pow0(10);
    if j == s.len() {
        leading_is_value(s, j);
        assert(s.take(j as int) =~= s);
    } else {
        leading_beyond(s, (j - 1) as nat);
        let e = (j - 1 - s.len()) as nat;
        lemma_pow_adds(10, e, 1);
        lemma_pow1(10);
        let v = digits_value(s) as int;
        let p = pow(10, e);
        assert(10 * (v * p) == v * (p * 10)) by (nonlinear_arith);
    }
}

/// More digits refine fewer.
proof fn leading_refines(s: Seq<char>, j: nat, m: nat) -> (rest: int)
    requires
        all_digits(s),
        j <= m,
    ensures
        leading(s, m) == leading(s, j) * pow(10, (m - j) as nat) + rest,
        0 <= rest < pow(10, (m - j) as nat),
    decreases m - j,
{
    lemma_pow0(10);
    if j == m {
        0
    } else {
        let r = leading_refines(s, j, (m - 1) as nat);
        digit_range(s, m - 1);
        let e = (m - 1 - j) as nat;
        lemma_pow_adds(10, e, 1);
        lemma_pow1(10);
        let a = leading(s, j);
        let p = pow(10, e);
        assert(10 * (a * p + r) == a * (p * 10) + 10 * r) by (nonlinear_arith);
        10 * r + digit_at(s, m - 1)
    }
}

/// What the first `j` digits leave to 1, in units of the last of them.
pub open spec fn gap(s: Seq<char>, j: nat) -> int {
    pow(10, j) - leading(s, j)
}

proof fn gap_step(s: Seq<char>, j: nat)
    requires
        all_digits(s),
    ensures
        gap(s, j) >= 1,
        gap(s, j + 1) == 10 * gap(s, j) - digit_at(s, j as int),
        gap(s, j + 1) >= 10 * gap(s, j) - 9,
        gap(s, j + 1) >= gap(s, j),
{
    leading_bounds(s, j);
    digit_range(s, j as int);
    lemma_pow_adds(10, j, 1);
    lemma_pow1(10);
}

proof fn gap_grows(s: Seq<char>, i: nat, j: nat)
    requires
        all_digits(s),
        i <= j,
    ensures
        gap(s, i) <= gap(s, j),
    decreases j - i,
{
    if i < j {
        gap_grows(s, i, (j - 1) as nat);
        gap_step(s, (j - 1) as nat);
    }
}

/// Whether a fraction is within 2^-j of 1 shows in its first `j` decimal digits.
proof fn near_one_by_digits(s: Seq<char>, j: nat)
    requires
        all_digits(s),
    ensures
        ({
            let q = pow(10, s.len());
            pow2(j) * (q - digits_value(s)) <= q <==> gap(s, j) <= pow(5, j)
        }),
{
    let n = s.len();
    let m = if n >= j {
        n
    } else {
        j
    };
    let f = digits_value(s) as int;
    let q = pow(10, n);
    let two = pow2(j) as int;
    let five = pow(5, j);
    let up = pow(10, (m - n) as nat);
    let t = pow(10, (m - j) as nat);
    leading_beyond(s, m);
    let rest = leading_refines(s, j, m);
    lemma_pow_positive(10, (m - n) as nat);
    lemma_pow_positive(10, (m - j) as nat);
    lemma_pow_positive(5, j);
    lemma_pow2_pos(j);
    lemma_pow2(j);
    lemma_pow_adds(10, n, (m - n) as nat);
    lemma_pow_adds(10, j, (m - j) as nat);
    lemma_pow_distributes(2, 5, j);
    let lm = leading(s, m);
    let lj = leading(s, j);
    let pm = pow(10, m);
    let pj = pow(10, j);
    assert(pm == q * up);
    assert(pm == pj * t);
    assert(pj == two * five);
    assert(lm == f * up);
    assert(lm == lj * t + rest);
    // Scale the comparison to m digits.
    assert(two * (q - f) <= q <==> two * (pm - lm) <= pm) by (nonlinear_arith)
        requires
            pm == q * up,
            lm == f * up,
            up > 0,
    ;
    // Divide it by 2^j.
    assert(pm == two * (five * t)) by (nonlinear_arith)
        requires
            pm == pj * t,
            pj == two * five,
    ;
    assert(two * (pm - lm) <= pm <==> pm - lm <= five * t) by (nonlinear_arith)
        requires
            pm == two * (five * t),
            two > 0,
    ;
    let g = pj - lj;
    assert(pm - lm == g * t - rest) by (nonlinear_arith)
        requires
            pm == pj * t,
            lm == lj * t + rest,
            g == pj - lj,
    ;
    assert(g * t - rest <= five * t <==> g <= five) by (nonlinear_arith)
        requires
            0 <= rest < t,
    ;
}

/// The fraction with the digits `s` is below, at or above one half.
proof fn half_by_digits(s: Seq<char>)
    requires
        all_digits(s),
        s.len() > 0,
    ensures
        ({
            let f = digits_value(s) as int;
            let q = pow(10, s.len());
            let tail = digits_value(s.skip(1)) as int;
            let d = s[0] as int - '0' as int;
            &&& 0 <= tail
            &&& (2 * f > q <==> d > 5 || (d == 5 && tail > 0))
            &&& (2 * f == q <==> d == 5 && tail == 0)
        }),
{
    let n = s.len();
    let t = pow(10, (n - 1) as nat);
    let rest = leading_refines(s, 1, n);
    leading_is_value(s, n);
    assert(s.take(n as int) =~= s);
    assert(leading(s, 1) == 10 * leading(s, 0) + digit_at(s, 0)) by {
        reveal_with_fuel(leading, 2);
    }
    digit_range(s, 0);
    lemma_pow_positive(10, (n - 1) as nat);
    lemma_pow_adds(10, 1, (n - 1) as nat);
    lemma_pow1(10);
    let d = s[0] as int - '0' as int;
    let f = digits_value(s) as int;
    value_of_tail(s);
    let tail = digits_value(s.skip(1)) as int;
    assert(f == d * t + tail);
    assert(rest == tail);
    let q = 10 * t;
    assert((2 * f > q <==> d > 5 || (d == 5 && tail > 0)) && (2 * f == q <==> d == 5 && tail == 0))
        by (nonlinear_arith)
        requires
            f == d * t + tail,
            0 <= tail < t,
            q == 10 * t,
            0 <= d <= 9,
    ;
}

/// The first digit counts for a power of ten.
proof fn value_of_tail(s: Seq<char>)
    requires
        all_digits(s),
        s.len() > 0,
    ensures
        digits_value(s) == (s[0] as int - '0' as int) * pow(10, (s.len() - 1) as nat)
            + digits_value(s.skip(1)),
    decreases s.len(),
{
    lemma_pow0(10);
    if s.len() == 1 {
        assert(s.drop_last() =~= Seq::<char>::empty());
        assert(s.skip(1) =~= Seq::<char>::empty());
        assert(is_digit(s[0]));
    } else {
        let front = s.drop_last();
        assert forall|k: int| 0 <= k < front.len() implies is_digit(#[trigger] front[k]) by {
            assert(front[k] == s[k]);
        }
        value_of_tail(front);
        assert(s.skip(1).drop_last() =~= front.skip(1));
        assert(is_digit(s[s.len() - 1]));
        lemma_pow_adds(10, (s.len() - 2) as nat, 1);
        lemma_pow1(10);
        let d = s[0] as int - '0' as int;
        let p = pow(10, (s.len() - 2) as nat);
        assert((d * p) * 10 == d * (p * 10)) by (nonlinear_arith);
    }
}

proof fn value_bound(s: Seq<char>)
    requires
        all_digits(s),
    ensures
        digits_value(s) < pow(10, s.len()),
{
    leading_is_value(s, s.len());
    assert(s.take(s.len() as int) =~= s);
    leading_bounds(s, s.len());
}

/// Whether any digit is not zero.
fn any_nonzero(s: &[char]) -> (r: bool)
    requires
        all_digits(s@),
    ensures
        r == (digits_value(s@) > 0),
{
    let mut i: usize = 0;
    while i < s.len()
        invariant
            all_digits(s@),
            i <= s@.len(),
            digits_value(s@.take(i as int)) == 0,
        decreases s@.len() - i,
    {
        proof {
            assert(s@.take(i + 1).drop_last() =~= s@.take(i as int));
            assert(is_digit(s@[i as int]));
        }
        if s[i] != '0' {
            proof {
                digits_value_grows(s@, i + 1);
            }
            return true;
        }
        i = i + 1;
    }
    proof {
        assert(s@.take(i as int) =~= s@);
    }
    false
}

/// Whether the fraction with the digits `s` is within 2^-j of 1.
fn near_one(s: &[char], j: u32) -> (r: bool)
    requires
        all_digits(s@),
        j <= 54,
    ensures
        r == (pow2(j as nat) * (pow(10, s@.len()) - digits_value(s@)) <= pow(10, s@.len())),
{
    proof {
        near_one_by_digits(s@, j as nat);
        lemma_pow0(5);
        lemma_pow0(10);
    }
    let mut five: u128 = 1;
    let mut k: u32 = 0;
    while k < j
        invariant
            k <= j <= 54,
            five == pow(5, k as nat),
            five <= 55511151231257827021181583404541015625,
        decreases j - k,
    {
        proof {
            lemma_pow_adds(5, k as nat, 1);
            lemma_pow1(5);
            five_bound((k + 1) as nat);
        }
        five = five * 5;
        k = k + 1;
    }
    let mut g: u128 = 1;
    let mut i: u32 = 0;
    while i < j
        invariant
            all_digits(s@),
            i <= j <= 54,
            five == pow(5, j as nat),
            five <= 55511151231257827021181583404541015625,
            g == gap(s@, i as nat),
        decreases j - i,
    {
        proof {
            gap_step(s@, i as nat);
            digit_range(s@, i as int);
        }
        if g > five / 10 + 1 {
            proof {
                gap_grows(s@, (i + 1) as nat, j as nat);
                near_one_by_digits(s@, j as nat);
            }
            return false;
        }
        let d: u128 = if (i as usize) < s.len() {
            proof {
                assert(is_digit(s@[i as int]));
            }
            (s[i as usize] as u32 - '0' as u32) as u128
        } else {
            0
        };
        g = 10 * g - d;
        i = i + 1;
    }
    g <= five
}

proof fn five_bound(k: nat)
    requires
        k <= 54,
    ensures
        pow(5, k) <= 55511151231257827021181583404541015625,
{
    lemma_pow_increases(5, k, 54);
    assert(pow(5, 54) == 55511151231257827021181583404541015625) by {
        lemma_pow1(5);
        lemma_pow_adds(5, 1, 1);
        assert(pow(5, 2) == 25);
        lemma_pow_adds(5, 2, 1);
        assert(pow(5, 3) == 125);
        lemma_pow_adds(5, 3, 3);
        assert(pow(5, 6) == 15625);
        lemma_pow_adds(5, 6, 6);
        assert(pow(5, 12) == 244140625);
        lemma_pow_adds(5, 12, 12);
        assert(pow(5, 24) == 59604644775390625);
        lemma_pow_adds(5, 24, 24);
        assert(pow(5, 48) == 3552713678800500929355621337890625);
        lemma_pow_adds(5, 48, 6);
    }
}

/// The number of binary digits of `n`.
fn bit_length(n: u64) -> (r: u32)
    ensures
        r == bits(n as nat),
        r <= 64,
{
    let mut m: u64 = n;
    let mut r: u32 = 0;
    proof {
        lemma2_to64();
        bits_le(n as nat, 64);
    }
    while m > 0
        invariant
            r + bits(m as nat) == bits(n as nat),
            bits(n as nat) <= 64,
        decreases m,
    {
        r = r + 1;
        m = m / 2;
    }
    r
}

proof fn bits_le(n: nat, k: nat)
    requires
        n < pow2(k),
    ensures
        bits(n) <= k,
{
    if n > 0 {
        bits_bound(n);
        if bits(n) > k {
            if bits(n) - 1 > k {
                lemma_pow2_strictly_increases(k, (bits(n) - 1) as nat);
            }
        }
    }
}

/// The smaller of a number and the largest `u64`.
pub open spec fn capped(n: int) -> int {
    if n <= u64::MAX {
        n
    } else {
        u64::MAX as int
    }
}

fn power_of_two(e: u32) -> (r: u64)
    requires
        e <= 63,
    ensures
        r == pow2(e as nat),
        r >= 1,
{
    let mut r: u64 = 1;
    let mut i: u32 = 0;
    proof {
        lemma2_to64();
    }
    while i < e
        invariant
            i <= e <= 63,
            r == pow2(i as nat),
            r >= 1,
        decreases e - i,
    {
        proof {
            lemma2_to64();
            lemma_pow2_unfold((i + 1) as nat);
            if i + 1 < 64 {
                lemma_pow2_strictly_increases((i + 1) as nat, 64);
            }
        }
        r = r * 2;
        i = i + 1;
    }
    r
}

/// Whether `2 * (r * q + f)` is above, or at, `unit * q`, where `f / q` is the fraction
/// with the digits `fs` and `r` the rest of a division by `unit`.
fn above_half(r: u64, unit: u64, fs: &[char]) -> (res: (bool, bool))
    requires
        all_digits(fs@),
        r < unit,
        unit == 1 || unit % 2 == 0,
    ensures
        ({
            let q = pow(10, fs@.len());
            let x = 2 * (r * q + digits_value(fs@));
            &&& res.0 == (x > unit * q)
            &&& res.1 == (x == unit * q)
        }),
{
    let ghost q = pow(10, fs@.len());
    let ghost f = digits_value(fs@) as int;
    proof {
        value_bound(fs@);
        lemma_pow_positive(10, fs@.len());
        assert(r * q >= 0) by (nonlinear_arith)
            requires
                r >= 0,
                q > 0,
        ;
    }
    if unit == 1 {
        if fs.len() == 0 {
            proof {
                lemma_pow0(10);
            }
            return (false, false);
        }
        proof {
            half_by_digits(fs@);
            assert(is_digit(fs@[0]));
        }
        let d: char = fs[0];
        let tail: &[char] = slice_subrange(fs, 1, fs.len());
        proof {
            assert(tail@ =~= fs@.skip(1));
            assert forall|k: int| 0 <= k < tail@.len() implies is_digit(#[trigger] tail@[k]) by {
                assert(tail@[k] == fs@[k + 1]);
            }
            assert(0 * q == 0);
        }
        let nonzero: bool = any_nonzero(tail);
        (d > '5' || (d == '5' && nonzero), d == '5' && !nonzero)
    } else {
        let half: u64 = unit / 2;
        let nonzero: bool = any_nonzero(fs);
        proof {
            let ri = r as int;
            let h = half as int;
            assert(unit * q == 2 * (h * q)) by (nonlinear_arith)
                requires
                    unit == 2 * h,
            ;
            if ri > h {
                assert(ri * q >= h * q + q) by (nonlinear_arith)
                    requires
                        ri >= h + 1,
                        q > 0,
                ;
            } else if ri < h {
                assert(ri * q + q <= h * q) by (nonlinear_arith)
                    requires
                        ri + 1 <= h,
                        q > 0,
                ;
            }
        }
        (r > half || (r == half && nonzero), r == half && !nonzero)
    }
}

/// The number with the integer part `whole` and the digits `fs` behind the point, as a
/// double, truncated.
fn truncate_double(whole: u64, fs: &[char]) -> (r: u64)
    requires
        all_digits(fs@),
    ensures
        r == capped(
            truncated_double(whole as nat, digits_value(fs@), pow(10, fs@.len()) as nat),
        ),
{
    let ghost q = pow(10, fs@.len()) as nat;
    let ghost f = digits_value(fs@);
    proof {
        value_bound(fs@);
        lemma_pow_positive(10, fs@.len());
        lemma2_to64();
    }
    let b: u32 = bit_length(whole);
    if b >= 53 {
        let unit: u64 = power_of_two(b - 53);
        let high: u64 = whole / unit;
        let rest: u64 = whole % unit;
        proof {
            large_double(whole as nat, f, q, unit as int);
            if b > 53 {
                lemma_pow2_unfold((b - 53) as nat);
            }
            lemma_fundamental_div_mod(whole as int, unit as int);
        }
        let (above, at) = above_half(rest, unit, fs);
        let up: u128 = if above || (at && high % 2 == 1) { 1 } else { 0 };
        proof {
            let h = high as int;
            let u = unit as int;
            assert((h + up) * u <= whole + u) by (nonlinear_arith)
                requires
                    whole == u * h + rest,
                    rest >= 0,
                    0 <= up <= 1,
                    u >= 1,
            ;
            assert((h + up) * u >= 0) by (nonlinear_arith)
                requires
                    h >= 0,
                    up >= 0,
                    u >= 1,
            ;
        }
        let value: u128 = (high as u128 + up) * unit as u128;
        if value <= u64::MAX as u128 {
            value as u64
        } else {
            u64::MAX
        }
    } else {
        proof {
            let parts = pow2((53 - b) as nat) as int;
            lemma_pow2_unfold((53 - b) as nat);
            lemma_pow2_unfold((54 - b) as nat);
            lemma_pow2_pos((52 - b) as nat);
            small_double(whole as nat, f, q, parts);
            if whole > 0 {
                bits_bound(whole as nat);
                if b < 53 {
                    lemma_pow2_strictly_increases(b as nat, 53);
                    lemma_pow2_strictly_increases(53, 64);
                }
            }
        }
        if near_one(fs, 54 - b) {
            whole + 1
        } else {
            whole
        }
    }
}

// ---------------------------------------------------------------------------
// Placing the point
// ---------------------------------------------------------------------------
/// `k` zeros.
pub open spec fn zeros(k: int) -> Seq<char> {
    Seq::new(
        if k > 0 {
            k as nat
        } else {
            0
        },
        |i: int| '0',
    )
}

/// The digits before a point that stands `p` places behind the start of `m`.
pub open spec fn before_point(m: Seq<char>, p: int) -> Seq<char> {
    if p <= 0 {
        Seq::empty()
    } else if p <= m.len() {
        m.take(p)
    } else {
        m + zeros(p - m.len())
    }
}

/// The digits behind it.
pub open spec fn after_point(m: Seq<char>, p: int) -> Seq<char> {
    if p >= m.len() {
        Seq::empty()
    } else if p >= 0 {
        m.skip(p)
    } else {
        zeros(-p) + m
    }
}

/// The number with the digits `m` and the point at `p`, as a double, truncated to a `u64`.
pub open spec fn decimal_truncated(m: Seq<char>, p: int) -> int {
    capped(
        truncated_double(
            digits_value(before_point(m, p)),
            digits_value(after_point(m, p)),
            pow(10, after_point(m, p).len()) as nat,
        ),
    )
}

proof fn zeros_are_digits(k: int)
    ensures
        all_digits(zeros(k)),
        digits_value(zeros(k)) == 0,
    decreases k,
{
    if k > 0 {
        zeros_are_digits(k - 1);
        assert(zeros(k).drop_last() =~= zeros(k - 1));
    }
}

proof fn leading_zeros_vanish(k: int, m: Seq<char>)
    requires
        all_digits(m),
        k >= 0,
    ensures
        digits_value(zeros(k) + m) == digits_value(m),
    decreases m.len(),
{
    zeros_are_digits(k);
    let all = zeros(k) + m;
    if m.len() == 0 {
        assert(all =~= zeros(k));
    } else {
        let front = m.drop_last();
        assert forall|i: int| 0 <= i < front.len() implies is_digit(#[trigger] front[i]) by {
            assert(front[i] == m[i]);
        }
        leading_zeros_vanish(k, front);
        assert(all.drop_last() =~= zeros(k) + front);
        assert(all.last() == m.last());
    }
}

proof fn no_leading_zeros_needed(m: Seq<char>, z: int, p: int)
    requires
        all_digits(m),
        0 <= z <= m.len(),
        forall|i: int| 0 <= i < z ==> m[i] == '0',
    ensures
        decimal_truncated(m, p) == decimal_truncated(m.skip(z), p - z),
{
    let rest = m.skip(z);
    assert forall|i: int| 0 <= i < rest.len() implies is_digit(#[trigger] rest[i]) by {
        assert(rest[i] == m[i + z]);
    }
    assert(m =~= zeros(z) + rest);
    if p <= 0 {
        assert(before_point(m, p) =~= before_point(rest, p - z));
        if p == 0 && z == 0 {
            assert(rest =~= m);
        } else {
            assert(after_point(m, p) =~= after_point(rest, p - z));
        }
    } else if p < z {
        assert(after_point(m, p) =~= after_point(rest, p - z));
        assert(before_point(m, p) =~= zeros(p));
        zeros_are_digits(p);
        assert(before_point(rest, p - z) =~= Seq::<char>::empty());
    } else {
        assert(after_point(m, p) =~= after_point(rest, p - z));
        let b = before_point(rest, p - z);
        assert(before_point(m, p) =~= zeros(z) + b);
        zeros_are_digits(p - m.len());
        assert forall|i: int| 0 <= i < b.len() implies is_digit(#[trigger] b[i]) by {
            if i < rest.len() {
                assert(b[i] == rest[i]);
            }
        }
        leading_zeros_vanish(z, b);
    }
}

/// What is at least 2^64 before rounding is so afterwards.
proof fn huge_is_capped(whole: nat, f: nat, q: nat)
    requires
        whole > u64::MAX,
        f < q,
    ensures
        capped(truncated_double(whole, f, q)) == u64::MAX,
{
    lemma2_to64();
    bits_bound(whole);
    let b = bits(whole);
    if b < 65 {
        if b < 64 {
            lemma_pow2_strictly_increases(b, 64);
        }
        assert(false);
    }
    let unit = pow2((b - 53) as nat) as int;
    lemma_pow2_pos((b - 53) as nat);
    large_double(whole, f, q, unit);
    lemma_fundamental_div_mod(whole as int, unit);
    let h = whole as int / unit;
    vstd::arithmetic::power2::lemma_pow2_adds(52, (b - 53) as nat);
    assert(pow2(52) * unit == pow2((b - 1) as nat));
    let low = pow2(52) as int;
    assert(h >= low) by (nonlinear_arith)
        requires
            whole == unit * h + whole as int % unit,
            whole >= low * unit,
            0 <= whole as int % unit < unit,
            unit > 0,
    ;
    let m = nearest_even((whole * q + f) as int, unit * q);
    assert(m >= h);
    assert(m * unit >= low * unit) by (nonlinear_arith)
        requires
            m >= low,
            unit > 0,
    ;
    if b > 65 {
        lemma_pow2_strictly_increases(64, (b - 1) as nat);
    }
}

/// A number without a digit other than 0 is 0.
proof fn nothing_is_zero(q: nat)
    requires
        q >= 1,
    ensures
        truncated_double(0, 0, q) == 0,
{
    assert(bits(0) == 0);
    let parts = pow2(53) as int;
    lemma2_to64();
    lemma_pow2_unfold(53);
    lemma_pow2_pos(52);
    small_double(0, 0, q, parts);
    let qi = q as int;
    assert(2 * parts * (qi - 0) > qi) by (nonlinear_arith)
        requires
            parts >= 2,
            qi >= 1,
    ;
}

/// A number with a zero behind the point, and nothing before it, is 0 when truncated.
proof fn small_is_zero(m: Seq<char>, p: int)
    requires
        all_digits(m),
        p < 0,
    ensures
        decimal_truncated(m, p) == 0,
{
    let a = after_point(m, p);
    if m.len() == 0 && p >= 0 {
    } else {
        assert(a =~= zeros(-p) + m);
    }
    leading_zeros_vanish(-p, m);
    assert(before_point(m, p) =~= Seq::<char>::empty());
    value_bound(m);
    let q = pow(10, a.len());
    let f = digits_value(m) as int;
    let k = pow(10, m.len());
    lemma_pow_adds(10, m.len(), (-p) as nat);
    lemma_pow_increases(10, 1, (-p) as nat);
    lemma_pow1(10);
    lemma_pow_positive(10, m.len());
    let t = pow(10, (-p) as nat);
    assert(q >= 10 * k) by (nonlinear_arith)
        requires
            q == k * t,
            t >= 10,
            k > 0,
    ;
    assert(bits(0) == 0);
    let parts = pow2(53) as int;
    lemma_pow2_unfold(53);
    lemma_pow2_pos(52);
    small_double(0, f as nat, q as nat, parts);
    assert(2 * parts * (q - f) > q) by (nonlinear_arith)
        requires
            parts >= 2,
            10 * f < q,
            f >= 0,
    ;
}

proof fn many_digits_are_huge(m: Seq<char>, p: int)
    requires
        all_digits(m),
        m.len() > 0,
        m[0] != '0',
        p > 20,
    ensures
        decimal_truncated(m, p) == u64::MAX,
{
    let b = before_point(m, p);
    let a = after_point(m, p);
    zeros_are_digits(p - m.len());
    assert forall|i: int| 0 <= i < b.len() implies is_digit(#[trigger] b[i]) by {
        if i < m.len() {
            assert(b[i] == m[i]);
        }
    }
    assert forall|i: int| 0 <= i < a.len() implies is_digit(#[trigger] a[i]) by {
        assert(a[i] == m[i + p]);
    }
    assert(is_digit(m[0]));
    assert(b[0] == m[0]);
    value_of_tail(b);
    let d = b[0] as int - '0' as int;
    let t = pow(10, (p - 1) as nat);
    lemma_pow_increases(10, 20, (p - 1) as nat);
    ten_to_twenty();
    assert(d * t >= t) by (nonlinear_arith)
        requires
            d >= 1,
            t >= 0,
    ;
    value_bound(a);
    huge_is_capped(digits_value(b), digits_value(a), pow(10, a.len()) as nat);
}

/// The number with the digits `m` and the point at `p`, as a double, truncated to a `u64`.
fn place_point(m: &[char], p: i128) -> (r: u64)
    requires
        all_digits(m@),
        -0x4000_0000_0000_0000_0000_0000_0000_0000 <= p <= 0x4000_0000_0000_0000_0000_0000_0000_0000,
    ensures
        r == decimal_truncated(m@, p as int),
{
    let mut z: usize = 0;
    while z < m.len() && m[z] == '0'
        invariant
            z <= m@.len(),
            forall|i: int| 0 <= i < z ==> m@[i] == '0',
        decreases m@.len() - z,
    {
        z = z + 1;
    }
    let rest: &[char] = slice_subrange(m, z, m.len());
    proof {
        assert(rest@ =~= m@.skip(z as int));
        assert forall|i: int| 0 <= i < rest@.len() implies is_digit(#[trigger] rest@[i]) by {
            assert(rest@[i] == m@[i + z]);
        }
        no_leading_zeros_needed(m@, z as int, p as int);
    }
    let q: i128 = p - z as i128;
    if rest.len() == 0 {
        proof {
            let b = before_point(rest@, q as int);
            let a = after_point(rest@, q as int);
            assert(b =~= zeros(q as int));
            assert(a =~= zeros(-q));
            zeros_are_digits(q as int);
            zeros_are_digits(-q);
            lemma_pow_positive(10, a.len());
            nothing_is_zero(pow(10, a.len()) as nat);
        }
        return 0;
    }
    proof {
        assert(rest@[0] == m@[z as int]);
    }
    if q > 20 {
        proof {
            many_digits_are_huge(rest@, q as int);
        }
        return u64::MAX;
    }
    if q < 0 {
        proof {
            small_is_zero(rest@, q as int);
        }
        return 0;
    }
    let n: usize = q as usize;
    let mut whole: u128 = 0;
    let mut i: usize = 0;
    proof {
        lemma_pow0(10);
    }
    while i < n
        invariant
            all_digits(rest@),
            i <= n <= 20,
            whole == leading(rest@, i as nat),
            whole < pow(10, i as nat),
            pow(10, i as nat) <= 100000000000000000000,
        decreases n - i,
    {
        let d: u128 = if i < rest.len() {
            proof {
                assert(is_digit(rest@[i as int]));
            }
            (rest[i] as u32 - '0' as u32) as u128
        } else {
            0
        };
        proof {
            leading_bounds(rest@, (i + 1) as nat);
            ten_bound((i + 1) as nat);
        }
        whole = whole * 10 + d;
        i = i + 1;
    }
    proof {
        point_parts(rest@, n as int);
    }
    let fs: &[char] = if n < rest.len() {
        slice_subrange(rest, n, rest.len())
    } else {
        slice_subrange(rest, 0, 0)
    };
    proof {
        assert(fs@ =~= after_point(rest@, n as int));
        value_bound(fs@);
    }
    if whole > u64::MAX as u128 {
        proof {
            huge_is_capped(whole as nat, digits_value(fs@), pow(10, fs@.len()) as nat);
        }
        return u64::MAX;
    }
    truncate_double(whole as u64, fs)
}

proof fn ten_to_twenty()
    ensures
        pow(10, 20) == 100000000000000000000,
{
    lemma_pow1(10);
    lemma_pow_adds(10, 1, 1);
    assert(pow(10, 2) == 100);
    lemma_pow_adds(10, 2, 2);
    assert(pow(10, 4) == 10000);
    lemma_pow_adds(10, 4, 1);
    assert(pow(10, 5) == 100000);
    lemma_pow_adds(10, 5, 5);
    assert(pow(10, 10) == 10000000000);
    lemma_pow_adds(10, 10, 10);
}

proof fn ten_bound(i: nat)
    requires
        i <= 20,
    ensures
        pow(10, i) <= 100000000000000000000,
{
    lemma_pow_increases(10, i, 20);
    ten_to_twenty();
}

/// The digits before and behind a point within or behind the digits.
proof fn point_parts(m: Seq<char>, n: int)
    requires
        all_digits(m),
        0 <= n,
    ensures
        digits_value(before_point(m, n)) == leading(m, n as nat),
        all_digits(after_point(m, n)),
{
    let a = after_point(m, n);
    assert forall|i: int| 0 <= i < a.len() implies is_digit(#[trigger] a[i]) by {
        assert(a[i] == m[i + n]);
    }
    if n == 0 {
        assert(before_point(m, n) =~= Seq::<char>::empty());
    } else if n <= m.len() {
        leading_is_value(m, n as nat);
    } else {
        padded_value(m, n - m.len());
        leading_beyond(m, n as nat);
    }
}

proof fn padded_value(m: Seq<char>, k: int)
    requires
        all_digits(m),
        k >= 0,
    ensures
        digits_value(m + zeros(k)) == digits_value(m) * pow(10, k as nat),
    decreases k,
{
    lemma_pow0(10);
    if k == 0 {
        assert(m + zeros(0) =~= m);
    } else {
        padded_value(m, k - 1);
        assert((m + zeros(k)).drop_last() =~= m + zeros(k - 1));
        assert((m + zeros(k)).last() == '0');
        lemma_pow_adds(10, (k - 1) as nat, 1);
        lemma_pow1(10);
        let v = digits_value(m) as int;
        let t = pow(10, (k - 1) as nat);
        assert((v * t) * 10 == v * (t * 10)) by (nonlinear_arith);
    }
}

// ---------------------------------------------------------------------------
// Reading a number
// ---------------------------------------------------------------------------
/// `s` is the word `lower`, in capital or small letters (`upper` is the same word in
/// capitals).
pub open spec fn is_word(s: Seq<char>, lower: Seq<char>, upper: Seq<char>) -> bool {
    &&& s.len() == lower.len() == upper.len()
    &&& forall|i: int| 0 <= i < s.len() ==> #[trigger] s[i] == lower[i] || s[i] == upper[i]
}

fn word(s: &[char], lower: &str, upper: &str) -> (r: bool)
    ensures
        r == is_word(s@, lower@, upper@),
{
    let lo: Vec<char> = chars_of(lower);
    let up: Vec<char> = chars_of(upper);
    if s.len() != lo.len() || s.len() != up.len() {
        return false;
    }
    let mut i: usize = 0;
    while i < s.len()
        invariant
            i <= s@.len() == lo@.len() == up@.len(),
            lo@ == lower@,
            up@ == upper@,
            forall|k: int| 0 <= k < i ==> #[trigger] s@[k] == lo@[k] || s@[k] == up@[k],
        decreases s@.len() - i,
    {
        if s[i] != lo[i] && s[i] != up[i] {
            return false;
        }
        i = i + 1;
    }
    true
}

/// Whether `s` starts with a minus sign.
pub open spec fn is_negative(s: Seq<char>) -> bool {
    s.len() > 0 && s[0] == '-'
}

/// `s` without one leading sign.
pub open spec fn unsigned(s: Seq<char>) -> Seq<char> {
    if s.len() > 0 && (s[0] == '-' || s[0] == '+') {
        s.skip(1)
    } else {
        s
    }
}

/// The exponent that `s` writes: an optional sign and at least one digit.
pub open spec fn exponent(s: Seq<char>) -> Option<int> {
    let d = unsigned(s);
    if d.len() == 0 || !all_digits(d) {
        None
    } else if is_negative(s) {
        Some(-(digits_value(d) as int))
    } else {
        Some(digits_value(d) as int)
    }
}

/// The digits of a decimal number and the place of its point, the exponent counted in:
/// digits with at most one point among them, at least one digit, and an optional `e` with
/// an exponent.
pub open spec fn scanned(s: Seq<char>) -> Option<(Seq<char>, int)> {
    let k = first_of(s, 'e', 'E');
    let mantissa = s.take(k);
    let d = first_of(mantissa, '.', '.');
    let front = mantissa.take(d);
    let back = if d < mantissa.len() {
        mantissa.skip(d + 1)
    } else {
        Seq::empty()
    };
    let digits = front + back;
    if digits.len() == 0 || !all_digits(digits) {
        None
    } else if k == s.len() {
        Some((digits, d))
    } else {
        match exponent(s.skip(k + 1)) {
            Some(e) => Some((digits, d + e)),
            None => None,
        }
    }
}

/// The double that `s` writes, truncated to a `u64`: what is negative or not a number
/// becomes 0, what is too large becomes the largest value.
pub open spec fn double_as_u64(s: Seq<char>) -> Option<int> {
    let body = unsigned(s);
    if is_word(body, "inf"@, "INF"@) || is_word(body, "infinity"@, "INFINITY"@) {
        Some(
            if is_negative(s) {
                0
            } else {
                u64::MAX as int
            },
        )
    } else if is_word(body, "nan"@, "NAN"@) {
        Some(0)
    } else {
        match scanned(body) {
            None => None,
            Some((digits, point)) => Some(
                if is_negative(s) {
                    0
                } else {
                    decimal_truncated(digits, point)
                },
            ),
        }
    }
}

fn strip_sign<'a>(s: &'a [char]) -> (r: (bool, &'a [char]))
    ensures
        r.0 == is_negative(s@),
        r.1@ == unsigned(s@),
{
    if s.len() > 0 && (s[0] == '-' || s[0] == '+') {
        let t: &[char] = slice_subrange(s, 1, s.len());
        proof {
            assert(t@ =~= s@.skip(1));
        }
        (s[0] == '-', t)
    } else {
        (false, s)
    }
}

/// An exponent beyond this has the same effect as this one.
pub const FAR: u128 = 1_000_000_000_000_000_000_000_000_000_000;

/// The number that digits write, or `FAR` where it is larger.
fn capped_value(s: &[char]) -> (r: u128)
    requires
        all_digits(s@),
    ensures
        r <= FAR,
        r == digits_value(s@) || (r == FAR && digits_value(s@) > FAR),
{
    let mut acc: u128 = 0;
    let mut i: usize = 0;
    while i < s.len()
        invariant
            all_digits(s@),
            i <= s@.len(),
            acc == digits_value(s@.take(i as int)),
            acc <= FAR,
        decreases s@.len() - i,
    {
        proof {
            assert(s@.take(i + 1).drop_last() =~= s@.take(i as int));
            assert(is_digit(s@[i as int]));
            digits_value_grows(s@, i + 1);
        }
        let next: u128 = acc * 10 + (s[i] as u32 - '0' as u32) as u128;
        if next > FAR {
            return FAR;
        }
        acc = next;
        i = i + 1;
    }
    proof {
        assert(s@.take(i as int) =~= s@);
    }
    acc
}

/// Far away from the digits it does not matter where exactly the point stands.
proof fn far_points_agree(m: Seq<char>, p: int, r: int)
    requires
        all_digits(m),
        (p < 0 && r < 0) || (p > m.len() + 20 && r > m.len() + 20),
    ensures
        decimal_truncated(m, p) == decimal_truncated(m, r),
{
    if p < 0 {
        small_is_zero(m, p);
        small_is_zero(m, r);
    } else {
        let z = zero_prefix(m);
        let rest = m.skip(z);
        assert forall|i: int| 0 <= i < rest.len() implies is_digit(#[trigger] rest[i]) by {
            assert(rest[i] == m[i + z]);
        }
        no_leading_zeros_needed(m, z, p);
        no_leading_zeros_needed(m, z, r);
        if rest.len() > 0 {
            many_digits_are_huge(rest, p - z);
            many_digits_are_huge(rest, r - z);
        } else {
            assert(before_point(rest, p - z) =~= zeros(p - z));
            assert(before_point(rest, r - z) =~= zeros(r - z));
            zeros_are_digits(p - z);
            zeros_are_digits(r - z);
            assert(after_point(rest, p - z) =~= Seq::<char>::empty());
            assert(after_point(rest, r - z) =~= Seq::<char>::empty());
        }
    }
}

proof fn zero_prefix(m: Seq<char>) -> (z: int)
    ensures
        0 <= z <= m.len(),
        forall|i: int| 0 <= i < z ==> m[i] == '0',
        z < m.len() ==> m[z] != '0',
    decreases m.len(),
{
    if m.len() == 0 || m[0] != '0' {
        0
    } else {
        let t = m.skip(1);
        let z = zero_prefix(t);
        assert forall|i: int| 0 <= i < z + 1 implies m[i] == '0' by {
            if i > 0 {
                assert(t[i - 1] == m[i]);
            }
        }
        if z < t.len() {
            assert(t[z] == m[z + 1]);
        }
        z + 1
    }
}

/// The double that `s` writes, truncated to a `u64`; `None` where `s` writes none.
pub fn parse_double(s: &[char]) -> (r: Option<u64>)
    ensures
        match r {
            Some(n) => double_as_u64(s@) == Some(n as int),
            None => double_as_u64(s@) is None,
        },
{
    let (negative, body) = strip_sign(s);
    if word(body, "inf", "INF") || word(body, "infinity", "INFINITY") {
        return Some(if negative { 0 } else { u64::MAX });
    }
    if word(body, "nan", "NAN") {
        return Some(0);
    }
    let k: usize = find_first(body, 'e', 'E');
    let mantissa: &[char] = slice_subrange(body, 0, k);
    proof {
        assert(mantissa@ =~= body@.take(k as int));
    }
    let d: usize = find_first(mantissa, '.', '.');
    let mut digits: Vec<char> = Vec::new();
    let mut i: usize = 0;
    while i < mantissa.len()
        invariant
            i <= mantissa@.len(),
            d <= mantissa@.len(),
            digits@ == if i <= d {
                mantissa@.take(i as int)
            } else {
                mantissa@.take(d as int) + mantissa@.subrange(d + 1, i as int)
            },
        decreases mantissa@.len() - i,
    {
        if i != d {
            digits.push(mantissa[i]);
        }
        i = i + 1;
        proof {
            if i <= d {
                assert(digits@ =~= mantissa@.take(i as int));
            } else {
                assert(digits@ =~= mantissa@.take(d as int) + mantissa@.subrange(
                    d + 1,
                    i as int,
                ));
            }
        }
    }
    let ghost back = if d < mantissa@.len() {
        mantissa@.skip(d + 1)
    } else {
        Seq::empty()
    };
    proof {
        assert(digits@ =~= mantissa@.take(d as int) + back);
    }
    if digits.len() == 0 || !digits_only(digits.as_slice()) {
        return None;
    }
    let mut point: i128 = d as i128;
    if k < body.len() {
        let tail: &[char] = slice_subrange(body, k + 1, body.len());
        proof {
            assert(tail@ =~= body@.skip(k + 1));
        }
        let (down, power) = strip_sign(tail);
        if power.len() == 0 || !digits_only(power) {
            return None;
        }
        let e: u128 = capped_value(power);
        let ghost exact = d + exponent(tail@)->0;
        point = if down { d as i128 - e as i128 } else { d as i128 + e as i128 };
        proof {
            if point != exact {
                far_points_agree(digits@, point as int, exact);
            }
        }
    }
    if negative {
        Some(0)
    } else {
        Some(place_point(digits.as_slice(), point))
    }
}

// ---------------------------------------------------------------------------
// Laws
// ---------------------------------------------------------------------------
proof fn first_of_is(s: Seq<char>, a: char, b: char, k: int)
    requires
        0 <= k <= s.len(),
        forall|i: int| 0 <= i < k ==> #[trigger] s[i] != a && s[i] != b,
        k < s.len() ==> s[k] == a || s[k] == b,
    ensures
        first_of(s, a, b) == k,
{
    first_place_is_found(s, a, b);
    let r = first_of(s, a, b);
    if r < k {
        assert(s[r] != a && s[r] != b);
    }
}

proof fn number_is_no_word(s: Seq<char>)
    requires
        s.len() > 0,
        is_digit(s[0]) || s[0] == '.',
    ensures
        !is_word(s, "inf"@, "INF"@),
        !is_word(s, "infinity"@, "INFINITY"@),
        !is_word(s, "nan"@, "NAN"@),
        unsigned(s) == s,
        !is_negative(s),
{
    reveal_strlit("inf");
    reveal_strlit("INF");
    reveal_strlit("infinity");
    reveal_strlit("INFINITY");
    reveal_strlit("nan");
    reveal_strlit("NAN");
    assert("inf"@[0] == 'i' && "INF"@[0] == 'I');
    assert("infinity"@[0] == 'i' && "INFINITY"@[0] == 'I');
    assert("nan"@[0] == 'n' && "NAN"@[0] == 'N');
}

proof fn whole_digits_are_scanned(a: Seq<char>)
    requires
        a.len() > 0,
        all_digits(a),
    ensures
        scanned(a) == Some((a, a.len() as int)),
{
    assert forall|i: int| 0 <= i < a.len() implies a[i] != 'e' && a[i] != 'E' && #[trigger] a[i]
        != '.' by {
        assert(is_digit(a[i]));
    }
    first_of_is(a, 'e', 'E', a.len() as int);
    assert(a.take(a.len() as int) =~= a);
    first_of_is(a, '.', '.', a.len() as int);
    assert(a + Seq::<char>::empty() =~= a);
}

proof fn whole_digits_are_truncated(a: Seq<char>)
    requires
        all_digits(a),
        digits_value(a) <= pow2(53),
    ensures
        decimal_truncated(a, a.len() as int) == digits_value(a),
{
    lemma2_to64();
    lemma_pow2_strictly_increases(53, 64);
    lemma_pow0(10);
    assert(a.take(a.len() as int) =~= a);
    if a.len() == 0 {
        assert(a =~= Seq::<char>::empty());
    }
    assert(after_point(a, a.len() as int) =~= Seq::<char>::empty());
    assert(digits_value(Seq::<char>::empty()) == 0);
    whole_numbers_are_exact(digits_value(a), 1);
}

/// A whole number up to 2^53 is read as it is, with a plus sign too; with a minus sign it is 0.
pub proof fn whole_numbers_are_read(a: Seq<char>)
    requires
        a.len() > 0,
        all_digits(a),
        digits_value(a) <= pow2(53),
    ensures
        double_as_u64(a) == Some(digits_value(a) as int),
        double_as_u64(seq!['+'] + a) == Some(digits_value(a) as int),
        double_as_u64(seq!['-'] + a) == Some(0int),
{
    assert(is_digit(a[0]));
    number_is_no_word(a);
    whole_digits_are_scanned(a);
    whole_digits_are_truncated(a);
    assert((seq!['+'] + a).skip(1) =~= a);
    assert((seq!['-'] + a).skip(1) =~= a);
}

proof fn fraction_is_scanned(a: Seq<char>, b: Seq<char>)
    requires
        a.len() + b.len() > 0,
        all_digits(a),
        all_digits(b),
    ensures
        scanned(a.push('.') + b) == Some((a + b, a.len() as int)),
{
    let s = a.push('.') + b;
    let n = a.len() as int;
    assert forall|i: int| 0 <= i < s.len() implies #[trigger] s[i] != 'e' && s[i] != 'E' && (i < n
        ==> s[i] != '.') by {
        if i < n {
            assert(s[i] == a[i]);
            assert(is_digit(a[i]));
        } else if i > n {
            assert(s[i] == b[i - n - 1]);
            assert(is_digit(b[i - n - 1]));
        }
    }
    first_of_is(s, 'e', 'E', s.len() as int);
    assert(s.take(s.len() as int) =~= s);
    assert(s[n] == '.');
    first_of_is(s, '.', '.', n);
    assert(s.take(n) =~= a);
    assert(s.skip(n + 1) =~= b);
    assert forall|i: int| 0 <= i < (a + b).len() implies is_digit(#[trigger] (a + b)[i]) by {
        if i < n {
            assert(is_digit(a[i]));
        } else {
            assert(is_digit(b[i - n]));
        }
    }
}

proof fn digits_below_power(b: Seq<char>)
    requires
        all_digits(b),
    ensures
        digits_value(b) < pow(10, b.len()),
    decreases b.len(),
{
    lemma_pow0(10);
    if b.len() > 0 {
        let front = b.drop_last();
        assert forall|i: int| 0 <= i < front.len() implies is_digit(#[trigger] front[i]) by {
            assert(is_digit(b[i]));
        }
        digits_below_power(front);
        assert(is_digit(b[b.len() - 1]));
        lemma_pow_adds(10, front.len(), 1);
        lemma_pow1(10);
    }
}

/// Of a number below 2^40 with up to three digits behind the point, as rates and sizes are
/// printed, what stands before the point is read.
pub proof fn fractions_are_cut_off(a: Seq<char>, b: Seq<char>)
    requires
        a.len() > 0,
        b.len() <= 3,
        all_digits(a),
        all_digits(b),
        digits_value(a) < pow2(40),
    ensures
        double_as_u64(a.push('.') + b) == Some(digits_value(a) as int),
{
    let s = a.push('.') + b;
    let n = a.len() as int;
    let m = a + b;
    assert(is_digit(a[0]));
    assert(s[0] == a[0]);
    number_is_no_word(s);
    fraction_is_scanned(a, b);
    assert(before_point(m, n) =~= a) by {
        assert(m.take(n) =~= a);
    }
    assert(after_point(m, n) =~= b) by {
        assert(m.skip(n) =~= b);
    }
    let whole = digits_value(a);
    let f = digits_value(b);
    let q = pow(10, b.len()) as nat;
    digits_below_power(b);
    lemma_pow0(10);
    lemma_pow1(10);
    lemma_pow_adds(10, 1, 1);
    lemma_pow_adds(10, 2, 1);
    assert(q <= 1000);
    lemma2_to64();
    let w = bits(whole);
    if whole > 0 {
        bits_bound(whole);
        if w > 40 {
            if w > 41 {
                lemma_pow2_strictly_increases(40, (w - 1) as nat);
            }
            assert(pow2((w - 1) as nat) >= pow2(40));
        }
    }
    assert(w <= 40);
    let parts = pow2((53 - w) as nat) as int;
    lemma_pow2_unfold((53 - w) as nat);
    if 53 - w > 13 {
        lemma_pow2_strictly_increases(13, (53 - w) as nat);
    }
    assert(parts >= 8192);
    lemma_pow2_pos((52 - w) as nat);
    small_double(whole, f, q, parts);
    assert(2 * parts * (q - f) > q) by (nonlinear_arith)
        requires
            parts >= 8192,
            f < q <= 1000,
    ;
    lemma_pow2_strictly_increases(40, 64);
}

/// An exponent stands for as many zeros.
pub proof fn exponents_stand_for_zeros(a: Seq<char>, k: nat)
    requires
        a.len() > 0,
        all_digits(a),
    ensures
        double_as_u64(a.push('e') + decimal(k)) == double_as_u64(a + zeros(k as int)),
        double_as_u64(a.push('E') + decimal(k)) == double_as_u64(a + zeros(k as int)),
        double_as_u64(a.push('e') + decimal(k)) is Some,
{
    let z = a + zeros(k as int);
    let d = decimal(k);
    let n = a.len() as int;
    decimal_reads_back(k, k);
    zeros_are_digits(k as int);
    assert(is_digit(a[0]));
    assert(is_digit(d[0]));
    assert forall|i: int| 0 <= i < z.len() implies is_digit(#[trigger] z[i]) by {
        if i < n {
            assert(is_digit(a[i]));
        } else {
            assert(is_digit(zeros(k as int)[i - n]));
        }
    }
    assert(z[0] == a[0]);
    number_is_no_word(z);
    whole_digits_are_scanned(z);
    exponent_is_scanned(a, 'e', k);
    exponent_is_scanned(a, 'E', k);
    let s = a.push('e') + d;
    let t = a.push('E') + d;
    assert(s[0] == a[0] && t[0] == a[0]);
    number_is_no_word(s);
    number_is_no_word(t);
    let p = n + k;
    assert(z.len() == p);
    assert(before_point(z, p) =~= z) by {
        assert(z.take(p) =~= z);
    }
    assert(before_point(a, p) =~= z) by {
        if k == 0 {
            assert(a.take(n) =~= a);
            assert(z =~= a);
        }
    }
    assert(after_point(z, p) =~= after_point(a, p));
}

proof fn exponent_is_scanned(a: Seq<char>, e: char, k: nat)
    requires
        a.len() > 0,
        all_digits(a),
        e == 'e' || e == 'E',
    ensures
        scanned(a.push(e) + decimal(k)) == Some((a, (a.len() + k) as int)),
{
    let d = decimal(k);
    let s = a.push(e) + d;
    let n = a.len() as int;
    decimal_reads_back(k, k);
    assert(is_digit(d[0]));
    assert forall|i: int| 0 <= i < n implies #[trigger] s[i] != 'e' && s[i] != 'E' && s[i]
        != '.' by {
        assert(s[i] == a[i]);
        assert(is_digit(a[i]));
    }
    first_of_is(s, 'e', 'E', n);
    assert(s.take(n) =~= a);
    assert forall|i: int| 0 <= i < n implies #[trigger] a[i] != '.' by {
        assert(is_digit(a[i]));
    }
    first_of_is(a, '.', '.', n);
    assert(a.take(n) =~= a);
    assert(a + Seq::<char>::empty() =~= a);
    assert(s.skip(n + 1) =~= d);
}

/// What is not finite is the largest value, or 0 where it is negative or no number at all, in
/// small or capital letters.
pub proof fn words_are_read(s: Seq<char>)
    ensures
        double_as_u64("inf"@) == Some(u64::MAX as int),
        double_as_u64("INF"@) == Some(u64::MAX as int),
        double_as_u64("infinity"@) == Some(u64::MAX as int),
        double_as_u64("nan"@) == Some(0int),
        double_as_u64("NAN"@) == Some(0int),
        s.len() > 0 && s[0] == '-' && double_as_u64(s) is Some ==> double_as_u64(s) == Some(0int),
{
    reveal_strlit("inf");
    reveal_strlit("INF");
    reveal_strlit("infinity");
    reveal_strlit("INFINITY");
    reveal_strlit("nan");
    reveal_strlit("NAN");
    assert("inf"@[0] == 'i' && "INF"@[0] == 'I');
    assert("infinity"@[0] == 'i' && "INFINITY"@[0] == 'I');
    assert("nan"@[0] == 'n' && "NAN"@[0] == 'N');
}

/// A text with a character that no number and none of those words has is no number, and
/// neither is an empty one.
pub proof fn other_texts_are_no_numbers(s: Seq<char>, i: int)
    requires
        s.len() > 0 ==> 0 < i < s.len() && !is_digit(s[i]) && s[i] != '.' && s[i] != 'e' && s[i]
            != 'E' && s[i] != '+' && s[i] != '-',
        s.len() > 0 ==> s[i] != 'i' && s[i] != 'n' && s[i] != 'f' && s[i] != 't' && s[i] != 'y'
            && s[i] != 'a' && s[i] != 'I' && s[i] != 'N' && s[i] != 'F' && s[i] != 'T' && s[i]
            != 'Y' && s[i] != 'A',
    ensures
        double_as_u64(s) is None,
{
    reveal_strlit("inf");
    reveal_strlit("INF");
    reveal_strlit("infinity");
    reveal_strlit("INFINITY");
    reveal_strlit("nan");
    reveal_strlit("NAN");
    let body = unsigned(s);
    let at = if body.len() == s.len() {
        i
    } else {
        i - 1
    };
    if s.len() > 0 {
        assert(body[at] == s[i]);
    }
    let k = first_of(body, 'e', 'E');
    first_place_is_found(body, 'e', 'E');
    let mantissa = body.take(k);
    let d = first_of(mantissa, '.', '.');
    first_place_is_found(mantissa, '.', '.');
    let front = mantissa.take(d);
    let back = if d < mantissa.len() {
        mantissa.skip(d + 1)
    } else {
        Seq::empty()
    };
    let digits = front + back;
    if s.len() > 0 && scanned(body) is Some {
        assert(all_digits(digits));
        if at < k {
            if at < d {
                assert(digits[at] == s[i]);
                assert(is_digit(digits[at]));
            } else {
                assert(at > d);
                assert(digits[at - 1] == s[i]);
                assert(is_digit(digits[at - 1]));
            }
        } else {
            let tail = body.skip(k + 1);
            let j = at - k - 1;
            assert(j >= 0);
            assert(tail[j] == s[i]);
            let u = unsigned(tail);
            let l = if u.len() == tail.len() {
                j
            } else {
                j - 1
            };
            assert(l >= 0);
            assert(u[l] == s[i]);
            assert(is_digit(u[l]));
        }
    }
}

/// A negative exponent moves the point to the left.
pub proof fn negative_exponents_move_the_point(a: Seq<char>, b: Seq<char>)
    requires
        a.len() > 0,
        all_digits(a),
        all_digits(b),
    ensures
        double_as_u64((a + b).push('e') + (seq!['-'] + decimal(b.len()))) == double_as_u64(
            a.push('.') + b,
        ),
        double_as_u64(a.push('.') + b) is Some,
{
    let m = a + b;
    let k = b.len();
    let d = decimal(k);
    let tail = seq!['-'] + d;
    let s = m.push('e') + tail;
    let t = a.push('.') + b;
    let n = m.len() as int;
    decimal_reads_back(k, k);
    assert forall|i: int| 0 <= i < n implies is_digit(#[trigger] m[i]) by {
        if i < a.len() {
            assert(is_digit(a[i]));
        } else {
            assert(is_digit(b[i - a.len()]));
        }
    }
    assert forall|i: int| 0 <= i < n implies #[trigger] s[i] != 'e' && s[i] != 'E' by {
        assert(s[i] == m[i]);
        assert(is_digit(m[i]));
    }
    first_of_is(s, 'e', 'E', n);
    assert(s.take(n) =~= m);
    assert forall|i: int| 0 <= i < n implies #[trigger] m[i] != '.' by {
        assert(is_digit(m[i]));
    }
    first_of_is(m, '.', '.', n);
    assert(m.take(n) =~= m);
    assert(m + Seq::<char>::empty() =~= m);
    assert(s.skip(n + 1) =~= tail);
    assert(tail.skip(1) =~= d);
    assert(exponent(tail) == Some(-(k as int)));
    fraction_is_scanned(a, b);
    assert(is_digit(a[0]));
    assert(s[0] == a[0] && t[0] == a[0]);
    number_is_no_word(s);
    number_is_no_word(t);
}

/// A number of more than 53 binary digits is read as a multiple of the unit that is left, the
/// nearest to it.
pub proof fn large_numbers_are_rounded(whole: nat, f: nat, q: nat, k: nat)
    requires
        pow2(k + 52) <= whole < pow2(k + 53),
        f < q,
    ensures
        ({
            let unit = pow2(k) as int;
            let r = truncated_double(whole, f, q);
            &&& r % unit == 0
            &&& -(unit * q) <= 2 * (r * q - (whole * q + f)) <= unit * q
        }),
{
    let unit = pow2(k) as int;
    let qi = q as int;
    lemma_pow2_pos(k);
    lemma_pow2_pos(k + 52);
    bits_bound(whole);
    let b = bits(whole);
    if b < k + 53 {
        if b < k + 52 {
            lemma_pow2_strictly_increases(b, k + 52);
        }
    }
    if b > k + 53 {
        if b - 1 > k + 53 {
            lemma_pow2_strictly_increases(k + 53, (b - 1) as nat);
        }
    }
    assert(b == k + 53);
    let den = unit * qi;
    let num = (whole * q + f) as int;
    assert(den > 0) by (nonlinear_arith)
        requires
            unit >= 1,
            qi >= 1,
            den == unit * qi,
    ;
    assert(num >= 0) by (nonlinear_arith)
        requires
            num == whole * q + f,
    ;
    nearest_even_is_nearest(num, den, 0);
    let best = nearest_even(num, den);
    assert((best * unit) * qi == best * den) by (nonlinear_arith)
        requires
            den == unit * qi,
    ;
    assert((best * unit) % unit == 0) by (nonlinear_arith)
        requires
            unit >= 1,
    ;
}

} // verus!
