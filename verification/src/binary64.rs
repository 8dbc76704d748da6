//! IEEE 754 binary64 (`f64`) rounding, computed exactly on integers: the
//! double nearest to an integer, the correctly rounded quotient of two
//! doubles, and that quotient printed with two decimals. Every rounding is
//! to nearest, ties to even, as `as f64`, `/` and `{:.2}` round.

use vstd::prelude::*;
use vstd::arithmetic::div_mod::{lemma_div_basics_5, lemma_fundamental_div_mod};
use vstd::arithmetic::power2::{
    lemma2_to64, lemma2_to64_rest, lemma_pow2_adds, lemma_pow2_pos, lemma_pow2_strictly_increases, lemma_pow2_unfold,
    pow2,
};
use crate::fetch::{round_half_even, rounded};

verus! {

/// The number of binary digits of `n` (0 for 0).
pub open spec fn bit_len(n: nat) -> nat
    decreases n,
{
    if n == 0 {
        0
    } else {
        1 + bit_len(n / 2)
    }
}

/// The value of the binary64 number nearest to the integer `n`: `n` itself
/// when it has at most 53 binary digits, else `n` rounded half to even to a
/// multiple of `2^(digits - 53)`.
pub open spec fn nearest_double(n: nat) -> nat {
    if bit_len(n) <= 53 {
        n
    } else {
        let k = (bit_len(n) - 53) as nat;
        round_half_even(n, pow2(k)) * pow2(k)
    }
}

/// Whether `x / y >= 2^d`.
pub open spec fn ratio_at_least(x: nat, y: nat, d: int) -> bool {
    if d >= 0 {
        x >= y * pow2(d as nat)
    } else {
        x * pow2((-d) as nat) >= y
    }
}

/// `floor(log2(x / y))` for positive `x` and `y`: with `d` the difference
/// of their numbers of digits, `x / y` lies strictly between `2^(d - 1)` and
/// `2^(d + 1)`.
pub open spec fn log2_floor(x: nat, y: nat) -> int {
    let d = bit_len(x) - bit_len(y);
    if ratio_at_least(x, y, d) {
        d
    } else {
        d - 1
    }
}

/// The exponent of the last significant bit of the binary64 quotient
/// `x / y`: 52 places below its leading bit.
pub open spec fn quotient_exp(x: nat, y: nat) -> int {
    log2_floor(x, y) - 52
}

/// The significand `m` of the binary64 quotient `x / y`, rounded half to
/// even, so that the quotient is `m * 2^quotient_exp(x, y)` (`m` is `2^53`
/// where the rounding carries into the next power of two).
pub open spec fn quotient_mant(x: nat, y: nat) -> nat {
    let e = quotient_exp(x, y);
    if e <= 0 {
        round_half_even(x * pow2((-e) as nat), y)
    } else {
        round_half_even(x, y * pow2(e as nat))
    }
}

/// `100 * m * 2^e` rounded half to even: the digits that `{:.2}` prints for
/// the double `m * 2^e`, without the decimal point.
pub open spec fn hundredths(m: nat, e: int) -> nat {
    if e >= 0 {
        100 * m * pow2(e as nat)
    } else {
        round_half_even(100 * m, pow2((-e) as nat))
    }
}

proof fn lemma_pow2_values()
    ensures
        pow2(0) == 1,
        pow2(1) == 2,
        pow2(52) == 0x10_0000_0000_0000,
        pow2(53) == 0x20_0000_0000_0000,
        pow2(64) == 0x1_0000_0000_0000_0000,
        pow2(127) == 0x8000_0000_0000_0000_0000_0000_0000_0000,
{
    lemma2_to64();
    lemma2_to64_rest();
    lemma_pow2_adds(63, 64);
    lemma_pow2_adds(52, 1);
    lemma_pow2_adds(26, 26);
    lemma_pow2_adds(26, 27);
}

proof fn lemma_pow2_le(a: nat, b: nat)
    requires
        a <= b,
    ensures
        pow2(a) <= pow2(b),
{
    if a < b {
        lemma_pow2_strictly_increases(a, b);
    }
}

/// `x < 2^a` gives `x * 2^b < 2^(a + b)`.
proof fn lemma_mul_pow2_lt(x: nat, a: nat, b: nat)
    requires
        x < pow2(a),
    ensures
        x * pow2(b) < pow2(a + b),
{
    lemma_pow2_pos(b);
    lemma_pow2_adds(a, b);
    let pa = pow2(a);
    let pb = pow2(b);
    assert(x * pb < pa * pb) by (nonlinear_arith)
        requires
            x < pa,
            pb > 0,
    ;
}

/// `x >= 2^a` gives `x * 2^b >= 2^(a + b)`.
proof fn lemma_mul_pow2_ge(x: nat, a: nat, b: nat)
    requires
        x >= pow2(a),
    ensures
        x * pow2(b) >= pow2(a + b),
{
    lemma_pow2_pos(b);
    lemma_pow2_adds(a, b);
    let pa = pow2(a);
    let pb = pow2(b);
    assert(x * pb >= pa * pb) by (nonlinear_arith)
        requires
            x >= pa,
            pb > 0,
    ;
}

/// A positive `n` has `bit_len(n)` digits: `2^(bit_len - 1) <= n < 2^bit_len`.
proof fn lemma_bit_len(n: nat)
    ensures
        n == 0 ==> bit_len(n) == 0,
        n >= 1 ==> bit_len(n) >= 1 && pow2((bit_len(n) - 1) as nat) <= n && n < pow2(bit_len(n)),
    decreases n,
{
    lemma_pow2_values();
    if n == 1 {
        assert(bit_len(0) == 0);
        assert(bit_len(1) == 1 + bit_len(0));
    } else if n >= 2 {
        let h = n / 2;
        let b = bit_len(h);
        lemma_bit_len(h);
        assert(b >= 1);
        lemma_pow2_unfold(b);
        lemma_pow2_unfold(b + 1);
        assert(bit_len(n) == b + 1);
        assert(pow2((b - 1) as nat) <= h < pow2(b));
        assert(2 * h <= n <= 2 * h + 1);
        assert(pow2(b) <= n);
        assert(n < pow2(b + 1));
    }
}

/// A number below `2^k` has at most `k` digits.
proof fn lemma_bit_len_le(n: nat, k: nat)
    requires
        n < pow2(k),
    ensures
        bit_len(n) <= k,
{
    lemma_bit_len(n);
    if n >= 1 && bit_len(n) > k {
        lemma_pow2_le(k, (bit_len(n) - 1) as nat);
    }
}

/// Bounds on `n / d` carry over to its rounding.
proof fn lemma_rounding_bounds(n: nat, d: nat, lo: nat, hi: nat)
    requires
        d > 0,
        lo * d <= n,
        n < hi * d,
    ensures
        n / d < hi,
        lo <= round_half_even(n, d) <= hi,
{
    lemma_fundamental_div_mod(n as int, d as int);
    let q = n / d;
    let r = n % d;
    assert(q < hi) by (nonlinear_arith)
        requires
            n == d * q + r,
            r >= 0,
            n < hi * d,
            d > 0,
    ;
    assert(q >= lo) by (nonlinear_arith)
        requires
            n == d * q + r,
            r < d,
            lo * d <= n,
            d > 0,
    ;
}

/// `2^k`.
pub fn pow2_u128(k: u32) -> (p: u128)
    requires
        k < 128,
    ensures
        p == pow2(k as nat),
{
    proof {
        lemma_pow2_values();
    }
    let mut p: u128 = 1;
    let mut i: u32 = 0;
    while i < k
        invariant
            i <= k,
            k < 128,
            p == pow2(i as nat),
            pow2(127) == 0x8000_0000_0000_0000_0000_0000_0000_0000,
        decreases k - i,
    {
        proof {
            lemma_pow2_unfold((i + 1) as nat);
            lemma_pow2_le(i as nat, 126);
            lemma_pow2_unfold(127);
        }
        p = p * 2;
        i = i + 1;
    }
    p
}

/// The number of binary digits of `n`.
pub fn bit_length(n: u128) -> (b: u32)
    ensures
        b == bit_len(n as nat),
        b <= 128,
{
    proof {
        lemma_pow2_values();
        lemma_pow2_unfold(128);
        lemma_bit_len_le(n as nat, 128);
    }
    let mut v = n;
    let mut b: u32 = 0;
    while v > 0
        invariant
            b + bit_len(v as nat) == bit_len(n as nat),
            bit_len(n as nat) <= 128,
        decreases v,
    {
        v = v / 2;
        b = b + 1;
    }
    b
}

/// `n as f64`, exactly: the binary64 number nearest to `n`.
pub fn to_double(n: u128) -> (x: u128)
    requires
        n < pow2(64),
    ensures
        x == nearest_double(n as nat),
        x <= pow2(64),
        n >= 1 ==> x >= 1,
{
    let b = bit_length(n);
    proof {
        lemma_pow2_values();
        lemma_bit_len(n as nat);
        lemma_bit_len_le(n as nat, 64);
    }
    if b <= 53 {
        return n;
    }
    let k = b - 53;
    let p = pow2_u128(k);
    proof {
        lemma_pow2_adds(53, k as nat);
        lemma_pow2_adds(52, k as nat);
        lemma_pow2_le(b as nat, 64);
        assert(pow2(52) * p <= n);
        assert(n < pow2(53) * p);
        lemma_rounding_bounds(n as nat, p as nat, pow2(52), pow2(53));
    }
    let m = rounded(n, p);
    proof {
        let pm = pow2(53);
        assert(m * p <= pm * p) by (nonlinear_arith)
            requires
                m <= pm,
        ;
        assert(m * p >= 1) by (nonlinear_arith)
            requires
                m >= 1,
                p >= 1,
        ;
    }
    m * p
}

/// The binary64 quotient `x / y` of two doubles `x` and `y`, as `(m, e)`
/// with value `m * 2^e`.
pub fn quotient(x: u128, y: u128) -> (r: (u128, i32))
    requires
        1 <= x <= pow2(64),
        1 <= y <= pow2(64),
    ensures
        r.0 == quotient_mant(x as nat, y as nat),
        r.1 == quotient_exp(x as nat, y as nat),
        r.0 <= pow2(53),
        -117 <= r.1 <= 12,
{
    let bx = bit_length(x);
    let by = bit_length(y);
    proof {
        lemma_pow2_values();
        lemma_pow2_unfold(65);
        lemma_bit_len(x as nat);
        lemma_bit_len(y as nat);
        lemma_bit_len_le(x as nat, 65);
        lemma_bit_len_le(y as nat, 65);
    }
    let ge = if bx >= by {
        let p = pow2_u128(bx - by);
        proof {
            lemma_mul_pow2_lt(y as nat, by as nat, (bx - by) as nat);
            lemma_pow2_le(bx as nat, 127);
        }
        x >= y * p
    } else {
        let p = pow2_u128(by - bx);
        proof {
            lemma_mul_pow2_lt(x as nat, bx as nat, (by - bx) as nat);
            lemma_pow2_le(by as nat, 127);
        }
        x * p >= y
    };
    let d: i32 = bx as i32 - by as i32;
    assert(ge == ratio_at_least(x as nat, y as nat, d as int));
    let l: i32 = if ge {
        d
    } else {
        d - 1
    };
    let e: i32 = l - 52;
    let m = if e <= 0 {
        let k: u32 = (-e) as u32;
        let p = pow2_u128(k);
        proof {
            lemma_mul_pow2_lt(x as nat, bx as nat, k as nat);
            lemma_pow2_le((bx + k) as nat, 127);
            lemma_quotient_low(x as nat, y as nat, bx as nat, by as nat, d as int, ge, k as nat);
            lemma_rounding_bounds((x * p) as nat, y as nat, 0, pow2(53));
        }
        rounded(x * p, y)
    } else {
        let k: u32 = e as u32;
        let p = pow2_u128(k);
        proof {
            lemma_mul_pow2_lt(y as nat, by as nat, k as nat);
            lemma_pow2_le((by + k) as nat, 127);
            lemma_quotient_high(x as nat, y as nat, bx as nat, by as nat, d as int, ge, k as nat);
            lemma_rounding_bounds(x as nat, (y * p) as nat, 0, pow2(53));
        }
        rounded(x, y * p)
    };
    (m, e)
}

/// Where the quotient's last bit lies at or below the units place, the
/// dividend scaled by `2^k` lies between `2^52` and `2^53` times the divisor.
proof fn lemma_quotient_low(x: nat, y: nat, bx: nat, by: nat, d: int, ge: bool, k: nat)
    requires
        1 <= bx,
        1 <= by,
        pow2((bx - 1) as nat) <= x < pow2(bx),
        pow2((by - 1) as nat) <= y < pow2(by),
        d == bx - by,
        ge == ratio_at_least(x, y, d),
        k == 52 - (if ge { d } else { d - 1 }),
    ensures
        pow2(52) * y <= x * pow2(k) < pow2(53) * y,
{
    let pk = pow2(k);
    let p52 = pow2(52);
    let p53 = pow2(53);
    lemma_pow2_pos(k);
    lemma_pow2_pos(52);
    lemma_pow2_pos(53);
    assert(p53 * y == y * p53) by (nonlinear_arith);
    assert(p52 * y == y * p52) by (nonlinear_arith);
    if ge {
        lemma_mul_pow2_lt(x, bx, k);
        lemma_mul_pow2_ge(y, (by - 1) as nat, 53);
        let c = bx + k;
        assert(c == ((by - 1) as nat) + 53);
        assert(x * pk < pow2(c));
        assert(y * p53 >= pow2(c));
        if d >= 0 {
            let pd = pow2(d as nat);
            lemma_pow2_adds(d as nat, k);
            assert((d as nat) + k == 52);
            assert(x >= y * pd);
            assert(x * pk >= y * pd * pk) by (nonlinear_arith)
                requires
                    x >= y * pd,
                    pk > 0,
            ;
            assert(y * pd * pk == y * (pd * pk)) by (nonlinear_arith);
        } else {
            let pd = pow2((-d) as nat);
            lemma_pow2_adds((-d) as nat, 52);
            assert(((-d) as nat) + 52 == k);
            assert(x * pd >= y);
            assert(x * pd * p52 >= y * p52) by (nonlinear_arith)
                requires
                    x * pd >= y,
                    p52 > 0,
            ;
            assert(x * pd * p52 == x * (pd * p52)) by (nonlinear_arith);
        }
    } else {
        lemma_mul_pow2_ge(x, (bx - 1) as nat, k);
        lemma_mul_pow2_lt(y, by, 52);
        assert(((bx - 1) as nat) + k == by + 52);
        if d >= 0 {
            let pd = pow2(d as nat);
            lemma_pow2_adds(d as nat, k);
            assert((d as nat) + k == 53);
            assert(pd * pk == p53);
            assert(x < y * pd);
            assert(x * pk < y * pd * pk) by (nonlinear_arith)
                requires
                    x < y * pd,
                    pk > 0,
            ;
            assert(y * pd * pk == y * (pd * pk)) by (nonlinear_arith);
        } else {
            let pd = pow2((-d) as nat);
            lemma_pow2_adds((-d) as nat, 53);
            assert(((-d) as nat) + 53 == k);
            assert(pk == pd * p53);
            assert(x * pd < y);
            assert(x * pd * p53 < y * p53) by (nonlinear_arith)
                requires
                    x * pd < y,
                    p53 > 0,
            ;
            assert(x * pd * p53 == x * (pd * p53)) by (nonlinear_arith);
        }
    }
}

/// Where the quotient's last bit lies above the units place, the dividend
/// lies between `2^52` and `2^53` times the divisor scaled by `2^k`.
proof fn lemma_quotient_high(x: nat, y: nat, bx: nat, by: nat, d: int, ge: bool, k: nat)
    requires
        1 <= bx,
        1 <= by,
        pow2((bx - 1) as nat) <= x < pow2(bx),
        pow2((by - 1) as nat) <= y < pow2(by),
        d == bx - by,
        ge == ratio_at_least(x, y, d),
        k == (if ge { d } else { d - 1 }) - 52,
        k >= 1,
    ensures
        pow2(52) * (y * pow2(k)) <= x < pow2(53) * (y * pow2(k)),
{
    let pk = pow2(k);
    let p52 = pow2(52);
    let p53 = pow2(53);
    lemma_pow2_adds(k, 53);
    lemma_pow2_adds(k, 52);
    assert(p53 * (y * pk) == y * (pk * p53)) by (nonlinear_arith);
    assert(p52 * (y * pk) == y * (pk * p52)) by (nonlinear_arith);
    if ge {
        lemma_mul_pow2_ge(y, (by - 1) as nat, k + 53);
        assert((by - 1) + k + 53 == bx);
        assert(k + 52 == d);
    } else {
        assert(k + 53 == d);
        lemma_mul_pow2_lt(y, by, k + 52);
        assert(by + k + 52 == bx - 1);
    }
}

/// Scaled by `2^-quotient_exp(x, y)`, the quotient `x / y` lies in
/// `[2^52, 2^53)`: [`quotient_mant`] rounds it to 53 significant bits, the
/// precision of a binary64 number, so `quotient_mant(x, y) *
/// 2^quotient_exp(x, y)` is the binary64 number nearest to `x / y`.
pub proof fn lemma_quotient_precision(x: nat, y: nat)
    requires
        x >= 1,
        y >= 1,
    ensures
        ({
            let e = quotient_exp(x, y);
            if e <= 0 {
                pow2(52) * y <= x * pow2((-e) as nat) < pow2(53) * y
            } else {
                pow2(52) * (y * pow2(e as nat)) <= x < pow2(53) * (y * pow2(e as nat))
            }
        }),
{
    lemma_bit_len(x);
    lemma_bit_len(y);
    let bx = bit_len(x);
    let by = bit_len(y);
    let d = bx - by;
    let ge = ratio_at_least(x, y, d);
    let e = quotient_exp(x, y);
    if e <= 0 {
        lemma_quotient_low(x, y, bx, by, d, ge, (-e) as nat);
    } else {
        lemma_quotient_high(x, y, bx, by, d, ge, e as nat);
    }
}

/// A number of more than 53 binary digits, divided by `2^(digits - 53)`,
/// lies in `[2^52, 2^53)`: [`nearest_double`] rounds it to 53 significant
/// bits.
pub proof fn lemma_nearest_double_precision(n: nat)
    requires
        bit_len(n) > 53,
    ensures
        ({
            let k = (bit_len(n) - 53) as nat;
            pow2(52) * pow2(k) <= n < pow2(53) * pow2(k)
        }),
{
    let k = (bit_len(n) - 53) as nat;
    lemma_bit_len(n);
    lemma_pow2_adds(52, k);
    lemma_pow2_adds(53, k);
}

/// [`hundredths`] of a quotient.
pub fn hundredths_of(m: u128, e: i32) -> (t: u128)
    requires
        m <= pow2(53),
        -117 <= e <= 12,
    ensures
        t == hundredths(m as nat, e as int),
{
    proof {
        lemma_pow2_values();
    }
    if e >= 0 {
        let p = pow2_u128(e as u32);
        proof {
            lemma_pow2_le(e as nat, 12);
            lemma2_to64();
            let pm = pow2(53);
            assert(100 * m * p <= 100 * pm * 0x1000) by (nonlinear_arith)
                requires
                    m <= pm,
                    p <= 0x1000,
            ;
        }
        100 * m * p
    } else {
        let p = pow2_u128((-e) as u32);
        proof {
            lemma_pow2_pos((-e) as nat);
            lemma_div_basics_5((100 * m) as int, p as int);
        }
        rounded(100 * m, p)
    }
}

} // verus!
