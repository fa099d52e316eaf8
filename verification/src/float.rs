//! IEEE 754 double-precision numbers held as their 64 bits.
//!
//! What can be said of a double with integers alone is computed here: order,
//! equality, negation and the conversions from and to integers. A number is
//! measured in units of the smallest positive double, `2^-1074`, which makes
//! every finite double an integer.

use vstd::arithmetic::power2::*;
use vstd::prelude::*;

verus! {

/// The bit pattern of positive infinity: the largest magnitude that is not a NaN.
pub const INFINITY_BITS: u64 = 0x7ff0_0000_0000_0000;

/// The sign bit.
pub const SIGN_BIT: u64 = 0x8000_0000_0000_0000;

/// The weight of the exponent field.
pub const EXPONENT_UNIT: u64 = 0x10_0000_0000_0000;

/// The bits without the sign.
pub open spec fn magnitude(bits: u64) -> int {
    bits as int % 0x8000_0000_0000_0000
}

pub open spec fn is_negative(bits: u64) -> bool {
    bits >= SIGN_BIT
}

pub open spec fn nan(bits: u64) -> bool {
    magnitude(bits) > INFINITY_BITS
}

/// The absolute value that a magnitude stands for, in units of `2^-1074`.
/// Infinity gets the value that the next larger exponent would have.
pub open spec fn scaled_magnitude(m: int) -> int {
    let e = m / 0x10_0000_0000_0000;
    let f = m % 0x10_0000_0000_0000;
    if e <= 0 {
        f
    } else {
        (0x10_0000_0000_0000 + f) * pow2((e - 1) as nat)
    }
}

/// The number that the bits stand for, in units of `2^-1074`.
pub open spec fn scaled(bits: u64) -> int {
    if is_negative(bits) {
        -scaled_magnitude(magnitude(bits))
    } else {
        scaled_magnitude(magnitude(bits))
    }
}

/// `==` on doubles: a NaN equals nothing, and both zeros are equal.
pub open spec fn float_eq(a: u64, b: u64) -> bool {
    !nan(a) && !nan(b) && scaled(a) == scaled(b)
}

pub open spec fn float_lt(a: u64, b: u64) -> bool {
    !nan(a) && !nan(b) && scaled(a) < scaled(b)
}

pub open spec fn float_le(a: u64, b: u64) -> bool {
    !nan(a) && !nan(b) && scaled(a) <= scaled(b)
}

/// The double with the opposite sign.
pub open spec fn float_neg(a: u64) -> u64 {
    if is_negative(a) {
        (a - SIGN_BIT) as u64
    } else {
        (a + SIGN_BIT) as u64
    }
}

/// The number of bits in the binary notation of `n`.
pub open spec fn bit_len(n: nat) -> nat
    decreases n,
{
    if n == 0 {
        0
    } else {
        1 + bit_len(n / 2)
    }
}

/// `n / 2^s` rounded to the nearest integer, a tie going to the even one.
pub open spec fn round_half_even(n: nat, s: nat) -> nat {
    let d = pow2(s);
    let q = n / d;
    let r = n % d;
    if 2 * r > d || (2 * r == d && q % 2 == 1) {
        q + 1
    } else {
        q
    }
}

/// The multiple of a power of two with at most 53 significant bits that is nearest to `n`.
pub open spec fn rounded(n: nat) -> nat {
    if bit_len(n) <= 53 {
        n
    } else {
        let s = (bit_len(n) - 53) as nat;
        round_half_even(n, s) * pow2(s)
    }
}

/// `bits` is the double nearest to the natural number `n`.
pub open spec fn is_from_nat(bits: u64, n: nat) -> bool {
    bits < INFINITY_BITS && scaled(bits) == rounded(n) * pow2(1074)
}

/// The double nearest to an unsigned integer.
pub open spec fn float_of_nat(n: nat) -> u64 {
    choose|bits: u64| is_from_nat(bits, n)
}

/// The double nearest to a signed integer.
pub open spec fn float_of_int(i: int) -> u64 {
    if i < 0 {
        float_neg(float_of_nat((-i) as nat))
    } else {
        float_of_nat(i as nat)
    }
}

/// The double truncated toward zero, and a NaN as zero.
pub open spec fn truncated(bits: u64) -> int {
    let t = scaled_magnitude(magnitude(bits)) / (pow2(1074) as int);
    if nan(bits) {
        0
    } else if is_negative(bits) {
        -t
    } else {
        t
    }
}

/// The double as an `i64`: truncated, and held inside the type's range.
pub open spec fn int_of_float(bits: u64) -> i64 {
    let t = truncated(bits);
    if t < i64::MIN {
        i64::MIN
    } else if t > i64::MAX {
        i64::MAX
    } else {
        t as i64
    }
}

/// The double as a `u64`: truncated, and held inside the type's range.
pub open spec fn uint_of_float(bits: u64) -> u64 {
    let t = truncated(bits);
    if t < 0 {
        0
    } else if t > u64::MAX {
        u64::MAX
    } else {
        t as u64
    }
}

proof fn lemma_scaled_step(m: int)
    requires
        m >= 0,
    ensures
        scaled_magnitude(m) < scaled_magnitude(m + 1),
        scaled_magnitude(m) >= 0,
{
    let u: int = 0x10_0000_0000_0000;
    let e = m / u;
    let f = m % u;
    if e > 0 {
        lemma_pow2_pos((e - 1) as nat);
        let p = pow2((e - 1) as nat) as int;
        assert((u + f) * p >= 0) by (nonlinear_arith)
            requires
                u == 0x10_0000_0000_0000int,
                f >= 0,
                p > 0,
        ;
        if f + 1 < u {
            assert((m + 1) / u == e && (m + 1) % u == f + 1);
            assert((u + f + 1) * p == (u + f) * p + p) by (nonlinear_arith);
        } else {
            assert((m + 1) / u == e + 1 && (m + 1) % u == 0);
            lemma_pow2_unfold(e as nat);
            assert(u * (2 * p) == (u + f) * p + p) by (nonlinear_arith)
                requires
                    f == u - 1,
            ;
        }
    } else {
        assert(e == 0 && f == m);
        lemma2_to64();
        if f + 1 == u {
            assert((m + 1) / u == 1 && (m + 1) % u == 0);
        }
    }
}

/// A larger magnitude stands for a larger number.
pub proof fn lemma_scaled_monotone(a: int, b: int)
    requires
        0 <= a < b,
    ensures
        0 <= scaled_magnitude(a) < scaled_magnitude(b),
    decreases b - a,
{
    lemma_scaled_step(a);
    if a + 1 < b {
        lemma_scaled_monotone(a + 1, b);
    }
}

/// The order key: the magnitude with the sign.
spec fn key(bits: u64) -> int {
    if is_negative(bits) {
        -magnitude(bits)
    } else {
        magnitude(bits)
    }
}

proof fn lemma_key_order(a: u64, b: u64)
    ensures
        scaled(a) < scaled(b) <==> key(a) < key(b),
        scaled(a) == scaled(b) <==> key(a) == key(b),
{
    let x = magnitude(a);
    let y = magnitude(b);
    if x < y {
        lemma_scaled_monotone(x, y);
    }
    if y < x {
        lemma_scaled_monotone(y, x);
    }
    if x > 0 {
        lemma_scaled_monotone(0, x);
    }
    if y > 0 {
        lemma_scaled_monotone(0, y);
    }
}

fn float_magnitude(bits: u64) -> (m: u64)
    ensures
        m == magnitude(bits),
        m < SIGN_BIT,
{
    if bits >= SIGN_BIT {
        bits - SIGN_BIT
    } else {
        bits
    }
}

pub fn float_is_nan(bits: u64) -> (r: bool)
    ensures
        r == nan(bits),
{
    float_magnitude(bits) > INFINITY_BITS
}

fn signed_key(bits: u64) -> (k: i64)
    ensures
        k == key(bits),
{
    let m = float_magnitude(bits);
    if bits >= SIGN_BIT {
        -(m as i64)
    } else {
        m as i64
    }
}

pub fn float_equal(a: u64, b: u64) -> (r: bool)
    ensures
        r == float_eq(a, b),
{
    proof {
        lemma_key_order(a, b);
    }
    !float_is_nan(a) && !float_is_nan(b) && signed_key(a) == signed_key(b)
}

pub fn float_less(a: u64, b: u64) -> (r: bool)
    ensures
        r == float_lt(a, b),
{
    proof {
        lemma_key_order(a, b);
    }
    !float_is_nan(a) && !float_is_nan(b) && signed_key(a) < signed_key(b)
}

pub fn float_less_equal(a: u64, b: u64) -> (r: bool)
    ensures
        r == float_le(a, b),
{
    proof {
        lemma_key_order(a, b);
    }
    !float_is_nan(a) && !float_is_nan(b) && signed_key(a) <= signed_key(b)
}

pub fn float_negate(a: u64) -> (r: u64)
    ensures
        r == float_neg(a),
{
    if a >= SIGN_BIT {
        a - SIGN_BIT
    } else {
        a + SIGN_BIT
    }
}

/// Negating twice gives the number back.
pub proof fn law_negate_involution(a: u64)
    ensures
        float_neg(float_neg(a)) == a,
        scaled(float_neg(a)) == -scaled(a),
        nan(float_neg(a)) == nan(a),
{
}

/// Of two doubles that are not NaN exactly one of less, equal and greater holds.
pub proof fn law_float_trichotomy(a: u64, b: u64)
    requires
        !nan(a),
        !nan(b),
    ensures
        float_lt(a, b) || float_eq(a, b) || float_lt(b, a),
        !(float_lt(a, b) && float_lt(b, a)),
        float_le(a, b) == (float_lt(a, b) || float_eq(a, b)),
{
}

proof fn lemma_bit_len(n: nat)
    requires
        n > 0,
    ensures
        bit_len(n) >= 1,
        pow2((bit_len(n) - 1) as nat) <= n < pow2(bit_len(n)),
    decreases n,
{
    lemma2_to64();
    if n == 1 {
        assert(bit_len(0) == 0);
        assert(bit_len(1) == 1 + bit_len(0));
    } else {
        lemma_bit_len(n / 2);
        lemma_pow2_unfold(bit_len(n));
        lemma_pow2_unfold((bit_len(n) - 1) as nat);
    }
}

fn bit_length(n: u64) -> (l: u64)
    ensures
        l == bit_len(n as nat),
        l <= 64,
{
    let mut m = n;
    let mut l: u64 = 0;
    proof {
        if n > 0 {
            lemma_bit_len(n as nat);
            lemma2_to64();
            lemma2_to64_rest();
            if bit_len(n as nat) > 64 {
                lemma_pow2_strictly_increases(63, (bit_len(n as nat) - 1) as nat);
                if bit_len(n as nat) > 65 {
                    lemma_pow2_strictly_increases(64, (bit_len(n as nat) - 1) as nat);
                }
            }
        }
    }
    while m > 0
        invariant
            l + bit_len(m as nat) == bit_len(n as nat),
            bit_len(n as nat) <= 64,
        decreases m,
    {
        m = m / 2;
        l = l + 1;
    }
    l
}

proof fn lemma_assemble(q: int, l: nat, bits: u64)
    requires
        1 <= l <= 64,
        0x10_0000_0000_0000 <= q <= 0x20_0000_0000_0000,
        bits as int == (1022 + l) * 0x10_0000_0000_0000 + (q - 0x10_0000_0000_0000),
    ensures
        bits < INFINITY_BITS,
        scaled(bits) == q * pow2((1021 + l) as nat),
{
    let u: int = 0x10_0000_0000_0000;
    let e = 1022 + l;
    if q == 2 * u {
        assert(bits as int == (e + 1) * u);
        assert(bits as int / u == e + 1 && bits as int % u == 0);
        lemma_pow2_unfold(e as nat);
        let p = pow2((e - 1) as nat) as int;
        assert(u * (2 * p) == (2 * u) * p) by (nonlinear_arith);
    } else {
        assert(bits as int / u == e && bits as int % u == q - u);
    }
}

/// The double nearest to an unsigned integer, ties to even.
pub fn float_from_u64(n: u64) -> (bits: u64)
    ensures
        is_from_nat(bits, n as nat),
        bits == float_of_nat(n as nat),
{
    if n == 0 {
        assert(scaled(0) == 0);
        assert(rounded(0) * pow2(1074) == 0) by {
            assert(rounded(0) == 0);
        }
        proof {
            lemma_from_nat_unique(0, 0);
        }
        return 0;
    }
    let l = bit_length(n);
    proof {
        lemma_bit_len(n as nat);
        lemma2_to64();
        lemma2_to64_rest();
    }
    if l <= 53 {
        let s: u64 = 53 - l;
        proof {
            lemma_pow2_adds(l as nat, s as nat);
            lemma_pow2_adds((l - 1) as nat, s as nat);
            let p = pow2(s as nat) as int;
            lemma_pow2_pos(s as nat);
            assert(n * p < pow2(l as nat) * p) by (nonlinear_arith)
                requires
                    n < pow2(l as nat),
                    p > 0,
            ;
            assert(pow2((l - 1) as nat) * p <= n * p) by (nonlinear_arith)
                requires
                    pow2((l - 1) as nat) <= n,
                    p > 0,
            ;
            vstd::bits::lemma_u64_shl_is_mul(n, s);
        }
        let q: u64 = n << s;
        let bits = (1022 + l) * EXPONENT_UNIT + (q - EXPONENT_UNIT);
        proof {
            lemma_assemble(q as int, l as nat, bits);
            lemma_pow2_adds(s as nat, (1021 + l) as nat);
            lemma_mul_assoc(n as int, pow2(s as nat) as int, pow2((1021 + l) as nat) as int);
            lemma_from_nat_unique(bits, n as nat);
        }
        bits
    } else {
        let s: u64 = l - 53;
        proof {
            lemma_pow2_pos(s as nat);
            lemma_pow2_strictly_increases(s as nat, 63);
            vstd::bits::lemma_u64_shl_is_mul(1, s);
            lemma_pow2_adds(53, s as nat);
            lemma_pow2_adds(52, s as nat);
        }
        let d: u64 = 1u64 << s;
        assert(d == pow2(s as nat));
        let q0: u64 = n / d;
        let r: u64 = n % d;
        proof {
            let di = d as int;
            let ni = n as int;
            assert(0x10_0000_0000_0000 <= ni / di < 0x20_0000_0000_0000) by (nonlinear_arith)
                requires
                    di > 0,
                    0x10_0000_0000_0000 * di <= ni < 0x20_0000_0000_0000 * di,
            ;
        }
        let q: u64 = if r > d - r || (r == d - r && q0 % 2 == 1) {
            q0 + 1
        } else {
            q0
        };
        assert(q == round_half_even(n as nat, s as nat));
        let bits = (1022 + l) * EXPONENT_UNIT + (q - EXPONENT_UNIT);
        proof {
            lemma_assemble(q as int, l as nat, bits);
            lemma_pow2_adds(s as nat, 1074);
            lemma_mul_assoc(q as int, pow2(s as nat) as int, pow2(1074) as int);
            lemma_from_nat_unique(bits, n as nat);
        }
        bits
    }
}

proof fn lemma_mul_assoc(a: int, b: int, c: int)
    ensures
        (a * b) * c == a * (b * c),
{
    vstd::arithmetic::mul::lemma_mul_is_associative(a, b, c);
}

/// At most one double is the nearest to `n`.
proof fn lemma_from_nat_unique(bits: u64, n: nat)
    requires
        is_from_nat(bits, n),
    ensures
        bits == float_of_nat(n),
{
    lemma_key_order(bits, float_of_nat(n));
}

/// The double nearest to a signed integer, ties to even.
pub fn float_from_i64(i: i64) -> (bits: u64)
    ensures
        bits == float_of_int(i as int),
{
    if i < 0 {
        let m: u64 = if i == i64::MIN {
            SIGN_BIT
        } else {
            (-i) as u64
        };
        let b = float_from_u64(m);
        float_negate(b)
    } else {
        float_from_u64(i as u64)
    }
}

/// The magnitude truncated to an integer, where that is less than `2^64`.
fn truncated_magnitude(m: u64) -> (r: Option<u64>)
    requires
        m < SIGN_BIT,
    ensures
        match r {
            Some(t) => t == scaled_magnitude(m as int) / (pow2(1074) as int),
            None => scaled_magnitude(m as int) / (pow2(1074) as int) > u64::MAX,
        },
{
    let e: u64 = m / EXPONENT_UNIT;
    let f: u64 = m % EXPONENT_UNIT;
    let ghost p = pow2(1074) as int;
    let ghost sm = scaled_magnitude(m as int);
    let ghost sig = 0x10_0000_0000_0000 + f;
    proof {
        lemma_pow2_pos(1074);
        lemma2_to64();
        lemma2_to64_rest();
    }
    if e < 1023 {
        proof {
            // Below one: the significand is under 2^53 and the power at most 2^1021.
            lemma_pow2_adds(53, 1021);
            if e > 0 {
                let pe = pow2((e - 1) as nat) as int;
                if e - 1 < 1021 {
                    lemma_pow2_strictly_increases((e - 1) as nat, 1021);
                }
                lemma_pow2_pos((e - 1) as nat);
                assert(0 <= sig * pe < 0x20_0000_0000_0000 * pow2(1021)) by (nonlinear_arith)
                    requires
                        0 <= sig < 0x20_0000_0000_0000,
                        0 < pe <= pow2(1021),
                ;
            } else {
                lemma_pow2_pos(1021);
                assert(f < 0x20_0000_0000_0000 * pow2(1021)) by (nonlinear_arith)
                    requires
                        0 <= f < 0x10_0000_0000_0000,
                        pow2(1021) >= 1,
                ;
            }
            assert(0 <= sm < p);
            assert(sm / p == 0) by (nonlinear_arith)
                requires
                    0 <= sm < p,
            ;
        }
        return Some(0);
    }
    let g: u64 = EXPONENT_UNIT + f;
    if e <= 1075 {
        let s: u64 = 1075 - e;
        let t: u64 = g >> s;
        proof {
            vstd::bits::lemma_u64_shr_is_div(g, s);
            let pe = pow2((e - 1) as nat) as int;
            let ps = pow2(s as nat) as int;
            lemma_pow2_adds(s as nat, (e - 1) as nat);
            lemma_pow2_pos((e - 1) as nat);
            lemma_pow2_pos(s as nat);
            assert(p == ps * pe);
            vstd::arithmetic::div_mod::lemma_div_denominator(sm, pe, ps);
            vstd::arithmetic::div_mod::lemma_div_multiples_vanish(sig, pe);
            assert(sm == sig * pe);
            assert(pe * sig == sig * pe) by (nonlinear_arith);
            assert(pe * ps == ps * pe) by (nonlinear_arith);
            assert(sm / pe == sig);
            assert(sm / p == sig / ps);
        }
        return Some(t);
    }
    let s: u64 = e - 1075;
    proof {
        let ps = pow2(s as nat) as int;
        lemma_pow2_adds(s as nat, 1074);
        lemma_mul_assoc(sig as int, ps, p);
        assert(sm == (sig * ps) * p);
        assert(p * (sig * ps) == (sig * ps) * p) by (nonlinear_arith);
        vstd::arithmetic::div_mod::lemma_div_multiples_vanish(sig * ps, p);
        assert(sm / p == sig * ps);
    }
    if s <= 11 {
        proof {
            let ps = pow2(s as nat) as int;
            if s < 11 {
                lemma_pow2_strictly_increases(s as nat, 11);
            }
            lemma_pow2_adds(53, 11);
            lemma_pow2_pos(s as nat);
            assert(sig * ps <= 0x1f_ffff_ffff_ffff * 2048) by (nonlinear_arith)
                requires
                    0 <= sig <= 0x1f_ffff_ffff_ffff,
                    0 < ps <= 2048,
            ;
            vstd::bits::lemma_u64_shl_is_mul(g, s);
        }
        Some(g << s)
    } else {
        proof {
            let ps = pow2(s as nat) as int;
            if s > 12 {
                lemma_pow2_strictly_increases(12, s as nat);
            }
            lemma_pow2_adds(52, 12);
            assert(sig * ps >= 0x10_0000_0000_0000 * 4096) by (nonlinear_arith)
                requires
                    sig >= 0x10_0000_0000_0000,
                    ps >= 4096,
            ;
        }
        None
    }
}

/// The double as an `i64`, as an `as` cast gives it: truncated and saturating.
pub fn float_to_i64(bits: u64) -> (r: i64)
    ensures
        r == int_of_float(bits),
{
    if float_is_nan(bits) {
        return 0;
    }
    let t = truncated_magnitude(float_magnitude(bits));
    if bits >= SIGN_BIT {
        match t {
            Some(v) => if v >= SIGN_BIT {
                i64::MIN
            } else {
                -(v as i64)
            },
            None => i64::MIN,
        }
    } else {
        match t {
            Some(v) => if v >= SIGN_BIT {
                i64::MAX
            } else {
                v as i64
            },
            None => i64::MAX,
        }
    }
}

/// The double as a `u64`, as an `as` cast gives it: truncated and saturating.
pub fn float_to_u64(bits: u64) -> (r: u64)
    ensures
        r == uint_of_float(bits),
{
    if float_is_nan(bits) {
        return 0;
    }
    let t = truncated_magnitude(float_magnitude(bits));
    if bits >= SIGN_BIT {
        0
    } else {
        match t {
            Some(v) => v,
            None => u64::MAX,
        }
    }
}

/// No integer converts to a NaN.
pub proof fn lemma_float_of_int_not_nan(i: i64)
    ensures
        !nan(float_of_int(i as int)),
{
    lemma_nearest_exists(
        if i < 0 {
            -(i as int)
        } else {
            i as int
        } as nat,
    );
}

/// Every number that fits in 64 bits has a nearest double.
pub proof fn lemma_nearest_exists(n: nat)
    requires
        n <= u64::MAX,
    ensures
        is_from_nat(float_of_nat(n), n),
{
    let l = bit_len(n);
    if n == 0 {
        assert(scaled(0) == 0);
        assert(rounded(0) == 0);
        assert(is_from_nat(0, 0));
        return;
    }
    lemma_bit_len(n);
    lemma2_to64();
    lemma2_to64_rest();
    if l > 64 {
        if l > 65 {
            lemma_pow2_strictly_increases(64, (l - 1) as nat);
        }
    }
    if l <= 53 {
        let s = (53 - l) as nat;
        lemma_pow2_adds(l, s);
        lemma_pow2_adds((l - 1) as nat, s);
        lemma_pow2_pos(s);
        let q = n * pow2(s);
        assert(n * pow2(s) < pow2(l) * pow2(s)) by (nonlinear_arith)
            requires
                n < pow2(l),
                pow2(s) > 0,
        ;
        assert(pow2((l - 1) as nat) * pow2(s) <= n * pow2(s)) by (nonlinear_arith)
            requires
                pow2((l - 1) as nat) <= n,
                pow2(s) > 0,
        ;
        let bits = ((1022 + l) * 0x10_0000_0000_0000 + (q - 0x10_0000_0000_0000)) as u64;
        lemma_assemble(q as int, l, bits);
        lemma_pow2_adds(s, (1021 + l) as nat);
        lemma_mul_assoc(n as int, pow2(s) as int, pow2((1021 + l) as nat) as int);
        assert(is_from_nat(bits, n));
    } else {
        let s = (l - 53) as nat;
        lemma_pow2_pos(s);
        lemma_pow2_adds(53, s);
        lemma_pow2_adds(52, s);
        let d = pow2(s) as int;
        let ni = n as int;
        assert(0x10_0000_0000_0000 <= ni / d < 0x20_0000_0000_0000) by (nonlinear_arith)
            requires
                d > 0,
                0x10_0000_0000_0000 * d <= ni < 0x20_0000_0000_0000 * d,
        ;
        let q = round_half_even(n, s);
        let bits = ((1022 + l) * 0x10_0000_0000_0000 + (q - 0x10_0000_0000_0000)) as u64;
        lemma_assemble(q as int, l, bits);
        lemma_pow2_adds(s, 1074);
        lemma_mul_assoc(q as int, pow2(s) as int, pow2(1074) as int);
        assert(is_from_nat(bits, n));
    }
}

/// A double of an exponent and a fraction stands for the number that the format gives it: the
/// fraction behind a leading one, times a power of two; without the one where the exponent is
/// zero. The sign bit makes it negative.
pub proof fn law_number(e: int, f: int, bits: u64, opposite: u64)
    requires
        0 <= e < 0x7ff,
        0 <= f < 0x10_0000_0000_0000,
        bits == e * 0x10_0000_0000_0000 + f,
        opposite == bits + 0x8000_0000_0000_0000,
    ensures
        !nan(bits),
        !nan(opposite),
        e == 0 ==> scaled(bits) == f,
        e > 0 ==> scaled(bits) == (0x10_0000_0000_0000 + f) * pow2((e - 1) as nat),
        scaled(opposite) == -scaled(bits),
        float_neg(bits) == opposite,
{
    assert(bits as int / 0x10_0000_0000_0000 == e && bits as int % 0x10_0000_0000_0000 == f);
}

/// With the largest exponent a double is infinite where the fraction is zero, and else no
/// number at all.
pub proof fn law_not_a_number(f: int, bits: u64, opposite: u64)
    requires
        0 <= f < 0x10_0000_0000_0000,
        bits == 0x7ff0_0000_0000_0000 + f,
        opposite == bits + 0x8000_0000_0000_0000,
    ensures
        nan(bits) == (f != 0),
        nan(opposite) == (f != 0),
{
}

/// Doubles are ordered as their bits where both are positive, against their bits where both are
/// negative, and a negative one comes before a positive one; both zeros are equal. What is no
/// number is neither less than, nor equal to, nor greater than anything.
pub proof fn law_order_of_bits(a: u64, b: u64)
    ensures
        ({
            let sign = 0x8000_0000_0000_0000u64;
            let top = 0x7ff0_0000_0000_0000u64;
            let number = |x: u64| x <= top || sign <= x <= sign + top;
            let zero = |x: u64| x == 0 || x == sign;
            &&& !number(a) || !number(b) ==> !float_lt(a, b) && !float_eq(a, b) && !float_le(a, b)
            &&& a <= top && b <= top ==> (float_lt(a, b) <==> a < b) && (float_eq(a, b) <==> a
                == b)
            &&& sign <= a <= sign + top && sign <= b <= sign + top ==> (float_lt(a, b) <==> b < a)
                && (float_eq(a, b) <==> a == b)
            &&& sign <= a <= sign + top && b <= top ==> (float_lt(a, b) <==> !(zero(a) && zero(b)))
                && (float_eq(a, b) <==> zero(a) && zero(b)) && !float_lt(b, a)
            &&& number(a) && number(b) ==> (float_le(a, b) <==> float_lt(a, b) || float_eq(a, b))
        }),
{
    lemma_key_order(a, b);
    lemma_key_order(b, a);
}

/// A whole number of at most 53 bits is a double exactly; so whole numbers keep their order,
/// and come back when the double is cut off.
pub proof fn law_whole_numbers(i: int)
    requires
        -0x20_0000_0000_0000 < i < 0x20_0000_0000_0000,
    ensures
        !nan(float_of_int(i)),
        scaled(float_of_int(i)) == i * pow2(1074),
        int_of_float(float_of_int(i)) == i,
        i >= 0 ==> uint_of_float(float_of_int(i)) == i,
{
    let n = (if i < 0 {
        -i
    } else {
        i
    }) as nat;
    lemma_nearest_exists(n);
    lemma2_to64();
    lemma2_to64_rest();
    lemma_pow2_pos(1074);
    assert(bit_len(n) <= 53) by {
        if n > 0 {
            lemma_bit_len(n);
            if bit_len(n) > 53 {
                lemma_pow2_rises(53, (bit_len(n) - 1) as nat);
            }
        }
    }
    assert(rounded(n) == n);
    let bits = float_of_nat(n);
    assert(scaled(bits) == n * pow2(1074));
    assert(magnitude(bits) == bits);
    assert(scaled_magnitude(bits as int) == n * pow2(1074));
    let d = pow2(1074) as int;
    assert((n * d) / d == n) by (nonlinear_arith)
        requires
            d > 0,
    ;
    assert(-(n * d) == (-n) * d) by (nonlinear_arith);
    if i < 0 {
        law_negate_involution(bits);
        assert(magnitude(float_neg(bits)) == bits as int);
    }
}

proof fn lemma_pow2_rises(a: nat, b: nat)
    requires
        a <= b,
    ensures
        pow2(a) <= pow2(b),
{
    if a < b {
        vstd::arithmetic::power2::lemma_pow2_strictly_increases(a, b);
    }
}

/// A whole number of more bits is rounded to 53 of them: by no more than half of what the last
/// of them counts, and to an even one where it lies in the middle.
pub proof fn law_rounding(n: nat, s: nat)
    requires
        n <= u64::MAX,
        pow2(52 + s) <= n < pow2(53 + s),
    ensures
        ({
            let r = rounded(n) as int;
            let unit = pow2(s) as int;
            &&& scaled(float_of_nat(n)) == r * pow2(1074)
            &&& r % unit == 0
            &&& -unit <= 2 * (r - n) <= unit
            &&& 2 * (r - n) == unit || 2 * (n - r) == unit ==> (r / unit) % 2 == 0
        }),
{
    lemma_nearest_exists(n);
    lemma_pow2_pos(s);
    lemma_pow2_pos(52 + s);
    lemma_bit_len(n);
    let l = bit_len(n);
    if l < 53 + s {
        lemma_pow2_rises(l, 52 + s);
    }
    if l > 53 + s {
        lemma_pow2_rises(53 + s, (l - 1) as nat);
    }
    assert(l == 53 + s);
    let d = pow2(s) as int;
    if s == 0 {
        lemma2_to64();
        assert(rounded(n) == n);
    } else {
        let q = n as int / d;
        let m = n as int % d;
        let k = round_half_even(n, s) as int;
        assert(n == q * d + m && 0 <= m < d) by (nonlinear_arith)
            requires
                d > 0,
                q == n as int / d,
                m == n as int % d,
        ;
        assert(rounded(n) == k * d);
        assert((q + 1) * d == q * d + d) by (nonlinear_arith);
        assert((k * d) % d == 0 && (k * d) / d == k) by (nonlinear_arith)
            requires
                d > 0,
        ;
    }
}

/// A double cut off toward zero is the whole number next to it on the side of zero, held in
/// the range of the type; what is no number becomes zero.
pub proof fn law_cut_off(bits: u64)
    ensures
        ({
            let one = pow2(1074) as int;
            let i = int_of_float(bits);
            let u = uint_of_float(bits);
            let x = scaled(bits);
            &&& nan(bits) ==> i == 0 && u == 0
            &&& !nan(bits) && x >= 0 && i < 0x7fff_ffff_ffff_ffff ==> i * one <= x < (i + 1) * one
            &&& !nan(bits) && x <= 0 && i > -0x8000_0000_0000_0000 ==> (i - 1) * one < x <= i * one
            &&& !nan(bits) && i == 0x7fff_ffff_ffff_ffff ==> x >= i * one
            &&& !nan(bits) && i == -0x8000_0000_0000_0000 ==> x <= i * one
            &&& !nan(bits) && x >= 0 && u < 0xffff_ffff_ffff_ffff ==> u * one <= x < (u + 1) * one
            &&& !nan(bits) && u == 0xffff_ffff_ffff_ffff ==> x >= u * one
            &&& x <= 0 ==> u == 0
        }),
{
    lemma_pow2_pos(1074);
    let one = pow2(1074) as int;
    let m = scaled_magnitude(magnitude(bits));
    if magnitude(bits) > 0 {
        lemma_scaled_monotone(0, magnitude(bits));
    }
    assert(m >= 0);
    let t = m / one;
    assert(t >= 0 && t * one <= m < (t + 1) * one) by (nonlinear_arith)
        requires
            one > 0,
            m >= 0,
            t == m / one,
    ;
    let top = 0x7fff_ffff_ffff_ffffint;
    let all = 0xffff_ffff_ffff_ffffint;
    if t >= top {
        assert(t * one >= top * one) by (nonlinear_arith)
            requires
                t >= top,
                one > 0,
        ;
    }
    if t >= top + 1 {
        assert(t * one >= (top + 1) * one) by (nonlinear_arith)
            requires
                t >= top + 1,
                one > 0,
        ;
    }
    if t >= all {
        assert(t * one >= all * one) by (nonlinear_arith)
            requires
                t >= all,
                one > 0,
        ;
    }
    assert((-t) * one == -(t * one) && (-t - 1) * one == -((t + 1) * one)) by (nonlinear_arith);
    assert((-(top + 1)) * one == -((top + 1) * one)) by (nonlinear_arith);
    if m == 0 {
        assert(t == 0) by (nonlinear_arith)
            requires
                m == 0,
                one > 0,
                t == m / one,
        ;
    }
}

} // verus!
