//! Exact comparison of JSON numbers.  Integers and finite binary floating
//! point values are compared by their mathematical values, so adjacent large
//! integers stay distinct and `1` equals `1.0`.
use vstd::prelude::*;
use vstd::arithmetic::power2::*;
use vstd::arithmetic::mul::*;
use crate::json::{JsonFloat, JsonNumber};

verus! {

/// The outcome of comparing two numbers.
#[derive(Clone, Copy, Debug, PartialEq, Eq, Structural)]
pub enum NumOrder {
    Less,
    Equal,
    Greater,
}

pub open spec fn order_of(a: int, b: int) -> NumOrder {
    if a < b {
        NumOrder::Less
    } else if a == b {
        NumOrder::Equal
    } else {
        NumOrder::Greater
    }
}

/// Number of binary digits of `m`.
pub open spec fn bit_len(m: nat) -> nat
    decreases m,
{
    if m == 0 {
        0
    } else {
        1 + bit_len(m / 2)
    }
}

proof fn lemma_bit_len_bounds(m: nat)
    requires
        m > 0,
    ensures
        bit_len(m) >= 1,
        pow2((bit_len(m) - 1) as nat) <= m,
        m < pow2(bit_len(m)),
    decreases m,
{
    lemma2_to64();
    if m == 1 {
        assert(bit_len(0) == 0);
        assert(bit_len(1) == 1);
    } else {
        let h = m / 2;
        lemma_bit_len_bounds(h);
        let b = bit_len(h);
        assert(bit_len(m) == b + 1);
        lemma_pow2_unfold(b);
        lemma_pow2_unfold(b + 1);
        assert(((b + 1) - 1) as nat == b);
        assert(pow2(b) == 2 * pow2((b - 1) as nat));
        assert(pow2(b + 1) == 2 * pow2(b));
        assert(pow2(b) <= m);
        assert(m < pow2(b + 1));
    }
}

proof fn lemma_bit_len_le_64(m: nat)
    requires
        m < pow2(64),
    ensures
        bit_len(m) <= 64,
{
    if m > 0 {
        lemma_bit_len_bounds(m);
        if bit_len(m) > 64 {
            lemma_pow2_strictly_increases(64, (bit_len(m) - 1) as nat);
            if bit_len(m) - 1 == 64 {
            }
            assert(pow2(64) <= pow2((bit_len(m) - 1) as nat)) by {
                if (bit_len(m) - 1) as nat > 64 {
                    lemma_pow2_strictly_increases(64, (bit_len(m) - 1) as nat);
                }
            }
        }
    }
}

fn bits(m: u64) -> (r: u32)
    ensures
        r == bit_len(m as nat),
        r <= 64,
{
    let mut x = m;
    let mut n: u32 = 0;
    proof {
        lemma2_to64();
        lemma_bit_len_le_64(m as nat);
    }
    while x > 0
        invariant
            bit_len(m as nat) == n + bit_len(x as nat),
            bit_len(m as nat) <= 64,
        decreases x,
    {
        x = x / 2;
        n = n + 1;
    }
    n
}

/// Offset that makes every exponent held here non-negative.
pub open spec fn exponent_offset() -> int {
    32768
}

/// Magnitude of `m * 2^e`, scaled by `2^32768` so that it is an integer.
pub open spec fn scaled_magnitude(m: nat, e: int) -> nat {
    m * pow2((e + exponent_offset()) as nat)
}

/// The value of a number multiplied by `2^32768`: an integer for every number
/// held here, with the same order and equalities as the values themselves.
pub open spec fn num_scaled(n: JsonNumber) -> int {
    match n {
        JsonNumber::PosInt(v) => v * pow2(exponent_offset() as nat),
        JsonNumber::NegInt(v) => v * pow2(exponent_offset() as nat),
        JsonNumber::Float(f) => {
            if f.negative {
                -scaled_magnitude(f.mantissa as nat, f.exponent as int)
            } else {
                scaled_magnitude(f.mantissa as nat, f.exponent as int) as int
            }
        }
    }
}

/// Sign and magnitude of a number.
fn parts(n: &JsonNumber) -> (r: (bool, u64, i32))
    ensures
        -32768 <= r.2 <= 32767,
        num_scaled(*n) == if r.0 {
            -scaled_magnitude(r.1 as nat, r.2 as int)
        } else {
            scaled_magnitude(r.1 as nat, r.2 as int) as int
        },
{
    let ghost k = exponent_offset() as nat;
    assert((0 + exponent_offset()) as nat == k);
    match n {
        JsonNumber::PosInt(v) => {
            assert(scaled_magnitude(*v as nat, 0) == (*v as nat) * pow2(k));
            (false, *v, 0)
        }
        JsonNumber::NegInt(v) => {
            if *v < 0 {
                let m: u64 = if *v == i64::MIN { 9223372036854775808u64 } else { (-*v) as u64 };
                proof {
                    assert((m as int) == -(*v as int));
                    assert(scaled_magnitude(m as nat, 0) == (m as nat) * pow2(k));
                    assert((*v as int) * pow2(k) == -((m as int) * pow2(k))) by (nonlinear_arith)
                        requires (m as int) == -(*v as int);
                }
                (true, m, 0)
            } else {
                assert(scaled_magnitude(*v as nat, 0) == (*v as nat) * pow2(k));
                (false, *v as u64, 0)
            }
        }
        JsonNumber::Float(f) => {
            assert(f.exponent as i32 as int == f.exponent as int);
            (f.negative, f.mantissa, f.exponent as i32)
        }
    }
}

proof fn lemma_scaled_bounds(m: nat, e: int)
    requires
        m > 0,
        -32768 <= e,
    ensures
        pow2((bit_len(m) - 1 + e + exponent_offset()) as nat) <= scaled_magnitude(m, e),
        scaled_magnitude(m, e) < pow2((bit_len(m) + e + exponent_offset()) as nat),
{
    lemma_bit_len_bounds(m);
    let k = (e + exponent_offset()) as nat;
    let b = bit_len(m);
    lemma_pow2_adds((b - 1) as nat, k);
    lemma_pow2_adds(b, k);
    lemma_pow2_pos(k);
    assert(((b - 1) as nat + k) as int == b - 1 + e + exponent_offset());
    lemma_mul_inequality(pow2((b - 1) as nat) as int, m as int, pow2(k) as int);
    lemma_mul_strict_inequality(m as int, pow2(b) as int, pow2(k) as int);
}

/// Compares `m1 * 2^e1` with `m2 * 2^e2`, both positive.
fn compare_magnitudes(m1: u64, e1: i32, m2: u64, e2: i32) -> (r: NumOrder)
    requires
        m1 > 0,
        m2 > 0,
        -32768 <= e1 <= 32767,
        -32768 <= e2 <= 32767,
    ensures
        r == order_of(scaled_magnitude(m1 as nat, e1 as int) as int, scaled_magnitude(m2 as nat, e2 as int) as int),
{
    let b1 = bits(m1);
    let b2 = bits(m2);
    let top1: i64 = b1 as i64 + e1 as i64;
    let top2: i64 = b2 as i64 + e2 as i64;
    let ghost s1 = scaled_magnitude(m1 as nat, e1 as int);
    let ghost s2 = scaled_magnitude(m2 as nat, e2 as int);
    proof {
        lemma_scaled_bounds(m1 as nat, e1 as int);
        lemma_scaled_bounds(m2 as nat, e2 as int);
    }
    if top1 < top2 {
        proof {
            if top1 + exponent_offset() < top2 - 1 + exponent_offset() {
                lemma_pow2_strictly_increases((top1 + exponent_offset()) as nat, (top2 - 1 + exponent_offset()) as nat);
            }
        }
        return NumOrder::Less;
    }
    if top2 < top1 {
        proof {
            if top2 + exponent_offset() < top1 - 1 + exponent_offset() {
                lemma_pow2_strictly_increases((top2 + exponent_offset()) as nat, (top1 - 1 + exponent_offset()) as nat);
            }
        }
        return NumOrder::Greater;
    }
    if e1 >= e2 {
        let d: u32 = (e1 - e2) as u32;
        let shifted = shift_left(m1, b1, d, b2);
        let ghost k = (e2 as int + exponent_offset()) as nat;
        proof {
            lemma_pow2_adds(d as nat, k);
            assert(((d as nat) + k) as int == e1 + exponent_offset());
            lemma_pow2_pos(k);
            lemma_mul_is_associative(m1 as int, pow2(d as nat) as int, pow2(k) as int);
            assert(s1 == (shifted as int) * pow2(k));
            assert(s2 == (m2 as int) * pow2(k));
            lemma_order_scales(shifted as int, m2 as int, pow2(k) as int);
        }
        if shifted < m2 {
            NumOrder::Less
        } else if shifted == m2 {
            NumOrder::Equal
        } else {
            NumOrder::Greater
        }
    } else {
        let d: u32 = (e2 - e1) as u32;
        let shifted = shift_left(m2, b2, d, b1);
        let ghost k = (e1 as int + exponent_offset()) as nat;
        proof {
            lemma_pow2_adds(d as nat, k);
            assert(((d as nat) + k) as int == e2 + exponent_offset());
            lemma_pow2_pos(k);
            lemma_mul_is_associative(m2 as int, pow2(d as nat) as int, pow2(k) as int);
            assert(s2 == (shifted as int) * pow2(k));
            assert(s1 == (m1 as int) * pow2(k));
            lemma_order_scales(m1 as int, shifted as int, pow2(k) as int);
        }
        if m1 < shifted {
            NumOrder::Less
        } else if m1 == shifted {
            NumOrder::Equal
        } else {
            NumOrder::Greater
        }
    }
}

proof fn lemma_order_scales(a: int, b: int, k: int)
    requires
        k > 0,
    ensures
        order_of(a * k, b * k) == order_of(a, b),
{
    if a < b {
        lemma_mul_strict_inequality(a, b, k);
    } else if a > b {
        lemma_mul_strict_inequality(b, a, k);
    }
}

/// `m * 2^d`, where `m` has `b` binary digits and `b + d == target <= 64`.
fn shift_left(m: u64, b: u32, d: u32, target: u32) -> (r: u64)
    requires
        m > 0,
        b == bit_len(m as nat),
        b + d == target,
        target <= 64,
    ensures
        r as int == m * pow2(d as nat),
{
    let mut x = m;
    let mut k: u32 = 0;
    proof {
        lemma_bit_len_bounds(m as nat);
        lemma2_to64();
        reveal(pow2);
    }
    while k < d
        invariant
            k <= d,
            b == bit_len(m as nat),
            b + d == target,
            target <= 64,
            m < pow2(b as nat),
            x as int == m * pow2(k as nat),
            pow2(64) == 0x1_0000_0000_0000_0000,
        decreases d - k,
    {
        proof {
            lemma_pow2_pos((k + 1) as nat);
            lemma_pow2_adds(b as nat, (k + 1) as nat);
            lemma_pow2_unfold((k + 1) as nat);
            lemma_mul_strict_inequality(m as int, pow2(b as nat) as int, pow2((k + 1) as nat) as int);
            assert(m * pow2((k + 1) as nat) < pow2((b + k + 1) as nat));
            if b + k + 1 < 64 {
                lemma_pow2_strictly_increases((b + k + 1) as nat, 64);
            }
            lemma_mul_is_associative(m as int, 2, pow2(k as nat) as int);
            assert(m * pow2((k + 1) as nat) == 2 * (x as int)) by (nonlinear_arith)
                requires pow2((k + 1) as nat) == 2 * pow2(k as nat), x as int == m * pow2(k as nat);
        }
        x = x * 2;
        k = k + 1;
    }
    x
}

/// Compares two numbers by their exact values.
pub fn numeric_compare(a: &JsonNumber, b: &JsonNumber) -> (r: NumOrder)
    ensures
        r == order_of(num_scaled(*a), num_scaled(*b)),
{
    let (n1, m1, e1) = parts(a);
    let (n2, m2, e2) = parts(b);
    proof {
        lemma_pow2_pos((e1 + exponent_offset()) as nat);
        lemma_pow2_pos((e2 + exponent_offset()) as nat);
        lemma_mul_nonnegative(m1 as int, pow2((e1 + exponent_offset()) as nat) as int);
        lemma_mul_nonnegative(m2 as int, pow2((e2 + exponent_offset()) as nat) as int);
        if m1 > 0 {
            lemma_mul_strictly_positive(m1 as int, pow2((e1 + exponent_offset()) as nat) as int);
            assert(scaled_magnitude(m1 as nat, e1 as int) > 0);
        } else {
            lemma_mul_basics(pow2((e1 + exponent_offset()) as nat) as int);
            assert(scaled_magnitude(m1 as nat, e1 as int) == 0);
        }
        if m2 > 0 {
            lemma_mul_strictly_positive(m2 as int, pow2((e2 + exponent_offset()) as nat) as int);
            assert(scaled_magnitude(m2 as nat, e2 as int) > 0);
        } else {
            lemma_mul_basics(pow2((e2 + exponent_offset()) as nat) as int);
            assert(scaled_magnitude(m2 as nat, e2 as int) == 0);
        }
    }
    // Signs: -1, 0 or 1.
    let s1: i8 = if m1 == 0 { 0 } else if n1 { -1 } else { 1 };
    let s2: i8 = if m2 == 0 { 0 } else if n2 { -1 } else { 1 };
    if s1 < s2 {
        return NumOrder::Less;
    }
    if s1 > s2 {
        return NumOrder::Greater;
    }
    if s1 == 0 {
        return NumOrder::Equal;
    }
    let mag = compare_magnitudes(m1, e1, m2, e2);
    if s1 > 0 {
        mag
    } else {
        match mag {
            NumOrder::Less => NumOrder::Greater,
            NumOrder::Equal => NumOrder::Equal,
            NumOrder::Greater => NumOrder::Less,
        }
    }
}

/// Whether a number's value is zero (either sign).
pub fn number_is_zero(n: &JsonNumber) -> (r: bool)
    ensures
        r == (num_scaled(*n) == 0),
{
    let (neg, m, e) = parts(n);
    proof {
        lemma_pow2_pos((e + exponent_offset()) as nat);
        if m > 0 {
            lemma_mul_strictly_positive(m as int, pow2((e + exponent_offset()) as nat) as int);
            assert(scaled_magnitude(m as nat, e as int) > 0);
        } else {
            lemma_mul_basics(pow2((e + exponent_offset()) as nat) as int);
            assert(scaled_magnitude(m as nat, e as int) == 0);
        }
    }
    m == 0
}

} // verus!
