//! Fixed-width unsigned arithmetic on little-endian arrays of 64-bit limbs:
//! addition and subtraction with carry/borrow propagation, schoolbook
//! multiplication into a double-width result, comparison, and halving.
//! Everything here is agnostic of any modulus.

use vstd::prelude::*;
use vstd::arithmetic::div_mod::*;
use vstd::arithmetic::mul::*;

verus! {

/// 2^64, the weight of one limb.
pub open spec fn two64() -> nat {
    0x10000000000000000nat
}

/// 2^128.
pub open spec fn two128() -> nat {
    0x100000000000000000000000000000000nat
}

/// 2^192.
pub open spec fn two192() -> nat {
    0x1000000000000000000000000000000000000000000000000nat
}

/// 2^256, the weight just above a four-limb number.
pub open spec fn two256() -> nat {
    0x10000000000000000000000000000000000000000000000000000000000000000nat
}

/// 2^320.
pub open spec fn two320() -> nat {
    0x100000000000000000000000000000000000000000000000000000000000000000000000000000000nat
}

/// 2^384.
pub open spec fn two384() -> nat {
    0x1000000000000000000000000000000000000000000000000000000000000000000000000000000000000000000000000nat
}

/// 2^448.
pub open spec fn two448() -> nat {
    0x10000000000000000000000000000000000000000000000000000000000000000000000000000000000000000000000000000000000000000nat
}

/// The integer encoded by four 64-bit limbs, least significant first.
pub open spec fn limbs4_val(a: [u64; 4]) -> nat {
    (a[0] + a[1] * two64() + a[2] * two128() + a[3] * two192()) as nat
}

/// The integer encoded by five 64-bit limbs, least significant first.
pub open spec fn limbs5_val(a: [u64; 5]) -> nat {
    (a[0] + a[1] * two64() + a[2] * two128() + a[3] * two192() + a[4] * two256()) as nat
}

/// The integer encoded by eight 64-bit limbs, least significant first.
pub open spec fn limbs8_val(a: [u64; 8]) -> nat {
    (a[0] + a[1] * two64() + a[2] * two128() + a[3] * two192() + a[4] * two256() + a[5]
        * two320() + a[6] * two384() + a[7] * two448()) as nat
}

/// Every four-limb number is below 2^256.
pub proof fn lemma_limbs4_val_bound(a: [u64; 4])
    ensures
        limbs4_val(a) < two256(),
{
}

/// Adds one limb of each operand together with an incoming carry bit,
/// splitting the exact sum into a low limb and an outgoing carry bit.
fn carry_add(x: u64, y: u64, c: u64) -> (r: (u64, u64))
    requires
        c <= 1,
    ensures
        r.0 + r.1 * two64() == x + y + c,
        r.1 <= 1,
{
    let s: u128 = x as u128 + y as u128 + c as u128;
    let lo: u64 = (s % 0x10000000000000000u128) as u64;
    let hi: u64 = (s / 0x10000000000000000u128) as u64;
    proof {
        lemma_fundamental_div_mod(s as int, 0x10000000000000000);
        lemma_multiply_divide_lt(s as int, 0x10000000000000000, 2);
    }
    (lo, hi)
}

/// Adds two four-limb numbers, returning the four-limb sum and the carry-out
/// bit that indicates the exact sum reached 2^256.
pub fn add_limbs(a: &[u64; 4], b: &[u64; 4]) -> (r: ([u64; 4], u64))
    ensures
        limbs4_val(r.0) + r.1 * two256() == limbs4_val(*a) + limbs4_val(*b),
        r.1 <= 1,
{
    let (s0, c0) = carry_add(a[0], b[0], 0);
    let (s1, c1) = carry_add(a[1], b[1], c0);
    let (s2, c2) = carry_add(a[2], b[2], c1);
    let (s3, c3) = carry_add(a[3], b[3], c2);
    ([s0, s1, s2, s3], c3)
}

/// Subtracts one limb and an incoming borrow bit from a limb, wrapping at
/// 2^64 and reporting the outgoing borrow bit.
fn borrow_sub(x: u64, y: u64, c: u64) -> (r: (u64, u64))
    requires
        c <= 1,
    ensures
        r.0 == x - y - c + r.1 * two64(),
        r.1 <= 1,
{
    let t: u128 = (0x10000000000000000u128 + x as u128) - y as u128 - c as u128;
    let lo: u64 = (t % 0x10000000000000000u128) as u64;
    proof {
        lemma_fundamental_div_mod(t as int, 0x10000000000000000);
        lemma_multiply_divide_lt(t as int, 0x10000000000000000, 2);
        if t >= 0x10000000000000000u128 {
            lemma_div_non_zero(t as int, 0x10000000000000000);
        }
    }
    if t >= 0x10000000000000000u128 {
        (lo, 0)
    } else {
        (lo, 1)
    }
}

/// Subtracts two four-limb numbers, wrapping at 2^256; the second component
/// is the borrow-out bit, set exactly when the first operand is smaller.
pub fn sub_limbs(a: &[u64; 4], b: &[u64; 4]) -> (r: ([u64; 4], u64))
    ensures
        limbs4_val(r.0) == limbs4_val(*a) - limbs4_val(*b) + r.1 * two256(),
        r.1 <= 1,
        r.1 == 1 <==> limbs4_val(*a) < limbs4_val(*b),
{
    let (d0, c0) = borrow_sub(a[0], b[0], 0);
    let (d1, c1) = borrow_sub(a[1], b[1], c0);
    let (d2, c2) = borrow_sub(a[2], b[2], c1);
    let (d3, c3) = borrow_sub(a[3], b[3], c2);
    proof {
        lemma_limbs4_val_bound(*a);
        lemma_limbs4_val_bound(*b);
        lemma_limbs4_val_bound([d0, d1, d2, d3]);
    }
    ([d0, d1, d2, d3], c3)
}

/// Multiplies two limbs and adds an incoming carry limb, splitting the exact
/// result into a low limb and an outgoing carry limb.
fn mul_add_carry(x: u64, y: u64, c: u64) -> (r: (u64, u64))
    ensures
        r.0 + r.1 * two64() == x * y + c,
{
    proof {
        lemma_mul_upper_bound(x as int, 0xffffffffffffffff, y as int, 0xffffffffffffffff);
    }
    let t: u128 = (x as u128) * (y as u128) + (c as u128);
    let lo: u64 = (t % 0x10000000000000000u128) as u64;
    let hi: u64 = (t / 0x10000000000000000u128) as u64;
    proof {
        lemma_fundamental_div_mod(t as int, 0x10000000000000000);
        lemma_multiply_divide_lt(t as int, 0x10000000000000000, 0x10000000000000000);
    }
    (lo, hi)
}

/// Multiplies a four-limb number by a single limb, producing the exact
/// five-limb product.
fn mul_by_limb(a: &[u64; 4], y: u64) -> (r: [u64; 5])
    ensures
        limbs5_val(r) == limbs4_val(*a) * y,
{
    let (p0, c0) = mul_add_carry(a[0], y, 0);
    let (p1, c1) = mul_add_carry(a[1], y, c0);
    let (p2, c2) = mul_add_carry(a[2], y, c1);
    let (p3, c3) = mul_add_carry(a[3], y, c2);
    proof {
        let a0 = a[0] as int;
        let a1 = a[1] as int;
        let a2 = a[2] as int;
        let a3 = a[3] as int;
        let yy = y as int;
        assert((a0 + a1 * 0x10000000000000000 + a2 * 0x100000000000000000000000000000000 + a3
            * 0x1000000000000000000000000000000000000000000000000) * yy == a0 * yy + (a1 * yy)
            * 0x10000000000000000 + (a2 * yy) * 0x100000000000000000000000000000000 + (a3 * yy)
            * 0x1000000000000000000000000000000000000000000000000) by (nonlinear_arith);
    }
    [p0, p1, p2, p3, c3]
}

/// Splits a double limb into a low and a high limb.
fn split_wide(t: u128) -> (r: (u64, u64))
    ensures
        r.0 + r.1 * two64() == t,
{
    let lo: u64 = (t % 0x10000000000000000u128) as u64;
    let hi: u64 = (t / 0x10000000000000000u128) as u64;
    proof {
        lemma_fundamental_div_mod(t as int, 0x10000000000000000);
        lemma_multiply_divide_lt(t as int, 0x10000000000000000, 0x10000000000000000);
    }
    (lo, hi)
}

/// Schoolbook multiplication of two four-limb numbers into the exact
/// eight-limb product: one five-limb partial product per limb of the second
/// operand, summed column by column with a carry limb threaded through.
#[verifier::rlimit(100)]
pub fn mul_limbs(a: &[u64; 4], b: &[u64; 4]) -> (r: [u64; 8])
    ensures
        limbs8_val(r) == limbs4_val(*a) * limbs4_val(*b),
{
    let p0 = mul_by_limb(a, b[0]);
    let p1 = mul_by_limb(a, b[1]);
    let p2 = mul_by_limb(a, b[2]);
    let p3 = mul_by_limb(a, b[3]);
    let w0: u64 = p0[0];
    let (w1, k1) = split_wide(p0[1] as u128 + p1[0] as u128);
    let (w2, k2) = split_wide(p0[2] as u128 + p1[1] as u128 + p2[0] as u128 + k1 as u128);
    let (w3, k3) = split_wide(
        p0[3] as u128 + p1[2] as u128 + p2[1] as u128 + p3[0] as u128 + k2 as u128,
    );
    let (w4, k4) = split_wide(
        p0[4] as u128 + p1[3] as u128 + p2[2] as u128 + p3[1] as u128 + k3 as u128,
    );
    let (w5, k5) = split_wide(p1[4] as u128 + p2[3] as u128 + p3[2] as u128 + k4 as u128);
    let (w6, k6) = split_wide(p2[4] as u128 + p3[3] as u128 + k5 as u128);
    let (w7, k7) = split_wide(p3[4] as u128 + k6 as u128);
    let w = [w0, w1, w2, w3, w4, w5, w6, w7];
    proof {
        let av = limbs4_val(*a) as int;
        let b0 = b[0] as int;
        let b1 = b[1] as int;
        let b2 = b[2] as int;
        let b3 = b[3] as int;
        assert(av * b0 + (av * b1) * 0x10000000000000000 + (av * b2)
            * 0x100000000000000000000000000000000 + (av * b3)
            * 0x1000000000000000000000000000000000000000000000000 == av * (b0 + b1
            * 0x10000000000000000 + b2 * 0x100000000000000000000000000000000 + b3
            * 0x1000000000000000000000000000000000000000000000000)) by (nonlinear_arith);
        assert(limbs8_val(w) + (k7 * two448()) * two64() == limbs4_val(*a) * limbs4_val(*b));
        lemma_limbs4_val_bound(*a);
        lemma_limbs4_val_bound(*b);
        lemma_mul_upper_bound(
            limbs4_val(*a) as int,
            two256() as int - 1,
            limbs4_val(*b) as int,
            two256() as int - 1,
        );
    }
    w
}

/// Compares two four-limb numbers, most significant limb first.
pub fn geq_limbs(a: &[u64; 4], b: &[u64; 4]) -> (r: bool)
    ensures
        r == (limbs4_val(*a) >= limbs4_val(*b)),
{
    if a[3] != b[3] {
        return a[3] > b[3];
    }
    if a[2] != b[2] {
        return a[2] > b[2];
    }
    if a[1] != b[1] {
        return a[1] > b[1];
    }
    a[0] >= b[0]
}

/// Halves a four-limb number, dropping the lowest bit.
pub fn shr1_limbs(a: &[u64; 4]) -> (r: [u64; 4])
    ensures
        limbs4_val(r) == limbs4_val(*a) / 2,
{
    let r0: u64 = a[0] / 2 + (a[1] % 2) * 0x8000000000000000;
    let r1: u64 = a[1] / 2 + (a[2] % 2) * 0x8000000000000000;
    let r2: u64 = a[2] / 2 + (a[3] % 2) * 0x8000000000000000;
    let r3: u64 = a[3] / 2;
    proof {
        lemma_fundamental_div_mod(a[0] as int, 2);
        lemma_fundamental_div_mod(a[1] as int, 2);
        lemma_fundamental_div_mod(a[2] as int, 2);
        lemma_fundamental_div_mod(a[3] as int, 2);
        assert(2 * limbs4_val([r0, r1, r2, r3]) + a[0] % 2 == limbs4_val(*a));
        lemma_fundamental_div_mod_converse_div(
            limbs4_val(*a) as int,
            2,
            limbs4_val([r0, r1, r2, r3]) as int,
            (a[0] % 2) as int,
        );
    }
    [r0, r1, r2, r3]
}

/// Tests a four-limb number for zero.
pub fn is_zero_limbs(a: &[u64; 4]) -> (r: bool)
    ensures
        r == (limbs4_val(*a) == 0),
{
    a[0] == 0 && a[1] == 0 && a[2] == 0 && a[3] == 0
}

/// Each limb of a four-limb number is determined by its value.
pub proof fn lemma_limbs4_fields(a: [u64; 4])
    ensures
        a[0] == limbs4_val(a) % two64(),
        a[1] == (limbs4_val(a) / two64()) % two64(),
        a[2] == (limbs4_val(a) / two64() / two64()) % two64(),
        a[3] == limbs4_val(a) / two64() / two64() / two64(),
{
    let v = limbs4_val(a) as int;
    let b = two64() as int;
    let q1 = a[1] + a[2] * b + a[3] * b * b;
    let q2 = a[2] + a[3] * b;
    lemma_fundamental_div_mod_converse(v, b, q1, a[0] as int);
    lemma_fundamental_div_mod_converse(v / b, b, q2, a[1] as int);
    lemma_fundamental_div_mod_converse(v / b / b, b, a[3] as int, a[2] as int);
}

/// The parity of a four-limb number is the parity of its lowest limb.
pub proof fn lemma_limbs4_parity(a: [u64; 4])
    ensures
        limbs4_val(a) % 2 == a[0] % 2,
{
    let m = a[1] * 0x8000000000000000 + a[2] * 0x80000000000000000000000000000000 + a[3]
        * 0x800000000000000000000000000000000000000000000000;
    assert(limbs4_val(a) == 2 * m + a[0]);
    lemma_mod_multiples_vanish(m as int, a[0] as int, 2);
}

} // verus!
