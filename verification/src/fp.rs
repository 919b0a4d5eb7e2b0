//! Elements of the ring of integers modulo a fixed 254-bit constant, stored
//! as four 64-bit limbs in canonical form (value strictly below the modulus).
//!
//! All operations are pure: they take canonical elements and return canonical
//! elements, with contracts that pin the returned value exactly.  Inversion
//! returns an error on the zero element (and on the rare nonzero elements
//! that share a factor with the modulus, which is not prime).

use vstd::prelude::*;
use vstd::arithmetic::div_mod::*;
use vstd::arithmetic::power2::*;
use crate::limbs::add_limbs;
use crate::limbs::geq_limbs;
use crate::limbs::is_zero_limbs;
use crate::limbs::lemma_limbs4_val_bound;
use crate::limbs::limbs4_val;
use crate::limbs::limbs8_val;
use crate::limbs::mul_limbs;
use crate::limbs::sub_limbs;
use crate::limbs::two64;
use crate::limbs::two128;
use crate::limbs::two192;

verus! {

/// The fixed modulus, as an integer.
pub open spec fn p() -> nat {
    (0x1fffffffffffffff + 0x1fffffffffffffff * two64() + 0x1fffffffffffffff * two128()
        + 0x3fffffffffffffff * two192()) as nat
}

/// The modulus as four limbs, least significant first.
pub fn modulus_limbs() -> (r: [u64; 4])
    ensures
        limbs4_val(r) == p(),
{
    [0x1fffffffffffffff, 0x1fffffffffffffff, 0x1fffffffffffffff, 0x3fffffffffffffff]
}

/// What addition returns: the exact sum, reduced once.
pub open spec fn add_spec(a: nat, b: nat) -> nat {
    (a + b) % p()
}

/// What subtraction returns: the exact difference, brought back into range
/// by one addition of the modulus when it would be negative.
pub open spec fn sub_spec(a: nat, b: nat) -> nat {
    if a >= b {
        (a - b) as nat
    } else {
        (a + p() - b) as nat
    }
}

/// What multiplication returns: the exact product, reduced.
pub open spec fn mul_spec(a: nat, b: nat) -> nat {
    (a * b) % p()
}

/// What negation returns: the additive inverse, with zero mapped to zero.
pub open spec fn neg_spec(a: nat) -> nat {
    if a == 0 {
        0
    } else {
        (p() - a) as nat
    }
}

/// The single failure of the arithmetic surface: inversion of an element
/// that has no multiplicative inverse, above all the zero element.
#[derive(Clone, Copy, Debug, PartialEq, Eq, Structural)]
pub enum FieldError {
    DivisionByZero,
}

/// An element of the ring, as four 64-bit limbs, least significant first.
/// Canonical form means the encoded value is strictly below the modulus.
#[derive(Clone, Copy, Debug)]
pub struct Fp {
    pub limbs: [u64; 4],
}

impl Fp {
    /// The integer this element encodes.
    pub open spec fn as_nat(self) -> nat {
        limbs4_val(self.limbs)
    }

    /// Canonical form: the encoded value is strictly below the modulus.
    pub open spec fn well_formed(self) -> bool {
        self.as_nat() < p()
    }

    /// The zero element.
    pub fn zero() -> (r: Fp)
        ensures
            r.well_formed(),
            r.as_nat() == 0,
    {
        Fp { limbs: [0, 0, 0, 0] }
    }

    /// The one element.
    pub fn one() -> (r: Fp)
        ensures
            r.well_formed(),
            r.as_nat() == 1,
    {
        Fp { limbs: [1, 0, 0, 0] }
    }

    /// Constructs an element from raw limbs already in canonical form.
    pub fn from_limbs(limbs: [u64; 4]) -> (r: Fp)
        requires
            limbs4_val(limbs) < p(),
        ensures
            r.well_formed(),
            r.as_nat() == limbs4_val(limbs),
    {
        Fp { limbs }
    }

    /// Constructs an element from a single machine word, which is always
    /// canonical because the modulus exceeds one limb.
    pub fn from_u64(x: u64) -> (r: Fp)
        ensures
            r.well_formed(),
            r.as_nat() == x,
    {
        Fp { limbs: [x, 0, 0, 0] }
    }

    /// Tests for the zero element.
    pub fn is_zero(&self) -> (r: bool)
        ensures
            r == (self.as_nat() == 0),
    {
        is_zero_limbs(&self.limbs)
    }

    /// Modular addition: the raw limb sum cannot carry out of four limbs
    /// because both operands are canonical, so a single conditional
    /// subtraction of the modulus restores canonical form.
    pub fn add(&self, other: &Fp) -> (r: Fp)
        requires
            self.well_formed(),
            other.well_formed(),
        ensures
            r.well_formed(),
            r.as_nat() == add_spec(self.as_nat(), other.as_nat()),
    {
        let (sum, carry) = add_limbs(&self.limbs, &other.limbs);
        let m = modulus_limbs();
        proof {
            assert(carry == 0);
        }
        if geq_limbs(&sum, &m) {
            let (red, borrow) = sub_limbs(&sum, &m);
            proof {
                lemma_mod_sub_multiples_vanish(
                    self.as_nat() + other.as_nat() as int,
                    p() as int,
                );
                lemma_small_mod(limbs4_val(red), p());
            }
            Fp { limbs: red }
        } else {
            proof {
                lemma_small_mod(limbs4_val(sum), p());
            }
            Fp { limbs: sum }
        }
    }

    /// Modular subtraction: when the raw limb subtraction borrows, one
    /// addition of the modulus brings the result back into range.
    pub fn sub(&self, other: &Fp) -> (r: Fp)
        requires
            self.well_formed(),
            other.well_formed(),
        ensures
            r.well_formed(),
            r.as_nat() == sub_spec(self.as_nat(), other.as_nat()),
    {
        let (diff, borrow) = sub_limbs(&self.limbs, &other.limbs);
        if borrow == 1 {
            let m = modulus_limbs();
            let (fixed, carry) = add_limbs(&diff, &m);
            proof {
                lemma_limbs4_val_bound(fixed);
                assert(carry == 1);
            }
            Fp { limbs: fixed }
        } else {
            Fp { limbs: diff }
        }
    }

    /// Modular negation: zero stays zero; any other canonical element is
    /// subtracted from the modulus.
    pub fn neg(&self) -> (r: Fp)
        requires
            self.well_formed(),
        ensures
            r.well_formed(),
            r.as_nat() == neg_spec(self.as_nat()),
    {
        if is_zero_limbs(&self.limbs) {
            Fp::zero()
        } else {
            let m = modulus_limbs();
            let (d, borrow) = sub_limbs(&m, &self.limbs);
            proof {
                assert(borrow == 0);
            }
            Fp { limbs: d }
        }
    }

    /// Modular multiplication: the exact eight-limb product, reduced.
    pub fn mul(&self, other: &Fp) -> (r: Fp)
        requires
            self.well_formed(),
            other.well_formed(),
        ensures
            r.well_formed(),
            r.as_nat() == mul_spec(self.as_nat(), other.as_nat()),
    {
        let wide = mul_limbs(&self.limbs, &other.limbs);
        reduce_wide(&wide)
    }
}

/// Exact divisibility over the integers.
pub open spec fn divides(d: int, x: int) -> bool {
    exists|k: int| x == #[trigger] (d * k)
}

impl Fp {
    /// Multiplicative inversion by the binary extended Euclidean algorithm.
    ///
    /// The two working values `u`, `v` start at the modulus and at `self`;
    /// each is kept congruent, modulo the modulus, to a tracked multiple of
    /// `self` (`b` for `u`, `d` for `v`, with ghost integer witnesses for the
    /// exact multiple of the modulus that separates them), and every common
    /// divisor of the pair divides both the modulus and `self`.  When `u`
    /// reaches zero, `v` holds a common divisor of the modulus and `self`;
    /// if it is one, `d` is the inverse, and otherwise no inverse exists at
    /// all.  The zero element, and any nonzero element sharing a factor with
    /// the modulus, yields `DivisionByZero`.
    pub fn inv(&self) -> (r: Result<Fp, FieldError>)
        requires
            self.well_formed(),
        ensures
            self.as_nat() == 0 ==> r is Err,
            r matches Err(e) ==> e == FieldError::DivisionByZero,
            r matches Ok(b) ==> b.well_formed() && mul_spec(self.as_nat(), b.as_nat()) == 1,
            r is Err ==> forall|x: nat| mul_spec(self.as_nat(), x) != 1,
    {
        if self.is_zero() {
            proof {
                assert forall|x: nat| mul_spec(0, x) != 1 by {
                    lemma_small_mod(0, p());
                }
            }
            return Err(FieldError::DivisionByZero);
        }
        let ghost av: int = self.as_nat() as int;
        let ghost pv: int = p() as int;
        let mut u: [u64; 4] = modulus_limbs();
        let mut v: [u64; 4] = self.limbs;
        let mut b: Fp = Fp::zero();
        let mut d: Fp = Fp::one();
        let ghost mut mu: int = -1;
        let ghost mut mv: int = 0;
        while !is_zero_limbs(&u)
            invariant
                self.well_formed(),
                av == self.as_nat(),
                pv == p(),
                0 < av < pv,
                b.well_formed(),
                d.well_formed(),
                limbs4_val(u) == b.as_nat() * av - mu * pv,
                limbs4_val(v) == d.as_nat() * av - mv * pv,
                0 < limbs4_val(v),
                forall|dd: int|
                    divides(dd, limbs4_val(u) as int) && divides(dd, limbs4_val(v) as int)
                        ==> divides(dd, pv) && divides(dd, av),
            decreases limbs4_val(u) + limbs4_val(v),
        {
            let ghost uval: int = limbs4_val(u) as int;
            let ghost vval: int = limbs4_val(v) as int;
            proof {
                crate::limbs::lemma_limbs4_parity(u);
                crate::limbs::lemma_limbs4_parity(v);
            }
            if u[0] % 2 == 0 {
                let u2 = crate::limbs::shr1_limbs(&u);
                let b2 = half_mod(&b);
                proof {
                    let e: int = if b.as_nat() % 2 == 0 {
                        0
                    } else {
                        1
                    };
                    lemma_fundamental_div_mod(uval, 2);
                    lemma_half_witness(
                        uval,
                        limbs4_val(u2) as int,
                        b.as_nat() as int,
                        b2.as_nat() as int,
                        e,
                        mu,
                        av,
                        pv,
                    );
                    mu = (e * av + mu) / 2;
                    assert forall|dd: int|
                        divides(dd, limbs4_val(u2) as int) && divides(dd, vval) implies divides(
                        dd,
                        pv,
                    ) && divides(dd, av) by {
                        lemma_divides_scaled(dd, 2, limbs4_val(u2) as int);
                        assert(divides(dd, uval));
                    }
                }
                u = u2;
                b = b2;
            } else if v[0] % 2 == 0 {
                let v2 = crate::limbs::shr1_limbs(&v);
                let d2 = half_mod(&d);
                proof {
                    let e: int = if d.as_nat() % 2 == 0 {
                        0
                    } else {
                        1
                    };
                    lemma_fundamental_div_mod(vval, 2);
                    lemma_half_witness(
                        vval,
                        limbs4_val(v2) as int,
                        d.as_nat() as int,
                        d2.as_nat() as int,
                        e,
                        mv,
                        av,
                        pv,
                    );
                    mv = (e * av + mv) / 2;
                    assert forall|dd: int|
                        divides(dd, uval) && divides(dd, limbs4_val(v2) as int) implies divides(
                        dd,
                        pv,
                    ) && divides(dd, av) by {
                        lemma_divides_scaled(dd, 2, limbs4_val(v2) as int);
                        assert(divides(dd, vval));
                    }
                }
                v = v2;
                d = d2;
            } else if geq_limbs(&u, &v) {
                let (u2, borrow) = sub_limbs(&u, &v);
                let b2 = b.sub(&d);
                proof {
                    let f: int = if b.as_nat() >= d.as_nat() {
                        0
                    } else {
                        1
                    };
                    lemma_sub_witness(
                        uval,
                        vval,
                        b.as_nat() as int,
                        d.as_nat() as int,
                        b2.as_nat() as int,
                        f,
                        mu,
                        mv,
                        av,
                        pv,
                    );
                    mu = f * av + mu - mv;
                    assert forall|dd: int|
                        divides(dd, limbs4_val(u2) as int) && divides(dd, vval) implies divides(
                        dd,
                        pv,
                    ) && divides(dd, av) by {
                        lemma_divides_sum(dd, limbs4_val(u2) as int, vval);
                        assert(divides(dd, uval));
                    }
                }
                u = u2;
                b = b2;
            } else {
                let (v2, borrow) = sub_limbs(&v, &u);
                let d2 = d.sub(&b);
                proof {
                    let f: int = if d.as_nat() >= b.as_nat() {
                        0
                    } else {
                        1
                    };
                    lemma_sub_witness(
                        vval,
                        uval,
                        d.as_nat() as int,
                        b.as_nat() as int,
                        d2.as_nat() as int,
                        f,
                        mv,
                        mu,
                        av,
                        pv,
                    );
                    mv = f * av + mv - mu;
                    assert forall|dd: int|
                        divides(dd, uval) && divides(dd, limbs4_val(v2) as int) implies divides(
                        dd,
                        pv,
                    ) && divides(dd, av) by {
                        lemma_divides_sum(dd, limbs4_val(v2) as int, uval);
                        assert(divides(dd, vval));
                    }
                }
                v = v2;
                d = d2;
            }
        }
        if v[0] == 1 && v[1] == 0 && v[2] == 0 && v[3] == 0 {
            proof {
                assert(limbs4_val(v) == 1);
                assert(limbs4_val(u) == 0);
                assert(d.as_nat() * av == 1 + mv * pv);
                assert(mv >= 0) by {
                    if mv < 0 {
                        vstd::arithmetic::mul::lemma_mul_nonnegative(d.as_nat() as int, av);
                        vstd::arithmetic::mul::lemma_mul_inequality(mv, -1, pv);
                    }
                };
                lemma_mod_multiples_vanish(mv, 1, pv);
                lemma_small_mod(1, p());
                vstd::arithmetic::mul::lemma_mul_is_commutative(av, d.as_nat() as int);
            }
            Ok(d)
        } else {
            proof {
                crate::limbs::lemma_limbs4_fields(v);
                if limbs4_val(v) == 1 {
                    lemma_small_mod(1, crate::limbs::two64());
                    lemma_basic_div(1, crate::limbs::two64() as int);
                    lemma_div_of0(crate::limbs::two64() as int);
                    lemma_small_mod(0, crate::limbs::two64());
                    assert(v[0] == 1 && v[1] == 0 && v[2] == 0 && v[3] == 0);
                }
                let vv = limbs4_val(v) as int;
                assert(vv >= 2);
                lemma_divides_mul(vv, 0);
                lemma_divides_mul(vv, 1);
                assert(divides(vv, limbs4_val(u) as int));
                assert(divides(vv, vv));
                assert(divides(vv, pv) && divides(vv, av));
                let ka = choose|k: int| av == #[trigger] (vv * k);
                let kp = choose|k: int| pv == #[trigger] (vv * k);
                assert forall|x: nat| mul_spec(self.as_nat(), x) != 1 by {
                    if mul_spec(self.as_nat(), x) == 1 {
                        vstd::arithmetic::mul::lemma_mul_nonnegative(av, x as int);
                        lemma_fundamental_div_mod(av * (x as int), pv);
                        let q = (av * (x as int)) / pv;
                        let t = ka * (x as int) - kp * q;
                        assert(1 == vv * t) by (nonlinear_arith)
                            requires
                                av * (x as int) == pv * q + 1,
                                av == vv * ka,
                                pv == vv * kp,
                                t == ka * (x as int) - kp * q,
                        ;
                        if t <= 0 {
                            assert(vv * t <= 0) by (nonlinear_arith)
                                requires
                                    vv >= 0,
                                    t <= 0,
                            ;
                        } else {
                            vstd::arithmetic::mul::lemma_mul_inequality(1, t, vv);
                            vstd::arithmetic::mul::lemma_mul_is_commutative(t, vv);
                        }
                        assert(false);
                    }
                }
            }
            Err(FieldError::DivisionByZero)
        }
    }
}

/// A product of an integer with any factor is divisible by that integer.
proof fn lemma_divides_mul(d: int, k: int)
    ensures
        divides(d, d * k),
{
}

/// Divisibility is preserved under scaling.
proof fn lemma_divides_scaled(d: int, c: int, x: int)
    requires
        divides(d, x),
    ensures
        divides(d, c * x),
{
    let k = choose|k: int| x == #[trigger] (d * k);
    assert(c * x == d * (c * k)) by (nonlinear_arith)
        requires
            x == d * k,
    ;
    lemma_divides_mul(d, c * k);
}

/// Divisibility is preserved under addition.
proof fn lemma_divides_sum(d: int, x: int, y: int)
    requires
        divides(d, x),
        divides(d, y),
    ensures
        divides(d, x + y),
{
    let k1 = choose|k: int| x == #[trigger] (d * k);
    let k2 = choose|k: int| y == #[trigger] (d * k);
    assert(x + y == d * (k1 + k2)) by (nonlinear_arith)
        requires
            x == d * k1,
            y == d * k2,
    ;
    lemma_divides_mul(d, k1 + k2);
}

/// Halves an element modulo the modulus: an even value is shifted down
/// directly; an odd one first absorbs the (odd) modulus to become even.
/// Either way the doubled result recovers the input, possibly plus the
/// modulus.
fn half_mod(a: &Fp) -> (r: Fp)
    requires
        a.well_formed(),
    ensures
        r.well_formed(),
        2 * r.as_nat() == a.as_nat() + (if a.as_nat() % 2 == 0 {
            0nat
        } else {
            p()
        }),
{
    proof {
        crate::limbs::lemma_limbs4_parity(a.limbs);
    }
    if a.limbs[0] % 2 == 0 {
        let h = crate::limbs::shr1_limbs(&a.limbs);
        proof {
            lemma_fundamental_div_mod(a.as_nat() as int, 2);
        }
        Fp { limbs: h }
    } else {
        let m = modulus_limbs();
        let (s, carry) = add_limbs(&a.limbs, &m);
        proof {
            assert(carry == 0);
            lemma_add_mod_noop(a.as_nat() as int, p() as int, 2);
            lemma_fundamental_div_mod(limbs4_val(s) as int, 2);
        }
        let h = crate::limbs::shr1_limbs(&s);
        Fp { limbs: h }
    }
}

/// Witness algebra for the halving step of the inversion loop: if `uval` is
/// an exact combination of `av` and `pv`, so is its half, with the tracked
/// coefficient halved the same way.
proof fn lemma_half_witness(
    uval: int,
    unew: int,
    bval: int,
    b2: int,
    e: int,
    m: int,
    av: int,
    pv: int,
)
    requires
        uval == bval * av - m * pv,
        2 * b2 == bval + e * pv,
        2 * unew == uval,
        pv % 2 == 1,
        0 <= e <= 1,
    ensures
        (e * av + m) % 2 == 0,
        unew == b2 * av - ((e * av + m) / 2) * pv,
{
    let t = e * av + m;
    assert(t * pv == 2 * (b2 * av) - 2 * unew) by (nonlinear_arith)
        requires
            uval == bval * av - m * pv,
            2 * b2 == bval + e * pv,
            2 * unew == uval,
            t == e * av + m,
    ;
    if t % 2 == 1 {
        lemma_mul_mod_noop_general(t, pv, 2);
        lemma_fundamental_div_mod(t * pv, 2);
        assert(t * pv == 2 * (b2 * av - unew));
        lemma_mod_multiples_basic(b2 * av - unew, 2);
        assert(false);
    }
    lemma_fundamental_div_mod(t, 2);
    let mn = t / 2;
    assert(t * pv == 2 * (mn * pv)) by (nonlinear_arith)
        requires
            t == 2 * mn,
    ;
}

/// Witness algebra for the subtraction step of the inversion loop: the
/// difference of two exact combinations is again one, with the coefficient
/// difference corrected by the modular reduction of the tracked multiple.
proof fn lemma_sub_witness(
    uval: int,
    vval: int,
    bval: int,
    dval: int,
    b2: int,
    f: int,
    m1: int,
    m2: int,
    av: int,
    pv: int,
)
    requires
        uval == bval * av - m1 * pv,
        vval == dval * av - m2 * pv,
        b2 == bval - dval + f * pv,
    ensures
        uval - vval == b2 * av - (f * av + m1 - m2) * pv,
{
    assert(uval - vval == b2 * av - (f * av + m1 - m2) * pv) by (nonlinear_arith)
        requires
            uval == bval * av - m1 * pv,
            vval == dval * av - m2 * pv,
            b2 == bval - dval + f * pv,
    ;
}

impl PartialEq for Fp {
    /// Equality compares the canonical limb arrays directly.
    fn eq(&self, other: &Fp) -> (r: bool) {
        let r = self.limbs[0] == other.limbs[0] && self.limbs[1] == other.limbs[1]
            && self.limbs[2] == other.limbs[2] && self.limbs[3] == other.limbs[3];
        proof {
            vstd::array::axiom_array_ext_equal(self.limbs, other.limbs);
            if r {
                assert(self.limbs@ =~= other.limbs@);
            }
        }
        r
    }
}

impl vstd::std_specs::cmp::PartialEqSpecImpl for Fp {
    open spec fn obeys_eq_spec() -> bool {
        true
    }

    open spec fn eq_spec(&self, other: &Fp) -> bool {
        self.limbs == other.limbs
    }
}

impl Eq for Fp {

}

/// The value of the limbs of `w` from position `i` upward, taking limb `i`
/// as the unit position.
pub open spec fn suffix_val(w: [u64; 8], i: int) -> nat
    decreases 8 - i,
{
    if i < 0 || i >= 8 {
        0
    } else {
        (w[i] + two64() * suffix_val(w, i + 1)) as nat
    }
}

/// Reading all eight limbs through `suffix_val` gives the full value.
proof fn lemma_suffix_val_full(w: [u64; 8])
    ensures
        suffix_val(w, 0) == limbs8_val(w),
{
    assert(suffix_val(w, 8) == 0);
    assert(suffix_val(w, 7) == w[7]);
    assert(suffix_val(w, 6) == w[6] + two64() * suffix_val(w, 7));
    assert(suffix_val(w, 5) == w[5] + two64() * suffix_val(w, 6));
    assert(suffix_val(w, 4) == w[4] + two64() * suffix_val(w, 5));
    assert(suffix_val(w, 3) == w[3] + two64() * suffix_val(w, 4));
    assert(suffix_val(w, 2) == w[2] + two64() * suffix_val(w, 3));
    assert(suffix_val(w, 1) == w[1] + two64() * suffix_val(w, 2));
    assert(suffix_val(w, 0) == w[0] + two64() * suffix_val(w, 1));
}

/// Multiplies a canonical element by 2^64 modulo the modulus, one verified
/// doubling per bit.
fn shift64_mod(a: &Fp) -> (r: Fp)
    requires
        a.well_formed(),
    ensures
        r.well_formed(),
        r.as_nat() == (a.as_nat() * two64()) % p(),
{
    let mut r = *a;
    let mut k: usize = 0;
    proof {
        lemma_small_mod(a.as_nat(), p());
        assert(pow2(0) == 1) by {
            lemma2_to64();
        }
    }
    while k < 64
        invariant
            k <= 64,
            a.well_formed(),
            r.well_formed(),
            r.as_nat() == (a.as_nat() * pow2(k as nat)) % p(),
        decreases 64 - k,
    {
        let r2 = r.add(&r);
        proof {
            let x = a.as_nat() * pow2(k as nat);
            lemma_add_mod_noop(x as int, x as int, p() as int);
            lemma_pow2_adds(k as nat, 1);
            lemma2_to64();
            assert(a.as_nat() * pow2((k + 1) as nat) == x + x) by (nonlinear_arith)
                requires
                    pow2((k + 1) as nat) == pow2(k as nat) * 2,
                    x == a.as_nat() * pow2(k as nat),
            ;
        }
        r = r2;
        k += 1;
    }
    proof {
        assert(pow2(64) == two64()) by {
            lemma2_to64();
        }
    }
    r
}

/// Reduces an eight-limb value to its canonical residue, folding one limb at
/// a time from the most significant end.
pub fn reduce_wide(w: &[u64; 8]) -> (r: Fp)
    ensures
        r.well_formed(),
        r.as_nat() == limbs8_val(*w) % p(),
{
    let mut r = Fp::zero();
    let mut i: usize = 8;
    proof {
        lemma_small_mod(0, p());
    }
    while i > 0
        invariant
            i <= 8,
            r.well_formed(),
            r.as_nat() == suffix_val(*w, i as int) % p(),
        decreases i,
    {
        i = i - 1;
        let shifted = shift64_mod(&r);
        let unit = Fp::from_u64(w[i]);
        let r2 = shifted.add(&unit);
        proof {
            let s = suffix_val(*w, i as int + 1);
            lemma_mul_mod_noop_left(s as int, two64() as int, p() as int);
            lemma_small_mod(w[i as int] as nat, p());
            lemma_add_mod_noop(
                (s * two64()) as int,
                w[i as int] as int,
                p() as int,
            );
            assert(suffix_val(*w, i as int) == w[i as int] + two64() * s);
        }
        r = r2;
    }
    proof {
        lemma_suffix_val_full(*w);
    }
    r
}

} // verus!
