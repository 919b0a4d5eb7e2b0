//! Algebraic identities of the modular operations, stated over the
//! specification functions the operations' contracts use and proved once and
//! for all.  Together with those contracts they show that the element type
//! forms a commutative ring with the expected additive inverses.

use vstd::prelude::*;
use vstd::arithmetic::div_mod::*;
use vstd::arithmetic::mul::*;
use crate::fp::add_spec;
use crate::fp::mul_spec;
use crate::fp::neg_spec;
use crate::fp::p;
use crate::fp::sub_spec;
use crate::fp::Fp;

verus! {

/// Closure: on canonical inputs every operation yields a canonical value.
pub proof fn lemma_ops_canonical(a: nat, b: nat)
    requires
        a < p(),
        b < p(),
    ensures
        add_spec(a, b) < p(),
        sub_spec(a, b) < p(),
        mul_spec(a, b) < p(),
        neg_spec(a) < p(),
{
    lemma_mod_bound((a + b) as int, p() as int);
    lemma_mul_nonnegative(a as int, b as int);
    lemma_mod_bound((a * b) as int, p() as int);
}

/// Additive identity and inverse: adding an element's negation gives zero,
/// and adding zero changes nothing.
pub proof fn lemma_add_neg(a: nat)
    requires
        a < p(),
    ensures
        add_spec(a, neg_spec(a)) == 0,
        add_spec(a, 0) == a,
{
    if a == 0 {
        lemma_small_mod(0, p());
    } else {
        lemma_mod_self_0(p() as int);
    }
    lemma_small_mod(a, p());
}

/// Subtraction agrees with adding the negation.
pub proof fn lemma_sub_is_add_neg(a: nat, b: nat)
    requires
        a < p(),
        b < p(),
    ensures
        sub_spec(a, b) == add_spec(a, neg_spec(b)),
{
    if b == 0 {
        lemma_small_mod(a, p());
    } else if a >= b {
        lemma_mod_sub_multiples_vanish((a + p() - b) as int, p() as int);
        lemma_small_mod((a - b) as nat, p());
    } else {
        lemma_small_mod((a + p() - b) as nat, p());
    }
}

/// Multiplicative identity and absorption: multiplying by one changes
/// nothing, and multiplying by zero gives zero.
pub proof fn lemma_mul_identity(a: nat)
    requires
        a < p(),
    ensures
        mul_spec(a, 1) == a,
        mul_spec(a, 0) == 0,
{
    lemma_mul_basics(a as int);
    lemma_small_mod(a, p());
    lemma_small_mod(0, p());
}

/// Commutativity of addition and multiplication.
pub proof fn lemma_comm(a: nat, b: nat)
    ensures
        add_spec(a, b) == add_spec(b, a),
        mul_spec(a, b) == mul_spec(b, a),
{
    lemma_mul_is_commutative(a as int, b as int);
}

/// Associativity of addition.
pub proof fn lemma_add_assoc(a: nat, b: nat, c: nat)
    requires
        a < p(),
        b < p(),
        c < p(),
    ensures
        add_spec(add_spec(a, b), c) == add_spec(a, add_spec(b, c)),
{
    lemma_small_mod(a, p());
    lemma_small_mod(c, p());
    lemma_add_mod_noop((a + b) as int, c as int, p() as int);
    lemma_add_mod_noop(a as int, (b + c) as int, p() as int);
}

/// Associativity of multiplication.
pub proof fn lemma_mul_assoc(a: nat, b: nat, c: nat)
    ensures
        mul_spec(mul_spec(a, b), c) == mul_spec(a, mul_spec(b, c)),
{
    lemma_mul_nonnegative(a as int, b as int);
    lemma_mul_nonnegative(b as int, c as int);
    lemma_mul_mod_noop_left((a * b) as int, c as int, p() as int);
    lemma_mul_mod_noop_right(a as int, (b * c) as int, p() as int);
    lemma_mul_is_associative(a as int, b as int, c as int);
}

/// Multiplication distributes over addition.
pub proof fn lemma_mul_distributes(a: nat, b: nat, c: nat)
    ensures
        mul_spec(a, add_spec(b, c)) == add_spec(mul_spec(a, b), mul_spec(a, c)),
{
    lemma_mul_nonnegative(a as int, (b + c) as int);
    lemma_mul_nonnegative(a as int, b as int);
    lemma_mul_nonnegative(a as int, c as int);
    lemma_mul_mod_noop_right(a as int, (b + c) as int, p() as int);
    lemma_add_mod_noop((a * b) as int, (a * c) as int, p() as int);
    lemma_mul_is_distributive_add(a as int, b as int, c as int);
}

/// Double negation is the identity, with zero fixed by negation.
pub proof fn lemma_neg_neg(a: nat)
    requires
        a < p(),
    ensures
        neg_spec(neg_spec(a)) == a,
        neg_spec(0) == 0,
{
}

/// The encoded value determines the limbs: two elements with the same value
/// are the same element, so comparing limb arrays is comparing values.
pub proof fn lemma_as_nat_injective(x: Fp, y: Fp)
    requires
        x.as_nat() == y.as_nat(),
    ensures
        x == y,
{
    crate::limbs::lemma_limbs4_fields(x.limbs);
    crate::limbs::lemma_limbs4_fields(y.limbs);
    vstd::array::axiom_array_ext_equal(x.limbs, y.limbs);
    assert(x.limbs@ =~= y.limbs@);
}

} // verus!
