use fp256::fp::Fp;

// P - 1, the largest canonical value, for the modulus P fixed by the library.
const P_MINUS_1: [u64; 4] = [
    0x1ffffffffffffffe,
    0x1fffffffffffffff,
    0x1fffffffffffffff,
    0x3fffffffffffffff,
];

// P - 2.
const P_MINUS_2: [u64; 4] = [
    0x1ffffffffffffffd,
    0x1fffffffffffffff,
    0x1fffffffffffffff,
    0x3fffffffffffffff,
];

// A large canonical element coprime with the modulus.
const A: [u64; 4] = [
    0xfedcba987654322,
    0x123456789abcdef,
    0xfedcba9876543210,
    0x123456789abcdef0,
];

// Another large canonical element.
const B: [u64; 4] = [
    0x9959574966967627,
    0x6249775724709369,
    0x2353602874713526,
    0x2718281828459045,
];

// A third large canonical element.
const C2: [u64; 4] = [
    0x905820974944592f,
    0xa88419716939937f,
    0xb84626433832795a,
    0x141592653589793c,
];

#[test]
fn add_wraps_to_zero_at_modulus() {
    let x = Fp::from_limbs(P_MINUS_1);
    let one = Fp::one();
    assert_eq!(x.add(&one), Fp::zero());
}

#[test]
fn sub_zero_minus_one_is_modulus_minus_one() {
    let zero = Fp::zero();
    let one = Fp::one();
    assert_eq!(zero.sub(&one), Fp::from_limbs(P_MINUS_1));
}

#[test]
fn add_identity() {
    let a = Fp::from_limbs(A);
    assert_eq!(a.add(&Fp::zero()), a);
}

#[test]
fn add_inverse_is_zero() {
    let a = Fp::from_limbs(A);
    assert_eq!(a.add(&a.neg()), Fp::zero());
    let x = Fp::from_limbs(P_MINUS_1);
    assert_eq!(x.add(&x.neg()), Fp::zero());
}

#[test]
fn add_known_values() {
    let a = Fp::from_limbs(A);
    let b = Fp::from_limbs(B);
    let expected = Fp::from_limbs([
        0xa94722f2edfbb949,
        0x636cbcbeae1c6158,
        0x22301ac0eac56736,
        0x394c7e90c3026f36,
    ]);
    assert_eq!(a.add(&b), expected);
}

#[test]
fn add_carries_across_limbs() {
    let x = Fp::from_limbs(P_MINUS_1);
    assert_eq!(x.add(&x), Fp::from_limbs(P_MINUS_2));
}

#[test]
fn sub_known_values() {
    let a = Fp::from_limbs(A);
    let b = Fp::from_limbs(B);
    let expected = Fp::from_limbs([
        0x9694746020ceccfa,
        0xbed9ce10653b3a84,
        0xfb895a7001e2fce8,
        0x2b1c2e6072774eaa,
    ]);
    assert_eq!(a.sub(&b), expected);
}

#[test]
fn sub_is_add_of_negation() {
    let a = Fp::from_limbs(A);
    let b = Fp::from_limbs(B);
    assert_eq!(a.sub(&b), a.add(&b.neg()));
    assert_eq!(b.sub(&a), b.add(&a.neg()));
    let zero = Fp::zero();
    assert_eq!(a.sub(&zero), a.add(&zero.neg()));
}

#[test]
fn neg_known_value() {
    let b = Fp::from_limbs(B);
    let expected = Fp::from_limbs([
        0x86a6a8b6996989d8,
        0xbdb688a8db8f6c95,
        0xfcac9fd78b8ecad8,
        0x18e7d7e7d7ba6fb9,
    ]);
    assert_eq!(b.neg(), expected);
}

#[test]
fn neg_of_zero_is_zero() {
    assert_eq!(Fp::zero().neg(), Fp::zero());
}

#[test]
fn double_negation_is_identity() {
    let a = Fp::from_limbs(A);
    assert_eq!(a.neg().neg(), a);
    let zero = Fp::zero();
    assert_eq!(zero.neg().neg(), zero);
}

#[test]
fn mul_identity_and_zero() {
    let a = Fp::from_limbs(A);
    assert_eq!(a.mul(&Fp::one()), a);
    assert_eq!(a.mul(&Fp::zero()), Fp::zero());
}

#[test]
fn mul_small_values() {
    let three = Fp::from_u64(3);
    let five = Fp::from_u64(5);
    assert_eq!(three.mul(&five), Fp::from_u64(15));
}

#[test]
fn mul_known_values() {
    let a = Fp::from_limbs(A);
    let b = Fp::from_limbs(B);
    let expected = Fp::from_limbs([
        0x8dbd80be8ad396e3,
        0x41a9b71ff63bf66c,
        0xc89eda576350d221,
        0x2a6b17a04312bc2d,
    ]);
    assert_eq!(a.mul(&b), expected);
}

#[test]
fn square_of_minus_one_is_one() {
    let x = Fp::from_limbs(P_MINUS_1);
    assert_eq!(x.mul(&x), Fp::one());
}

#[test]
fn square_of_two_pow_128_reduces() {
    let c = Fp::from_limbs([0, 0, 1, 0]);
    let expected = Fp::from_limbs([
        0x8000000000000004,
        0x8000000000000003,
        0x8000000000000003,
        0x3,
    ]);
    assert_eq!(c.mul(&c), expected);
}

#[test]
fn add_commutes() {
    let a = Fp::from_limbs(A);
    let b = Fp::from_limbs(B);
    assert_eq!(a.add(&b), b.add(&a));
}

#[test]
fn mul_commutes() {
    let a = Fp::from_limbs(A);
    let b = Fp::from_limbs(B);
    assert_eq!(a.mul(&b), b.mul(&a));
}

#[test]
fn add_associates() {
    let a = Fp::from_limbs(A);
    let b = Fp::from_limbs(B);
    let c = Fp::from_limbs(C2);
    assert_eq!(a.add(&b).add(&c), a.add(&b.add(&c)));
}

#[test]
fn mul_associates() {
    let a = Fp::from_limbs(A);
    let b = Fp::from_limbs(B);
    let c = Fp::from_limbs(C2);
    assert_eq!(a.mul(&b).mul(&c), a.mul(&b.mul(&c)));
}

#[test]
fn mul_distributes_over_add() {
    let a = Fp::from_limbs(A);
    let b = Fp::from_limbs(B);
    let c = Fp::from_limbs(C2);
    assert_eq!(a.mul(&b.add(&c)), a.mul(&b).add(&a.mul(&c)));
}

#[test]
fn construction_and_zero_test() {
    let x = Fp::from_u64(42);
    assert_eq!(x.limbs, [42, 0, 0, 0]);
    assert!(!x.is_zero());
    assert!(Fp::zero().is_zero());
    let y = Fp::from_limbs(A);
    assert_eq!(y.limbs, A);
}

#[test]
fn modulus_wraps_to_zero() {
    // 0 - (P - 1) - 1 walks all the way around the ring.
    let x = Fp::zero().sub(&Fp::from_limbs(P_MINUS_1)).sub(&Fp::one());
    assert!(x.is_zero());
    assert_eq!(Fp::from_limbs(P_MINUS_1).add(&Fp::one()).limbs, [0, 0, 0, 0]);
}
