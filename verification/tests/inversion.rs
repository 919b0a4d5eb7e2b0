use fp256::fp::FieldError;
use fp256::fp::Fp;

// A large canonical element coprime with the modulus.
const A: [u64; 4] = [
    0xfedcba987654322,
    0x123456789abcdef,
    0xfedcba9876543210,
    0x123456789abcdef0,
];

#[test]
fn inv_of_zero_is_division_by_zero() {
    assert_eq!(Fp::zero().inv(), Err(FieldError::DivisionByZero));
}

#[test]
fn inv_of_one_is_one() {
    assert_eq!(Fp::one().inv(), Ok(Fp::one()));
}

#[test]
fn two_times_inv_of_two_is_one() {
    let two = Fp::from_u64(2);
    let inv = two.inv().unwrap();
    let expected = Fp::from_limbs([
        0x9000000000000000,
        0x8fffffffffffffff,
        0x8fffffffffffffff,
        0x1fffffffffffffff,
    ]);
    assert_eq!(inv, expected);
    assert_eq!(two.mul(&inv), Fp::one());
}

#[test]
fn inv_of_large_element() {
    let a = Fp::from_limbs(A);
    let inv = a.inv().unwrap();
    let expected = Fp::from_limbs([
        0x342df4bcdf521bd0,
        0x9b3ef83f28c098fa,
        0xb3b57350c68c3be0,
        0x812d29ac949b623,
    ]);
    assert_eq!(inv, expected);
    assert_eq!(a.mul(&inv), Fp::one());
    assert_eq!(inv.mul(&a), Fp::one());
}

#[test]
fn inv_of_minus_one_is_itself() {
    let x = Fp::zero().sub(&Fp::one());
    assert_eq!(x.inv(), Ok(x));
}

#[test]
fn inv_fails_on_common_factor_with_modulus() {
    // The modulus is divisible by three, so three has no inverse.
    let three = Fp::from_u64(3);
    assert_eq!(three.inv(), Err(FieldError::DivisionByZero));
}

#[test]
fn inv_roundtrip() {
    let a = Fp::from_limbs(A);
    let inv = a.inv().unwrap();
    assert_eq!(inv.inv().unwrap(), a);
}
