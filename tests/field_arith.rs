use sp1_core::field::{ExtFelt, Felt, MODULUS};

#[test]
fn base_field_reduces() {
    assert_eq!(Felt::new(MODULUS as u32).value(), 0);
    assert_eq!(Felt::new(MODULUS as u32 + 3).value(), 3);
    assert_eq!(Felt::new(5).sub(Felt::new(7)).value(), MODULUS as u32 - 2);
    assert_eq!(Felt::new(5).neg().value(), MODULUS as u32 - 5);
    assert_eq!(Felt::new(0).neg().value(), 0);
    assert_eq!(Felt::new(1 << 30).mul(Felt::new(4)).value(), ((1u64 << 32) % MODULUS) as u32);
    assert_eq!(Felt::new(MODULUS as u32 - 1).add(Felt::new(2)).value(), 1);
}

#[test]
fn base_inverse() {
    assert!(Felt::zero().inverse().is_none());
    assert_eq!(Felt::one().inverse().unwrap().value(), 1);
    for x in [2u32, 3, 12345, MODULUS as u32 - 1, 1 << 30] {
        let i = Felt::new(x).inverse().unwrap();
        assert_eq!(Felt::new(x).mul(i).value(), 1, "x = {}", x);
    }
    // 2 * (p + 1) / 2 = p + 1 = 1
    assert_eq!(Felt::new(2).inverse().unwrap().value(), ((MODULUS + 1) / 2) as u32);
}

#[test]
fn extension_arithmetic() {
    // (1 + X)(1 - X) = 1 - X^2 = 1 - 11
    let a = ExtFelt::new(1, 1);
    let b = ExtFelt::new(1, MODULUS as u32 - 1);
    assert!(a.mul(b).equals(&ExtFelt::new(MODULUS as u32 - 10, 0)));
    assert!(ExtFelt::zero().inverse().is_none());
    for (c0, c1) in [(1u32, 0u32), (0, 1), (3, 7), (MODULUS as u32 - 1, 5), (123456789, 987654321)] {
        let x = ExtFelt::new(c0, c1);
        let i = x.inverse().unwrap();
        assert!(x.mul(i).equals(&ExtFelt::one()), "{} {}", c0, c1);
    }
    let x = ExtFelt::new(9, 4);
    assert!(x.sub(x).equals(&ExtFelt::zero()));
    assert!(x.add(ExtFelt::zero()).equals(&x));
}

#[test]
fn equality_is_by_residue() {
    assert_eq!(Felt { val: MODULUS as u32 }, Felt::zero());
    assert_eq!(Felt { val: MODULUS as u32 + 7 }, Felt::new(7));
    assert_ne!(Felt::new(1), Felt::new(2));
    assert_eq!(
        ExtFelt { c0: Felt { val: MODULUS as u32 + 1 }, c1: Felt::zero() },
        ExtFelt::one()
    );
}
