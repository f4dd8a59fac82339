use avs_registry_service::U256;

#[test]
fn checked_add_carries_across_limbs() {
    let a = U256 { l0: u64::MAX, l1: u64::MAX, l2: 0, l3: 0 };
    let b = U256 { l0: 1, l1: 0, l2: 0, l3: 0 };
    assert_eq!(a.checked_add(&b), Some(U256 { l0: 0, l1: 0, l2: 1, l3: 0 }));
}

#[test]
fn checked_add_reports_overflow() {
    let max = U256 { l0: u64::MAX, l1: u64::MAX, l2: u64::MAX, l3: u64::MAX };
    let one = U256::from_u64(1);
    assert_eq!(max.checked_add(&one), None);
    assert_eq!(max.checked_add(&U256::zero()), Some(max));
}

#[test]
fn checked_add_small_values() {
    assert_eq!(
        U256::from_u64(100).checked_add(&U256::from_u64(50)),
        Some(U256::from_u64(150))
    );
}

#[test]
fn is_zero_looks_at_every_limb() {
    assert!(U256::zero().is_zero());
    assert!(!U256::from_u64(1).is_zero());
    assert!(!U256 { l0: 0, l1: 0, l2: 0, l3: 1 }.is_zero());
}
