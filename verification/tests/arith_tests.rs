use breathe::arith::{checked_lcm, gcd_u64};

#[test]
fn gcd_of_small_numbers() {
    assert_eq!(gcd_u64(6, 8), 2);
    assert_eq!(gcd_u64(7, 3), 1);
    assert_eq!(gcd_u64(0, 0), 0);
    assert_eq!(gcd_u64(0, 5), 5);
    assert_eq!(gcd_u64(5, 0), 5);
    assert_eq!(gcd_u64(12, 18), 6);
    assert_eq!(gcd_u64(u64::MAX, u64::MAX), u64::MAX);
    assert_eq!(gcd_u64(1 << 63, 1 << 20), 1 << 20);
}

#[test]
fn gcd_agrees_with_num_integer() {
    for a in 0..60u64 {
        for b in 0..60u64 {
            assert_eq!(gcd_u64(a, b), num_integer::gcd(a, b));
        }
    }
}

#[test]
fn lcm_of_small_numbers() {
    assert_eq!(checked_lcm(7, 3), Some(21));
    assert_eq!(checked_lcm(2, 4), Some(4));
    assert_eq!(checked_lcm(4, 6), Some(12));
    assert_eq!(checked_lcm(0, 0), Some(0));
    assert_eq!(checked_lcm(0, 9), Some(0));
    assert_eq!(checked_lcm(9, 0), Some(0));
    assert_eq!(checked_lcm(1, 1), Some(1));
    assert_eq!(checked_lcm(10, 4), Some(20));
    assert_eq!(checked_lcm(8, 9), Some(72));
}

#[test]
fn lcm_divides_every_common_multiple_and_is_one() {
    for a in 1..40u64 {
        for b in 1..40u64 {
            let m = checked_lcm(a, b).unwrap();
            assert!(m > 0 && m % a == 0 && m % b == 0);
            assert_eq!(m * gcd_u64(a, b), a * b);
            for k in 1..m {
                assert!(k % a != 0 || k % b != 0);
            }
        }
    }
}

#[test]
fn lcm_at_the_edge_of_u64() {
    assert_eq!(checked_lcm(u64::MAX, u64::MAX), Some(u64::MAX));
    assert_eq!(checked_lcm(u64::MAX, 1), Some(u64::MAX));
    assert_eq!(checked_lcm(u64::MAX, 2), None);
    assert_eq!(checked_lcm(1 << 63, 1 << 62), Some(1 << 63));
    assert_eq!(checked_lcm(1 << 63, 3), None);
    assert_eq!(checked_lcm(1 << 32, (1 << 32) - 1), Some(((1u64 << 32) - 1) << 32));
    assert_eq!(checked_lcm(1 << 32, (1 << 32) + 1), None);
    // 2^64 - 1 = 3 * 5 * 17 * 257 * 641 * 65537 * 6700417
    assert_eq!(checked_lcm(u64::MAX / 3, 3), Some(u64::MAX));
    assert_eq!(checked_lcm(u64::MAX / 3, 9), None);
}

#[test]
fn lcm_takes_its_arguments_in_either_order() {
    for a in 0..30u64 {
        for b in 0..30u64 {
            assert_eq!(checked_lcm(a, b), checked_lcm(b, a));
        }
        if a > 0 {
            assert_eq!(checked_lcm(1, a), Some(a));
        }
    }
    assert_eq!(checked_lcm(3, 1 << 63), None);
}
