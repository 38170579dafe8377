use particle_life::natural::{at_most, mul_small, power};

fn number(limbs: &[u32]) -> u128 {
    let mut value: u128 = 0;
    for limb in limbs.iter().rev() {
        value = (value << 32) | *limb as u128;
    }
    value
}

#[test]
fn mul_small_carries_into_the_next_limb() {
    assert_eq!(mul_small(&vec![], 7), Vec::<u32>::new());
    assert_eq!(mul_small(&vec![3], 7), vec![21]);
    assert_eq!(mul_small(&vec![u32::MAX], 2), vec![u32::MAX - 1, 1]);
    assert_eq!(mul_small(&vec![u32::MAX, u32::MAX], u32::MAX), vec![1, u32::MAX, u32::MAX - 1]);
    assert_eq!(number(&mul_small(&vec![5, 0, 0], 3)), 15);
    assert_eq!(number(&mul_small(&vec![0x8000_0000, 1], 0)), 0);
}

#[test]
fn mul_small_multiplies() {
    for a in [0u128, 1, 999, 1 << 31, (1 << 32) - 1, 1 << 32, 123_456_789_012_345, (1 << 90) + 17] {
        for m in [0u32, 1, 2, 1_000_000, u32::MAX] {
            let limbs = vec![a as u32, (a >> 32) as u32, (a >> 64) as u32];
            assert_eq!(number(&mul_small(&limbs, m)), a * m as u128);
        }
    }
}

#[test]
fn power_raises_a_limb() {
    assert_eq!(number(&power(0, 0)), 1);
    assert_eq!(number(&power(0, 5)), 0);
    assert_eq!(number(&power(7, 0)), 1);
    assert_eq!(number(&power(2, 100)), 1 << 100);
    assert_eq!(number(&power(1_000_000, 4)), 1_000_000_000_000_000_000_000_000);
    assert_eq!(number(&power(840_896, 4)), 499_999_012_355_387_850_489_856);
    assert_eq!(power(2, 320).len(), 11);
}

#[test]
fn at_most_orders_numbers_of_any_length() {
    assert!(at_most(&vec![], &vec![]));
    assert!(at_most(&vec![], &vec![0, 0]));
    assert!(at_most(&vec![0, 0, 0], &vec![]));
    assert!(at_most(&vec![5], &vec![5, 0]));
    assert!(at_most(&vec![5, 0], &vec![5]));
    assert!(at_most(&vec![u32::MAX], &vec![0, 1]));
    assert!(!at_most(&vec![0, 1], &vec![u32::MAX]));
    assert!(at_most(&vec![9, 3], &vec![1, 4]));
    assert!(!at_most(&vec![1, 4], &vec![9, 3]));
    assert!(at_most(&vec![1, 4], &vec![2, 4]));
    assert!(!at_most(&vec![2, 4], &vec![1, 4]));
    assert!(!at_most(&vec![0, 0, 1], &vec![u32::MAX, u32::MAX]));
}
