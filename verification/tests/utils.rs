use num_bigint::BigUint;
use snap_coin::utils::{clamp_i, max_256_bui, max_256_buf, slice_vec};

#[test]
fn clamp_i_inside_and_outside() {
    assert_eq!(clamp_i(5, 0, 10), 5);
    assert_eq!(clamp_i(-3, 0, 10), 0);
    assert_eq!(clamp_i(42, 0, 10), 10);
    // as x.max(min).min(max): an empty range gives the upper bound
    assert_eq!(clamp_i(5, 10, 0), 0);
    assert_eq!(clamp_i(i64::MIN, i64::MIN, i64::MAX), i64::MIN);
}

#[test]
fn max_buf_is_all_ones() {
    assert_eq!(max_256_buf(), [0xFFu8; 32]);
}

#[test]
fn max_bui_is_two_to_256_minus_one() {
    let expected = (BigUint::from(1u8) << 256u32) - BigUint::from(1u8);
    assert_eq!(max_256_bui(), expected);
}

#[test]
fn slice_vec_clamps() {
    let v = vec![1, 2, 3, 4, 5];
    assert_eq!(slice_vec(&v, 1, 3), &[2, 3]);
    assert_eq!(slice_vec(&v, 3, 100), &[4, 5]);
    assert!(slice_vec(&v, 5, 7).is_empty());
    assert!(slice_vec(&v, 9, 2).is_empty());
    assert!(slice_vec(&v, 2, 2).is_empty());
}
