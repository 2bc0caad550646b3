use collatz_app::base2::{base2_steps, base2_steps_fit};

#[test]
fn base2_steps_from_even_base() {
    let mut masks = vec![9; 6];
    base2_steps(6, &mut masks);
    assert_eq!(masks, vec![3, 12, 7, 19, 19, 0]);
}

#[test]
fn base2_steps_from_odd_base() {
    let mut masks = vec![1; 9];
    base2_steps(5, &mut masks);
    assert_eq!(masks, vec![20, 11, 31, 31, 124, 63, 187, 187, 0]);
}

#[test]
fn base2_steps_short_list_is_cleared_after_head() {
    let mut masks = vec![4, 4, 4];
    base2_steps(8, &mut masks);
    assert_eq!(masks, vec![1, 0, 0]);
    let mut masks = vec![4, 4];
    base2_steps(3, &mut masks);
    assert_eq!(masks, vec![0, 0]);
    let mut masks: Vec<u64> = Vec::new();
    base2_steps(3, &mut masks);
    assert!(masks.is_empty());
}

#[test]
fn base2_steps_fit_detects_faults() {
    assert!(!base2_steps_fit(0, 5));
    assert!(!base2_steps_fit(2, 0));
    assert!(!base2_steps_fit(u64::MAX, 4));
    assert!(base2_steps_fit(u64::MAX, 3));
    assert!(base2_steps_fit(1, 0));
    assert!(base2_steps_fit(6, 6));
    assert!(base2_steps_fit(1 << 62, 5));
}

#[test]
fn base2_steps_wraps_the_shift() {
    let mut masks = vec![0; 4];
    base2_steps((1 << 62) + 1, &mut masks);
    assert_eq!(masks[0], 4);
    assert_eq!(masks[1], (1 << 63) + 3);
    assert_eq!(masks[2], (1 << 63) + 7);
    assert_eq!(masks[3], (1 << 63) + 7);
}
