use collatz_app::collatz::{
    check_orbit, collatz, fast_collatz, fill_collatz, fill_fast_collatz, OrbitCheck,
};

#[test]
fn collatz_halves_even_and_triples_odd() {
    assert_eq!(collatz(6), 3);
    assert_eq!(collatz(7), 22);
    assert_eq!(collatz(1), 4);
    assert_eq!(collatz(0), 0);
    assert_eq!(collatz(1 << 63), 1 << 62);
}

#[test]
fn fast_collatz_keeps_only_odd_values() {
    assert_eq!(fast_collatz(6), 3);
    assert_eq!(fast_collatz(7), 11);
    assert_eq!(fast_collatz(1), 1);
    assert_eq!(fast_collatz(8), 1);
    assert_eq!(fast_collatz(5), 1);
    assert_eq!(fast_collatz(1 << 63), 1);
    assert_eq!(fast_collatz(96), 3);
}

#[test]
fn fill_collatz_records_trajectory_to_one() {
    let mut masks = vec![99, 98];
    fill_collatz(3, &mut masks);
    assert_eq!(masks, vec![10, 5, 16, 8, 4, 2, 1]);
    fill_collatz(1, &mut masks);
    assert_eq!(masks, vec![4, 2, 1]);
    fill_collatz(2, &mut masks);
    assert_eq!(masks, vec![1]);
}

#[test]
fn fill_fast_collatz_records_odd_trajectory() {
    let mut masks = vec![7];
    fill_fast_collatz(3, &mut masks);
    assert_eq!(masks, vec![5, 1]);
    fill_fast_collatz(6, &mut masks);
    assert_eq!(masks, vec![3, 5, 1]);
    fill_fast_collatz(1, &mut masks);
    assert_eq!(masks, vec![1]);
}

#[test]
fn fast_trajectory_is_plain_trajectory_without_even_steps() {
    let mut plain = Vec::new();
    let mut fast = Vec::new();
    fill_collatz(27, &mut plain);
    fill_fast_collatz(27, &mut fast);
    assert_eq!(plain.len(), 111);
    let odd_plain: Vec<u64> = plain.iter().copied().filter(|x| x % 2 == 1).collect();
    assert_eq!(odd_plain, fast);
    assert!(fast.iter().all(|x| x % 2 == 1));
}

#[test]
fn check_orbit_reports_arrival_fault_or_budget() {
    assert_eq!(check_orbit(false, 3, 100), OrbitCheck::Reaches(7));
    assert_eq!(check_orbit(false, 3, 7), OrbitCheck::Reaches(7));
    assert_eq!(check_orbit(false, 3, 6), OrbitCheck::Undecided);
    assert_eq!(check_orbit(true, 3, 2), OrbitCheck::Reaches(2));
    assert_eq!(check_orbit(false, 0, 50), OrbitCheck::Undecided);
    assert_eq!(check_orbit(true, 0, 10), OrbitCheck::Faults);
    assert_eq!(check_orbit(false, u64::MAX, 10), OrbitCheck::Faults);
    assert_eq!(check_orbit(false, 1, 0), OrbitCheck::Undecided);
}

#[test]
fn fast_trajectory_is_odd_values_of_plain_trajectory() {
    for init in [1u64, 2, 3, 6, 7, 9, 27, 97, 871, 1 << 40] {
        let mut plain = vec![0];
        let mut fast = vec![0];
        fill_collatz(init, &mut plain);
        fill_fast_collatz(init, &mut fast);
        let odd: Vec<u64> = plain.iter().copied().filter(|x| x % 2 == 1).collect();
        assert_eq!(fast, odd);
    }
    let mut plain = Vec::new();
    let mut fast = Vec::new();
    fill_collatz(6, &mut plain);
    fill_fast_collatz(6, &mut fast);
    assert_eq!(plain, vec![3, 10, 5, 16, 8, 4, 2, 1]);
    assert_eq!(fast, vec![3, 5, 1]);
}
