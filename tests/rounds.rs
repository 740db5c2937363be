use kfold_proofs::rounds::{calc_d, next_power_of_k, reconstruct_round_lengths};

#[test]
fn round_lengths_pad_then_divide() {
    assert_eq!(reconstruct_round_lengths(16, 4, 1), vec![16, 4]);
    assert_eq!(reconstruct_round_lengths(16, 4, 2), vec![16, 4, 1]);
    assert_eq!(reconstruct_round_lengths(10, 3, 3), vec![10, 4, 2, 1]);
    assert_eq!(reconstruct_round_lengths(7, 2, 0), vec![7]);
    assert_eq!(reconstruct_round_lengths(0, 3, 2), vec![0, 0, 0]);
}

#[test]
fn round_lengths_are_deterministic() {
    let a = reconstruct_round_lengths(1000, 5, 4);
    let b = reconstruct_round_lengths(1000, 5, 4);
    assert_eq!(a, b);
    assert_eq!(a, vec![1000, 200, 40, 8, 2]);
}

#[test]
fn next_power_of_k_values() {
    assert_eq!(next_power_of_k(0, 4), 1);
    assert_eq!(next_power_of_k(1, 4), 1);
    assert_eq!(next_power_of_k(16, 4), 16);
    assert_eq!(next_power_of_k(17, 4), 64);
    assert_eq!(next_power_of_k(1000, 10), 1000);
    assert_eq!(next_power_of_k(1001, 10), 10000);
    assert_eq!(next_power_of_k(5, 2), 8);
}

#[test]
fn calc_d_values() {
    assert_eq!(calc_d(4096, 4), 6);
    assert_eq!(calc_d(1000, 10), 3);
    assert_eq!(calc_d(1001, 10), 4);
    assert_eq!(calc_d(1, 4), 1);
    assert_eq!(calc_d(0, 2), 1);
    assert_eq!(calc_d(16, 4), 2);
}
