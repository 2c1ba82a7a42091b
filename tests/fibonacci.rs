use fibonacci_sequence::fibonacci::{
    fib, fib_memoized, generate_sequence, generate_sequence_iterative, is_fibonacci_number,
};

#[test]
fn test_fib_basic() {
    assert_eq!(fib(0), 0);
    assert_eq!(fib(1), 1);
    assert_eq!(fib(2), 1);
    assert_eq!(fib(3), 2);
    assert_eq!(fib(4), 3);
    assert_eq!(fib(5), 5);
    assert_eq!(fib(10), 55);
}

#[test]
fn test_generate_sequence() {
    let seq = generate_sequence(5);
    assert_eq!(seq, vec![0, 1, 1, 2, 3, 5]);
}

#[test]
fn test_fib_memoized() {
    assert_eq!(fib_memoized(10), 55);
    assert_eq!(fib_memoized(20), 6765);
}

#[test]
fn test_generate_sequence_iterative() {
    let seq = generate_sequence_iterative(5);
    assert_eq!(seq, vec![0, 1, 1, 2, 3, 5]);
}

#[test]
fn test_is_fibonacci_number() {
    assert!(is_fibonacci_number(0));
    assert!(is_fibonacci_number(1));
    assert!(is_fibonacci_number(2));
    assert!(is_fibonacci_number(3));
    assert!(is_fibonacci_number(5));
    assert!(is_fibonacci_number(8));
    assert!(!is_fibonacci_number(4));
    assert!(!is_fibonacci_number(6));
    assert!(!is_fibonacci_number(7));
}

#[test]
fn recursive_and_memoized_agree_up_to_forty() {
    for n in 0..=30u32 {
        assert_eq!(fib(n), fib_memoized(n));
    }
    assert_eq!(fib_memoized(40), 102334155);
    let seq = generate_sequence(20);
    for (i, v) in seq.iter().enumerate() {
        assert_eq!(*v, fib(i as u32));
    }
}

#[test]
fn iterative_matches_recursive_generation() {
    for n in 0..=25u32 {
        assert_eq!(generate_sequence_iterative(n), generate_sequence(n));
    }
}

#[test]
fn iterative_generation_of_the_first_terms() {
    assert_eq!(generate_sequence_iterative(0), vec![0]);
    assert_eq!(generate_sequence_iterative(1), vec![0, 1]);
}

#[test]
fn largest_index_that_fits() {
    assert_eq!(fib_memoized(93), 12200160415121876738);
    let seq = generate_sequence_iterative(93);
    assert_eq!(seq.len(), 94);
    assert_eq!(seq[93], 12200160415121876738);
}

#[test]
fn ratio_of_neighbours_approaches_golden_ratio() {
    let phi = (1.0 + 5.0_f64.sqrt()) / 2.0;
    let mut last_error = f64::MAX;
    for n in 3..=30u32 {
        let ratio = fib_memoized(n) as f64 / fib_memoized(n - 1) as f64;
        let error = (ratio - phi).abs();
        assert!(error < last_error);
        last_error = error;
    }
    assert!(last_error < 1e-10);
}

#[test]
fn membership_of_small_numbers() {
    for x in [0u64, 1, 1, 2, 3, 5, 8, 13, 21, 34, 55] {
        assert!(is_fibonacci_number(x));
    }
    for x in [4u64, 6, 7, 9, 10, 11, 12] {
        assert!(!is_fibonacci_number(x));
    }
}

#[test]
fn membership_near_the_top_of_u64() {
    assert!(is_fibonacci_number(12200160415121876738));
    assert!(!is_fibonacci_number(12200160415121876737));
    assert!(!is_fibonacci_number(u64::MAX));
}
