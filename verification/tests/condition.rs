use kobayashi::condition::{round_in_inclusive_first_n, round_index_in_inclusive_range};

#[test]
fn round_in_inclusive_first_n_matches_round_range_min_1() {
    for n in [1u32, 5u32, 15u32] {
        for r in 1u32..=n {
            assert!(round_in_inclusive_first_n(r, n), "r={r} n={n} should be in range");
            assert!(round_index_in_inclusive_range(r, 1, n));
        }
        assert!(!round_in_inclusive_first_n(n + 1, n));
        assert!(!round_in_inclusive_first_n(0, n));
    }
    assert!(!round_in_inclusive_first_n(1, 0));
}

#[test]
fn inclusive_range_bounds() {
    assert!(round_index_in_inclusive_range(3, 3, 3));
    assert!(!round_index_in_inclusive_range(2, 3, 5));
    assert!(!round_index_in_inclusive_range(6, 3, 5));
    assert!(!round_index_in_inclusive_range(4, 5, 3));
    assert!(round_index_in_inclusive_range(u32::MAX, 0, u32::MAX));
}
