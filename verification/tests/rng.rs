use kobayashi::rng::Rng;

#[test]
fn splitmix64_deterministic() {
    let mut a = Rng::new(7);
    let mut b = Rng::new(7);
    for _ in 0..100 {
        assert_eq!(a.next_u64(), b.next_u64());
    }
}

#[test]
fn splitmix64_different_seeds_differ() {
    let mut a = Rng::new(1);
    let mut b = Rng::new(2);
    assert_ne!(a.next_u64(), b.next_u64());
}

#[test]
fn splitmix64_reference_values() {
    let mut r = Rng::new(0);
    assert_eq!(r.next_u64(), 0xe220a8397b1dcdaf);
    assert_eq!(r.next_u64(), 0x6e789e6aa1b965f4);
    assert_eq!(r.next_u64(), 0x06c45d188009454f);
    let mut s = Rng::new(7);
    assert_eq!(s.next_u64(), 0x63cbe1e459320dd7);
    assert_eq!(s.next_u64(), 0x044c3cd7f43c661c);
}

#[test]
fn splitmix64_copy_continues_identically() {
    let mut a = Rng::new(42);
    a.next_u64();
    let mut b = a;
    for _ in 0..50 {
        assert_eq!(a.next_u64(), b.next_u64());
    }
}
