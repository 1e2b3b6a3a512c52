use swage::rng::Rng;

#[test]
fn test_rng_clone() {
    let mut rng = Rng::from_seed(0x42);
    let a = rng.next_u64();
    let mut cloned_rng = rng.clone();
    let b = cloned_rng.next_u64();
    assert_eq!(a, b, "Cloned Rng should start with the same seed");
}

#[test]
fn generator_goes_on_and_keeps_its_seed() {
    let mut rng = Rng::from_seed(0x42);
    let a = rng.next_u64();
    let b = rng.next_u64();
    assert_ne!(a, b);
    assert_eq!(rng.seed(), 0x42);
    let mut other = Rng::from_seed(0x43);
    assert_ne!(other.next_u64(), a);
    let mut bytes = Rng::from_seed(1);
    let drawn: Vec<u8> = (0..64).map(|_| bytes.next_byte()).collect();
    assert!(drawn.iter().any(|&b| b != drawn[0]));
}

#[test]
fn stream_depends_on_seed_and_position_alone() {
    let mut a = Rng::from_seed(5);
    let mut b = Rng::from_seed(5);
    for _ in 0..100 {
        assert_eq!(a.next_u64(), b.next_u64());
        assert_eq!(a.next_byte(), b.next_byte());
    }
    // A copy has the seed and starts at the beginning of the stream.
    let mut copy = a.clone();
    assert_eq!(copy.seed(), 5);
    let mut fresh = Rng::from_seed(5);
    assert_eq!(copy.next_u64(), fresh.next_u64());
    assert_eq!(copy.next_byte(), fresh.next_byte());
    assert_ne!(copy.next_u64(), a.next_u64());
}
