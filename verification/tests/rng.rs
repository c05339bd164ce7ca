use rust_arpg::rng::{seed_from_elapsed, SplitMix64, ZERO_SEED_FALLBACK};

#[test]
fn same_seed_produces_same_sequence() {
    let mut a = SplitMix64::new(123);
    let mut b = SplitMix64::new(123);

    for _ in 0..8 {
        assert_eq!(a.next_u64(), b.next_u64());
    }
}

#[test]
fn seed_123_produces_the_splitmix64_reference_values() {
    let mut rng = SplitMix64::new(123);
    let expected: [u64; 8] = [
        13032462758197477675,
        18015028434894305148,
        15857969311440292840,
        12669193153758659071,
        12656037256202479922,
        12305648938738823696,
        18445630141902671134,
        8897914972836847537,
    ];
    for value in expected {
        assert_eq!(rng.next_u64(), value);
    }
}

#[test]
fn zero_seed_uses_the_fallback_seed() {
    let mut zero = SplitMix64::new(0);
    let mut fallback = SplitMix64::new(0xA2F1_9C37_5D4B_E821);
    assert_eq!(zero.next_u64(), 6660940938179378403);
    assert_eq!(fallback.next_u64(), 6660940938179378403);
}

#[test]
fn next_usize_of_zero_returns_zero_without_drawing() {
    let mut rng = SplitMix64::new(123);
    assert_eq!(rng.next_usize(0), 0);
    assert_eq!(rng.next_u64(), 13032462758197477675);
}

#[test]
fn next_usize_reduces_the_draw_modulo_max() {
    let mut rng = SplitMix64::new(123);
    assert_eq!(rng.next_usize(1000), (13032462758197477675u64 % 1000) as usize);
    for max in 1..50usize {
        assert!(rng.next_usize(max) < max);
    }
}

#[test]
fn entropy_seeded_generators_draw() {
    let mut rng = SplitMix64::default();
    let _ = rng.next_u64();
    let mut other = SplitMix64::from_entropy();
    assert!(other.next_usize(7) < 7);
}

#[test]
fn clock_reading_keeps_the_low_64_bits_of_the_nanoseconds() {
    assert_eq!(seed_from_elapsed(Some(1_700_000_000_123_456_789)), 1_700_000_000_123_456_789);
    assert_eq!(seed_from_elapsed(Some(u64::MAX as u128 + 5)), 4);
    assert_eq!(seed_from_elapsed(Some(1u128 << 64)), 0);
}

#[test]
fn clock_before_the_epoch_gives_the_fallback_seed() {
    assert_eq!(seed_from_elapsed(None), 0xA2F1_9C37_5D4B_E821);
    assert_eq!(seed_from_elapsed(None), ZERO_SEED_FALLBACK);
}
