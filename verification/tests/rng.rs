use ternary_sandbox::SeededRng;

#[test]
fn seeded_rng_deterministic() {
    let mut a = SeededRng::new(42);
    let mut b = SeededRng::new(42);
    for _ in 0..100 {
        assert_eq!(a.next_u64(), b.next_u64());
    }
}

#[test]
fn different_seeds_differ() {
    let mut a = SeededRng::new(1);
    let mut b = SeededRng::new(2);
    let mut same = true;
    for _ in 0..10 {
        if a.next_u64() != b.next_u64() {
            same = false;
            break;
        }
    }
    assert!(!same);
}

#[test]
fn next_int_in_range() {
    let mut rng = SeededRng::new(456);
    for _ in 0..1000 {
        let v = rng.next_int(3, 7);
        assert!(v >= 3 && v <= 7);
    }
}

#[test]
fn first_draws_of_seed_42() {
    let mut rng = SeededRng::new(42);
    assert_eq!(rng.next_u64(), 15021278609987233951);
    assert_eq!(rng.next_u64(), 5881210131331364753);
    assert_eq!(rng.next_u64(), 18149643915985481100);
}

#[test]
fn first_draws_of_seed_0() {
    let mut rng = SeededRng::new(0);
    assert_eq!(rng.next_u64(), 5987356902031041503);
    assert_eq!(rng.next_u64(), 7051070477665621255);
}

#[test]
fn next_int_is_offset_remainder_of_draw() {
    let mut rng = SeededRng::new(456);
    assert_eq!(rng.next_int(3, 7), 3 + (12178031851997149890u64 % 5) as i64);
}

#[test]
fn next_int_degenerate_range_keeps_state() {
    let mut rng = SeededRng::new(9);
    let mut twin = rng.clone();
    assert_eq!(rng.next_int(5, 5), 5);
    assert_eq!(rng.next_int(8, 2), 8);
    assert_eq!(rng.next_u64(), twin.next_u64());
}

#[test]
fn next_int_full_width_range() {
    let mut rng = SeededRng::new(3);
    for _ in 0..200 {
        let v = rng.next_int(-1_000_000_000_000, 1_000_000_000_000);
        assert!(v >= -1_000_000_000_000 && v <= 1_000_000_000_000);
    }
}

#[test]
fn clone_continues_same_stream() {
    let mut rng = SeededRng::new(77);
    rng.next_u64();
    let mut twin = rng.clone();
    for _ in 0..20 {
        assert_eq!(rng.next_u64(), twin.next_u64());
    }
}

#[test]
fn unit_numerator_is_top_53_bits() {
    let mut rng = SeededRng::new(123);
    let mut twin = rng.clone();
    for _ in 0..1000 {
        let v = rng.next_unit_numerator();
        assert_eq!(v, twin.next_u64() >> 11);
        let f = v as f64 / (1u64 << 53) as f64;
        assert!(f >= 0.0 && f < 1.0);
    }
}

#[test]
fn nearby_seeds_start_differently() {
    let mut a = SeededRng::new(1000);
    let mut b = SeededRng::new(1001);
    assert_ne!(a.next_u64(), b.next_u64());
}

#[test]
fn next_int_whole_i64_range() {
    let mut rng = SeededRng::new(31);
    let mut twin = rng.clone();
    for _ in 0..100 {
        let v = rng.next_int(i64::MIN, i64::MAX);
        assert_eq!(v as i128, i64::MIN as i128 + twin.next_u64() as i128);
    }
}

#[test]
fn next_int_wider_than_i64_max() {
    let mut rng = SeededRng::new(32);
    let mut twin = rng.clone();
    for _ in 0..100 {
        let v = rng.next_int(-10, i64::MAX);
        let width: u128 = i64::MAX as u128 + 11;
        let expected = -10i128 + (twin.next_u64() as u128 % width) as i128;
        assert_eq!(v as i128, expected);
        assert!(v >= -10);
    }
}
