use glitch_calc::glitch::{bit_flip, drift, factorial, SUCCESS_SCALE};
use glitch_calc::numbers::RandomNumbers;

#[test]
fn bit_flip_skips_greater_then_one_eligible() {
    // Coin draw 1 fails at rate 0. Bit positions 7 and 6 exceed 5, position 0
    // is the first eligible and is skipped, and the next draw, 3, is flipped.
    let mut rng = RandomNumbers::scripted(vec![1, 7, 6, 0, 3, 1], 0, 8);
    assert_eq!(bit_flip(&mut rng, 0, 0, 1, 5), 5 ^ 8);
}

#[test]
fn bit_flip_takes_next_draw_even_above_value() {
    // Position 2 (place value 4) is the first eligible and is skipped; the
    // next draw, 7, is flipped although 128 exceeds 5.
    let mut rng = RandomNumbers::scripted(vec![1, 2, 7, 0], 0, 8);
    assert_eq!(bit_flip(&mut rng, 0, 0, 1, 5), 133);
}

#[test]
fn bit_flip_large_value_takes_second_draw() {
    let mut rng = RandomNumbers::scripted(vec![1, 4, 6, 2], 0, 8);
    assert_eq!(bit_flip(&mut rng, 0, 1000, 3, 5000), 5000 ^ 64);
}

#[test]
fn bit_flip_guarded() {
    let mut rng = RandomNumbers::scripted(vec![1, 4, 6], 0, 8);
    assert_eq!(bit_flip(&mut rng, 0, 1000, 3, 1000), 1000);
    assert_eq!(bit_flip(&mut rng, 0, 1000, 0, 5000), 5000);
    assert_eq!(bit_flip(&mut rng, SUCCESS_SCALE as u32, 1000, 3, 5000), 5000);
}

#[test]
fn drift_moves_by_one() {
    let mut rng = RandomNumbers::scripted(vec![7, 1, 7, 0], 0, 8);
    assert_eq!(drift(&mut rng, 0, 0, 1, u64::MAX), 0);
    assert_eq!(drift(&mut rng, 0, 0, 1, 10), 9);
    let mut rng = RandomNumbers::scripted(vec![0], 0, 8);
    assert_eq!(drift(&mut rng, 0, 0, 1, 10), 10);
}

#[test]
fn factorial_direct() {
    let mut rng = RandomNumbers::new(0, 8);
    assert_eq!(factorial(&mut rng, SUCCESS_SCALE as u32, 1, 10), 3628800);
}

#[test]
fn random_numbers_stay_in_range() {
    let mut rng = RandomNumbers::new(3, 11);
    for _ in 0..500 {
        let v = rng.next();
        assert!((3..11).contains(&v));
    }
    let mut scripted = RandomNumbers::scripted(vec![13, 2], 10, 15);
    assert_eq!(scripted.next(), 13);
    assert_eq!(scripted.next(), 12);
    assert_eq!(scripted.next(), 10);
}

#[test]
fn bit_flip_stub_small_value() {
    // Coin draw 1 fails at rate 0; 128 and 8 exceed 5, 4 is the first
    // eligible and is skipped, the next draw (place value 1) is flipped.
    let mut rng = RandomNumbers::scripted(vec![1, 7, 3, 2, 0], 0, 8);
    assert_eq!(bit_flip(&mut rng, 0, 0, 1, 5), 4);
}

#[test]
fn bit_flip_stub_above_threshold() {
    // Half rate: coin draw 0.9 * 2^24 fails; 2 is skipped, 16 is flipped.
    let half = (SUCCESS_SCALE / 2) as u32;
    let coin = SUCCESS_SCALE * 9 / 10;
    let mut rng = RandomNumbers::scripted(vec![coin, 1, 4], 0, 8);
    assert_eq!(bit_flip(&mut rng, half, 1000, 1, 2000), 1984);
}

#[test]
fn bit_flip_changes_at_most_one_low_bit() {
    for _ in 0..300 {
        let mut rng = RandomNumbers::new(0, 8);
        let v: u64 = 123456789;
        let d = bit_flip(&mut rng, 0, 1000, 1, v) ^ v;
        assert!(d == 0 || (d.count_ones() == 1 && d < 256));
    }
}

#[test]
fn scripted_next_reduces_by_range_width() {
    let mut rng = RandomNumbers::scripted(vec![7, 100], 5, 8);
    assert_eq!(rng.next(), 6);
    assert_eq!(rng.next(), 6);
    assert_eq!(rng.next(), 5);
}
