use rand::rngs::StdRng;
use rand::SeedableRng;
use rogue::rng::{dice_sum, percent_hit, RogueRng};

#[test]
fn rnd_is_bounded_and_zero_safe() {
    let mut rng = StdRng::seed_from_u64(1);
    assert_eq!(rng.rnd(0), 0);
    assert_eq!(rng.rnd(-5), 0);
    for _ in 0..1000 {
        let v = rng.rnd(6);
        assert!((0..6).contains(&v));
    }
}

#[test]
fn roll_in_range() {
    let mut rng = StdRng::seed_from_u64(2);
    for _ in 0..1000 {
        let v = rng.roll(2, 6);
        assert!((2..=12).contains(&v));
    }
}

#[test]
fn roll_without_dice_is_zero() {
    let mut rng = StdRng::seed_from_u64(5);
    assert_eq!(rng.roll(0, 6), 0);
    assert_eq!(rng.roll(3, 0), 0);
    assert_eq!(rng.roll(-2, 4), 0);
    assert_eq!(rng.roll(4, 1), 4);
}

#[test]
fn percent_extremes() {
    let mut rng = StdRng::seed_from_u64(9);
    for _ in 0..200 {
        assert!(!rng.percent(0));
        assert!(rng.percent(100));
    }
}

#[test]
fn dice_add_up_their_draws() {
    assert_eq!(dice_sum(&vec![0, 5, 2], 6), 10);
    assert_eq!(dice_sum(&vec![], 6), 0);
    assert!(percent_hit(19, 20));
    assert!(!percent_hit(20, 20));
    assert!(!percent_hit(0, 0));
}
