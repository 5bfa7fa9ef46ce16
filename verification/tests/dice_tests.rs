use robot_chase::dice::{Dice, FACTOR, INCREMENT};

#[test]
fn first_roll_from_zero_shows_the_upper_half_of_the_increment() {
    let mut dice = Dice::seeded(0);
    assert_eq!(dice.roll(), 335903614);
    assert_eq!(INCREMENT >> 32, 335903614);
}

#[test]
fn rolls_follow_the_congruential_step() {
    let mut dice = Dice::seeded(0);
    assert_eq!(dice.roll(), 335903614);
    assert_eq!(dice.roll(), 436792849);
    assert_eq!(dice.roll(), 2599843874);
    let mut state: u64 = 42;
    let mut other = Dice::seeded(42);
    for _ in 0..100 {
        state = state.wrapping_mul(FACTOR).wrapping_add(INCREMENT);
        assert_eq!(other.roll(), state >> 32);
    }
}

#[test]
fn roll_from_the_largest_seed_wraps_around() {
    let mut dice = Dice::seeded(u64::MAX);
    assert_eq!(dice.roll(), 3149104977);
}

#[test]
fn roll_below_reduces_the_roll() {
    let mut dice = Dice::seeded(0);
    assert_eq!(dice.roll_below(740), 594);
    assert_eq!(dice.roll_below(740), 449);
    assert_eq!(dice.roll_below(10), 4);
    let mut one = Dice::seeded(99);
    for _ in 0..20 {
        assert_eq!(one.roll_below(1), 0);
    }
}

#[test]
fn equal_seeds_roll_alike() {
    let mut a = Dice::seeded(2024);
    let mut b = Dice::seeded(2024);
    for _ in 0..50 {
        assert_eq!(a.roll(), b.roll());
    }
}
