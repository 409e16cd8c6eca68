use root_world::fixed::{clamp_wide, floor_div, isqrt, Fixed, UNIT};
use root_world::id::{Id, IdGenerator};
use root_world::vector::{square, Vec2};

fn fx(raw: i64) -> Fixed {
    Fixed::from_raw(raw)
}

#[test]
fn identifiers_start_at_zero_and_grow() {
    let mut ids = IdGenerator::new();
    assert!(ids.has_next());
    assert_eq!(ids.remaining(), usize::MAX);
    let a = ids.gen();
    let b = ids.gen();
    let c = ids.gen();
    assert_eq!(a.raw(), 0);
    assert_eq!(b.raw(), 1);
    assert_eq!(c.raw(), 2);
    assert_ne!(a, b);
    assert_eq!(ids.remaining(), usize::MAX - 3);
}

#[test]
fn identifier_shows_its_number() {
    assert_eq!(Id(41).raw(), 41);
}

#[test]
fn unit_is_a_million() {
    assert_eq!(UNIT, 1_000_000);
    assert_eq!(Fixed::from_int(3).raw, 3_000_000);
    assert_eq!(Fixed::from_int(-2).raw, -2_000_000);
}

#[test]
fn sums_and_differences() {
    assert_eq!(fx(1_500_000).plus(fx(2_250_000)), fx(3_750_000));
    assert_eq!(fx(1_500_000).minus(fx(2_250_000)), fx(-750_000));
}

#[test]
fn sums_stop_at_the_ends_of_the_range() {
    assert_eq!(fx(i64::MAX).plus(fx(1)), fx(i64::MAX));
    assert_eq!(fx(i64::MIN).minus(fx(1)), fx(i64::MIN));
    assert_eq!(fx(i64::MIN).abs(), fx(i64::MAX));
    assert_eq!(fx(i64::MAX).times(fx(2_000_000)), fx(i64::MAX));
}

#[test]
fn products_round_down() {
    assert_eq!(fx(1_500_000).times(fx(2_000_000)), fx(3_000_000));
    assert_eq!(fx(-1_500_000).times(fx(500_000)), fx(-750_000));
    assert_eq!(fx(1).times(fx(1)), fx(0));
    assert_eq!(fx(-1).times(fx(1)), fx(-1));
}

#[test]
fn quotients_round_down() {
    assert_eq!(fx(1_000_000).over(fx(3_000_000)), fx(333_333));
    assert_eq!(fx(-1_000_000).over(fx(3_000_000)), fx(-333_334));
    assert_eq!(fx(1_000_000).over(fx(-3_000_000)), fx(-333_334));
    assert_eq!(fx(50_000).over(fx(100_000)), fx(500_000));
}

#[test]
fn quotient_by_zero_goes_to_the_end_of_the_range() {
    assert_eq!(fx(5).over(fx(0)), fx(i64::MAX));
    assert_eq!(fx(-5).over(fx(0)), fx(i64::MIN));
    assert_eq!(fx(0).over(fx(0)), fx(0));
}

#[test]
fn floor_goes_towards_the_surface() {
    assert_eq!(fx(2_700_000).floor(), 2);
    assert_eq!(fx(-500_000).floor(), -1);
    assert_eq!(fx(-1_000_000).floor(), -1);
    assert_eq!(fx(0).floor(), 0);
    assert_eq!(fx(i64::MAX).floor(), i32::MAX);
    assert_eq!(fx(i64::MIN).floor(), i32::MIN);
}

#[test]
fn half_min_max_abs() {
    assert_eq!(fx(100_000).half(), fx(50_000));
    assert_eq!(fx(-3).half(), fx(-2));
    assert_eq!(fx(3).min(fx(4)), fx(3));
    assert_eq!(fx(3).max(fx(4)), fx(4));
    assert_eq!(fx(-7).abs(), fx(7));
}

#[test]
fn wide_numbers_are_narrowed() {
    assert_eq!(clamp_wide(5), 5);
    assert_eq!(clamp_wide(i128::MAX), i64::MAX);
    assert_eq!(clamp_wide(i128::MIN + 1), i64::MIN);
}

#[test]
fn floor_division() {
    assert_eq!(floor_div(7, 2), 3);
    assert_eq!(floor_div(-7, 2), -4);
    assert_eq!(floor_div(-8, 2), -4);
    assert_eq!(floor_div(0, 5), 0);
}

#[test]
fn integer_square_roots() {
    assert_eq!(isqrt(0), 0);
    assert_eq!(isqrt(1), 1);
    assert_eq!(isqrt(15), 3);
    assert_eq!(isqrt(16), 4);
    assert_eq!(isqrt(17), 4);
    assert_eq!(isqrt(u128::MAX), u64::MAX);
    assert_eq!(isqrt(25_000_000_000_000), 5_000_000);
}

#[test]
fn squares() {
    assert_eq!(square(-3), 9);
    assert_eq!(square(i64::MIN), 1u128 << 126);
}

#[test]
fn vector_sums_and_scaling() {
    let a = Vec2::new(fx(1_000_000), fx(2_000_000));
    let b = Vec2::new(fx(500_000), fx(-500_000));
    assert_eq!(a.plus(b), Vec2::new(fx(1_500_000), fx(1_500_000)));
    assert_eq!(a.minus(b), Vec2::new(fx(500_000), fx(2_500_000)));
    assert_eq!(a.scale(fx(50_000)), Vec2::new(fx(50_000), fx(100_000)));
    assert_eq!(a.shrink(fx(2_000_000)), Vec2::new(fx(500_000), fx(1_000_000)));
    assert_eq!(Vec2::zero(), Vec2::new(fx(0), fx(0)));
}

#[test]
fn vector_length_and_direction() {
    let v = Vec2::new(fx(3_000_000), fx(4_000_000));
    assert_eq!(v.len_sq(), 25_000_000_000_000);
    assert_eq!(v.normalize(), Vec2::new(fx(600_000), fx(800_000)));
    let w = Vec2::new(fx(-3_000_000), fx(4_000_000));
    assert_eq!(w.normalize(), Vec2::new(fx(-600_000), fx(800_000)));
    assert_eq!(Vec2::zero().normalize(), Vec2::zero());
}

#[test]
fn vector_is_shortened_to_the_cap() {
    let v = Vec2::new(fx(3_000_000), fx(4_000_000));
    assert_eq!(v.clamp_len(fx(2_500_000)), Vec2::new(fx(1_500_000), fx(2_000_000)));
    assert_eq!(v.clamp_len(fx(5_000_000)), v);
    assert_eq!(v.clamp_len(fx(10_000_000)), v);
    assert_eq!(v.clamp_len(fx(-1)), Vec2::zero());
}
