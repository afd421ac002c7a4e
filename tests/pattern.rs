use raytracer_challenge::pattern::{checkers_band, gradient_start, ring_band, stripe_band, Band};

#[test]
fn stripe_alternates_with_cells() {
    assert_eq!(stripe_band(0), Band::First);
    assert_eq!(stripe_band(1), Band::Second);
    assert_eq!(stripe_band(-1), Band::Second);
    assert_eq!(stripe_band(-2), Band::First);
    assert_eq!(stripe_band(i64::MIN), Band::First);
    assert_eq!(stripe_band(i64::MAX), Band::Second);
}

#[test]
fn ring_alternates_with_distance() {
    assert_eq!(ring_band(0), Band::First);
    assert_eq!(ring_band(1), Band::Second);
    assert_eq!(ring_band(2), Band::First);
}

#[test]
fn checkers_alternate_in_each_axis() {
    assert_eq!(checkers_band(0, 0, 0), Band::First);
    assert_eq!(checkers_band(1, 0, 0), Band::Second);
    assert_eq!(checkers_band(0, 1, 0), Band::Second);
    assert_eq!(checkers_band(0, 0, 1), Band::Second);
    assert_eq!(checkers_band(1, 1, 0), Band::First);
    assert_eq!(checkers_band(-1, 0, 0), Band::Second);
    assert_eq!(checkers_band(i64::MAX, i64::MAX, 0), Band::First);
}

#[test]
fn gradient_direction_flips_per_cell() {
    assert_eq!(gradient_start(0), Band::First);
    assert_eq!(gradient_start(1), Band::Second);
    assert_eq!(gradient_start(-1), Band::Second);
}
