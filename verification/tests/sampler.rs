use pathtracer::math::rank::ONE;
use pathtracer::rendering::sampler::accepts;
use pathtracer::rendering::sampler::SHORTEST;

fn rank(x: f64) -> i64 {
    if x.is_nan() {
        return i64::MIN;
    }
    let bits = x.to_bits() as i64;
    if bits >= 0 {
        bits
    } else {
        i64::MIN - bits
    }
}

#[test]
fn shortest_is_the_rank_of_its_number() {
    assert_eq!(SHORTEST, rank(1e-160));
}

#[test]
fn vectors_of_the_unit_ball_are_taken() {
    assert!(accepts(rank(1.0)));
    assert!(accepts(rank(0.5)));
    assert!(accepts(rank(1e-100)));
    assert!(accepts(rank(1.0001e-160)));
    assert!(accepts(ONE));
    assert!(accepts(SHORTEST + 1));
}

#[test]
fn vectors_outside_the_ball_or_too_short_are_thrown_away() {
    assert!(!accepts(rank(1.0000000000000002)));
    assert!(!accepts(rank(3.0)));
    assert!(!accepts(rank(f64::INFINITY)));
    assert!(!accepts(rank(1e-160)));
    assert!(!accepts(rank(1e-200)));
    assert!(!accepts(rank(5e-324)));
    assert!(!accepts(rank(0.0)));
    assert!(!accepts(rank(-0.5)));
    assert!(!accepts(rank(f64::NAN)));
    assert!(!accepts(ONE + 1));
    assert!(!accepts(SHORTEST));
}

#[test]
fn acceptance_is_that_of_real_arithmetic() {
    let mut x = 1e-170;
    while x < 10.0 {
        assert_eq!(accepts(rank(x)), 1e-160 < x && x <= 1.0, "{}", x);
        x *= 1.37;
    }
}
