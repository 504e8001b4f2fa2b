use raytracer_fx::fixed::{self, LIM, ONE};
use raytracer_fx::shading::{roulette, to_byte};
use raytracer_fx::vec3::Vec3;

#[test]
fn mul_and_div_exact_values() {
    assert_eq!(fixed::mul(2 * ONE, 3 * ONE), 6 * ONE);
    assert_eq!(fixed::mul(-ONE / 2, ONE / 2), -ONE / 4);
    assert_eq!(fixed::div(ONE, 2 * ONE), ONE / 2);
    assert_eq!(fixed::div(-3 * ONE, 2 * ONE), -3 * ONE / 2);
    // rounding goes toward zero on both signs
    assert_eq!(fixed::mul(3, ONE / 2), 1);
    assert_eq!(fixed::mul(-3, ONE / 2), -1);
}

#[test]
fn operations_saturate() {
    assert_eq!(fixed::add(LIM, LIM), LIM);
    assert_eq!(fixed::sub(-LIM, LIM), -LIM);
    assert_eq!(fixed::mul(i64::MAX, i64::MAX), LIM);
    assert_eq!(fixed::neg(i64::MIN), LIM);
    assert_eq!(fixed::div(LIM, 1), LIM);
    assert_eq!(fixed::div(ONE, 1), ONE * ONE);
}

#[test]
fn square_roots() {
    assert_eq!(fixed::sqrt(4 * ONE), 2 * ONE);
    assert_eq!(fixed::sqrt(ONE), ONE);
    assert_eq!(fixed::sqrt(2 * ONE), 92681);
    assert_eq!(fixed::sqrt(0), 0);
    assert_eq!(fixed::sqrt(-ONE), 0);
}

#[test]
fn vector_products() {
    let a = Vec3::new(ONE, 2 * ONE, 3 * ONE);
    let b = Vec3::new(4 * ONE, -5 * ONE, 6 * ONE);
    assert_eq!(a.dot(&b), 12 * ONE);
    assert_eq!(a.cross(&b), Vec3::new(27 * ONE, 6 * ONE, -13 * ONE));
    assert_eq!(a.length_squared(), 14 * ONE);
    assert_eq!(a.add(&b), Vec3::new(5 * ONE, -3 * ONE, 9 * ONE));
    assert_eq!(a.mul(&b), Vec3::new(4 * ONE, -10 * ONE, 18 * ONE));
}

#[test]
fn unit_vector_of_three_four_five() {
    let v = Vec3::new(3 * ONE, 4 * ONE, 0);
    assert_eq!(v.length(), 5 * ONE);
    assert_eq!(v.unit(), Vec3::new(39321, 52428, 0));
    assert_eq!(Vec3::zero().unit(), Vec3::zero());
}

#[test]
fn gamma_bytes() {
    assert_eq!(to_byte(-5 * ONE), 0);
    assert_eq!(to_byte(0), 0);
    assert_eq!(to_byte(ONE / 4), 128);
    assert_eq!(to_byte(ONE / 2), 180);
    assert_eq!(to_byte(ONE), 255);
    assert_eq!(to_byte(3 * ONE), 255);
}

#[test]
fn gamma_bytes_stay_in_range_and_rise() {
    let mut last = 0u8;
    let mut c = -ONE;
    while c <= 2 * ONE {
        let b = to_byte(c);
        assert!(b >= last);
        last = b;
        c += 997;
    }
    assert_eq!(last, 255);
}

#[test]
fn roulette_ends_or_rescales() {
    let t = Vec3::new(ONE / 2, ONE / 4, 0);
    assert_eq!(roulette(t, ONE / 2), None);
    assert_eq!(roulette(t, ONE - 1), None);
    assert_eq!(roulette(t, 0), Some(Vec3::new(ONE, ONE / 2, 0)));
    assert_eq!(roulette(Vec3::zero(), 0), None);
}

#[test]
fn roulette_keeps_the_mean_throughput() {
    let t = Vec3::new(ONE / 3, ONE / 5, 7);
    let mut total = [0i64; 3];
    for draw in 0..ONE {
        if let Some(s) = roulette(t, draw) {
            total[0] += s.x;
            total[1] += s.y;
            total[2] += s.z;
        }
    }
    let p = t.x;
    for (sum, c) in total.iter().zip([t.x, t.y, t.z]) {
        assert!(*sum <= ONE * c);
        assert!(*sum > ONE * c - p);
    }
}
