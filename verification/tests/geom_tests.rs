use geom::{Fx, Point, Shape, SCALE, PI_BITS, TAU_BITS, HALF_PI_BITS, norm_angle, angle_delta};

fn fx(v: f64) -> Fx {
    Fx::from_bits((v * 4294967296.0_f64).round() as i64)
}

fn to_f64(v: Fx) -> f64 {
    v.bits as f64 / 4294967296.0_f64
}

fn pt(x: f64, y: f64) -> Point {
    Point { x: fx(x), y: fx(y) }
}

fn approx(a: f64, b: f64, tol: f64) -> bool {
    (a - b).abs() <= tol
}

#[test]
fn param_segment_ends_exact() {
    let a = pt(1.5, -2.25);
    let b = pt(3.0, 4.5);
    let s = Shape::Segment(a, b);
    assert_eq!(s.param(fx(0.0)), a);
    assert_eq!(s.param(fx(1.0)), b);
}

#[test]
fn param_segment_midpoint_exact() {
    let s = Shape::Segment(pt(0.0, 0.0), pt(10.0, 0.0));
    assert_eq!(s.param(fx(0.5)), pt(5.0, 0.0));
}

#[test]
fn param_arc_start_exact() {
    let s = Shape::Arc { center: pt(0.0, 0.0), radius: fx(1.0), start: fx(0.0), circ: Fx::from_bits(HALF_PI_BITS) };
    assert_eq!(s.param(fx(0.0)), pt(1.0, 0.0));
}

#[test]
fn param_arc_end_quarter_turn() {
    let s = Shape::Arc { center: pt(0.0, 0.0), radius: fx(1.0), start: fx(0.0), circ: Fx::from_bits(HALF_PI_BITS) };
    let p = s.param(fx(1.0));
    assert!(approx(to_f64(p.x), 0.0, 1e-3));
    assert!(approx(to_f64(p.y), 1.0, 1e-3));
}

#[test]
fn param_arc_half_turn_negates_cosine() {
    let s = Shape::Arc { center: pt(0.0, 0.0), radius: fx(1.0), start: fx(0.0), circ: Fx::from_bits(PI_BITS) };
    let p = s.param(fx(1.0));
    assert!(approx(to_f64(p.x), -1.0, 1e-3));
    assert!(approx(to_f64(p.y), 0.0, 1e-3));
}

#[test]
fn nearpoints_point_at_itself() {
    let p = pt(2.0, -7.5);
    let r = Shape::Point(p).nearpoints(p);
    assert_eq!(r.len(), 1);
    assert_eq!(r[0], (fx(0.0), fx(0.0)));
}

#[test]
fn nearpoints_point_distance() {
    let r = Shape::Point(pt(0.0, 0.0)).nearpoints(pt(3.0, 4.0));
    assert_eq!(r.len(), 1);
    assert_eq!(r[0], (fx(5.0), fx(0.0)));
}

#[test]
fn nearpoints_segment_own_start() {
    let a = pt(1.0, 2.0);
    let b = pt(4.0, 6.0);
    let r = Shape::Segment(a, b).nearpoints(a);
    assert_eq!(r.len(), 1);
    assert_eq!(r[0], (fx(0.0), fx(0.0)));
}

#[test]
fn nearpoints_segment_scenario() {
    let s = Shape::Segment(pt(0.0, 0.0), pt(10.0, 0.0));
    let r = s.nearpoints(pt(5.0, 5.0));
    assert_eq!(r.len(), 1);
    let (d, t) = r[0];
    assert_eq!(t, fx(0.5));
    assert_eq!(d, fx(5.0));
    assert_eq!(s.param(t), pt(5.0, 0.0));
}

#[test]
fn nearpoints_segment_clamps_high() {
    let s = Shape::Segment(pt(0.0, 0.0), pt(10.0, 0.0));
    let r = s.nearpoints(pt(20.0, 3.0));
    assert_eq!(r.len(), 1);
    assert_eq!(r[0].1, fx(1.0));
}

#[test]
fn nearpoints_segment_clamps_low() {
    let s = Shape::Segment(pt(0.0, 0.0), pt(10.0, 0.0));
    let r = s.nearpoints(pt(-5.0, 1.0));
    assert_eq!(r.len(), 1);
    assert_eq!(r[0].1, fx(0.0));
}

#[test]
fn nearpoints_degenerate_segment_falls_back() {
    let a = pt(2.0, 2.0);
    let s = Shape::Segment(a, a);
    let r = s.nearpoints(pt(5.0, 6.0));
    assert_eq!(r.len(), 1);
    assert_eq!(r[0].1, fx(0.0));
    assert_eq!(r[0].0, fx(5.0));
}

#[test]
fn nearpoints_arc_scenario_quarter() {
    let s = Shape::Arc {
        center: pt(0.0, 0.0),
        radius: fx(10.0),
        start: fx(0.0),
        circ: Fx::from_bits(HALF_PI_BITS),
    };
    let r = s.nearpoints(pt(10.0, 10.0));
    assert_eq!(r.len(), 1);
    let (d, t) = r[0];
    assert!(approx(to_f64(t), 0.5, 1e-3));
    assert!(approx(to_f64(d), 4.142135, 1e-2));
    let p = s.param(t);
    assert!(approx(to_f64(p.x), 7.0710678, 1e-2));
    assert!(approx(to_f64(p.y), 7.0710678, 1e-2));
}

#[test]
fn nearpoints_arc_two_full_turns() {
    let s = Shape::Arc {
        center: pt(0.0, 0.0),
        radius: fx(1.0),
        start: fx(0.0),
        circ: Fx::from_bits(2 * TAU_BITS),
    };
    let r = s.nearpoints(pt(1.0, 0.0));
    assert_eq!(r.len(), 2);
    assert_eq!(r[0], (fx(0.0), fx(0.0)));
    assert_eq!(r[1], (fx(0.0), fx(0.5)));
}

#[test]
fn nearpoints_arc_endpoint_candidates() {
    // A quarter arc from angle 0 to pi/2, queried from a direction opposite
    // the sweep: both endpoints are boundary extrema, and the sweep itself
    // contributes no interior candidate before the extent is passed.
    let s = Shape::Arc {
        center: pt(0.0, 0.0),
        radius: fx(1.0),
        start: fx(0.0),
        circ: Fx::from_bits(HALF_PI_BITS),
    };
    let r = s.nearpoints(pt(1.0, -1.0));
    assert!(r.iter().any(|&(_, t)| t == fx(0.0)));
    assert!(!r.iter().any(|&(_, t)| t == fx(1.0)));
}

#[test]
fn nearpoints_arc_clockwise_endpoint() {
    // A clockwise quarter arc from pi/2 down to 0, queried at its end point:
    // the end is a boundary extremum with exact distance 0, and the sweep
    // offset lands exactly on the extent, so no interior candidate appears.
    let s = Shape::Arc {
        center: pt(0.0, 0.0),
        radius: fx(1.0),
        start: Fx::from_bits(HALF_PI_BITS),
        circ: Fx::from_bits(-HALF_PI_BITS),
    };
    let r = s.nearpoints(pt(1.0, 0.0));
    assert_eq!(r.len(), 1);
    assert_eq!(r[0], (fx(0.0), fx(1.0)));
}

#[test]
fn nearpoints_arc_query_straight_above() {
    // A query on the positive y axis has polar angle exactly pi/2, half way
    // along a half-turn arc that starts at angle 0.
    let s = Shape::Arc {
        center: pt(0.0, 0.0),
        radius: fx(1.0),
        start: fx(0.0),
        circ: Fx::from_bits(PI_BITS),
    };
    let r = s.nearpoints(pt(0.0, 5.0));
    assert_eq!(r.len(), 1);
    let (d, t) = r[0];
    assert_eq!(t, fx(0.5));
    assert!(approx(to_f64(d), 4.0, 1e-2));
}

#[test]
fn intersect_points_equal() {
    let p = pt(1.25, -3.5);
    let q = pt(1.25, -3.5);
    let r = Shape::Point(p).intersect(&Shape::Point(q));
    assert_eq!(r.len(), 1);
    assert_eq!(r[0], Shape::Point(p));
}

#[test]
fn intersect_points_differ() {
    let r = Shape::Point(pt(1.0, 2.0)).intersect(&Shape::Point(pt(1.0, 2.5)));
    assert_eq!(r.len(), 0);
}

#[test]
fn intersect_point_on_segment() {
    let s = Shape::Segment(pt(0.0, 0.0), pt(10.0, 0.0));
    let r = Shape::Point(pt(5.0, 0.0)).intersect(&s);
    assert_eq!(r.len(), 1);
    assert_eq!(r[0], Shape::Point(pt(5.0, 0.0)));
}

#[test]
fn intersect_point_off_segment() {
    let s = Shape::Segment(pt(0.0, 0.0), pt(10.0, 0.0));
    let r = Shape::Point(pt(5.0, 1.0)).intersect(&s);
    assert_eq!(r.len(), 0);
}

#[test]
fn intersect_point_on_multi_turn_arc() {
    let s = Shape::Arc {
        center: pt(0.0, 0.0),
        radius: fx(1.0),
        start: fx(0.0),
        circ: Fx::from_bits(2 * TAU_BITS),
    };
    let r = Shape::Point(pt(1.0, 0.0)).intersect(&s);
    assert_eq!(r.len(), 2);
    assert_eq!(r[0], Shape::Point(pt(1.0, 0.0)));
    assert_eq!(r[1], Shape::Point(pt(1.0, 0.0)));
}

#[test]
fn intersect_segment_pairs_empty() {
    let s = Shape::Segment(pt(0.0, 0.0), pt(1.0, 1.0));
    let o = Shape::Segment(pt(0.0, 1.0), pt(1.0, 0.0));
    assert_eq!(s.intersect(&o).len(), 0);
}

#[test]
fn angle_delta_of_equal_angles_is_zero() {
    assert_eq!(angle_delta(fx(1.23), fx(1.23)), fx(0.0));
    assert_eq!(angle_delta(fx(-7.5), fx(-7.5)), fx(0.0));
}

#[test]
fn angle_delta_exact_small_difference() {
    assert_eq!(angle_delta(fx(0.5), fx(0.25)), fx(-0.25));
    assert_eq!(angle_delta(fx(0.25), fx(0.5)), fx(0.25));
}

#[test]
fn angle_delta_stays_in_half_turn_range() {
    let samples = [-100.0, -7.5, -3.2, -0.1, 0.0, 0.1, 3.2, 7.5, 100.0];
    for &a in samples.iter() {
        for &b in samples.iter() {
            let d = angle_delta(fx(a), fx(b)).bits;
            assert!(-PI_BITS <= d && d <= PI_BITS);
        }
    }
}

#[test]
fn angle_delta_wraps_multi_turn() {
    // 3*pi ahead is the same direction as pi behind, up to rounding.
    let d = angle_delta(fx(0.0), fx(3.0 * std::f64::consts::PI));
    assert!(approx(to_f64(d).abs(), std::f64::consts::PI, 1e-4));
}

#[test]
fn norm_angle_negative_input() {
    let (residue, turns) = norm_angle(fx(-0.1));
    assert_eq!(turns, -1);
    assert_eq!(residue.bits, TAU_BITS - 429496730);
    assert_eq!(residue.bits as i128 + turns as i128 * TAU_BITS as i128, fx(-0.1).bits as i128);
}

#[test]
fn norm_angle_beyond_full_turn() {
    let (residue, turns) = norm_angle(fx(7.0));
    assert_eq!(turns, 1);
    assert_eq!(residue.bits, fx(7.0).bits - TAU_BITS);
}

#[test]
fn scalar_arithmetic_exact() {
    assert_eq!(fx(1.5).times(fx(2.5)), fx(3.75));
    assert_eq!(fx(1.5).plus(fx(2.25)), fx(3.75));
    assert_eq!(fx(1.5).minus(fx(2.25)), fx(-0.75));
    assert_eq!(fx(-2.0).times(fx(3.0)), fx(-6.0));
    assert_eq!(fx(6.0).over(fx(3.0)), fx(2.0));
}

#[test]
fn scalar_division_truncates() {
    let third = fx(1.0).over(fx(3.0));
    assert_eq!(third.bits, 1431655765);
    let minus_third = fx(-1.0).over(fx(3.0));
    assert_eq!(minus_third.bits, -1431655765);
}

#[test]
fn scalar_saturation() {
    assert_eq!(Fx::from_bits(i64::MAX).plus(Fx::from_bits(1)).bits, i64::MAX);
    assert_eq!(Fx::from_bits(i64::MIN).minus(Fx::from_bits(1)).bits, i64::MIN);
    assert_eq!(Fx::from_bits(i64::MIN).negate().bits, i64::MAX);
}

#[test]
fn scalar_sqrt_rounds_down() {
    assert_eq!(fx(4.0).sqrt(), fx(2.0));
    assert_eq!(fx(2.0).sqrt().bits, 6074000999);
    assert_eq!(fx(0.0).sqrt(), fx(0.0));
}

#[test]
fn point_distance_exact() {
    assert_eq!(pt(1.0, 2.0).dist(pt(4.0, 6.0)), fx(5.0));
    assert_eq!(pt(4.0, 6.0).dist(pt(1.0, 2.0)), fx(5.0));
    assert_eq!(pt(-3.0, 0.5).dist(pt(-3.0, 0.5)), fx(0.0));
}

#[test]
fn distance_zero_only_when_identical() {
    // One representation unit (2^-32) apart: the distance is exactly one
    // unit, never 0 — no internal tolerance.
    let origin = Point { x: Fx::from_bits(0), y: Fx::from_bits(0) };
    let nudged = Point { x: Fx::from_bits(1), y: Fx::from_bits(0) };
    assert_eq!(origin.dist(nudged).bits, 1);
    assert_eq!(nudged.dist(origin).bits, 1);
    // A 3-4-5 triangle at unit scale is exact.
    let tiny = Point { x: Fx::from_bits(3), y: Fx::from_bits(4) };
    assert_eq!(origin.dist(tiny).bits, 5);
}

#[test]
fn intersect_point_near_segment_is_empty() {
    // A point 2^-15 above the segment is not on it: the candidate distance
    // is nonzero at the representation's resolution, so no intersection.
    let s = Shape::Segment(pt(0.0, 0.0), pt(10.0, 0.0));
    let just_off = Point { x: fx(5.0), y: Fx::from_bits(131072) };
    assert_eq!(Shape::Point(just_off).intersect(&s).len(), 0);
    let r = s.nearpoints(just_off);
    assert_eq!(r.len(), 1);
    assert_eq!(r[0].0.bits, 131072);
}

#[test]
fn point_algebra_exact() {
    assert_eq!(pt(1.0, 2.0).plus(pt(0.5, -3.0)), pt(1.5, -1.0));
    assert_eq!(pt(1.0, 2.0).minus(pt(0.5, -3.0)), pt(0.5, 5.0));
    assert_eq!(pt(1.5, -2.0).scale(fx(2.0)), pt(3.0, -4.0));
    assert_eq!(pt(1.0, 2.0).dot(pt(3.0, 4.0)), fx(11.0));
}

#[test]
fn scale_constant_is_one() {
    assert_eq!(fx(1.0).bits, SCALE);
    assert_eq!(fx(1.0).times(fx(42.5)), fx(42.5));
}
