//! Two-dimensional geometric primitives — points, line segments and circular
//! arcs — with a uniform parametric representation, nearest-point search and
//! point intersection.
//!
//! All coordinates and angles are exact fixed-point scalars ([`Fx`]), so every
//! arithmetic step has a precise contract; the trigonometric evaluations are
//! taken from the `cordic` crate and named, not computed here.

mod angle;
mod fx;
mod shape;
mod trig;

pub use shape::{Point, Shape, fxb, pt_add, pt_sub, pt_scale, pt_dot, pt_dist, arc_angle,
    arc_point, param_spec, seg_t, arc_size, arc_offset, arc_sweep, nearpoints_spec,
    zero_candidates, intersect_spec, lemma_dist_zero_iff, lemma_dist_symmetric,
    lemma_param_segment_ends,
    lemma_param_arc_ends, lemma_intersect_points, lemma_intersect_exact, lemma_nearpoints_dist,
    lemma_seg_t_clamped,
    lemma_nearpoints_point_self, lemma_nearpoints_segment_start, lemma_nearpoints_segment_end,
    lemma_nearpoints_arc_start};

pub use angle::{PI_BITS, TAU_BITS, norm_residue, norm_turns, delta_spec, norm_angle, angle_delta,
    lemma_delta_range};
pub use trig::{HALF_PI_BITS, cos_of, sin_of, atan2_of, cos_model, sin_model, theta_model, cos_fx,
    sin_fx, theta_of};
pub use fx::{Fx, SCALE, fx_add, fx_sub, fx_neg, fx_mul, fx_div, sat64, iabs, tdiv, is_floor_sqrt,
    sqrt_floor, lemma_floor_sqrt_unique, lemma_sqrt_floor_exists, lemma_sqrt_floor_positive};
