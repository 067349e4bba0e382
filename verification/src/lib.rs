//! Planar chained-segment kinematics on fixed-point coordinates.
//!
//! The crate models 2D points and angles as `i64` values scaled by
//! `fixed::ONE` (one ten-thousandth per unit), so every geometric
//! computation is exact integer arithmetic with floor division and can
//! carry a precise contract: angle normalisation into `[0, TWO_PI)`,
//! signed shortest angular distance, angle-constrained forward
//! kinematics, a forward-and-backward reaching inverse-kinematics pass,
//! and quadratic Bezier smoothing of contour polylines.

pub mod angle;
pub mod chain;
pub mod fixed;
pub mod spline;
pub mod vector;
