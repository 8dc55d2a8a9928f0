//! Per-class model: a labeled collection of 2-D points and, once fitting
//! has been performed, one normal-distribution parameter pair per axis.

use vstd::prelude::*;
use crate::bits::{is_finite_bits, is_pos_finite_bits, check_finite_bits, check_pos_finite_bits};

verus! {

/// The failures the library reports: a malformed token in the input, a
/// degenerate distribution during fitting, or a lookup of an unknown
/// class id.
#[derive(Clone, Copy, Debug, PartialEq, Eq, Structural)]
pub enum ModelError {
    /// A token that should be an integer id or a real number is not one.
    Parse,
    /// A class's parameters do not describe a valid pair of normal
    /// distributions.
    Distribution,
    /// The queried class id was never observed.
    NotFound,
}

/// A 2-D observation.  Each coordinate is the IEEE-754 bit pattern of the
/// double-precision value, so the model stays on plain integers.
#[derive(Clone, Copy, Debug, PartialEq, Eq, Structural)]
pub struct Point {
    pub x: u64,
    pub y: u64,
}

/// Mean and standard deviation of one coordinate's marginal distribution,
/// as IEEE-754 bit patterns.
#[derive(Clone, Copy, Debug, PartialEq, Eq, Structural)]
pub struct AxisStats {
    pub mean: u64,
    pub std_dev: u64,
}

/// The fitted parameters of a class: one (mean, standard deviation) pair
/// for the x marginal and one for the y marginal.
#[derive(Clone, Copy, Debug, PartialEq, Eq, Structural)]
pub struct FittedParams {
    pub x: AxisStats,
    pub y: AxisStats,
}

/// A parameter pair describes a valid normal distribution: the mean is
/// finite and the standard deviation is strictly positive and finite.
pub open spec fn axis_valid(a: AxisStats) -> bool {
    &&& is_finite_bits(a.mean)
    &&& is_pos_finite_bits(a.std_dev)
}

/// Both marginals of a fitted-parameter set are valid normal distributions.
pub open spec fn params_valid(p: FittedParams) -> bool {
    axis_valid(p.x) && axis_valid(p.y)
}

/// Whether a parameter pair describes a valid normal distribution.
pub fn check_axis_valid(a: &AxisStats) -> (r: bool)
    ensures
        r == axis_valid(*a),
{
    check_finite_bits(a.mean) && check_pos_finite_bits(a.std_dev)
}

/// One labeled class: its id, the points observed for it, and the fitted
/// distribution parameters once `generate_distribution` has accepted a set.
#[derive(Debug)]
pub struct Class {
    id: i32,
    points: Vec<Point>,
    fitted: Option<FittedParams>,
}

impl Class {
    /// The class id.
    pub closed spec fn id_spec(&self) -> i32 {
        self.id
    }

    /// The points observed for this class, in insertion order.
    pub closed spec fn points_spec(&self) -> Seq<Point> {
        self.points@
    }

    /// The fitted parameters, absent until fitting succeeds.
    pub closed spec fn fitted_spec(&self) -> Option<FittedParams> {
        self.fitted
    }

    /// A new, not yet fitted class holding the given points.
    pub fn new(id: i32, points: Vec<Point>) -> (c: Class)
        ensures
            c.id_spec() == id,
            c.points_spec() == points@,
            c.fitted_spec() is None,
    {
        Class { id, points, fitted: None }
    }

    /// The class id.
    pub fn id(&self) -> (r: i32)
        ensures
            r == self.id_spec(),
    {
        self.id
    }

    /// The points observed for this class.
    pub fn points(&self) -> (r: &Vec<Point>)
        ensures
            r@ == self.points_spec(),
    {
        &self.points
    }

    /// Appends one observation to the class.
    pub fn push_point(&mut self, p: Point)
        ensures
            final(self).id_spec() == old(self).id_spec(),
            final(self).points_spec() == old(self).points_spec().push(p),
            final(self).fitted_spec() == old(self).fitted_spec(),
    {
        self.points.push(p);
    }

    /// The fitted parameters, or an absent result when the model has not
    /// been fit; scoring a class is only defined once this is present.
    pub fn fitted_params(&self) -> (r: Option<FittedParams>)
        ensures
            r == self.fitted_spec(),
    {
        self.fitted
    }

    /// Validates the per-axis statistics computed from this class's points
    /// (the arithmetic mean and the sample standard deviation of each
    /// coordinate, handed in by the caller) and installs them as the fitted
    /// distribution parameters.  Fails with `Distribution` when the class
    /// has fewer than two points — the sample standard deviation of a
    /// single observation is undefined — or when a mean is not finite or a
    /// standard deviation is not strictly positive and finite; on failure
    /// the class is unchanged.
    pub fn generate_distribution(&mut self, params: FittedParams) -> (r: Result<(), ModelError>)
        ensures
            r is Ok <==> old(self).points_spec().len() >= 2 && params_valid(params),
            r is Ok ==> final(self).fitted_spec() == Some(params),
            r is Err ==> *final(self) == *old(self) && r == Err::<(), ModelError>(ModelError::Distribution),
            final(self).id_spec() == old(self).id_spec(),
            final(self).points_spec() == old(self).points_spec(),
    {
        if self.points.len() < 2 {
            return Err(ModelError::Distribution);
        }
        if check_axis_valid(&params.x) && check_axis_valid(&params.y) {
            self.fitted = Some(params);
            Ok(())
        } else {
            Err(ModelError::Distribution)
        }
    }
}

} // verus!
