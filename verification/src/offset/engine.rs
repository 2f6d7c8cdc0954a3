//! The offset engine's working representation and its `flo_curves` calls.
//!
//! A [`Curve`] is a cubic bezier whose coordinates are bit patterns of
//! IEEE-754 doubles; a [`BezPath`] is a connected sequence of such curves.
//! The bezier mathematics — offsetting, arc-length walking, fitting,
//! interior-point removal — is `flo_curves`' work and stands behind trusted
//! declarations; restructuring that the crate's source shows to be plain
//! (a path into its curves and back) is reimplemented and verified here.

use vstd::prelude::*;

use crate::path::point::{Coord, Point};
use flo_curves::bezier::path::path_remove_interior_points;
use flo_curves::bezier::{curve_is_tiny, fit_curve, offset, walk_curve_evenly};
use flo_curves::bezier::path::SimpleBezierPath as FloPath;
use flo_curves::bezier::Curve as FloCurve;
use flo_curves::bezier::{BezierCurve, BezierCurveFactory};
use flo_curves::geo::Coord2 as FloCoord2;
use flo_curves::geo::Coordinate;

verus! {

/// A cubic bezier curve of the offset engine.  Lines are carried as
/// degenerate cubics whose control points equal their endpoints; quadratics
/// are lifted to cubic form.
#[derive(Debug, Clone, Copy, PartialEq, Eq, Structural)]
pub struct Curve {
    pub start: Coord,
    pub cp1: Coord,
    pub cp2: Coord,
    pub end: Coord,
}

/// A connected bezier path of the offset engine: a start point and, per
/// curve, its two control points and endpoint.
#[derive(Debug, Clone)]
pub struct BezPath {
    pub start: Coord,
    pub segs: Vec<(Coord, Coord, Coord)>,
}

impl View for BezPath {
    type V = (Coord, Seq<(Coord, Coord, Coord)>);

    open spec fn view(&self) -> (Coord, Seq<(Coord, Coord, Coord)>) {
        (self.start, self.segs@)
    }
}

impl Curve {
    /// True iff any coordinate of the curve is a double-precision NaN
    /// pattern.
    pub open spec fn spec_has_nan(&self) -> bool {
        self.start.spec_has_nan() || self.cp1.spec_has_nan() || self.cp2.spec_has_nan()
            || self.end.spec_has_nan()
    }

    /// Exec check for a NaN coordinate.
    pub fn has_nan(&self) -> (r: bool)
        ensures
            r == self.spec_has_nan(),
    {
        self.start.has_nan() || self.cp1.has_nan() || self.cp2.has_nan() || self.end.has_nan()
    }
}

#[verifier::external_type_specification]
#[verifier::external_body]
pub struct ExCoord2(FloCoord2);

/// Builds the double `m * 2^k` (sign and the two non-finite classes given
/// by the flags) from exact power-of-two scaling; the arithmetic backbone of
/// the bit-pattern reconstructions below.
#[verifier::external_body]
pub(crate) fn scaled64(m: u64, k0: i32, neg: bool, inf: bool, nan: bool) -> (r: FloCoord2)
    ensures
        r == scaled64_val(m, k0, neg, inf, nan),
{
    let two = FloCoord2(2 as _, 2 as _).0;
    let mut v = FloCoord2(m as _, 2 as _).0;
    if inf {
        v = two / (v - v);
    } else if nan {
        v = (v - v) / (v - v);
    } else {
        let mut k: i32 = k0;
        while k != 0 { if k < 0 { v = v / two; k += 1; } else { v = v * two; k -= 1; } }
    }
    FloCoord2(if neg { -v } else { v }, v)
}

/// The value that [`scaled64`] builds.
pub uninterp spec fn scaled64_val(m: u64, k0: i32, neg: bool, inf: bool, nan: bool) -> FloCoord2;

/// The coord holding the bit patterns of a `flo_curves` point's components.
pub uninterp spec fn bits_val(p: FloCoord2) -> Coord;

/// Relies on std's `to_bits`: the IEEE-754 bit patterns of the point's two
/// components.
#[verifier::external_body]
pub(crate) fn coord_bits(p: FloCoord2) -> (r: Coord)
    ensures
        r == bits_val(p),
{
    Coord { x: p.0.to_bits(), y: p.1.to_bits() }
}

/// The pair of IEEE-754 double values that a coord's bit patterns denote, as
/// `flo_curves`' point type.
pub uninterp spec fn coord2_val(c: Coord) -> FloCoord2;

/// Relies on the IEEE-754 encoding alone: rebuilds, for `flo_curves`, the
/// double-precision values that the coord's bit patterns denote (the inverse
/// of `to_bits`), exactly, by scaling the stored significand with powers of
/// two.  A NaN pattern rebuilds as a NaN without its payload, so the named
/// results of the engine's calls are functions of the bit patterns alone.
#[verifier::external_body]
pub(crate) fn coord2_of(c: Coord) -> (r: FloCoord2)
    ensures
        r == coord2_val(c),
{
    let f = |b: u64| {
        let e: i32 = ((b >> 52) & 0x7ff) as i32;
        let m: u64 = (b & 0xf_ffff_ffff_ffff) + (e != 0) as u64 * 0x10_0000_0000_0000;
        let k: i32 = e - 1075 + (e == 0) as i32;
        scaled64(m, k, b >> 63 == 1, e == 0x7ff && m == 0x10_0000_0000_0000, e == 0x7ff && m > 0x10_0000_0000_0000).0
    };
    FloCoord2(f(c.x), f(c.y))
}

/// The offset curves that `flo_curves` produces for this curve and these
/// start- and end-side distances.
pub uninterp spec fn offsets_of(c: Curve, d_start: u64, d_end: u64) -> Seq<Curve>;

/// Relies on `flo_curves::bezier::offset`: the curves approximating this
/// curve displaced along its normal, a function of the curve and the two
/// distances alone.
#[verifier::external_body]
pub(crate) fn offset_curve(c: &Curve, d_start: u64, d_end: u64) -> (r: Vec<Curve>)
    ensures
        r@ == offsets_of(*c, d_start, d_end),
{
    let fc: FloCurve<FloCoord2> = BezierCurveFactory::from_points(coord2_of(c.start), (coord2_of(c.cp1), coord2_of(c.cp2)), coord2_of(c.end));
    let ds = coord2_of(Coord { x: d_start, y: d_end });
    offset(&fc, ds.0, ds.1).into_iter().map(|o: FloCurve<FloCoord2>| { let (c1, c2) = o.control_points(); Curve { start: coord_bits(o.start_point()), cp1: coord_bits(c1), cp2: coord_bits(c2), end: coord_bits(o.end_point()) } }).collect()
}

/// Whether `flo_curves` considers this curve tiny (numerical noise).
pub uninterp spec fn tiny_of(c: Curve) -> bool;

/// Relies on `flo_curves::bezier::curve_is_tiny`: whether the curve's extent
/// is below the crate's fixed tiny-length threshold, a function of the curve
/// alone.
#[verifier::external_body]
pub(crate) fn is_tiny_curve(c: &Curve) -> (r: bool)
    ensures
        r == tiny_of(*c),
{
    let fc: FloCurve<FloCoord2> = BezierCurveFactory::from_points(coord2_of(c.start), (coord2_of(c.cp1), coord2_of(c.cp2)), coord2_of(c.end));
    curve_is_tiny(&fc)
}

/// The points sampled along this curve when it is walked at the given step
/// and error tolerance, one per walked interval at its parametric midpoint.
pub uninterp spec fn samples_of(c: Curve, step: u64, max_error: u64) -> Seq<Coord>;

/// Relies on `flo_curves::bezier::walk_curve_evenly` and
/// `BezierCurve::point_at_pos`: walks the curve in even chord-length steps
/// and takes the midpoint (t = 0.5) of each section; a function of the curve,
/// the step and the tolerance alone.  The curve must be NaN-free: the
/// crate's walk never reaches its exit conditions on NaN coordinates.
#[verifier::external_body]
pub(crate) fn sample_curve(c: &Curve, step: u64, max_error: u64) -> (r: Vec<Coord>)
    requires
        !c.spec_has_nan(),
    ensures
        r@ == samples_of(*c, step, max_error),
{
    let fc: FloCurve<FloCoord2> = BezierCurveFactory::from_points(coord2_of(c.start), (coord2_of(c.cp1), coord2_of(c.cp2)), coord2_of(c.end));
    let ds = coord2_of(Coord { x: step, y: max_error });
    let one = FloCoord2::origin().0.exp();
    walk_curve_evenly(&fc, ds.0, ds.1).map(|s| coord_bits(s.point_at_pos(one / (one + one)))).collect()
}

/// The curves that `flo_curves`' fitting produces for this point cloud and
/// maximum error, if any.
pub uninterp spec fn fit_of(points: Seq<Coord>, max_error: u64) -> Option<Seq<Curve>>;

/// Relies on `flo_curves::bezier::fit_curve`: fits a connected curve
/// sequence through the points within the given maximum error; a function of
/// the points and the error alone.  The crate's source returns `None` for
/// fewer than two points.
#[verifier::external_body]
pub(crate) fn fit_points(points: &Vec<Coord>, max_error: u64) -> (r: Option<Vec<Curve>>)
    ensures
        match fit_of(points@, max_error) {
            Option::None => r is None,
            Option::Some(cs) => r matches Some(v) && v@ == cs,
        },
        points@.len() < 2 ==> r is None,
{
    let pts: Vec<FloCoord2> = points.iter().map(|p| coord2_of(*p)).collect();
    let err = coord2_of(Coord { x: max_error, y: max_error });
    fit_curve::<FloCurve<FloCoord2>>(&pts, err.0).map(|cs| cs.into_iter().map(|o| { let (c1, c2) = o.control_points(); Curve { start: coord_bits(o.start_point()), cp1: coord_bits(c1), cp2: coord_bits(c2), end: coord_bits(o.end_point()) } }).collect())
}

/// The simplified paths that `flo_curves`' interior-point removal produces
/// for this path and accuracy.
pub uninterp spec fn cleaned_of(
    bp: (Coord, Seq<(Coord, Coord, Coord)>),
    accuracy: u64,
) -> Seq<(Coord, Seq<(Coord, Coord, Coord)>)>;

/// Relies on `flo_curves::bezier::path::path_remove_interior_points`:
/// removes self-intersections and interior loops, leaving the outline
/// contours; a function of the path and the accuracy alone.
#[verifier::external_body]
pub(crate) fn remove_interior(bp: &BezPath, accuracy: u64) -> (r: Vec<BezPath>)
    ensures
        r@.map_values(|b: BezPath| b@) == cleaned_of(bp@, accuracy),
{
    let cv = |p: &Coord| coord2_of(*p);
    let fp: FloPath = (cv(&bp.start), bp.segs.iter().map(|s| (cv(&s.0), cv(&s.1), cv(&s.2))).collect());
    let acc = coord2_of(Coord { x: accuracy, y: accuracy });
    let cleaned: Vec<FloPath> = path_remove_interior_points(&vec![fp], acc.0);
    cleaned.into_iter().map(|(st, sg)| BezPath { start: coord_bits(st), segs: sg.into_iter().map(|t| (coord_bits(t.0), coord_bits(t.1), coord_bits(t.2))).collect() }).collect()
}

/// The control points that lifting places between `from` and the quadratic
/// control point `ctrl`, at the blend factor whose bits are `factor`
/// (`from + (ctrl - from) * factor`, in doubles).
pub uninterp spec fn lift_of(from: Coord, ctrl: Coord, factor: u64) -> Coord;

/// Relies on `flo_curves::geo::Coord2`'s vector arithmetic (`Add`, `Sub`,
/// `Mul<f64>`): computes `from + (ctrl - from) * factor`, the cubic control
/// point of a lifted quadratic; a function of the three arguments alone.
#[verifier::external_body]
pub(crate) fn lift_control(from: Coord, ctrl: Coord, factor: u64) -> (r: Coord)
    ensures
        r == lift_of(from, ctrl, factor),
{
    let a = coord2_of(from);
    let c = coord2_of(ctrl);
    let f = coord2_of(Coord { x: factor, y: factor });
    let v = a + (c - a) * f.0;
    Coord { x: v.0.to_bits(), y: v.1.to_bits() }
}

/// The distance that `flo_curves` reports between two coords.
pub uninterp spec fn dist_of(a: Coord, b: Coord) -> u64;

/// Relies on `flo_curves::geo::Coordinate::distance_to`: the euclidean
/// distance between the two points, a function of the two coords alone.  As
/// a square root it is non-negative or NaN, so its sign bit is clear unless
/// the NaN pattern is set.
#[verifier::external_body]
pub(crate) fn dist_between(a: Coord, b: Coord) -> (r: u64)
    ensures
        r == dist_of(a, b),
        crate::float_bits::spec_is_nan64(r) || r < 0x8000_0000_0000_0000u64,
{
    coord2_of(a).distance_to(&coord2_of(b)).to_bits()
}

/// The double-precision values of a point's single-precision bit patterns.
pub uninterp spec fn widen_of(b: u32) -> u64;

/// Relies on std's lossless widening conversion from singles to doubles
/// (`From<f32> for f64`): a function of the bit pattern alone.
#[verifier::external_body]
pub(crate) fn widen_point(p: Point) -> (r: Coord)
    ensures
        r.x == widen_of(p.x),
        r.y == widen_of(p.y),
{
    let q = crate::path::geometry::lyon_point_of(p);
    let wx: FloCoord2 = FloCoord2(q.x.into(), q.y.into());
    Coord { x: wx.0.to_bits(), y: wx.1.to_bits() }
}

/// The single-precision bit pattern nearest to a double's value (the
/// rounding that an `as` cast performs).
pub uninterp spec fn narrow_of(b: u64) -> u32;

/// Relies on Rust's double-to-single `as` conversion (IEEE round to
/// nearest): a function of the bit pattern alone.  NaN patterns are left
/// out: Rust does not specify which NaN an `as` cast yields, so nothing
/// deterministic could be named of them.
#[verifier::external_body]
pub(crate) fn narrow_bits(b: u64) -> (r: u32)
    requires
        !crate::float_bits::spec_is_nan64(b),
    ensures
        r == narrow_of(b),
{
    let d = coord2_of(Coord { x: b, y: b });
    let q = lyon::math::point(d.0 as _, d.1 as _);
    q.x.to_bits()
}

// --- Verified restructuring -------------------------------------------------

/// The curves of a connected path: each triple becomes a curve whose start
/// is the previous endpoint (mirrors what `flo_curves`' `to_curves` shows).
pub open spec fn spec_path_curves(bp: (Coord, Seq<(Coord, Coord, Coord)>)) -> Seq<Curve> {
    Seq::new(
        bp.1.len(),
        |i: int|
            Curve {
                start: if i == 0 {
                    bp.0
                } else {
                    bp.1[i - 1].2
                },
                cp1: bp.1[i].0,
                cp2: bp.1[i].1,
                end: bp.1[i].2,
            },
    )
}

/// Splits a connected path into its curves.
pub(crate) fn path_curves(bp: &BezPath) -> (r: Vec<Curve>)
    ensures
        r@ == spec_path_curves(bp@),
{
    let n = bp.segs.len();
    let mut out: Vec<Curve> = Vec::new();
    let mut cur: Coord = bp.start;
    let mut i: usize = 0;
    while i < n
        invariant
            i <= n,
            n == bp.segs@.len(),
            out@.len() == i,
            cur == (if i == 0 {
                bp@.0
            } else {
                bp.segs@[i as int - 1].2
            }),
            forall|k: int| 0 <= k < i ==> out@[k] == spec_path_curves(bp@)[k],
        decreases n - i,
    {
        let (c1, c2, to) = bp.segs[i];
        out.push(Curve { start: cur, cp1: c1, cp2: c2, end: to });
        cur = to;
        i += 1;
    }
    proof {
        assert(out@ =~= spec_path_curves(bp@));
    }
    out
}

/// The connected path of a curve sequence: the first curve's start (or the
/// origin when there is none) and each curve's control points and endpoint
/// (mirrors what `from_connected_curves` shows).
pub open spec fn spec_connect(cs: Seq<Curve>) -> (Coord, Seq<(Coord, Coord, Coord)>) {
    (
        if cs.len() == 0 {
            Coord { x: 0, y: 0 }
        } else {
            cs[0].start
        },
        cs.map_values(|c: Curve| (c.cp1, c.cp2, c.end)),
    )
}

/// Chains fitted curves into one connected path.
pub(crate) fn connect_curves(cs: &Vec<Curve>) -> (r: BezPath)
    ensures
        r@ == spec_connect(cs@),
{
    let start: Coord = if cs.len() == 0 {
        Coord { x: 0, y: 0 }
    } else {
        cs[0].start
    };
    let n = cs.len();
    let mut segs: Vec<(Coord, Coord, Coord)> = Vec::new();
    let mut i: usize = 0;
    while i < n
        invariant
            i <= n,
            n == cs@.len(),
            segs@.len() == i,
            forall|k: int| 0 <= k < i ==> segs@[k] == (cs@[k].cp1, cs@[k].cp2, cs@[k].end),
        decreases n - i,
    {
        let c = cs[i];
        segs.push((c.cp1, c.cp2, c.end));
        i += 1;
    }
    let r = BezPath { start, segs };
    proof {
        assert(r@.1 =~= spec_connect(cs@).1);
    }
    r
}

} // verus!
