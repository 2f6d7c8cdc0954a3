//! Geometric queries on paths, answered by the `lyon` crate.
//!
//! The event stream of a [`Path`] is rebuilt, event by event, into lyon's
//! own path storage; lyon then answers the area, bounding-box and hit-test
//! queries the shell finder needs.  Each lyon call stands behind a trusted
//! declaration whose contract speaks over the named contents of the lyon
//! value.

use vstd::prelude::*;

use crate::float_bits::spec_f32_lt;
use crate::path::point::Point;
use crate::path::{finite_coords, well_formed, Path, PathEvent};
use lyon::path::path::BuilderImpl as LyonBuilderImpl;
use lyon::math::point as lyon_pt;
use lyon::path::Path as LyonPath;

verus! {

// --- Declarations of lyon's types -------------------------------------------

#[verifier::external_type_specification]
#[verifier::external_body]
pub struct ExLyonPath(LyonPath);

#[verifier::external_type_specification]
#[verifier::external_body]
pub struct ExLyonBuilder(LyonBuilderImpl);

#[verifier::external_type_specification]
#[verifier::external_body]
#[verifier::reject_recursive_types(T)]
#[verifier::reject_recursive_types(U)]
pub struct ExPoint2D<T, U>(lyon::geom::euclid::Point2D<T, U>);

#[verifier::external_type_specification]
#[verifier::external_body]
pub struct ExUnknownUnit(lyon::geom::euclid::UnknownUnit);

/// The events stored in a lyon path, as this library's events.
pub uninterp spec fn lyon_events(p: LyonPath) -> Seq<PathEvent>;

/// The events recorded by a lyon builder so far.
pub uninterp spec fn builder_events(b: LyonBuilderImpl) -> Seq<PathEvent>;

/// Whether the builder currently has an open subpath (lyon validates the
/// begin/end discipline and panics on a violation in debug builds).
pub uninterp spec fn builder_building(b: LyonBuilderImpl) -> bool;


/// The IEEE-754 single-precision values of a point's coordinate bit
/// patterns, as lyon's point type.
pub uninterp spec fn lyon_point_val(p: Point) -> lyon::math::Point;

/// Relies on the IEEE-754 encoding alone: rebuilds, for lyon, the
/// single-precision values that the point's bit patterns denote (the inverse
/// of `to_bits`), exactly, by scaling the stored significand with powers of
/// two (in doubles, then narrowing losslessly).  A NaN pattern rebuilds as a
/// NaN without its payload; the callers only ever pass finite patterns.
#[verifier::external_body]
pub(crate) fn lyon_point_of(p: Point) -> (r: lyon::math::Point)
    ensures
        r == lyon_point_val(p),
{
    let f = |b: u32| {
        let e: i32 = ((b >> 23) & 0xff) as i32;
        let m: u32 = (b & 0x7f_ffff) + (e != 0) as u32 * 0x80_0000;
        let k: i32 = e - 150 + (e == 0) as i32;
        let wide = crate::offset::engine::scaled64(m as u64, k, b >= 0x8000_0000, e == 0xff && m == 0x80_0000, e == 0xff && m > 0x80_0000);
        lyon_pt(wide.0 as _, 2 as _).x
    };
    lyon_pt(f(p.x), f(p.y))
}

// --- Trusted wrappers around the builder ------------------------------------

/// Relies on `LyonBuilderImpl::new`: a fresh builder with no
/// events recorded and no subpath open.
#[verifier::external_body]
fn lyon_builder_new() -> (b: LyonBuilderImpl)
    ensures
        builder_events(b) == Seq::<PathEvent>::empty(),
        !builder_building(b),
{
    LyonBuilderImpl::new()
}

/// Relies on lyon's `PathBuilder::begin` for `BuilderImpl`: records the start
/// of a subpath.  Lyon asserts (in debug builds) that no subpath is open and
/// that the point is finite.
#[verifier::external_body]
fn lyon_builder_begin(b: &mut LyonBuilderImpl, at: Point)
    requires
        !builder_building(*old(b)),
        at.spec_is_finite(),
    ensures
        builder_events(*final(b)) == builder_events(*old(b)).push(PathEvent::Begin { at }),
        builder_building(*final(b)),
{
    lyon::path::traits::PathBuilder::begin(
        b,
        lyon_point_of(at),
        lyon::path::NO_ATTRIBUTES,
    );
}

/// Relies on lyon's `PathBuilder::line_to` for `BuilderImpl`.  Lyon asserts
/// (in debug builds) that a subpath is open and the point is finite.
#[verifier::external_body]
fn lyon_builder_line_to(b: &mut LyonBuilderImpl, to: Point)
    requires
        builder_building(*old(b)),
        to.spec_is_finite(),
    ensures
        builder_events(*final(b)) == builder_events(*old(b)).push(PathEvent::Line { to }),
        builder_building(*final(b)),
{
    lyon::path::traits::PathBuilder::line_to(
        b,
        lyon_point_of(to),
        lyon::path::NO_ATTRIBUTES,
    );
}

/// Relies on lyon's `PathBuilder::quadratic_bezier_to` for `BuilderImpl`.
#[verifier::external_body]
fn lyon_builder_quadratic_to(b: &mut LyonBuilderImpl, ctrl: Point, to: Point)
    requires
        builder_building(*old(b)),
        ctrl.spec_is_finite(),
        to.spec_is_finite(),
    ensures
        builder_events(*final(b)) == builder_events(*old(b)).push(
            PathEvent::Quadratic { ctrl, to },
        ),
        builder_building(*final(b)),
{
    lyon::path::traits::PathBuilder::quadratic_bezier_to(
        b,
        lyon_point_of(ctrl),
        lyon_point_of(to),
        lyon::path::NO_ATTRIBUTES,
    );
}

/// Relies on lyon's `PathBuilder::cubic_bezier_to` for `BuilderImpl`.
#[verifier::external_body]
fn lyon_builder_cubic_to(
    b: &mut LyonBuilderImpl,
    ctrl1: Point,
    ctrl2: Point,
    to: Point,
)
    requires
        builder_building(*old(b)),
        ctrl1.spec_is_finite(),
        ctrl2.spec_is_finite(),
        to.spec_is_finite(),
    ensures
        builder_events(*final(b)) == builder_events(*old(b)).push(
            PathEvent::Cubic { ctrl1, ctrl2, to },
        ),
        builder_building(*final(b)),
{
    lyon::path::traits::PathBuilder::cubic_bezier_to(
        b,
        lyon_point_of(ctrl1),
        lyon_point_of(ctrl2),
        lyon_point_of(to),
        lyon::path::NO_ATTRIBUTES,
    );
}

/// Relies on lyon's `PathBuilder::end` for `BuilderImpl`: closes the open
/// subpath, optionally marking it closed.
#[verifier::external_body]
fn lyon_builder_end(b: &mut LyonBuilderImpl, close: bool)
    requires
        builder_building(*old(b)),
    ensures
        builder_events(*final(b)) == builder_events(*old(b)).push(PathEvent::End { close }),
        !builder_building(*final(b)),
{
    lyon::path::traits::PathBuilder::end(b, close);
}

/// Relies on lyon's `Build::build` for `BuilderImpl`: the finished path holds
/// exactly the recorded events.  Lyon asserts (in debug builds) that no
/// subpath is open.
#[verifier::external_body]
fn lyon_builder_build(b: LyonBuilderImpl) -> (p: LyonPath)
    requires
        !builder_building(b),
    ensures
        lyon_events(p) == builder_events(b),
{
    lyon::path::traits::Build::build(b)
}

// --- Verified conversion to lyon form ---------------------------------------

/// Rebuilds a well-formed, finite event stream in lyon's path storage.
pub(crate) fn to_lyon(p: &Path) -> (r: LyonPath)
    requires
        well_formed(p@),
        finite_coords(p@),
    ensures
        lyon_events(r) == p@,
{
    let ghost evs_s = p@;
    let events = p.events();
    let n = events.len();
    let mut b = lyon_builder_new();
    let mut building = false;
    let mut i: usize = 0;
    proof {
        assert(builder_events(b) =~= evs_s.take(0));
    }
    while i < n
        invariant
            0 <= i as int <= n,
            n == evs_s.len(),
            events@ == evs_s,
            finite_coords(evs_s),
            builder_events(b) == evs_s.take(i as int),
            builder_building(b) == building,
            crate::path::wf_from(evs_s, i as int, building),
        decreases n - i,
    {
        let e = events[i];
        proof {
            assert(evs_s[i as int].spec_is_finite());
        }
        match e {
            PathEvent::Begin { at } => {
                lyon_builder_begin(&mut b, at);
                building = true;
            },
            PathEvent::Line { to } => {
                lyon_builder_line_to(&mut b, to);
            },
            PathEvent::Quadratic { ctrl, to } => {
                lyon_builder_quadratic_to(&mut b, ctrl, to);
            },
            PathEvent::Cubic { ctrl1, ctrl2, to } => {
                lyon_builder_cubic_to(&mut b, ctrl1, ctrl2, to);
            },
            PathEvent::End { close } => {
                lyon_builder_end(&mut b, close);
                building = false;
            },
        }
        proof {
            assert(builder_events(b) =~= evs_s.take(i as int + 1));
        }
        i += 1;
    }
    proof {
        assert(builder_events(b) =~= evs_s);
    }
    lyon_builder_build(b)
}

// --- Trusted geometric queries ----------------------------------------------

/// The bit pattern of the signed area that lyon's tolerance-bounded
/// approximation reports for this event stream.
pub uninterp spec fn area_bits_of(evs: Seq<PathEvent>, tolerance_bits: u32) -> u32;

/// Relies on `lyon::algorithms::area::approximate_signed_area`: the signed
/// area of the path, approximated by flattening curves at the given
/// tolerance.  The result depends on the events and the tolerance alone.
#[verifier::external_body]
pub(crate) fn approx_area_bits(p: &LyonPath, tolerance_bits: u32) -> (r: u32)
    ensures
        r == area_bits_of(lyon_events(*p), tolerance_bits),
{
    lyon::algorithms::area::approximate_signed_area(
        lyon_point_of(Point { x: tolerance_bits, y: tolerance_bits }).x,
        p.iter(),
    ).to_bits()
}

/// The corners (min x, min y, max x, max y) of the axis-aligned bounding box
/// that lyon computes for this event stream.
pub uninterp spec fn bbox_of(evs: Seq<PathEvent>) -> (u32, u32, u32, u32);

/// Relies on `lyon::algorithms::aabb::bounding_box`: the tight axis-aligned
/// bounding box of the path, a function of the events alone.
#[verifier::external_body]
pub(crate) fn bounding_box_bits(p: &LyonPath) -> (r: (u32, u32, u32, u32))
    ensures
        r == bbox_of(lyon_events(*p)),
{
    let bb = lyon::algorithms::aabb::bounding_box(p.iter());
    (bb.min.x.to_bits(), bb.min.y.to_bits(), bb.max.x.to_bits(), bb.max.y.to_bits())
}

/// Whether lyon's hit test reports the given point inside this event stream
/// under the even-odd fill rule at the given tolerance.
pub uninterp spec fn hit_of(x: u32, y: u32, evs: Seq<PathEvent>, tolerance_bits: u32) -> bool;

/// Relies on `lyon::algorithms::hit_test::hit_test_path` with
/// `FillRule::EvenOdd`: whether the point is inside the path under the
/// even-odd rule; a function of the point, the events and the tolerance.
#[verifier::external_body]
pub(crate) fn hit_test_bits(x: u32, y: u32, p: &LyonPath, tolerance_bits: u32) -> (r: bool)
    ensures
        r == hit_of(x, y, lyon_events(*p), tolerance_bits),
{
    lyon::algorithms::hit_test::hit_test_path(
        &lyon_point_of(Point { x, y }),
        p.iter(),
        lyon::path::FillRule::EvenOdd,
        lyon_point_of(Point { x: tolerance_bits, y: tolerance_bits }).x,
    )
}

// --- Verified box intersection ----------------------------------------------

/// Whether two bounding boxes (min x, min y, max x, max y) overlap, exactly
/// as euclid's `Box2D::intersects` compares them: four strict IEEE-754
/// comparisons.
pub open spec fn spec_boxes_intersect(a: (u32, u32, u32, u32), b: (u32, u32, u32, u32)) -> bool {
    &&& spec_f32_lt(a.0, b.2)
    &&& spec_f32_lt(b.0, a.2)
    &&& spec_f32_lt(a.1, b.3)
    &&& spec_f32_lt(b.1, a.3)
}

/// Exec check of [`spec_boxes_intersect`].
pub(crate) fn boxes_intersect(a: (u32, u32, u32, u32), b: (u32, u32, u32, u32)) -> (r: bool)
    ensures
        r == spec_boxes_intersect(a, b),
{
    crate::float_bits::f32_lt(a.0, b.2) && crate::float_bits::f32_lt(b.0, a.2)
        && crate::float_bits::f32_lt(a.1, b.3) && crate::float_bits::f32_lt(b.1, a.3)
}

} // verus!
