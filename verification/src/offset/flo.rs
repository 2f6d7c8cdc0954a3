//! Path offsetting through the `flo_curves` engine.
//!
//! [`FloCurvesOffset`] is built from a source path and a signed distance:
//! each subpath becomes one connected curve sequence (open subpaths are
//! closed by a line when their ends are far enough apart), every curve of
//! every subpath is offset, and tiny results are dropped.
//! [`FloCurvesOffset::offset_path`] then samples the offset curves evenly —
//! NaN-tagged curves are filtered first, never propagated into geometry —
//! fits one new curve sequence through the combined point cloud, and removes
//! the self-intersections the offset introduced.
//!
//! Re-offsetting an already-offset path by the same distance is not claimed
//! to equal offsetting by twice the distance: the sampling, fitting and
//! cleaning tolerances compound.

use vstd::prelude::*;

use crate::error::PathError;
use crate::offset::engine::{
    cleaned_of, connect_curves, dist_between, dist_of, fit_of, fit_points, is_tiny_curve,
    lift_control, lift_of, narrow_bits, narrow_of, offset_curve, offsets_of, path_curves,
    remove_interior, sample_curve, samples_of, spec_connect, spec_path_curves, tiny_of, widen_of,
    widen_point, BezPath, Curve,
};
use crate::offset::Offset;
use crate::path::point::{Coord, Point};
use crate::path::subpath::decompose;
use crate::path::{Path, PathEvent};

verus! {

/// Bits of the double `2/3`: the blend factor that lifts a quadratic's
/// control point to cubic form.
pub const QUAD_LIFT_FACTOR_BITS: u64 = 0x3FE5555555555555;

/// Bits of the double `1e-6`: ends of an open subpath closer than this are
/// joined without a closing line.
pub const CLOSE_GAP_BITS: u64 = 0x3EB0C6F7A0B5ED8D;

/// Bits of the double `0.1`: the step at which offset curves are walked for
/// sampling.
pub const WALK_STEP_BITS: u64 = 0x3FB999999999999A;

/// Bits of the double `0.01`: the walking error tolerance of the sampler.
pub const WALK_MAX_ERROR_BITS: u64 = 0x3F847AE147AE147B;

/// Bits of the double `1.0`: the maximum fitting error of the refit stage.
pub const FIT_MAX_ERROR_BITS: u64 = 0x3FF0000000000000;

/// Bits of the double `0.01`: the accuracy of interior-point removal.
pub const CLEAN_ACCURACY_BITS: u64 = 0x3F847AE147AE147B;

/// The widened (double-precision) form of a point.
pub open spec fn widen_pt(p: Point) -> Coord {
    Coord { x: widen_of(p.x), y: widen_of(p.y) }
}

/// One coordinate narrowed to single precision.  A NaN pattern narrows to
/// the canonical single NaN (Rust leaves a cast's NaN payload unspecified,
/// so the library fixes one); anything else rounds as the cast does.
pub open spec fn narrow_coord(b: u64) -> u32 {
    if crate::float_bits::spec_is_nan64(b) {
        0x7fc0_0000u32
    } else {
        narrow_of(b)
    }
}

/// The narrowed (single-precision) form of a coord.
pub open spec fn narrow_pt(c: Coord) -> Point {
    Point { x: narrow_coord(c.x), y: narrow_coord(c.y) }
}

/// Narrows a coordinate pair to single precision, canonicalizing NaN lanes.
fn narrow_total(c: Coord) -> (r: Point)
    ensures
        r == narrow_pt(c),
{
    let x: u32 = if crate::float_bits::is_nan64(c.x) {
        0x7fc0_0000
    } else {
        narrow_bits(c.x)
    };
    let y: u32 = if crate::float_bits::is_nan64(c.y) {
        0x7fc0_0000
    } else {
        narrow_bits(c.y)
    };
    Point { x, y }
}

/// Negation of a double: the sign bit flips and nothing else.
pub open spec fn spec_neg64(b: u64) -> u64 {
    if b >= 0x8000_0000_0000_0000u64 {
        (b - 0x8000_0000_0000_0000u64) as u64
    } else {
        (b + 0x8000_0000_0000_0000u64) as u64
    }
}

/// Whether an open subpath's end is far enough from its start to need a
/// closing line.  The engine's distance is non-negative or NaN, so on its
/// bit pattern the IEEE-754 `>` is pattern order, and a NaN distance (from
/// NaN coordinates) never exceeds the gap.
pub open spec fn close_line_needed(cur: Coord, start: Coord) -> bool {
    crate::float_bits::spec_f64_gt_nonneg(dist_of(cur, start), CLOSE_GAP_BITS)
}

/// One event's effect on the engine-path builder state `(start, segs, cur)`:
/// a `Begin` starts the sequence afresh at its point, segments append curves
/// from the current point (lines as degenerate cubics, quadratics lifted),
/// and an `End` without `close` appends a closing line back to the start
/// when the gap is large enough.
pub open spec fn engine_step(
    st: (Coord, Seq<(Coord, Coord, Coord)>, Coord),
    e: PathEvent,
) -> (Coord, Seq<(Coord, Coord, Coord)>, Coord) {
    match e {
        PathEvent::Begin { at } => {
            let p = widen_pt(at);
            (p, Seq::empty(), p)
        },
        PathEvent::Line { to } => {
            let p = widen_pt(to);
            (st.0, st.1.push((st.2, p, p)), p)
        },
        PathEvent::Quadratic { ctrl, to } => {
            let c = widen_pt(ctrl);
            let p = widen_pt(to);
            (
                st.0,
                st.1.push(
                    (lift_of(st.2, c, QUAD_LIFT_FACTOR_BITS), lift_of(p, c, QUAD_LIFT_FACTOR_BITS), p),
                ),
                p,
            )
        },
        PathEvent::Cubic { ctrl1, ctrl2, to } => {
            let p = widen_pt(to);
            (st.0, st.1.push((widen_pt(ctrl1), widen_pt(ctrl2), p)), p)
        },
        PathEvent::End { close } => {
            if !close && close_line_needed(st.2, st.0) {
                (st.0, st.1.push((st.2, st.0, st.0)), st.2)
            } else {
                st
            }
        },
    }
}

/// The engine-path builder state after the first `n` events, starting from
/// the origin.
pub open spec fn engine_state(evs: Seq<PathEvent>, n: int) -> (
    Coord,
    Seq<(Coord, Coord, Coord)>,
    Coord,
)
    decreases n,
{
    if n <= 0 {
        (Coord { x: 0, y: 0 }, Seq::empty(), Coord { x: 0, y: 0 })
    } else {
        engine_step(engine_state(evs, n - 1), evs[n - 1])
    }
}

/// The connected engine path of one subpath's event stream.
pub open spec fn engine_input(evs: Seq<PathEvent>) -> (Coord, Seq<(Coord, Coord, Coord)>) {
    let st = engine_state(evs, evs.len() as int);
    (st.0, st.1)
}

/// The curves of a sequence that are not tiny.
pub open spec fn kept(cs: Seq<Curve>) -> Seq<Curve> {
    cs.filter(|c: Curve| !tiny_of(c))
}

/// The curves of a sequence that carry no NaN coordinate.
pub open spec fn nan_free(cs: Seq<Curve>) -> Seq<Curve> {
    cs.filter(|c: Curve| !c.spec_has_nan())
}

/// All offset curves of a curve sequence at distance bits `d` on both sides,
/// tiny ones dropped.
pub open spec fn offset_all(cs: Seq<Curve>, d: u64) -> Seq<Curve>
    decreases cs.len(),
{
    if cs.len() == 0 {
        Seq::empty()
    } else {
        offset_all(cs.drop_last(), d) + kept(offsets_of(cs.last(), d, d))
    }
}

/// The offset curves of a sequence of subpath runs, in order: each run
/// becomes one engine path whose curves are offset.
pub open spec fn offset_stage_runs(runs: Seq<Seq<PathEvent>>, d: u64) -> Seq<Curve>
    decreases runs.len(),
{
    if runs.len() == 0 {
        Seq::empty()
    } else {
        offset_stage_runs(runs.drop_last(), d) + offset_all(
            spec_path_curves(engine_input(runs.last())),
            d,
        )
    }
}

/// The whole offset stage: every segment of every subpath is offset by the
/// signed distance bits `d` (the engine is handed the negated distance on
/// both sides).
pub open spec fn offset_stage(evs: Seq<PathEvent>, d: u64) -> Seq<Curve> {
    offset_stage_runs(decompose(evs), spec_neg64(d))
}

/// The sample points of all curves, in order.
pub open spec fn samples_stage(cs: Seq<Curve>) -> Seq<Coord>
    decreases cs.len(),
{
    if cs.len() == 0 {
        Seq::empty()
    } else {
        samples_stage(cs.drop_last()) + samples_of(cs.last(), WALK_STEP_BITS, WALK_MAX_ERROR_BITS)
    }
}

/// The events of the path that a cleaned engine path converts back to: one
/// subpath, NaN-tagged curves filtered, degenerate cubics recognised as
/// lines, explicitly closed.
pub open spec fn events_from_segs(segs: Seq<(Coord, Coord, Coord)>, i: int, cur: Coord) -> Seq<
    PathEvent,
>
    decreases segs.len() - i,
{
    if i < 0 || i >= segs.len() {
        Seq::empty()
    } else {
        let (c1, c2, to) = segs[i];
        if c1.spec_has_nan() || c2.spec_has_nan() || to.spec_has_nan() {
            events_from_segs(segs, i + 1, cur)
        } else if c1.spec_f64_eq(&cur) && c2.spec_f64_eq(&to) {
            seq![PathEvent::Line { to: narrow_pt(to) }] + events_from_segs(segs, i + 1, to)
        } else {
            seq![
                PathEvent::Cubic {
                    ctrl1: narrow_pt(c1),
                    ctrl2: narrow_pt(c2),
                    to: narrow_pt(to),
                },
            ] + events_from_segs(segs, i + 1, to)
        }
    }
}

/// The full event stream recovered from a cleaned engine path.
pub open spec fn path_from_engine(bp: (Coord, Seq<(Coord, Coord, Coord)>)) -> Seq<PathEvent> {
    seq![PathEvent::Begin { at: narrow_pt(bp.0) }] + events_from_segs(bp.1, 0, bp.0) + seq![
        PathEvent::Line { to: narrow_pt(bp.0) },
        PathEvent::End { close: true },
    ]
}

/// What `offset_path` returns for a given bag of offset curves: NaN-tagged
/// curves are dropped, the rest are sampled and fitted (failing with
/// `FitCurve` when no curve comes back), tiny fitted curves are dropped, the
/// rest are connected and cleaned (failing with `CleanPath` when no contour
/// remains), and the first contour becomes the result path.
pub open spec fn offset_result(cs: Seq<Curve>) -> Result<Seq<PathEvent>, PathError> {
    match fit_of(samples_stage(nan_free(cs)), FIT_MAX_ERROR_BITS) {
        Option::None => Result::Err(PathError::FitCurve),
        Option::Some(f) => {
            let cleaned = cleaned_of(spec_connect(kept(f)), CLEAN_ACCURACY_BITS);
            if cleaned.len() == 0 {
                Result::Err(PathError::CleanPath)
            } else {
                Result::Ok(path_from_engine(cleaned[0]))
            }
        },
    }
}

/// A single degenerate subpath contributes no offset curves and therefore no
/// sample points: offsetting it must fail (the fit stage reports `FitCurve`,
/// by the fitting contract, since fewer than two points never fit), and never
/// yields an empty path silently.
pub proof fn lemma_degenerate_subpath_offsets_nothing(at: Point, d: u64)
    ensures
        offset_stage(seq![PathEvent::Begin { at }, PathEvent::End { close: true }], d)
            == Seq::<Curve>::empty(),
        samples_stage(
            nan_free(
                offset_stage(seq![PathEvent::Begin { at }, PathEvent::End { close: true }], d),
            ),
        ) == Seq::<Coord>::empty(),
{
    let evs = seq![PathEvent::Begin { at }, PathEvent::End { close: true }];
    let run = evs;
    // the stream is exactly one run
    assert(crate::path::subpath::decompose_rec(evs, 0, Option::None)
        == crate::path::subpath::decompose_rec(evs, 1, Some(seq![evs[0]])));
    assert(crate::path::subpath::decompose_rec(evs, 2, Option::None) =~= Seq::<
        Seq<PathEvent>,
    >::empty());
    assert(crate::path::subpath::decompose_rec(evs, 1, Some(seq![evs[0]])) == seq![
        seq![evs[0]].push(evs[1]),
    ] + crate::path::subpath::decompose_rec(evs, 2, Option::None));
    assert(seq![evs[0]].push(evs[1]) =~= run);
    assert(decompose(evs) =~~= seq![run]);
    // the run holds no segments, so the engine path has no curves
    let st1 = engine_step(engine_state(run, 0), run[0]);
    assert(engine_state(run, 1) == st1);
    assert(engine_state(run, 2) == engine_step(st1, run[1]));
    assert(engine_input(run).1 =~= Seq::<(Coord, Coord, Coord)>::empty());
    assert(spec_path_curves(engine_input(run)) =~= Seq::<Curve>::empty());
    assert(seq![run].drop_last() =~= Seq::<Seq<PathEvent>>::empty());
    let nd = spec_neg64(d);
    assert(offset_stage_runs(Seq::<Seq<PathEvent>>::empty(), nd) =~= Seq::<Curve>::empty());
    assert(offset_all(Seq::<Curve>::empty(), nd) =~= Seq::<Curve>::empty());
    assert(offset_stage_runs(seq![run], nd) == offset_stage_runs(
        seq![run].drop_last(),
        nd,
    ) + offset_all(spec_path_curves(engine_input(run)), nd));
    assert(offset_stage(evs, d) =~= Seq::<Curve>::empty());
    assert(nan_free(Seq::<Curve>::empty()) =~= Seq::<Curve>::empty());
}

/// A path offsetter that uses the `flo_curves` engine.
pub struct FloCurvesOffset {
    curves: Vec<Curve>,
}

impl View for FloCurvesOffset {
    type V = Seq<Curve>;

    closed spec fn view(&self) -> Seq<Curve> {
        self.curves@
    }
}

/// Builds the engine's connected path for one subpath's event stream.
fn build_engine_path(path: &Path) -> (r: BezPath)
    ensures
        r@ == engine_input(path@),
{
    let ghost evs_s = path@;
    let events = path.events();
    let n = events.len();
    let mut start: Coord = Coord { x: 0, y: 0 };
    let mut cur: Coord = Coord { x: 0, y: 0 };
    let mut segs: Vec<(Coord, Coord, Coord)> = Vec::new();
    let mut i: usize = 0;
    proof {
        assert(segs@ =~= engine_state(evs_s, 0).1);
    }
    while i < n
        invariant
            i <= n,
            n == evs_s.len(),
            events@ == evs_s,
            engine_state(evs_s, i as int) == (start, segs@, cur),
        decreases n - i,
    {
        let e = events[i];
        let ghost st = engine_state(evs_s, i as int);
        match e {
            PathEvent::Begin { at } => {
                let p = widen_point(at);
                start = p;
                cur = p;
                segs = Vec::new();
                proof {
                    assert(segs@ =~= engine_step(st, evs_s[i as int]).1);
                }
            },
            PathEvent::Line { to } => {
                let p = widen_point(to);
                segs.push((cur, p, p));
                cur = p;
            },
            PathEvent::Quadratic { ctrl, to } => {
                let c = widen_point(ctrl);
                let p = widen_point(to);
                let l1 = lift_control(cur, c, QUAD_LIFT_FACTOR_BITS);
                let l2 = lift_control(p, c, QUAD_LIFT_FACTOR_BITS);
                segs.push((l1, l2, p));
                cur = p;
            },
            PathEvent::Cubic { ctrl1, ctrl2, to } => {
                let c1 = widen_point(ctrl1);
                let c2 = widen_point(ctrl2);
                let p = widen_point(to);
                segs.push((c1, c2, p));
                cur = p;
            },
            PathEvent::End { close } => {
                if !close {
                    let d = dist_between(cur, start);
                    if crate::float_bits::f64_gt_nonneg(d, CLOSE_GAP_BITS) {
                        segs.push((cur, start, start));
                    }
                }
            },
        }
        proof {
            assert(engine_state(evs_s, i as int + 1) == engine_step(st, evs_s[i as int]));
        }
        i += 1;
    }
    BezPath { start, segs }
}

/// Offsets every curve on both sides by the distance bits `d` and drops tiny
/// results.
fn offset_and_filter(cs: &Vec<Curve>, d: u64) -> (r: Vec<Curve>)
    ensures
        r@ == offset_all(cs@, d),
{
    let n = cs.len();
    let mut out: Vec<Curve> = Vec::new();
    let mut i: usize = 0;
    proof {
        assert(out@ =~= offset_all(cs@.take(0), d));
    }
    while i < n
        invariant
            i <= n,
            n == cs@.len(),
            out@ == offset_all(cs@.take(i as int), d),
        decreases n - i,
    {
        let offs = offset_curve(&cs[i], d, d);
        let m = offs.len();
        let mut j: usize = 0;
        while j < m
            invariant
                j <= m,
                m == offs@.len(),
                offs@ == offsets_of(cs@[i as int], d, d),
                i < n,
                n == cs@.len(),
                out@ == offset_all(cs@.take(i as int), d) + kept(offs@.take(j as int)),
            decreases m - j,
        {
            let ghost prefix = offs@.take(j as int);
            let c = offs[j];
            if !is_tiny_curve(&c) {
                out.push(c);
            }
            proof {
                assert(offs@.take(j as int + 1).drop_last() =~= prefix);
                assert(offs@.take(j as int + 1).last() == offs@[j as int]);
                reveal_with_fuel(Seq::filter, 2);
                assert(kept(offs@.take(j as int + 1)) == if !tiny_of(offs@[j as int]) {
                    kept(prefix).push(offs@[j as int])
                } else {
                    kept(prefix)
                });
            }
            j += 1;
        }
        proof {
            assert(offs@.take(m as int) =~= offs@);
            assert(cs@.take(i as int + 1).drop_last() =~= cs@.take(i as int));
            assert(cs@.take(i as int + 1).last() == cs@[i as int]);
        }
        i += 1;
    }
    proof {
        assert(cs@.take(n as int) =~= cs@);
    }
    out
}

impl FloCurvesOffset {
    /// Prepares the offset of `path` by the signed distance whose IEEE-754
    /// double bits are `offset_distance_bits`: each subpath becomes one
    /// connected engine path, every one of its curves is offset on both
    /// sides by the negated distance, and tiny offset curves are discarded.
    pub fn new(path: &Path, offset_distance_bits: u64) -> (r: FloCurvesOffset)
        ensures
            r@ == offset_stage(path@, offset_distance_bits),
    {
        let ghost runs = decompose(path@);
        let neg: u64 = if offset_distance_bits >= 0x8000_0000_0000_0000u64 {
            offset_distance_bits - 0x8000_0000_0000_0000u64
        } else {
            offset_distance_bits + 0x8000_0000_0000_0000u64
        };
        let subs = path.subpaths();
        let nsub = subs.len();
        let mut out: Vec<Curve> = Vec::new();
        let mut k: usize = 0;
        proof {
            assert(out@ =~= offset_stage_runs(runs.take(0), neg));
        }
        while k < nsub
            invariant
                k <= nsub,
                nsub == subs@.len(),
                subs@.map_values(|p: Path| p@) == runs,
                runs.len() == nsub,
                neg == spec_neg64(offset_distance_bits),
                out@ == offset_stage_runs(runs.take(k as int), neg),
            decreases nsub - k,
        {
            proof {
                assert(subs@.map_values(|p: Path| p@)[k as int] == subs@[k as int]@);
            }
            let bp = build_engine_path(&subs[k]);
            let cs = path_curves(&bp);
            let mut offs = offset_and_filter(&cs, neg);
            out.append(&mut offs);
            proof {
                assert(runs.take(k as int + 1).drop_last() =~= runs.take(k as int));
                assert(runs.take(k as int + 1).last() == runs[k as int]);
            }
            k += 1;
        }
        proof {
            assert(runs.take(nsub as int) =~= runs);
        }
        FloCurvesOffset { curves: out }
    }

    /// The offset curves this offsetter works from.
    pub fn curves(&self) -> (r: &Vec<Curve>)
        ensures
            r@ == self@,
    {
        &self.curves
    }

    /// Offsets the path: drops NaN-tagged offset curves (NaN data is
    /// filtered, never propagated into geometry), samples the rest, fits a
    /// new curve sequence through the point cloud, and cleans the result.
    /// Fails with `FitCurve` when fitting yields no curve and with
    /// `CleanPath` when cleaning yields no contour; no partial result is
    /// ever returned.
    pub fn offset_path(&self) -> (r: Result<Path, PathError>)
        ensures
            match offset_result(self@) {
                Result::Ok(evs) => r matches Ok(p) && p@ == evs,
                Result::Err(e) => r matches Err(e2) && e2 == e,
            },
    {
        // Drop curves tagged with NaN coordinates.
        let n0 = self.curves.len();
        let mut usable: Vec<Curve> = Vec::new();
        let mut h: usize = 0;
        proof {
            assert(usable@ =~= nan_free(self.curves@.take(0)));
        }
        while h < n0
            invariant
                h <= n0,
                n0 == self.curves@.len(),
                usable@ == nan_free(self.curves@.take(h as int)),
                forall|k: int| 0 <= k < usable@.len() ==> !(#[trigger] usable@[k]).spec_has_nan(),
            decreases n0 - h,
        {
            let ghost prefix = self.curves@.take(h as int);
            let c = self.curves[h];
            if !c.has_nan() {
                usable.push(c);
            }
            proof {
                assert(self.curves@.take(h as int + 1).drop_last() =~= prefix);
                assert(self.curves@.take(h as int + 1).last() == self.curves@[h as int]);
                reveal_with_fuel(Seq::filter, 2);
            }
            h += 1;
        }
        proof {
            assert(self.curves@.take(n0 as int) =~= self.curves@);
        }

        // Sample every usable offset curve at even steps.
        let n = usable.len();
        let mut points: Vec<Coord> = Vec::new();
        let mut i: usize = 0;
        proof {
            assert(points@ =~= samples_stage(usable@.take(0)));
        }
        while i < n
            invariant
                i <= n,
                n == usable@.len(),
                forall|k: int| 0 <= k < usable@.len() ==> !(#[trigger] usable@[k]).spec_has_nan(),
                points@ == samples_stage(usable@.take(i as int)),
            decreases n - i,
        {
            let mut pts = sample_curve(&usable[i], WALK_STEP_BITS, WALK_MAX_ERROR_BITS);
            points.append(&mut pts);
            proof {
                assert(usable@.take(i as int + 1).drop_last() =~= usable@.take(i as int));
                assert(usable@.take(i as int + 1).last() == usable@[i as int]);
            }
            i += 1;
        }
        proof {
            assert(usable@.take(n as int) =~= usable@);
        }

        // Fit one connected curve sequence through the cloud.
        let fitted = match fit_points(&points, FIT_MAX_ERROR_BITS) {
            Option::Some(f) => f,
            Option::None => {
                return Err(PathError::FitCurve);
            },
        };

        // Drop tiny fitted curves and connect the rest.
        let m = fitted.len();
        let mut kept_curves: Vec<Curve> = Vec::new();
        let mut j: usize = 0;
        proof {
            assert(kept_curves@ =~= kept(fitted@.take(0)));
        }
        while j < m
            invariant
                j <= m,
                m == fitted@.len(),
                kept_curves@ == kept(fitted@.take(j as int)),
            decreases m - j,
        {
            let ghost prefix = fitted@.take(j as int);
            let c = fitted[j];
            if !is_tiny_curve(&c) {
                kept_curves.push(c);
            }
            proof {
                assert(fitted@.take(j as int + 1).drop_last() =~= prefix);
                assert(fitted@.take(j as int + 1).last() == fitted@[j as int]);
                reveal_with_fuel(Seq::filter, 2);
            }
            j += 1;
        }
        proof {
            assert(fitted@.take(m as int) =~= fitted@);
        }
        let toolpath = connect_curves(&kept_curves);

        // Remove the self-intersections the offset introduced.
        let mut cleaned = remove_interior(&toolpath, CLEAN_ACCURACY_BITS);
        if cleaned.len() == 0 {
            return Err(PathError::CleanPath);
        }
        proof {
            assert(cleaned@.map_values(|b: BezPath| b@)[0] == cleaned@[0]@);
        }
        let first = cleaned.remove(0);
        Ok(engine_path_to_path(&first))
    }
}

impl Offset for FloCurvesOffset {
    /// Offsets the path with the `flo_curves` engine; see
    /// [`FloCurvesOffset::offset_path`].
    fn offset_path(&self) -> (r: Result<Path, PathError>) {
        FloCurvesOffset::offset_path(self)
    }
}

/// Converts a cleaned engine path back to a [`Path`]: NaN-tagged curves are
/// skipped, degenerate cubics whose control points sit on their endpoints
/// become lines, and the subpath is closed back to its start.
fn engine_path_to_path(bp: &BezPath) -> (r: Path)
    ensures
        r@ == path_from_engine(bp@),
{
    let n = bp.segs.len();
    let mut out: Vec<PathEvent> = Vec::new();
    let start_pt = narrow_total(bp.start);
    out.push(PathEvent::Begin { at: start_pt });
    let mut cur: Coord = bp.start;
    let mut i: usize = 0;
    proof {
        assert(out@ =~= seq![PathEvent::Begin { at: narrow_pt(bp@.0) }]);
    }
    while i < n
        invariant
            i <= n,
            n == bp.segs@.len(),
            seq![PathEvent::Begin { at: narrow_pt(bp@.0) }] + events_from_segs(bp@.1, 0, bp@.0)
                =~= out@ + events_from_segs(bp@.1, i as int, cur),
        decreases n - i,
    {
        let (c1, c2, to) = bp.segs[i];
        if !(c1.has_nan() || c2.has_nan() || to.has_nan()) {
            if c1.f64_eq(&cur) && c2.f64_eq(&to) {
                out.push(PathEvent::Line { to: narrow_total(to) });
            } else {
                out.push(
                    PathEvent::Cubic {
                        ctrl1: narrow_total(c1),
                        ctrl2: narrow_total(c2),
                        to: narrow_total(to),
                    },
                );
            }
            cur = to;
        }
        i += 1;
    }
    out.push(PathEvent::Line { to: start_pt });
    out.push(PathEvent::End { close: true });
    proof {
        assert(out@ =~= path_from_engine(bp@));
    }
    Path::from_events(out)
}

/// The event stream holding each engine curve as its own open subpath: a
/// `Begin` at the curve's start and one cubic segment.
pub open spec fn curves_events(cs: Seq<Curve>) -> Seq<PathEvent>
    decreases cs.len(),
{
    if cs.len() == 0 {
        Seq::empty()
    } else {
        curves_events(cs.drop_last()) + seq![
            PathEvent::Begin { at: narrow_pt(cs.last().start) },
            PathEvent::Cubic {
                ctrl1: narrow_pt(cs.last().cp1),
                ctrl2: narrow_pt(cs.last().cp2),
                to: narrow_pt(cs.last().end),
            },
            PathEvent::End { close: false },
        ]
    }
}

impl Path {
    /// Builds a path from engine curves, each as its own open subpath with a
    /// single cubic segment — the inverse direction of [`FloCurvesOffset::curves`].
    pub fn from_curves(curves: &Vec<Curve>) -> (r: Path)
        ensures
            r@ == curves_events(curves@),
    {
        let n = curves.len();
        let mut out: Vec<PathEvent> = Vec::new();
        let mut i: usize = 0;
        proof {
            assert(out@ =~= curves_events(curves@.take(0)));
        }
        while i < n
            invariant
                i <= n,
                n == curves@.len(),
                out@ == curves_events(curves@.take(i as int)),
            decreases n - i,
        {
            let c = curves[i];
            out.push(PathEvent::Begin { at: narrow_total(c.start) });
            out.push(
                PathEvent::Cubic {
                    ctrl1: narrow_total(c.cp1),
                    ctrl2: narrow_total(c.cp2),
                    to: narrow_total(c.end),
                },
            );
            out.push(PathEvent::End { close: false });
            proof {
                assert(curves@.take(i as int + 1).drop_last() =~= curves@.take(i as int));
                assert(curves@.take(i as int + 1).last() == curves@[i as int]);
                assert(out@ =~= curves_events(curves@.take(i as int + 1)));
            }
            i += 1;
        }
        proof {
            assert(curves@.take(n as int) =~= curves@);
        }
        Path::from_events(out)
    }
}

} // verus!
