use path_offset::error::PathError;
use path_offset::offset::flo::FloCurvesOffset;
use path_offset::offset::Offset;
use path_offset::path::point::Point;
use path_offset::path::{Path, PathEvent};

/// Distance from a point to the boundary of the axis-aligned square
/// [0, s] x [0, s].
fn dist_to_square_boundary(x: f64, y: f64, s: f64) -> f64 {
    let inside = x >= 0.0 && x <= s && y >= 0.0 && y <= s;
    if inside {
        let dx = x.min(s - x);
        let dy = y.min(s - y);
        dx.min(dy)
    } else {
        let cx = x.clamp(0.0, s);
        let cy = y.clamp(0.0, s);
        ((x - cx) * (x - cx) + (y - cy) * (y - cy)).sqrt()
    }
}

/// The on-curve points (segment endpoints) of a path.
fn endpoints(p: &Path) -> Vec<(f64, f64)> {
    let mut out = Vec::new();
    for e in p.events().iter() {
        let pt = match e {
            PathEvent::Begin { at } => Some(at),
            PathEvent::Line { to } => Some(to),
            PathEvent::Cubic { to, .. } => Some(to),
            PathEvent::Quadratic { to, .. } => Some(to),
            PathEvent::End { .. } => None,
        };
        if let Some(pt) = pt {
            out.push((f32::from_bits(pt.x) as f64, f32::from_bits(pt.y) as f64));
        }
    }
    out
}

#[test]
fn zero_distance_offset_stays_near_boundary() {
    // Offsetting a closed convex polygon by 0 keeps every resulting point
    // within the fit tolerance (1.0) plus the sampling tolerance (0.01) of
    // the original boundary.
    let p = Path::parse_svg("M0,0 L20,0 L20,20 L0,20 Z").unwrap();
    let offsetter = FloCurvesOffset::new(&p, 0.0f64.to_bits());
    let r = offsetter.offset_path().unwrap();
    let pts = endpoints(&r);
    assert!(!pts.is_empty());
    for (x, y) in pts {
        let d = dist_to_square_boundary(x, y, 20.0);
        assert!(d <= 1.01, "point ({x},{y}) lies {d} away from the boundary");
    }
}

#[test]
fn offset_distance_is_respected_within_tolerances() {
    // For a convex closed shape, every resulting point sits at the offset
    // distance from the original boundary, within the combined stage
    // tolerances (0.01 + 1.0).
    let p = Path::parse_svg("M0,0 L20,0 L20,20 L0,20 Z").unwrap();
    let d = 2.0f64;
    let offsetter = FloCurvesOffset::new(&p, d.to_bits());
    let r = offsetter.offset_path().unwrap();
    let pts = endpoints(&r);
    assert!(!pts.is_empty());
    for (x, y) in pts {
        let dist = dist_to_square_boundary(x, y, 20.0);
        assert!(
            (dist - d).abs() <= 1.01,
            "point ({x},{y}) lies {dist} from the boundary, wanted about {d}"
        );
    }
}

#[test]
fn offset_result_is_closed() {
    let p = Path::parse_svg("M0,0 L20,0 L20,20 L0,20 Z").unwrap();
    let offsetter = FloCurvesOffset::new(&p, 1.0f64.to_bits());
    let r = offsetter.offset_path().unwrap();
    assert!(r.is_closed());
}

#[test]
fn offset_handles_quadratics_and_cubics() {
    let p = Path::parse_svg("M0,0 L20,0 Q30,10 20,20 C10,30 0,30 0,20 Z").unwrap();
    let offsetter = FloCurvesOffset::new(&p, 1.0f64.to_bits());
    assert!(!offsetter.curves().is_empty());
    let r = offsetter.offset_path().unwrap();
    assert!(!r.events().is_empty());
}

#[test]
fn degenerate_subpath_fails_with_fit_curve() {
    // A single zero-length subpath produces no usable samples: the fit
    // stage reports `FitCurve`; nothing panics and no empty path leaks out.
    let p = Path::parse_svg("M5,5 Z").unwrap();
    let offsetter = FloCurvesOffset::new(&p, 1.0f64.to_bits());
    assert!(matches!(offsetter.offset_path(), Err(PathError::FitCurve)));
}

#[test]
fn zero_length_segment_subpath_fails_with_fit_curve() {
    let p = Path::parse_svg("M5,5 L5,5 Z").unwrap();
    let offsetter = FloCurvesOffset::new(&p, 1.0f64.to_bits());
    assert!(matches!(offsetter.offset_path(), Err(PathError::FitCurve)));
}

#[test]
fn offset_through_the_trait() {
    let p = Path::parse_svg("M0,0 L20,0 L20,20 L0,20 Z").unwrap();
    let concrete = FloCurvesOffset::new(&p, 1.0f64.to_bits());
    let offsetter: &dyn Offset = &concrete;
    assert!(offsetter.offset_path().is_ok());
}

#[test]
fn reoffsetting_is_not_doubling() {
    // Not claimed: offsetting twice by d need not equal offsetting once by
    // 2d; the tolerances compound.  Both calls must still succeed on a
    // simple square.
    let p = Path::parse_svg("M0,0 L20,0 L20,20 L0,20 Z").unwrap();
    let once = FloCurvesOffset::new(&p, 2.0f64.to_bits()).offset_path().unwrap();
    let again = FloCurvesOffset::new(&once, 2.0f64.to_bits()).offset_path();
    let doubled = FloCurvesOffset::new(&p, 4.0f64.to_bits()).offset_path();
    assert!(again.is_ok());
    assert!(doubled.is_ok());
}

#[test]
fn open_subpath_is_closed_before_offsetting() {
    // An open subpath whose ends are far apart gets an implicit closing
    // line; offsetting the resulting triangle succeeds and is closed.
    let p = Path::parse_svg("M0,0 L20,0 L20,20").unwrap();
    let offsetter = FloCurvesOffset::new(&p, 1.0f64.to_bits());
    let r = offsetter.offset_path().unwrap();
    assert!(r.is_closed());
}

#[test]
fn every_subpath_is_offset() {
    // Two disjoint squares both contribute offset curves.
    let one = Path::parse_svg("M0,0 L10,0 L10,10 L0,10 Z").unwrap();
    let two = Path::parse_svg("M0,0 L10,0 L10,10 L0,10 Z M30,0 L40,0 L40,10 L30,10 Z").unwrap();
    let c1 = FloCurvesOffset::new(&one, 1.0f64.to_bits()).curves().len();
    let c2 = FloCurvesOffset::new(&two, 1.0f64.to_bits()).curves().len();
    assert!(c1 > 0);
    assert_eq!(c2, 2 * c1, "both subpaths must be offset");
}

#[test]
fn nan_coordinates_do_not_hang_the_sampler() {
    // NaN-tagged data is filtered, never propagated into geometry: the
    // pipeline terminates and reports the fit failure.
    let nan = f32::NAN.to_bits();
    let p = Path::from_events(vec![
        PathEvent::Begin { at: Point { x: nan, y: nan } },
        PathEvent::Line { to: Point { x: nan, y: nan } },
        PathEvent::End { close: true },
    ]);
    let offsetter = FloCurvesOffset::new(&p, 1.0f64.to_bits());
    assert!(matches!(offsetter.offset_path(), Err(PathError::FitCurve)));
}

#[test]
fn curves_convert_back_to_a_path() {
    // Each engine curve becomes one open single-segment subpath.
    let p = Path::parse_svg("M0,0 L10,0 L10,10 L0,10 Z").unwrap();
    let offsetter = FloCurvesOffset::new(&p, 1.0f64.to_bits());
    let n = offsetter.curves().len();
    let q = Path::from_curves(offsetter.curves());
    assert_eq!(q.events().len(), 3 * n);
    let mut count = 0;
    let mut it = q.iter();
    while let Some(sub) = it.next() {
        assert_eq!(sub.events().len(), 3);
        assert!(!sub.is_closed());
        count += 1;
    }
    assert_eq!(count, n);
}

#[test]
fn flat_ribbon_fails_with_clean_path() {
    // A back-and-forth path along one line has no interior at all: cleaning
    // yields no contour.
    let p = Path::parse_svg("M0,0 L10,0").unwrap();
    let offsetter = FloCurvesOffset::new(&p, 0.0f64.to_bits());
    assert!(matches!(offsetter.offset_path(), Err(PathError::CleanPath)));
}
