use path_offset::error::PathError;
use path_offset::path::point::Point;
use path_offset::path::{Path, PathEvent};

fn pt(x: f32, y: f32) -> Point {
    Point { x: x.to_bits(), y: y.to_bits() }
}

#[test]
fn parse_square() {
    let p = Path::parse_svg("M10,10 L20,10 L20,20 L10,20 Z").unwrap();
    assert_eq!(
        p.events().as_slice(),
        &[
            PathEvent::Begin { at: pt(10.0, 10.0) },
            PathEvent::Line { to: pt(20.0, 10.0) },
            PathEvent::Line { to: pt(20.0, 20.0) },
            PathEvent::Line { to: pt(10.0, 20.0) },
            PathEvent::End { close: true },
        ]
    );
    assert!(p.is_closed());
}

#[test]
fn parse_compact_form() {
    // The original's serialized form has no separators between commands.
    let p = Path::parse_svg("M10,10L20,10Q25,15 20,20C15,25 10,25 10,20Z").unwrap();
    assert_eq!(p.events().len(), 5);
    assert!(matches!(p.events()[2], PathEvent::Quadratic { .. }));
    assert!(matches!(p.events()[3], PathEvent::Cubic { .. }));
}

#[test]
fn parse_open_subpath_gets_implicit_end() {
    let p = Path::parse_svg("M1,2 L3,4").unwrap();
    assert_eq!(
        p.events().as_slice(),
        &[
            PathEvent::Begin { at: pt(1.0, 2.0) },
            PathEvent::Line { to: pt(3.0, 4.0) },
            PathEvent::End { close: false },
        ]
    );
    assert!(!p.is_closed());
}

#[test]
fn parse_new_move_ends_open_subpath() {
    let p = Path::parse_svg("M1,2 L3,4 M5,6 L7,8 Z").unwrap();
    assert_eq!(
        p.events().as_slice(),
        &[
            PathEvent::Begin { at: pt(1.0, 2.0) },
            PathEvent::Line { to: pt(3.0, 4.0) },
            PathEvent::End { close: false },
            PathEvent::Begin { at: pt(5.0, 6.0) },
            PathEvent::Line { to: pt(7.0, 8.0) },
            PathEvent::End { close: true },
        ]
    );
}

#[test]
fn parse_rejects_garbage() {
    assert!(matches!(Path::parse_svg("garbage"), Err(PathError::Parse(_))));
}

#[test]
fn parse_rejects_segment_before_move() {
    assert!(matches!(Path::parse_svg("L1,2"), Err(PathError::Parse(_))));
}

#[test]
fn parse_rejects_missing_coordinates() {
    assert!(matches!(Path::parse_svg("M1,2 L"), Err(PathError::Parse(_))));
    assert!(matches!(Path::parse_svg("M1,2 L3"), Err(PathError::Parse(_))));
    assert!(matches!(Path::parse_svg("M1"), Err(PathError::Parse(_))));
}

#[test]
fn parse_rejects_bad_numeral() {
    assert!(matches!(Path::parse_svg("M1..2,3"), Err(PathError::Parse(_))));
}

#[test]
fn parse_rejects_overflowing_coordinate() {
    // Reads as infinity, and a path's points are finite.
    assert!(matches!(Path::parse_svg("M1e99,0"), Err(PathError::Parse(_))));
}

#[test]
fn parse_empty_text_is_empty_path() {
    let p = Path::parse_svg("").unwrap();
    assert_eq!(p.events().len(), 0);
}

#[test]
fn svg_exact_text() {
    let p = Path::parse_svg("M10,10 L20,10 Z").unwrap();
    assert_eq!(p.to_svg().unwrap(), "M10,10L20,10Z");
}

#[test]
fn svg_exact_text_with_curves() {
    // Only the pairs of a Q or C command are space-separated.
    let p = Path::parse_svg("M10,10 L20,10 Q25,15 20,20 C15,25 10,25 10,20 Z").unwrap();
    assert_eq!(
        p.to_svg().unwrap(),
        "M10,10L20,10Q25,15 20,20C15,25 10,25 10,20Z"
    );
}

#[test]
fn svg_fractional_coordinates_kept_exactly() {
    let p = Path::parse_svg("M0.1,-2.5 L0.2,3.75").unwrap();
    assert_eq!(p.to_svg().unwrap(), "M0.1,-2.5L0.2,3.75");
}

#[test]
fn svg_round_trip() {
    // Parsing the serialized form of a parsed path gives the same path.
    for text in [
        "M10,10 L20,10 L20,20 L10,20 Z",
        "M0.1,0.2 Q1.5,2.25 3,4 C5,6 7,8 9,10",
        "M1,2 L3,4 M5,6 L7,8 Z M-1,-2 Z",
        "",
    ] {
        let p1 = Path::parse_svg(text).unwrap();
        let s = p1.to_svg().unwrap();
        let p2 = Path::parse_svg(s.as_str()).unwrap();
        assert_eq!(p1.events(), p2.events(), "round trip failed for {text:?}");
    }
}

#[test]
fn svg_refuses_non_finite_coordinates() {
    let p = Path::from_events(vec![
        PathEvent::Begin { at: Point { x: f32::NAN.to_bits(), y: 0 } },
        PathEvent::End { close: false },
    ]);
    assert!(p.to_svg().is_none());
}

#[test]
fn error_descriptions() {
    assert_eq!(
        PathError::Parse(3).describe(),
        "failed to parse SVG path data"
    );
    assert_eq!(
        PathError::FitCurve.describe(),
        "failed to fit a curve to the points"
    );
    assert_eq!(PathError::CleanPath.describe(), "failed to clean the path");
    assert_eq!(
        PathError::Io(String::from("pipe broke")).describe(),
        "I/O error"
    );
}

#[test]
fn svg_round_trips_subnormal_coordinates() {
    // Subnormal singles print as long decimals and must come back bit-exact.
    let tiny = 1.0e-40f32;
    let p = Path::from_events(vec![
        PathEvent::Begin { at: Point { x: tiny.to_bits(), y: (-tiny).to_bits() } },
        PathEvent::End { close: true },
    ]);
    let s = p.to_svg().unwrap();
    let q = Path::parse_svg(s.as_str()).unwrap();
    assert_eq!(p.events(), q.events());
}
