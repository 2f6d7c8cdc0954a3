use path_offset::path::point::Point;
use path_offset::path::{Path, PathEvent};

fn pt(x: f32, y: f32) -> Point {
    Point { x: x.to_bits(), y: y.to_bits() }
}

#[test]
fn subpath_iter_splits_runs() {
    let p = Path::parse_svg("M0,0 L1,0 M5,5 L6,5 Z").unwrap();
    let mut it = p.iter();
    let first = it.next().unwrap();
    assert_eq!(
        first.events().as_slice(),
        &[
            PathEvent::Begin { at: pt(0.0, 0.0) },
            PathEvent::Line { to: pt(1.0, 0.0) },
            PathEvent::End { close: false },
        ]
    );
    let second = it.next().unwrap();
    assert!(second.is_closed());
    assert!(it.next().is_none());
}

#[test]
fn subpath_iter_discards_stray_end() {
    // An `End` with no open run is skipped silently.
    let p = Path::from_events(vec![
        PathEvent::End { close: true },
        PathEvent::Begin { at: pt(1.0, 1.0) },
        PathEvent::End { close: false },
    ]);
    let subs: Vec<Path> = {
        let mut v = Vec::new();
        let mut it = p.iter();
        while let Some(sp) = it.next() {
            v.push(sp);
        }
        v
    };
    assert_eq!(subs.len(), 1);
    assert_eq!(
        subs[0].events().as_slice(),
        &[PathEvent::Begin { at: pt(1.0, 1.0) }, PathEvent::End { close: false }]
    );
}

#[test]
fn subpath_iter_discards_and_restarts_on_new_begin() {
    // A `Begin` inside an open run discards that run and restarts.
    let p = Path::from_events(vec![
        PathEvent::Begin { at: pt(0.0, 0.0) },
        PathEvent::Line { to: pt(1.0, 0.0) },
        PathEvent::Begin { at: pt(9.0, 9.0) },
        PathEvent::End { close: true },
    ]);
    let mut it = p.iter();
    let only = it.next().unwrap();
    assert_eq!(
        only.events().as_slice(),
        &[PathEvent::Begin { at: pt(9.0, 9.0) }, PathEvent::End { close: true }]
    );
    assert!(it.next().is_none());
}

#[test]
fn subpath_iter_discards_unterminated_tail() {
    let p = Path::from_events(vec![
        PathEvent::Begin { at: pt(0.0, 0.0) },
        PathEvent::Line { to: pt(1.0, 0.0) },
    ]);
    let mut it = p.iter();
    assert!(it.next().is_none());
}

#[test]
fn shell_of_empty_path_is_none() {
    let p = Path::parse_svg("").unwrap();
    assert!(p.find_outer_shell().is_none());
}

#[test]
fn shell_of_single_subpath_is_that_subpath() {
    // Even an open, degenerate subpath is the shell by definition.
    let p = Path::parse_svg("M3,4 L3,4").unwrap();
    let shell = p.find_outer_shell().unwrap();
    assert_eq!(shell.events(), p.events());
}

#[test]
fn shell_of_nested_squares_is_the_outer_one() {
    // A 10x10 counter-clockwise square (area +100) containing a 6x6
    // clockwise square (area -36): the area tier picks the outer square.
    let p = Path::parse_svg("M0,0 L10,0 L10,10 L0,10 Z M2,2 L2,8 L8,8 L8,2 Z").unwrap();
    let shell = p.find_outer_shell().unwrap();
    assert_eq!(
        shell.events().as_slice(),
        &[
            PathEvent::Begin { at: pt(0.0, 0.0) },
            PathEvent::Line { to: pt(10.0, 0.0) },
            PathEvent::Line { to: pt(10.0, 10.0) },
            PathEvent::Line { to: pt(0.0, 10.0) },
            PathEvent::End { close: true },
        ]
    );
}

#[test]
fn shell_fallback_returns_first_when_nothing_is_closed() {
    // With no closed subpath the area tier yields nothing; the containment
    // fallback then finds nothing containing anything and returns the first
    // subpath in iteration order.
    let p = Path::parse_svg("M0,0 L1,0 M5,5 L6,5 M9,9 L9,8").unwrap();
    let shell = p.find_outer_shell().unwrap();
    assert_eq!(
        shell.events().as_slice(),
        &[
            PathEvent::Begin { at: pt(0.0, 0.0) },
            PathEvent::Line { to: pt(1.0, 0.0) },
            PathEvent::End { close: false },
        ]
    );
}

#[test]
fn shell_area_tier_ignores_open_subpaths() {
    // A huge open subpath does not beat a small closed one.
    let p = Path::parse_svg("M0,0 L100,0 L100,100 M2,2 L2,8 L8,8 Z").unwrap();
    let shell = p.find_outer_shell().unwrap();
    assert!(shell.is_closed());
}

#[test]
fn duplicate_copies_events() {
    let p = Path::parse_svg("M1,2 L3,4 Z").unwrap();
    let q = p.duplicate();
    assert_eq!(p.events(), q.events());
}

#[test]
fn finite_coordinate_check() {
    let good = Path::parse_svg("M1,2").unwrap();
    assert!(good.has_finite_coords());
    let bad = Path::from_events(vec![PathEvent::Begin {
        at: Point { x: f32::INFINITY.to_bits(), y: 0 },
    }]);
    assert!(!bad.has_finite_coords());
}

#[test]
fn shell_ties_go_to_the_later_subpath() {
    // Two congruent closed squares: the areas tie exactly, and the area
    // tier's max keeps the later of equally large subpaths.
    let p = Path::parse_svg("M0,0 L4,0 L4,4 L0,4 Z M10,0 L14,0 L14,4 L10,4 Z").unwrap();
    let shell = p.find_outer_shell().unwrap();
    assert_eq!(
        shell.events()[0],
        PathEvent::Begin { at: pt(10.0, 0.0) },
        "ties must keep the later subpath"
    );
}
