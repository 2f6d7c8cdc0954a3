//! The path model: an ordered stream of path events.
//!
//! A [`Path`] holds the event stream of one or more subpaths.  Each subpath
//! is a `Begin … End` run; segments between them are lines, quadratics or
//! cubics relative to the implicit current point.

use vstd::prelude::*;

use crate::path::point::Point;

pub mod geometry;
pub mod parse;
pub mod point;
pub mod shell;
pub mod subpath;
pub mod svg;

verus! {

/// One event of a path's stream.
#[derive(Debug, Clone, Copy, PartialEq, Eq, Structural)]
pub enum PathEvent {
    /// Begin a new subpath at an absolute point.
    Begin { at: Point },
    /// A line from the current point.
    Line { to: Point },
    /// A quadratic bezier from the current point.
    Quadratic { ctrl: Point, to: Point },
    /// A cubic bezier from the current point.
    Cubic { ctrl1: Point, ctrl2: Point, to: Point },
    /// End the current subpath, optionally closing it back to its start.
    End { close: bool },
}

impl PathEvent {
    /// True iff the event is a segment (not a `Begin` or an `End`).
    pub open spec fn is_segment(&self) -> bool {
        match self {
            PathEvent::Line { .. } => true,
            PathEvent::Quadratic { .. } => true,
            PathEvent::Cubic { .. } => true,
            _ => false,
        }
    }

    /// True iff every coordinate the event carries encodes a finite single.
    pub open spec fn spec_is_finite(&self) -> bool {
        match self {
            PathEvent::Begin { at } => at.spec_is_finite(),
            PathEvent::Line { to } => to.spec_is_finite(),
            PathEvent::Quadratic { ctrl, to } => ctrl.spec_is_finite() && to.spec_is_finite(),
            PathEvent::Cubic { ctrl1, ctrl2, to } => ctrl1.spec_is_finite() && ctrl2.spec_is_finite()
                && to.spec_is_finite(),
            PathEvent::End { .. } => true,
        }
    }

    /// Exec check of [`PathEvent::spec_is_finite`].
    pub fn is_finite(&self) -> (r: bool)
        ensures
            r == self.spec_is_finite(),
    {
        match self {
            PathEvent::Begin { at } => at.is_finite(),
            PathEvent::Line { to } => to.is_finite(),
            PathEvent::Quadratic { ctrl, to } => ctrl.is_finite() && to.is_finite(),
            PathEvent::Cubic { ctrl1, ctrl2, to } => ctrl1.is_finite() && ctrl2.is_finite()
                && to.is_finite(),
            PathEvent::End { close: _ } => true,
        }
    }
}

/// Helper for [`well_formed`]: scans the stream from `i` with `building`
/// saying whether a subpath is currently open.
pub open spec fn wf_from(evs: Seq<PathEvent>, i: int, building: bool) -> bool
    decreases evs.len() - i,
{
    if i < 0 || i >= evs.len() {
        !building
    } else {
        match evs[i] {
            PathEvent::Begin { .. } => !building && wf_from(evs, i + 1, true),
            PathEvent::End { .. } => building && wf_from(evs, i + 1, false),
            _ => building && wf_from(evs, i + 1, true),
        }
    }
}

/// An event stream is well formed when it is a concatenation of complete
/// `Begin … End` runs: every segment and every `End` stands in an open run,
/// and no run is left open at the end.
pub open spec fn well_formed(evs: Seq<PathEvent>) -> bool {
    wf_from(evs, 0, false)
}

/// Like [`wf_from`], but yields the final open-run flag instead of requiring
/// it to be false: `None` when the discipline is broken along the way.
pub open spec fn wf_scan(evs: Seq<PathEvent>, i: int, building: bool) -> Option<bool>
    decreases evs.len() - i,
{
    if i < 0 || i >= evs.len() {
        Some(building)
    } else {
        match evs[i] {
            PathEvent::Begin { .. } => if building {
                None
            } else {
                wf_scan(evs, i + 1, true)
            },
            PathEvent::End { .. } => if !building {
                None
            } else {
                wf_scan(evs, i + 1, false)
            },
            _ => if !building {
                None
            } else {
                wf_scan(evs, i + 1, true)
            },
        }
    }
}

/// One event's effect on the open-run flag.
pub open spec fn scan_step(b: Option<bool>, e: PathEvent) -> Option<bool> {
    match b {
        Option::None => None,
        Option::Some(bb) => match e {
            PathEvent::Begin { .. } => if bb {
                None
            } else {
                Some(true)
            },
            PathEvent::End { .. } => if !bb {
                None
            } else {
                Some(false)
            },
            _ => if !bb {
                None
            } else {
                Some(true)
            },
        },
    }
}

/// A stream is well formed exactly when its scan closes every run.
pub proof fn lemma_wf_scan_wf(evs: Seq<PathEvent>, i: int, building: bool)
    requires
        0 <= i <= evs.len(),
    ensures
        wf_from(evs, i, building) <==> wf_scan(evs, i, building) == Some(false),
    decreases evs.len() - i,
{
    if i < evs.len() {
        match evs[i] {
            PathEvent::Begin { .. } => {
                lemma_wf_scan_wf(evs, i + 1, true);
            },
            PathEvent::End { .. } => {
                lemma_wf_scan_wf(evs, i + 1, false);
            },
            _ => {
                lemma_wf_scan_wf(evs, i + 1, true);
            },
        }
    }
}

/// Scanning one appended event steps the scan.
pub proof fn lemma_wf_scan_snoc(evs: Seq<PathEvent>, e: PathEvent, i: int, building: bool)
    requires
        0 <= i <= evs.len(),
    ensures
        wf_scan(evs.push(e), i, building) == scan_step(wf_scan(evs, i, building), e),
    decreases evs.len() - i,
{
    let evs2 = evs.push(e);
    if i == evs.len() {
        assert(evs2[i] == e);
        assert(wf_scan(evs2, i + 1, true) == Some(true));
        assert(wf_scan(evs2, i + 1, false) == Some(false));
    } else {
        assert(evs2[i] == evs[i]);
        match evs[i] {
            PathEvent::Begin { .. } => {
                lemma_wf_scan_snoc(evs, e, i + 1, true);
            },
            PathEvent::End { .. } => {
                lemma_wf_scan_snoc(evs, e, i + 1, false);
            },
            _ => {
                lemma_wf_scan_snoc(evs, e, i + 1, true);
            },
        }
    }
}

/// True iff every coordinate of the stream encodes a finite single.
pub open spec fn finite_coords(evs: Seq<PathEvent>) -> bool {
    forall|i: int| 0 <= i < evs.len() ==> (#[trigger] evs[i]).spec_is_finite()
}

/// A geometric path: an ordered stream of path events describing one or more
/// subpaths.
#[derive(Debug, Clone)]
pub struct Path {
    events: Vec<PathEvent>,
}

impl View for Path {
    type V = Seq<PathEvent>;

    closed spec fn view(&self) -> Seq<PathEvent> {
        self.events@
    }
}

impl Path {
    /// Builds a path directly from an event stream.
    pub fn from_events(events: Vec<PathEvent>) -> (r: Path)
        ensures
            r@ == events@,
    {
        Path { events }
    }

    /// The path's event stream.
    pub fn events(&self) -> (r: &Vec<PathEvent>)
        ensures
            r@ == self@,
    {
        &self.events
    }

    /// True iff some `End` event of the stream closes its subpath.
    pub open spec fn spec_is_closed(evs: Seq<PathEvent>) -> bool {
        exists|i: int| 0 <= i < evs.len() && evs[i] == (PathEvent::End { close: true })
    }

    /// Checks whether the path is closed: true iff any `End` event of the
    /// stream carries `close = true`.
    pub fn is_closed(&self) -> (r: bool)
        ensures
            r == Path::spec_is_closed(self@),
    {
        let n = self.events.len();
        let mut i: usize = 0;
        while i < n
            invariant
                n == self.events.len(),
                i <= n,
                forall|j: int|
                    0 <= j < i ==> self.events@[j] != (PathEvent::End { close: true }),
            decreases n - i,
        {
            if let PathEvent::End { close: true } = self.events[i] {
                return true;
            }
            i += 1;
        }
        false
    }

    /// A copy of this path with the same event stream.
    pub fn duplicate(&self) -> (r: Path)
        ensures
            r@ == self@,
    {
        let n = self.events.len();
        let mut out: Vec<PathEvent> = Vec::new();
        let mut i: usize = 0;
        while i < n
            invariant
                i <= n,
                n == self.events.len(),
                out@ == self.events@.take(i as int),
            decreases n - i,
        {
            out.push(self.events[i]);
            proof {
                assert(out@ =~= self.events@.take(i as int + 1));
            }
            i += 1;
        }
        proof {
            assert(out@ =~= self.events@);
        }
        Path { events: out }
    }

    /// Checks that every coordinate of the path is finite.
    pub fn has_finite_coords(&self) -> (r: bool)
        ensures
            r == finite_coords(self@),
    {
        let n = self.events.len();
        let mut i: usize = 0;
        while i < n
            invariant
                n == self.events.len(),
                i <= n,
                forall|j: int| 0 <= j < i ==> (#[trigger] self.events@[j]).spec_is_finite(),
            decreases n - i,
        {
            if !self.events[i].is_finite() {
                return false;
            }
            i += 1;
        }
        true
    }
}

} // verus!

