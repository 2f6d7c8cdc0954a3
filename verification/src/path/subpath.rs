//! Decomposition of a path into its subpaths.
//!
//! A path's event stream may hold several `Begin … End` runs.  [`SubpathIter`]
//! yields each complete run as a single-subpath [`Path`].  Malformed streams
//! are handled by silent discard: an `End` or a segment with no open run is
//! skipped, a `Begin` met while a run is open discards that run and restarts
//! at the new `Begin` (discard-and-restart), and a trailing run with no `End`
//! is not emitted.

use vstd::prelude::*;

use crate::path::{Path, PathEvent};

verus! {

/// Continues scanning an open run whose events so far are `acc`; yields the
/// completed run and the index just past its `End`, or `None` when the
/// stream ends before the run does.
pub open spec fn run_from(evs: Seq<PathEvent>, i: int, acc: Seq<PathEvent>) -> Option<
    (Seq<PathEvent>, int),
>
    decreases evs.len() - i,
{
    if i < 0 || i >= evs.len() {
        None
    } else {
        match evs[i] {
            PathEvent::End { .. } => Some((acc.push(evs[i]), i + 1)),
            PathEvent::Begin { .. } => run_from(evs, i + 1, seq![evs[i]]),
            _ => run_from(evs, i + 1, acc.push(evs[i])),
        }
    }
}

/// Scans from `i` for the next complete `Begin … End` run.
pub open spec fn next_run(evs: Seq<PathEvent>, i: int) -> Option<(Seq<PathEvent>, int)>
    decreases evs.len() - i,
{
    if i < 0 || i >= evs.len() {
        None
    } else {
        match evs[i] {
            PathEvent::Begin { .. } => run_from(evs, i + 1, seq![evs[i]]),
            _ => next_run(evs, i + 1),
        }
    }
}

/// Helper for [`decompose`]: the runs found from `i` on, with `cur` holding
/// the events of the currently open run, if any.
pub open spec fn decompose_rec(evs: Seq<PathEvent>, i: int, cur: Option<Seq<PathEvent>>) -> Seq<
    Seq<PathEvent>,
>
    decreases evs.len() - i,
{
    if i < 0 || i >= evs.len() {
        Seq::empty()
    } else {
        match cur {
            Option::None => match evs[i] {
                PathEvent::Begin { .. } => decompose_rec(evs, i + 1, Some(seq![evs[i]])),
                _ => decompose_rec(evs, i + 1, Option::None),
            },
            Option::Some(run) => match evs[i] {
                PathEvent::End { .. } => seq![run.push(evs[i])] + decompose_rec(
                    evs,
                    i + 1,
                    Option::None,
                ),
                PathEvent::Begin { .. } => decompose_rec(evs, i + 1, Some(seq![evs[i]])),
                _ => decompose_rec(evs, i + 1, Some(run.push(evs[i]))),
            },
        }
    }
}

/// The complete `Begin … End` runs of an event stream, in order.
pub open spec fn decompose(evs: Seq<PathEvent>) -> Seq<Seq<PathEvent>> {
    decompose_rec(evs, 0, Option::None)
}

/// The shape of one emitted run: a `Begin`, any number of segments, one
/// `End`.
pub open spec fn wf_run(run: Seq<PathEvent>) -> bool {
    &&& run.len() >= 2
    &&& run[0] is Begin
    &&& run[run.len() - 1] is End
    &&& forall|k: int| 1 <= k < run.len() - 1 ==> (#[trigger] run[k]).is_segment()
}

/// A completed run keeps the `Begin segments* End` shape of its accumulator
/// and ends strictly past where it started.
proof fn lemma_run_from_shape(evs: Seq<PathEvent>, i: int, acc: Seq<PathEvent>)
    requires
        0 <= i <= evs.len(),
        acc.len() >= 1,
        acc[0] is Begin,
        forall|k: int| 1 <= k < acc.len() ==> (#[trigger] acc[k]).is_segment(),
    ensures
        match run_from(evs, i, acc) {
            Option::Some(pair) => i < pair.1 <= evs.len() && wf_run(pair.0),
            Option::None => true,
        },
    decreases evs.len() - i,
{
    if i < evs.len() {
        match evs[i] {
            PathEvent::End { .. } => {
                let run = acc.push(evs[i]);
                assert(run[0] is Begin);
                assert(forall|k: int| 1 <= k < run.len() - 1 ==> (#[trigger] run[k]).is_segment());
            },
            PathEvent::Begin { .. } => {
                lemma_run_from_shape(evs, i + 1, seq![evs[i]]);
            },
            _ => {
                let acc2 = acc.push(evs[i]);
                assert(forall|k: int| 1 <= k < acc2.len() ==> (#[trigger] acc2[k]).is_segment());
                lemma_run_from_shape(evs, i + 1, acc2);
            },
        }
    }
}

/// The next run found from `i`, if any, is well shaped and ends strictly
/// past `i`.
pub proof fn lemma_next_run_shape(evs: Seq<PathEvent>, i: int)
    requires
        0 <= i <= evs.len(),
    ensures
        match next_run(evs, i) {
            Option::Some(pair) => i < pair.1 <= evs.len() && wf_run(pair.0),
            Option::None => true,
        },
    decreases evs.len() - i,
{
    if i < evs.len() {
        match evs[i] {
            PathEvent::Begin { .. } => {
                lemma_run_from_shape(evs, i + 1, seq![evs[i]]);
            },
            _ => {
                lemma_next_run_shape(evs, i + 1);
            },
        }
    }
}

/// Relates the open-run tail of [`decompose_rec`] to [`run_from`].
proof fn lemma_decompose_run(evs: Seq<PathEvent>, i: int, acc: Seq<PathEvent>)
    requires
        0 <= i <= evs.len(),
    ensures
        decompose_rec(evs, i, Some(acc)) == match run_from(evs, i, acc) {
            Option::None => Seq::<Seq<PathEvent>>::empty(),
            Option::Some(pair) => seq![pair.0] + decompose_rec(evs, pair.1, Option::None),
        },
    decreases evs.len() - i,
{
    if i < evs.len() {
        match evs[i] {
            PathEvent::End { .. } => {},
            PathEvent::Begin { .. } => {
                lemma_decompose_run(evs, i + 1, seq![evs[i]]);
            },
            _ => {
                lemma_decompose_run(evs, i + 1, acc.push(evs[i]));
            },
        }
    }
}

/// Unrolls [`decompose_rec`] by one run: the runs from `i` are the next run,
/// if any, followed by the runs after it.
pub proof fn lemma_decompose_next(evs: Seq<PathEvent>, i: int)
    requires
        0 <= i <= evs.len(),
    ensures
        decompose_rec(evs, i, Option::None) == match next_run(evs, i) {
            Option::None => Seq::<Seq<PathEvent>>::empty(),
            Option::Some(pair) => seq![pair.0] + decompose_rec(evs, pair.1, Option::None),
        },
    decreases evs.len() - i,
{
    if i < evs.len() {
        match evs[i] {
            PathEvent::Begin { .. } => {
                lemma_decompose_run(evs, i + 1, seq![evs[i]]);
            },
            _ => {
                lemma_decompose_next(evs, i + 1);
            },
        }
    }
}

/// Every run that [`decompose`] yields is well shaped.
pub proof fn lemma_decompose_runs_shape(evs: Seq<PathEvent>, i: int)
    requires
        0 <= i <= evs.len(),
    ensures
        forall|k: int|
            0 <= k < decompose_rec(evs, i, Option::None).len() ==> wf_run(
                #[trigger] decompose_rec(evs, i, Option::None)[k],
            ),
    decreases evs.len() - i,
{
    lemma_decompose_next(evs, i);
    lemma_next_run_shape(evs, i);
    match next_run(evs, i) {
        Option::None => {},
        Option::Some(pair) => {
            lemma_decompose_runs_shape(evs, pair.1);
        },
    }
}

/// A completed run of a stream with finite coordinates has finite
/// coordinates.
proof fn lemma_run_from_finite(evs: Seq<PathEvent>, i: int, acc: Seq<PathEvent>)
    requires
        0 <= i <= evs.len(),
        crate::path::finite_coords(evs),
        crate::path::finite_coords(acc),
    ensures
        match run_from(evs, i, acc) {
            Option::Some(pair) => crate::path::finite_coords(pair.0),
            Option::None => true,
        },
    decreases evs.len() - i,
{
    if i < evs.len() {
        let acc2 = acc.push(evs[i]);
        assert forall|k: int| 0 <= k < acc2.len() implies (#[trigger] acc2[k]).spec_is_finite() by {
            if k < acc.len() {
                assert(acc[k].spec_is_finite());
            } else {
                assert(evs[i].spec_is_finite());
            }
        }
        let single = seq![evs[i]];
        assert forall|k: int| 0 <= k < single.len() implies (
        #[trigger] single[k]).spec_is_finite() by {
            assert(evs[i].spec_is_finite());
        }
        match evs[i] {
            PathEvent::End { .. } => {},
            PathEvent::Begin { .. } => {
                lemma_run_from_finite(evs, i + 1, single);
            },
            _ => {
                lemma_run_from_finite(evs, i + 1, acc2);
            },
        }
    }
}

/// The next run of a stream with finite coordinates has finite coordinates.
proof fn lemma_next_run_finite(evs: Seq<PathEvent>, i: int)
    requires
        0 <= i <= evs.len(),
        crate::path::finite_coords(evs),
    ensures
        match next_run(evs, i) {
            Option::Some(pair) => crate::path::finite_coords(pair.0),
            Option::None => true,
        },
    decreases evs.len() - i,
{
    if i < evs.len() {
        match evs[i] {
            PathEvent::Begin { .. } => {
                let single = seq![evs[i]];
                assert forall|k: int| 0 <= k < single.len() implies (
                #[trigger] single[k]).spec_is_finite() by {
                    assert(evs[i].spec_is_finite());
                }
                lemma_run_from_finite(evs, i + 1, single);
            },
            _ => {
                lemma_next_run_finite(evs, i + 1);
            },
        }
    }
}

/// Every run of a stream with finite coordinates has finite coordinates.
pub proof fn lemma_decompose_runs_finite(evs: Seq<PathEvent>, i: int)
    requires
        0 <= i <= evs.len(),
        crate::path::finite_coords(evs),
    ensures
        forall|k: int|
            0 <= k < decompose_rec(evs, i, Option::None).len() ==> crate::path::finite_coords(
                #[trigger] decompose_rec(evs, i, Option::None)[k],
            ),
    decreases evs.len() - i,
{
    lemma_decompose_next(evs, i);
    lemma_next_run_finite(evs, i);
    lemma_next_run_shape(evs, i);
    match next_run(evs, i) {
        Option::None => {},
        Option::Some(pair) => {
            lemma_decompose_runs_finite(evs, pair.1);
        },
    }
}

/// A well-shaped run is a well-formed event stream.
pub proof fn lemma_wf_run_well_formed(run: Seq<PathEvent>)
    requires
        wf_run(run),
    ensures
        crate::path::well_formed(run),
{
    lemma_wf_run_tail(run, 1);
}

/// Helper: from any position inside a well-shaped run, the rest of the run
/// scans cleanly with a subpath open.
proof fn lemma_wf_run_tail(run: Seq<PathEvent>, k: int)
    requires
        wf_run(run),
        1 <= k <= run.len() - 1,
    ensures
        crate::path::wf_from(run, k, true),
    decreases run.len() - k,
{
    if k == run.len() - 1 {
        assert(run[k] is End);
        assert(crate::path::wf_from(run, k + 1, false));
    } else {
        assert(run[k].is_segment());
        lemma_wf_run_tail(run, k + 1);
    }
}

/// Exec test for a `Begin` event.
fn event_is_begin(e: &PathEvent) -> (r: bool)
    ensures
        r == (e is Begin),
{
    match e {
        PathEvent::Begin { .. } => true,
        _ => false,
    }
}

/// An iterator that decomposes a path with several shapes into individual
/// single-subpath paths.  Created by [`Path::iter`].
pub struct SubpathIter<'a> {
    path: &'a Path,
    pos: usize,
}

impl<'a> SubpathIter<'a> {
    /// The event stream being decomposed.
    pub closed spec fn spec_events(&self) -> Seq<PathEvent> {
        self.path@
    }

    /// The scan position: events before it have been consumed.
    pub closed spec fn spec_pos(&self) -> int {
        self.pos as int
    }

    /// Yields the next complete subpath, or `None` when the stream is
    /// exhausted (any trailing unterminated run is discarded).
    pub fn next(&mut self) -> (r: Option<Path>)
        ensures
            final(self).spec_events() == old(self).spec_events(),
            match next_run(old(self).spec_events(), old(self).spec_pos()) {
                Option::None => r is None && final(self).spec_pos() == old(
                    self
                ).spec_events().len(),
                Option::Some(pair) => {
                    &&& r matches Some(p) && p@ == pair.0
                    &&& final(self).spec_pos() == pair.1
                },
            },
    {
        let ghost evs_s = self.path@;
        let ghost start = self.pos as int;
        let events = self.path.events();
        let n = events.len();
        if self.pos >= n {
            self.pos = n;
            return None;
        }
        let mut i: usize = self.pos;

        // Find the next `Begin`; everything before it is discarded.
        while i < n && !event_is_begin(&events[i])
            invariant
                start <= i as int <= n,
                n == evs_s.len(),
                events@ == evs_s,
                evs_s == old(self).spec_events(),
                start == old(self).spec_pos(),
                self == old(self),
                next_run(evs_s, start) == next_run(evs_s, i as int),
            decreases n - i,
        {
            assert(next_run(evs_s, i as int) == next_run(evs_s, i + 1));
            i += 1;
        }
        if i == n {
            self.pos = n;
            return None;
        }
        // An open run: accumulate until its `End`.
        let mut run: Vec<PathEvent> = Vec::new();
        run.push(events[i]);
        proof {
            assert(run@ =~= seq![evs_s[i as int]]);
            assert(next_run(evs_s, start) == run_from(evs_s, i + 1, run@));
        }
        i += 1;
        while i < n
            invariant
                start <= i as int <= n,
                n == evs_s.len(),
                events@ == evs_s,
                evs_s == old(self).spec_events(),
                start == old(self).spec_pos(),
                self.path == old(self).path,
                next_run(evs_s, start) == run_from(evs_s, i as int, run@),
            decreases n - i,
        {
            let e = events[i];
            match e {
                PathEvent::End { close: _ } => {
                    proof {
                        assert(e == evs_s[i as int]);
                        assert(run_from(evs_s, i as int, run@) == Some(
                            (run@.push(evs_s[i as int]), i as int + 1),
                        ));
                    }
                    run.push(e);
                    self.pos = i + 1;
                    return Some(Path::from_events(run));
                },
                PathEvent::Begin { .. } => {
                    let mut restarted: Vec<PathEvent> = Vec::new();
                    restarted.push(e);
                    proof {
                        assert(restarted@ =~= seq![evs_s[i as int]]);
                    }
                    run = restarted;
                },
                _ => {
                    run.push(e);
                },
            }
            i += 1;
        }
        // The stream ended inside a run: the run is discarded.
        self.pos = n;
        None
    }
}

impl Path {
    /// An iterator over the subpaths of this path, each as a single-subpath
    /// [`Path`].
    pub fn iter(&self) -> (it: SubpathIter<'_>)
        ensures
            it.spec_events() == self@,
            it.spec_pos() == 0,
    {
        SubpathIter { path: self, pos: 0 }
    }

    /// All subpaths of this path, in order: the complete `Begin … End` runs
    /// of the event stream.
    pub fn subpaths(&self) -> (r: Vec<Path>)
        ensures
            r@.map_values(|p: Path| p@) == decompose(self@),
    {
        let ghost evs_s = self@;
        let mut it = self.iter();
        let mut out: Vec<Path> = Vec::new();
        proof {
            assert(out@.map_values(|p: Path| p@) =~= Seq::<Seq<PathEvent>>::empty());
            assert(decompose(evs_s) =~~= out@.map_values(|p: Path| p@) + decompose_rec(
                evs_s,
                0,
                Option::None,
            ));
        }
        loop
            invariant
                it.spec_events() == evs_s,
                0 <= it.spec_pos() <= evs_s.len(),
                decompose(evs_s) == out@.map_values(|p: Path| p@) + decompose_rec(
                    evs_s,
                    it.spec_pos(),
                    Option::None,
                ),
            ensures
                out@.map_values(|p: Path| p@) == decompose(evs_s),
            decreases evs_s.len() - it.spec_pos(),
        {
            let ghost pos0 = it.spec_pos();
            proof {
                lemma_decompose_next(evs_s, pos0);
                lemma_next_run_shape(evs_s, pos0);
            }
            match it.next() {
                Option::Some(p) => {
                    let ghost prev = out@.map_values(|q: Path| q@);
                    out.push(p);
                    proof {
                        assert(out@.map_values(|q: Path| q@) =~~= prev.push(p@));
                        assert(decompose(evs_s) =~~= out@.map_values(|q: Path| q@)
                            + decompose_rec(evs_s, it.spec_pos(), Option::None));
                    }
                },
                Option::None => {
                    proof {
                        assert(decompose(evs_s) =~~= out@.map_values(|q: Path| q@));
                    }
                    break ;
                },
            }
        }
        out
    }
}

} // verus!
