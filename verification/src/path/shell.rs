//! Finding the outermost shell among the subpaths of a path.
//!
//! Two tiers: a fast area heuristic over the closed subpaths (largest signed
//! area in the IEEE-754 total order, later subpaths winning ties), and, only
//! when that tier yields nothing, a geometric-containment fallback that
//! selects the first subpath contained by no other.

use vstd::prelude::*;

use crate::float_bits::spec_total_le32;
use crate::path::geometry::{
    approx_area_bits, area_bits_of, bbox_of, bounding_box_bits, boxes_intersect, hit_of,
    hit_test_bits, lyon_events, spec_boxes_intersect, to_lyon,
};
use crate::path::point::Point;
use crate::path::subpath::{
    decompose, lemma_decompose_runs_finite, lemma_decompose_runs_shape, lemma_wf_run_well_formed,
    wf_run,
};
use crate::path::{finite_coords, Path, PathEvent};
use lyon::path::Path as LyonPath;

verus! {

/// Tolerance of the area approximation: the bits of `0.01` as an IEEE-754
/// single.
pub const AREA_TOLERANCE_BITS: u32 = 0x3C23D70A;

/// Tolerance of the containment hit test: the bits of `0.1` as an IEEE-754
/// single.
pub const HIT_TOLERANCE_BITS: u32 = 0x3DCCCCCD;

/// The event streams of a sequence of paths.
pub open spec fn views_of(ps: Seq<Path>) -> Seq<Seq<PathEvent>> {
    ps.map_values(|p: Path| p@)
}

/// The area tier over the first `n` runs: among the closed ones, the index
/// whose approximate signed area ranks highest in the IEEE-754 total order;
/// on ties the later run wins (the semantics of `Iterator::max_by`).  `None`
/// when no closed run exists.
pub open spec fn shell_by_area_rec(runs: Seq<Seq<PathEvent>>, n: int) -> Option<int>
    decreases n,
{
    if n <= 0 {
        None
    } else {
        let prev = shell_by_area_rec(runs, n - 1);
        if !Path::spec_is_closed(runs[n - 1]) {
            prev
        } else {
            match prev {
                Option::None => Some(n - 1),
                Option::Some(b) => if spec_total_le32(
                    area_bits_of(runs[b], AREA_TOLERANCE_BITS),
                    area_bits_of(runs[n - 1], AREA_TOLERANCE_BITS),
                ) {
                    Some(n - 1)
                } else {
                    Some(b)
                },
            }
        }
    }
}

/// The area tier over all runs.
pub open spec fn spec_shell_by_area(runs: Seq<Seq<PathEvent>>) -> Option<int> {
    shell_by_area_rec(runs, runs.len() as int)
}

/// The first endpoint of a run (the point of its leading `Begin`).
pub open spec fn run_first_point(run: Seq<PathEvent>) -> Point {
    match run[0] {
        PathEvent::Begin { at } => at,
        _ => Point { x: 0, y: 0 },
    }
}

/// Run `i` is geometrically contained by run `j`: they are distinct, both
/// closed, and `i`'s first endpoint hits inside `j` under the even-odd rule.
pub open spec fn spec_contained_by(runs: Seq<Seq<PathEvent>>, i: int, j: int) -> bool {
    &&& i != j
    &&& Path::spec_is_closed(runs[i])
    &&& Path::spec_is_closed(runs[j])
    &&& hit_of(run_first_point(runs[i]).x, run_first_point(runs[i]).y, runs[j], HIT_TOLERANCE_BITS)
}

/// Run `i` is a shell candidate: no run whose bounding box meets `i`'s
/// contains it.
pub open spec fn spec_is_shell_candidate(runs: Seq<Seq<PathEvent>>, i: int) -> bool {
    forall|j: int|
        0 <= j < runs.len() ==> !(spec_boxes_intersect(bbox_of(runs[i]), bbox_of(#[trigger] runs[j]))
            && spec_contained_by(runs, i, j))
}

/// The containment tier: the first run, in order, contained by no other.
pub open spec fn first_candidate(runs: Seq<Seq<PathEvent>>, i: int) -> Option<int>
    decreases runs.len() - i,
{
    if i < 0 || i >= runs.len() {
        None
    } else if spec_is_shell_candidate(runs, i) {
        Some(i)
    } else {
        first_candidate(runs, i + 1)
    }
}

/// Tier 1: the closed subpath with the largest approximate signed area, ties
/// going to the later subpath; `None` when no subpath is closed.
fn find_shell_by_area(paths: &Vec<Path>) -> (r: Option<Path>)
    requires
        forall|k: int|
            0 <= k < paths@.len() ==> wf_run(#[trigger] paths@[k]@) && finite_coords(paths@[k]@),
    ensures
        match spec_shell_by_area(views_of(paths@)) {
            Option::None => r is None,
            Option::Some(b) => r matches Some(p) && p@ == views_of(paths@)[b],
        },
{
    let ghost runs = views_of(paths@);
    let n = paths.len();
    let mut best: Option<usize> = None;
    let mut best_area: u32 = 0;
    let mut i: usize = 0;
    while i < n
        invariant
            i <= n,
            n == paths@.len(),
            runs == views_of(paths@),
            runs.len() == n,
            forall|k: int|
                0 <= k < paths@.len() ==> wf_run(#[trigger] paths@[k]@) && finite_coords(
                    paths@[k]@,
                ),
            match shell_by_area_rec(runs, i as int) {
                Option::None => best is None,
                Option::Some(b) => {
                    &&& best matches Some(bu) && bu as int == b
                    &&& 0 <= b < i
                    &&& best_area == area_bits_of(runs[b], AREA_TOLERANCE_BITS)
                },
            },
        decreases n - i,
    {
        if paths[i].is_closed() {
            proof {
                lemma_wf_run_well_formed(runs[i as int]);
            }
            let lp = to_lyon(&paths[i]);
            let a = approx_area_bits(&lp, AREA_TOLERANCE_BITS);
            match best {
                Option::None => {
                    best = Some(i);
                    best_area = a;
                },
                Option::Some(_) => {
                    if crate::float_bits::total_le32(best_area, a) {
                        best = Some(i);
                        best_area = a;
                    }
                },
            }
        }
        i += 1;
    }
    match best {
        Option::Some(b) => Some(paths[b].duplicate()),
        Option::None => None,
    }
}

/// Tier 2: the first subpath not geometrically contained by any other whose
/// bounding box meets it; `None` when every subpath is contained by some
/// other.
fn find_shell_by_containment(paths: &Vec<Path>) -> (r: Option<Path>)
    requires
        forall|k: int|
            0 <= k < paths@.len() ==> wf_run(#[trigger] paths@[k]@) && finite_coords(paths@[k]@),
    ensures
        match first_candidate(views_of(paths@), 0) {
            Option::None => r is None,
            Option::Some(c) => r matches Some(p) && p@ == views_of(paths@)[c],
        },
{
    let ghost runs = views_of(paths@);
    let n = paths.len();

    // Precompute per subpath: its lyon form, bounding box, closedness and
    // first endpoint.
    let mut lps: Vec<LyonPath> = Vec::new();
    let mut boxes: Vec<(u32, u32, u32, u32)> = Vec::new();
    let mut closed: Vec<bool> = Vec::new();
    let mut firsts: Vec<Point> = Vec::new();
    let mut i: usize = 0;
    while i < n
        invariant
            i <= n,
            n == paths@.len(),
            runs == views_of(paths@),
            runs.len() == n,
            forall|k: int|
                0 <= k < paths@.len() ==> wf_run(#[trigger] paths@[k]@) && finite_coords(
                    paths@[k]@,
                ),
            lps@.len() == i,
            boxes@.len() == i,
            closed@.len() == i,
            firsts@.len() == i,
            forall|k: int| 0 <= k < i ==> lyon_events(#[trigger] lps@[k]) == runs[k],
            forall|k: int| 0 <= k < i ==> #[trigger] boxes@[k] == bbox_of(runs[k]),
            forall|k: int| 0 <= k < i ==> #[trigger] closed@[k] == Path::spec_is_closed(runs[k]),
            forall|k: int| 0 <= k < i ==> #[trigger] firsts@[k] == run_first_point(runs[k]),
        decreases n - i,
    {
        proof {
            lemma_wf_run_well_formed(runs[i as int]);
        }
        let lp = to_lyon(&paths[i]);
        let bb = bounding_box_bits(&lp);
        lps.push(lp);
        boxes.push(bb);
        closed.push(paths[i].is_closed());
        let ev0 = paths[i].events()[0];
        let fp = match ev0 {
            PathEvent::Begin { at } => at,
            _ => Point { x: 0, y: 0 },
        };
        firsts.push(fp);
        i += 1;
    }

    let mut i: usize = 0;
    while i < n
        invariant
            i <= n,
            n == paths@.len(),
            runs == views_of(paths@),
            runs.len() == n,
            lps@.len() == n,
            boxes@.len() == n,
            closed@.len() == n,
            firsts@.len() == n,
            forall|k: int| 0 <= k < n ==> lyon_events(#[trigger] lps@[k]) == runs[k],
            forall|k: int| 0 <= k < n ==> #[trigger] boxes@[k] == bbox_of(runs[k]),
            forall|k: int| 0 <= k < n ==> #[trigger] closed@[k] == Path::spec_is_closed(runs[k]),
            forall|k: int| 0 <= k < n ==> #[trigger] firsts@[k] == run_first_point(runs[k]),
            first_candidate(runs, 0) == first_candidate(runs, i as int),
        decreases n - i,
    {
        let mut contained = false;
        let mut j: usize = 0;
        while j < n
            invariant
                j <= n,
                i < n,
                n == paths@.len(),
                runs == views_of(paths@),
                runs.len() == n,
                lps@.len() == n,
                boxes@.len() == n,
                closed@.len() == n,
                firsts@.len() == n,
                forall|k: int| 0 <= k < n ==> lyon_events(#[trigger] lps@[k]) == runs[k],
                forall|k: int| 0 <= k < n ==> #[trigger] boxes@[k] == bbox_of(runs[k]),
                forall|k: int|
                    0 <= k < n ==> #[trigger] closed@[k] == Path::spec_is_closed(runs[k]),
                forall|k: int| 0 <= k < n ==> #[trigger] firsts@[k] == run_first_point(runs[k]),
                !contained ==> forall|j2: int|
                    0 <= j2 < j ==> !(spec_boxes_intersect(
                        bbox_of(runs[i as int]),
                        bbox_of(#[trigger] runs[j2]),
                    ) && spec_contained_by(runs, i as int, j2)),
                contained ==> !spec_is_shell_candidate(runs, i as int),
            decreases n - j,
        {
            if !contained {
                let inter = boxes_intersect(boxes[i], boxes[j]);
                let c = i != j && closed[i] && closed[j] && inter && hit_test_bits(
                    firsts[i].x,
                    firsts[i].y,
                    &lps[j],
                    HIT_TOLERANCE_BITS,
                );
                if c {
                    contained = true;
                    proof {
                        assert(spec_boxes_intersect(bbox_of(runs[i as int]), bbox_of(runs[j as int]))
                            && spec_contained_by(runs, i as int, j as int));
                        assert(!spec_is_shell_candidate(runs, i as int));
                    }
                }
            }
            j += 1;
        }
        if !contained {
            proof {
                assert(spec_is_shell_candidate(runs, i as int));
                assert(first_candidate(runs, i as int) == Some(i as int));
            }
            return Some(paths[i].duplicate());
        }
        proof {
            assert(first_candidate(runs, i as int) == first_candidate(runs, i as int + 1));
        }
        i += 1;
    }
    None
}

impl Path {
    /// Finds the subpath that forms the outermost shell.
    ///
    /// With no subpaths there is no shell; a single subpath is the shell by
    /// definition, open or degenerate as it may be.  With several, the area
    /// tier picks the closed subpath of largest approximate signed area
    /// (ties to the later one); when no subpath is closed, the containment
    /// fallback returns the first subpath contained by no other, or nothing
    /// when every subpath is contained.
    pub fn find_outer_shell(&self) -> (r: Option<Path>)
        requires
            finite_coords(self@),
        ensures
            ({
                let runs = decompose(self@);
                &&& (runs.len() == 0 ==> r is None)
                &&& (runs.len() == 1 ==> (r matches Some(p) && p@ == runs[0]))
                &&& (runs.len() >= 2 ==> match spec_shell_by_area(runs) {
                    Option::Some(b) => r matches Some(p) && p@ == runs[b],
                    Option::None => match first_candidate(runs, 0) {
                        Option::Some(c) => r matches Some(p) && p@ == runs[c],
                        Option::None => r is None,
                    },
                })
            }),
    {
        let ghost runs = decompose(self@);
        proof {
            lemma_decompose_runs_shape(self@, 0);
            lemma_decompose_runs_finite(self@, 0);
        }
        let subs = self.subpaths();
        proof {
            assert forall|k: int| 0 <= k < subs@.len() implies wf_run(#[trigger] subs@[k]@)
                && finite_coords(subs@[k]@) by {
                assert(subs@.map_values(|p: Path| p@)[k] == subs@[k]@);
                assert(runs[k] == subs@[k]@);
            }
        }
        if subs.len() == 0 {
            return None;
        }
        if subs.len() == 1 {
            proof {
                assert(subs@[0]@ == runs[0]);
            }
            return Some(subs[0].duplicate());
        }
        match find_shell_by_area(&subs) {
            Option::Some(p) => Some(p),
            Option::None => find_shell_by_containment(&subs),
        }
    }
}

} // verus!
