//! Serializing a path as SVG path text.
//!
//! The output is exactly the grammar the parser reads: one `M` per subpath
//! start, one command per segment in original order, a trailing `Z` iff the
//! subpath's closed flag is true.  Coordinates are printed as the shortest
//! decimal numerals that read back as the same values, `x,y` within a pair;
//! only the pairs of a `Q` or `C` command are separated by a space, so a
//! square serializes as `M0,0L10,0L10,10L0,10Z`.

use vstd::prelude::*;

use crate::float_bits::spec_is_finite32;
use crate::path::parse::{
    arity, bits_of_numeral, dfa_run, dfa_step, event_of, flush, is_num_char, is_sep, parse_spec,
    Cmd, ParseState,
};
use crate::path::point::Point;
use crate::path::{finite_coords, Path, PathEvent};

verus! {

/// The numeral that std's Display prints for the finite single whose bits
/// are `b`.
pub uninterp spec fn numeral_of(b: u32) -> Seq<char>;

/// The characters a finite single's printed numeral may hold.
pub open spec fn is_numeral_char(c: char) -> bool {
    48 <= c as u32 <= 57 || c == '-' || c == '.'
}

/// Relies on std's `Display` for single-precision floats: prints the
/// shortest decimal numeral that reads back (through `FromStr`) as the same
/// value; a finite value prints as digits with at most a leading minus sign
/// and a decimal point.
#[verifier::external_body]
fn fmt_coord(b: u32) -> (r: String)
    requires
        spec_is_finite32(b),
    ensures
        r@ == numeral_of(b),
        bits_of_numeral(r@) == Some(b),
        r@.len() > 0,
        forall|i: int| 0 <= i < r@.len() ==> is_numeral_char(#[trigger] r@[i]),
{
    format!("{}", crate::path::geometry::lyon_point_of(Point { x: b, y: b }).x)
}

/// The text of one coordinate pair: `x,y`.
pub open spec fn coord_pair_text(p: Point) -> Seq<char> {
    numeral_of(p.x) + seq![','] + numeral_of(p.y)
}

/// The text of one event.
pub open spec fn event_text(e: PathEvent) -> Seq<char> {
    match e {
        PathEvent::Begin { at } => seq!['M'] + coord_pair_text(at),
        PathEvent::Line { to } => seq!['L'] + coord_pair_text(to),
        PathEvent::Quadratic { ctrl, to } => seq!['Q'] + coord_pair_text(ctrl) + seq![' ']
            + coord_pair_text(to),
        PathEvent::Cubic { ctrl1, ctrl2, to } => seq!['C'] + coord_pair_text(ctrl1) + seq![' ']
            + coord_pair_text(ctrl2) + seq![' '] + coord_pair_text(to),
        PathEvent::End { close } => if close {
            seq!['Z']
        } else {
            Seq::empty()
        },
    }
}

/// The text of a whole event stream.
pub open spec fn svg_of(evs: Seq<PathEvent>) -> Seq<char>
    decreases evs.len(),
{
    if evs.len() == 0 {
        Seq::empty()
    } else {
        svg_of(evs.drop_last()) + event_text(evs.last())
    }
}

/// The facts the serializer needs of a printed numeral: it reads back as the
/// same bits, it is not empty, and it holds only numeral characters.
pub open spec fn numeral_good(b: u32) -> bool {
    &&& bits_of_numeral(numeral_of(b)) == Some(b)
    &&& numeral_of(b).len() > 0
    &&& forall|i: int| 0 <= i < numeral_of(b).len() ==> is_numeral_char(#[trigger] numeral_of(b)[i])
}

/// The printed numerals of an event's points all read back as themselves.
pub open spec fn event_numerals_good(e: PathEvent) -> bool {
    match e {
        PathEvent::Begin { at } => numeral_good(at.x) && numeral_good(at.y),
        PathEvent::Line { to } => numeral_good(to.x) && numeral_good(to.y),
        PathEvent::Quadratic { ctrl, to } => numeral_good(ctrl.x) && numeral_good(ctrl.y)
            && numeral_good(to.x) && numeral_good(to.y),
        PathEvent::Cubic { ctrl1, ctrl2, to } => numeral_good(ctrl1.x) && numeral_good(ctrl1.y)
            && numeral_good(ctrl2.x) && numeral_good(ctrl2.y) && numeral_good(to.x)
            && numeral_good(to.y),
        PathEvent::End { .. } => true,
    }
}

/// A parser state between commands with nothing pending.
pub open spec fn clean_state(events: Seq<PathEvent>, building: bool) -> ParseState {
    ParseState {
        ok: true,
        events: events,
        building: building,
        cmd: None,
        coords: Seq::empty(),
        token: Seq::empty(),
    }
}

/// The parser's state at an event boundary of serialized text: the events
/// materialized so far, the open-run flag, and — since a command's last
/// numeral is only finished by the next command letter or the end of the
/// text — the possibly pending command with its collected coordinates and
/// the final coordinate whose numeral is the unread token.
pub open spec fn boundary(
    events: Seq<PathEvent>,
    building: bool,
    pend: Option<(Cmd, Seq<u32>, u32)>,
) -> ParseState {
    match pend {
        Option::None => clean_state(events, building),
        Option::Some(pd) => ParseState {
            ok: true,
            events: events,
            building: building,
            cmd: Some(pd.0),
            coords: pd.1,
            token: numeral_of(pd.2),
        },
    }
}

/// The pending pair completes event `e`: one coordinate short of the
/// command's arity, with the final coordinate's numeral reading back as
/// itself.
pub open spec fn pend_completes(pd: (Cmd, Seq<u32>, u32), e: PathEvent) -> bool {
    &&& pd.1.len() + 1 == arity(pd.0)
    &&& event_of(pd.0, pd.1.push(pd.2)) == e
    &&& spec_is_finite32(pd.2)
    &&& numeral_good(pd.2)
}

/// Completing a pending pair: the flush emits its event and opens the run.
proof fn lemma_flush_boundary(
    events0: Seq<PathEvent>,
    b0: bool,
    pd: (Cmd, Seq<u32>, u32),
    pe: PathEvent,
)
    requires
        pend_completes(pd, pe),
    ensures
        flush(boundary(events0, b0, Some(pd))) == clean_state(events0.push(pe), true),
{
    assert(pd.1.push(pd.2).len() == arity(pd.0));
}

/// The parser's progress through a prefix does not depend on what follows.
proof fn lemma_dfa_prefix(s: Seq<char>, t: Seq<char>, i: int)
    requires
        0 <= i <= s.len(),
    ensures
        dfa_run(s + t, i) == dfa_run(s, i),
    decreases i,
{
    if i > 0 {
        lemma_dfa_prefix(s, t, i - 1);
        assert((s + t)[i - 1] == s[i - 1]);
    }
}

/// Feeding numeral characters accumulates them in the token.
proof fn lemma_feed_numeral(s: Seq<char>, i0: int, j: int)
    requires
        0 <= i0 <= j <= s.len(),
        dfa_run(s, i0).ok,
        dfa_run(s, i0).cmd is Some,
        forall|k: int| i0 <= k < j ==> is_numeral_char(#[trigger] s[k]),
    ensures
        dfa_run(s, j) == (ParseState {
            token: dfa_run(s, i0).token + s.subrange(i0, j),
            ..dfa_run(s, i0)
        }),
    decreases j - i0,
{
    let st0 = dfa_run(s, i0);
    if j == i0 {
        assert(st0.token + s.subrange(i0, i0) =~= st0.token);
    } else {
        lemma_feed_numeral(s, i0, j - 1);
        let st = dfa_run(s, j - 1);
        assert(is_numeral_char(s[j - 1]));
        assert(is_num_char(s[j - 1]));
        assert(dfa_run(s, j) == dfa_step(st, s[j - 1]));
        assert(st.token.push(s[j - 1]) =~= st0.token + s.subrange(i0, j));
    }
}

/// Feeding one printed coordinate pair (`x,y`): the comma finishes the x
/// coordinate and the y numeral is left as the pending token.
proof fn lemma_feed_pair(s: Seq<char>, i0: int, p: Point)
    requires
        0 <= i0,
        i0 + coord_pair_text(p).len() <= s.len(),
        s.subrange(i0, i0 + coord_pair_text(p).len() as int) == coord_pair_text(p),
        numeral_good(p.x),
        numeral_good(p.y),
        p.spec_is_finite(),
        dfa_run(s, i0).ok,
        dfa_run(s, i0).cmd is Some,
        dfa_run(s, i0).token == Seq::<char>::empty(),
        dfa_run(s, i0).coords.len() + 2 <= arity(dfa_run(s, i0).cmd.unwrap()),
    ensures
        dfa_run(s, i0 + coord_pair_text(p).len()) == (ParseState {
            coords: dfa_run(s, i0).coords.push(p.x),
            token: numeral_of(p.y),
            ..dfa_run(s, i0)
        }),
{
    let st0 = dfa_run(s, i0);
    let pair = coord_pair_text(p);
    let nx = numeral_of(p.x);
    let ny = numeral_of(p.y);
    let j1 = i0 + nx.len();
    let j2 = j1 + 1 + ny.len();
    assert(j2 == i0 + pair.len());

    // the x numeral
    assert forall|k: int| i0 <= k < j1 implies is_numeral_char(#[trigger] s[k]) by {
        assert(s[k] == pair[k - i0]);
        assert(pair[k - i0] == nx[k - i0]);
    }
    lemma_feed_numeral(s, i0, j1);
    let st1 = dfa_run(s, j1);
    assert(st1.token =~= nx);

    // the comma finishes the x coordinate; no event completes yet
    assert(s[j1] == pair[j1 - i0]);
    assert(pair[j1 - i0] == ',');
    assert(dfa_run(s, j1 + 1) == dfa_step(st1, ','));
    assert(!is_num_char(','));
    assert(is_sep(','));
    assert(spec_is_finite32(p.x));
    let st2 = dfa_run(s, j1 + 1);
    assert(st2 == (ParseState { coords: st0.coords.push(p.x), token: Seq::empty(), ..st0 }));

    // the y numeral stays the pending token
    assert forall|k: int| j1 + 1 <= k < j2 implies is_numeral_char(#[trigger] s[k]) by {
        assert(s[k] == pair[k - i0]);
        assert(pair[k - i0] == ny[k - i0 - nx.len() - 1]);
    }
    lemma_feed_numeral(s, j1 + 1, j2);
    let st3 = dfa_run(s, j2);
    assert forall|k: int| 0 <= k < ny.len() implies s[j1 + 1 + k] == ny[k] by {
        assert(s[j1 + 1 + k] == pair[j1 + 1 + k - i0]);
        assert(pair[j1 + 1 + k - i0] == ny[k]);
    }
    assert(s.subrange(j1 + 1, j2) =~= ny);
    assert(st3.token =~= ny);
    assert(st3.token == numeral_of(p.y));
}

/// A space between a command's pairs finishes the pending numeral without
/// completing the command.
proof fn lemma_feed_mid_sep(s: Seq<char>, i0: int, y: u32)
    requires
        0 <= i0 < s.len(),
        s[i0] == ' ',
        dfa_run(s, i0).ok,
        dfa_run(s, i0).cmd is Some,
        dfa_run(s, i0).token == numeral_of(y),
        numeral_good(y),
        spec_is_finite32(y),
        dfa_run(s, i0).coords.len() + 1 < arity(dfa_run(s, i0).cmd.unwrap()),
    ensures
        dfa_run(s, i0 + 1) == (ParseState {
            coords: dfa_run(s, i0).coords.push(y),
            token: Seq::empty(),
            ..dfa_run(s, i0)
        }),
{
    assert(dfa_run(s, i0 + 1) == dfa_step(dfa_run(s, i0), s[i0]));
    assert(!is_num_char(' '));
    assert(is_sep(' '));
}

/// The boundary state after one serialized event is consumed: the letter
/// completes any pending command first (a `Begin` then also materializes the
/// implicit end of an open run), and the event's own last numeral becomes
/// the new pending token.  An unclosed end prints nothing and changes
/// nothing.
pub open spec fn after_event(
    e: PathEvent,
    events0: Seq<PathEvent>,
    b0: bool,
    pend0: Option<(Cmd, Seq<u32>, u32)>,
    pe: PathEvent,
) -> ParseState {
    let fe = if pend0 is Some {
        events0.push(pe)
    } else {
        events0
    };
    let fb = if pend0 is Some {
        true
    } else {
        b0
    };
    match e {
        PathEvent::Begin { at } => boundary(
            if fb {
                fe.push(PathEvent::End { close: false })
            } else {
                fe
            },
            false,
            Some((Cmd::MoveTo, seq![at.x], at.y)),
        ),
        PathEvent::Line { to } => boundary(fe, true, Some((Cmd::LineTo, seq![to.x], to.y))),
        PathEvent::Quadratic { ctrl, to } => boundary(
            fe,
            true,
            Some((Cmd::QuadTo, seq![ctrl.x, ctrl.y, to.x], to.y)),
        ),
        PathEvent::Cubic { ctrl1, ctrl2, to } => boundary(
            fe,
            true,
            Some((Cmd::CubicTo, seq![ctrl1.x, ctrl1.y, ctrl2.x, ctrl2.y, to.x], to.y)),
        ),
        PathEvent::End { close } => if close {
            boundary(fe.push(PathEvent::End { close: true }), false, Option::None)
        } else {
            boundary(events0, b0, pend0)
        },
    }
}

/// Reading one serialized event from a boundary state lands in the next
/// boundary state.
proof fn lemma_feed_event(
    s: Seq<char>,
    i0: int,
    e: PathEvent,
    events0: Seq<PathEvent>,
    b0: bool,
    pend0: Option<(Cmd, Seq<u32>, u32)>,
    pe: PathEvent,
)
    requires
        0 <= i0,
        i0 + event_text(e).len() <= s.len(),
        s.subrange(i0, i0 + event_text(e).len() as int) == event_text(e),
        dfa_run(s, i0) == boundary(events0, b0, pend0),
        pend0 matches Some(pd) ==> pend_completes(pd, pe),
        e.spec_is_finite(),
        event_numerals_good(e),
        (e.is_segment() || e == (PathEvent::End { close: true })) ==> pend0 is Some,
    ensures
        dfa_run(s, i0 + event_text(e).len()) == after_event(e, events0, b0, pend0, pe),
{
    let chunk = event_text(e);
    let st0 = dfa_run(s, i0);
    // the state once a command letter has flushed the pending pair
    let fe = if pend0 is Some {
        events0.push(pe)
    } else {
        events0
    };
    let fb = if pend0 is Some {
        true
    } else {
        b0
    };
    if pend0 is Some {
        lemma_flush_boundary(events0, b0, pend0.unwrap(), pe);
    }
    assert(flush(st0) == clean_state(fe, fb));
    match e {
        PathEvent::Begin { at } => {
            assert(s[i0] == chunk[0]);
            assert(chunk[0] == 'M');
            assert(!is_num_char('M') && !is_sep('M'));
            assert(dfa_run(s, i0 + 1) == dfa_step(st0, 'M'));
            let pair = coord_pair_text(at);
            assert forall|k: int| 0 <= k < pair.len() implies s[i0 + 1 + k] == pair[k] by {
                assert(s[i0 + 1 + k] == chunk[1 + k]);
                assert(chunk[1 + k] == pair[k]);
            }
            assert(s.subrange(i0 + 1, i0 + 1 + pair.len() as int) =~= pair);
            lemma_feed_pair(s, i0 + 1, at);
            assert(dfa_run(s, i0 + 1).coords.push(at.x) =~= seq![at.x]);
        },
        PathEvent::Line { to } => {
            assert(s[i0] == chunk[0]);
            assert(chunk[0] == 'L');
            assert(!is_num_char('L') && !is_sep('L'));
            assert(dfa_run(s, i0 + 1) == dfa_step(st0, 'L'));
            let pair = coord_pair_text(to);
            assert forall|k: int| 0 <= k < pair.len() implies s[i0 + 1 + k] == pair[k] by {
                assert(s[i0 + 1 + k] == chunk[1 + k]);
                assert(chunk[1 + k] == pair[k]);
            }
            assert(s.subrange(i0 + 1, i0 + 1 + pair.len() as int) =~= pair);
            lemma_feed_pair(s, i0 + 1, to);
            assert(dfa_run(s, i0 + 1).coords.push(to.x) =~= seq![to.x]);
        },
        PathEvent::Quadratic { ctrl, to } => {
            assert(s[i0] == chunk[0]);
            assert(chunk[0] == 'Q');
            assert(!is_num_char('Q') && !is_sep('Q'));
            assert(dfa_run(s, i0 + 1) == dfa_step(st0, 'Q'));
            let pair1 = coord_pair_text(ctrl);
            let pair2 = coord_pair_text(to);
            let m1 = i0 + 1 + pair1.len();
            assert forall|k: int| 0 <= k < pair1.len() implies s[i0 + 1 + k] == pair1[k] by {
                assert(s[i0 + 1 + k] == chunk[1 + k]);
                assert(chunk[1 + k] == pair1[k]);
            }
            assert(s.subrange(i0 + 1, m1) =~= pair1);
            lemma_feed_pair(s, i0 + 1, ctrl);
            assert(dfa_run(s, i0 + 1).coords.push(ctrl.x) =~= seq![ctrl.x]);
            // the space between the pairs
            assert(s[m1] == chunk[1 + pair1.len() as int]);
            assert(chunk[1 + pair1.len() as int] == ' ');
            lemma_feed_mid_sep(s, m1, ctrl.y);
            assert(dfa_run(s, m1 + 1).coords =~= seq![ctrl.x, ctrl.y]);
            assert forall|k: int| 0 <= k < pair2.len() implies s[m1 + 1 + k] == pair2[k] by {
                assert(s[m1 + 1 + k] == chunk[1 + pair1.len() + 1 + k]);
                assert(chunk[1 + pair1.len() + 1 + k] == pair2[k]);
            }
            assert(s.subrange(m1 + 1, m1 + 1 + pair2.len() as int) =~= pair2);
            lemma_feed_pair(s, m1 + 1, to);
            assert(dfa_run(s, m1 + 1).coords.push(to.x) =~= seq![ctrl.x, ctrl.y, to.x]);
            assert(i0 + chunk.len() == m1 + 1 + pair2.len());
        },
        PathEvent::Cubic { ctrl1, ctrl2, to } => {
            assert(s[i0] == chunk[0]);
            assert(chunk[0] == 'C');
            assert(!is_num_char('C') && !is_sep('C'));
            assert(dfa_run(s, i0 + 1) == dfa_step(st0, 'C'));
            let pair1 = coord_pair_text(ctrl1);
            let pair2 = coord_pair_text(ctrl2);
            let pair3 = coord_pair_text(to);
            let m1 = i0 + 1 + pair1.len();
            let m2 = m1 + 1 + pair2.len();
            assert forall|k: int| 0 <= k < pair1.len() implies s[i0 + 1 + k] == pair1[k] by {
                assert(s[i0 + 1 + k] == chunk[1 + k]);
                assert(chunk[1 + k] == pair1[k]);
            }
            assert(s.subrange(i0 + 1, m1) =~= pair1);
            lemma_feed_pair(s, i0 + 1, ctrl1);
            assert(dfa_run(s, i0 + 1).coords.push(ctrl1.x) =~= seq![ctrl1.x]);
            assert(s[m1] == chunk[1 + pair1.len() as int]);
            assert(chunk[1 + pair1.len() as int] == ' ');
            lemma_feed_mid_sep(s, m1, ctrl1.y);
            assert(dfa_run(s, m1 + 1).coords =~= seq![ctrl1.x, ctrl1.y]);
            assert forall|k: int| 0 <= k < pair2.len() implies s[m1 + 1 + k] == pair2[k] by {
                assert(s[m1 + 1 + k] == chunk[1 + pair1.len() + 1 + k]);
                assert(chunk[1 + pair1.len() + 1 + k] == pair2[k]);
            }
            assert(s.subrange(m1 + 1, m2) =~= pair2);
            lemma_feed_pair(s, m1 + 1, ctrl2);
            assert(dfa_run(s, m1 + 1).coords.push(ctrl2.x) =~= seq![ctrl1.x, ctrl1.y, ctrl2.x]);
            assert(s[m2] == chunk[1 + pair1.len() + 1 + pair2.len() as int]);
            assert(chunk[1 + pair1.len() + 1 + pair2.len() as int] == ' ');
            lemma_feed_mid_sep(s, m2, ctrl2.y);
            assert(dfa_run(s, m2 + 1).coords =~= seq![ctrl1.x, ctrl1.y, ctrl2.x, ctrl2.y]);
            assert forall|k: int| 0 <= k < pair3.len() implies s[m2 + 1 + k] == pair3[k] by {
                assert(s[m2 + 1 + k] == chunk[1 + pair1.len() + 1 + pair2.len() + 1 + k]);
                assert(chunk[1 + pair1.len() + 1 + pair2.len() + 1 + k] == pair3[k]);
            }
            assert(s.subrange(m2 + 1, m2 + 1 + pair3.len() as int) =~= pair3);
            lemma_feed_pair(s, m2 + 1, to);
            assert(dfa_run(s, m2 + 1).coords.push(to.x) =~= seq![
                ctrl1.x,
                ctrl1.y,
                ctrl2.x,
                ctrl2.y,
                to.x,
            ]);
            assert(i0 + chunk.len() == m2 + 1 + pair3.len());
        },
        PathEvent::End { close } => {
            if close {
                assert(s[i0] == chunk[0]);
                assert(chunk[0] == 'Z');
                assert(!is_num_char('Z') && !is_sep('Z'));
                assert(dfa_run(s, i0 + 1) == dfa_step(st0, 'Z'));
            } else {
                assert(i0 + chunk.len() == i0);
            }
        },
    }
}

impl Path {
    /// Serializes the path as SVG path text.  Yields nothing exactly when
    /// some coordinate is not finite (a path's points are finite); otherwise
    /// the text follows the grammar the parser reads, and for a well-formed
    /// path, parsing the text gives back exactly this path's events.
    pub fn to_svg(&self) -> (r: Option<String>)
        ensures
            (r is Some) == finite_coords(self@),
            r matches Some(out) ==> out@ == svg_of(self@),
            crate::path::well_formed(self@) ==> (r matches Some(out) ==> parse_spec(out@)
                == Some(self@)),
    {
        if !self.has_finite_coords() {
            return None;
        }
        let ghost evs_s = self@;
        let ghost wf = crate::path::well_formed(evs_s);
        let ghost mut emitted: Seq<PathEvent> = Seq::empty();
        let ghost mut dfab: bool = false;
        let ghost mut pend: Option<(Cmd, Seq<u32>, u32)> = Option::None;
        let ghost mut pendev: PathEvent = PathEvent::End { close: false };
        let ghost mut bld: bool = false;
        let events = self.events();
        let n = events.len();
        let mut out = String::new();
        let mut i: usize = 0;
        proof {
            assert(out@ =~= svg_of(evs_s.take(0)));
            assert(dfa_run(out@, 0) == boundary(emitted, dfab, pend));
            assert(evs_s.take(0) =~= emitted);
        }
        while i < n
            invariant
                i <= n,
                n == evs_s.len(),
                events@ == evs_s,
                finite_coords(evs_s),
                out@ == svg_of(evs_s.take(i as int)),
                wf == crate::path::well_formed(evs_s),
                wf ==> crate::path::wf_from(evs_s, i as int, bld),
                wf ==> dfa_run(out@, out@.len() as int) == boundary(emitted, dfab, pend),
                wf ==> (match pend {
                    Option::None => evs_s.take(i as int) == emitted && dfab == bld && !bld,
                    Option::Some(pd) => {
                        &&& pend_completes(pd, pendev)
                        &&& !(pendev is End)
                        &&& dfab == !(pendev is Begin)
                        &&& ((evs_s.take(i as int) == emitted.push(pendev) && bld) || (evs_s.take(
                            i as int,
                        ) == emitted.push(pendev).push(PathEvent::End { close: false }) && !bld))
                    },
                }),
            decreases n - i,
        {
            let ghost before = out@;
            let e = events[i];
            proof {
                assert(evs_s[i as int].spec_is_finite());
            }
            match e {
                PathEvent::Begin { at } => {
                    out.append("M");
                    append_pair(&mut out, at);
                    proof {
                        reveal_strlit("M");
                        assert("M"@ =~= seq!['M']);
                        assert(out@ =~= before + event_text(evs_s[i as int]));
                    }
                },
                PathEvent::Line { to } => {
                    out.append("L");
                    append_pair(&mut out, to);
                    proof {
                        reveal_strlit("L");
                        assert("L"@ =~= seq!['L']);
                        assert(out@ =~= before + event_text(evs_s[i as int]));
                    }
                },
                PathEvent::Quadratic { ctrl, to } => {
                    out.append("Q");
                    append_pair(&mut out, ctrl);
                    out.append(" ");
                    append_pair(&mut out, to);
                    proof {
                        reveal_strlit("Q");
                        reveal_strlit(" ");
                        assert("Q"@ =~= seq!['Q']);
                        assert(" "@ =~= seq![' ']);
                        assert(out@ =~= before + event_text(evs_s[i as int]));
                    }
                },
                PathEvent::Cubic { ctrl1, ctrl2, to } => {
                    out.append("C");
                    append_pair(&mut out, ctrl1);
                    out.append(" ");
                    append_pair(&mut out, ctrl2);
                    out.append(" ");
                    append_pair(&mut out, to);
                    proof {
                        reveal_strlit("C");
                        reveal_strlit(" ");
                        assert("C"@ =~= seq!['C']);
                        assert(" "@ =~= seq![' ']);
                        assert(out@ =~= before + event_text(evs_s[i as int]));
                    }
                },
                PathEvent::End { close } => {
                    if close {
                        out.append("Z");
                    }
                    proof {
                        reveal_strlit("Z");
                        assert("Z"@ =~= seq!['Z']);
                        assert(out@ =~= before + event_text(evs_s[i as int]));
                    }
                },
            }
            proof {
                assert(evs_s.take(i as int + 1).drop_last() =~= evs_s.take(i as int));
                assert(evs_s.take(i as int + 1).last() == evs_s[i as int]);
                assert(out@ =~= svg_of(evs_s.take(i as int + 1)));
                if wf {
                    let e_g = evs_s[i as int];
                    let chunk = event_text(e_g);
                    assert(out@ == before + chunk);
                    assert(out@.subrange(before.len() as int, out@.len() as int) =~= chunk);
                    lemma_dfa_prefix(before, chunk, before.len() as int);
                    assert(dfa_run(out@, before.len() as int) == boundary(emitted, dfab, pend));
                    assert(event_numerals_good(e_g));
                    assert(crate::path::wf_from(evs_s, i as int, bld));
                    if e_g.is_segment() || e_g == (PathEvent::End { close: true }) || e_g == (
                    PathEvent::End { close: false }) {
                        // the run is open, so a pair is pending
                        assert(bld);
                        assert(pend is Some);
                    }
                    lemma_feed_event(out@, before.len() as int, e_g, emitted, dfab, pend, pendev);
                    match e_g {
                        PathEvent::Begin { at } => {
                            if pend is Some {
                                emitted = emitted.push(pendev).push(PathEvent::End { close: false });
                            }
                            dfab = false;
                            pend = Some((Cmd::MoveTo, seq![at.x], at.y));
                            pendev = e_g;
                            bld = true;
                        },
                        PathEvent::Line { to } => {
                            emitted = emitted.push(pendev);
                            dfab = true;
                            pend = Some((Cmd::LineTo, seq![to.x], to.y));
                            pendev = e_g;
                            bld = true;
                        },
                        PathEvent::Quadratic { ctrl, to } => {
                            emitted = emitted.push(pendev);
                            dfab = true;
                            pend = Some((Cmd::QuadTo, seq![ctrl.x, ctrl.y, to.x], to.y));
                            pendev = e_g;
                            bld = true;
                        },
                        PathEvent::Cubic { ctrl1, ctrl2, to } => {
                            emitted = emitted.push(pendev);
                            dfab = true;
                            pend = Some(
                                (Cmd::CubicTo, seq![ctrl1.x, ctrl1.y, ctrl2.x, ctrl2.y, to.x], to.y),
                            );
                            pendev = e_g;
                            bld = true;
                        },
                        PathEvent::End { close } => {
                            if close {
                                emitted = emitted.push(pendev).push(e_g);
                                dfab = false;
                                pend = Option::None;
                            }
                            bld = false;
                        },
                    }
                    assert(evs_s.take(i as int + 1) =~= evs_s.take(i as int).push(e_g));
                    assert(dfa_run(out@, out@.len() as int) == boundary(emitted, dfab, pend));
                }
            }
            i += 1;
        }
        proof {
            assert(evs_s.take(n as int) =~= evs_s);
            if wf {
                assert(crate::path::wf_from(evs_s, n as int, bld));
                assert(!bld);
                let fin = dfa_run(out@, out@.len() as int);
                assert(fin == boundary(emitted, dfab, pend));
                match pend {
                    Option::None => {
                        assert(parse_spec(out@) == Some(emitted));
                    },
                    Option::Some(pd) => {
                        // the final pair completes at the end of the text,
                        // and the still-open run gets its implicit end
                        lemma_flush_boundary(emitted, dfab, pd, pendev);
                        assert(parse_spec(out@) == Some(
                            emitted.push(pendev).push(PathEvent::End { close: false }),
                        ));
                    },
                }
            }
        }
        Some(out)
    }
}

/// Appends one coordinate pair.
fn append_pair(out: &mut String, p: Point)
    requires
        p.spec_is_finite(),
    ensures
        final(out)@ == old(out)@ + coord_pair_text(p),
        numeral_good(p.x),
        numeral_good(p.y),
{
    let sx = fmt_coord(p.x);
    out.append(sx.as_str());
    out.append(",");
    let sy = fmt_coord(p.y);
    out.append(sy.as_str());
    proof {
        reveal_strlit(",");
        assert(","@ =~= seq![',']);
        assert(final(out)@ =~= old(out)@ + coord_pair_text(p));
    }
}

} // verus!
