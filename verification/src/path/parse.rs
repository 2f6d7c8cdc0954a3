//! Parsing the SVG path mini-language.
//!
//! The grammar is the subset the library serializes: `M x,y` begins a
//! subpath at an absolute point, `L`, `Q` and `C` add line, quadratic and
//! cubic segments, and `Z` closes the current subpath.  Coordinates are
//! decimal numbers separated by commas or whitespace; a new `M` implicitly
//! ends an open subpath, as does the end of the text.  Non-finite
//! coordinates (overflowing numerals) are rejected: a path's points are
//! finite.
//!
//! The parser is a character-level state machine, defined once as a
//! specification and mirrored by the executable code; only the reading of
//! one numeral token is delegated to std.

use vstd::prelude::*;

use crate::error::PathError;
use crate::float_bits::{is_finite32, spec_is_finite32};
use crate::path::point::Point;
use crate::path::{finite_coords, lemma_wf_scan_snoc, lemma_wf_scan_wf, scan_step, well_formed, wf_scan, Path, PathEvent};

verus! {

/// The bit pattern that std's single-precision `FromStr` reads from a
/// numeral, if any.
pub uninterp spec fn bits_of_numeral(s: Seq<char>) -> Option<u32>;

/// Relies on std's `FromStr` for single-precision floats: the value read
/// from the token, as its bit pattern, a function of the token alone.
#[verifier::external_body]
fn read_coord(tok: &str) -> (r: Option<u32>)
    ensures
        r == bits_of_numeral(tok@),
{
    match tok.parse() {
        Ok(v) => Some(lyon::math::point(v, v).x.to_bits()),
        Err(_) => None,
    }
}

/// Characters that may continue a numeral token.
pub open spec fn is_num_char(c: char) -> bool {
    ||| 48 <= c as u32 <= 57
    ||| c == '-'
    ||| c == '+'
    ||| c == '.'
    ||| c == 'e'
    ||| c == 'E'
}

/// Separators between coordinates and commands.
pub open spec fn is_sep(c: char) -> bool {
    c == ' ' || c == ',' || c == '\t' || c == '\n' || c == '\r'
}

/// Exec test of [`is_num_char`].
fn ch_is_num(c: char) -> (r: bool)
    ensures
        r == is_num_char(c),
{
    let u = c as u32;
    (48 <= u && u <= 57) || c == '-' || c == '+' || c == '.' || c == 'e' || c == 'E'
}

/// Exec test of [`is_sep`].
fn ch_is_sep(c: char) -> (r: bool)
    ensures
        r == is_sep(c),
{
    c == ' ' || c == ',' || c == '\t' || c == '\n' || c == '\r'
}

/// The command whose coordinates are being collected.
#[derive(Debug, Clone, Copy, PartialEq, Eq, Structural)]
pub enum Cmd {
    MoveTo,
    LineTo,
    QuadTo,
    CubicTo,
}

/// How many coordinates a command takes.
pub open spec fn arity(c: Cmd) -> int {
    match c {
        Cmd::MoveTo => 2,
        Cmd::LineTo => 2,
        Cmd::QuadTo => 4,
        Cmd::CubicTo => 6,
    }
}

/// The parser's state: whether it has failed, the events emitted so far,
/// whether a subpath is open, the command whose coordinates are being
/// collected, those coordinates, and the numeral token being read.
pub struct ParseState {
    pub ok: bool,
    pub events: Seq<PathEvent>,
    pub building: bool,
    pub cmd: Option<Cmd>,
    pub coords: Seq<u32>,
    pub token: Seq<char>,
}

/// The state before any character.
pub open spec fn init_state() -> ParseState {
    ParseState {
        ok: true,
        events: Seq::empty(),
        building: false,
        cmd: None,
        coords: Seq::empty(),
        token: Seq::empty(),
    }
}

/// The state marked failed.
pub open spec fn failed(st: ParseState) -> ParseState {
    ParseState { ok: false, ..st }
}

/// The event a completed command emits from its coordinates.
pub open spec fn event_of(cmd: Cmd, cs: Seq<u32>) -> PathEvent {
    match cmd {
        Cmd::MoveTo => PathEvent::Begin { at: Point { x: cs[0], y: cs[1] } },
        Cmd::LineTo => PathEvent::Line { to: Point { x: cs[0], y: cs[1] } },
        Cmd::QuadTo => PathEvent::Quadratic {
            ctrl: Point { x: cs[0], y: cs[1] },
            to: Point { x: cs[2], y: cs[3] },
        },
        Cmd::CubicTo => PathEvent::Cubic {
            ctrl1: Point { x: cs[0], y: cs[1] },
            ctrl2: Point { x: cs[2], y: cs[3] },
            to: Point { x: cs[4], y: cs[5] },
        },
    }
}

/// Emits the pending command's event once all its coordinates are in.
pub open spec fn complete(st: ParseState) -> ParseState {
    match st.cmd {
        Option::None => st,
        Option::Some(cmd) => {
            if st.coords.len() == arity(cmd) {
                ParseState {
                    events: st.events.push(event_of(cmd, st.coords)),
                    building: true,
                    cmd: None,
                    coords: Seq::empty(),
                    ..st
                }
            } else {
                st
            }
        },
    }
}

/// Finishes the numeral token being read, if any: the token must read as a
/// finite single, and a command emits its event when this was its last
/// coordinate.
pub open spec fn flush(st: ParseState) -> ParseState {
    if st.token.len() == 0 {
        st
    } else {
        match bits_of_numeral(st.token) {
            Option::None => failed(st),
            Option::Some(b) => {
                if !spec_is_finite32(b) {
                    failed(st)
                } else {
                    complete(
                        ParseState { token: Seq::empty(), coords: st.coords.push(b), ..st },
                    )
                }
            },
        }
    }
}

/// One character's effect on the parser state.
pub open spec fn dfa_step(st: ParseState, c: char) -> ParseState {
    if !st.ok {
        st
    } else if is_num_char(c) {
        if st.cmd is None {
            failed(st)
        } else {
            ParseState { token: st.token.push(c), ..st }
        }
    } else {
        let st1 = flush(st);
        if !st1.ok {
            st1
        } else if is_sep(c) {
            st1
        } else if c == 'M' {
            if st1.cmd is Some {
                failed(st1)
            } else {
                let st2 = if st1.building {
                    ParseState {
                        events: st1.events.push(PathEvent::End { close: false }),
                        building: false,
                        ..st1
                    }
                } else {
                    st1
                };
                ParseState { cmd: Some(Cmd::MoveTo), coords: Seq::empty(), ..st2 }
            }
        } else if c == 'L' || c == 'Q' || c == 'C' {
            if st1.cmd is Some || !st1.building {
                failed(st1)
            } else {
                let cmd = if c == 'L' {
                    Cmd::LineTo
                } else if c == 'Q' {
                    Cmd::QuadTo
                } else {
                    Cmd::CubicTo
                };
                ParseState { cmd: Some(cmd), coords: Seq::empty(), ..st1 }
            }
        } else if c == 'Z' {
            if st1.cmd is Some || !st1.building {
                failed(st1)
            } else {
                ParseState {
                    events: st1.events.push(PathEvent::End { close: true }),
                    building: false,
                    ..st1
                }
            }
        } else {
            failed(st1)
        }
    }
}

/// The parser state after the first `i` characters.
pub open spec fn dfa_run(s: Seq<char>, i: int) -> ParseState
    decreases i,
{
    if i <= 0 {
        init_state()
    } else {
        dfa_step(dfa_run(s, i - 1), s[i - 1])
    }
}

/// The events of the whole text: the final state's token is flushed, an
/// incomplete command fails, and an open subpath is implicitly ended.
pub open spec fn finalize(st: ParseState) -> Option<Seq<PathEvent>> {
    let st1 = flush(st);
    if !st1.ok {
        None
    } else if st1.cmd is Some {
        None
    } else if st1.building {
        Some(st1.events.push(PathEvent::End { close: false }))
    } else {
        Some(st1.events)
    }
}

/// What parsing a text yields: the event stream, or nothing when the text
/// does not conform to the grammar.
pub open spec fn parse_spec(s: Seq<char>) -> Option<Seq<PathEvent>> {
    finalize(dfa_run(s, s.len() as int))
}

/// Once failed, the parser stays failed.
pub proof fn lemma_fail_sticky(s: Seq<char>, i: int, j: int)
    requires
        0 <= i <= j,
        !dfa_run(s, i).ok,
    ensures
        !dfa_run(s, j).ok,
    decreases j - i,
{
    if j > i {
        lemma_fail_sticky(s, i, j - 1);
        let st = dfa_run(s, j - 1);
        assert(!flush(st).ok);
    }
}

/// Appending a finite event keeps the stream's coordinates finite.
proof fn lemma_finite_push(evs: Seq<PathEvent>, e: PathEvent)
    requires
        finite_coords(evs),
        e.spec_is_finite(),
    ensures
        finite_coords(evs.push(e)),
{
    let evs2 = evs.push(e);
    assert forall|j: int| 0 <= j < evs2.len() implies (#[trigger] evs2[j]).spec_is_finite() by {
        if j < evs.len() {
            assert(evs[j].spec_is_finite());
        }
    }
}

/// A completed command's event carries only finite coordinates when its
/// collected coordinates are finite.
proof fn lemma_event_of_finite(cmd: Cmd, cs: Seq<u32>)
    requires
        cs.len() >= arity(cmd),
        forall|k: int| 0 <= k < cs.len() ==> spec_is_finite32(#[trigger] cs[k]),
    ensures
        event_of(cmd, cs).spec_is_finite(),
{
}

impl Path {
    /// Parses a path from SVG path text.  Returns `Parse` (with the
    /// character position at fault) exactly when the text does not conform
    /// to the grammar, a numeral cannot be read, or a coordinate is not
    /// finite.
    pub fn parse_svg(s: &str) -> (r: Result<Path, PathError>)
        ensures
            match parse_spec(s@) {
                Option::Some(evs) => r matches Ok(p) && p@ == evs,
                Option::None => r matches Err(e) && e is Parse,
            },
            r matches Ok(p) ==> well_formed(p@) && finite_coords(p@),
    {
        let n = s.unicode_len();
        let mut events: Vec<PathEvent> = Vec::new();
        let mut building = false;
        let mut cmd: Option<Cmd> = None;
        let mut coords: Vec<u32> = Vec::new();
        let mut tok_start: Option<usize> = None;
        let mut i: usize = 0;
        proof {
            assert(dfa_run(s@, 0) == mirror(events@, building, cmd, coords@, s@, 0, tok_start));
        }
        while i < n
            invariant
                i <= n,
                n == s@.len(),
                (match tok_start {
                    Option::Some(ts) => ts < i,
                    Option::None => true,
                }),
                dfa_run(s@, i as int) == mirror(events@, building, cmd, coords@, s@, i as int, tok_start),
                dfa_run(s@, i as int).ok,
                wf_scan(events@, 0, false) == Some(building),
                finite_coords(events@),
                forall|k: int| 0 <= k < coords@.len() ==> spec_is_finite32(#[trigger] coords@[k]),
                (match cmd {
                    Option::Some(Cmd::MoveTo) => !building,
                    Option::Some(_) => building,
                    Option::None => true,
                }),
            decreases n - i,
        {
            let ghost st = dfa_run(s@, i as int);
            let c = s.get_char(i);
            proof {
                assert(dfa_run(s@, i as int + 1) == dfa_step(st, s@[i as int]));
            }
            if ch_is_num(c) {
                if cmd.is_none() {
                    proof {
                        lemma_fail_sticky(s@, i as int + 1, s@.len() as int);
                    }
                    return Err(PathError::Parse(i));
                }
                if tok_start.is_none() {
                    tok_start = Some(i);
                }
                proof {
                    assert(token_view(s@, i as int + 1, tok_start) =~= st.token.push(
                        s@[i as int],
                    ));
                }
            } else {
                // Finish the pending numeral, if any.
                if let Option::Some(ts) = tok_start {
                    let tok = s.substring_char(ts, i);
                    proof {
                        assert(tok@ =~= st.token);
                    }
                    let b = match read_coord(tok) {
                        Option::Some(b) => b,
                        Option::None => {
                            proof {
                                lemma_fail_sticky(s@, i as int + 1, s@.len() as int);
                            }
                            return Err(PathError::Parse(i));
                        },
                    };
                    if !is_finite32(b) {
                        proof {
                            lemma_fail_sticky(s@, i as int + 1, s@.len() as int);
                        }
                        return Err(PathError::Parse(i));
                    }
                    coords.push(b);
                    tok_start = None;
                    // Emit the event when the command is complete.
                    let full = match cmd {
                        Option::Some(Cmd::MoveTo) => coords.len() == 2,
                        Option::Some(Cmd::LineTo) => coords.len() == 2,
                        Option::Some(Cmd::QuadTo) => coords.len() == 4,
                        Option::Some(Cmd::CubicTo) => coords.len() == 6,
                        Option::None => false,
                    };
                    if full {
                        let ev = emit_event(&cmd, &coords);
                        proof {
                            lemma_event_of_finite(cmd.unwrap(), coords@);
                            lemma_finite_push(events@, ev);
                            lemma_wf_scan_snoc(events@, ev, 0, false);
                        }
                        events.push(ev);
                        building = true;
                        cmd = None;
                        coords = Vec::new();
                    }
                }
                // Handle the character itself.
                if ch_is_sep(c) {
                    // separators end tokens and nothing else
                } else if c == 'M' {
                    if cmd.is_some() {
                        proof {
                            lemma_fail_sticky(s@, i as int + 1, s@.len() as int);
                        }
                        return Err(PathError::Parse(i));
                    }
                    if building {
                        proof {
                            lemma_finite_push(events@, PathEvent::End { close: false });
                            lemma_wf_scan_snoc(events@, PathEvent::End { close: false }, 0, false);
                        }
                        events.push(PathEvent::End { close: false });
                        building = false;
                    }
                    cmd = Some(Cmd::MoveTo);
                    coords = Vec::new();
                } else if c == 'L' || c == 'Q' || c == 'C' {
                    if cmd.is_some() || !building {
                        proof {
                            lemma_fail_sticky(s@, i as int + 1, s@.len() as int);
                        }
                        return Err(PathError::Parse(i));
                    }
                    cmd = if c == 'L' {
                        Some(Cmd::LineTo)
                    } else if c == 'Q' {
                        Some(Cmd::QuadTo)
                    } else {
                        Some(Cmd::CubicTo)
                    };
                    coords = Vec::new();
                } else if c == 'Z' {
                    if cmd.is_some() || !building {
                        proof {
                            lemma_fail_sticky(s@, i as int + 1, s@.len() as int);
                        }
                        return Err(PathError::Parse(i));
                    }
                    proof {
                        lemma_finite_push(events@, PathEvent::End { close: true });
                        lemma_wf_scan_snoc(events@, PathEvent::End { close: true }, 0, false);
                    }
                    events.push(PathEvent::End { close: true });
                    building = false;
                } else {
                    proof {
                        lemma_fail_sticky(s@, i as int + 1, s@.len() as int);
                    }
                    return Err(PathError::Parse(i));
                }
            }
            i += 1;
        }
        // End of text: finish the last token, close an open run.
        let ghost st = dfa_run(s@, n as int);
        if let Option::Some(ts) = tok_start {
            let tok = s.substring_char(ts, n);
            proof {
                assert(tok@ =~= st.token);
            }
            let b = match read_coord(tok) {
                Option::Some(b) => b,
                Option::None => {
                    return Err(PathError::Parse(n));
                },
            };
            if !is_finite32(b) {
                return Err(PathError::Parse(n));
            }
            coords.push(b);
            let full = match cmd {
                Option::Some(Cmd::MoveTo) => coords.len() == 2,
                Option::Some(Cmd::LineTo) => coords.len() == 2,
                Option::Some(Cmd::QuadTo) => coords.len() == 4,
                Option::Some(Cmd::CubicTo) => coords.len() == 6,
                Option::None => false,
            };
            if full {
                let ev = emit_event(&cmd, &coords);
                proof {
                    lemma_event_of_finite(cmd.unwrap(), coords@);
                    lemma_finite_push(events@, ev);
                    lemma_wf_scan_snoc(events@, ev, 0, false);
                }
                events.push(ev);
                building = true;
                cmd = None;
                coords = Vec::new();
            } else {
                return Err(PathError::Parse(n));
            }
        }
        if cmd.is_some() {
            return Err(PathError::Parse(n));
        }
        if building {
            proof {
                lemma_finite_push(events@, PathEvent::End { close: false });
                lemma_wf_scan_snoc(events@, PathEvent::End { close: false }, 0, false);
            }
            events.push(PathEvent::End { close: false });
        }
        proof {
            lemma_wf_scan_wf(events@, 0, false);
        }
        Ok(Path::from_events(events))
    }
}

impl core::str::FromStr for Path {
    type Err = PathError;

    /// Parses a path from SVG path text; see [`Path::parse_svg`].
    fn from_str(s: &str) -> Result<Path, PathError> {
        Path::parse_svg(s)
    }
}

/// The token in progress: the characters from the token's start up to `i`.
pub open spec fn token_view(s: Seq<char>, i: int, tok_start: Option<usize>) -> Seq<char> {
    match tok_start {
        Option::Some(ts) => s.subrange(ts as int, i),
        Option::None => Seq::empty(),
    }
}

/// The spec state that the executable parser's variables stand for.
pub open spec fn mirror(
    events: Seq<PathEvent>,
    building: bool,
    cmd: Option<Cmd>,
    coords: Seq<u32>,
    s: Seq<char>,
    i: int,
    tok_start: Option<usize>,
) -> ParseState {
    ParseState {
        ok: true,
        events: events,
        building: building,
        cmd: cmd,
        coords: coords,
        token: token_view(s, i, tok_start),
    }
}

/// Exec construction of a completed command's event.
fn emit_event(cmd: &Option<Cmd>, coords: &Vec<u32>) -> (r: PathEvent)
    requires
        cmd matches Some(c) && coords@.len() == arity(*c),
    ensures
        r == event_of(cmd.unwrap(), coords@),
{
    match cmd {
        Option::Some(Cmd::MoveTo) => PathEvent::Begin {
            at: Point { x: coords[0], y: coords[1] },
        },
        Option::Some(Cmd::LineTo) => PathEvent::Line {
            to: Point { x: coords[0], y: coords[1] },
        },
        Option::Some(Cmd::QuadTo) => PathEvent::Quadratic {
            ctrl: Point { x: coords[0], y: coords[1] },
            to: Point { x: coords[2], y: coords[3] },
        },
        Option::Some(Cmd::CubicTo) => PathEvent::Cubic {
            ctrl1: Point { x: coords[0], y: coords[1] },
            ctrl2: Point { x: coords[2], y: coords[3] },
            to: Point { x: coords[4], y: coords[5] },
        },
        Option::None => PathEvent::End { close: false },
    }
}

} // verus!
