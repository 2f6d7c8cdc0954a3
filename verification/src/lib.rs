//! A library for offsetting 2D paths.
//!
//! A [`path::Path`] is an ordered stream of move/line/quadratic/cubic/close
//! events.  The library parses and serializes the SVG path mini-language,
//! decomposes a path into its subpaths, finds the outermost shell among
//! several subpaths, and computes a cleaned offset contour at a signed
//! distance from the original boundary.
//!
//! Coordinates are carried as IEEE-754 bit patterns (`u32` for singles,
//! `u64` for doubles), so that all structural logic is verified while the
//! numeric work is delegated to the `lyon` and `flo_curves` crates behind
//! trusted declarations.

pub mod error;
pub mod float_bits;
pub mod offset;
pub mod path;
