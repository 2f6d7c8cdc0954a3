//! Reasoning about IEEE-754 values through their bit patterns.
//!
//! Coordinates in this library are carried as the raw bit patterns of
//! IEEE-754 singles (`u32`) and doubles (`u64`).  The classification of a
//! pattern (NaN, finite) and the standard's comparisons are plain integer
//! logic on those patterns, so they are defined and verified here; only
//! genuine floating-point arithmetic is delegated to outside code.

use vstd::prelude::*;

verus! {

// --- IEEE-754 single precision (32-bit) -----------------------------------

/// True iff `b` is the bit pattern of a single-precision NaN: the exponent
/// field is all ones and the fraction field is non-zero.
pub open spec fn spec_is_nan32(b: u32) -> bool {
    (b >> 23) & 0xff == 0xff && b & 0x7fffff != 0
}

/// True iff `b` encodes a finite single (the exponent field is not all ones,
/// which excludes both infinities and NaNs).
pub open spec fn spec_is_finite32(b: u32) -> bool {
    (b >> 23) & 0xff != 0xff
}

/// True iff `b` encodes a positive or negative single-precision zero.
pub open spec fn spec_is_zero32(b: u32) -> bool {
    b == 0u32 || b == 0x8000_0000u32
}

/// The rank of a single's bit pattern in the standard's total order
/// (`-NaN < -inf < ... < -0 < +0 < ... < +inf < +NaN`): flip negative
/// patterns, shift non-negative ones above them.
pub open spec fn spec_tok32(b: u32) -> int {
    if b < 0x8000_0000u32 {
        b + 0x8000_0000
    } else {
        0xffff_ffff - b
    }
}

/// The `<=` of the total order over single-precision bit patterns.
pub open spec fn spec_total_le32(a: u32, b: u32) -> bool {
    spec_tok32(a) <= spec_tok32(b)
}

/// IEEE-754 `<` over single-precision bit patterns: NaN compares with
/// nothing, the two zeros are equal, and otherwise sign-magnitude rank order
/// is value order.
pub open spec fn spec_f32_lt(a: u32, b: u32) -> bool {
    &&& !spec_is_nan32(a)
    &&& !spec_is_nan32(b)
    &&& !(spec_is_zero32(a) && spec_is_zero32(b))
    &&& spec_tok32(a) < spec_tok32(b)
}

/// Exec IEEE-754 `<` over single bit patterns.
pub fn f32_lt(a: u32, b: u32) -> (r: bool)
    ensures
        r == spec_f32_lt(a, b),
{
    if is_nan32(a) || is_nan32(b) {
        return false;
    }
    if (a == 0u32 || a == 0x8000_0000u32) && (b == 0u32 || b == 0x8000_0000u32) {
        return false;
    }
    let ta: u64 = if a < 0x8000_0000u32 {
        a as u64 + 0x8000_0000u64
    } else {
        0xffff_ffffu64 - a as u64
    };
    let tb: u64 = if b < 0x8000_0000u32 {
        b as u64 + 0x8000_0000u64
    } else {
        0xffff_ffffu64 - b as u64
    };
    ta < tb
}

/// Exec check of a single-precision NaN pattern.
pub fn is_nan32(b: u32) -> (r: bool)
    ensures
        r == spec_is_nan32(b),
{
    (b >> 23) & 0xff == 0xff && b & 0x7fffff != 0
}

/// Exec check of a finite single pattern.
pub fn is_finite32(b: u32) -> (r: bool)
    ensures
        r == spec_is_finite32(b),
{
    (b >> 23) & 0xff != 0xff
}

/// The total order of the standard (the order `total_cmp` uses), as `<=`
/// over bit patterns.
pub fn total_le32(a: u32, b: u32) -> (r: bool)
    ensures
        r == spec_total_le32(a, b),
{
    let ta: u64 = if a < 0x8000_0000u32 {
        a as u64 + 0x8000_0000u64
    } else {
        0xffff_ffffu64 - a as u64
    };
    let tb: u64 = if b < 0x8000_0000u32 {
        b as u64 + 0x8000_0000u64
    } else {
        0xffff_ffffu64 - b as u64
    };
    ta <= tb
}

// --- IEEE-754 double precision (64-bit) ------------------------------------

/// True iff `b` is the bit pattern of a double-precision NaN.
pub open spec fn spec_is_nan64(b: u64) -> bool {
    (b >> 52) & 0x7ff == 0x7ff && b & 0xf_ffff_ffff_ffff != 0
}

/// True iff `b` encodes a finite double.
pub open spec fn spec_is_finite64(b: u64) -> bool {
    (b >> 52) & 0x7ff != 0x7ff
}

/// True iff `b` encodes a positive or negative double-precision zero.
pub open spec fn spec_is_zero64(b: u64) -> bool {
    b == 0u64 || b == 0x8000_0000_0000_0000u64
}

/// IEEE-754 equality of two doubles given by their bit patterns: NaN equals
/// nothing, the two zeros are equal, and every other value equals only its
/// own pattern.
pub open spec fn spec_f64_eq(a: u64, b: u64) -> bool {
    &&& !spec_is_nan64(a)
    &&& !spec_is_nan64(b)
    &&& (a == b || (spec_is_zero64(a) && spec_is_zero64(b)))
}

/// IEEE-754 `>` restricted to patterns whose sign bit is clear (non-negative
/// values): on those, bit-pattern order is value order, and a NaN compares
/// greater than nothing.
pub open spec fn spec_f64_gt_nonneg(a: u64, b: u64) -> bool {
    &&& !spec_is_nan64(a)
    &&& !spec_is_nan64(b)
    &&& a > b
}

/// Exec check of a double-precision NaN pattern.
pub fn is_nan64(b: u64) -> (r: bool)
    ensures
        r == spec_is_nan64(b),
{
    (b >> 52) & 0x7ff == 0x7ff && b & 0xf_ffff_ffff_ffff != 0
}

/// Exec IEEE-754 equality over double bit patterns.
pub fn f64_eq(a: u64, b: u64) -> (r: bool)
    ensures
        r == spec_f64_eq(a, b),
{
    if is_nan64(a) || is_nan64(b) {
        false
    } else {
        a == b || ((a == 0u64 || a == 0x8000_0000_0000_0000u64) && (b == 0u64 || b
            == 0x8000_0000_0000_0000u64))
    }
}

/// Exec IEEE-754 `>` over non-negative double bit patterns.
pub fn f64_gt_nonneg(a: u64, b: u64) -> (r: bool)
    ensures
        r == spec_f64_gt_nonneg(a, b),
{
    if is_nan64(a) || is_nan64(b) {
        false
    } else {
        a > b
    }
}

} // verus!
