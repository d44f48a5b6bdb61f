//! Program clock references and the 33-bit modular time arithmetic used
//! to annotate splice times.
//!
//! PCR and PTS base values live in a 33-bit space counting 90 kHz ticks,
//! so the time elapsed between a clock reference and a splice time is the
//! shorter circular distance between the two values modulo 2^33.

use vstd::prelude::*;

verus! {

/// One tick space wrap: 2^33, the size of the PCR/PTS base domain.
pub const TIME_BASE_MOD: u64 = 0x2_0000_0000;

/// Half the domain: distances at or above this read as negative.
pub const TIME_BASE_HALF: u64 = 0x1_0000_0000;

/// A program clock reference: a 33-bit base at 90 kHz plus a 9-bit
/// extension at 27 MHz.
#[derive(Debug, Clone, Copy, PartialEq, Eq, Structural)]
pub struct ClockRef {
    pub base: u64,
    pub extension: u16,
}

impl ClockRef {
    /// Field widths respected.
    pub open spec fn wf(&self) -> bool {
        self.base < TIME_BASE_MOD && self.extension < 512
    }
}

/// The signed 90 kHz tick count from `pcr` forward to `pts`, read as the
/// shorter of the two circular distances in the 33-bit domain.
pub open spec fn spec_elapsed_90k(pts: u64, pcr: u64) -> int
    recommends
        pts < TIME_BASE_MOD,
        pcr < TIME_BASE_MOD,
{
    let d: int = if pts >= pcr {
        pts - pcr
    } else {
        pts + TIME_BASE_MOD - pcr
    };
    if d >= TIME_BASE_HALF {
        d - TIME_BASE_MOD
    } else {
        d
    }
}

/// The distance is congruent to the raw subtraction modulo 2^33 and lies
/// in the signed half-open window around zero: a true modulo-2^33
/// wraparound, not an additive fudge.
pub proof fn lemma_elapsed_90k_is_circular(pts: u64, pcr: u64)
    requires
        pts < TIME_BASE_MOD,
        pcr < TIME_BASE_MOD,
    ensures
        (spec_elapsed_90k(pts, pcr) - (pts - pcr)) % (TIME_BASE_MOD as int) == 0,
        -(TIME_BASE_HALF as int) <= spec_elapsed_90k(pts, pcr) < TIME_BASE_HALF,
{
    let m = TIME_BASE_MOD as int;
    let r = spec_elapsed_90k(pts, pcr);
    let raw = pts - pcr;
    assert(r - raw == 0 || r - raw == m || r - raw == -m);
    assert(0int % m == 0) by (nonlinear_arith)
        requires
            m > 0,
    ;
    assert(m % m == 0) by (nonlinear_arith)
        requires
            m > 0,
    ;
    assert((-m) % m == 0) by (nonlinear_arith)
        requires
            m > 0,
    ;
}

/// Ticks from `pcr` forward to `pts` in the 33-bit circular domain,
/// negative when `pts` lies behind the clock reference.
pub fn elapsed_90k(pts: u64, pcr: u64) -> (r: i64)
    requires
        pts < TIME_BASE_MOD,
        pcr < TIME_BASE_MOD,
    ensures
        r as int == spec_elapsed_90k(pts, pcr),
{
    let d: u64 = if pts >= pcr {
        pts - pcr
    } else {
        pts + TIME_BASE_MOD - pcr
    };
    if d >= TIME_BASE_HALF {
        (d as i64) - (TIME_BASE_MOD as i64)
    } else {
        d as i64
    }
}

} // verus!
