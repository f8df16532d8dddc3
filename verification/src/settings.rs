use vstd::prelude::*;

verus! {

/// The symmetry scale: 100% expressed in hundredths of a percent.
pub const SYMMETRY_FULL_SCALE: u64 = 10000;

/// Divide `a` by `b`, rounding half away from zero (half up, both operands
/// non-negative here).
pub open spec fn div_round_nearest(a: int, b: int) -> int
    recommends
        a >= 0,
        b > 0,
{
    (2 * a + b) / (2 * b)
}

/// Settings for the waveform generator.
///
/// `pkpk_mv` is the peak-to-peak amplitude in millivolts, `period_ms` the
/// waveform period in milliseconds, `symmetry_cpct` the ramp-up fraction of a
/// half-period in hundredths of a percent (0 ..= 10000), and `offset_mv` the
/// DC offset in millivolts.
#[derive(Clone, Copy, PartialEq, Eq, Structural, Debug)]
pub struct WavegenSettings {
    pub pkpk_mv: u64,
    pub period_ms: u64,
    pub symmetry_cpct: u64,
    pub offset_mv: i64,
}

impl WavegenSettings {
    /// Symmetry stays on its percentage scale; the period must be positive by
    /// the time the settings are applied to the generator.
    pub open spec fn wf(self) -> bool {
        self.symmetry_cpct <= SYMMETRY_FULL_SCALE
    }

    /// The symmetry that a trapezoidal waveform with the given ramp and rest
    /// durations has: the ramp as a fraction of the half-period, in hundredths
    /// of a percent, rounded to nearest.
    pub open spec fn spec_trapezoid_symmetry(ramp_ms: u64, rest_ms: u64) -> int {
        div_round_nearest(ramp_ms * SYMMETRY_FULL_SCALE, ramp_ms + rest_ms)
    }

    /// Derive the period and symmetry of a trapezoidal waveform whose ramp
    /// (rise or fall) lasts `ramp_ms` and whose rest (plateau) lasts
    /// `rest_ms`: rise, rest, fall and rest are symmetric, so the period is
    /// twice their sum and the symmetry is the ramp's share of a half-period.
    pub fn set_ramp_time(&mut self, ramp_ms: u64, rest_ms: u64)
        requires
            0 < ramp_ms + rest_ms < 0x1_0000_0000,
        ensures
            final(self).period_ms == 2 * (ramp_ms + rest_ms),
            final(self).symmetry_cpct == Self::spec_trapezoid_symmetry(ramp_ms, rest_ms),
            final(self).pkpk_mv == old(self).pkpk_mv,
            final(self).offset_mv == old(self).offset_mv,
            final(self).wf(),
    {
        let half: u64 = ramp_ms + rest_ms;
        self.period_ms = 2 * half;
        proof {
            assert(2 * (ramp_ms * SYMMETRY_FULL_SCALE) + half < 0x8000_0000_0000_0000) by (nonlinear_arith)
                requires
                    ramp_ms < 0x1_0000_0000,
                    half < 0x1_0000_0000,
                    SYMMETRY_FULL_SCALE == 10000,
            ;
            assert((2 * (ramp_ms * SYMMETRY_FULL_SCALE) + half) / (2 * half) <= SYMMETRY_FULL_SCALE)
                by (nonlinear_arith)
                requires
                    0 < half,
                    ramp_ms <= half,
                    SYMMETRY_FULL_SCALE == 10000,
            ;
        }
        self.symmetry_cpct = (2 * (ramp_ms * SYMMETRY_FULL_SCALE) + half) / (2 * half);
    }
}

impl Default for WavegenSettings {
    /// All-zero settings, to be filled in before they are applied.
    fn default() -> (r: Self)
        ensures
            r.pkpk_mv == 0,
            r.period_ms == 0,
            r.symmetry_cpct == 0,
            r.offset_mv == 0,
            r.wf(),
    {
        WavegenSettings { pkpk_mv: 0, period_ms: 0, symmetry_cpct: 0, offset_mv: 0 }
    }
}

} // verus!
