use vstd::prelude::*;

use crate::command::Command;
use crate::settings::WavegenSettings;

verus! {

/// The generator hardware sits behind an amplifier: a requested peak-to-peak
/// swing is divided by twice this gain before it is sent.
pub const WAVEGEN_GAIN: u64 = 40;

/// The instrument's own logging window capacity, in milliseconds: one export
/// can cover at most this much time.
pub const NANONIS_WINDOW_MS: u64 = 125000;

/// Safety margin kept between consecutive exports so a window is always
/// exported before its coverage lapses, in milliseconds.
pub const NANONIS_WINDOW_BUFFER_MS: u64 = 5000;

/// A session cannot start: the generator's controlling application is not
/// open, noticed before any remote command is issued.
#[derive(Debug, PartialEq, Eq, Structural)]
pub enum DriverError {
    WindowNotOpen,
}

/// An offset divided by twice the amplifier gain, rounded towards zero.
pub open spec fn scaled_offset(o: int) -> int {
    if o >= 0 {
        o / (2 * WAVEGEN_GAIN) as int
    } else {
        -((-o) / (2 * WAVEGEN_GAIN) as int)
    }
}

/// The instants, in milliseconds from the session start, at which exports are
/// triggered while covering `total` milliseconds: `t` is when the current
/// window's budget lapses; each export before the end restarts the budget
/// shortened by the safety buffer, and one final export happens at `total`
/// itself.
pub open spec fn spec_export_times(t: u64, total: u64) -> Seq<u64>
    decreases (if t <= total { total - t } else { 0 }),
{
    if t >= total {
        seq![total]
    } else {
        let next = if t + (NANONIS_WINDOW_MS - NANONIS_WINDOW_BUFFER_MS) <= total {
            (t + (NANONIS_WINDOW_MS - NANONIS_WINDOW_BUFFER_MS)) as u64
        } else {
            total
        };
        seq![t] + spec_export_times(next, total)
    }
}

/// Drives one acquisition session. Caches the last-applied generator
/// settings so unchanged values are never re-sent, and decides — from plain
/// facts the caller feeds back, never from hidden state — which remote
/// command to issue next. The surrounding runtime performs the commands and
/// must discard the driver if one of them fails: the session is then over.
pub struct AquisitionDriver {
    pub pkpk_mv: Option<u64>,
    pub period_ms: Option<u64>,
    pub offset_mv: Option<i64>,
    pub symmetry_cpct: Option<u64>,
}

impl AquisitionDriver {
    /// The cache once `s` has been applied in full.
    pub open spec fn spec_applied(self, s: WavegenSettings) -> AquisitionDriver {
        AquisitionDriver {
            pkpk_mv: Some(s.pkpk_mv),
            period_ms: Some(s.period_ms),
            offset_mv: Some(s.offset_mv),
            symmetry_cpct: Some(s.symmetry_cpct),
        }
    }

    /// The commands that applying `s` issues: one per field that differs from
    /// the cached last-applied value, in the fixed order amplitude, period,
    /// offset, symmetry; a field already at its target issues nothing.
    pub open spec fn spec_settings_commands(self, s: WavegenSettings) -> Seq<Command> {
        (if self.pkpk_mv == Some(s.pkpk_mv) {
            Seq::<Command>::empty()
        } else {
            seq![Command::WavegenSetAmplitude { amplitude_mv: s.pkpk_mv / ((2 * WAVEGEN_GAIN) as u64) }]
        }) + (if self.period_ms == Some(s.period_ms) {
            Seq::<Command>::empty()
        } else {
            seq![Command::WavegenSetPeriod { period_ms: s.period_ms }]
        }) + (if self.offset_mv == Some(s.offset_mv) {
            Seq::<Command>::empty()
        } else {
            seq![Command::WavegenSetOffset { offset_mv: scaled_offset(s.offset_mv as int) as i64 }]
        }) + (if self.symmetry_cpct == Some(s.symmetry_cpct) {
            Seq::<Command>::empty()
        } else {
            seq![Command::WavegenSetSymmetry { symmetry_cpct: s.symmetry_cpct }]
        })
    }

    /// A fresh driver with nothing applied yet.
    pub fn new() -> (r: AquisitionDriver)
        ensures
            r.pkpk_mv is None,
            r.period_ms is None,
            r.offset_mv is None,
            r.symmetry_cpct is None,
    {
        AquisitionDriver { pkpk_mv: None, period_ms: None, offset_mv: None, symmetry_cpct: None }
    }

    /// The amplitude command to issue for a peak-to-peak target, or nothing
    /// when the target is already applied.
    pub fn set_wavegen_pkpk(&mut self, pkpk_mv: u64) -> (r: Option<Command>)
        ensures
            final(self).pkpk_mv == Some(pkpk_mv),
            final(self).period_ms == old(self).period_ms,
            final(self).offset_mv == old(self).offset_mv,
            final(self).symmetry_cpct == old(self).symmetry_cpct,
            r == (if old(self).pkpk_mv == Some(pkpk_mv) {
                Option::<Command>::None
            } else {
                Some(Command::WavegenSetAmplitude {
                    amplitude_mv: pkpk_mv / ((2 * WAVEGEN_GAIN) as u64),
                })
            }),
    {
        if self.pkpk_mv == Some(pkpk_mv) {
            None
        } else {
            self.pkpk_mv = Some(pkpk_mv);
            Some(Command::WavegenSetAmplitude { amplitude_mv: pkpk_mv / (2 * WAVEGEN_GAIN) })
        }
    }

    /// The period command to issue, or nothing when already applied. An
    /// applied period is always positive.
    pub fn set_wavegen_period(&mut self, period_ms: u64) -> (r: Option<Command>)
        requires
            period_ms > 0,
        ensures
            final(self).period_ms == Some(period_ms),
            final(self).pkpk_mv == old(self).pkpk_mv,
            final(self).offset_mv == old(self).offset_mv,
            final(self).symmetry_cpct == old(self).symmetry_cpct,
            r == (if old(self).period_ms == Some(period_ms) {
                Option::<Command>::None
            } else {
                Some(Command::WavegenSetPeriod { period_ms })
            }),
    {
        if self.period_ms == Some(period_ms) {
            None
        } else {
            self.period_ms = Some(period_ms);
            Some(Command::WavegenSetPeriod { period_ms })
        }
    }

    /// The offset command to issue, or nothing when already applied.
    pub fn set_wavegen_offset(&mut self, offset_mv: i64) -> (r: Option<Command>)
        requires
            offset_mv > i64::MIN,
        ensures
            final(self).offset_mv == Some(offset_mv),
            final(self).pkpk_mv == old(self).pkpk_mv,
            final(self).period_ms == old(self).period_ms,
            final(self).symmetry_cpct == old(self).symmetry_cpct,
            r == (if old(self).offset_mv == Some(offset_mv) {
                Option::<Command>::None
            } else {
                Some(Command::WavegenSetOffset { offset_mv: scaled_offset(offset_mv as int) as i64 })
            }),
    {
        if self.offset_mv == Some(offset_mv) {
            None
        } else {
            self.offset_mv = Some(offset_mv);
            let scaled: i64 = if offset_mv >= 0 {
                ((offset_mv as u64) / (2 * WAVEGEN_GAIN)) as i64
            } else {
                -((((-offset_mv) as u64) / (2 * WAVEGEN_GAIN)) as i64)
            };
            Some(Command::WavegenSetOffset { offset_mv: scaled })
        }
    }

    /// The symmetry command to issue, or nothing when already applied.
    pub fn set_wavegen_symmetry(&mut self, symmetry_cpct: u64) -> (r: Option<Command>)
        ensures
            final(self).symmetry_cpct == Some(symmetry_cpct),
            final(self).pkpk_mv == old(self).pkpk_mv,
            final(self).period_ms == old(self).period_ms,
            final(self).offset_mv == old(self).offset_mv,
            r == (if old(self).symmetry_cpct == Some(symmetry_cpct) {
                Option::<Command>::None
            } else {
                Some(Command::WavegenSetSymmetry { symmetry_cpct })
            }),
    {
        if self.symmetry_cpct == Some(symmetry_cpct) {
            None
        } else {
            self.symmetry_cpct = Some(symmetry_cpct);
            Some(Command::WavegenSetSymmetry { symmetry_cpct })
        }
    }

    /// The commands that bring the generator to `s`: exactly one per changed
    /// field, none for fields already at their target, in the fixed order
    /// amplitude, period, offset, symmetry.
    pub fn apply_wavegen_settings(&mut self, s: WavegenSettings) -> (r: Vec<Command>)
        requires
            s.period_ms > 0,
            s.offset_mv > i64::MIN,
        ensures
            *final(self) == old(self).spec_applied(s),
            r@ == old(self).spec_settings_commands(s),
    {
        let mut out: Vec<Command> = Vec::new();
        if let Some(cmd) = self.set_wavegen_pkpk(s.pkpk_mv) {
            out.push(cmd);
        }
        if let Some(cmd) = self.set_wavegen_period(s.period_ms) {
            out.push(cmd);
        }
        if let Some(cmd) = self.set_wavegen_offset(s.offset_mv) {
            out.push(cmd);
        }
        if let Some(cmd) = self.set_wavegen_symmetry(s.symmetry_cpct) {
            out.push(cmd);
        }
        proof {
            assert(out@ =~= old(self).spec_settings_commands(s));
        }
        out
    }

    /// Toggle the generator's run state only when it is not already running.
    pub fn start_wavegen(&self, currently_running: bool) -> (r: Option<Command>)
        ensures
            r == (if currently_running {
                Option::<Command>::None
            } else {
                Some(Command::WavegenToggleRunning)
            }),
    {
        if currently_running {
            None
        } else {
            Some(Command::WavegenToggleRunning)
        }
    }

    /// Toggle the generator's run state only when it is still running.
    pub fn stop_wavegen(&self, currently_running: bool) -> (r: Option<Command>)
        ensures
            r == (if currently_running {
                Some(Command::WavegenToggleRunning)
            } else {
                Option::<Command>::None
            }),
    {
        if currently_running {
            Some(Command::WavegenToggleRunning)
        } else {
            None
        }
    }

    /// Focus `target` only when `focused`, the window currently open, is not
    /// already it.
    pub fn focus_window(&self, focused: &Vec<u8>, target: Vec<u8>) -> (r: Option<Command>)
        ensures
            focused@ == target@ ==> r is None,
            focused@ != target@ ==> ({
                &&& r matches Some(c)
                &&& c matches Command::FocusWindow { title, class }
                &&& title@ == target@
                &&& class@ == Seq::<u8>::empty()
            }),
    {
        if bytes_eq(focused, &target) {
            None
        } else {
            Some(Command::FocusWindow { title: target, class: Vec::new() })
        }
    }

    /// The overall duration that covers `n` whole waves of `s`, plus one more
    /// period of lead-in, in milliseconds.
    pub fn aquire_n_waves_duration(&self, s: &WavegenSettings, n: usize) -> (r: u64)
        requires
            s.period_ms > 0,
            s.period_ms * (n + 1) <= u64::MAX,
        ensures
            r == s.period_ms * (n + 1),
    {
        proof {
            assert(n + 1 <= s.period_ms * (n + 1)) by (nonlinear_arith)
                requires
                    s.period_ms >= 1,
                    n >= 0,
            ;
        }
        let m: u64 = (n as u64) + 1;
        proof {
            assert(s.period_ms * m == s.period_ms * (n + 1));
        }
        s.period_ms * m
    }
}

/// A session may start only when the generator's controlling application is
/// open; `open` is the remote agent's answer to the window query.
pub fn check_generator_open(open: bool) -> (r: Result<(), DriverError>)
    ensures
        r is Ok <==> open,
        r is Err ==> r == Result::<(), DriverError>::Err(DriverError::WindowNotOpen),
{
    if open {
        Ok(())
    } else {
        Err(DriverError::WindowNotOpen)
    }
}

/// Whether two byte strings are equal.
pub fn bytes_eq(a: &Vec<u8>, b: &Vec<u8>) -> (r: bool)
    ensures
        r == (a@ == b@),
{
    if a.len() != b.len() {
        return false;
    }
    let mut i: usize = 0;
    while i < a.len()
        invariant
            a@.len() == b@.len(),
            i <= a@.len(),
            forall|t: int| 0 <= t < i ==> a@[t] == b@[t],
        decreases a@.len() - i,
    {
        if a[i] != b[i] {
            return false;
        }
        i += 1;
    }
    proof {
        assert(a@ =~= b@);
    }
    true
}

/// The export instants that cover `duration_ms` of acquisition: exports
/// happen when each window's budget lapses and once more when the requested
/// duration plus one safety buffer has passed; every window after the first
/// is shortened by the buffer so it is exported before its coverage lapses.
pub fn export_schedule(duration_ms: u64) -> (r: Vec<u64>)
    requires
        duration_ms <= 0x1000_0000_0000,
    ensures
        r@ == spec_export_times(NANONIS_WINDOW_MS, (duration_ms + NANONIS_WINDOW_BUFFER_MS) as u64),
        r@.len() >= 1,
{
    let total: u64 = duration_ms + NANONIS_WINDOW_BUFFER_MS;
    let step: u64 = NANONIS_WINDOW_MS - NANONIS_WINDOW_BUFFER_MS;
    let mut t: u64 = NANONIS_WINDOW_MS;
    let mut out: Vec<u64> = Vec::new();
    while t < total
        invariant
            spec_export_times(NANONIS_WINDOW_MS, total) == out@ + spec_export_times(t, total),
            step == NANONIS_WINDOW_MS - NANONIS_WINDOW_BUFFER_MS,
            total <= 0x1000_0000_0000 + NANONIS_WINDOW_BUFFER_MS,
        decreases total - t,
    {
        out.push(t);
        let next: u64 = if t + step <= total {
            t + step
        } else {
            total
        };
        proof {
            assert(spec_export_times(t, total) == seq![t] + spec_export_times(next, total));
            assert(out@ + spec_export_times(next, total) =~= out@.drop_last() + (seq![t]
                + spec_export_times(next, total)));
        }
        t = next;
    }
    out.push(total);
    proof {
        assert(spec_export_times(t, total) =~= seq![total]);
        assert(out@ =~= out@.drop_last() + spec_export_times(t, total));
        assert(out@ =~= spec_export_times(NANONIS_WINDOW_MS, total));
    }
    out
}

/// Applying the same settings twice issues the underlying remote commands
/// only once: after one full application, a second application of identical
/// settings issues no command at all.
pub proof fn lemma_apply_settings_idempotent(d: AquisitionDriver, s: WavegenSettings)
    ensures
        d.spec_applied(s).spec_settings_commands(s) == Seq::<Command>::empty(),
{
    assert(d.spec_applied(s).spec_settings_commands(s) =~= Seq::<Command>::empty());
}

} // verus!
