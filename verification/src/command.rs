use vstd::prelude::*;
use vstd::string::StringSliceAdditionalSpecFns;

verus! {

/// The decimal digits of `n`, most significant first.
pub open spec fn dec_digits(n: nat) -> Seq<u8>
    decreases n,
{
    if n < 10 {
        seq![(n + 48) as u8]
    } else {
        dec_digits(n / 10).push((n % 10 + 48) as u8)
    }
}

/// The decimal digits of `n`, with a leading minus sign when negative.
pub open spec fn dec_digits_signed(n: int) -> Seq<u8> {
    if n >= 0 {
        dec_digits(n as nat)
    } else {
        seq![45u8] + dec_digits((-n) as nat)
    }
}

/// A byte as it stands inside a JSON string literal: quote and backslash get
/// a backslash escape, everything else passes through.
pub open spec fn escaped_byte(b: u8) -> Seq<u8> {
    if b == 34 {
        seq![92u8, 34u8]
    } else if b == 92 {
        seq![92u8, 92u8]
    } else {
        seq![b]
    }
}

/// `s` as the body of a JSON string literal.
pub open spec fn json_escaped(s: Seq<u8>) -> Seq<u8>
    decreases s.len(),
{
    if s.len() == 0 {
        Seq::empty()
    } else {
        json_escaped(s.drop_last()) + escaped_byte(s.last())
    }
}

/// Append the bytes of `s` to `out`.
pub(crate) fn push_bytes(out: &mut Vec<u8>, s: &[u8])
    ensures
        final(out)@ == old(out)@ + s@,
{
    let ghost start = out@;
    let mut i: usize = 0;
    while i < s.len()
        invariant
            i <= s@.len(),
            out@ == start + s@.take(i as int),
        decreases s@.len() - i,
    {
        out.push(s[i]);
        proof {
            assert(out@ =~= start + s@.take(i + 1));
        }
        i += 1;
    }
    proof {
        assert(out@ =~= start + s@);
    }
}

/// Append the bytes of a string literal to `out`.
pub(crate) fn push_text(out: &mut Vec<u8>, s: &str)
    ensures
        final(out)@ == old(out)@ + s.spec_bytes(),
{
    push_bytes(out, s.as_bytes());
}

/// Append the decimal digits of `n` to `out`.
pub(crate) fn push_u64_dec(out: &mut Vec<u8>, n: u64)
    ensures
        final(out)@ == old(out)@ + dec_digits(n as nat),
    decreases n,
{
    if n < 10 {
        out.push((n as u8) + 48);
        proof {
            assert(final(out)@ =~= old(out)@ + dec_digits(n as nat));
        }
    } else {
        push_u64_dec(out, n / 10);
        out.push(((n % 10) as u8) + 48);
        proof {
            assert(final(out)@ =~= old(out)@ + dec_digits(n as nat));
        }
    }
}

/// Append the decimal rendering of `n`, sign included, to `out`.
pub(crate) fn push_i64_dec(out: &mut Vec<u8>, n: i64)
    requires
        n > i64::MIN,
    ensures
        final(out)@ == old(out)@ + dec_digits_signed(n as int),
{
    if n >= 0 {
        push_u64_dec(out, n as u64);
    } else {
        let ghost start = out@;
        out.push(45);
        push_u64_dec(out, (-n) as u64);
        proof {
            assert(out@ =~= start + dec_digits_signed(n as int));
        }
    }
}

/// Append `s` escaped for a JSON string literal to `out`.
fn push_escaped(out: &mut Vec<u8>, s: &[u8])
    ensures
        final(out)@ == old(out)@ + json_escaped(s@),
{
    let ghost start = out@;
    let mut i: usize = 0;
    while i < s.len()
        invariant
            i <= s@.len(),
            out@ == start + json_escaped(s@.take(i as int)),
        decreases s@.len() - i,
    {
        proof {
            assert(s@.take(i + 1).drop_last() =~= s@.take(i as int));
            assert(s@.take(i + 1).last() == s@[i as int]);
        }
        let b = s[i];
        if b == 34 {
            out.push(92);
            out.push(34);
        } else if b == 92 {
            out.push(92);
            out.push(92);
        } else {
            out.push(b);
        }
        proof {
            assert(out@ =~= start + json_escaped(s@.take(i + 1)));
        }
        i += 1;
    }
    proof {
        assert(s@.take(s@.len() as int) =~= s@);
        assert(out@ =~= start + json_escaped(s@));
    }
}

/// One remote action of the desktop-automation agent, with its typed
/// arguments: a closed set rather than a stringly dispatched bag.
/// Amplitudes and offsets are in millivolts, periods in milliseconds,
/// symmetry in hundredths of a percent; text arguments are raw bytes.
#[derive(Debug, PartialEq)]
pub enum Command {
    WavegenIsRunning,
    WavegenToggleRunning,
    WavegenSetTrapezium,
    WavegenSetPeriod { period_ms: u64 },
    WavegenSetAmplitude { amplitude_mv: u64 },
    WavegenSetOffset { offset_mv: i64 },
    WavegenSetSymmetry { symmetry_cpct: u64 },
    NanonisSaveHistory { folder: Vec<u8>, filename: Vec<u8> },
    NanonisOpenHistory,
    IsWindowOpen { title: Vec<u8>, class: Vec<u8> },
    GetOpenWindow,
    FocusWindow { title: Vec<u8>, class: Vec<u8> },
}

impl Command {
    /// Encoding never renders the one unrepresentable magnitude.
    pub open spec fn wf(self) -> bool {
        self matches Command::WavegenSetOffset { offset_mv } ==> offset_mv > i64::MIN
    }

    /// The agent's textual command encoding: an object with a `command` field
    /// naming the action and one field per argument.
    pub open spec fn spec_encoded(self) -> Seq<u8> {
        match self {
            Command::WavegenIsRunning => "{\"command\":\"wavegen_is_running\"}".spec_bytes(),
            Command::WavegenToggleRunning => "{\"command\":\"wavegen_toggle_running\"}".spec_bytes(),
            Command::WavegenSetTrapezium => "{\"command\":\"wavegen_set_trapezium\"}".spec_bytes(),
            Command::WavegenSetPeriod { period_ms } => "{\"command\":\"wavegen_set_period\",\"period\":".spec_bytes()
                + dec_digits(period_ms as nat) + "}".spec_bytes(),
            Command::WavegenSetAmplitude { amplitude_mv } => "{\"command\":\"wavegen_set_amplitude\",\"amplitude\":".spec_bytes()
                + dec_digits(amplitude_mv as nat) + "}".spec_bytes(),
            Command::WavegenSetOffset { offset_mv } => "{\"command\":\"wavegen_set_offset\",\"offset\":".spec_bytes()
                + dec_digits_signed(offset_mv as int) + "}".spec_bytes(),
            Command::WavegenSetSymmetry { symmetry_cpct } => "{\"command\":\"wavegen_set_symmetry\",\"symmetry\":".spec_bytes()
                + dec_digits(symmetry_cpct as nat) + "}".spec_bytes(),
            Command::NanonisSaveHistory { folder, filename } => "{\"command\":\"nanonis_save_history\",\"folder\":\"".spec_bytes()
                + json_escaped(folder@) + "\",\"filename\":\"".spec_bytes() + json_escaped(
                filename@,
            ) + "\"}".spec_bytes(),
            Command::NanonisOpenHistory => "{\"command\":\"nanonis_open_history\"}".spec_bytes(),
            Command::IsWindowOpen { title, class } => "{\"command\":\"is_window_open\",\"title\":\"".spec_bytes()
                + json_escaped(title@) + "\",\"class\":\"".spec_bytes() + json_escaped(class@)
                + "\"}".spec_bytes(),
            Command::GetOpenWindow => "{\"command\":\"get_open_window\"}".spec_bytes(),
            Command::FocusWindow { title, class } => "{\"command\":\"focus_window\",\"title\":\"".spec_bytes()
                + json_escaped(title@) + "\",\"class\":\"".spec_bytes() + json_escaped(class@)
                + "\"}".spec_bytes(),
        }
    }

    /// Serialize the command for the wire.
    pub fn encoded(&self) -> (r: Vec<u8>)
        requires
            self.wf(),
        ensures
            r@ == self.spec_encoded(),
    {
        let mut out: Vec<u8> = Vec::new();
        match self {
            Command::WavegenIsRunning => {
                push_text(&mut out, "{\"command\":\"wavegen_is_running\"}");
            },
            Command::WavegenToggleRunning => {
                push_text(&mut out, "{\"command\":\"wavegen_toggle_running\"}");
            },
            Command::WavegenSetTrapezium => {
                push_text(&mut out, "{\"command\":\"wavegen_set_trapezium\"}");
            },
            Command::WavegenSetPeriod { period_ms } => {
                push_text(&mut out, "{\"command\":\"wavegen_set_period\",\"period\":");
                push_u64_dec(&mut out, *period_ms);
                push_text(&mut out, "}");
            },
            Command::WavegenSetAmplitude { amplitude_mv } => {
                push_text(&mut out, "{\"command\":\"wavegen_set_amplitude\",\"amplitude\":");
                push_u64_dec(&mut out, *amplitude_mv);
                push_text(&mut out, "}");
            },
            Command::WavegenSetOffset { offset_mv } => {
                push_text(&mut out, "{\"command\":\"wavegen_set_offset\",\"offset\":");
                push_i64_dec(&mut out, *offset_mv);
                push_text(&mut out, "}");
            },
            Command::WavegenSetSymmetry { symmetry_cpct } => {
                push_text(&mut out, "{\"command\":\"wavegen_set_symmetry\",\"symmetry\":");
                push_u64_dec(&mut out, *symmetry_cpct);
                push_text(&mut out, "}");
            },
            Command::NanonisSaveHistory { folder, filename } => {
                push_text(&mut out, "{\"command\":\"nanonis_save_history\",\"folder\":\"");
                push_escaped(&mut out, folder.as_slice());
                push_text(&mut out, "\",\"filename\":\"");
                push_escaped(&mut out, filename.as_slice());
                push_text(&mut out, "\"}");
            },
            Command::NanonisOpenHistory => {
                push_text(&mut out, "{\"command\":\"nanonis_open_history\"}");
            },
            Command::IsWindowOpen { title, class } => {
                push_text(&mut out, "{\"command\":\"is_window_open\",\"title\":\"");
                push_escaped(&mut out, title.as_slice());
                push_text(&mut out, "\",\"class\":\"");
                push_escaped(&mut out, class.as_slice());
                push_text(&mut out, "\"}");
            },
            Command::GetOpenWindow => {
                push_text(&mut out, "{\"command\":\"get_open_window\"}");
            },
            Command::FocusWindow { title, class } => {
                push_text(&mut out, "{\"command\":\"focus_window\",\"title\":\"");
                push_escaped(&mut out, title.as_slice());
                push_text(&mut out, "\",\"class\":\"");
                push_escaped(&mut out, class.as_slice());
                push_text(&mut out, "\"}");
            },
        }
        proof {
            assert(out@ =~= self.spec_encoded());
        }
        out
    }
}

} // verus!
