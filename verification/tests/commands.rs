use wavegen_relay::command::Command;
use wavegen_relay::settings::WavegenSettings;

fn encoded_str(c: &Command) -> String {
    String::from_utf8(c.encoded()).unwrap()
}

#[test]
fn plain_commands_encode_as_bare_objects() {
    assert_eq!(encoded_str(&Command::WavegenIsRunning), "{\"command\":\"wavegen_is_running\"}");
    assert_eq!(
        encoded_str(&Command::WavegenToggleRunning),
        "{\"command\":\"wavegen_toggle_running\"}"
    );
    assert_eq!(
        encoded_str(&Command::WavegenSetTrapezium),
        "{\"command\":\"wavegen_set_trapezium\"}"
    );
    assert_eq!(encoded_str(&Command::GetOpenWindow), "{\"command\":\"get_open_window\"}");
    assert_eq!(encoded_str(&Command::NanonisOpenHistory), "{\"command\":\"nanonis_open_history\"}");
}

#[test]
fn numeric_arguments_encode_in_decimal() {
    assert_eq!(
        encoded_str(&Command::WavegenSetPeriod { period_ms: 12000 }),
        "{\"command\":\"wavegen_set_period\",\"period\":12000}"
    );
    assert_eq!(
        encoded_str(&Command::WavegenSetAmplitude { amplitude_mv: 2500 }),
        "{\"command\":\"wavegen_set_amplitude\",\"amplitude\":2500}"
    );
    assert_eq!(
        encoded_str(&Command::WavegenSetOffset { offset_mv: -2500 }),
        "{\"command\":\"wavegen_set_offset\",\"offset\":-2500}"
    );
    assert_eq!(
        encoded_str(&Command::WavegenSetOffset { offset_mv: 0 }),
        "{\"command\":\"wavegen_set_offset\",\"offset\":0}"
    );
    assert_eq!(
        encoded_str(&Command::WavegenSetSymmetry { symmetry_cpct: 1667 }),
        "{\"command\":\"wavegen_set_symmetry\",\"symmetry\":1667}"
    );
}

#[test]
fn text_arguments_are_escaped() {
    let cmd = Command::NanonisSaveHistory {
        folder: b"C:\\data\\run".to_vec(),
        filename: b"a\"b.dat".to_vec(),
    };
    assert_eq!(
        encoded_str(&cmd),
        "{\"command\":\"nanonis_save_history\",\"folder\":\"C:\\\\data\\\\run\",\"filename\":\"a\\\"b.dat\"}"
    );
    let focus = Command::FocusWindow { title: b"WaveForms (new workspace)".to_vec(), class: Vec::new() };
    assert_eq!(
        encoded_str(&focus),
        "{\"command\":\"focus_window\",\"title\":\"WaveForms (new workspace)\",\"class\":\"\"}"
    );
    let open = Command::IsWindowOpen { title: b"History".to_vec(), class: b"".to_vec() };
    assert_eq!(
        encoded_str(&open),
        "{\"command\":\"is_window_open\",\"title\":\"History\",\"class\":\"\"}"
    );
}

#[test]
fn derived_trapezoid_settings() {
    // ramp 1 s, rest 5 s: period 12 s, symmetry 1/6 of the scale, about
    // 16.67 percent.
    let mut s = WavegenSettings::default();
    s.set_ramp_time(1_000, 5_000);
    assert_eq!(s.period_ms, 12_000);
    assert_eq!(s.symmetry_cpct, 1_667);
}

#[test]
fn trapezoid_symmetry_is_half_scale_for_equal_ramp_and_rest() {
    let mut s = WavegenSettings::default();
    s.set_ramp_time(500, 500);
    assert_eq!(s.period_ms, 2_000);
    assert_eq!(s.symmetry_cpct, 5_000);
}

#[test]
fn default_settings_are_zero() {
    let s = WavegenSettings::default();
    assert_eq!(s.pkpk_mv, 0);
    assert_eq!(s.period_ms, 0);
    assert_eq!(s.symmetry_cpct, 0);
    assert_eq!(s.offset_mv, 0);
}
