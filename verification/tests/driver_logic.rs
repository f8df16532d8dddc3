use wavegen_relay::command::Command;
use wavegen_relay::driver::{check_generator_open, export_schedule, AquisitionDriver, DriverError};
use wavegen_relay::settings::WavegenSettings;

fn settings() -> WavegenSettings {
    WavegenSettings { pkpk_mv: 200_000, period_ms: 12_000, symmetry_cpct: 1667, offset_mv: -200_000 }
}

#[test]
fn apply_settings_issues_one_command_per_field() {
    let mut d = AquisitionDriver::new();
    let cmds = d.apply_wavegen_settings(settings());
    assert_eq!(
        cmds,
        vec![
            Command::WavegenSetAmplitude { amplitude_mv: 2_500 },
            Command::WavegenSetPeriod { period_ms: 12_000 },
            Command::WavegenSetOffset { offset_mv: -2_500 },
            Command::WavegenSetSymmetry { symmetry_cpct: 1667 },
        ]
    );
}

#[test]
fn apply_identical_settings_twice_issues_commands_once() {
    let mut d = AquisitionDriver::new();
    let first = d.apply_wavegen_settings(settings());
    assert_eq!(first.len(), 4);
    let second = d.apply_wavegen_settings(settings());
    assert!(second.is_empty());
}

#[test]
fn apply_changed_field_issues_only_that_command() {
    let mut d = AquisitionDriver::new();
    let _ = d.apply_wavegen_settings(settings());
    let mut changed = settings();
    changed.period_ms = 500;
    let cmds = d.apply_wavegen_settings(changed);
    assert_eq!(cmds, vec![Command::WavegenSetPeriod { period_ms: 500 }]);
}

#[test]
fn run_state_is_toggled_only_on_change() {
    let d = AquisitionDriver::new();
    assert_eq!(d.start_wavegen(true), None);
    assert_eq!(d.start_wavegen(false), Some(Command::WavegenToggleRunning));
    assert_eq!(d.stop_wavegen(false), None);
    assert_eq!(d.stop_wavegen(true), Some(Command::WavegenToggleRunning));
}

#[test]
fn focus_is_requested_only_when_another_window_is_open() {
    let d = AquisitionDriver::new();
    let target = b"WaveForms (new workspace)".to_vec();
    assert_eq!(d.focus_window(&target.clone(), target.clone()), None);
    let cmd = d.focus_window(&b"History".to_vec(), target.clone()).unwrap();
    assert_eq!(cmd, Command::FocusWindow { title: target, class: Vec::new() });
}

#[test]
fn session_needs_the_generator_window() {
    assert!(check_generator_open(true).is_ok());
    assert_eq!(check_generator_open(false).unwrap_err(), DriverError::WindowNotOpen);
}

#[test]
fn three_hundred_seconds_need_three_export_cycles() {
    // A 300 s acquisition with a 125 s window budget and a 5 s buffer:
    // exports at 125 s, at 245 s, and at 305 s.
    let times = export_schedule(300_000);
    assert_eq!(times, vec![125_000, 245_000, 305_000]);
}

#[test]
fn short_acquisition_needs_one_export() {
    assert_eq!(export_schedule(100_000), vec![105_000]);
}

#[test]
fn n_waves_duration_covers_one_extra_period() {
    let d = AquisitionDriver::new();
    let s = settings();
    assert_eq!(d.aquire_n_waves_duration(&s, 2), 36_000);
}
