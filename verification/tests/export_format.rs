use wavegen_relay::export::{parse_export, render_export, ExportError};
use wavegen_relay::series::Aquisition;
use wavegen_relay::settings::WavegenSettings;

const FILE: &str = "Experiment\tHistory Data\t\nDate\t01.02.2024 10:20:30\t\nSample Period (ms)\t0.5\t\n\n[DATA]\nCapacitive Probe (m)\tCurrent (A)\tVoltage Monitor (V)\n1.5\t2.5e-9\t3.5\n1.6\t2.6e-9\t3.6\n";

#[test]
fn parse_export_extracts_period_and_columns() {
    let e = parse_export(FILE.as_bytes()).unwrap();
    assert_eq!(e.sample_period_us, 500);
    assert_eq!(e.probe, vec![b"1.5".to_vec(), b"1.6".to_vec()]);
    assert_eq!(e.current, vec![b"2.5e-9".to_vec(), b"2.6e-9".to_vec()]);
    assert_eq!(e.voltage, vec![b"3.5".to_vec(), b"3.6".to_vec()]);
}

#[test]
fn parse_export_accepts_extra_columns_and_crlf() {
    let file = "Sample Period (ms)\t2\r\n[DATA]\r\nTime (s)\tCapacitive Probe (m)\tCurrent (A)\tVoltage Monitor (V)\r\n0\t1\t2\t3\r\n1\t4\t5\t6\r\n";
    let e = parse_export(file.as_bytes()).unwrap();
    assert_eq!(e.sample_period_us, 2_000);
    assert_eq!(e.probe, vec![b"1".to_vec(), b"4".to_vec()]);
    assert_eq!(e.current, vec![b"2".to_vec(), b"5".to_vec()]);
    assert_eq!(e.voltage, vec![b"3".to_vec(), b"6".to_vec()]);
}

#[test]
fn parse_export_names_what_is_missing() {
    assert_eq!(
        parse_export(b"Sample Period (ms)\t1\nno marker\n").unwrap_err(),
        ExportError::MissingDataMarker
    );
    assert_eq!(
        parse_export(b"header\n[DATA]\nCapacitive Probe (m)\tCurrent (A)\tVoltage Monitor (V)\n")
            .unwrap_err(),
        ExportError::MissingSamplePeriod
    );
    assert_eq!(
        parse_export(b"Sample Period (ms)\tabc\n[DATA]\nx\n").unwrap_err(),
        ExportError::BadSamplePeriod
    );
    assert_eq!(
        parse_export(b"Sample Period (ms)\t0\n[DATA]\nx\n").unwrap_err(),
        ExportError::BadSamplePeriod
    );
    assert_eq!(
        parse_export(b"Sample Period (ms)\t1\n[DATA]").unwrap_err(),
        ExportError::MissingHeaderRow
    );
    assert_eq!(
        parse_export(b"Sample Period (ms)\t1\n[DATA]\nCapacitive Probe (m)\tCurrent (A)\n")
            .unwrap_err(),
        ExportError::MissingChannel
    );
    assert_eq!(
        parse_export(
            b"Sample Period (ms)\t1\n[DATA]\nCapacitive Probe (m)\tCurrent (A)\tVoltage Monitor (V)\n1\t2\t3\n4\t5\n",
        )
        .unwrap_err(),
        ExportError::RaggedRow
    );
}

#[test]
fn render_export_writes_the_documented_layout() {
    let s = WavegenSettings { pkpk_mv: 200_000, period_ms: 12_000, symmetry_cpct: 1667, offset_mv: -500 };
    let out = render_export(
        &b"01.02.2024 10:20:30".to_vec(),
        500,
        &s,
        &vec![b"1.5".to_vec(), b"1.6".to_vec()],
        &vec![b"2.5".to_vec(), b"2.6".to_vec()],
        &vec![b"3.5".to_vec(), b"3.6".to_vec()],
    );
    let expected = "Experiment\tHistory Data\t\nDate\t01.02.2024 10:20:30\t\nSample Period (ms)\t0.5\t\npkpk_mv\t200000\t\noffset_mv\t-500\t\nsymmetry_cpct\t1667\t\nperiod_ms\t12000\t\n\n[DATA]\nCapacitive Probe (m)\tCurrent (A)\tVoltage Monitor (V)\n1.5\t2.5\t3.5\n1.6\t2.6\t3.6\n";
    assert_eq!(String::from_utf8(out).unwrap(), expected);
}

#[test]
fn rendered_export_parses_back() {
    let s = WavegenSettings { pkpk_mv: 1, period_ms: 2, symmetry_cpct: 3, offset_mv: 4 };
    let probe = vec![b"0.25".to_vec(), b"0.5".to_vec()];
    let current = vec![b"1e-9".to_vec(), b"2e-9".to_vec()];
    let voltage = vec![b"7".to_vec(), b"8".to_vec()];
    let out = render_export(&b"today".to_vec(), 1_250, &s, &probe, &current, &voltage);
    let e = parse_export(&out).unwrap();
    assert_eq!(e.sample_period_us, 1_250);
    assert_eq!(e.probe, probe);
    assert_eq!(e.current, current);
    assert_eq!(e.voltage, voltage);
}

fn ramp(lo: u64, hi: u64) -> Vec<u64> {
    (lo..=hi).collect()
}

fn window(lo: u64, hi: u64) -> Aquisition {
    Aquisition {
        probe: ramp(lo, hi),
        current: ramp(lo + 1_000, hi + 1_000),
        voltage: ramp(lo + 2_000, hi + 2_000),
        wavegen_settings: WavegenSettings::default(),
        sample_period_us: 1_000_000,
    }
}

#[test]
fn three_windows_fold_and_trim_to_the_requested_duration() {
    // A 300 s acquisition at one sample per second: the schedule takes three
    // export cycles (see the driver tests); the three windows overlap and the
    // fold is trimmed to exactly 300 s worth of samples.
    let w1 = window(0, 124);
    let w2 = window(120, 244);
    let w3 = window(240, 304);
    let acc = w1.combine(w2).unwrap();
    assert_eq!(acc.probe.len(), 245);
    let mut acc = acc.combine(w3).unwrap();
    assert_eq!(acc.probe.len(), 305);
    acc.trim_to_duration(300_000);
    assert_eq!(acc.probe.len(), 300);
    assert_eq!(acc.current.len(), 300);
    assert_eq!(acc.voltage.len(), 300);
    assert_eq!(acc.probe[0], 5);
    assert_eq!(acc.probe[299], 304);
}
