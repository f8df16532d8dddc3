use wavegen_relay::series::Aquisition;
use wavegen_relay::settings::WavegenSettings;

fn settings() -> WavegenSettings {
    WavegenSettings { pkpk_mv: 200_000, period_ms: 12_000, symmetry_cpct: 1667, offset_mv: 200_000 }
}

fn window(probe: &[u64], current: &[u64], voltage: &[u64]) -> Aquisition {
    Aquisition {
        probe: probe.to_vec(),
        current: current.to_vec(),
        voltage: voltage.to_vec(),
        wavegen_settings: settings(),
        sample_period_us: 500,
    }
}

#[test]
fn combine_overlap_of_one() {
    let a = window(&[1, 2, 3], &[10, 20, 30], &[100, 200, 300]);
    let b = window(&[3, 4, 5], &[30, 40, 50], &[300, 400, 500]);
    let c = a.combine(b).unwrap();
    assert_eq!(c.probe, vec![1, 2, 3, 4, 5]);
    assert_eq!(c.current, vec![10, 20, 30, 40, 50]);
    assert_eq!(c.voltage, vec![100, 200, 300, 400, 500]);
    // len(A) + len(B) - k with k = 1
    assert_eq!(c.probe.len(), 3 + 3 - 1);
    assert_eq!(c.sample_period_us, 500);
    assert_eq!(c.wavegen_settings, settings());
}

#[test]
fn combine_overlap_of_two() {
    let a = window(&[1, 2, 3], &[10, 20, 30], &[100, 200, 300]);
    let b = window(&[2, 3, 9], &[20, 30, 90], &[200, 300, 900]);
    let c = a.combine(b).unwrap();
    assert_eq!(c.probe, vec![1, 2, 3, 9]);
    assert_eq!(c.current, vec![10, 20, 30, 90]);
    assert_eq!(c.voltage, vec![100, 200, 300, 900]);
    assert_eq!(c.probe.len(), 3 + 3 - 2);
}

#[test]
fn combine_ambiguous_fails() {
    // A's last sample reappears twice in B on every channel at once.
    let a = window(&[1, 2, 3], &[10, 20, 30], &[100, 200, 300]);
    let b = window(&[3, 7, 3], &[30, 70, 30], &[300, 700, 300]);
    let e = a.combine(b).unwrap_err();
    assert_eq!(e.first, vec![0, 2]);
    assert_eq!(e.second, vec![0, 2]);
}

#[test]
fn combine_disambiguates_by_smallest_candidate_set() {
    // The probe channel alone is ambiguous; the current channel pins it down.
    let a = window(&[1, 2, 3], &[10, 20, 30], &[100, 200, 300]);
    let b = window(&[3, 4, 3], &[30, 40, 50], &[300, 400, 500]);
    let c = a.combine(b).unwrap();
    assert_eq!(c.probe, vec![1, 2, 3, 4, 3]);
    assert_eq!(c.current, vec![10, 20, 30, 40, 50]);
}

#[test]
fn combine_disambiguates_by_intersection() {
    // Both smallest candidate lists have two entries; only one is shared.
    let a = window(&[1, 2, 3], &[10, 20, 30], &[100, 200, 300]);
    let b = window(&[3, 4, 3], &[30, 30, 5], &[300, 400, 500]);
    let c = a.combine(b).unwrap();
    // probe candidates {0, 2}, current candidates {0, 1}: overlap index 0.
    assert_eq!(c.probe, vec![1, 2, 3, 4, 3]);
    assert_eq!(c.current, vec![10, 20, 30, 30, 5]);
    assert_eq!(c.voltage, vec![100, 200, 300, 400, 500]);
}

#[test]
fn trim_keeps_most_recent_samples() {
    let mut a = window(
        &[1, 2, 3, 4, 5, 6, 7, 8, 9, 10],
        &[1, 2, 3, 4, 5, 6, 7, 8, 9, 10],
        &[1, 2, 3, 4, 5, 6, 7, 8, 9, 10],
    );
    a.sample_period_us = 1_000_000; // one second per sample
    a.trim_to_duration(4_000);
    assert_eq!(a.probe, vec![7, 8, 9, 10]);
    assert_eq!(a.current, vec![7, 8, 9, 10]);
    assert_eq!(a.voltage, vec![7, 8, 9, 10]);
}

#[test]
fn trim_rounds_to_nearest_sample() {
    // 10 ms at 3 ms per sample is 3.33 samples: rounds down to 3.
    let mut a = window(&[1, 2, 3, 4, 5], &[1, 2, 3, 4, 5], &[1, 2, 3, 4, 5]);
    a.sample_period_us = 3_000;
    a.trim_to_duration(10);
    assert_eq!(a.probe, vec![3, 4, 5]);
    // 11 ms at 3 ms per sample is 3.67 samples: rounds up to 4.
    let mut b = window(&[1, 2, 3, 4, 5], &[1, 2, 3, 4, 5], &[1, 2, 3, 4, 5]);
    b.sample_period_us = 3_000;
    b.trim_to_duration(11);
    assert_eq!(b.probe, vec![2, 3, 4, 5]);
}

#[test]
fn trim_caps_at_what_was_collected() {
    let mut a = window(&[1, 2], &[1, 2], &[1, 2]);
    a.sample_period_us = 1_000;
    a.trim_to_duration(1_000_000);
    assert_eq!(a.probe, vec![1, 2]);
}
