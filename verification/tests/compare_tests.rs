use exarp::compare::{AlertKind, Severity, compare_scans};
use exarp::scan::{FileScan, ScanResult, aggregate_scan};

fn record(path: &str, entropy_millibits: u64, extension: &str) -> FileScan {
    FileScan {
        path: String::from(path),
        entropy_millibits,
        size: 100,
        extension: String::from(extension),
    }
}

fn snapshot(timestamp: &str, scans: Vec<FileScan>) -> ScanResult {
    aggregate_scan(String::from("/r"), String::from(timestamp), scans)
}

fn bulk(count: usize, entropy_millibits: u64, ext: &str) -> Vec<FileScan> {
    (0..count).map(|i| record(&format!("/r/f{i}{ext}"), entropy_millibits, ext)).collect()
}

#[test]
fn comparing_a_snapshot_with_itself_is_quiet() {
    let scans = vec![
        record("/r/a.txt", 4850, ".txt"),
        record("/r/b.bin", 7950, ".bin"),
        record("/r/c.zip", 7990, ".zip"),
    ];
    let snap = snapshot("2024-01-01T00:00:00Z", scans);
    let result = compare_scans(&snap, &snap, 1500);
    assert_eq!(result.severity, Severity::Okay);
    assert_eq!(result.entropy_delta_millibits, 0);
    assert!(result.alerts.is_empty());
    assert_eq!(result.timestamp, "2024-01-01T00:00:00Z");
    assert_eq!(result.baseline_time, "2024-01-01T00:00:00Z");
}

#[test]
fn mass_encryption_fires_past_a_fifth_of_the_baseline() {
    // Baseline: 1000 files, 5 of them very high.  Current: 1000 files, 210
    // very high.  The delta of 205 is 20.5% of the baseline count.
    let mut base = bulk(995, 3000, ".dat");
    base.extend(bulk(5, 7950, ".dat"));
    let mut cur = bulk(790, 3000, ".dat");
    cur.extend(bulk(210, 7950, ".dat"));
    let baseline = snapshot("t0", base);
    let current = snapshot("t1", cur);
    assert_eq!(baseline.very_high_count, 5);
    assert_eq!(current.very_high_count, 210);
    let result = compare_scans(&baseline, &current, 1500);
    assert!(result.alerts.iter().any(|a| matches!(
        a.kind,
        AlertKind::MassEncryption { baseline_very_high: 5, current_very_high: 210, baseline_total: 1000 }
    )));
    assert_eq!(result.severity, Severity::Critical);
}

#[test]
fn mass_encryption_needs_more_than_a_fifth() {
    // A delta of exactly 20.0% does not fire.
    let mut base = bulk(1000, 3000, ".dat");
    let mut cur = bulk(800, 3000, ".dat");
    cur.extend(bulk(200, 7950, ".dat"));
    base.truncate(1000);
    let baseline = snapshot("t0", base);
    let current = snapshot("t1", cur);
    let result = compare_scans(&baseline, &current, 8000);
    assert!(!result.alerts.iter().any(|a| matches!(a.kind, AlertKind::MassEncryption { .. })));
}

#[test]
fn entropy_spike_fires_past_the_threshold() {
    // Mean entropy 4.85 bits against 6.9 bits: a delta of 2.05 > 1.5.
    let baseline = snapshot("t0", vec![record("/r/a.txt", 4850, ".txt")]);
    let current = snapshot("t1", vec![record("/r/a.txt", 6900, ".txt")]);
    let result = compare_scans(&baseline, &current, 1500);
    assert_eq!(result.entropy_delta_millibits, 2050);
    assert!(result.alerts.iter().any(|a| matches!(
        a.kind,
        AlertKind::EntropySpike { baseline_millibits: 4850, current_millibits: 6900 }
    )));
    assert_eq!(result.severity, Severity::Critical);
}

#[test]
fn entropy_spike_respects_the_threshold() {
    let baseline = snapshot("t0", vec![record("/r/a.txt", 4850, ".txt")]);
    let current = snapshot("t1", vec![record("/r/a.txt", 6300, ".txt")]);
    let result = compare_scans(&baseline, &current, 1500);
    assert!(!result.alerts.iter().any(|a| matches!(a.kind, AlertKind::EntropySpike { .. })));
}

#[test]
fn extension_shift_fires_per_offending_extension() {
    // The ballast in .zip files keeps the overall mean shift small, so only
    // the per-extension rule fires.
    let mut base = vec![record("/r/a.doc", 4000, ".doc")];
    base.extend(bulk(3, 7000, ".zip"));
    let mut cur = vec![record("/r/a.doc", 6000, ".doc")];
    cur.extend(bulk(3, 9000 - 2000, ".zip"));
    let baseline = snapshot("t0", base);
    let current = snapshot("t1", cur);
    let result = compare_scans(&baseline, &current, 1500);
    // The .doc shift is reported; the .zip extension is skip-listed.
    let shifts: Vec<_> = result
        .alerts
        .iter()
        .filter_map(|a| match &a.kind {
            AlertKind::ExtensionEntropyShift { extension, baseline_millibits, current_millibits } => {
                Some((extension.clone(), *baseline_millibits, *current_millibits))
            }
            _ => None,
        })
        .collect();
    assert_eq!(shifts, vec![(String::from(".doc"), 4000, 6000)]);
    assert_eq!(result.severity, Severity::High);
}

#[test]
fn extension_only_in_current_does_not_shift() {
    let baseline = snapshot("t0", vec![record("/r/a.doc", 4000, ".doc")]);
    let current = snapshot("t1", vec![record("/r/b.new", 8000, ".new")]);
    let result = compare_scans(&baseline, &current, 9000);
    assert!(
        !result.alerts.iter().any(|a| matches!(a.kind, AlertKind::ExtensionEntropyShift { .. }))
    );
}

#[test]
fn new_suspicious_files_fire_past_five_more() {
    // Baseline has none; the current snapshot has six suspicious files.
    let baseline = snapshot("t0", bulk(6, 7950, ".zip"));
    let current = snapshot("t1", bulk(6, 7950, ".abc"));
    assert_eq!(baseline.suspicious.len(), 0);
    assert_eq!(current.suspicious.len(), 6);
    let result = compare_scans(&baseline, &current, 1500);
    assert!(result.alerts.iter().any(|a| matches!(
        a.kind,
        AlertKind::NewSuspiciousFiles { baseline_count: 0, current_count: 6 }
    )));
    assert_eq!(result.severity, Severity::High);
}

#[test]
fn five_more_suspicious_files_are_not_enough() {
    let baseline = snapshot("t0", bulk(5, 7950, ".zip"));
    let current = snapshot("t1", bulk(5, 7950, ".abc"));
    let result = compare_scans(&baseline, &current, 9000);
    assert!(!result.alerts.iter().any(|a| matches!(a.kind, AlertKind::NewSuspiciousFiles { .. })));
}
