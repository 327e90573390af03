use exarp::config::AlertConfig;
use exarp::drift::{
    DiffSummary, DriftAlert, DriftReport, PairOutcome, Snapshot, analyze_pair, drift_report,
    pair_count_exec,
};

fn summary() -> DiffSummary {
    DiffSummary {
        files_new: 0,
        files_removed: 0,
        files_changed: 0,
        dirs_new: 0,
        dirs_removed: 0,
        data_added: 0,
        data_removed: 0,
    }
}

fn snap(short_id: &str, time: &str) -> Snapshot {
    Snapshot {
        short_id: String::from(short_id),
        id: None,
        time: String::from(time),
        hostname: String::from("host"),
        paths: vec![String::from("/data")],
        tags: None,
    }
}

#[test]
fn data_loss_fires_past_double() {
    // Removed 25 bytes against 10 added: a ratio of 2.5.
    let d = DiffSummary { data_added: 10, data_removed: 25, ..summary() };
    let alerts = analyze_pair(&d, &AlertConfig::default());
    assert!(alerts.iter().any(|a| matches!(
        a,
        DriftAlert::DataLoss { data_added: 10, data_removed: 25 }
    )));
}

#[test]
fn data_loss_respects_the_ratio() {
    // Removed 19 bytes against 10 added: a ratio of 1.9.
    let d = DiffSummary { data_added: 10, data_removed: 19, ..summary() };
    let alerts = analyze_pair(&d, &AlertConfig::default());
    assert!(alerts.is_empty());
}

#[test]
fn data_loss_guards_an_empty_addition() {
    let d = DiffSummary { data_added: 0, data_removed: 3, ..summary() };
    let alerts = analyze_pair(&d, &AlertConfig::default());
    assert!(alerts.iter().any(|a| matches!(a, DriftAlert::DataLoss { .. })));
    let d = DiffSummary { data_added: 0, data_removed: 2, ..summary() };
    let alerts = analyze_pair(&d, &AlertConfig::default());
    assert!(alerts.is_empty());
}

#[test]
fn high_drift_fires_on_many_changes() {
    // 900 changes estimate to 90%, over the default 20% threshold.
    let d = DiffSummary { files_new: 500, files_changed: 400, ..summary() };
    let alerts = analyze_pair(&d, &AlertConfig::default());
    assert!(alerts.iter().any(|a| matches!(a, DriftAlert::HighDrift { total_changes: 900 })));
}

#[test]
fn few_changes_are_not_high_drift() {
    // 20 changes estimate to about 16.7%, under the default 20% threshold.
    let d = DiffSummary { files_new: 10, files_changed: 10, ..summary() };
    let alerts = analyze_pair(&d, &AlertConfig::default());
    assert!(alerts.is_empty());
}

#[test]
fn removals_alone_are_not_high_drift() {
    // The estimator needs new or changed files; pure removal scores zero.
    let d = DiffSummary { files_removed: 100_000, ..summary() };
    let alerts = analyze_pair(&d, &AlertConfig::default());
    assert!(!alerts.iter().any(|a| matches!(a, DriftAlert::HighDrift { .. })));
}

#[test]
fn fewer_than_two_snapshots_is_insufficient_data() {
    let cfg = AlertConfig::default();
    let r = drift_report(&Vec::new(), &Vec::new(), &cfg, 0);
    assert!(matches!(r, DriftReport::InsufficientData));
    let r = drift_report(&vec![snap("a1", "2024-01-01T00:00:00Z")], &Vec::new(), &cfg, 0);
    assert!(matches!(r, DriftReport::InsufficientData));
}

#[test]
fn pair_window_keeps_the_last_five() {
    assert_eq!(pair_count_exec(0), 0);
    assert_eq!(pair_count_exec(1), 0);
    assert_eq!(pair_count_exec(2), 1);
    assert_eq!(pair_count_exec(6), 5);
    assert_eq!(pair_count_exec(7), 5);
    assert_eq!(pair_count_exec(100), 5);
}

#[test]
fn report_walks_the_recent_pairs_in_order() {
    let snaps: Vec<Snapshot> =
        (0..8).map(|i| snap(&format!("s{i}"), "2020-01-01T00:00:00Z")).collect();
    let diffs: Vec<Result<DiffSummary, String>> = vec![
        Ok(summary()),
        Ok(DiffSummary { data_added: 10, data_removed: 25, ..summary() }),
        Err(String::from("diff failed")),
        Ok(summary()),
        Ok(summary()),
    ];
    let cfg = AlertConfig::default();
    // 2020-01-01T00:00:00Z is 1577836800; pretend one hundred hours passed.
    let now = 1_577_836_800 + 100 * 3600;
    let r = drift_report(&snaps, &diffs, &cfg, now);
    match r {
        DriftReport::Analyzed { pairs, freshness } => {
            assert_eq!(pairs.len(), 5);
            assert_eq!(pairs[0].from, "s2");
            assert_eq!(pairs[0].to, "s3");
            assert_eq!(pairs[4].from, "s6");
            assert_eq!(pairs[4].to, "s7");
            match &pairs[1].outcome {
                PairOutcome::Diffed { summary, alerts } => {
                    assert_eq!(summary.data_removed, 25);
                    assert!(alerts.iter().any(|a| matches!(a, DriftAlert::DataLoss { .. })));
                }
                PairOutcome::Failed { .. } => panic!("expected a diffed pair"),
            }
            match &pairs[2].outcome {
                PairOutcome::Failed { error } => assert_eq!(error, "diff failed"),
                PairOutcome::Diffed { .. } => panic!("expected a failed pair"),
            }
            let fs = freshness.expect("the timestamp parses");
            assert_eq!(fs.hours_since_last, 100);
            assert_eq!(fs.threshold_hours, 48);
            assert!(fs.stale);
        }
        DriftReport::InsufficientData => panic!("expected an analysis"),
    }
}

#[test]
fn a_recent_backup_is_not_stale() {
    let snaps = vec![snap("a1", "2020-01-01T00:00:00Z"), snap("b2", "2020-01-02T00:00:00Z")];
    let diffs: Vec<Result<DiffSummary, String>> = vec![Ok(summary())];
    let cfg = AlertConfig::default();
    // Twelve hours after the latest snapshot.
    let now = 1_577_923_200 + 12 * 3600;
    match drift_report(&snaps, &diffs, &cfg, now) {
        DriftReport::Analyzed { freshness, .. } => {
            let fs = freshness.expect("the timestamp parses");
            assert_eq!(fs.hours_since_last, 12);
            assert!(!fs.stale);
        }
        DriftReport::InsufficientData => panic!("expected an analysis"),
    }
}

#[test]
fn an_unreadable_timestamp_skips_the_freshness_check() {
    let snaps = vec![snap("a1", "2020-01-01T00:00:00Z"), snap("b2", "not a timestamp")];
    let diffs: Vec<Result<DiffSummary, String>> = vec![Ok(summary())];
    match drift_report(&snaps, &diffs, &AlertConfig::default(), 0) {
        DriftReport::Analyzed { freshness, .. } => assert!(freshness.is_none()),
        DriftReport::InsufficientData => panic!("expected an analysis"),
    }
}
