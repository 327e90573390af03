//! Operator-configured settings: how the backup tool is reached and the
//! thresholds that the drift heuristics compare against.
//!
//! Percentages are carried in milli-percent (one percent equals 1000), so the
//! comparison rules stay exact integer arithmetic.

use vstd::prelude::*;

verus! {

/// How to reach the external backup tool.
pub struct ResticConfig {
    /// Path to the backup tool binary (`None`: found on the search path).
    pub binary: Option<String>,
    /// Repository URL.
    pub repository: Option<String>,
    /// Path to a password file.
    pub password_file: Option<String>,
    /// Expected backup interval in hours.
    pub expected_interval_hours: Option<u64>,
}

/// Thresholds for the snapshot-drift heuristics.
pub struct AlertConfig {
    /// Milli-percent of files changed between snapshots that flags high drift.
    pub drift_file_change_pct_milli: u64,
    /// Milli-percent of size decrease that flags a deletion attack.
    pub drift_size_decrease_pct_milli: u64,
    /// Hours without a backup before a missed-backup alert.
    pub missed_backup_hours: u64,
}

/// The whole configuration handed to the engine at call time.
pub struct ExarpConfig {
    pub restic: ResticConfig,
    pub alerts: AlertConfig,
}

impl AlertConfig {
    /// A percentage threshold never exceeds one hundred percent.
    pub open spec fn wf(&self) -> bool {
        &&& self.drift_file_change_pct_milli <= 100_000
        &&& self.drift_size_decrease_pct_milli <= 100_000
    }
}

impl Default for ResticConfig {
    fn default() -> (r: Self)
        ensures
            r.binary is None,
            r.repository is None,
            r.password_file is None,
            r.expected_interval_hours is None,
    {
        ResticConfig { binary: None, repository: None, password_file: None, expected_interval_hours: None }
    }
}

impl Default for AlertConfig {
    fn default() -> (r: Self)
        ensures
            r.drift_file_change_pct_milli == 20_000,
            r.drift_size_decrease_pct_milli == 10_000,
            r.missed_backup_hours == 48,
            r.wf(),
    {
        AlertConfig {
            drift_file_change_pct_milli: 20_000,
            drift_size_decrease_pct_milli: 10_000,
            missed_backup_hours: 48,
        }
    }
}

impl Default for ExarpConfig {
    fn default() -> (r: Self)
        ensures
            r.restic.binary is None,
            r.restic.repository is None,
            r.restic.password_file is None,
            r.restic.expected_interval_hours is None,
            r.alerts.drift_file_change_pct_milli == 20_000,
            r.alerts.drift_size_decrease_pct_milli == 10_000,
            r.alerts.missed_backup_hours == 48,
    {
        ExarpConfig { restic: Default::default(), alerts: Default::default() }
    }
}

} // verus!
