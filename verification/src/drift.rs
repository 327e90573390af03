//! The snapshot drift analyzer: given the repository's snapshot list, in time
//! order, and one diff summary per analyzed consecutive pair, apply the
//! drift threshold rules and the backup-freshness check.

use vstd::prelude::*;
use crate::config::AlertConfig;

verus! {

/// One repository snapshot, as the external backup tool reports it.
pub struct Snapshot {
    pub short_id: String,
    pub id: Option<String>,
    pub time: String,
    pub hostname: String,
    pub paths: Vec<String>,
    pub tags: Option<Vec<String>>,
}

/// Repository-wide statistics, as the external backup tool reports them.
pub struct RepoStats {
    pub total_size: u64,
    pub total_file_count: u64,
    pub snapshots_count: Option<u64>,
}

/// One path in a snapshot diff.
pub struct DiffEntry {
    pub path: String,
    pub size: Option<u64>,
}

/// A raw snapshot diff: the changed paths by kind.
pub struct DiffStat {
    pub source_snapshot: Option<String>,
    pub target_snapshot: Option<String>,
    pub added: Option<Vec<DiffEntry>>,
    pub removed: Option<Vec<DiffEntry>>,
    pub changed: Option<Vec<DiffEntry>>,
}

/// The counters of one snapshot diff.  All non-negative; absent collaborator
/// fields default to zero.
#[derive(Clone, Copy, PartialEq, Eq, Structural, Debug)]
pub struct DiffSummary {
    pub files_new: u64,
    pub files_removed: u64,
    pub files_changed: u64,
    pub dirs_new: u64,
    pub dirs_removed: u64,
    pub data_added: u64,
    pub data_removed: u64,
}

/// One repository-level drift alert, with the numbers behind it.
pub enum DriftAlert {
    /// The estimated share of changed files exceeds the configured
    /// drift threshold.
    HighDrift { total_changes: u128 },
    /// Clearly more data was removed than added.
    DataLoss { data_added: u64, data_removed: u64 },
}

/// How many files changed between the two snapshots, in any way.
pub open spec fn total_changes(d: DiffSummary) -> int {
    d.files_new + d.files_removed + d.files_changed
}

/// The high-drift rule.  The estimated change percentage is the saturating
/// `t / (t + 100) * 100`; it fires when that estimate exceeds the threshold,
/// compared exactly: `100_000 * t > thr_milli_pct * (t + 100)`.  With no new
/// or changed files the estimate is zero and the rule never fires.
pub open spec fn high_drift_fires(d: DiffSummary, thr_milli_pct: u64) -> bool {
    &&& d.files_new + d.files_changed > 0
    &&& 100_000 * total_changes(d) > thr_milli_pct * (total_changes(d) + 100)
}

/// The data-loss rule: more data removed than added, and more than double,
/// with the divisor guarded at one byte.
pub open spec fn data_loss_fires(d: DiffSummary) -> bool {
    &&& d.data_removed > d.data_added
    &&& d.data_removed > 2 * (if d.data_added >= 1 {
        d.data_added as int
    } else {
        1
    })
}

/// The alerts one analyzed pair produces, in evaluation order.
pub open spec fn expected_pair_alerts(d: DiffSummary, cfg: AlertConfig) -> Seq<DriftAlert> {
    (if high_drift_fires(d, cfg.drift_file_change_pct_milli) {
        seq![DriftAlert::HighDrift { total_changes: (total_changes(d)) as u128 }]
    } else {
        Seq::empty()
    }) + (if data_loss_fires(d) {
        seq![DriftAlert::DataLoss { data_added: d.data_added, data_removed: d.data_removed }]
    } else {
        Seq::empty()
    })
}

/// Evaluate the drift rules on one consecutive-pair diff.
pub fn analyze_pair(d: &DiffSummary, cfg: &AlertConfig) -> (r: Vec<DriftAlert>)
    requires
        cfg.wf(),
    ensures
        r@ == expected_pair_alerts(*d, *cfg),
{
    let mut r: Vec<DriftAlert> = Vec::new();
    let t: u128 = d.files_new as u128 + d.files_removed as u128 + d.files_changed as u128;
    proof {
        assert(100_000 * (t as int) < 0x100000000000000000000000000000000int) by (nonlinear_arith)
            requires
                (t as int) < 0x30000000000000000int,
        ;
        assert((cfg.drift_file_change_pct_milli as int) * ((t as int) + 100)
            < 0x100000000000000000000000000000000int) by (nonlinear_arith)
            requires
                cfg.drift_file_change_pct_milli <= 100_000,
                0 <= (t as int) < 0x30000000000000000int,
        ;
    }
    let high: bool = (d.files_new as u128 + d.files_changed as u128) > 0 && 100_000u128 * t
        > (cfg.drift_file_change_pct_milli as u128) * (t + 100);
    if high {
        r.push(DriftAlert::HighDrift { total_changes: t });
    }
    let guard: u128 = if d.data_added >= 1 {
        d.data_added as u128
    } else {
        1
    };
    let loss: bool = d.data_removed > d.data_added && (d.data_removed as u128) > 2 * guard;
    if loss {
        r.push(
            DriftAlert::DataLoss { data_added: d.data_added, data_removed: d.data_removed },
        );
    }
    proof {
        assert(high == high_drift_fires(*d, cfg.drift_file_change_pct_milli));
        assert(loss == data_loss_fires(*d));
        assert(r@ =~= expected_pair_alerts(*d, *cfg));
    }
    r
}

/// Whole hours elapsed from `then_epoch` to `now_epoch`, clamped at zero:
/// a timestamp in the future counts as fresh.
pub open spec fn hours_since(now_epoch: i64, then_epoch: i64) -> int {
    if now_epoch >= then_epoch {
        (now_epoch - then_epoch) / 3600
    } else {
        0
    }
}

/// The missed-backup rule: the most recent snapshot is older than the
/// configured number of hours.
pub open spec fn missed_backup_fires(now_epoch: i64, then_epoch: i64, threshold_hours: u64) -> bool {
    hours_since(now_epoch, then_epoch) > threshold_hours
}

/// What chrono's RFC 3339 parser accepts, reduced to Unix seconds: a
/// function of the characters alone.
pub uninterp spec fn rfc3339_epoch_of(s: Seq<char>) -> Option<i64>;

/// Relies on chrono::DateTime::parse_from_rfc3339 and DateTime::timestamp:
/// parsing reads only the input string, and the timestamp is the parsed
/// instant in Unix seconds, the same on every machine.
#[verifier::external_body]
fn parse_rfc3339_epoch(s: &str) -> (r: Option<i64>)
    ensures
        r == rfc3339_epoch_of(s@),
{
    match chrono::DateTime::parse_from_rfc3339(s) {
        Ok(dt) => Some(dt.timestamp()),
        Err(_) => None,
    }
}

/// The freshness verdict on the most recent snapshot.
pub struct FreshnessStatus {
    pub hours_since_last: u64,
    pub threshold_hours: u64,
    pub stale: bool,
}

/// The verdict on one analyzed consecutive pair.
pub enum PairOutcome {
    /// The collaborator produced a diff; the drift rules were applied.
    Diffed { summary: DiffSummary, alerts: Vec<DriftAlert> },
    /// The collaborator failed for this pair; the rest of the analysis
    /// is unaffected.
    Failed { error: String },
}

/// One analyzed consecutive pair, identified by its two snapshot ids.
pub struct PairDrift {
    pub from: String,
    pub to: String,
    pub outcome: PairOutcome,
}

/// The drift analyzer's result.
pub enum DriftReport {
    /// Fewer than two snapshots: nothing to compare, no alerts.
    InsufficientData,
    /// The per-pair verdicts, oldest analyzed pair first, and the freshness
    /// check on the most recent snapshot, if its timestamp parsed.
    Analyzed { pairs: Vec<PairDrift>, freshness: Option<FreshnessStatus> },
}

/// How many consecutive pairs are analyzed for `n` snapshots: none below
/// two snapshots, otherwise the most recent pairs, at most five.
pub open spec fn pair_count(n: nat) -> nat {
    if n < 2 {
        0
    } else if n - 1 > 5 {
        5
    } else {
        (n - 1) as nat
    }
}

/// The index of the first analyzed pair: pair `i` joins snapshots `i` and
/// `i + 1`.
pub open spec fn first_pair(n: nat) -> nat {
    (n - 1 - pair_count(n)) as nat
}

/// How many consecutive pairs the analyzer will ask a diff for.
pub fn pair_count_exec(n: usize) -> (r: usize)
    ensures
        r as nat == pair_count(n as nat),
{
    if n < 2 {
        0
    } else if n - 1 > 5 {
        5
    } else {
        n - 1
    }
}

/// Analyze snapshot drift: with fewer than two snapshots the result is
/// `InsufficientData` and carries no alerts; otherwise the last (at most
/// five) consecutive pairs are judged by the drift rules, a failed diff is
/// recorded for its pair alone, and the most recent snapshot's age is
/// checked against the missed-backup threshold.
pub fn drift_report(
    snaps: &Vec<Snapshot>,
    diffs: &Vec<Result<DiffSummary, String>>,
    cfg: &AlertConfig,
    now_epoch: i64,
) -> (r: DriftReport)
    requires
        cfg.wf(),
        diffs@.len() == pair_count(snaps@.len()),
    ensures
        snaps@.len() < 2 <==> r is InsufficientData,
        snaps@.len() >= 2 ==> {
            let start = first_pair(snaps@.len()) as int;
            &&& r matches DriftReport::Analyzed { pairs, freshness } && {
                &&& pairs@.len() == diffs@.len()
                &&& forall|i: int|
                    0 <= i < diffs@.len() ==> {
                        let p = #[trigger] pairs@[i];
                        &&& p.from == snaps@[start + i].short_id
                        &&& p.to == snaps@[start + i + 1].short_id
                        &&& (diffs@[i] matches Ok(d) ==> p.outcome matches PairOutcome::Diffed {
                            summary,
                            alerts,
                        } && summary == d && alerts@ == expected_pair_alerts(d, *cfg))
                        &&& (diffs@[i] matches Err(e) ==> p.outcome matches PairOutcome::Failed {
                            error,
                        } && error == e)
                    }
                &&& match rfc3339_epoch_of(snaps@.last().time@) {
                    Some(ep) => freshness matches Some(fs) && fs.hours_since_last as int
                        == hours_since(now_epoch, ep) && fs.threshold_hours
                        == cfg.missed_backup_hours && fs.stale == missed_backup_fires(
                        now_epoch,
                        ep,
                        cfg.missed_backup_hours,
                    ),
                    None => freshness is None,
                }
            }
        },
{
    let n: usize = snaps.len();
    if n < 2 {
        return DriftReport::InsufficientData;
    }
    let pc: usize = diffs.len();
    let start: usize = n - 1 - pc;
    let mut pairs: Vec<PairDrift> = Vec::new();
    let mut i: usize = 0;
    while i < pc
        invariant
            i <= pc,
            n == snaps@.len(),
            pc == diffs@.len(),
            pc as nat == pair_count(n as nat),
            n >= 2,
            start == n - 1 - pc,
            start as nat == first_pair(n as nat),
            cfg.wf(),
            pairs@.len() == i,
            forall|k: int|
                0 <= k < i ==> {
                    let p = #[trigger] pairs@[k];
                    &&& p.from == snaps@[start + k].short_id
                    &&& p.to == snaps@[start + k + 1].short_id
                    &&& (diffs@[k] matches Ok(d) ==> p.outcome matches PairOutcome::Diffed {
                        summary,
                        alerts,
                    } && summary == d && alerts@ == expected_pair_alerts(d, *cfg))
                    &&& (diffs@[k] matches Err(e) ==> p.outcome matches PairOutcome::Failed {
                        error,
                    } && error == e)
                },
        decreases pc - i,
    {
        let from = snaps[start + i].short_id.clone();
        let to = snaps[start + i + 1].short_id.clone();
        let outcome = match &diffs[i] {
            Ok(d) => {
                let summary: DiffSummary = *d;
                let alerts = analyze_pair(&summary, cfg);
                PairOutcome::Diffed { summary, alerts }
            },
            Err(e) => PairOutcome::Failed { error: e.clone() },
        };
        pairs.push(PairDrift { from, to, outcome });
        i = i + 1;
    }
    // Freshness of the most recent snapshot.
    let freshness: Option<FreshnessStatus> = match parse_rfc3339_epoch(
        snaps[n - 1].time.as_str(),
    ) {
        Some(ep) => {
            let diff: i128 = now_epoch as i128 - ep as i128;
            let hours: u64 = if diff >= 0 {
                ((diff as u128) / 3600) as u64
            } else {
                0
            };
            proof {
                assert(hours as int == hours_since(now_epoch, ep));
            }
            Some(
                FreshnessStatus {
                    hours_since_last: hours,
                    threshold_hours: cfg.missed_backup_hours,
                    stale: hours > cfg.missed_backup_hours,
                },
            )
        },
        None => None,
    };
    DriftReport::Analyzed { pairs, freshness }
}

} // verus!
