//! The scan comparator: turns a baseline snapshot, a current snapshot and an
//! entropy-delta threshold into a classified alert set.  All four rules are
//! evaluated independently; none short-circuits another.

use vstd::prelude::*;
use crate::scan::{ExtStats, ScanResult, ext_keys_unique};
use crate::text::str_is;

verus! {

/// Severity ladder: `Okay < High < Critical`.
#[derive(Clone, Copy, PartialEq, Eq, Structural, Debug)]
pub enum Severity {
    Okay,
    High,
    Critical,
}

/// The position of a severity on the escalation ladder.
pub open spec fn severity_rank(s: Severity) -> int {
    match s {
        Severity::Okay => 0,
        Severity::High => 1,
        Severity::Critical => 2,
    }
}

/// What a comparison alert reports, with the numbers behind it.
pub enum AlertKind {
    /// The mean entropy of the whole tree jumped by more than the threshold.
    EntropySpike { baseline_millibits: u64, current_millibits: u64 },
    /// The share of new very-high-entropy files exceeds a fifth of the
    /// baseline file count.
    MassEncryption { baseline_very_high: usize, current_very_high: usize, baseline_total: usize },
    /// One extension's mean entropy jumped by more than the threshold.
    ExtensionEntropyShift { extension: String, baseline_millibits: u64, current_millibits: u64 },
    /// Clearly more suspicious files than the baseline had.
    NewSuspiciousFiles { baseline_count: usize, current_count: usize },
}

/// One classified alert.
pub struct Alert {
    pub severity: Severity,
    pub kind: AlertKind,
}

/// The outcome of comparing a current snapshot against a baseline.
pub struct CheckResult {
    pub timestamp: String,
    pub baseline_time: String,
    pub severity: Severity,
    pub entropy_delta_millibits: i64,
    pub alerts: Vec<Alert>,
}

/// Extensions whose entropy shifts are never checked: inherently compressed
/// formats drift for harmless reasons.
pub open spec fn skip_shift_ext(e: Seq<char>) -> bool {
    ||| e == ".zip"@
    ||| e == ".gz"@
    ||| e == ".7z"@
    ||| e == ".jpg"@
    ||| e == ".png"@
    ||| e == ".mp4"@
}

fn is_skip_shift_ext(e: &String) -> (r: bool)
    ensures
        r == skip_shift_ext(e@),
{
    str_is(e, ".zip") || str_is(e, ".gz") || str_is(e, ".7z") || str_is(e, ".jpg") || str_is(
        e,
        ".png",
    ) || str_is(e, ".mp4")
}

/// The first entry of the table carrying the extension `e`, if any.
pub open spec fn lookup_ext(t: Seq<(String, ExtStats)>, e: Seq<char>) -> Option<ExtStats>
    decreases t.len(),
{
    if t.len() == 0 {
        None
    } else if t[0].0@ == e {
        Some(t[0].1)
    } else {
        lookup_ext(t.drop_first(), e)
    }
}

fn lookup_ext_exec(t: &Vec<(String, ExtStats)>, e: &String) -> (r: Option<ExtStats>)
    ensures
        r == lookup_ext(t@, e@),
{
    let n = t.len();
    proof {
        assert(t@.skip(0) =~= t@);
    }
    let mut j: usize = 0;
    while j < n
        invariant
            j <= n,
            n == t@.len(),
            lookup_ext(t@, e@) == lookup_ext(t@.skip(j as int), e@),
        decreases n - j,
    {
        proof {
            assert(t@.skip(j as int)[0] == t@[j as int]);
            assert(t@.skip(j as int).drop_first() =~= t@.skip((j + 1) as int));
        }
        if str_is(&t[j].0, e.as_str()) {
            return Some(ExtStats { ..t[j].1 });
        }
        j = j + 1;
    }
    proof {
        assert(t@.skip(n as int) =~= Seq::<(String, ExtStats)>::empty());
    }
    None
}

/// The overall mean entropy rose by more than the threshold.
pub open spec fn entropy_spike_fires(b: ScanResult, c: ScanResult, thr: u64) -> bool {
    c.avg_entropy_millibits - b.avg_entropy_millibits > thr
}

/// The count of very-high-entropy files grew by more than a fifth of the
/// baseline's file count.  An empty baseline never fires.
pub open spec fn mass_encryption_fires(b: ScanResult, c: ScanResult) -> bool {
    &&& b.total_files > 0
    &&& 100 * (c.very_high_count - b.very_high_count) > 20 * b.total_files
}

/// The extension `e`, present in the baseline and not skip-listed, saw its
/// mean entropy rise by more than the threshold.
pub open spec fn ext_shift_fires(b: ScanResult, e: Seq<char>, cur_avg: u64, thr: u64) -> bool {
    &&& !skip_shift_ext(e)
    &&& match lookup_ext(b.by_extension@, e) {
        Some(st) => cur_avg - st.avg_entropy_millibits > thr,
        None => false,
    }
}

/// Some extension of the current snapshot fires the shift rule.
pub open spec fn any_ext_shift_fires(b: ScanResult, c: ScanResult, thr: u64) -> bool {
    exists|i: int|
        0 <= i < c.by_extension@.len() && ext_shift_fires(
            b,
            (#[trigger] c.by_extension@[i]).0@,
            c.by_extension@[i].1.avg_entropy_millibits,
            thr,
        )
}

/// The current snapshot has suspicious files, clearly more than the baseline.
pub open spec fn new_suspicious_fires(b: ScanResult, c: ScanResult) -> bool {
    c.suspicious@.len() > 0 && c.suspicious@.len() > b.suspicious@.len() + 5
}

/// The alerts that the shift rule produces, one per offending extension, in
/// the order of the current snapshot's extension table.
pub open spec fn ext_shift_alerts(b: ScanResult, t: Seq<(String, ExtStats)>, thr: u64) -> Seq<
    Alert,
>
    decreases t.len(),
{
    if t.len() == 0 {
        Seq::empty()
    } else {
        ext_shift_alerts(b, t.drop_last(), thr) + if ext_shift_fires(
            b,
            t.last().0@,
            t.last().1.avg_entropy_millibits,
            thr,
        ) {
            seq![
                Alert {
                    severity: Severity::High,
                    kind: AlertKind::ExtensionEntropyShift {
                        extension: t.last().0,
                        baseline_millibits: lookup_ext(b.by_extension@, t.last().0@)->0
                            .avg_entropy_millibits,
                        current_millibits: t.last().1.avg_entropy_millibits,
                    },
                },
            ]
        } else {
            Seq::empty()
        }
    }
}

/// Every alert a comparison produces, in evaluation order.
pub open spec fn expected_alerts(b: ScanResult, c: ScanResult, thr: u64) -> Seq<Alert> {
    (if entropy_spike_fires(b, c, thr) {
        seq![
            Alert {
                severity: Severity::Critical,
                kind: AlertKind::EntropySpike {
                    baseline_millibits: b.avg_entropy_millibits,
                    current_millibits: c.avg_entropy_millibits,
                },
            },
        ]
    } else {
        Seq::empty()
    }) + (if mass_encryption_fires(b, c) {
        seq![
            Alert {
                severity: Severity::Critical,
                kind: AlertKind::MassEncryption {
                    baseline_very_high: b.very_high_count,
                    current_very_high: c.very_high_count,
                    baseline_total: b.total_files,
                },
            },
        ]
    } else {
        Seq::empty()
    }) + ext_shift_alerts(b, c.by_extension@, thr) + (if new_suspicious_fires(b, c) {
        seq![
            Alert {
                severity: Severity::High,
                kind: AlertKind::NewSuspiciousFiles {
                    baseline_count: b.suspicious@.len() as usize,
                    current_count: c.suspicious@.len() as usize,
                },
            },
        ]
    } else {
        Seq::empty()
    })
}

/// Overall severity: the maximum over the fired rules.
pub open spec fn expected_severity(b: ScanResult, c: ScanResult, thr: u64) -> Severity {
    if entropy_spike_fires(b, c, thr) || mass_encryption_fires(b, c) {
        Severity::Critical
    } else if any_ext_shift_fires(b, c, thr) || new_suspicious_fires(b, c) {
        Severity::High
    } else {
        Severity::Okay
    }
}

/// Compare a current snapshot against a baseline: evaluate the entropy-spike,
/// mass-encryption, per-extension-shift and new-suspicious-files rules, all
/// independently, and classify the outcome.  Neither snapshot is changed.
pub fn compare_scans(baseline: &ScanResult, current: &ScanResult, threshold_millibits: u64) -> (r:
    CheckResult)
    requires
        baseline.wf(),
        current.wf(),
    ensures
        r.timestamp == current.timestamp,
        r.baseline_time == baseline.timestamp,
        r.entropy_delta_millibits == current.avg_entropy_millibits
            - baseline.avg_entropy_millibits,
        r.alerts@ == expected_alerts(*baseline, *current, threshold_millibits),
        r.severity == expected_severity(*baseline, *current, threshold_millibits),
{
    let ghost b = *baseline;
    let ghost c = *current;
    let ghost thr = threshold_millibits;
    let mut alerts: Vec<Alert> = Vec::new();
    // Overall entropy spike.
    let delta: i64 = current.avg_entropy_millibits as i64 - baseline.avg_entropy_millibits as i64;
    let spike: bool = (current.avg_entropy_millibits as i128
        - baseline.avg_entropy_millibits as i128) > threshold_millibits as i128;
    if spike {
        alerts.push(
            Alert {
                severity: Severity::Critical,
                kind: AlertKind::EntropySpike {
                    baseline_millibits: baseline.avg_entropy_millibits,
                    current_millibits: current.avg_entropy_millibits,
                },
            },
        );
    }
    // Mass encryption.
    let mass: bool = baseline.total_files > 0 && 100i128 * (current.very_high_count as i128
        - baseline.very_high_count as i128) > 20i128 * (baseline.total_files as i128);
    proof {
        assert(mass == mass_encryption_fires(b, c));
    }
    if mass {
        alerts.push(
            Alert {
                severity: Severity::Critical,
                kind: AlertKind::MassEncryption {
                    baseline_very_high: baseline.very_high_count,
                    current_very_high: current.very_high_count,
                    baseline_total: baseline.total_files,
                },
            },
        );
    }
    // Per-extension anomalies, in the order of the current table.
    let ghost head = alerts@;
    let ghost tbl = current.by_extension@;
    let n: usize = current.by_extension.len();
    let mut i: usize = 0;
    let mut ext_any: bool = false;
    while i < n
        invariant
            i <= n,
            n == tbl.len(),
            tbl == c.by_extension@,
            b == *baseline,
            c == *current,
            thr == threshold_millibits,
            baseline.wf(),
            alerts@ == head + ext_shift_alerts(b, tbl.take(i as int), thr),
            ext_any == exists|k: int|
                0 <= k < i && ext_shift_fires(
                    b,
                    (#[trigger] tbl[k]).0@,
                    tbl[k].1.avg_entropy_millibits,
                    thr,
                ),
        decreases n - i,
    {
        proof {
            assert(tbl.take((i + 1) as int).drop_last() =~= tbl.take(i as int));
            assert(tbl.take((i + 1) as int).last() == tbl[i as int]);
        }
        let entry = &current.by_extension[i];
        proof {
            assert(*entry == tbl[i as int]);
        }
        let mut fired: bool = false;
        let skip_this: bool = is_skip_shift_ext(&entry.0);
        proof {
            assert(skip_this == skip_shift_ext(tbl[i as int].0@));
        }
        let ghost ge = tbl[i as int].0@;
        let ghost gavg = tbl[i as int].1.avg_entropy_millibits;
        if !skip_this {
            let looked = lookup_ext_exec(&baseline.by_extension, &entry.0);
            proof {
                assert(looked == lookup_ext(b.by_extension@, ge));
            }
            match looked {
                Some(base_stats) => {
                    if (entry.1.avg_entropy_millibits as i128
                        - base_stats.avg_entropy_millibits as i128) > (threshold_millibits
                        as i128) {
                        fired = true;
                        proof {
                            assert(lookup_ext(b.by_extension@, ge) == Some(base_stats));
                            assert(gavg - base_stats.avg_entropy_millibits > thr);
                            assert(ext_shift_fires(b, ge, gavg, thr));
                        }
                        alerts.push(
                            Alert {
                                severity: Severity::High,
                                kind: AlertKind::ExtensionEntropyShift {
                                    extension: entry.0.clone(),
                                    baseline_millibits: base_stats.avg_entropy_millibits,
                                    current_millibits: entry.1.avg_entropy_millibits,
                                },
                            },
                        );
                    } else {
                        proof {
                            assert(!ext_shift_fires(b, ge, gavg, thr));
                        }
                    }
                },
                None => {
                    proof {
                        assert(!ext_shift_fires(b, ge, gavg, thr));
                    }
                },
            }
        } else {
            proof {
                assert(!ext_shift_fires(b, ge, gavg, thr));
            }
        }
        proof {
            assert(fired == ext_shift_fires(b, ge, gavg, thr));
        }
        ext_any = ext_any || fired;
        i = i + 1;
    }
    proof {
        assert(tbl.take(n as int) =~= tbl);
        assert(ext_any == any_ext_shift_fires(b, c, thr));
    }
    // New suspicious files.
    let susp: bool = current.suspicious.len() > 0 && (current.suspicious.len() as u128)
        > (baseline.suspicious.len() as u128) + 5;
    proof {
        assert(susp == new_suspicious_fires(b, c));
    }
    if susp {
        alerts.push(
            Alert {
                severity: Severity::High,
                kind: AlertKind::NewSuspiciousFiles {
                    baseline_count: baseline.suspicious.len(),
                    current_count: current.suspicious.len(),
                },
            },
        );
    }
    let severity: Severity = if spike || mass {
        Severity::Critical
    } else if ext_any || susp {
        Severity::High
    } else {
        Severity::Okay
    };
    CheckResult {
        timestamp: current.timestamp.clone(),
        baseline_time: baseline.timestamp.clone(),
        severity,
        entropy_delta_millibits: delta,
        alerts,
    }
}

proof fn lemma_lookup_unique(t: Seq<(String, ExtStats)>, i: int)
    requires
        ext_keys_unique(t),
        0 <= i < t.len(),
    ensures
        lookup_ext(t, t[i].0@) == Some(t[i].1),
    decreases t.len(),
{
    if i > 0 {
        assert(t[0].0@ != t[i].0@);
        assert(t.drop_first()[i - 1] == t[i]);
        assert(ext_keys_unique(t.drop_first())) by {
            assert forall|a: int, b2: int|
                0 <= a < b2 < t.drop_first().len() implies t.drop_first()[a].0@ != t.drop_first()[
                b2].0@ by {
                assert(t[a + 1].0@ != t[b2 + 1].0@);
            }
        }
        lemma_lookup_unique(t.drop_first(), i - 1);
    }
}

proof fn lemma_ext_shift_alerts_self(s: ScanResult, m: int, thr: u64)
    requires
        ext_keys_unique(s.by_extension@),
        0 <= m <= s.by_extension@.len(),
    ensures
        ext_shift_alerts(s, s.by_extension@.take(m), thr) == Seq::<Alert>::empty(),
        forall|i: int|
            0 <= i < m ==> !ext_shift_fires(
                s,
                (#[trigger] s.by_extension@[i]).0@,
                s.by_extension@[i].1.avg_entropy_millibits,
                thr,
            ),
    decreases m,
{
    let t = s.by_extension@;
    if m > 0 {
        lemma_ext_shift_alerts_self(s, m - 1, thr);
        assert(t.take(m).drop_last() =~= t.take(m - 1));
        assert(t.take(m).last() == t[m - 1]);
        lemma_lookup_unique(t, m - 1);
        assert(!ext_shift_fires(s, t[m - 1].0@, t[m - 1].1.avg_entropy_millibits, thr));
    } else {
        assert(t.take(0) =~= Seq::<(String, ExtStats)>::empty());
    }
}

/// Comparing a snapshot against itself fires no rule: the alert set is
/// empty, the overall severity is `Okay`, and the entropy delta that
/// `compare_scans` reports is zero.
pub proof fn lemma_self_compare(s: ScanResult, thr: u64)
    requires
        s.wf(),
    ensures
        expected_alerts(s, s, thr) == Seq::<Alert>::empty(),
        expected_severity(s, s, thr) == Severity::Okay,
        s.avg_entropy_millibits - s.avg_entropy_millibits == 0,
{
    assert(!entropy_spike_fires(s, s, thr));
    assert(!mass_encryption_fires(s, s));
    assert(!new_suspicious_fires(s, s));
    lemma_ext_shift_alerts_self(s, s.by_extension@.len() as int, thr);
    assert(s.by_extension@.take(s.by_extension@.len() as int) =~= s.by_extension@);
    assert(!any_ext_shift_fires(s, s, thr));
    assert(expected_alerts(s, s, thr) =~= Seq::<Alert>::empty());
}

proof fn lemma_ext_shift_alerts_are_high(b: ScanResult, t: Seq<(String, ExtStats)>, thr: u64)
    ensures
        forall|k: int|
            0 <= k < ext_shift_alerts(b, t, thr).len() ==> (#[trigger] ext_shift_alerts(
                b,
                t,
                thr,
            )[k]).severity == Severity::High,
    decreases t.len(),
{
    if t.len() > 0 {
        lemma_ext_shift_alerts_are_high(b, t.drop_last(), thr);
    }
}

proof fn lemma_ext_fires_gives_alert(b: ScanResult, t: Seq<(String, ExtStats)>, thr: u64, i: int)
    requires
        0 <= i < t.len(),
        ext_shift_fires(b, t[i].0@, t[i].1.avg_entropy_millibits, thr),
    ensures
        ext_shift_alerts(b, t, thr).len() > 0,
    decreases t.len(),
{
    if i < t.len() - 1 {
        assert(t.drop_last()[i] == t[i]);
        lemma_ext_fires_gives_alert(b, t.drop_last(), thr, i);
    }
}

proof fn lemma_ext_alert_gives_fire(b: ScanResult, t: Seq<(String, ExtStats)>, thr: u64)
    requires
        ext_shift_alerts(b, t, thr).len() > 0,
    ensures
        exists|i: int|
            0 <= i < t.len() && ext_shift_fires(
                b,
                (#[trigger] t[i]).0@,
                t[i].1.avg_entropy_millibits,
                thr,
            ),
    decreases t.len(),
{
    if t.len() > 0 {
        if ext_shift_fires(b, t.last().0@, t.last().1.avg_entropy_millibits, thr) {
            assert(t[t.len() - 1] == t.last());
        } else {
            lemma_ext_alert_gives_fire(b, t.drop_last(), thr);
            let i = choose|i: int|
                0 <= i < t.drop_last().len() && ext_shift_fires(
                    b,
                    (#[trigger] t.drop_last()[i]).0@,
                    t.drop_last()[i].1.avg_entropy_millibits,
                    thr,
                );
            assert(t[i] == t.drop_last()[i]);
        }
    }
}

/// The overall severity is the maximum over the alert set: no alert
/// outranks it, some alert attains it whenever any fired, and with no
/// alerts at all the verdict is `Okay`.
pub proof fn lemma_severity_is_max(b: ScanResult, c: ScanResult, thr: u64)
    ensures
        forall|k: int|
            0 <= k < expected_alerts(b, c, thr).len() ==> severity_rank(
                (#[trigger] expected_alerts(b, c, thr)[k]).severity,
            ) <= severity_rank(expected_severity(b, c, thr)),
        expected_alerts(b, c, thr).len() > 0 ==> exists|k: int|
            0 <= k < expected_alerts(b, c, thr).len() && severity_rank(
                (#[trigger] expected_alerts(b, c, thr)[k]).severity,
            ) == severity_rank(expected_severity(b, c, thr)),
        expected_alerts(b, c, thr).len() == 0 ==> expected_severity(b, c, thr)
            == Severity::Okay,
{
    let alerts = expected_alerts(b, c, thr);
    let ext = ext_shift_alerts(b, c.by_extension@, thr);
    let sev = expected_severity(b, c, thr);
    lemma_ext_shift_alerts_are_high(b, c.by_extension@, thr);
    if entropy_spike_fires(b, c, thr) || mass_encryption_fires(b, c) {
        // The verdict is Critical, the top of the ladder, and the first
        // alert of the set carries it.
        assert(sev == Severity::Critical);
        assert(alerts[0].severity == Severity::Critical);
        assert(forall|k: int|
            0 <= k < alerts.len() ==> severity_rank((#[trigger] alerts[k]).severity) <= 2);
    } else {
        // Only High alerts can be present: the shift alerts and the
        // new-suspicious-files alert.
        let tail = (if new_suspicious_fires(b, c) {
            seq![
                Alert {
                    severity: Severity::High,
                    kind: AlertKind::NewSuspiciousFiles {
                        baseline_count: b.suspicious@.len() as usize,
                        current_count: c.suspicious@.len() as usize,
                    },
                },
            ]
        } else {
            Seq::<Alert>::empty()
        });
        assert(alerts =~= ext + tail);
        assert(forall|k: int|
            0 <= k < alerts.len() ==> (#[trigger] alerts[k]).severity == Severity::High);
        if alerts.len() > 0 {
            assert(sev == Severity::High) by {
                if new_suspicious_fires(b, c) {
                } else {
                    assert(ext.len() > 0);
                    lemma_ext_alert_gives_fire(b, c.by_extension@, thr);
                    assert(any_ext_shift_fires(b, c, thr));
                }
            }
            assert(severity_rank(alerts[0].severity) == severity_rank(sev));
        } else {
            assert(ext.len() == 0);
            assert(!new_suspicious_fires(b, c));
            assert(!any_ext_shift_fires(b, c, thr)) by {
                if any_ext_shift_fires(b, c, thr) {
                    let i = choose|i: int|
                        0 <= i < c.by_extension@.len() && ext_shift_fires(
                            b,
                            (#[trigger] c.by_extension@[i]).0@,
                            c.by_extension@[i].1.avg_entropy_millibits,
                            thr,
                        );
                    lemma_ext_fires_gives_alert(b, c.by_extension@, thr, i);
                }
            }
            assert(sev == Severity::Okay);
        }
    }
}

} // verus!
