//! Scan snapshots: the per-file records produced by sampling a file tree and
//! their aggregation into one immutable point-in-time summary.

use vstd::prelude::*;
use vstd::arithmetic::div_mod::*;
use crate::text::str_is;

verus! {

/// Entropy above this many milli-bits counts as "high".
pub const HIGH_ENTROPY_MILLIBITS: u64 = 7500;

/// Entropy above this many milli-bits counts as "very high".
pub const VERY_HIGH_ENTROPY_MILLIBITS: u64 = 7900;

/// One sampled file: path, entropy in milli-bits per byte, size in bytes,
/// and the lowercased extension including its leading dot (or empty).
#[derive(Clone, Debug)]
pub struct FileScan {
    pub path: String,
    pub entropy_millibits: u64,
    pub size: u64,
    pub extension: String,
}

impl FileScan {
    /// Entropy is a number of milli-bits per byte, at most eight bits.
    pub open spec fn wf(&self) -> bool {
        self.entropy_millibits <= 8000
    }
}

/// Per-extension aggregate: how many files carry the extension and their
/// mean entropy.
#[derive(Clone, Copy, PartialEq, Eq, Structural, Debug)]
pub struct ExtStats {
    pub count: usize,
    pub avg_entropy_millibits: u64,
}

/// One point-in-time aggregate summary of a directory's file entropy
/// statistics.  Created once per scan invocation, immutable thereafter.
pub struct ScanResult {
    pub path: String,
    pub timestamp: String,
    pub total_files: usize,
    pub avg_entropy_millibits: u64,
    pub high_entropy_count: usize,
    pub very_high_count: usize,
    pub by_extension: Vec<(String, ExtStats)>,
    pub suspicious: Vec<FileScan>,
}

/// Sum of the entropies of all records.
pub open spec fn sum_entropy(s: Seq<FileScan>) -> nat
    decreases s.len(),
{
    if s.len() == 0 {
        0
    } else {
        sum_entropy(s.drop_last()) + s.last().entropy_millibits as nat
    }
}

/// How many records have entropy strictly above `thr` milli-bits.
pub open spec fn count_above(s: Seq<FileScan>, thr: u64) -> nat
    decreases s.len(),
{
    if s.len() == 0 {
        0
    } else {
        count_above(s.drop_last(), thr) + if s.last().entropy_millibits > thr {
            1nat
        } else {
            0nat
        }
    }
}

/// How many records carry the extension `e`.
pub open spec fn ext_count(s: Seq<FileScan>, e: Seq<char>) -> nat
    decreases s.len(),
{
    if s.len() == 0 {
        0
    } else {
        ext_count(s.drop_last(), e) + if s.last().extension@ == e {
            1nat
        } else {
            0nat
        }
    }
}

/// Sum of the entropies of the records carrying the extension `e`.
pub open spec fn ext_entropy_sum(s: Seq<FileScan>, e: Seq<char>) -> nat
    decreases s.len(),
{
    if s.len() == 0 {
        0
    } else {
        ext_entropy_sum(s.drop_last(), e) + if s.last().extension@ == e {
            s.last().entropy_millibits as nat
        } else {
            0nat
        }
    }
}

/// Extensions of formats that are compressed by design: archives, video,
/// audio, images and packages.  All inherently high-entropy, so they are
/// excluded from ransomware suspicion.
pub open spec fn compressed_ext(e: Seq<char>) -> bool {
    ||| e == ".zip"@
    ||| e == ".gz"@
    ||| e == ".bz2"@
    ||| e == ".xz"@
    ||| e == ".7z"@
    ||| e == ".rar"@
    ||| e == ".zst"@
    ||| e == ".mp4"@
    ||| e == ".mkv"@
    ||| e == ".avi"@
    ||| e == ".mov"@
    ||| e == ".webm"@
    ||| e == ".mp3"@
    ||| e == ".ogg"@
    ||| e == ".flac"@
    ||| e == ".aac"@
    ||| e == ".opus"@
    ||| e == ".jpg"@
    ||| e == ".jpeg"@
    ||| e == ".png"@
    ||| e == ".webp"@
    ||| e == ".gif"@
    ||| e == ".jar"@
    ||| e == ".whl"@
    ||| e == ".deb"@
    ||| e == ".rpm"@
}

/// Whether the extension names a known-compressible format.
pub fn is_compressed_ext(e: &String) -> (r: bool)
    ensures
        r == compressed_ext(e@),
{
    str_is(e, ".zip") || str_is(e, ".gz") || str_is(e, ".bz2") || str_is(e, ".xz") || str_is(
        e,
        ".7z",
    ) || str_is(e, ".rar") || str_is(e, ".zst") || str_is(e, ".mp4") || str_is(e, ".mkv")
        || str_is(e, ".avi") || str_is(e, ".mov") || str_is(e, ".webm") || str_is(e, ".mp3")
        || str_is(e, ".ogg") || str_is(e, ".flac") || str_is(e, ".aac") || str_is(e, ".opus")
        || str_is(e, ".jpg") || str_is(e, ".jpeg") || str_is(e, ".png") || str_is(e, ".webp")
        || str_is(e, ".gif") || str_is(e, ".jar") || str_is(e, ".whl") || str_is(e, ".deb")
        || str_is(e, ".rpm")
}

/// A record is suspicious when its entropy is very high and its extension is
/// not a known-compressible format.
pub open spec fn is_suspicious(f: FileScan) -> bool {
    f.entropy_millibits > 7900 && !compressed_ext(f.extension@)
}

/// The suspicious records of `s`, in scan order.
pub open spec fn suspicious_of(s: Seq<FileScan>) -> Seq<FileScan>
    decreases s.len(),
{
    if s.len() == 0 {
        Seq::empty()
    } else {
        suspicious_of(s.drop_last()) + if is_suspicious(s.last()) {
            seq![s.last()]
        } else {
            Seq::empty()
        }
    }
}

/// Sum of the per-extension counts of a snapshot's extension table.
pub open spec fn ext_counts_sum(t: Seq<(String, ExtStats)>) -> nat
    decreases t.len(),
{
    if t.len() == 0 {
        0
    } else {
        ext_counts_sum(t.drop_last()) + t.last().1.count as nat
    }
}

/// No extension occurs twice in the table.
pub open spec fn ext_keys_unique(t: Seq<(String, ExtStats)>) -> bool {
    forall|i: int, j: int| 0 <= i < j < t.len() ==> t[i].0@ != t[j].0@
}

impl ScanResult {
    /// Invariants of every snapshot the scanner produces: entropy means are
    /// within scale, very-high implies high, and the per-extension counts
    /// partition the scanned files.
    pub open spec fn wf(&self) -> bool {
        &&& self.avg_entropy_millibits <= 8000
        &&& self.very_high_count <= self.high_entropy_count
        &&& self.high_entropy_count <= self.total_files
        &&& ext_counts_sum(self.by_extension@) == self.total_files
        &&& ext_keys_unique(self.by_extension@)
        &&& forall|i: int|
            0 <= i < self.by_extension@.len()
                ==> (#[trigger] self.by_extension@[i]).1.avg_entropy_millibits <= 8000
    }
}

/// Running per-extension accumulator used while a scan is aggregated.
struct ExtAcc {
    key: String,
    count: usize,
    sum_millibits: u128,
}

spec fn accs_sum(t: Seq<ExtAcc>) -> nat
    decreases t.len(),
{
    if t.len() == 0 {
        0
    } else {
        accs_sum(t.drop_last()) + t.last().count as nat
    }
}

spec fn accs_wf(t: Seq<ExtAcc>, s: Seq<FileScan>) -> bool {
    &&& forall|j: int|
        0 <= j < t.len() ==> (#[trigger] t[j]).count as nat == ext_count(s, t[j].key@)
    &&& forall|j: int|
        0 <= j < t.len() ==> (#[trigger] t[j]).sum_millibits as nat == ext_entropy_sum(
            s,
            t[j].key@,
        )
    &&& forall|j: int| 0 <= j < t.len() ==> ext_count(s, (#[trigger] t[j]).key@) > 0
    &&& forall|j: int|
        0 <= j < t.len() ==> (#[trigger] t[j]).sum_millibits as nat <= (t[j].count as nat)
            * 8000
    &&& forall|i: int, j: int| 0 <= i < j < t.len() ==> t[i].key@ != t[j].key@
    &&& forall|k: int|
        0 <= k < s.len() ==> exists|j: int|
            0 <= j < t.len() && t[j].key@ == (#[trigger] s[k]).extension@
}

proof fn lemma_accs_sum_update(t: Seq<ExtAcc>, j: int, x: ExtAcc)
    requires
        0 <= j < t.len(),
        x.count as nat == t[j].count as nat + 1,
    ensures
        accs_sum(t.update(j, x)) == accs_sum(t) + 1,
    decreases t.len(),
{
    let tu = t.update(j, x);
    if j == t.len() - 1 {
        assert(tu.drop_last() =~= t.drop_last());
        assert(tu.last() == x);
    } else {
        assert(tu.drop_last() =~= t.drop_last().update(j, x));
        assert(tu.last() == t.last());
        lemma_accs_sum_update(t.drop_last(), j, x);
    }
}

proof fn lemma_ext_count_le_len(s: Seq<FileScan>, e: Seq<char>)
    ensures
        ext_count(s, e) <= s.len(),
    decreases s.len(),
{
    if s.len() > 0 {
        lemma_ext_count_le_len(s.drop_last(), e);
    }
}

proof fn lemma_ext_sum_zero(s: Seq<FileScan>, e: Seq<char>)
    requires
        ext_count(s, e) == 0,
    ensures
        ext_entropy_sum(s, e) == 0,
    decreases s.len(),
{
    if s.len() > 0 {
        lemma_ext_sum_zero(s.drop_last(), e);
    }
}

proof fn lemma_ext_count_pos(s: Seq<FileScan>, e: Seq<char>)
    requires
        ext_count(s, e) > 0,
    ensures
        exists|k: int| 0 <= k < s.len() && (#[trigger] s[k]).extension@ == e,
    decreases s.len(),
{
    if s.len() > 0 {
        if s.last().extension@ == e {
            assert(s[s.len() - 1].extension@ == e);
        } else {
            lemma_ext_count_pos(s.drop_last(), e);
            let k = choose|k: int|
                0 <= k < s.drop_last().len() && (#[trigger] s.drop_last()[k]).extension@ == e;
            assert(s[k].extension@ == e);
        }
    }
}

/// Aggregate the per-file records of one scan pass into a snapshot: total
/// count, mean entropy, high and very-high counts, per-extension statistics
/// and the suspicious list.  Counts and means are invariant to the order of
/// the records; the suspicious list keeps scan order.
pub fn aggregate_scan(path: String, timestamp: String, scans: Vec<FileScan>) -> (r: ScanResult)
    requires
        forall|i: int| 0 <= i < scans@.len() ==> (#[trigger] scans@[i]).wf(),
    ensures
        r.path == path,
        r.timestamp == timestamp,
        r.total_files == scans@.len(),
        r.avg_entropy_millibits as nat == if scans@.len() == 0 {
            0nat
        } else {
            sum_entropy(scans@) / scans@.len()
        },
        r.high_entropy_count as nat == count_above(scans@, 7500),
        r.very_high_count as nat == count_above(scans@, 7900),
        r.suspicious@ == suspicious_of(scans@),
        forall|j: int|
            0 <= j < r.by_extension@.len() ==> (#[trigger] r.by_extension@[j]).1.count as nat
                == ext_count(scans@, r.by_extension@[j].0@),
        forall|j: int|
            0 <= j < r.by_extension@.len() ==> ext_count(
                scans@,
                (#[trigger] r.by_extension@[j]).0@,
            ) > 0,
        forall|j: int|
            0 <= j < r.by_extension@.len() ==> (
            #[trigger] r.by_extension@[j]).1.avg_entropy_millibits as nat == ext_entropy_sum(
                scans@,
                r.by_extension@[j].0@,
            ) / ext_count(scans@, r.by_extension@[j].0@),
        forall|k: int|
            0 <= k < scans@.len() ==> exists|j: int|
                0 <= j < r.by_extension@.len() && r.by_extension@[j].0@ == (
                #[trigger] scans@[k]).extension@,
        r.wf(),
{
    let n: usize = scans.len();
    let mut sum: u128 = 0;
    let mut high: usize = 0;
    let mut vh: usize = 0;
    let mut accs: Vec<ExtAcc> = Vec::new();
    let mut susp: Vec<FileScan> = Vec::new();
    let mut i: usize = 0;
    while i < n
        invariant
            i <= n,
            n == scans@.len(),
            forall|k: int| 0 <= k < scans@.len() ==> (#[trigger] scans@[k]).wf(),
            sum as nat == sum_entropy(scans@.take(i as int)),
            sum as nat <= (i as nat) * 8000,
            high as nat == count_above(scans@.take(i as int), 7500),
            vh as nat == count_above(scans@.take(i as int), 7900),
            vh <= high,
            high <= i,
            susp@ == suspicious_of(scans@.take(i as int)),
            accs_sum(accs@) == i as nat,
            accs_wf(accs@, scans@.take(i as int)),
        decreases n - i,
    {
        proof {
            assert(scans@.take((i + 1) as int).drop_last() =~= scans@.take(i as int));
            assert(scans@.take((i + 1) as int).last() == scans@[i as int]);
            assert(scans@[i as int].wf());
        }
        let ghost prev = scans@.take(i as int);
        let ghost cur = scans@.take((i + 1) as int);
        let f = &scans[i];
        sum = sum + f.entropy_millibits as u128;
        if f.entropy_millibits > HIGH_ENTROPY_MILLIBITS {
            high = high + 1;
        }
        if f.entropy_millibits > VERY_HIGH_ENTROPY_MILLIBITS && !is_compressed_ext(&f.extension) {
            vh = vh + 1;
            let g = FileScan {
                path: f.path.clone(),
                entropy_millibits: f.entropy_millibits,
                size: f.size,
                extension: f.extension.clone(),
            };
            proof {
                assert(g == scans@[i as int]);
            }
            susp.push(g);
        } else if f.entropy_millibits > VERY_HIGH_ENTROPY_MILLIBITS {
            vh = vh + 1;
        }
        // Find the extension's accumulator, if any.
        let alen: usize = accs.len();
        let mut j: usize = 0;
        let mut found: bool = false;
        let mut idx: usize = 0;
        while j < alen
            invariant
                j <= alen,
                alen == accs@.len(),
                i < n,
                n == scans@.len(),
                !found ==> forall|jj: int|
                    0 <= jj < j ==> (#[trigger] accs@[jj]).key@ != scans@[i as int].extension@,
                found ==> idx < alen && accs@[idx as int].key@ == scans@[i as int].extension@,
            decreases alen - j,
        {
            if !found && accs[j].key == scans[i].extension {
                found = true;
                idx = j;
            }
            j = j + 1;
        }
        let ghost accs0 = accs@;
        let ghost ext = scans@[i as int].extension@;
        if found {
            proof {
                lemma_ext_count_le_len(prev, accs@[idx as int].key@);
                assert((accs@[idx as int].count as nat) < 0x10000000000000000nat) by {
                    assert(accs@[idx as int].count as nat == ext_count(
                        prev,
                        accs@[idx as int].key@,
                    ));
                }
                assert((accs@[idx as int].sum_millibits as nat) + 8000
                    < 0x100000000000000000000000000000000nat) by (nonlinear_arith)
                    requires
                        (accs@[idx as int].sum_millibits as nat) <= (accs@[idx as int].count
                            as nat) * 8000,
                        (accs@[idx as int].count as nat) < 0x10000000000000000nat,
                ;
            }
            let c: usize = accs[idx].count;
            let sm: u128 = accs[idx].sum_millibits;
            accs[idx].count = c + 1;
            accs[idx].sum_millibits = sm + f.entropy_millibits as u128;
            proof {
                let na = accs@[idx as int];
                assert(na.key == accs0[idx as int].key);
                assert(na.count == c + 1);
                assert(na.sum_millibits == sm + scans@[i as int].entropy_millibits);
                assert(accs@ =~= accs0.update(idx as int, na));
                lemma_accs_sum_update(accs0, idx as int, na);
                // Entries other than idx carry an extension different from
                // the new record's, so their statistics are unchanged.
                assert forall|j2: int| 0 <= j2 < accs@.len() && j2 != idx implies accs@[j2].key@
                    != ext by {
                    if j2 < idx as int {
                        assert(accs0[j2].key@ != accs0[idx as int].key@);
                    } else {
                        assert(accs0[idx as int].key@ != accs0[j2].key@);
                    }
                }
                assert forall|j2: int| 0 <= j2 < accs@.len() implies {
                    &&& (#[trigger] accs@[j2]).count as nat == ext_count(cur, accs@[j2].key@)
                    &&& accs@[j2].sum_millibits as nat == ext_entropy_sum(cur, accs@[j2].key@)
                    &&& ext_count(cur, accs@[j2].key@) > 0
                    &&& accs@[j2].sum_millibits as nat <= (accs@[j2].count as nat) * 8000
                } by {
                    if j2 == idx as int {
                        assert(accs0[idx as int].key@ == ext);
                        assert(accs0[idx as int].count as nat == ext_count(prev, ext));
                        assert(accs0[idx as int].sum_millibits as nat == ext_entropy_sum(
                            prev,
                            ext,
                        ));
                        assert(accs0[idx as int].sum_millibits as nat <= (accs0[idx as int].count
                            as nat) * 8000);
                        assert(accs@[j2].key@ == ext);
                        assert(ext_count(cur, ext) == ext_count(prev, ext) + 1);
                        assert(ext_entropy_sum(cur, ext) == ext_entropy_sum(prev, ext) + scans@[
                            i as int].entropy_millibits);
                        assert(scans@[i as int].entropy_millibits <= 8000);
                        assert(((c + 1) as nat) * 8000 == (c as nat) * 8000 + 8000)
                            by (nonlinear_arith)
                            requires
                                c < usize::MAX,
                        ;
                        assert(accs@[j2].sum_millibits as nat <= (accs@[j2].count as nat) * 8000);
                        assert(accs@[j2].sum_millibits == sm + scans@[i as int].entropy_millibits);
                        assert(accs@[j2].sum_millibits as nat == ext_entropy_sum(
                            cur,
                            accs@[j2].key@,
                        ));
                    } else {
                        assert(accs@[j2] == accs0[j2]);
                        assert(accs0[j2].sum_millibits as nat == ext_entropy_sum(
                            prev,
                            accs0[j2].key@,
                        ));
                        assert(ext_count(cur, accs@[j2].key@) == ext_count(prev, accs@[j2].key@));
                        assert(ext_entropy_sum(cur, accs@[j2].key@) == ext_entropy_sum(
                            prev,
                            accs@[j2].key@,
                        ));
                        assert(accs@[j2].sum_millibits as nat == ext_entropy_sum(
                            cur,
                            accs@[j2].key@,
                        ));
                    }
                }
                assert forall|k: int| 0 <= k < cur.len() implies exists|j2: int|
                    0 <= j2 < accs@.len() && accs@[j2].key@ == (#[trigger] cur[k]).extension@ by {
                    if k < i as int {
                        assert(cur[k] == prev[k]);
                        let jw = choose|jw: int|
                            0 <= jw < accs0.len() && accs0[jw].key@ == prev[k].extension@;
                        assert(accs@[jw].key@ == accs0[jw].key@);
                    } else {
                        assert(accs@[idx as int].key@ == cur[k].extension@);
                    }
                }
            }
        } else {
            let acc = ExtAcc {
                key: f.extension.clone(),
                count: 1,
                sum_millibits: f.entropy_millibits as u128,
            };
            proof {
                // The extension is new: its count over the prefix is zero.
                if ext_count(prev, ext) > 0 {
                    lemma_ext_count_pos(prev, ext);
                    assert(false);
                }
                lemma_ext_sum_zero(prev, ext);
                assert(accs@.push(acc).drop_last() =~= accs@);
            }
            accs.push(acc);
            proof {
                let last = accs@.len() - 1;
                assert(accs@ =~= accs0.push(acc));
                assert forall|j2: int| 0 <= j2 < accs@.len() implies {
                    &&& (#[trigger] accs@[j2]).count as nat == ext_count(cur, accs@[j2].key@)
                    &&& accs@[j2].sum_millibits as nat == ext_entropy_sum(cur, accs@[j2].key@)
                    &&& ext_count(cur, accs@[j2].key@) > 0
                    &&& accs@[j2].sum_millibits as nat <= (accs@[j2].count as nat) * 8000
                } by {
                    if j2 == last {
                        assert(accs@[j2].key@ == ext);
                        assert(ext_count(cur, ext) == ext_count(prev, ext) + 1);
                        assert(ext_entropy_sum(cur, ext) == ext_entropy_sum(prev, ext) + scans@[
                            i as int].entropy_millibits);
                    } else {
                        assert(accs@[j2] == accs0[j2]);
                        assert(accs0[j2].key@ != ext);
                        assert(ext_count(cur, accs@[j2].key@) == ext_count(prev, accs@[j2].key@));
                        assert(ext_entropy_sum(cur, accs@[j2].key@) == ext_entropy_sum(
                            prev,
                            accs@[j2].key@,
                        ));
                    }
                }
                assert forall|k: int| 0 <= k < cur.len() implies exists|j2: int|
                    0 <= j2 < accs@.len() && accs@[j2].key@ == (#[trigger] cur[k]).extension@ by {
                    if k < i as int {
                        assert(cur[k] == prev[k]);
                        let jw = choose|jw: int|
                            0 <= jw < accs0.len() && accs0[jw].key@ == prev[k].extension@;
                        assert(accs@[jw].key@ == accs0[jw].key@);
                    } else {
                        assert(accs@[last].key@ == cur[k].extension@);
                    }
                }
            }
        }
        i = i + 1;
        proof {
            assert(accs_wf(accs@, cur));
        }
    }
    proof {
        assert(scans@.take(n as int) =~= scans@);
    }
    // Mean entropy over all files.
    let avg: u64 = if n > 0 {
        proof {
            lemma_div_is_ordered(sum as int, (n as int) * 8000, n as int);
            lemma_div_multiples_vanish(8000, n as int);
            assert((n as int) * 8000 == 8000 * (n as int));
        }
        (sum / (n as u128)) as u64
    } else {
        0
    };
    // Per-extension statistics.
    let mut table: Vec<(String, ExtStats)> = Vec::new();
    let alen: usize = accs.len();
    let mut j: usize = 0;
    while j < alen
        invariant
            j <= alen,
            alen == accs@.len(),
            table@.len() == j,
            accs_wf(accs@, scans@),
            accs_sum(accs@) == scans@.len(),
            forall|jj: int| 0 <= jj < j ==> (#[trigger] table@[jj]).0 == accs@[jj].key,
            forall|jj: int|
                0 <= jj < j ==> (#[trigger] table@[jj]).1.count == accs@[jj].count,
            forall|jj: int|
                0 <= jj < j ==> (#[trigger] table@[jj]).1.avg_entropy_millibits as nat
                    == ext_entropy_sum(scans@, table@[jj].0@) / ext_count(scans@, table@[jj].0@),
            forall|jj: int|
                0 <= jj < j ==> (#[trigger] table@[jj]).1.avg_entropy_millibits <= 8000,
            ext_counts_sum(table@) == accs_sum(accs@.take(j as int)),
        decreases alen - j,
    {
        proof {
            assert(accs@.take((j + 1) as int).drop_last() =~= accs@.take(j as int));
            assert(accs@.take((j + 1) as int).last() == accs@[j as int]);
            let c = accs@[j as int].count as int;
            let sm = accs@[j as int].sum_millibits as int;
            assert(c >= 1);
            lemma_div_is_ordered(sm, c * 8000, c);
            lemma_div_multiples_vanish(8000, c);
            assert(c * 8000 == 8000 * c);
        }
        let c: usize = accs[j].count;
        let avg_e: u64 = (accs[j].sum_millibits / (c as u128)) as u64;
        let entry = (accs[j].key.clone(), ExtStats { count: c, avg_entropy_millibits: avg_e });
        proof {
            assert(table@.push(entry).drop_last() =~= table@);
        }
        table.push(entry);
        j = j + 1;
    }
    proof {
        assert(accs@.take(alen as int) =~= accs@);
    }
    let r = ScanResult {
        path,
        timestamp,
        total_files: n,
        avg_entropy_millibits: avg,
        high_entropy_count: high,
        very_high_count: vh,
        by_extension: table,
        suspicious: susp,
    };
    proof {
        assert forall|k: int| 0 <= k < scans@.len() implies exists|j2: int|
            0 <= j2 < r.by_extension@.len() && r.by_extension@[j2].0@ == (
        #[trigger] scans@[k]).extension@ by {
            let jw = choose|jw: int|
                0 <= jw < accs@.len() && accs@[jw].key@ == scans@[k].extension@;
            assert(r.by_extension@[jw].0@ == scans@[k].extension@);
        }
    }
    r
}

} // verus!
