use exarp::scan::{FileScan, ScanResult, aggregate_scan};

fn record(path: &str, entropy_millibits: u64, size: u64, extension: &str) -> FileScan {
    FileScan {
        path: String::from(path),
        entropy_millibits,
        size,
        extension: String::from(extension),
    }
}

fn ext_stats<'a>(snap: &'a ScanResult, ext: &str) -> Option<&'a exarp::scan::ExtStats> {
    snap.by_extension.iter().find(|(k, _)| k == ext).map(|(_, st)| st)
}

#[test]
fn aggregate_counts_and_mean() {
    let scans = vec![
        record("/r/a.txt", 3000, 100, ".txt"),
        record("/r/b.txt", 5000, 200, ".txt"),
        record("/r/c.bin", 7600, 300, ".bin"),
        record("/r/d.bin", 7950, 400, ".bin"),
    ];
    let snap = aggregate_scan(String::from("/r"), String::from("2024-01-01T00:00:00Z"), scans);
    assert_eq!(snap.path, "/r");
    assert_eq!(snap.timestamp, "2024-01-01T00:00:00Z");
    assert_eq!(snap.total_files, 4);
    assert_eq!(snap.avg_entropy_millibits, (3000 + 5000 + 7600 + 7950) / 4);
    assert_eq!(snap.high_entropy_count, 2);
    assert_eq!(snap.very_high_count, 1);
}

#[test]
fn counts_are_ordered_and_extension_counts_partition_the_files() {
    let scans = vec![
        record("/r/a.txt", 1000, 100, ".txt"),
        record("/r/b.txt", 7700, 100, ".txt"),
        record("/r/c.log", 7950, 100, ".log"),
        record("/r/d.log", 8000, 100, ".log"),
        record("/r/e", 500, 100, ""),
    ];
    let snap = aggregate_scan(String::from("/r"), String::from("t"), scans);
    assert!(snap.very_high_count <= snap.high_entropy_count);
    assert!(snap.high_entropy_count <= snap.total_files);
    let count_sum: usize = snap.by_extension.iter().map(|(_, st)| st.count).sum();
    assert_eq!(count_sum, snap.total_files);
    assert_eq!(ext_stats(&snap, ".txt").unwrap().count, 2);
    assert_eq!(ext_stats(&snap, ".txt").unwrap().avg_entropy_millibits, (1000 + 7700) / 2);
    assert_eq!(ext_stats(&snap, ".log").unwrap().count, 2);
    assert_eq!(ext_stats(&snap, "").unwrap().count, 1);
}

#[test]
fn aggregate_of_nothing_is_empty() {
    let snap = aggregate_scan(String::from("/r"), String::from("t"), Vec::new());
    assert_eq!(snap.total_files, 0);
    assert_eq!(snap.avg_entropy_millibits, 0);
    assert_eq!(snap.high_entropy_count, 0);
    assert_eq!(snap.very_high_count, 0);
    assert!(snap.by_extension.is_empty());
    assert!(snap.suspicious.is_empty());
}

#[test]
fn suspicious_excludes_compressed_formats() {
    let scans = vec![
        record("/r/a.zip", 7990, 100, ".zip"),
        record("/r/b.xyz", 7990, 100, ".xyz"),
        record("/r/c.txt", 7800, 100, ".txt"),
        record("/r/d.jpeg", 8000, 100, ".jpeg"),
    ];
    let snap = aggregate_scan(String::from("/r"), String::from("t"), scans);
    assert_eq!(snap.suspicious.len(), 1);
    assert_eq!(snap.suspicious[0].path, "/r/b.xyz");
    assert_eq!(snap.very_high_count, 3);
}

#[test]
fn statistics_ignore_record_order() {
    let forward = vec![
        record("/r/a.txt", 3000, 100, ".txt"),
        record("/r/b.bin", 7950, 200, ".bin"),
        record("/r/c.txt", 6000, 300, ".txt"),
    ];
    let mut backward = forward.clone();
    backward.reverse();
    let s1 = aggregate_scan(String::from("/r"), String::from("t"), forward);
    let s2 = aggregate_scan(String::from("/r"), String::from("t"), backward);
    assert_eq!(s1.total_files, s2.total_files);
    assert_eq!(s1.avg_entropy_millibits, s2.avg_entropy_millibits);
    assert_eq!(s1.high_entropy_count, s2.high_entropy_count);
    assert_eq!(s1.very_high_count, s2.very_high_count);
    assert_eq!(ext_stats(&s1, ".txt").unwrap().count, ext_stats(&s2, ".txt").unwrap().count);
    assert_eq!(
        ext_stats(&s1, ".txt").unwrap().avg_entropy_millibits,
        ext_stats(&s2, ".txt").unwrap().avg_entropy_millibits
    );
}
