use exarp::config::{AlertConfig, ExarpConfig};
use exarp::hash::md5_simple;
use exarp::text::normalize_extension;

#[test]
fn hash_of_nothing_is_the_basis() {
    assert_eq!(md5_simple(&Vec::new()), 0xcbf29ce484222325);
}

#[test]
fn hash_known_values() {
    assert_eq!(md5_simple(&b"a".to_vec()), 0xaf63dc4c8601ec8c);
    assert_eq!(md5_simple(&b"hello".to_vec()), 0xa430d84680aabd0b);
}

#[test]
fn hash_is_deterministic_and_order_sensitive() {
    let h1 = md5_simple(&b"/home/user".to_vec());
    let h2 = md5_simple(&b"/home/user".to_vec());
    let h3 = md5_simple(&b"resu/emoh/".to_vec());
    assert_eq!(h1, h2);
    assert_ne!(h1, h3);
}

#[test]
fn extensions_are_lowercased_and_dotted() {
    assert_eq!(normalize_extension(Some("TXT")), ".txt");
    assert_eq!(normalize_extension(Some("tar")), ".tar");
    assert_eq!(normalize_extension(Some("Gz")), ".gz");
    assert_eq!(normalize_extension(None), "");
}

#[test]
fn default_thresholds() {
    let cfg = AlertConfig::default();
    assert_eq!(cfg.drift_file_change_pct_milli, 20_000);
    assert_eq!(cfg.drift_size_decrease_pct_milli, 10_000);
    assert_eq!(cfg.missed_backup_hours, 48);
    let full = ExarpConfig::default();
    assert!(full.restic.binary.is_none());
    assert!(full.restic.repository.is_none());
    assert_eq!(full.alerts.missed_backup_hours, 48);
}
