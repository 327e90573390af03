//! Drift-detection engine for a behavioral backup monitor.
//!
//! The library establishes an entropy baseline of a file tree and flags
//! anomalous deviations - mass encryption, entropy spikes, abnormal deletion
//! ratios, missed backups - as early indicators of ransomware or backup
//! corruption.  Entropy values are carried as integers in milli-bits per byte
//! (`0..=8000`), so every threshold rule is exact integer arithmetic.

pub mod collect;
pub mod compare;
pub mod config;
pub mod drift;
pub mod entropy;
pub mod hash;
pub mod scan;
pub mod text;
