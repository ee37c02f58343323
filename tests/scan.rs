use quickdash::options::{comparison_exit_status, may_create, resolve_algorithm};
use quickdash::scan::{
    add_manifest_entry, assemble_mapping, detect_algorithm, is_ignored, placeholder, plan_check, select_files,
    should_visit, walk_depth, worker_count,
};
use quickdash::{compare_hashes, optimize_file_order, Algorithm, DigestMapping, ScanEntry};

fn entry(path: &str, is_file: bool, dev: u64, ino: u64) -> ScanEntry {
    ScanEntry { path: path.to_string(), is_file, dev, ino }
}

#[test]
fn ignored_file_is_not_hashed_but_recorded() {
    let entries = vec![
        entry("a.txt", true, 1, 5),
        entry("secret.bin", true, 1, 6),
        entry("sub", false, 1, 7),
        entry("sub/b.txt", true, 1, 8),
    ];
    let ignored = vec!["secret.bin".to_string()];
    let (files, skipped) = select_files(&entries, &ignored);
    let paths: Vec<&str> = files.iter().map(|e| e.path.as_str()).collect();
    assert_eq!(paths, vec!["a.txt", "sub/b.txt"]);
    assert_eq!(skipped, vec!["secret.bin".to_string()]);

    let hashed = vec![
        ("sub/b.txt".to_string(), "B".repeat(64)),
        ("a.txt".to_string(), "A".repeat(64)),
    ];
    let m = assemble_mapping(&hashed, &skipped, Algorithm::BLAKE3, true);
    assert_eq!(m.len(), 3);
    assert_eq!(m.get("secret.bin").map(|s| s.as_str()), Some("-".repeat(64).as_str()));
    assert_eq!(m.path_at(0), "a.txt");
    let untracked = assemble_mapping(&hashed, &skipped, Algorithm::BLAKE3, false);
    assert_eq!(untracked.len(), 2);
    assert!(!untracked.contains_key("secret.bin"));
}

#[test]
fn ignored_directories_are_pruned() {
    let ignored = vec!["build".to_string()];
    assert!(!should_visit(&ignored, "build", false));
    assert!(should_visit(&ignored, "src", false));
    assert!(should_visit(&ignored, "build", true));
    assert!(is_ignored(&ignored, "build"));
    assert!(!is_ignored(&ignored, "build/x"));
}

#[test]
fn placeholder_has_algorithm_length() {
    assert_eq!(placeholder(Algorithm::CRC32), "--------");
    assert_eq!(placeholder(Algorithm::SHA2512).len(), 128);
    assert_eq!(placeholder(Algorithm::SHA1).len(), 40);
}

#[test]
fn manifest_records_itself() {
    let mut m = DigestMapping::new();
    m.insert("a".to_string(), "0".repeat(32));
    add_manifest_entry(&mut m, "root.hash".to_string(), Algorithm::MD5);
    assert_eq!(m.get("root.hash").map(|s| s.as_str()), Some("-".repeat(32).as_str()));
}

#[test]
fn files_sorted_by_location() {
    let mut files = vec![
        entry("c", true, 2, 1),
        entry("a", true, 1, 9),
        entry("b", true, 1, 3),
    ];
    optimize_file_order(&mut files);
    let paths: Vec<&str> = files.iter().map(|e| e.path.as_str()).collect();
    assert_eq!(paths, vec!["b", "a", "c"]);
}

#[test]
fn depth_counts_the_root() {
    assert_eq!(walk_depth(None), None);
    assert_eq!(walk_depth(Some(0)), Some(1));
    assert_eq!(walk_depth(Some(3)), Some(4));
    assert_eq!(walk_depth(Some(usize::MAX)), Some(usize::MAX));
}

#[test]
fn workers_default_to_available() {
    assert_eq!(worker_count(0, 8), 8);
    assert_eq!(worker_count(2, 8), 2);
}

#[test]
fn algorithm_from_loaded_mapping() {
    let mut m = DigestMapping::new();
    m.insert("a".to_string(), "-".repeat(64));
    assert_eq!(detect_algorithm(&m), None);
    assert_eq!(resolve_algorithm(Algorithm::UNSPECIFIED, &m), None);
    assert_eq!(resolve_algorithm(Algorithm::MD5, &m), Some(Algorithm::MD5));
    m.insert("b".to_string(), "F".repeat(40));
    assert_eq!(detect_algorithm(&m), Some(Algorithm::SHA1));
    assert_eq!(resolve_algorithm(Algorithm::UNSPECIFIED, &m), Some(Algorithm::SHA1));
}

#[test]
fn create_needs_force_to_overwrite() {
    assert!(may_create(false, false));
    assert!(may_create(true, true));
    assert!(!may_create(false, true));
}

#[test]
fn exit_status_of_comparisons() {
    let mut a = DigestMapping::new();
    a.insert("x".to_string(), "01".to_string());
    let mut b = DigestMapping::new();
    b.insert("x".to_string(), "01".to_string());
    assert_eq!(comparison_exit_status(&compare_hashes(a, b)), 0);
    let mut a = DigestMapping::new();
    a.insert("x".to_string(), "01".to_string());
    let mut b = DigestMapping::new();
    b.insert("x".to_string(), "02".to_string());
    assert_eq!(comparison_exit_status(&compare_hashes(a, b)), 1);
    let mut a = DigestMapping::new();
    a.insert("x".to_string(), "01".to_string());
    let mut b = DigestMapping::new();
    b.insert("x".to_string(), "0102".to_string());
    assert_eq!(comparison_exit_status(&compare_hashes(a, b)), 1);
}

#[test]
fn check_plan_splits_loaded_paths() {
    let mut m = DigestMapping::new();
    m.insert("a".to_string(), "AAAA".to_string());
    m.insert("b".to_string(), "----".to_string());
    m.insert("c".to_string(), "CCCC".to_string());
    m.insert("d".to_string(), "----".to_string());
    let (hash, keep) = plan_check(&m, &vec![true, true, false, false]);
    assert_eq!(hash, vec!["a".to_string()]);
    assert_eq!(keep, vec!["b".to_string()]);
}
