use quickdash::{compare_hashes, CompareError, CompareFileResult, CompareResult, DigestMapping};

fn mapping(entries: &[(&str, &str)]) -> DigestMapping {
    let mut m = DigestMapping::new();
    for (p, d) in entries {
        m.insert(p.to_string(), d.to_string());
    }
    m
}

#[test]
fn added_removed_and_matching() {
    let current = mapping(&[("a.txt", "D1D1"), ("b.txt", "D2D2")]);
    let loaded = mapping(&[("a.txt", "D1D1"), ("c.txt", "D3D3")]);
    let (sets, files) = compare_hashes(current, loaded).unwrap();
    assert_eq!(sets, vec![
        CompareResult::FileAdded("b.txt".to_string()),
        CompareResult::FileRemoved("c.txt".to_string()),
    ]);
    assert_eq!(files, vec![CompareFileResult::FileMatches("a.txt".to_string())]);
}

#[test]
fn changed_digest_keeps_both_values() {
    let current = mapping(&[("a.txt", "1111")]);
    let loaded = mapping(&[("a.txt", "2222")]);
    let (sets, files) = compare_hashes(current, loaded).unwrap();
    assert!(sets.is_empty());
    assert_eq!(files, vec![CompareFileResult::FileDiffers {
        file: "a.txt".to_string(),
        was_hash: "2222".to_string(),
        new_hash: "1111".to_string(),
    }]);
}

#[test]
fn comparing_a_mapping_with_itself() {
    let entries = [("x", "AAAA"), ("y/z", "BBBB"), ("w", "----")];
    let (sets, files) = compare_hashes(mapping(&entries), mapping(&entries)).unwrap();
    assert!(sets.is_empty());
    assert_eq!(files.len(), 3);
    assert!(files.iter().all(|f| matches!(f, CompareFileResult::FileMatches(_))));
}

#[test]
fn different_lengths_are_an_error() {
    let current = mapping(&[("a", &"A".repeat(64))]);
    let loaded = mapping(&[("a", &"A".repeat(128)), ("b", &"B".repeat(128))]);
    assert_eq!(
        compare_hashes(current, loaded),
        Err(CompareError::HashLengthDiffers { previous_len: 128, current_len: 64 })
    );
}

#[test]
fn every_path_classified_once() {
    let current = mapping(&[("a", "01"), ("b", "02"), ("d", "04")]);
    let loaded = mapping(&[("b", "02"), ("c", "03"), ("d", "FF")]);
    let (sets, files) = compare_hashes(current, loaded).unwrap();
    let mut seen: Vec<String> = sets
        .iter()
        .map(|r| match r {
            CompareResult::FileAdded(p) | CompareResult::FileRemoved(p) | CompareResult::FileIgnored(p) => p.clone(),
        })
        .chain(files.iter().map(|f| match f {
            CompareFileResult::FileMatches(p) => p.clone(),
            CompareFileResult::FileDiffers { file, .. } => file.clone(),
        }))
        .collect();
    seen.sort();
    assert_eq!(seen, vec!["a", "b", "c", "d"]);
}

#[test]
fn empty_sides_are_no_error() {
    let (sets, files) = compare_hashes(DigestMapping::new(), mapping(&[("a", "01")])).unwrap();
    assert_eq!(sets, vec![CompareResult::FileRemoved("a".to_string())]);
    assert!(files.is_empty());
    let (sets, files) = compare_hashes(DigestMapping::new(), DigestMapping::new()).unwrap();
    assert!(sets.is_empty() && files.is_empty());
}
