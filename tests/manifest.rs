use quickdash::{filepath_parser, parse_manifest, render_lines, try_contains, DigestMapping, ManifestError};

fn lines(v: &[&str]) -> Vec<String> {
    v.iter().map(|s| s.to_string()).collect()
}

#[test]
fn both_grammars_give_the_same_entry() {
    let mut a = DigestMapping::new();
    try_contains("A1B2C3  dir/file.txt", &mut a).unwrap();
    let mut b = DigestMapping::new();
    try_contains("dir/file.txt\tA1B2C3", &mut b).unwrap();
    assert_eq!(a.len(), 1);
    assert_eq!(b.len(), 1);
    assert_eq!(a.path_at(0), "dir/file.txt");
    assert_eq!(a.digest_at(0), "A1B2C3");
    assert_eq!(b.path_at(0), "dir/file.txt");
    assert_eq!(b.digest_at(0), "A1B2C3");
}

#[test]
fn digest_is_upper_cased() {
    let mut m = DigestMapping::new();
    try_contains("abcdef01  x.bin", &mut m).unwrap();
    assert_eq!(m.get("x.bin").map(|s| s.as_str()), Some("ABCDEF01"));
}

#[test]
fn path_first_with_spaces_in_path() {
    let mut m = DigestMapping::new();
    try_contains("my file.txt    DEADBEEF", &mut m).unwrap();
    assert_eq!(m.get("my file.txt").map(|s| s.as_str()), Some("DEADBEEF"));
}

#[test]
fn placeholder_line_parses() {
    let mut m = DigestMapping::new();
    try_contains("--------  ignored.bin", &mut m).unwrap();
    assert_eq!(m.get("ignored.bin").map(|s| s.as_str()), Some("--------"));
}

#[test]
fn unparsable_line_is_an_error_naming_it() {
    let mut m = DigestMapping::new();
    let r = try_contains("no digest here!", &mut m);
    assert_eq!(r, Err(ManifestError::HashesFileParsingFailure("no digest here!".to_string())));
    assert_eq!(m.len(), 0);
}

#[test]
fn path_cleanup() {
    assert_eq!(filepath_parser("  *bin/file.exe  "), "bin/file.exe");
    assert_eq!(filepath_parser("dir\\sub\\file.txt"), "dir/sub/file.txt");
    assert_eq!(filepath_parser("dir/odd\\name"), "dir/odd\\name");
    assert_eq!(filepath_parser("plain.txt"), "plain.txt");
}

#[test]
fn manifest_skips_comments_and_blank_lines() {
    let m = parse_manifest(&lines(&[
        "; a comment",
        "",
        "   ; indented comment",
        "AAAA  a.txt",
        "bbbb  b.txt",
    ]))
    .unwrap();
    assert_eq!(m.len(), 2);
    assert_eq!(m.get("a.txt").map(|s| s.as_str()), Some("AAAA"));
    assert_eq!(m.get("b.txt").map(|s| s.as_str()), Some("BBBB"));
}

#[test]
fn manifest_last_line_wins() {
    let m = parse_manifest(&lines(&["AAAA  a.txt", "BBBB  a.txt"])).unwrap();
    assert_eq!(m.len(), 1);
    assert_eq!(m.get("a.txt").map(|s| s.as_str()), Some("BBBB"));
}

#[test]
fn manifest_error_is_first_bad_line() {
    let r = parse_manifest(&lines(&["AAAA  a.txt", "not parsed!", "also bad!"]));
    assert_eq!(
        r.err(),
        Some(ManifestError::HashesFileParsingFailure("not parsed!".to_string()))
    );
}

#[test]
fn manifest_of_whitespace_line_fails() {
    assert!(parse_manifest(&lines(&["   "])).is_err());
}

#[test]
fn render_then_parse_round_trip() {
    let mut m = DigestMapping::new();
    m.insert("b/two.txt".to_string(), "0123ABCD".to_string());
    m.insert("a one.txt".to_string(), "FFFF0000".to_string());
    m.insert("c.bin".to_string(), "--------".to_string());
    let out = render_lines(&m);
    assert_eq!(out, vec![
        "FFFF0000  a one.txt".to_string(),
        "0123ABCD  b/two.txt".to_string(),
        "--------  c.bin".to_string(),
    ]);
    let back = parse_manifest(&out).unwrap();
    assert_eq!(back.len(), m.len());
    for i in 0..m.len() {
        assert_eq!(back.path_at(i), m.path_at(i));
        assert_eq!(back.digest_at(i), m.digest_at(i));
    }
}

#[test]
fn mapping_keeps_paths_sorted() {
    let mut m = DigestMapping::new();
    for p in ["zeta", "alpha", "mid", "alpha2", "Alpha"] {
        m.insert(p.to_string(), "00".to_string());
    }
    let paths: Vec<String> = (0..m.len()).map(|i| m.path_at(i).clone()).collect();
    assert_eq!(paths, vec!["Alpha", "alpha", "alpha2", "mid", "zeta"]);
    m.remove("mid");
    assert!(!m.contains_key("mid"));
    assert_eq!(m.len(), 4);
}

#[test]
fn hex_looking_word_reads_as_digest() {
    let m = parse_manifest(&lines(&["bad line!"])).unwrap();
    assert_eq!(m.get("line!").map(|s| s.as_str()), Some("BAD"));
}
