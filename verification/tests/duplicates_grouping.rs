use cleanser::duplicates::{
    duplicate_candidates, find_duplicates, hash_bytes, DupCandidate, HashedFile,
};
use cleanser::scanner::scan;
use cleanser::snapshot::FsEntry;
use cleanser::types::{CleanCategory, FileHash, RiskLevel, ScanConfig, ScanSpeed};

fn dir(path: &str) -> FsEntry {
    FsEntry { path: path.to_string(), is_dir: true, size: 0 }
}

fn file(path: &str, size: u64) -> FsEntry {
    FsEntry { path: path.to_string(), is_dir: false, size }
}

fn hashed(path: &str, data: &[u8], size: u64) -> HashedFile {
    HashedFile {
        path: path.to_string(),
        hash: FileHash { hash: hash_bytes(&data.to_vec()), size },
    }
}

const MIB: u64 = 1024 * 1024;

#[test]
fn sha256_digest_is_hex_of_content() {
    // The well-known SHA-256 of "abc".
    assert_eq!(
        hash_bytes(&b"abc".to_vec()),
        "ba7816bf8f01cfea414140de5dae2223b00361a396177a9cb410ff61f20015ad"
    );
    assert_eq!(
        hash_bytes(&Vec::new()),
        "e3b0c44298fc1c149afbf4c8996fb92427ae41e4649b934ca495991b7852b855"
    );
}

#[test]
fn one_finding_for_the_second_copy_only() {
    // A and B byte-identical, C one byte apart: exactly one finding,
    // for B, referencing A; never one for A or C.
    let data_ab = vec![7u8; 64];
    let mut data_c = data_ab.clone();
    data_c[10] = 8;
    let hs = vec![
        hashed("/d/a.bin", &data_ab, 2 * MIB),
        hashed("/d/b.bin", &data_ab, 2 * MIB),
        hashed("/d/c.bin", &data_c, 2 * MIB),
    ];
    let r = find_duplicates(&hs);
    assert_eq!(r.len(), 1);
    assert_eq!(r[0].path, "/d/b.bin");
    assert_eq!(r[0].size, 2 * MIB);
    assert_eq!(r[0].category, CleanCategory::DuplicateFiles);
    assert_eq!(r[0].risk_level, RiskLevel::Risky);
    assert_eq!(
        r[0].description,
        format!(
            "Duplicate of /d/a.bin ({})",
            humansize::format_size(2 * MIB, humansize::BINARY)
        )
    );
}

#[test]
fn equal_content_different_size_is_no_group() {
    // The grouping key is digest and size together.
    let data = vec![3u8; 32];
    let hs = vec![
        hashed("/d/a.bin", &data, 2 * MIB),
        hashed("/d/b.bin", &data, 3 * MIB),
    ];
    assert!(find_duplicates(&hs).is_empty());
}

#[test]
fn canonical_copy_is_lexicographically_least() {
    let data = vec![5u8; 32];
    let hs = vec![
        hashed("/d/z.bin", &data, 2 * MIB),
        hashed("/d/m.bin", &data, 2 * MIB),
        hashed("/d/a.bin", &data, 2 * MIB),
    ];
    let r = find_duplicates(&hs);
    assert_eq!(r.len(), 2);
    let mut paths: Vec<&str> = r.iter().map(|it| it.path.as_str()).collect();
    paths.sort();
    assert_eq!(paths, vec!["/d/m.bin", "/d/z.bin"]);
    for it in &r {
        assert!(it.description.starts_with("Duplicate of /d/a.bin ("));
    }
}

#[test]
fn candidate_floor_is_strict_and_skips_directories() {
    let snap = vec![
        dir("/r"),
        file("/r/at_floor.bin", MIB),
        file("/r/over_floor.bin", MIB + 1),
        dir("/r/big_dir"),
        file("/r/big_dir/inner.bin", 5 * MIB),
    ];
    let paths = vec!["/r".to_string()];
    let cands = duplicate_candidates(&paths, 6, &snap);
    let got: Vec<(&str, u64)> = cands.iter().map(|c: &DupCandidate| (c.path.as_str(), c.size)).collect();
    assert_eq!(
        got,
        vec![("/r/over_floor.bin", MIB + 1), ("/r/big_dir/inner.bin", 5 * MIB)]
    );
}

#[test]
fn candidate_walk_respects_depth() {
    let snap = vec![
        dir("/r"),
        file("/r/shallow.bin", 2 * MIB),
        dir("/r/d"),
        file("/r/d/deep.bin", 2 * MIB),
    ];
    let paths = vec!["/r".to_string()];
    let cands = duplicate_candidates(&paths, 1, &snap);
    assert_eq!(cands.len(), 1);
    assert_eq!(cands[0].path, "/r/shallow.bin");
}

#[test]
fn duplicates_feed_the_full_scan() {
    let data = vec![9u8; 128];
    let snap = vec![
        dir("/r"),
        file("/r/one.bin", 2 * MIB),
        file("/r/two.bin", 2 * MIB),
    ];
    let cfg = ScanConfig {
        speed: ScanSpeed::Normal,
        paths: vec!["/r".to_string()],
        min_file_size_mb: 0,
        max_depth: None,
        find_duplicates: true,
    };
    let hs = vec![
        hashed("/r/one.bin", &data, 2 * MIB),
        hashed("/r/two.bin", &data, 2 * MIB),
    ];
    let r = scan(cfg, &snap, &hs);
    assert_eq!(r.items.len(), 1);
    assert_eq!(r.items[0].path, "/r/two.bin");
    assert_eq!(r.total_size, 2 * MIB);
}
