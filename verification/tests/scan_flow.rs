use cleanser::scanner::scan;
use cleanser::snapshot::FsEntry;
use cleanser::types::{CleanCategory, RiskLevel, ScanConfig, ScanSpeed};

fn dir(path: &str) -> FsEntry {
    FsEntry { path: path.to_string(), is_dir: true, size: 0 }
}

fn file(path: &str, size: u64) -> FsEntry {
    FsEntry { path: path.to_string(), is_dir: false, size }
}

fn config(paths: Vec<String>, min_mb: u64, dups: bool) -> ScanConfig {
    ScanConfig {
        speed: ScanSpeed::Normal,
        paths,
        min_file_size_mb: min_mb,
        max_depth: None,
        find_duplicates: dups,
    }
}

const MIB: u64 = 1024 * 1024;

#[test]
fn nested_cache_counted_once() {
    // A 5 MB cache directory holding a qualifying sub-cache: the outer
    // directory alone is reported and the total is 5 MB, not 7.
    let snap = vec![
        dir("/home/u"),
        dir("/home/u/maincache"),
        file("/home/u/maincache/data.bin", 3 * MIB),
        dir("/home/u/maincache/subcache"),
        file("/home/u/maincache/subcache/blob.bin", 2 * MIB),
    ];
    let r = scan(config(vec!["/home/u".to_string()], 0, false), &snap, &vec![]);
    assert_eq!(r.items.len(), 1);
    assert_eq!(r.items[0].path, "/home/u/maincache");
    assert_eq!(r.items[0].size, 5 * MIB);
    assert_eq!(r.total_size, 5 * MIB);
}

#[test]
fn cache_floor_is_strict() {
    // Exactly one MiB is excluded; one byte more is included.
    let at_floor = vec![
        dir("/r"),
        dir("/r/acache"),
        file("/r/acache/f", MIB),
    ];
    let r = scan(config(vec!["/r".to_string()], 0, false), &at_floor, &vec![]);
    assert!(r.items.is_empty());
    assert_eq!(r.total_size, 0);

    let over_floor = vec![
        dir("/r"),
        dir("/r/acache"),
        file("/r/acache/f", MIB + 1),
    ];
    let r = scan(config(vec!["/r".to_string()], 0, false), &over_floor, &vec![]);
    assert_eq!(r.items.len(), 1);
    assert_eq!(r.items[0].size, MIB + 1);
}

#[test]
fn end_to_end_three_findings() {
    // node_modules (2 MB), target beside a Cargo.toml (3 MB), and the
    // platform cache root (4 MB): three findings, 9 MB, at
    // Moderate/Moderate/Safe.
    let snap = vec![
        dir("/Users/u"),
        dir("/Users/u/proj"),
        dir("/Users/u/proj/node_modules"),
        file("/Users/u/proj/node_modules/pkg.js", 2 * MIB),
        file("/Users/u/proj/Cargo.toml", 120),
        dir("/Users/u/proj/target"),
        file("/Users/u/proj/target/bin", 3 * MIB),
        dir("/Users/u/Library"),
        dir("/Users/u/Library/Caches"),
        dir("/Users/u/Library/Caches/App"),
        file("/Users/u/Library/Caches/App/blob", 4 * MIB),
    ];
    let r = scan(config(vec!["/Users/u".to_string()], 100, false), &snap, &vec![]);
    assert_eq!(r.items.len(), 3);
    assert_eq!(r.total_size, 9 * MIB);

    let find = |p: &str| r.items.iter().find(|it| it.path == p).unwrap();
    let nm = find("/Users/u/proj/node_modules");
    assert_eq!(nm.size, 2 * MIB);
    assert_eq!(nm.category, CleanCategory::NodeModules);
    assert_eq!(nm.risk_level, RiskLevel::Moderate);
    let tg = find("/Users/u/proj/target");
    assert_eq!(tg.size, 3 * MIB);
    assert_eq!(tg.category, CleanCategory::BuildArtifacts);
    assert_eq!(tg.risk_level, RiskLevel::Moderate);
    let ca = find("/Users/u/Library/Caches");
    assert_eq!(ca.size, 4 * MIB);
    assert_eq!(ca.category, CleanCategory::SystemCache);
    assert_eq!(ca.risk_level, RiskLevel::Safe);
}

#[test]
fn quick_depth_bounds_the_walk() {
    // At Quick speed the walk stops three levels down; a cache
    // directory at depth four is out of reach, one at depth three is
    // found, and its size still counts files below the bound.
    let snap = vec![
        dir("/r"),
        dir("/r/a"),
        dir("/r/a/b"),
        dir("/r/a/b/nearcache"),
        file("/r/a/b/nearcache/f", 2 * MIB),
        dir("/r/a/b/c"),
        dir("/r/a/b/c/deepcache"),
        file("/r/a/b/c/deepcache/f", 2 * MIB),
    ];
    let cfg = ScanConfig {
        speed: ScanSpeed::Quick,
        paths: vec!["/r".to_string()],
        min_file_size_mb: 0,
        max_depth: None,
        find_duplicates: false,
    };
    let r = scan(cfg, &snap, &vec![]);
    assert_eq!(r.items.len(), 1);
    assert_eq!(r.items[0].path, "/r/a/b/nearcache");
}

#[test]
fn log_sweep_finds_oversized_logs() {
    let snap = vec![
        dir("/h"),
        dir("/h/logs"),
        file("/h/logs/app.log", 11 * MIB),
        file("/h/logs/small.log", 10 * MIB),
        file("/h/logs/notes.txt", 20 * MIB),
        dir("/h/Library"),
        dir("/h/Library/Logs"),
        file("/h/Library/Logs/system.log", 20 * MIB),
    ];
    let r = scan(config(vec!["/h".to_string()], 0, false), &snap, &vec![]);
    assert_eq!(r.items.len(), 2);
    let find = |p: &str| r.items.iter().find(|it| it.path == p).unwrap();
    let sys = find("/h/Library/Logs/system.log");
    assert_eq!(sys.category, CleanCategory::SystemLogs);
    assert_eq!(sys.risk_level, RiskLevel::Safe);
    let app = find("/h/logs/app.log");
    assert_eq!(app.category, CleanCategory::AppLogs);
    assert_eq!(
        app.description,
        format!(
            "Large log file ({})",
            humansize::format_size(11 * MIB, humansize::BINARY)
        )
    );
}

#[test]
fn large_file_sweep_respects_deny_list_and_dotfiles() {
    let snap = vec![
        dir("/r"),
        file("/r/video.mov", 200 * MIB),
        file("/r/.secret", 200 * MIB),
        file("/r/.cache", 200 * MIB),
        dir("/r/Applications"),
        file("/r/Applications/game.bin", 200 * MIB),
        file("/r/small.bin", 99 * MIB),
    ];
    let r = scan(config(vec!["/r".to_string()], 100, false), &snap, &vec![]);
    let mut paths: Vec<&str> = r.items.iter().map(|it| it.path.as_str()).collect();
    paths.sort();
    assert_eq!(paths, vec!["/r/.cache", "/r/video.mov"]);
    for it in &r.items {
        assert_eq!(it.category, CleanCategory::LargeFiles);
        assert_eq!(it.risk_level, RiskLevel::Risky);
        assert!(it.description.starts_with("Large file ("));
    }
}

#[test]
fn empty_snapshot_yields_empty_results() {
    let r = scan(config(vec!["/r".to_string()], 100, true), &vec![], &vec![]);
    assert!(r.items.is_empty());
    assert_eq!(r.total_size, 0);
    assert!(matches!(r.scan_speed, ScanSpeed::Normal));
}
