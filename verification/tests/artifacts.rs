use cleanser::scanner::scan_build_artifacts;
use cleanser::snapshot::FsEntry;
use cleanser::types::{CleanCategory, RiskLevel};

fn dir(path: &str) -> FsEntry {
    FsEntry { path: path.to_string(), is_dir: true, size: 0 }
}

fn file(path: &str, size: u64) -> FsEntry {
    FsEntry { path: path.to_string(), is_dir: false, size }
}

const MIB: u64 = 1024 * 1024;

#[test]
fn build_dir_needs_sibling_manifest() {
    // A directory named "build" with no project manifest beside it is
    // not a finding; adding one manifest file makes it one.
    let unguarded = vec![
        dir("/p"),
        dir("/p/build"),
        file("/p/build/out.bin", 2 * MIB),
    ];
    let paths = vec!["/p".to_string()];
    let r = scan_build_artifacts(&paths, 6, &unguarded);
    assert!(r.is_empty());

    let guarded = vec![
        dir("/p"),
        file("/p/package.json", 50),
        dir("/p/build"),
        file("/p/build/out.bin", 2 * MIB),
    ];
    let r = scan_build_artifacts(&paths, 6, &guarded);
    assert_eq!(r.len(), 1);
    assert_eq!(r[0].path, "/p/build");
    assert_eq!(r[0].category, CleanCategory::BuildArtifacts);
    assert_eq!(r[0].risk_level, RiskLevel::Moderate);
    assert_eq!(r[0].description, "build directory");
}

#[test]
fn target_dir_needs_cargo_manifest() {
    let unguarded = vec![
        dir("/p"),
        file("/p/package.json", 50),
        dir("/p/target"),
        file("/p/target/bin", 2 * MIB),
    ];
    let paths = vec!["/p".to_string()];
    assert!(scan_build_artifacts(&paths, 6, &unguarded).is_empty());

    let guarded = vec![
        dir("/p"),
        file("/p/Cargo.toml", 50),
        dir("/p/target"),
        file("/p/target/bin", 2 * MIB),
    ];
    let r = scan_build_artifacts(&paths, 6, &guarded);
    assert_eq!(r.len(), 1);
    assert_eq!(r[0].path, "/p/target");
}

#[test]
fn node_modules_needs_no_guard() {
    let snap = vec![
        dir("/p"),
        dir("/p/node_modules"),
        file("/p/node_modules/dep.js", 2 * MIB),
    ];
    let paths = vec!["/p".to_string()];
    let r = scan_build_artifacts(&paths, 6, &snap);
    assert_eq!(r.len(), 1);
    assert_eq!(r[0].category, CleanCategory::NodeModules);
    assert_eq!(r[0].risk_level, RiskLevel::Moderate);
    assert_eq!(r[0].description, "node_modules directory");
}

#[test]
fn interpreter_bytecode_cache_is_safe() {
    let snap = vec![
        dir("/p"),
        dir("/p/__pycache__"),
        file("/p/__pycache__/mod.pyc", 2 * MIB),
        dir("/p/.pytest_cache"),
        file("/p/.pytest_cache/junk", 2 * MIB),
    ];
    let paths = vec!["/p".to_string()];
    let r = scan_build_artifacts(&paths, 6, &snap);
    assert_eq!(r.len(), 2);
    for it in &r {
        assert_eq!(it.category, CleanCategory::BuildArtifacts);
        assert_eq!(it.risk_level, RiskLevel::Safe);
    }
}

#[test]
fn artifact_floor_is_strict() {
    let snap = vec![
        dir("/p"),
        dir("/p/node_modules"),
        file("/p/node_modules/dep.js", MIB),
    ];
    let paths = vec!["/p".to_string()];
    assert!(scan_build_artifacts(&paths, 6, &snap).is_empty());
}
