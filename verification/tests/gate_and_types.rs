use cleanser::cache::{CachedScan, CACHE_MAX_AGE_SECS};
use cleanser::classify::{categorize_cache, risk_for_category};
use cleanser::cleaner::filter_by_risk;
use cleanser::types::{
    CleanCategory, CleanableItem, RiskLevel, ScanResults, ScanSpeed,
};

fn item(path: &str, risk: RiskLevel) -> CleanableItem {
    CleanableItem {
        path: path.to_string(),
        size: 1,
        category: CleanCategory::AppCache,
        risk_level: risk,
        description: String::new(),
    }
}

#[test]
fn moderate_ceiling_excludes_risky() {
    let items = vec![
        item("/a", RiskLevel::Safe),
        item("/b", RiskLevel::Risky),
        item("/c", RiskLevel::Moderate),
        item("/d", RiskLevel::Risky),
    ];
    let r = filter_by_risk(&items, RiskLevel::Moderate);
    let paths: Vec<&str> = r.iter().map(|it| it.path.as_str()).collect();
    assert_eq!(paths, vec!["/a", "/c"]);
    assert!(r.iter().all(|it| it.risk_level <= RiskLevel::Moderate));
}

#[test]
fn risky_ceiling_keeps_everything() {
    let items = vec![
        item("/a", RiskLevel::Safe),
        item("/b", RiskLevel::Risky),
        item("/c", RiskLevel::Moderate),
    ];
    let r = filter_by_risk(&items, RiskLevel::Risky);
    assert_eq!(r.len(), 3);
}

#[test]
fn safe_ceiling_keeps_only_safe() {
    let items = vec![
        item("/a", RiskLevel::Safe),
        item("/b", RiskLevel::Moderate),
    ];
    let r = filter_by_risk(&items, RiskLevel::Safe);
    let paths: Vec<&str> = r.iter().map(|it| it.path.as_str()).collect();
    assert_eq!(paths, vec!["/a"]);
}

#[test]
fn grouping_by_risk_is_exact() {
    let items = vec![
        item("/a", RiskLevel::Safe),
        item("/b", RiskLevel::Risky),
        item("/c", RiskLevel::Moderate),
        item("/d", RiskLevel::Safe),
    ];
    let safe = cleanser::cleaner::items_with_risk(&items, RiskLevel::Safe);
    let paths: Vec<&str> = safe.iter().map(|it| it.path.as_str()).collect();
    assert_eq!(paths, vec!["/a", "/d"]);
    let risky = cleanser::cleaner::items_with_risk(&items, RiskLevel::Risky);
    assert_eq!(risky.len(), 1);
    assert_eq!(risky[0].path, "/b");
}

#[test]
fn category_risks_follow_the_table() {
    assert_eq!(risk_for_category(CleanCategory::SystemCache), RiskLevel::Safe);
    assert_eq!(risk_for_category(CleanCategory::BrowserCache), RiskLevel::Safe);
    assert_eq!(risk_for_category(CleanCategory::AppCache), RiskLevel::Safe);
    assert_eq!(risk_for_category(CleanCategory::SystemLogs), RiskLevel::Safe);
    assert_eq!(risk_for_category(CleanCategory::AppLogs), RiskLevel::Safe);
    assert_eq!(risk_for_category(CleanCategory::TempFiles), RiskLevel::Safe);
    assert_eq!(risk_for_category(CleanCategory::PipCache), RiskLevel::Safe);
    assert_eq!(risk_for_category(CleanCategory::BrewCache), RiskLevel::Safe);
    assert_eq!(risk_for_category(CleanCategory::CargoCache), RiskLevel::Safe);
    assert_eq!(risk_for_category(CleanCategory::NodeModules), RiskLevel::Moderate);
    assert_eq!(risk_for_category(CleanCategory::BuildArtifacts), RiskLevel::Moderate);
    assert_eq!(risk_for_category(CleanCategory::LargeFiles), RiskLevel::Risky);
    assert_eq!(risk_for_category(CleanCategory::DuplicateFiles), RiskLevel::Risky);
}

#[test]
fn cache_paths_are_categorized_by_substring() {
    assert_eq!(
        categorize_cache("/u/Library/Caches/Google/Chrome/Default"),
        CleanCategory::BrowserCache
    );
    assert_eq!(categorize_cache("/u/Library/Caches/Homebrew"), CleanCategory::BrewCache);
    assert_eq!(categorize_cache("/u/.cache/pip"), CleanCategory::PipCache);
    assert_eq!(categorize_cache("/u/.cargo/registry/cache"), CleanCategory::CargoCache);
    assert_eq!(categorize_cache("/u/.npm/_cacache"), CleanCategory::AppCache);
    assert_eq!(categorize_cache("/u/Library/Caches/MyApp"), CleanCategory::SystemCache);
    assert_eq!(categorize_cache("/u/stuff/mycache"), CleanCategory::AppCache);
}

#[test]
fn labels_match_display_names() {
    assert_eq!(ScanSpeed::Quick.label(), "quick");
    assert_eq!(ScanSpeed::Normal.label(), "normal");
    assert_eq!(ScanSpeed::Thorough.label(), "thorough");
    assert_eq!(RiskLevel::Safe.label(), "safe");
    assert_eq!(RiskLevel::Moderate.label(), "moderate");
    assert_eq!(RiskLevel::Risky.label(), "risky");
    assert_eq!(CleanCategory::SystemCache.label(), "System Cache");
    assert_eq!(CleanCategory::BrewCache.label(), "Homebrew Cache");
    assert_eq!(CleanCategory::DuplicateFiles.label(), "Duplicate Files");
}

#[test]
fn risk_order_is_total() {
    assert!(RiskLevel::Safe.le(&RiskLevel::Safe));
    assert!(RiskLevel::Safe.le(&RiskLevel::Moderate));
    assert!(RiskLevel::Safe.le(&RiskLevel::Risky));
    assert!(!RiskLevel::Moderate.le(&RiskLevel::Safe));
    assert!(RiskLevel::Moderate.le(&RiskLevel::Risky));
    assert!(!RiskLevel::Risky.le(&RiskLevel::Moderate));
    assert!(RiskLevel::Risky.le(&RiskLevel::Risky));
}

#[test]
fn cached_scan_freshness_window() {
    let cached = CachedScan {
        timestamp: 1000,
        results: ScanResults {
            items: Vec::new(),
            total_size: 0,
            scan_speed: ScanSpeed::Normal,
        },
    };
    assert_eq!(cached.age(1050), 50);
    assert_eq!(cached.age(900), 0);
    assert!(cached.is_fresh(1000 + CACHE_MAX_AGE_SECS, CACHE_MAX_AGE_SECS));
    assert!(!cached.is_fresh(1000 + CACHE_MAX_AGE_SECS + 1, CACHE_MAX_AGE_SECS));
}
