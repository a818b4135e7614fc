//! The classifier: pure rules mapping a filesystem entry (path, name,
//! sibling context) to a category and risk level, or to no match.

use vstd::prelude::*;

use crate::paths::{
    contains_seq, is_suffix_of, lower, sibling_path, sibling_path_of, str_contains,
    str_contains_ci, str_ends_with_ci, str_eq,
};
use crate::snapshot::{EntryView, FsEntry};
use crate::types::{CleanCategory, RiskLevel};

verus! {

/// The risk that a category carries on its own. Duplicates and large
/// files always demand review; dependency and build output can be
/// regenerated; caches, logs and temporary files are safe to drop.
pub open spec fn default_risk(c: CleanCategory) -> RiskLevel {
    match c {
        CleanCategory::LargeFiles => RiskLevel::Risky,
        CleanCategory::DuplicateFiles => RiskLevel::Risky,
        CleanCategory::NodeModules => RiskLevel::Moderate,
        CleanCategory::BuildArtifacts => RiskLevel::Moderate,
        _ => RiskLevel::Safe,
    }
}

/// The risk that a category carries on its own.
pub fn risk_for_category(c: CleanCategory) -> (r: RiskLevel)
    ensures
        r == default_risk(c),
{
    match c {
        CleanCategory::LargeFiles => RiskLevel::Risky,
        CleanCategory::DuplicateFiles => RiskLevel::Risky,
        CleanCategory::NodeModules => RiskLevel::Moderate,
        CleanCategory::BuildArtifacts => RiskLevel::Moderate,
        _ => RiskLevel::Safe,
    }
}

/// A path names a cache directory: it ends in "cache" or "caches" in
/// any casing (which also covers dotfiles named ".cache"), or lies
/// under the platform cache root.
pub open spec fn spec_is_cache_path(p: Seq<char>) -> bool {
    is_suffix_of("cache"@, lower(p)) || is_suffix_of("caches"@, lower(p)) || contains_seq(
        p,
        "Library/Caches"@,
    )
}

/// Decides whether a path names a cache directory.
pub fn is_cache_path(p: &str) -> (r: bool)
    ensures
        r == spec_is_cache_path(p@),
{
    str_ends_with_ci(p, "cache") || str_ends_with_ci(p, "caches") || str_contains(
        p,
        "Library/Caches",
    )
}

/// Which cache family a matched cache path belongs to, by sub-string
/// heuristics on the lower-cased path: browser vendors first, then
/// package managers, then the platform cache root, else a plain
/// application cache.
pub open spec fn spec_categorize_cache(p: Seq<char>) -> CleanCategory {
    let l = lower(p);
    if contains_seq(l, "chrome"@) || contains_seq(l, "firefox"@) || contains_seq(l, "safari"@) {
        CleanCategory::BrowserCache
    } else if contains_seq(l, "homebrew"@) || contains_seq(l, "brew"@) {
        CleanCategory::BrewCache
    } else if contains_seq(l, "pip"@) {
        CleanCategory::PipCache
    } else if contains_seq(l, "cargo"@) {
        CleanCategory::CargoCache
    } else if contains_seq(l, "npm"@) || contains_seq(l, "yarn"@) || contains_seq(l, "pnpm"@) {
        CleanCategory::AppCache
    } else if contains_seq(l, "library/caches"@) {
        CleanCategory::SystemCache
    } else {
        CleanCategory::AppCache
    }
}

/// Which cache family a matched cache path belongs to.
pub fn categorize_cache(p: &str) -> (r: CleanCategory)
    ensures
        r == spec_categorize_cache(p@),
{
    if str_contains_ci(p, "chrome") || str_contains_ci(p, "firefox") || str_contains_ci(
        p,
        "safari",
    ) {
        CleanCategory::BrowserCache
    } else if str_contains_ci(p, "homebrew") || str_contains_ci(p, "brew") {
        CleanCategory::BrewCache
    } else if str_contains_ci(p, "pip") {
        CleanCategory::PipCache
    } else if str_contains_ci(p, "cargo") {
        CleanCategory::CargoCache
    } else if str_contains_ci(p, "npm") || str_contains_ci(p, "yarn") || str_contains_ci(
        p,
        "pnpm",
    ) {
        CleanCategory::AppCache
    } else if str_contains_ci(p, "library/caches") {
        CleanCategory::SystemCache
    } else {
        CleanCategory::AppCache
    }
}

/// What a build-artifact rule demands of the matched directory's
/// parent before the match counts.
#[derive(Clone, Copy, Debug, PartialEq, Eq, Structural)]
pub enum ManifestGuard {
    /// The name alone is conclusive.
    NoGuard,
    /// A `Cargo.toml` must sit beside the directory.
    RustManifest,
    /// Some recognized project manifest must sit beside the directory.
    ProjectManifest,
}

/// One row of the build-artifact table.
#[derive(Clone, Copy, Debug, PartialEq, Eq, Structural)]
pub struct ArtifactRule {
    pub category: CleanCategory,
    pub risk_level: RiskLevel,
    pub guard: ManifestGuard,
}

/// The build-artifact table: which exact directory names qualify, what
/// they are, how risky their removal is, and which guard applies.
/// Interpreter bytecode caches are ephemeral and therefore Safe; all
/// other build output is Moderate.
pub open spec fn spec_artifact_rule(name: Seq<char>) -> Option<ArtifactRule> {
    if name == "node_modules"@ {
        Some(
            ArtifactRule {
                category: CleanCategory::NodeModules,
                risk_level: RiskLevel::Moderate,
                guard: ManifestGuard::NoGuard,
            },
        )
    } else if name == "target"@ {
        Some(
            ArtifactRule {
                category: CleanCategory::BuildArtifacts,
                risk_level: RiskLevel::Moderate,
                guard: ManifestGuard::RustManifest,
            },
        )
    } else if name == "build"@ || name == "dist"@ || name == "out"@ {
        Some(
            ArtifactRule {
                category: CleanCategory::BuildArtifacts,
                risk_level: RiskLevel::Moderate,
                guard: ManifestGuard::ProjectManifest,
            },
        )
    } else if name == ".gradle"@ || name == ".maven"@ || name == ".next"@ || name == ".nuxt"@ {
        Some(
            ArtifactRule {
                category: CleanCategory::BuildArtifacts,
                risk_level: RiskLevel::Moderate,
                guard: ManifestGuard::NoGuard,
            },
        )
    } else if name == "__pycache__"@ || name == ".pytest_cache"@ {
        Some(
            ArtifactRule {
                category: CleanCategory::BuildArtifacts,
                risk_level: RiskLevel::Safe,
                guard: ManifestGuard::NoGuard,
            },
        )
    } else {
        None
    }
}

/// Looks a directory name up in the build-artifact table.
pub fn artifact_rule(name: &str) -> (r: Option<ArtifactRule>)
    ensures
        r == spec_artifact_rule(name@),
{
    if str_eq(name, "node_modules") {
        Some(
            ArtifactRule {
                category: CleanCategory::NodeModules,
                risk_level: RiskLevel::Moderate,
                guard: ManifestGuard::NoGuard,
            },
        )
    } else if str_eq(name, "target") {
        Some(
            ArtifactRule {
                category: CleanCategory::BuildArtifacts,
                risk_level: RiskLevel::Moderate,
                guard: ManifestGuard::RustManifest,
            },
        )
    } else if str_eq(name, "build") || str_eq(name, "dist") || str_eq(name, "out") {
        Some(
            ArtifactRule {
                category: CleanCategory::BuildArtifacts,
                risk_level: RiskLevel::Moderate,
                guard: ManifestGuard::ProjectManifest,
            },
        )
    } else if str_eq(name, ".gradle") || str_eq(name, ".maven") || str_eq(name, ".next") || str_eq(
        name,
        ".nuxt",
    ) {
        Some(
            ArtifactRule {
                category: CleanCategory::BuildArtifacts,
                risk_level: RiskLevel::Moderate,
                guard: ManifestGuard::NoGuard,
            },
        )
    } else if str_eq(name, "__pycache__") || str_eq(name, ".pytest_cache") {
        Some(
            ArtifactRule {
                category: CleanCategory::BuildArtifacts,
                risk_level: RiskLevel::Safe,
                guard: ManifestGuard::NoGuard,
            },
        )
    } else {
        None
    }
}

/// The table sends interpreter bytecode caches to Safe and every other
/// matched name to its category's own risk.
pub proof fn lemma_artifact_rule_risk(name: Seq<char>)
    ensures
        spec_artifact_rule(name) is Some ==> spec_artifact_rule(name)->Some_0.risk_level == (
        if name == "__pycache__"@ || name == ".pytest_cache"@ {
            RiskLevel::Safe
        } else {
            default_risk(spec_artifact_rule(name)->Some_0.category)
        }),
{
    reveal_strlit("node_modules");
    reveal_strlit("target");
    reveal_strlit("build");
    reveal_strlit("dist");
    reveal_strlit("out");
    reveal_strlit(".gradle");
    reveal_strlit(".maven");
    reveal_strlit(".next");
    reveal_strlit(".nuxt");
    reveal_strlit("__pycache__");
    reveal_strlit(".pytest_cache");
    assert("node_modules"@.len() == 12);
    assert("target"@.len() == 6);
    assert("build"@.len() == 5);
    assert("dist"@.len() == 4);
    assert("out"@.len() == 3);
    assert(".gradle"@.len() == 7);
    assert(".maven"@.len() == 6);
    assert(".next"@.len() == 5);
    assert(".nuxt"@.len() == 5);
    assert("__pycache__"@.len() == 11);
    assert(".pytest_cache"@.len() == 13);
}

/// Some entry of the snapshot sits at exactly this path.
pub open spec fn path_exists(s: Seq<EntryView>, p: Seq<char>) -> bool {
    exists|i: int| 0 <= i < s.len() && #[trigger] s[i].path == p
}

/// Decides whether some entry of the snapshot sits at exactly this path.
pub fn path_exists_exec(snap: &Vec<FsEntry>, p: &str) -> (r: bool)
    ensures
        r == path_exists(snap.deep_view(), p@),
{
    let ghost dv = snap.deep_view();
    let n = snap.len();
    let mut i: usize = 0;
    while i < n
        invariant
            n == snap@.len(),
            dv == snap.deep_view(),
            dv.len() == n,
            0 <= i <= n,
            forall|j: int| 0 <= j < i ==> #[trigger] dv[j].path != p@,
        decreases n - i,
    {
        proof {
            assert(snap@[i as int]@ == dv[i as int]);
        }
        if str_eq(snap[i].path.as_str(), p) {
            proof {
                assert(dv[i as int].path == p@);
            }
            return true;
        }
        i = i + 1;
    }
    false
}

/// A guard holds of the directory at `p` when the manifest it asks for
/// is present beside `p` in the snapshot.
pub open spec fn guard_holds(g: ManifestGuard, p: Seq<char>, snap: Seq<EntryView>) -> bool {
    match g {
        ManifestGuard::NoGuard => true,
        ManifestGuard::RustManifest => path_exists(snap, sibling_path_of(p, "Cargo.toml"@)),
        ManifestGuard::ProjectManifest => path_exists(snap, sibling_path_of(p, "package.json"@))
            || path_exists(snap, sibling_path_of(p, "build.gradle"@)) || path_exists(
            snap,
            sibling_path_of(p, "pom.xml"@),
        ) || path_exists(snap, sibling_path_of(p, "go.mod"@)),
    }
}

/// Decides whether a guard holds of the directory at `p`.
pub fn guard_holds_exec(g: ManifestGuard, p: &str, snap: &Vec<FsEntry>) -> (r: bool)
    ensures
        r == guard_holds(g, p@, snap.deep_view()),
{
    match g {
        ManifestGuard::NoGuard => true,
        ManifestGuard::RustManifest => {
            let sib = sibling_path(p, "Cargo.toml");
            path_exists_exec(snap, sib.as_str())
        },
        ManifestGuard::ProjectManifest => {
            let a = sibling_path(p, "package.json");
            if path_exists_exec(snap, a.as_str()) {
                return true;
            }
            let b = sibling_path(p, "build.gradle");
            if path_exists_exec(snap, b.as_str()) {
                return true;
            }
            let c = sibling_path(p, "pom.xml");
            if path_exists_exec(snap, c.as_str()) {
                return true;
            }
            let d = sibling_path(p, "go.mod");
            path_exists_exec(snap, d.as_str())
        },
    }
}


} // verus!
