//! The traversal strategies and the scan orchestrator. Each sweep runs
//! over the snapshot once per configured root, applies the classifier,
//! and accumulates findings; the orchestrator sequences the five
//! sweeps, consolidates, and totals.

use vstd::prelude::*;
use vstd::string::StrSliceExecFns;
use vstd::string::StringExecFns;

use crate::classify::{
    artifact_rule, categorize_cache, guard_holds, guard_holds_exec, is_cache_path,
    spec_artifact_rule, spec_categorize_cache, spec_is_cache_path,
};
use crate::consolidate::{deduplicate_nested_paths, no_nested_paths, spec_consolidate};
use crate::duplicates::{find_duplicates, spec_find_duplicates, HashedFile, HashedView};
use crate::human::{format_size_binary, human_size_of};
use crate::paths::{contains_seq, file_name, file_name_of, is_suffix_of, str_contains,
    str_ends_with, str_eq};
use crate::snapshot::{
    dir_size, dir_size_of, in_scope, in_scope_exec, lemma_dir_size_le_sum, wf_snapshot, EntryView,
    FsEntry,
};
use crate::types::{
    CleanCategory, CleanableItem, ItemView, RiskLevel, ScanConfig, ScanResults, ScanSpeed,
};

verus! {

/// One sweep's pass over the snapshot: each entry yields at most one
/// finding, in snapshot order.
pub open spec fn sweep_row(entries: Seq<EntryView>, f: spec_fn(EntryView) -> Option<ItemView>) -> Seq<
    ItemView,
>
    decreases entries.len(),
{
    if entries.len() == 0 {
        Seq::empty()
    } else {
        sweep_row(entries.drop_last(), f) + match f(entries.last()) {
            Some(it) => seq![it],
            None => Seq::empty(),
        }
    }
}

/// The scan's own working directories, excluded from the cache sweep.
pub open spec fn cache_excluded(p: Seq<char>) -> bool {
    contains_seq(p, "/target/"@) || contains_seq(p, "/cleanser/"@)
}

/// What the cache sweep makes of one entry under one root: a directory
/// the walk reaches, not self-excluded, matching a cache pattern, and
/// holding strictly more than one MiB.
pub open spec fn cache_find(e: EntryView, root: Seq<char>, depth: int, snap: Seq<EntryView>) -> Option<
    ItemView,
> {
    if e.is_dir && in_scope(e.path, root, depth) && !cache_excluded(e.path) && spec_is_cache_path(
        e.path,
    ) && dir_size_of(snap, e.path) > 1024 * 1024 {
        Some(
            ItemView {
                path: e.path,
                size: dir_size_of(snap, e.path) as u64,
                category: spec_categorize_cache(e.path),
                risk_level: RiskLevel::Safe,
                description: "Cache directory: "@ + file_name_of(e.path),
            },
        )
    } else {
        None
    }
}

/// The cache sweep's findings: every root in order, the snapshot in
/// order under each.
pub open spec fn cache_findings(roots: Seq<Seq<char>>, depth: int, snap: Seq<EntryView>) -> Seq<
    ItemView,
>
    decreases roots.len(),
{
    if roots.len() == 0 {
        Seq::empty()
    } else {
        cache_findings(roots.drop_last(), depth, snap) + sweep_row(
            snap,
            |e: EntryView| cache_find(e, roots.last(), depth, snap),
        )
    }
}

/// Sweeps the snapshot for cache directories holding more than one MiB.
pub fn scan_cache_directories(paths: &Vec<String>, max_depth: usize, snap: &Vec<FsEntry>) -> (r:
    Vec<CleanableItem>)
    requires
        wf_snapshot(snap.deep_view()),
    ensures
        r.deep_view() == cache_findings(paths.deep_view(), max_depth as int, snap.deep_view()),
{
    let ghost roots_dv = paths.deep_view();
    let ghost snap_dv = snap.deep_view();
    let mut out: Vec<CleanableItem> = Vec::new();
    let n_roots = paths.len();
    let n_snap = snap.len();
    let mut ri: usize = 0;
    proof {
        assert(out.deep_view() =~= cache_findings(roots_dv.take(0), max_depth as int, snap_dv));
    }
    while ri < n_roots
        invariant
            n_roots == paths@.len(),
            n_snap == snap@.len(),
            roots_dv == paths.deep_view(),
            snap_dv == snap.deep_view(),
            wf_snapshot(snap_dv),
            0 <= ri <= n_roots,
            out.deep_view() == cache_findings(roots_dv.take(ri as int), max_depth as int, snap_dv),
        decreases n_roots - ri,
    {
        let root = &paths[ri];
        let ghost f = |e: EntryView| cache_find(e, roots_dv[ri as int], max_depth as int, snap_dv);
        proof {
            assert(root@ == roots_dv[ri as int]);
        }
        let mut ei: usize = 0;
        while ei < n_snap
            invariant
                n_snap == snap@.len(),
                snap_dv == snap.deep_view(),
                wf_snapshot(snap_dv),
                0 <= ei <= n_snap,
                root@ == roots_dv[ri as int],
                f == (|e: EntryView| cache_find(
                    e,
                    roots_dv[ri as int],
                    max_depth as int,
                    snap_dv,
                )),
                out.deep_view() == cache_findings(roots_dv.take(ri as int), max_depth as int, snap_dv)
                    + sweep_row(snap_dv.take(ei as int), f),
            decreases n_snap - ei,
        {
            let ghost out0 = out.deep_view();
            let e = &snap[ei];
            proof {
                assert(e@ == snap_dv[ei as int]);
                assert(snap_dv.take(ei + 1).drop_last() =~= snap_dv.take(ei as int));
                assert(snap_dv.take(ei + 1).last() == snap_dv[ei as int]);
            }
            if e.is_dir && !str_contains(e.path.as_str(), "/target/") && !str_contains(
                e.path.as_str(),
                "/cleanser/",
            ) && is_cache_path(e.path.as_str()) && in_scope_exec(
                e.path.as_str(),
                root.as_str(),
                max_depth,
            ) {
                let size = dir_size(snap, e.path.as_str());
                if size > 1048576 {
                    proof {
                        lemma_dir_size_le_sum(snap_dv, e@.path);
                    }
                    let name = file_name(e.path.as_str());
                    let desc = "Cache directory: ".to_owned().concat(name.as_str());
                    let item = CleanableItem {
                        path: e.path.clone(),
                        size,
                        category: categorize_cache(e.path.as_str()),
                        risk_level: RiskLevel::Safe,
                        description: desc,
                    };
                    proof {
                        assert(item@.description =~= f(e@)->Some_0.description);
                        assert(item@ == f(e@)->Some_0);
                    }
                    out.push(item);
                    proof {
                        assert(out.deep_view() =~= out0.push(f(e@)->Some_0));
                    }
                }
            }
            proof {
                assert(out.deep_view() =~= cache_findings(
                    roots_dv.take(ri as int),
                    max_depth as int,
                    snap_dv,
                ) + sweep_row(snap_dv.take(ei + 1), f));
            }
            ei = ei + 1;
        }
        proof {
            assert(snap_dv.take(n_snap as int) =~= snap_dv);
            assert(roots_dv.take(ri + 1).drop_last() =~= roots_dv.take(ri as int));
            assert(roots_dv.take(ri + 1).last() == roots_dv[ri as int]);
            assert(out.deep_view() =~= cache_findings(
                roots_dv.take(ri + 1),
                max_depth as int,
                snap_dv,
            ));
        }
        ri = ri + 1;
    }
    proof {
        assert(roots_dv.take(n_roots as int) =~= roots_dv);
    }
    out
}

/// What the build-artifact sweep makes of one entry under one root: a
/// directory the walk reaches, outside the tool's own build output,
/// whose name the table knows, whose guard holds, and which holds
/// strictly more than one MiB.
pub open spec fn artifact_find(e: EntryView, root: Seq<char>, depth: int, snap: Seq<EntryView>) -> Option<
    ItemView,
> {
    let rule_opt = spec_artifact_rule(file_name_of(e.path));
    if e.is_dir && in_scope(e.path, root, depth) && !contains_seq(e.path, "/cleanser/target"@)
        && rule_opt is Some && guard_holds(rule_opt->Some_0.guard, e.path, snap) && dir_size_of(
        snap,
        e.path,
    ) > 1024 * 1024 {
        Some(
            ItemView {
                path: e.path,
                size: dir_size_of(snap, e.path) as u64,
                category: rule_opt->Some_0.category,
                risk_level: rule_opt->Some_0.risk_level,
                description: file_name_of(e.path) + " directory"@,
            },
        )
    } else {
        None
    }
}

/// The build-artifact sweep's findings.
pub open spec fn artifact_findings(roots: Seq<Seq<char>>, depth: int, snap: Seq<EntryView>) -> Seq<
    ItemView,
>
    decreases roots.len(),
{
    if roots.len() == 0 {
        Seq::empty()
    } else {
        artifact_findings(roots.drop_last(), depth, snap) + sweep_row(
            snap,
            |e: EntryView| artifact_find(e, roots.last(), depth, snap),
        )
    }
}

/// Sweeps the snapshot for build artifacts and dependency directories.
pub fn scan_build_artifacts(paths: &Vec<String>, max_depth: usize, snap: &Vec<FsEntry>) -> (r: Vec<
    CleanableItem,
>)
    requires
        wf_snapshot(snap.deep_view()),
    ensures
        r.deep_view() == artifact_findings(paths.deep_view(), max_depth as int, snap.deep_view()),
{
    let ghost roots_dv = paths.deep_view();
    let ghost snap_dv = snap.deep_view();
    let mut out: Vec<CleanableItem> = Vec::new();
    let n_roots = paths.len();
    let n_snap = snap.len();
    let mut ri: usize = 0;
    proof {
        assert(out.deep_view() =~= artifact_findings(roots_dv.take(0), max_depth as int, snap_dv));
    }
    while ri < n_roots
        invariant
            n_roots == paths@.len(),
            n_snap == snap@.len(),
            roots_dv == paths.deep_view(),
            snap_dv == snap.deep_view(),
            wf_snapshot(snap_dv),
            0 <= ri <= n_roots,
            out.deep_view() == artifact_findings(
                roots_dv.take(ri as int),
                max_depth as int,
                snap_dv,
            ),
        decreases n_roots - ri,
    {
        let root = &paths[ri];
        let ghost f = |e: EntryView| artifact_find(
            e,
            roots_dv[ri as int],
            max_depth as int,
            snap_dv,
        );
        proof {
            assert(root@ == roots_dv[ri as int]);
        }
        let mut ei: usize = 0;
        while ei < n_snap
            invariant
                n_snap == snap@.len(),
                snap_dv == snap.deep_view(),
                wf_snapshot(snap_dv),
                0 <= ei <= n_snap,
                root@ == roots_dv[ri as int],
                f == (|e: EntryView| artifact_find(
                    e,
                    roots_dv[ri as int],
                    max_depth as int,
                    snap_dv,
                )),
                out.deep_view() == artifact_findings(
                    roots_dv.take(ri as int),
                    max_depth as int,
                    snap_dv,
                ) + sweep_row(snap_dv.take(ei as int), f),
            decreases n_snap - ei,
        {
            let ghost out0 = out.deep_view();
            let e = &snap[ei];
            proof {
                assert(e@ == snap_dv[ei as int]);
                assert(snap_dv.take(ei + 1).drop_last() =~= snap_dv.take(ei as int));
                assert(snap_dv.take(ei + 1).last() == snap_dv[ei as int]);
            }
            if e.is_dir && !str_contains(e.path.as_str(), "/cleanser/target") && in_scope_exec(
                e.path.as_str(),
                root.as_str(),
                max_depth,
            ) {
                let name = file_name(e.path.as_str());
                match artifact_rule(name.as_str()) {
                    Some(rule) => {
                        if guard_holds_exec(rule.guard, e.path.as_str(), snap) {
                            let size = dir_size(snap, e.path.as_str());
                            if size > 1048576 {
                                proof {
                                    lemma_dir_size_le_sum(snap_dv, e@.path);
                                }
                                let desc = name.concat(" directory");
                                let item = CleanableItem {
                                    path: e.path.clone(),
                                    size,
                                    category: rule.category,
                                    risk_level: rule.risk_level,
                                    description: desc,
                                };
                                proof {
                                    assert(item@.description =~= f(e@)->Some_0.description);
                                    assert(item@ == f(e@)->Some_0);
                                }
                                out.push(item);
                                proof {
                                    assert(out.deep_view() =~= out0.push(f(e@)->Some_0));
                                }
                            }
                        }
                    },
                    None => {},
                }
            }
            proof {
                assert(out.deep_view() =~= artifact_findings(
                    roots_dv.take(ri as int),
                    max_depth as int,
                    snap_dv,
                ) + sweep_row(snap_dv.take(ei + 1), f));
            }
            ei = ei + 1;
        }
        proof {
            assert(snap_dv.take(n_snap as int) =~= snap_dv);
            assert(roots_dv.take(ri + 1).drop_last() =~= roots_dv.take(ri as int));
            assert(roots_dv.take(ri + 1).last() == roots_dv[ri as int]);
            assert(out.deep_view() =~= artifact_findings(
                roots_dv.take(ri + 1),
                max_depth as int,
                snap_dv,
            ));
        }
        ri = ri + 1;
    }
    proof {
        assert(roots_dv.take(n_roots as int) =~= roots_dv);
    }
    out
}

/// What the log sweep makes of one entry under one log root: a regular
/// file within three levels, named like a log, above ten MiB. Files
/// under the platform log root are system logs; the rest application
/// logs.
pub open spec fn log_find(e: EntryView, log_root: Seq<char>) -> Option<ItemView> {
    if !e.is_dir && in_scope(e.path, log_root, 3) && is_suffix_of(".log"@, e.path) && e.size > 10
        * 1024 * 1024 {
        Some(
            ItemView {
                path: e.path,
                size: e.size,
                category: if contains_seq(e.path, "Library/Logs"@) {
                    CleanCategory::SystemLogs
                } else {
                    CleanCategory::AppLogs
                },
                risk_level: RiskLevel::Safe,
                description: "Large log file ("@ + human_size_of(e.size) + ")"@,
            },
        )
    } else {
        None
    }
}

/// The three log roots searched under one configured root.
pub open spec fn log_roots_of(root: Seq<char>) -> Seq<Seq<char>> {
    seq![root + "/Library/Logs"@, root + "/logs"@, root + "/.logs"@]
}

/// The log sweep's findings: for each root, its three log roots in
/// order, the snapshot in order under each.
pub open spec fn log_findings(roots: Seq<Seq<char>>, snap: Seq<EntryView>) -> Seq<ItemView>
    decreases roots.len(),
{
    if roots.len() == 0 {
        Seq::empty()
    } else {
        log_findings(roots.drop_last(), snap) + sweep_row(
            snap,
            |e: EntryView| log_find(e, log_roots_of(roots.last())[0]),
        ) + sweep_row(snap, |e: EntryView| log_find(e, log_roots_of(roots.last())[1]))
            + sweep_row(snap, |e: EntryView| log_find(e, log_roots_of(roots.last())[2]))
    }
}

/// One pass over the snapshot for one log root.
fn scan_one_log_root(log_root: &String, snap: &Vec<FsEntry>, out: &mut Vec<CleanableItem>)
    ensures
        final(out).deep_view() == old(out).deep_view() + sweep_row(
            snap.deep_view(),
            |e: EntryView| log_find(e, log_root@),
        ),
{
    let ghost snap_dv = snap.deep_view();
    let ghost base = old(out).deep_view();
    let ghost f = |e: EntryView| log_find(e, log_root@);
    let n_snap = snap.len();
    let mut ei: usize = 0;
    proof {
        assert(out.deep_view() =~= base + sweep_row(snap_dv.take(0), f));
    }
    while ei < n_snap
        invariant
            n_snap == snap@.len(),
            snap_dv == snap.deep_view(),
            0 <= ei <= n_snap,
            f == (|e: EntryView| log_find(e, log_root@)),
            out.deep_view() == base + sweep_row(snap_dv.take(ei as int), f),
        decreases n_snap - ei,
    {
        let ghost out0 = out.deep_view();
        let e = &snap[ei];
        proof {
            assert(e@ == snap_dv[ei as int]);
            assert(snap_dv.take(ei + 1).drop_last() =~= snap_dv.take(ei as int));
            assert(snap_dv.take(ei + 1).last() == snap_dv[ei as int]);
        }
        if !e.is_dir && e.size > 10485760 && str_ends_with(e.path.as_str(), ".log")
            && in_scope_exec(e.path.as_str(), log_root.as_str(), 3) {
            let category = if str_contains(e.path.as_str(), "Library/Logs") {
                CleanCategory::SystemLogs
            } else {
                CleanCategory::AppLogs
            };
            let desc = "Large log file (".to_owned().concat(
                format_size_binary(e.size).as_str(),
            ).concat(")");
            let item = CleanableItem {
                path: e.path.clone(),
                size: e.size,
                category,
                risk_level: RiskLevel::Safe,
                description: desc,
            };
            proof {
                assert(item@.description =~= f(e@)->Some_0.description);
                assert(item@ == f(e@)->Some_0);
            }
            out.push(item);
            proof {
                assert(out.deep_view() =~= out0.push(f(e@)->Some_0));
            }
        }
        proof {
            assert(out.deep_view() =~= base + sweep_row(snap_dv.take(ei + 1), f));
        }
        ei = ei + 1;
    }
    proof {
        assert(snap_dv.take(n_snap as int) =~= snap_dv);
    }
}

/// Sweeps the log roots under every configured root for oversized log
/// files.
pub fn scan_log_files(paths: &Vec<String>, snap: &Vec<FsEntry>) -> (r: Vec<CleanableItem>)
    ensures
        r.deep_view() == log_findings(paths.deep_view(), snap.deep_view()),
{
    let ghost roots_dv = paths.deep_view();
    let ghost snap_dv = snap.deep_view();
    let mut out: Vec<CleanableItem> = Vec::new();
    let n_roots = paths.len();
    let mut ri: usize = 0;
    proof {
        assert(out.deep_view() =~= log_findings(roots_dv.take(0), snap_dv));
    }
    while ri < n_roots
        invariant
            n_roots == paths@.len(),
            roots_dv == paths.deep_view(),
            snap_dv == snap.deep_view(),
            0 <= ri <= n_roots,
            out.deep_view() == log_findings(roots_dv.take(ri as int), snap_dv),
        decreases n_roots - ri,
    {
        let root = &paths[ri];
        proof {
            assert(root@ == roots_dv[ri as int]);
        }
        let lr1 = root.clone().concat("/Library/Logs");
        let lr2 = root.clone().concat("/logs");
        let lr3 = root.clone().concat("/.logs");
        proof {
            assert(lr1@ == log_roots_of(roots_dv[ri as int])[0]);
            assert(lr2@ == log_roots_of(roots_dv[ri as int])[1]);
            assert(lr3@ == log_roots_of(roots_dv[ri as int])[2]);
        }
        scan_one_log_root(&lr1, snap, &mut out);
        scan_one_log_root(&lr2, snap, &mut out);
        scan_one_log_root(&lr3, snap, &mut out);
        proof {
            assert(roots_dv.take(ri + 1).drop_last() =~= roots_dv.take(ri as int));
            assert(roots_dv.take(ri + 1).last() == roots_dv[ri as int]);
            assert(out.deep_view() =~= log_findings(roots_dv.take(ri + 1), snap_dv));
        }
        ri = ri + 1;
    }
    proof {
        assert(roots_dv.take(n_roots as int) =~= roots_dv);
    }
    out
}

/// Sensitive or system-owned trees the large-file sweep never reports
/// from.
pub open spec fn large_excluded(p: Seq<char>) -> bool {
    contains_seq(p, "Library/Application Support"@) || contains_seq(p, "Library/Mobile Documents"@)
        || contains_seq(p, "Applications"@) || contains_seq(p, "/System"@) || contains_seq(
        p,
        "/Library"@,
    ) || contains_seq(p, "Library/Mail"@)
}

/// A dotfile name blocks the large-file sweep, except the cache-marker
/// name itself.
pub open spec fn hidden_blocked(name: Seq<char>) -> bool {
    name.len() > 0 && name[0] == '.' && name != ".cache"@
}

/// What the large-file sweep makes of one entry under one root: a
/// regular file the walk reaches, outside the deny list, not hidden,
/// at or above the configured floor.
pub open spec fn large_find(e: EntryView, root: Seq<char>, depth: int, min_mb: u64) -> Option<
    ItemView,
> {
    if in_scope(e.path, root, depth) && !large_excluded(e.path) && !hidden_blocked(
        file_name_of(e.path),
    ) && !e.is_dir && e.size >= min_mb * 1024 * 1024 {
        Some(
            ItemView {
                path: e.path,
                size: e.size,
                category: CleanCategory::LargeFiles,
                risk_level: RiskLevel::Risky,
                description: "Large file ("@ + human_size_of(e.size) + ")"@,
            },
        )
    } else {
        None
    }
}

/// The large-file sweep's findings.
pub open spec fn large_findings(
    roots: Seq<Seq<char>>,
    depth: int,
    min_mb: u64,
    snap: Seq<EntryView>,
) -> Seq<ItemView>
    decreases roots.len(),
{
    if roots.len() == 0 {
        Seq::empty()
    } else {
        large_findings(roots.drop_last(), depth, min_mb, snap) + sweep_row(
            snap,
            |e: EntryView| large_find(e, roots.last(), depth, min_mb),
        )
    }
}

/// Sweeps the snapshot for files at or above `min_size_mb` megabytes.
pub fn scan_large_files(
    paths: &Vec<String>,
    max_depth: usize,
    min_size_mb: u64,
    snap: &Vec<FsEntry>,
) -> (r: Vec<CleanableItem>)
    ensures
        r.deep_view() == large_findings(
            paths.deep_view(),
            max_depth as int,
            min_size_mb,
            snap.deep_view(),
        ),
{
    let ghost roots_dv = paths.deep_view();
    let ghost snap_dv = snap.deep_view();
    let mut out: Vec<CleanableItem> = Vec::new();
    let n_roots = paths.len();
    let n_snap = snap.len();
    let mut ri: usize = 0;
    proof {
        assert(out.deep_view() =~= large_findings(
            roots_dv.take(0),
            max_depth as int,
            min_size_mb,
            snap_dv,
        ));
    }
    while ri < n_roots
        invariant
            n_roots == paths@.len(),
            n_snap == snap@.len(),
            roots_dv == paths.deep_view(),
            snap_dv == snap.deep_view(),
            0 <= ri <= n_roots,
            out.deep_view() == large_findings(
                roots_dv.take(ri as int),
                max_depth as int,
                min_size_mb,
                snap_dv,
            ),
        decreases n_roots - ri,
    {
        let root = &paths[ri];
        let ghost f = |e: EntryView| large_find(
            e,
            roots_dv[ri as int],
            max_depth as int,
            min_size_mb,
        );
        proof {
            assert(root@ == roots_dv[ri as int]);
        }
        let mut ei: usize = 0;
        while ei < n_snap
            invariant
                n_snap == snap@.len(),
                snap_dv == snap.deep_view(),
                0 <= ei <= n_snap,
                root@ == roots_dv[ri as int],
                f == (|e: EntryView| large_find(
                    e,
                    roots_dv[ri as int],
                    max_depth as int,
                    min_size_mb,
                )),
                out.deep_view() == large_findings(
                    roots_dv.take(ri as int),
                    max_depth as int,
                    min_size_mb,
                    snap_dv,
                ) + sweep_row(snap_dv.take(ei as int), f),
            decreases n_snap - ei,
        {
            let ghost out0 = out.deep_view();
            let e = &snap[ei];
            proof {
                assert(e@ == snap_dv[ei as int]);
                assert(snap_dv.take(ei + 1).drop_last() =~= snap_dv.take(ei as int));
                assert(snap_dv.take(ei + 1).last() == snap_dv[ei as int]);
            }
            let mut skip = e.is_dir;
            if !skip {
                skip = str_contains(e.path.as_str(), "Library/Application Support")
                    || str_contains(e.path.as_str(), "Library/Mobile Documents") || str_contains(
                    e.path.as_str(),
                    "Applications",
                ) || str_contains(e.path.as_str(), "/System") || str_contains(
                    e.path.as_str(),
                    "/Library",
                ) || str_contains(e.path.as_str(), "Library/Mail");
            }
            if !skip {
                let name = file_name(e.path.as_str());
                if name.as_str().unicode_len() > 0 && name.as_str().get_char(0) == '.' && !str_eq(
                    name.as_str(),
                    ".cache",
                ) {
                    skip = true;
                }
            }
            if !skip && (e.size as u128) >= (min_size_mb as u128) * 1048576 && in_scope_exec(
                e.path.as_str(),
                root.as_str(),
                max_depth,
            ) {
                let desc = "Large file (".to_owned().concat(
                    format_size_binary(e.size).as_str(),
                ).concat(")");
                let item = CleanableItem {
                    path: e.path.clone(),
                    size: e.size,
                    category: CleanCategory::LargeFiles,
                    risk_level: RiskLevel::Risky,
                    description: desc,
                };
                proof {
                    assert(item@.description =~= f(e@)->Some_0.description);
                    assert(item@ == f(e@)->Some_0);
                }
                out.push(item);
                proof {
                    assert(out.deep_view() =~= out0.push(f(e@)->Some_0));
                }
            }
            proof {
                assert(out.deep_view() =~= large_findings(
                    roots_dv.take(ri as int),
                    max_depth as int,
                    min_size_mb,
                    snap_dv,
                ) + sweep_row(snap_dv.take(ei + 1), f));
            }
            ei = ei + 1;
        }
        proof {
            assert(snap_dv.take(n_snap as int) =~= snap_dv);
            assert(roots_dv.take(ri + 1).drop_last() =~= roots_dv.take(ri as int));
            assert(roots_dv.take(ri + 1).last() == roots_dv[ri as int]);
            assert(out.deep_view() =~= large_findings(
                roots_dv.take(ri + 1),
                max_depth as int,
                min_size_mb,
                snap_dv,
            ));
        }
        ri = ri + 1;
    }
    proof {
        assert(roots_dv.take(n_roots as int) =~= roots_dv);
    }
    out
}

/// The depth a speed tier implies when no explicit bound is given:
/// three for Quick, six for Normal, unbounded for Thorough.
pub open spec fn effective_depth(speed: ScanSpeed, explicit: Option<usize>) -> int {
    match explicit {
        Some(d) => d as int,
        None => match speed {
            ScanSpeed::Quick => 3,
            ScanSpeed::Normal => 6,
            ScanSpeed::Thorough => usize::MAX as int,
        },
    }
}

/// The effective traversal depth of a configuration.
pub fn effective_max_depth(config: &ScanConfig) -> (r: usize)
    ensures
        r as int == effective_depth(config.speed, config.max_depth),
{
    match config.max_depth {
        Some(d) => d,
        None => match config.speed {
            ScanSpeed::Quick => 3,
            ScanSpeed::Normal => 6,
            ScanSpeed::Thorough => usize::MAX,
        },
    }
}

/// Byte sum of a sequence of findings.
pub open spec fn sum_sizes(s: Seq<ItemView>) -> int
    decreases s.len(),
{
    if s.len() == 0 {
        0
    } else {
        sum_sizes(s.drop_last()) + s.last().size as int
    }
}

/// Byte sum of the findings, saturating at the largest `u64`.
pub fn total_size_of(items: &Vec<CleanableItem>) -> (r: u64)
    ensures
        r as int == if sum_sizes(items.deep_view()) <= u64::MAX as int {
            sum_sizes(items.deep_view())
        } else {
            u64::MAX as int
        },
{
    let ghost dv = items.deep_view();
    let n = items.len();
    let mut total: u64 = 0;
    let mut i: usize = 0;
    while i < n
        invariant
            n == items@.len(),
            dv == items.deep_view(),
            dv.len() == n,
            0 <= i <= n,
            total as int == if sum_sizes(dv.take(i as int)) <= u64::MAX as int {
                sum_sizes(dv.take(i as int))
            } else {
                u64::MAX as int
            },
        decreases n - i,
    {
        proof {
            assert(dv.take(i + 1).drop_last() =~= dv.take(i as int));
            assert(dv.take(i + 1).last() == dv[i as int]);
            assert(items@[i as int]@ == dv[i as int]);
        }
        total = match total.checked_add(items[i].size) {
            Some(t) => t,
            None => u64::MAX,
        };
        i = i + 1;
    }
    proof {
        assert(dv.take(n as int) =~= dv);
    }
    total
}

/// Everything one scan finds, before consolidation: the five sweeps'
/// findings in stage order, the conditional stages contributing only
/// when enabled.
pub open spec fn all_findings(
    roots: Seq<Seq<char>>,
    depth: int,
    min_mb: u64,
    dups_on: bool,
    snap: Seq<EntryView>,
    hashed: Seq<HashedView>,
) -> Seq<ItemView> {
    cache_findings(roots, depth, snap) + artifact_findings(roots, depth, snap) + log_findings(
        roots,
        snap,
    ) + (if min_mb > 0 {
        large_findings(roots, depth, min_mb, snap)
    } else {
        Seq::empty()
    }) + (if dups_on {
        spec_find_duplicates(hashed)
    } else {
        Seq::empty()
    })
}

/// One full scan over the snapshot: the five sweeps in order, then
/// consolidation, then the total. The caller walks the filesystem into
/// `snap` and hashes the duplicate candidates into `hashed`; when
/// duplicate detection is off, `hashed` is ignored.
pub fn scan(config: ScanConfig, snap: &Vec<FsEntry>, hashed: &Vec<HashedFile>) -> (r: ScanResults)
    requires
        wf_snapshot(snap.deep_view()),
    ensures
        r.scan_speed == config.speed,
        r.items.deep_view() == spec_consolidate(
            all_findings(
                config.paths.deep_view(),
                effective_depth(config.speed, config.max_depth),
                config.min_file_size_mb,
                config.find_duplicates,
                snap.deep_view(),
                hashed.deep_view(),
            ),
        ),
        r.total_size as int == if sum_sizes(r.items.deep_view()) <= u64::MAX as int {
            sum_sizes(r.items.deep_view())
        } else {
            u64::MAX as int
        },
        no_nested_paths(r.items.deep_view()),
{
    let max_depth = effective_max_depth(&config);
    let mut items = scan_cache_directories(&config.paths, max_depth, snap);
    let ghost c1 = items.deep_view();
    let mut arts = scan_build_artifacts(&config.paths, max_depth, snap);
    let ghost c2 = arts.deep_view();
    items.append(&mut arts);
    let mut logs = scan_log_files(&config.paths, snap);
    let ghost c3 = logs.deep_view();
    items.append(&mut logs);
    if config.min_file_size_mb > 0 {
        let mut large = scan_large_files(
            &config.paths,
            max_depth,
            config.min_file_size_mb,
            snap,
        );
        items.append(&mut large);
    }
    if config.find_duplicates {
        let mut dups = find_duplicates(hashed);
        items.append(&mut dups);
    }
    proof {
        assert(items.deep_view() =~= all_findings(
            config.paths.deep_view(),
            effective_depth(config.speed, config.max_depth),
            config.min_file_size_mb,
            config.find_duplicates,
            snap.deep_view(),
            hashed.deep_view(),
        ));
    }
    let items = deduplicate_nested_paths(items);
    let total_size = total_size_of(&items);
    ScanResults { items, total_size, scan_speed: config.speed }
}

} // verus!
