//! The filesystem snapshot that the scan engine works on: one entry per
//! path met by a recursive walk of the configured roots, with its kind
//! and, for regular files, its byte size. Entries whose metadata could
//! not be read are simply absent; the sweeps never see them.

use vstd::prelude::*;
use vstd::string::StrSliceExecFns;

use crate::paths::{
    count_char, count_char_exec, is_strict_descendant, is_strict_descendant_of, str_eq,
};

verus! {

/// One entry of a filesystem walk.
#[derive(Clone, Debug)]
pub struct FsEntry {
    pub path: String,
    pub is_dir: bool,
    pub size: u64,
}

/// The mathematical value of a walk entry.
pub ghost struct EntryView {
    pub path: Seq<char>,
    pub is_dir: bool,
    pub size: u64,
}

impl View for FsEntry {
    type V = EntryView;

    open spec fn view(&self) -> EntryView {
        EntryView { path: self.path@, is_dir: self.is_dir, size: self.size }
    }
}

impl DeepView for FsEntry {
    type V = EntryView;

    open spec fn deep_view(&self) -> EntryView {
        self.view()
    }
}

/// What one entry contributes to the recursive byte sum of the
/// directory at `p`: its size if it is a regular file strictly below
/// `p`, else nothing.
pub open spec fn size_under(e: EntryView, p: Seq<char>) -> int {
    if !e.is_dir && is_strict_descendant_of(e.path, p) {
        e.size as int
    } else {
        0
    }
}

/// Sum of the sizes of all regular files in the snapshot.
pub open spec fn sum_file_sizes(s: Seq<EntryView>) -> int
    decreases s.len(),
{
    if s.len() == 0 {
        0
    } else {
        sum_file_sizes(s.drop_last()) + if s.last().is_dir {
            0int
        } else {
            s.last().size as int
        }
    }
}

/// Recursive byte sum of the subtree rooted at `p`.
pub open spec fn dir_size_of(s: Seq<EntryView>, p: Seq<char>) -> int
    decreases s.len(),
{
    if s.len() == 0 {
        0
    } else {
        dir_size_of(s.drop_last(), p) + size_under(s.last(), p)
    }
}

/// A snapshot the engine can sum over without overflow: a machine
/// limit, not a scan rule — no real filesystem holds more bytes than a
/// `u64` counts.
pub open spec fn wf_snapshot(s: Seq<EntryView>) -> bool {
    sum_file_sizes(s) <= u64::MAX
}

pub proof fn lemma_dir_size_le_sum(s: Seq<EntryView>, p: Seq<char>)
    ensures
        0 <= dir_size_of(s, p) <= sum_file_sizes(s),
    decreases s.len(),
{
    if s.len() > 0 {
        lemma_dir_size_le_sum(s.drop_last(), p);
    }
}

pub proof fn lemma_sum_take_le(s: Seq<EntryView>, i: int)
    requires
        0 <= i <= s.len(),
    ensures
        sum_file_sizes(s.take(i)) <= sum_file_sizes(s),
    decreases s.len(),
{
    if i == s.len() {
        assert(s.take(i) =~= s);
    } else if s.len() > 0 {
        assert(s.drop_last().take(i) =~= s.take(i));
        lemma_sum_take_le(s.drop_last(), i);
    }
}

/// Recursive byte sum of the subtree rooted at `path`, read off the
/// snapshot: the sizes of all regular files strictly below `path`.
pub fn dir_size(snap: &Vec<FsEntry>, path: &str) -> (r: u64)
    requires
        wf_snapshot(snap.deep_view()),
    ensures
        r == dir_size_of(snap.deep_view(), path@),
{
    let ghost dv = snap.deep_view();
    let n = snap.len();
    let mut total: u64 = 0;
    let mut i: usize = 0;
    while i < n
        invariant
            n == snap@.len(),
            dv == snap.deep_view(),
            dv.len() == n,
            0 <= i <= n,
            wf_snapshot(dv),
            total == dir_size_of(dv.take(i as int), path@),
        decreases n - i,
    {
        proof {
            assert(dv.take(i + 1).drop_last() =~= dv.take(i as int));
            assert(dv.take(i + 1).last() == dv[i as int]);
            lemma_dir_size_le_sum(dv.take(i + 1), path@);
            lemma_sum_take_le(dv, i + 1);
        }
        let e = &snap[i];
        proof {
            assert(e@ == dv[i as int]);
        }
        if !e.is_dir && is_strict_descendant(e.path.as_str(), path) {
            total = total + e.size;
        }
        i = i + 1;
    }
    proof {
        assert(dv.take(n as int) =~= dv);
    }
    total
}

/// The walk of `root` visits `p` when it bounds its depth to
/// `max_depth`: `p` is the root itself, or lies below it with at most
/// `max_depth` further components.
pub open spec fn in_scope(p: Seq<char>, root: Seq<char>, max_depth: int) -> bool {
    p == root || (is_strict_descendant_of(p, root) && count_char(
        p.subrange(root.len() as int, p.len() as int),
        '/',
    ) <= max_depth)
}

/// Decides whether the depth-bounded walk of `root` visits `p`.
pub fn in_scope_exec(p: &str, root: &str, max_depth: usize) -> (r: bool)
    ensures
        r == in_scope(p@, root@, max_depth as int),
{
    if str_eq(p, root) {
        return true;
    }
    if !is_strict_descendant(p, root) {
        return false;
    }
    let p_len = p.unicode_len();
    let r_len = root.unicode_len();
    let suffix = p.substring_char(r_len, p_len);
    let depth = count_char_exec(suffix, '/');
    depth <= max_depth
}

} // verus!
