//! The consolidator: drops findings nested inside other findings, so a
//! directory and its contents are never counted twice. Findings are
//! first stable-sorted by path length — a parent's path is always
//! shorter than a child's — and then kept only when no already-kept
//! finding sits above them.

use vstd::prelude::*;
use vstd::string::StrSliceExecFns;

use crate::paths::{is_strict_descendant, is_strict_descendant_of};
use crate::types::{CleanableItem, ItemView};

verus! {

/// No finding's path lies strictly inside another finding's path.
pub open spec fn no_nested_paths(s: Seq<ItemView>) -> bool {
    forall|i: int, j: int|
        0 <= i < s.len() && 0 <= j < s.len() && i != j ==> !is_strict_descendant_of(
            #[trigger] s[i].path,
            #[trigger] s[j].path,
        )
}

/// Path lengths never decrease along the sequence.
pub open spec fn sorted_by_path_len(s: Seq<ItemView>) -> bool {
    forall|i: int, j: int|
        0 <= i <= j < s.len() ==> (#[trigger] s[i].path.len()) <= (#[trigger] s[j].path.len())
}

/// Insertion into a length-sorted sequence, after every element of the
/// same length: the insertion step of a stable sort.
pub open spec fn insert_by_path_len(s: Seq<ItemView>, x: ItemView) -> Seq<ItemView>
    decreases s.len(),
{
    if s.len() == 0 {
        seq![x]
    } else if x.path.len() < s.last().path.len() {
        insert_by_path_len(s.drop_last(), x).push(s.last())
    } else {
        s.push(x)
    }
}

/// Stable sort by path length, shortest first.
pub open spec fn sort_by_path_len(s: Seq<ItemView>) -> Seq<ItemView>
    decreases s.len(),
{
    if s.len() == 0 {
        Seq::empty()
    } else {
        insert_by_path_len(sort_by_path_len(s.drop_last()), s.last())
    }
}

/// Some already-kept finding sits strictly above `x`.
pub open spec fn is_covered(x: ItemView, kept: Seq<ItemView>) -> bool {
    exists|k: int| 0 <= k < kept.len() && is_strict_descendant_of(x.path, #[trigger] kept[k].path)
}

/// The filtering pass over `rest`, with `kept` already decided: each
/// finding survives only when nothing kept before it covers it.
pub open spec fn dedup_from(kept: Seq<ItemView>, rest: Seq<ItemView>) -> Seq<ItemView>
    decreases rest.len(),
{
    if rest.len() == 0 {
        kept
    } else {
        dedup_from(
            if is_covered(rest.first(), kept) {
                kept
            } else {
                kept.push(rest.first())
            },
            rest.drop_first(),
        )
    }
}

/// What consolidation returns: the findings sorted by path length,
/// then filtered of everything nested inside a kept finding.
pub open spec fn spec_consolidate(items: Seq<ItemView>) -> Seq<ItemView> {
    dedup_from(Seq::empty(), sort_by_path_len(items))
}

proof fn lemma_insert_sorted(s: Seq<ItemView>, x: ItemView)
    requires
        sorted_by_path_len(s),
    ensures
        sorted_by_path_len(insert_by_path_len(s, x)),
        insert_by_path_len(s, x).len() == s.len() + 1,
        insert_by_path_len(s, x).last() == x || (s.len() > 0 && insert_by_path_len(s, x).last()
            == s.last()),
    decreases s.len(),
{
    if s.len() == 0 {
    } else if x.path.len() < s.last().path.len() {
        assert(sorted_by_path_len(s.drop_last())) by {
            assert(forall|i: int| 0 <= i < s.len() - 1 ==> s.drop_last()[i] == s[i]);
        }
        lemma_insert_sorted(s.drop_last(), x);
        let r = insert_by_path_len(s.drop_last(), x).push(s.last());
        assert forall|i: int, j: int| 0 <= i <= j < r.len() implies (#[trigger] r[i].path.len())
            <= (#[trigger] r[j].path.len()) by {
            let t = insert_by_path_len(s.drop_last(), x);
            if j < r.len() - 1 {
                assert(r[i] == t[i] && r[j] == t[j]);
            } else {
                if i < r.len() - 1 {
                    assert(t[i].path.len() <= t[t.len() - 1].path.len());
                    assert(t.last() == x || (s.drop_last().len() > 0 && t.last()
                        == s.drop_last().last()));
                    assert(s.drop_last().len() > 0 ==> s.drop_last().last().path.len()
                        <= s.last().path.len()) by {
                        if s.len() >= 2 {
                            assert(s.drop_last()[s.len() - 2] == s[s.len() - 2]);
                        }
                    }
                }
            }
        }
    }
}

proof fn lemma_sort_sorted(s: Seq<ItemView>)
    ensures
        sorted_by_path_len(sort_by_path_len(s)),
        sort_by_path_len(s).len() == s.len(),
    decreases s.len(),
{
    if s.len() > 0 {
        lemma_sort_sorted(s.drop_last());
        lemma_insert_sorted(sort_by_path_len(s.drop_last()), s.last());
    }
}

proof fn lemma_insert_at(s: Seq<ItemView>, x: ItemView, j: int)
    requires
        0 <= j <= s.len(),
        forall|k: int| j <= k < s.len() ==> (#[trigger] s[k].path.len()) > x.path.len(),
        j > 0 ==> s[j - 1].path.len() <= x.path.len(),
    ensures
        insert_by_path_len(s, x) == s.insert(j, x),
    decreases s.len(),
{
    if s.len() == 0 {
        assert(insert_by_path_len(s, x) =~= s.insert(0, x));
    } else if j == s.len() {
        assert(insert_by_path_len(s, x) =~= s.insert(j, x));
    } else {
        assert(s.last().path.len() > x.path.len());
        assert(forall|k: int|
            j <= k < s.len() - 1 ==> (#[trigger] s.drop_last()[k].path.len()) > x.path.len()) by {
            assert(forall|k: int| 0 <= k < s.len() - 1 ==> s.drop_last()[k] == s[k]);
        }
        assert(j > 0 ==> s.drop_last()[j - 1].path.len() <= x.path.len());
        lemma_insert_at(s.drop_last(), x, j);
        assert(insert_by_path_len(s.drop_last(), x).push(s.last()) =~= s.insert(j, x));
    }
}

/// A filter pass that starts from compatible state keeps the kept
/// sequence sorted and free of nesting.
proof fn lemma_dedup_props(kept: Seq<ItemView>, rest: Seq<ItemView>)
    requires
        sorted_by_path_len(kept),
        no_nested_paths(kept),
        sorted_by_path_len(rest),
        forall|k: int, j: int|
            0 <= k < kept.len() && 0 <= j < rest.len() ==> (#[trigger] kept[k].path.len()) <= (
            #[trigger] rest[j].path.len()),
    ensures
        sorted_by_path_len(dedup_from(kept, rest)),
        no_nested_paths(dedup_from(kept, rest)),
    decreases rest.len(),
{
    if rest.len() > 0 {
        let x = rest.first();
        let rest1 = rest.drop_first();
        assert(forall|j: int| 0 <= j < rest1.len() ==> rest1[j] == rest[j + 1]);
        if is_covered(x, kept) {
            lemma_dedup_props(kept, rest1);
        } else {
            let kept1 = kept.push(x);
            assert(sorted_by_path_len(kept1)) by {
                assert(forall|k: int| 0 <= k < kept.len() ==> kept1[k] == kept[k]);
                assert(kept1[kept.len() as int] == x);
                assert(forall|k: int|
                    0 <= k < kept.len() ==> (#[trigger] kept[k].path.len()) <= x.path.len());
            }
            assert(no_nested_paths(kept1)) by {
                assert(forall|k: int| 0 <= k < kept.len() ==> kept1[k] == kept[k]);
                assert forall|k: int| 0 <= k < kept.len() implies !is_strict_descendant_of(
                    kept[k].path,
                    x.path,
                ) by {
                    assert(kept[k].path.len() <= x.path.len());
                }
                assert forall|k: int| 0 <= k < kept.len() implies !is_strict_descendant_of(
                    x.path,
                    kept[k].path,
                ) by {
                    assert(!is_covered(x, kept));
                }
            }
            lemma_dedup_props(kept1, rest1);
        }
    }
}

/// Sorting a sequence that is already sorted by path length leaves it
/// unchanged: stability.
proof fn lemma_sort_identity(s: Seq<ItemView>)
    requires
        sorted_by_path_len(s),
    ensures
        sort_by_path_len(s) == s,
    decreases s.len(),
{
    if s.len() > 0 {
        assert(sorted_by_path_len(s.drop_last())) by {
            assert(forall|i: int| 0 <= i < s.len() - 1 ==> s.drop_last()[i] == s[i]);
        }
        lemma_sort_identity(s.drop_last());
        if s.len() >= 2 {
            assert(s.drop_last().last() == s[s.len() - 2]);
            assert(s[s.len() - 2].path.len() <= s.last().path.len());
        }
        assert(insert_by_path_len(s.drop_last(), s.last()) =~= s);
    }
}

/// Filtering a sequence in which nothing is nested keeps everything.
proof fn lemma_dedup_identity(s: Seq<ItemView>, i: int)
    requires
        no_nested_paths(s),
        0 <= i <= s.len(),
    ensures
        dedup_from(s.take(i), s.skip(i)) == s,
    decreases s.len() - i,
{
    if i == s.len() {
        assert(s.skip(i).len() == 0);
        assert(s.take(i) =~= s);
    } else {
        let x = s.skip(i).first();
        assert(x == s[i]);
        assert(!is_covered(x, s.take(i))) by {
            assert forall|k: int| 0 <= k < i implies !is_strict_descendant_of(
                x.path,
                s.take(i)[k].path,
            ) by {
                assert(s.take(i)[k] == s[k]);
            }
        }
        assert(s.take(i).push(x) =~= s.take(i + 1));
        assert(s.skip(i).drop_first() =~= s.skip(i + 1));
        lemma_dedup_identity(s, i + 1);
    }
}

/// Consolidated output is sorted by path length and free of nesting:
/// no finding is a descendant of another.
pub proof fn lemma_consolidate_props(items: Seq<ItemView>)
    ensures
        sorted_by_path_len(spec_consolidate(items)),
        no_nested_paths(spec_consolidate(items)),
{
    lemma_sort_sorted(items);
    lemma_dedup_props(Seq::empty(), sort_by_path_len(items));
}

/// Consolidation is idempotent: run on its own output it changes
/// nothing, because that output is already sorted and nesting-free.
pub proof fn lemma_consolidate_idempotent(items: Seq<ItemView>)
    ensures
        spec_consolidate(spec_consolidate(items)) == spec_consolidate(items),
{
    lemma_consolidate_props(items);
    let r = spec_consolidate(items);
    lemma_sort_identity(r);
    assert(r.take(0) =~= Seq::<ItemView>::empty());
    assert(r.skip(0) =~= r);
    lemma_dedup_identity(r, 0);
}

/// Decides whether some kept finding sits strictly above `x`.
fn is_covered_exec(x: &CleanableItem, kept: &Vec<CleanableItem>) -> (r: bool)
    ensures
        r == is_covered(x@, kept.deep_view()),
{
    let ghost dv = kept.deep_view();
    let n = kept.len();
    let mut k: usize = 0;
    while k < n
        invariant
            n == kept@.len(),
            dv == kept.deep_view(),
            dv.len() == n,
            0 <= k <= n,
            forall|j: int|
                0 <= j < k ==> !is_strict_descendant_of(x@.path, #[trigger] dv[j].path),
        decreases n - k,
    {
        proof {
            assert(kept@[k as int]@ == dv[k as int]);
        }
        if is_strict_descendant(x.path.as_str(), kept[k].path.as_str()) {
            proof {
                assert(is_strict_descendant_of(x@.path, dv[k as int].path));
            }
            return true;
        }
        k = k + 1;
    }
    false
}

/// Stable sort of the findings by path length, shortest first.
fn sort_items_by_path_len(items: Vec<CleanableItem>) -> (r: Vec<CleanableItem>)
    ensures
        r.deep_view() == sort_by_path_len(items.deep_view()),
{
    let ghost orig = items.deep_view();
    let mut rest = items;
    let mut out: Vec<CleanableItem> = Vec::new();
    let ghost mut i: int = 0;
    proof {
        assert(rest.deep_view() =~= orig.skip(0));
        assert(out.deep_view() =~= sort_by_path_len(orig.take(0)));
    }
    while rest.len() > 0
        invariant
            0 <= i <= orig.len(),
            rest.deep_view() =~= orig.skip(i),
            out.deep_view() == sort_by_path_len(orig.take(i)),
            sorted_by_path_len(out.deep_view()),
        decreases rest@.len(),
    {
        let ghost rest0 = rest.deep_view();
        let ghost out0 = out.deep_view();
        let x = rest.remove(0);
        proof {
            assert(x@ == rest0.first());
            assert(rest.deep_view() =~= rest0.drop_first());
            assert(rest.deep_view() =~= orig.skip(i + 1));
            assert(x@ == orig[i]);
        }
        let x_len = x.path.as_str().unicode_len();
        let mut j: usize = out.len();
        while j > 0 && out[j - 1].path.as_str().unicode_len() > x_len
            invariant
                0 <= j <= out@.len(),
                out.deep_view() == out0,
                out0.len() == out@.len(),
                x_len == x@.path.len(),
                sorted_by_path_len(out0),
                forall|k: int| j <= k < out0.len() ==> (#[trigger] out0[k].path.len()) > x@.path.len(),
            decreases j,
        {
            proof {
                assert(out@[j - 1]@ == out0[j - 1]);
            }
            j = j - 1;
        }
        proof {
            assert(j > 0 ==> out@[j - 1]@ == out0[j - 1]);
            lemma_insert_at(out0, x@, j as int);
            lemma_insert_sorted(out0, x@);
            assert(orig.take(i + 1).drop_last() =~= orig.take(i));
            assert(orig.take(i + 1).last() == orig[i]);
        }
        out.insert(j, x);
        proof {
            assert(out.deep_view() =~= out0.insert(j as int, x@));
            i = i + 1;
        }
    }
    proof {
        assert(orig.take(i) =~= orig);
    }
    out
}

/// Sorts the findings by path length and keeps each one only if its
/// path is not a strict descendant of an already-kept finding's path,
/// so the output never holds both a directory and something inside it.
pub fn deduplicate_nested_paths(items: Vec<CleanableItem>) -> (r: Vec<CleanableItem>)
    ensures
        r.deep_view() == spec_consolidate(items.deep_view()),
        sorted_by_path_len(r.deep_view()),
        no_nested_paths(r.deep_view()),
{
    let ghost orig = items.deep_view();
    let mut rest = sort_items_by_path_len(items);
    let mut kept: Vec<CleanableItem> = Vec::new();
    proof {
        assert(kept.deep_view() =~= Seq::<ItemView>::empty());
    }
    while rest.len() > 0
        invariant
            dedup_from(kept.deep_view(), rest.deep_view()) == spec_consolidate(orig),
        decreases rest@.len(),
    {
        let ghost rest0 = rest.deep_view();
        let ghost kept0 = kept.deep_view();
        let x = rest.remove(0);
        proof {
            assert(x@ == rest0.first());
            assert(rest.deep_view() =~= rest0.drop_first());
        }
        if !is_covered_exec(&x, &kept) {
            kept.push(x);
            proof {
                assert(kept.deep_view() =~= kept0.push(x@));
            }
        }
    }
    proof {
        lemma_consolidate_props(orig);
    }
    kept
}

} // verus!
