//! The deletion filter: which findings a clean pass at a given risk
//! ceiling may touch. The deletion itself is the caller's collaborator;
//! the filter only ever narrows the set.

use vstd::prelude::*;

use crate::types::{CleanableItem, ItemView, RiskLevel};

verus! {

/// A finding may be cleaned when its risk does not exceed the ceiling.
pub open spec fn risk_passes(it: ItemView, max_risk: RiskLevel) -> bool {
    it.risk_level.rank() <= max_risk.rank()
}

/// The deletion candidates: exactly the findings at or below the
/// ceiling, in their original order.
pub open spec fn spec_filter_by_risk(items: Seq<ItemView>, max_risk: RiskLevel) -> Seq<ItemView>
    decreases items.len(),
{
    if items.len() == 0 {
        Seq::empty()
    } else {
        spec_filter_by_risk(items.drop_last(), max_risk) + if risk_passes(items.last(), max_risk) {
            seq![items.last()]
        } else {
            Seq::empty()
        }
    }
}

/// Selects the findings at or below the risk ceiling.
pub fn filter_by_risk<'a>(items: &'a Vec<CleanableItem>, max_risk: RiskLevel) -> (r: Vec<
    &'a CleanableItem,
>)
    ensures
        r.deep_view() == spec_filter_by_risk(items.deep_view(), max_risk),
{
    let ghost dv = items.deep_view();
    let n = items.len();
    let mut out: Vec<&'a CleanableItem> = Vec::new();
    let mut i: usize = 0;
    proof {
        assert(out.deep_view() =~= spec_filter_by_risk(dv.take(0), max_risk));
    }
    while i < n
        invariant
            n == items@.len(),
            dv == items.deep_view(),
            dv.len() == n,
            0 <= i <= n,
            out.deep_view() == spec_filter_by_risk(dv.take(i as int), max_risk),
        decreases n - i,
    {
        let ghost out0 = out.deep_view();
        proof {
            assert(items@[i as int]@ == dv[i as int]);
            assert(dv.take(i + 1).drop_last() =~= dv.take(i as int));
            assert(dv.take(i + 1).last() == dv[i as int]);
        }
        let it = &items[i];
        if it.risk_level.le(&max_risk) {
            out.push(it);
            proof {
                assert(out.deep_view() =~= out0.push(dv[i as int]));
            }
        }
        proof {
            assert(out.deep_view() =~= spec_filter_by_risk(dv.take(i + 1), max_risk));
        }
        i = i + 1;
    }
    proof {
        assert(dv.take(n as int) =~= dv);
    }
    out
}

/// The findings at exactly one risk level, in their original order:
/// the grouping that risk-tiered reporting reads.
pub open spec fn spec_items_with_risk(items: Seq<ItemView>, risk: RiskLevel) -> Seq<ItemView>
    decreases items.len(),
{
    if items.len() == 0 {
        Seq::empty()
    } else {
        spec_items_with_risk(items.drop_last(), risk) + if items.last().risk_level == risk {
            seq![items.last()]
        } else {
            Seq::empty()
        }
    }
}

/// Selects the findings at exactly one risk level.
pub fn items_with_risk<'a>(items: &'a Vec<CleanableItem>, risk: RiskLevel) -> (r: Vec<
    &'a CleanableItem,
>)
    ensures
        r.deep_view() == spec_items_with_risk(items.deep_view(), risk),
{
    let ghost dv = items.deep_view();
    let n = items.len();
    let mut out: Vec<&'a CleanableItem> = Vec::new();
    let mut i: usize = 0;
    proof {
        assert(out.deep_view() =~= spec_items_with_risk(dv.take(0), risk));
    }
    while i < n
        invariant
            n == items@.len(),
            dv == items.deep_view(),
            dv.len() == n,
            0 <= i <= n,
            out.deep_view() == spec_items_with_risk(dv.take(i as int), risk),
        decreases n - i,
    {
        let ghost out0 = out.deep_view();
        proof {
            assert(items@[i as int]@ == dv[i as int]);
            assert(dv.take(i + 1).drop_last() =~= dv.take(i as int));
            assert(dv.take(i + 1).last() == dv[i as int]);
        }
        let it = &items[i];
        if it.risk_level == risk {
            out.push(it);
            proof {
                assert(out.deep_view() =~= out0.push(dv[i as int]));
            }
        }
        proof {
            assert(out.deep_view() =~= spec_items_with_risk(dv.take(i + 1), risk));
        }
        i = i + 1;
    }
    proof {
        assert(dv.take(n as int) =~= dv);
    }
    out
}

/// The filter respects the risk order: nothing above the ceiling is
/// ever selected, and the Risky ceiling selects everything.
pub proof fn lemma_risk_filter(items: Seq<ItemView>, max_risk: RiskLevel)
    ensures
        forall|i: int|
            0 <= i < spec_filter_by_risk(items, max_risk).len() ==> risk_passes(
                #[trigger] spec_filter_by_risk(items, max_risk)[i],
                max_risk,
            ),
        max_risk == RiskLevel::Risky ==> spec_filter_by_risk(items, max_risk) == items,
    decreases items.len(),
{
    if items.len() > 0 {
        lemma_risk_filter(items.drop_last(), max_risk);
        let f = spec_filter_by_risk(items, max_risk);
        let fd = spec_filter_by_risk(items.drop_last(), max_risk);
        assert forall|i: int| 0 <= i < f.len() implies risk_passes(#[trigger] f[i], max_risk) by {
            if i < fd.len() {
                assert(f[i] == fd[i]);
            } else {
                assert(risk_passes(items.last(), max_risk));
                assert(f[i] == items.last());
            }
        }
        if max_risk == RiskLevel::Risky {
            assert(risk_passes(items.last(), max_risk));
            assert(spec_filter_by_risk(items, max_risk) =~= items);
        }
    }
}

} // verus!
