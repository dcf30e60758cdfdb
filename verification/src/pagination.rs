//! Merging of paginated fetches.
//!
//! The value history arrives in pages that may be fetched independently and
//! complete in any order. The merge concatenates the pages' records in
//! ascending page order, so the result depends only on which pages arrived,
//! never on the order in which they completed
//! ([`lemma_merge_completion_order_independent`]).

use vstd::prelude::*;
use crate::fund_value_model::FundValueData;

verus! {

/// Each page number occurs at most once.
pub open spec fn distinct_pages(pages: Seq<(u64, Seq<FundValueData>)>) -> bool {
    forall|i: int, j: int|
        0 <= i < j < pages.len() ==> (#[trigger] pages[i]).0 != (#[trigger] pages[j]).0
}

/// The first position of the smallest page number.
pub open spec fn min_idx(pages: Seq<(u64, Seq<FundValueData>)>) -> int
    decreases pages.len(),
{
    if pages.len() <= 1 {
        0
    } else {
        let m = min_idx(pages.drop_last());
        if pages[m].0 <= pages.last().0 {
            m
        } else {
            pages.len() - 1
        }
    }
}

pub proof fn lemma_min_idx(pages: Seq<(u64, Seq<FundValueData>)>)
    requires
        pages.len() > 0,
    ensures
        0 <= min_idx(pages) < pages.len(),
        forall|j: int| 0 <= j < pages.len() ==> pages[min_idx(pages)].0 <= (#[trigger] pages[j]).0,
        forall|j: int| 0 <= j < min_idx(pages) ==> pages[min_idx(pages)].0 < (#[trigger] pages[j]).0,
    decreases pages.len(),
{
    if pages.len() > 1 {
        let dl = pages.drop_last();
        let m0 = min_idx(dl);
        lemma_min_idx(dl);
        assert(forall|j: int| 0 <= j < pages.len() - 1 ==> pages[j] == (#[trigger] dl[j]));
        if pages[m0].0 <= pages.last().0 {
            assert(min_idx(pages) == m0);
            assert forall|j: int| 0 <= j < pages.len() implies pages[m0].0 <= (
            #[trigger] pages[j]).0 by {
                if j < pages.len() - 1 {
                    assert(pages[j] == dl[j]);
                    assert(dl[m0].0 <= dl[j].0);
                }
            }
            assert forall|j: int| 0 <= j < m0 implies pages[m0].0 < (#[trigger] pages[j]).0 by {
                assert(pages[j] == dl[j]);
                assert(dl[m0].0 < dl[j].0);
            }
        } else {
            let m = pages.len() - 1;
            assert(min_idx(pages) == m);
            assert forall|j: int| 0 <= j < pages.len() implies pages[m].0 <= (
            #[trigger] pages[j]).0 by {
                if j < m {
                    assert(pages[j] == dl[j]);
                    assert(dl[m0].0 <= dl[j].0);
                }
            }
            assert forall|j: int| 0 <= j < m implies pages[m].0 < (#[trigger] pages[j]).0 by {
                assert(pages[j] == dl[j]);
                assert(dl[m0].0 <= dl[j].0);
            }
        }
    }
}

/// The records of the pages, concatenated in ascending page order.
pub open spec fn spec_merge(pages: Seq<(u64, Seq<FundValueData>)>) -> Seq<FundValueData>
    decreases pages.len(),
{
    if pages.len() == 0 {
        Seq::empty()
    } else {
        let m = min_idx(pages);
        if 0 <= m < pages.len() {
            pages[m].1 + spec_merge(pages.remove(m))
        } else {
            Seq::empty()
        }
    }
}

/// The merge is independent of completion order: two arrival sequences that
/// carry the same pages — as a multiset, with no page number repeated —
/// merge to the same record sequence.
pub proof fn lemma_merge_completion_order_independent(
    p1: Seq<(u64, Seq<FundValueData>)>,
    p2: Seq<(u64, Seq<FundValueData>)>,
)
    requires
        p1.to_multiset() == p2.to_multiset(),
        distinct_pages(p1),
        distinct_pages(p2),
    ensures
        spec_merge(p1) == spec_merge(p2),
    decreases p1.len(),
{
    broadcast use vstd::seq_lib::group_to_multiset_ensures;

    assert(p1.len() == p1.to_multiset().len());
    assert(p2.len() == p2.to_multiset().len());
    if p1.len() == 0 {
    } else {
        lemma_min_idx(p1);
        lemma_min_idx(p2);
        let m1 = min_idx(p1);
        let m2 = min_idx(p2);
        let e1 = p1[m1];
        let e2 = p2[m2];
        // the two minima are the same pair
        assert(p1.contains(e1));
        assert(p1.to_multiset().count(e1) > 0);
        assert(p2.contains(e1));
        let j1 = choose|j: int| 0 <= j < p2.len() && p2[j] == e1;
        assert(p2.contains(e2));
        assert(p2.to_multiset().count(e2) > 0);
        assert(p1.to_multiset().count(e2) > 0);
        assert(p1.contains(e2));
        let k1 = choose|k: int| 0 <= k < p1.len() && p1[k] == e2;
        assert(e1.0 <= p1[k1].0);
        assert(e2.0 <= p2[j1].0);
        assert(e1.0 == e2.0);
        if j1 != m2 {
            assert(p2[j1].0 != p2[m2].0);
            assert(false);
        }
        assert(e1 == e2);
        // the remainders still carry the same pages
        let r1 = p1.remove(m1);
        let r2 = p2.remove(m2);
        assert(r1.to_multiset() =~= p1.to_multiset().remove(e1));
        assert(r2.to_multiset() =~= p2.to_multiset().remove(e2));
        assert(r1.to_multiset() == r2.to_multiset());
        assert(distinct_pages(r1)) by {
            assert forall|i: int, j: int| 0 <= i < j < r1.len() implies (#[trigger] r1[i]).0 != (
            #[trigger] r1[j]).0 by {
                let i0 = if i < m1 {
                    i
                } else {
                    i + 1
                };
                let j0 = if j < m1 {
                    j
                } else {
                    j + 1
                };
                assert(r1[i] == p1[i0]);
                assert(r1[j] == p1[j0]);
            }
        }
        assert(distinct_pages(r2)) by {
            assert forall|i: int, j: int| 0 <= i < j < r2.len() implies (#[trigger] r2[i]).0 != (
            #[trigger] r2[j]).0 by {
                let i0 = if i < m2 {
                    i
                } else {
                    i + 1
                };
                let j0 = if j < m2 {
                    j
                } else {
                    j + 1
                };
                assert(r2[i] == p2[i0]);
                assert(r2[j] == p2[j0]);
            }
        }
        lemma_merge_completion_order_independent(r1, r2);
    }
}

/// The denotation of collected pages.
pub open spec fn pages_view(pages: Seq<(u64, Vec<FundValueData>)>) -> Seq<
    (u64, Seq<FundValueData>),
> {
    pages.map(|i: int, p: (u64, Vec<FundValueData>)| (p.0, p.1@))
}

/// Concatenates fetched pages' records in ascending page order, whatever
/// order the fetches completed in.
pub fn merge_pages(pages: Vec<(u64, Vec<FundValueData>)>) -> (r: Vec<FundValueData>)
    ensures
        r@ == spec_merge(pages_view(pages@)),
{
    let mut remaining = pages;
    let mut out: Vec<FundValueData> = Vec::new();
    proof {
        assert(out@ + spec_merge(pages_view(remaining@)) =~= spec_merge(pages_view(remaining@)));
    }
    while remaining.len() > 0
        invariant
            out@ + spec_merge(pages_view(remaining@)) == spec_merge(pages_view(pages@)),
        decreases remaining@.len(),
    {
        let ghost rview = pages_view(remaining@);
        let n = remaining.len();
        // find the first position of the smallest page number
        let mut m: usize = 0;
        let mut i: usize = 1;
        while i < n
            invariant
                0 <= m < i <= n,
                n == remaining@.len(),
                forall|j: int| 0 <= j < i ==> remaining@[m as int].0 <= (#[trigger] remaining@[j]).0,
                forall|j: int| 0 <= j < m ==> remaining@[m as int].0 < (#[trigger] remaining@[j]).0,
            decreases n - i,
        {
            if remaining[i].0 < remaining[m].0 {
                m = i;
            }
            i = i + 1;
        }
        proof {
            lemma_min_idx(rview);
            let sm = min_idx(rview);
            assert(forall|j: int| 0 <= j < n ==> rview[j].0 == (#[trigger] remaining@[j]).0);
            if sm < m {
                assert(rview[m as int].0 < rview[sm].0);
                assert(rview[sm].0 <= rview[m as int].0);
                assert(false);
            }
            if sm > m {
                assert(rview[sm].0 < rview[m as int].0);
                assert(rview[m as int].0 <= rview[sm].0);
                assert(false);
            }
            assert(sm == m as int);
        }
        let (_num, mut recs) = remaining.remove(m);
        let ghost out0 = out@;
        out.append(&mut recs);
        proof {
            assert(pages_view(remaining@) =~= rview.remove(m as int));
            assert(spec_merge(rview) == rview[m as int].1 + spec_merge(rview.remove(m as int)));
            assert(out0 + (rview[m as int].1 + spec_merge(rview.remove(m as int))) =~= (out0
                + rview[m as int].1) + spec_merge(rview.remove(m as int)));
        }
    }
    proof {
        assert(pages_view(remaining@) =~= Seq::<(u64, Seq<FundValueData>)>::empty());
        assert(out@ + Seq::<FundValueData>::empty() =~= out@);
    }
    out
}

} // verus!
