//! Five-number summaries of one metric over one application's samples.

use vstd::prelude::*;
use vstd::relations::{sorted_by, total_ordering};
use vstd::seq_lib::{lemma_sorted_unique, to_multiset_update};
use crate::metric::{Metric, Sample};

verus! {

/// The five-number summary of one metric over one application's samples.
#[derive(Clone, Copy, Debug, PartialEq, Eq, Structural)]
pub struct SummaryStatistics {
    pub min: i32,
    pub q1: i32,
    pub median: i32,
    pub q3: i32,
    pub max: i32,
}

/// No sample of the application holds a measured reading of `metric`.
#[derive(Clone, Copy, Debug, PartialEq, Eq, Structural)]
pub struct StatisticsError {
    pub metric: Metric,
}

/// The measured (strictly positive) readings of `metric`, in sample order.
pub open spec fn qualifying(samples: Seq<Sample>, metric: Metric) -> Seq<int>
    decreases samples.len(),
{
    if samples.len() == 0 {
        Seq::empty()
    } else {
        let earlier = qualifying(samples.drop_last(), metric);
        if samples.last().measured(metric) {
            earlier.push(samples.last().value(metric))
        } else {
            earlier
        }
    }
}

/// No reading is followed by a smaller one.
pub open spec fn ascending(s: Seq<int>) -> bool {
    forall|i: int, j: int| 0 <= i < j < s.len() ==> s[i] <= s[j]
}

/// The readings of `s` as mathematical integers.
pub open spec fn readings(s: Seq<i32>) -> Seq<int> {
    s.map_values(|x: i32| x as int)
}

impl SummaryStatistics {
    /// `self` is the summary read off `sorted` by the fixed-fraction index
    /// rule: first, `len / 4`, `len / 2`, `3 * len / 4`, last, with integer
    /// division and no interpolation.
    pub open spec fn summarizes(self, sorted: Seq<int>) -> bool {
        &&& sorted.len() > 0
        &&& self.min == sorted[0]
        &&& self.q1 == sorted[sorted.len() as int / 4]
        &&& self.median == sorted[sorted.len() as int / 2]
        &&& self.q3 == sorted[sorted.len() as int * 3 / 4]
        &&& self.max == sorted[sorted.len() as int - 1]
    }

    /// The five numbers never decrease from `min` to `max`.
    pub open spec fn ordered(self) -> bool {
        self.min <= self.q1 <= self.median <= self.q3 <= self.max
    }
}

/// The summary read off `sorted` by the fixed-fraction index rule.
pub open spec fn summary_of(sorted: Seq<int>) -> SummaryStatistics {
    SummaryStatistics {
        min: sorted[0] as i32,
        q1: sorted[sorted.len() as int / 4] as i32,
        median: sorted[sorted.len() as int / 2] as i32,
        q3: sorted[sorted.len() as int * 3 / 4] as i32,
        max: sorted[sorted.len() as int - 1] as i32,
    }
}

/// The summary of the measured readings of `metric` over `samples`.
pub open spec fn summary(samples: Seq<Sample>, metric: Metric) -> SummaryStatistics {
    summary_of(qualifying(samples, metric).sort())
}

/// The ascending arrangement of a sequence is the only sorted sequence with
/// the same readings, each as often.
pub proof fn lemma_sort_is_the_ascending_arrangement(values: Seq<int>, sorted: Seq<int>)
    requires
        ascending(sorted),
        sorted.to_multiset() == values.to_multiset(),
    ensures
        values.sort() == sorted,
{
    let leq = |x: int, y: int| x <= y;
    values.lemma_sort_ensures();
    assert(sorted_by(sorted, leq));
    assert(total_ordering(leq));
    lemma_sorted_unique(sorted, values.sort(), leq);
}

/// Sorting leaves a sequence that is already ascending as it is.
pub proof fn lemma_sort_of_ascending(values: Seq<int>)
    requires
        ascending(values),
    ensures
        values.sort() == values,
{
    lemma_sort_is_the_ascending_arrangement(values, values);
}

/// Whatever the sorted readings are, the summary read off them is ordered.
pub proof fn lemma_summary_is_ordered(stats: SummaryStatistics, values: Seq<int>)
    requires
        stats.summarizes(values.sort()),
    ensures
        stats.ordered(),
{
    values.lemma_sort_ensures();
    let s = values.sort();
    let n = s.len() as int;
    assert(sorted_by(s, |x: int, y: int| x <= y));
    assert(0 <= n / 4 <= n / 2 <= n * 3 / 4 <= n - 1);
    assert(ascending(s)) by {
        assert forall|i: int, j: int| 0 <= i < j < s.len() implies s[i] <= s[j] by {
            assert((|x: int, y: int| x <= y)(s[i], s[j]));
        }
    }
}

/// Collects the measured readings of `metric`, in sample order.
fn collect_qualifying(samples: &Vec<Sample>, metric: Metric) -> (kept: Vec<i32>)
    ensures
        readings(kept@) == qualifying(samples@, metric),
{
    let mut kept: Vec<i32> = Vec::new();
    let mut i: usize = 0;
    assert(samples@.take(0) =~= Seq::empty());
    while i < samples.len()
        invariant
            i <= samples.len(),
            readings(kept@) == qualifying(samples@.take(i as int), metric),
        decreases samples.len() - i,
    {
        let value = samples[i].get(metric);
        proof {
            let next = samples@.take(i + 1);
            assert(next.drop_last() =~= samples@.take(i as int));
            assert(next.last() == samples@[i as int]);
            if value > 0 {
                assert(readings(kept@.push(value)) =~= readings(kept@).push(value as int));
            }
        }
        if value > 0 {
            kept.push(value);
        }
        i += 1;
    }
    assert(samples@.take(samples.len() as int) =~= samples@);
    kept
}

/// Sorts the readings in place, smallest first, by insertion.
fn sort_ascending(v: &mut Vec<i32>)
    ensures
        ascending(readings(final(v)@)),
        readings(final(v)@).to_multiset() == readings(old(v)@).to_multiset(),
{
    let n = v.len();
    let mut i: usize = 0;
    while i < n
        invariant
            i <= n,
            v.len() == n,
            readings(v@).to_multiset() == readings(old(v)@).to_multiset(),
            forall|a: int, b: int| 0 <= a < b < i ==> v@[a] <= v@[b],
        decreases n - i,
    {
        let mut j: usize = i;
        while j > 0 && v[j - 1] > v[j]
            invariant
                j <= i < n,
                v.len() == n,
                readings(v@).to_multiset() == readings(old(v)@).to_multiset(),
                forall|a: int, b: int| 0 <= a < b <= i && a != j && b != j ==> v@[a] <= v@[b],
                forall|b: int| j < b <= i ==> v@[j as int] <= v@[b],
            decreases j,
        {
            let low = v[j];
            let high = v[j - 1];
            proof {
                broadcast use vstd::multiset::group_multiset_axioms;

                let before = readings(v@);
                assert(before[j - 1] == high as int && before[j as int] == low as int);
                let mid = before.update(j - 1, low as int);
                let after = mid.update(j as int, high as int);
                to_multiset_update(before, j - 1, low as int);
                to_multiset_update(mid, j as int, high as int);
                assert(before.contains(high as int));
                vstd::seq_lib::to_multiset_contains(before, high as int);
                assert(after.to_multiset() =~= before.to_multiset());
                assert(readings(v@.update(j - 1, low).update(j as int, high)) =~= after);
            }
            v.set(j - 1, low);
            v.set(j, high);
            j -= 1;
        }
        i += 1;
    }
    assert(ascending(readings(v@)));
}

/// Summarizes the measured readings of `metric` over `samples`.
///
/// Readings that are zero or negative are left out. What remains is sorted
/// smallest first and read at the fixed-fraction positions. With no measured
/// reading there is nothing to summarize, and the error names the metric.
pub fn summary_statistics(samples: &Vec<Sample>, metric: Metric) -> (result: Result<
    SummaryStatistics,
    StatisticsError,
>)
    ensures
        match result {
            Ok(stats) => {
                &&& qualifying(samples@, metric).len() > 0
                &&& stats.summarizes(qualifying(samples@, metric).sort())
                &&& stats == summary(samples@, metric)
                &&& stats.ordered()
            },
            Err(e) => qualifying(samples@, metric).len() == 0 && e.metric == metric,
        },
{
    let mut sorted = collect_qualifying(samples, metric);
    if sorted.len() == 0 {
        return Err(StatisticsError { metric });
    }
    sort_ascending(&mut sorted);
    let len = sorted.len();
    proof {
        lemma_sort_is_the_ascending_arrangement(qualifying(samples@, metric), readings(sorted@));
        vstd::seq_lib::to_multiset_len(readings(sorted@));
        vstd::seq_lib::to_multiset_len(qualifying(samples@, metric));
        assert(readings(sorted@).len() == len);
        assert(0 <= len / 4 <= len / 2 <= len as int * 3 / 4 <= len - 1);
        assert((len / 4) * 3 + (len % 4) * 3 / 4 == len as int * 3 / 4);
    }
    // Three quarters of the length, computed so that no product can overflow.
    let three_quarters = (len / 4) * 3 + (len % 4) * 3 / 4;
    let stats = SummaryStatistics {
        min: sorted[0],
        q1: sorted[len / 4],
        median: sorted[len / 2],
        q3: sorted[three_quarters],
        max: sorted[len - 1],
    };
    assert(stats.summarizes(readings(sorted@)));
    Ok(stats)
}

} // verus!
