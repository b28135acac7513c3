//! The largest reading of every metric over all applications.

use vstd::prelude::*;
use crate::dataset::{models, ApplicationSeries, SeriesModel};
use crate::metric::{Metric, Sample};

verus! {

/// Per metric, the largest reading over all samples of all applications,
/// and 0 where no application reported a positive reading.
#[derive(Clone, Copy, Debug, PartialEq, Eq, Structural)]
pub struct Extremes {
    pub install_time: i32,
    pub build_time: i32,
    pub deps_with_duplicates: i32,
    pub deps_without_duplicates: i32,
    pub build_size: i32,
    pub chromium: i32,
    pub firefox: i32,
    pub webkit: i32,
}

/// The larger of two integers.
pub open spec fn larger(a: int, b: int) -> int {
    if a >= b {
        a
    } else {
        b
    }
}

/// The largest of `floor` and the readings of `metric` in `samples`.
pub open spec fn peak(floor: int, samples: Seq<Sample>, metric: Metric) -> int
    decreases samples.len(),
{
    if samples.len() == 0 {
        floor
    } else {
        larger(peak(floor, samples.drop_last(), metric), samples.last().value(metric))
    }
}

/// The largest of 0 and the readings of `metric` in all samples of all
/// series.
pub open spec fn extreme(series: Seq<SeriesModel>, metric: Metric) -> int
    decreases series.len(),
{
    if series.len() == 0 {
        0
    } else {
        peak(extreme(series.drop_last(), metric), series.last().samples, metric)
    }
}

/// `peak` is the least upper bound of the floor and the readings.
pub proof fn lemma_peak_is_maximum(floor: int, samples: Seq<Sample>, metric: Metric)
    ensures
        floor <= peak(floor, samples, metric),
        forall|k: int|
            0 <= k < samples.len() ==> (#[trigger] samples[k]).value(metric) <= peak(
                floor,
                samples,
                metric,
            ),
        peak(floor, samples, metric) == floor || exists|k: int|
            0 <= k < samples.len() && (#[trigger] samples[k]).value(metric) == peak(
                floor,
                samples,
                metric,
            ),
    decreases samples.len(),
{
    if samples.len() > 0 {
        let earlier = samples.drop_last();
        lemma_peak_is_maximum(floor, earlier, metric);
        let top = peak(floor, samples, metric);
        assert forall|k: int| 0 <= k < samples.len() implies (#[trigger] samples[k]).value(metric)
            <= top by {
            if k < earlier.len() {
                assert(samples[k] == earlier[k]);
            }
        }
        if top != floor {
            if top == samples.last().value(metric) {
                assert(samples[samples.len() - 1].value(metric) == top);
            } else {
                let k = choose|k: int|
                    0 <= k < earlier.len() && (#[trigger] earlier[k]).value(metric) == peak(
                        floor,
                        earlier,
                        metric,
                    );
                assert(samples[k] == earlier[k]);
            }
        }
    }
}

/// The extreme of a metric is its true maximum: no reading exceeds it, it
/// is never negative, and it is either 0 or a reading that some sample of
/// some application holds. It is 0 exactly when no reading is positive.
pub proof fn lemma_extreme_is_maximum(series: Seq<SeriesModel>, metric: Metric)
    ensures
        0 <= extreme(series, metric),
        forall|i: int, k: int|
            0 <= i < series.len() && 0 <= k < series[i].samples.len() ==> (
            #[trigger] series[i].samples[k]).value(metric) <= extreme(series, metric),
        extreme(series, metric) == 0 || exists|i: int, k: int|
            0 <= i < series.len() && 0 <= k < series[i].samples.len() && (
            #[trigger] series[i].samples[k]).value(metric) == extreme(series, metric),
        extreme(series, metric) == 0 <==> forall|i: int, k: int|
            0 <= i < series.len() && 0 <= k < series[i].samples.len() ==> !(
            #[trigger] series[i].samples[k]).measured(metric),
    decreases series.len(),
{
    if series.len() > 0 {
        let earlier = series.drop_last();
        let last = series.last();
        let floor = extreme(earlier, metric);
        let top = extreme(series, metric);
        lemma_extreme_is_maximum(earlier, metric);
        lemma_peak_is_maximum(floor, last.samples, metric);
        assert forall|i: int, k: int|
            0 <= i < series.len() && 0 <= k < series[i].samples.len() implies (
        #[trigger] series[i].samples[k]).value(metric) <= top by {
            if i < earlier.len() {
                assert(series[i] == earlier[i]);
            }
        }
        if top != 0 {
            if top == floor {
                let (i, k) = choose|i: int, k: int|
                    0 <= i < earlier.len() && 0 <= k < earlier[i].samples.len() && (
                    #[trigger] earlier[i].samples[k]).value(metric) == floor;
                assert(series[i] == earlier[i]);
                assert(series[i].samples[k].value(metric) == top);
            } else {
                let k = choose|k: int|
                    0 <= k < last.samples.len() && (#[trigger] last.samples[k]).value(metric)
                        == top;
                assert(series[series.len() - 1].samples[k].value(metric) == top);
            }
            let (i, k) = choose|i: int, k: int|
                0 <= i < series.len() && 0 <= k < series[i].samples.len() && (
                #[trigger] series[i].samples[k]).value(metric) == top;
            assert(series[i].samples[k].measured(metric));
        }
    }
}

impl Extremes {
    /// The extreme recorded for `metric`.
    pub open spec fn value(self, metric: Metric) -> int {
        match metric {
            Metric::InstallTime => self.install_time as int,
            Metric::BuildTime => self.build_time as int,
            Metric::DepsWithDuplicates => self.deps_with_duplicates as int,
            Metric::DepsWithoutDuplicates => self.deps_without_duplicates as int,
            Metric::BuildSize => self.build_size as int,
            Metric::Chromium => self.chromium as int,
            Metric::Firefox => self.firefox as int,
            Metric::Webkit => self.webkit as int,
        }
    }

    /// `self` records, for every metric, the extreme over `series`.
    pub open spec fn records(self, series: Seq<SeriesModel>) -> bool {
        forall|metric: Metric| self.value(metric) == extreme(series, metric)
    }

    /// Reads the extreme of one metric.
    pub fn get(&self, metric: Metric) -> (v: i32)
        ensures
            v == self.value(metric),
    {
        match metric {
            Metric::InstallTime => self.install_time,
            Metric::BuildTime => self.build_time,
            Metric::DepsWithDuplicates => self.deps_with_duplicates,
            Metric::DepsWithoutDuplicates => self.deps_without_duplicates,
            Metric::BuildSize => self.build_size,
            Metric::Chromium => self.chromium,
            Metric::Firefox => self.firefox,
            Metric::Webkit => self.webkit,
        }
    }

    /// Raises every extreme that `sample` exceeds.
    fn absorb(self, sample: &Sample) -> (raised: Extremes)
        ensures
            forall|metric: Metric|
                raised.value(metric) == larger(self.value(metric), sample.value(metric)),
    {
        let mut raised = self;
        if sample.install_time > raised.install_time {
            raised.install_time = sample.install_time;
        }
        if sample.build_time > raised.build_time {
            raised.build_time = sample.build_time;
        }
        if sample.deps_with_duplicates > raised.deps_with_duplicates {
            raised.deps_with_duplicates = sample.deps_with_duplicates;
        }
        if sample.deps_without_duplicates > raised.deps_without_duplicates {
            raised.deps_without_duplicates = sample.deps_without_duplicates;
        }
        if sample.build_size > raised.build_size {
            raised.build_size = sample.build_size;
        }
        if sample.chromium > raised.chromium {
            raised.chromium = sample.chromium;
        }
        if sample.firefox > raised.firefox {
            raised.firefox = sample.firefox;
        }
        if sample.webkit > raised.webkit {
            raised.webkit = sample.webkit;
        }
        raised
    }
}

/// Scans all samples of all applications for the largest reading of every
/// metric. Nothing is left out: a reading of zero or less takes part, and
/// cannot win against the starting value 0.
pub fn scan_extremes(series: &Vec<ApplicationSeries>) -> (extremes: Extremes)
    ensures
        extremes.records(models(series@)),
{
    let mut extremes = Extremes {
        install_time: 0,
        build_time: 0,
        deps_with_duplicates: 0,
        deps_without_duplicates: 0,
        build_size: 0,
        chromium: 0,
        firefox: 0,
        webkit: 0,
    };
    let ghost all = models(series@);
    let mut i: usize = 0;
    assert(all.take(0) =~= Seq::empty());
    while i < series.len()
        invariant
            i <= series.len(),
            all == models(series@),
            extremes.records(all.take(i as int)),
        decreases series.len() - i,
    {
        let samples = &series[i].samples;
        let ghost floor = extremes;
        let mut k: usize = 0;
        assert(samples@.take(0) =~= Seq::empty());
        while k < samples.len()
            invariant
                k <= samples.len(),
                forall|metric: Metric|
                    extremes.value(metric) == peak(
                        floor.value(metric),
                        samples@.take(k as int),
                        metric,
                    ),
            decreases samples.len() - k,
        {
            proof {
                let next = samples@.take(k + 1);
                assert(next.drop_last() =~= samples@.take(k as int));
                assert(next.last() == samples@[k as int]);
            }
            extremes = extremes.absorb(&samples[k]);
            k += 1;
        }
        proof {
            assert(samples@.take(samples.len() as int) =~= samples@);
            let next = all.take(i + 1);
            assert(next.drop_last() =~= all.take(i as int));
            assert(next.last() == all[i as int]);
            assert(all[i as int].samples == samples@);
        }
        i += 1;
    }
    assert(all.take(series.len() as int) =~= all);
    extremes
}

} // verus!
