//! Applications, their samples, and the ranking of applications by name.

use vstd::prelude::*;
use vstd::multiset::Multiset;
use vstd::seq_lib::{
    to_multiset_build, to_multiset_contains, to_multiset_insert, to_multiset_len, to_multiset_remove,
};
use crate::metric::Sample;
use crate::names::{
    lemma_name_le_antisymmetric, lemma_name_le_total, lemma_name_le_transitive, name_le,
    name_precedes,
};

verus! {

/// The largest number of applications one report can place: the end of the
/// X axis, one spacing past the last application, must fit an `i32`.
pub const MAX_APPLICATIONS: usize = 21_474_835;

/// An application name with the samples measured for it, in table order.
#[derive(Clone, Debug)]
pub struct ApplicationSeries {
    pub name: String,
    pub samples: Vec<Sample>,
}

/// What an [`ApplicationSeries`] holds, as mathematical values.
pub struct SeriesModel {
    pub name: Seq<char>,
    pub samples: Seq<Sample>,
}

impl View for ApplicationSeries {
    type V = SeriesModel;

    open spec fn view(&self) -> SeriesModel {
        SeriesModel { name: self.name@, samples: self.samples@ }
    }
}

/// The models of a sequence of series, one for one.
pub open spec fn models(series: Seq<ApplicationSeries>) -> Seq<SeriesModel> {
    Seq::new(series.len(), |i: int| series[i]@)
}

/// The same reading with the ordinal `ordinal`.
pub open spec fn with_ordinal(sample: Sample, ordinal: int) -> Sample {
    Sample { index: ordinal as i32, ..sample }
}

/// The same samples, each with the ordinal `ordinal`.
pub open spec fn ranked_samples(samples: Seq<Sample>, ordinal: int) -> Seq<Sample> {
    Seq::new(samples.len(), |k: int| with_ordinal(samples[k], ordinal))
}

/// The same series in the same order, the samples of the series at
/// position `i` carrying the ordinal `i + 1`.
pub open spec fn ranked(order: Seq<SeriesModel>) -> Seq<SeriesModel> {
    Seq::new(
        order.len(),
        |i: int| SeriesModel { name: order[i].name, samples: ranked_samples(order[i].samples, i + 1) },
    )
}

/// No series is followed by one whose name sorts strictly earlier.
pub open spec fn names_ascending(series: Seq<SeriesModel>) -> bool {
    forall|i: int, j: int| 0 <= i < j < series.len() ==> name_le(series[i].name, series[j].name)
}

/// No two series have the same name.
pub open spec fn names_distinct(series: Seq<SeriesModel>) -> bool {
    forall|i: int, j: int| 0 <= i < j < series.len() ==> series[i].name != series[j].name
}

/// Every sample of the series at position `i` carries the ordinal `i + 1`.
pub open spec fn ordinals_by_position(series: Seq<SeriesModel>) -> bool {
    forall|i: int, k: int|
        0 <= i < series.len() && 0 <= k < series[i].samples.len() ==> (
        #[trigger] series[i].samples[k]).index == i + 1
}

/// `result` holds the series of `tables`, each once, in ascending order of
/// name, with the ordinals assigned by position.
pub open spec fn arranges(result: Seq<SeriesModel>, tables: Seq<SeriesModel>) -> bool {
    exists|order: Seq<SeriesModel>|
        {
            &&& #[trigger] order.to_multiset() == tables.to_multiset()
            &&& names_ascending(order)
            &&& result == ranked(order)
        }
}

/// The ordinals owned by the series of a dataset of `count` applications,
/// by position.
pub open spec fn ordinals(count: nat) -> Seq<int> {
    Seq::new(count, |i: int| i + 1)
}

/// The ordinals of `count` applications are the numbers from 1 to `count`,
/// each owned by exactly one application.
pub proof fn lemma_ordinals_are_one_to_count(count: nat)
    ensures
        ordinals(count).no_duplicates(),
        ordinals(count).to_set() == Set::new(|k: int| 1 <= k <= count),
{
    let all = ordinals(count);
    assert forall|k: int| all.to_set().contains(k) <==> 1 <= k <= count by {
        if 1 <= k <= count {
            assert(all[k - 1] == k);
        }
    }
    assert(all.to_set() =~= Set::new(|k: int| 1 <= k <= count));
}

/// In an arrangement the samples of the series at position `i` carry the
/// ordinal `i + 1`, as long as there are no more series than an ordinal can
/// count.
pub proof fn lemma_arrangement_is_ranked(result: Seq<SeriesModel>, tables: Seq<SeriesModel>)
    requires
        arranges(result, tables),
        tables.len() <= MAX_APPLICATIONS,
    ensures
        result.len() == tables.len(),
        names_ascending(result),
        ordinals_by_position(result),
{
    let order = choose|order: Seq<SeriesModel>|
        {
            &&& #[trigger] order.to_multiset() == tables.to_multiset()
            &&& names_ascending(order)
            &&& result == ranked(order)
        };
    to_multiset_len(order);
    to_multiset_len(tables);
}

/// Two sequences of series in ascending order of name that hold the same
/// series, each as often, are the same sequence if no name occurs twice.
pub proof fn lemma_ascending_order_is_unique(x: Seq<SeriesModel>, y: Seq<SeriesModel>)
    requires
        names_ascending(x),
        names_ascending(y),
        names_distinct(x),
        x.to_multiset() == y.to_multiset(),
    ensures
        x == y,
    decreases x.len(),
{
    broadcast use vstd::multiset::group_multiset_axioms;

    to_multiset_len(x);
    to_multiset_len(y);
    if x.len() == 0 {
        assert(x =~= y);
    } else {
        to_multiset_contains(x, y[0]);
        to_multiset_contains(y, y[0]);
        to_multiset_contains(x, x[0]);
        to_multiset_contains(y, x[0]);
        assert(y.contains(y[0]));
        assert(x.contains(x[0]));
        let i = choose|i: int| 0 <= i < x.len() && x[i] == y[0];
        let j = choose|j: int| 0 <= j < y.len() && y[j] == x[0];
        assert(name_le(x[0].name, y[0].name)) by {
            if i == 0 {
                lemma_name_le_total(x[0].name, x[0].name);
            }
        }
        assert(name_le(y[0].name, x[0].name)) by {
            if j == 0 {
                lemma_name_le_total(y[0].name, y[0].name);
            }
        }
        lemma_name_le_antisymmetric(x[0].name, y[0].name);
        assert(i == 0);
        to_multiset_remove(x, 0);
        to_multiset_remove(y, 0);
        assert(x.drop_first() =~= x.remove(0));
        assert(y.drop_first() =~= y.remove(0));
        lemma_ascending_order_is_unique(x.drop_first(), y.drop_first());
        assert(x =~= seq![x[0]] + x.drop_first());
        assert(y =~= seq![y[0]] + y.drop_first());
    }
}

/// A rearrangement of series with distinct names has distinct names.
pub proof fn lemma_rearrangement_keeps_names_distinct(x: Seq<SeriesModel>, y: Seq<SeriesModel>)
    requires
        names_distinct(x),
        x.to_multiset() == y.to_multiset(),
    ensures
        names_distinct(y),
{
    assert(x.no_duplicates());
    x.lemma_multiset_has_no_duplicates();
    y.lemma_multiset_has_no_duplicates_conv();
    assert forall|i: int, j: int| 0 <= i < j < y.len() implies y[i].name != y[j].name by {
        to_multiset_contains(x, y[i]);
        to_multiset_contains(y, y[i]);
        to_multiset_contains(x, y[j]);
        to_multiset_contains(y, y[j]);
        assert(y.contains(y[i]) && y.contains(y[j]));
        let p = choose|p: int| 0 <= p < x.len() && x[p] == y[i];
        let q = choose|q: int| 0 <= q < x.len() && x[q] == y[j];
        assert(y[i] != y[j]);
        assert(p != q);
    }
}

/// The ranking of applications depends on their names alone, not on the
/// order in which their tables come: two arrangements of the same tables,
/// given in any two orders, are equal when no name occurs twice.
pub proof fn lemma_ranking_ignores_table_order(
    first: Seq<SeriesModel>,
    second: Seq<SeriesModel>,
    first_result: Seq<SeriesModel>,
    second_result: Seq<SeriesModel>,
)
    requires
        first.to_multiset() == second.to_multiset(),
        names_distinct(first),
        arranges(first_result, first),
        arranges(second_result, second),
    ensures
        first_result == second_result,
{
    let x = choose|order: Seq<SeriesModel>|
        {
            &&& #[trigger] order.to_multiset() == first.to_multiset()
            &&& names_ascending(order)
            &&& first_result == ranked(order)
        };
    let y = choose|order: Seq<SeriesModel>|
        {
            &&& #[trigger] order.to_multiset() == second.to_multiset()
            &&& names_ascending(order)
            &&& second_result == ranked(order)
        };
    lemma_rearrangement_keeps_names_distinct(first, x);
    lemma_ascending_order_is_unique(x, y);
}

/// All applications of one report, ranked by name.
#[derive(Clone, Debug)]
pub struct Dataset {
    series: Vec<ApplicationSeries>,
}

impl View for Dataset {
    type V = Seq<SeriesModel>;

    closed spec fn view(&self) -> Seq<SeriesModel> {
        models(self.series@)
    }
}

impl Dataset {
    /// The invariant of a dataset: at most [`MAX_APPLICATIONS`] series, in
    /// ascending order of name, the series at position `i` owning the
    /// ordinal `i + 1`.
    pub open spec fn wf(&self) -> bool {
        &&& self@.len() <= MAX_APPLICATIONS
        &&& names_ascending(self@)
        &&& ordinals_by_position(self@)
    }

    /// The number of applications.
    pub fn len(&self) -> (count: usize)
        ensures
            count == self@.len(),
    {
        self.series.len()
    }

    /// The series of all applications, in ascending order of name.
    pub fn series(&self) -> (all: &Vec<ApplicationSeries>)
        ensures
            models(all@) == self@,
    {
        &self.series
    }

    /// Ranks the applications of `tables` by name.
    ///
    /// The order in which the tables come does not matter: the result is in
    /// ascending order of name, and the samples of the application at
    /// position `i` get the ordinal `i + 1`.
    pub fn assemble(tables: Vec<ApplicationSeries>) -> (dataset: Dataset)
        requires
            tables.len() <= MAX_APPLICATIONS,
        ensures
            dataset.wf(),
            dataset@.len() == tables.len(),
            arranges(dataset@, models(tables@)),
    {
        let ghost given = models(tables@);
        let order = sort_by_name(tables);
        let mut series: Vec<ApplicationSeries> = Vec::new();
        let mut i: usize = 0;
        while i < order.len()
            invariant
                i <= order.len() <= MAX_APPLICATIONS,
                series.len() == i,
                models(series@) == ranked(models(order@)).take(i as int),
            decreases order.len() - i,
        {
            let ordinal: i32 = (i + 1) as i32;
            let samples = rank_samples(&order[i].samples, ordinal);
            let name = order[i].name.clone();
            let ghost before = models(series@);
            series.push(ApplicationSeries { name, samples });
            proof {
                let all = ranked(models(order@));
                assert(models(series@) =~= before.push(all[i as int]));
                assert(all.take(i + 1) =~= all.take(i as int).push(all[i as int]));
            }
            i += 1;
        }
        let dataset = Dataset { series };
        proof {
            let sorted = models(order@);
            assert(ranked(sorted).take(order.len() as int) =~= ranked(sorted));
            assert(dataset@ == ranked(sorted));
            assert(sorted.to_multiset() == given.to_multiset());
        }
        dataset
    }
}

/// Copies `samples`, giving each copy the ordinal `ordinal`.
fn rank_samples(samples: &Vec<Sample>, ordinal: i32) -> (ranked: Vec<Sample>)
    ensures
        ranked@ == ranked_samples(samples@, ordinal as int),
{
    let mut ranked: Vec<Sample> = Vec::new();
    let mut k: usize = 0;
    while k < samples.len()
        invariant
            k <= samples.len(),
            ranked@ == ranked_samples(samples@, ordinal as int).take(k as int),
        decreases samples.len() - k,
    {
        let sample = samples[k];
        ranked.push(
            Sample {
                index: ordinal,
                install_time: sample.install_time,
                build_time: sample.build_time,
                deps_with_duplicates: sample.deps_with_duplicates,
                deps_without_duplicates: sample.deps_without_duplicates,
                build_size: sample.build_size,
                chromium: sample.chromium,
                firefox: sample.firefox,
                webkit: sample.webkit,
            },
        );
        proof {
            let all = ranked_samples(samples@, ordinal as int);
            assert(all.take(k + 1) =~= all.take(k as int).push(all[k as int]));
        }
        k += 1;
    }
    assert(ranked@ =~= ranked_samples(samples@, ordinal as int));
    ranked
}

/// Puts the series in ascending order of name, by insertion.
fn sort_by_name(tables: Vec<ApplicationSeries>) -> (order: Vec<ApplicationSeries>)
    ensures
        order.len() == tables.len(),
        names_ascending(models(order@)),
        models(order@).to_multiset() == models(tables@).to_multiset(),
{
    broadcast use vstd::multiset::group_multiset_axioms;

    let ghost given = models(tables@);
    let mut pending = tables;
    let mut order: Vec<ApplicationSeries> = Vec::new();
    assert(models(order@) =~= Seq::empty());
    assert(Seq::<SeriesModel>::empty().to_multiset() =~= Multiset::empty()) by {
        broadcast use vstd::seq_lib::group_to_multiset_ensures;

    }
    assert(models(order@).to_multiset().add(given.to_multiset()) =~= given.to_multiset());
    while pending.len() > 0
        invariant
            order.len() + pending.len() == given.len(),
            names_ascending(models(order@)),
            models(order@).to_multiset().add(models(pending@).to_multiset())
                == given.to_multiset(),
        decreases pending.len(),
    {
        let ghost waiting = models(pending@);
        let ghost placed = models(order@);
        let entry = pending.pop().unwrap();
        let mut at: usize = 0;
        while at < order.len() && name_precedes(&order[at].name, &entry.name)
            invariant
                at <= order.len(),
                placed == models(order@),
                forall|a: int| 0 <= a < at ==> name_le(#[trigger] placed[a].name, entry.name@),
            decreases order.len() - at,
        {
            at += 1;
        }
        order.insert(at, entry);
        proof {
            let now = models(order@);
            assert(now =~= placed.insert(at as int, entry@));
            assert(waiting =~= models(pending@).push(entry@));
            to_multiset_insert(placed, at as int, entry@);
            to_multiset_build(models(pending@), entry@);
            assert(now.to_multiset().add(models(pending@).to_multiset()) =~= given.to_multiset());
            assert forall|i: int, j: int| 0 <= i < j < now.len() implies name_le(
                now[i].name,
                now[j].name,
            ) by {
                if j == at {
                } else if i == at {
                    lemma_name_le_total(placed[at as int].name, entry.name@);
                    if j - 1 > at {
                        lemma_name_le_transitive(
                            entry.name@,
                            placed[at as int].name,
                            placed[j - 1].name,
                        );
                    }
                } else {
                }
            }
        }
    }
    assert(models(pending@) =~= Seq::empty());
    assert(models(order@).to_multiset() =~= given.to_multiset()) by {
        broadcast use vstd::seq_lib::group_to_multiset_ensures;

    }
    order
}

} // verus!
