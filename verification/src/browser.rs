//! The plan of the in-browser execution panel, which compares three
//! engines side by side for every application.

use vstd::prelude::*;
use crate::coords::{axis_end, labelled_ticks, names_of, position, CoordinateMapper};
use crate::dataset::{models, ApplicationSeries, Dataset, SeriesModel, MAX_APPLICATIONS};
use crate::extremes::{larger, Extremes};
use crate::marks::{
    draw_samples, lemma_qualifying_are_the_measured, measured_count, sample_marks, Color,
    MarkerStyle, STRIP_HALF_WIDTH,
};
use crate::metric::{Metric, Sample};
use crate::panel::{
    lacks_summary, layer_models, legend_models, metric_title, title_of, AxisRange, Layer,
    LayerModel, LegendEntry, LegendModel, Panel, PanelModel, PlanError,
};
use crate::statistics::{qualifying, summary, summary_statistics, StatisticsError};
use crate::summary_marker::{marker_at, summary_marker};

verus! {

/// The box half-width of the summary marker of one engine.
pub const STRIP_BOX_HALF_WIDTH: i32 = 5;

/// How far the strips of the outer engines stand from the application's
/// position, in X units.
pub const STRIP_OFFSET: i32 = 23;

/// The engine drawn in the given slot of an application: Chromium to the
/// left, Webkit in the middle, Firefox to the right.
pub open spec fn engine_at(slot: int) -> Metric {
    if slot == 0 {
        Metric::Chromium
    } else if slot == 1 {
        Metric::Webkit
    } else {
        Metric::Firefox
    }
}

/// The slot in which an engine is drawn.
pub open spec fn slot_of(engine: Metric) -> int {
    match engine {
        Metric::Chromium => 0,
        Metric::Webkit => 1,
        _ => 2,
    }
}

/// How far the strip of an engine stands from the application's position.
pub open spec fn engine_offset(engine: Metric) -> int {
    (slot_of(engine) - 1) * STRIP_OFFSET
}

/// The colour of an engine, the same in its strip and in the legend.
pub open spec fn engine_color(engine: Metric) -> Color {
    match engine {
        Metric::Chromium => Color {
            hue_numerator: 0,
            hue_denominator: 1000,
            saturation: 1000,
            lightness: 500,
        },
        Metric::Webkit => Color {
            hue_numerator: 333,
            hue_denominator: 1000,
            saturation: 1000,
            lightness: 500,
        },
        _ => Color { hue_numerator: 666, hue_denominator: 1000, saturation: 1000, lightness: 750 },
    }
}

/// The text of an engine in the legend.
pub open spec fn engine_caption(engine: Metric) -> Seq<char> {
    match engine {
        Metric::Chromium => "\u{2015} Chromium"@,
        Metric::Webkit => "\u{2015} Webkit"@,
        _ => "\u{2015} Firefox"@,
    }
}

/// The smaller of `ceiling` and `reading`, a reading of zero or less
/// counting for nothing.
pub open spec fn lowered(ceiling: int, reading: int) -> int {
    if 0 < reading < ceiling {
        reading
    } else {
        ceiling
    }
}

/// The smallest of `ceiling` and the measured engine readings of `sample`.
pub open spec fn lowered_by_sample(ceiling: int, sample: Sample) -> int {
    lowered(
        lowered(lowered(ceiling, sample.firefox as int), sample.chromium as int),
        sample.webkit as int,
    )
}

/// The smallest of `ceiling` and the measured engine readings of `samples`.
pub open spec fn lowest(ceiling: int, samples: Seq<Sample>) -> int
    decreases samples.len(),
{
    if samples.len() == 0 {
        ceiling
    } else {
        lowered_by_sample(lowest(ceiling, samples.drop_last()), samples.last())
    }
}

/// The smallest measured reading of any engine in any sample of any series,
/// and `i32::MAX` where there is none.
pub open spec fn lowest_engine_reading(series: Seq<SeriesModel>) -> int
    decreases series.len(),
{
    if series.len() == 0 {
        i32::MAX as int
    } else {
        lowest(lowest_engine_reading(series.drop_last()), series.last().samples)
    }
}

/// The largest of the extremes of the three engines.
pub open spec fn highest_engine_extreme(extremes: Extremes) -> int {
    larger(
        larger(extremes.chromium as int, extremes.firefox as int),
        extremes.webkit as int,
    )
}

/// The Y range of the engine panel: from the smallest measured reading less
/// 2.5 % up to the largest extreme and 5 % more. The lower end is a reading
/// that was observed, not a zero baseline, so it gets the tighter margin.
pub open spec fn browser_range(lowest: int, highest: int) -> AxisRange {
    AxisRange { low_milli: (lowest * 975) as i64, high_milli: (highest * 1050) as i64 }
}

/// `lowest` is the greatest lower bound of the ceiling and the measured
/// engine readings.
pub proof fn lemma_lowest_is_minimum(ceiling: int, samples: Seq<Sample>)
    ensures
        lowest(ceiling, samples) <= ceiling,
        forall|k: int, slot: int|
            0 <= k < samples.len() && 0 <= slot < 3 && (#[trigger] samples[k]).measured(
                #[trigger] engine_at(slot),
            ) ==> lowest(ceiling, samples) <= samples[k].value(engine_at(slot)),
        lowest(ceiling, samples) == ceiling || exists|k: int, slot: int|
            0 <= k < samples.len() && 0 <= slot < 3 && (#[trigger] samples[k]).measured(
                #[trigger] engine_at(slot),
            ) && lowest(ceiling, samples) == samples[k].value(engine_at(slot)),
    decreases samples.len(),
{
    if samples.len() > 0 {
        let earlier = samples.drop_last();
        let last = samples.last();
        let bottom = lowest(ceiling, samples);
        lemma_lowest_is_minimum(ceiling, earlier);
        assert forall|k: int, slot: int|
            0 <= k < samples.len() && 0 <= slot < 3 && (#[trigger] samples[k]).measured(
                #[trigger] engine_at(slot),
            ) implies bottom <= samples[k].value(engine_at(slot)) by {
            if k < earlier.len() {
                assert(samples[k] == earlier[k]);
            }
        }
        if bottom != ceiling {
            if bottom == lowest(ceiling, earlier) {
                let (k, slot) = choose|k: int, slot: int|
                    0 <= k < earlier.len() && 0 <= slot < 3 && (#[trigger] earlier[k]).measured(
                        #[trigger] engine_at(slot),
                    ) && lowest(ceiling, earlier) == earlier[k].value(engine_at(slot));
                assert(samples[k] == earlier[k]);
                assert(samples[k].measured(engine_at(slot)));
            } else {
                let k = samples.len() - 1;
                assert(samples[k] == last);
                if bottom == last.webkit {
                    assert(samples[k].measured(engine_at(1)));
                } else if bottom == last.chromium {
                    assert(samples[k].measured(engine_at(0)));
                } else {
                    assert(samples[k].measured(engine_at(2)));
                }
            }
        }
    }
}

/// The lower end of the engine panel rests on the smallest measured engine
/// reading of all applications: no measured reading lies below it, and it
/// is a reading that some sample holds, or `i32::MAX` where no engine was
/// ever measured.
pub proof fn lemma_lowest_engine_reading_is_minimum(series: Seq<SeriesModel>)
    ensures
        lowest_engine_reading(series) <= i32::MAX,
        forall|i: int, k: int, slot: int|
            0 <= i < series.len() && 0 <= k < series[i].samples.len() && 0 <= slot < 3 && (
            #[trigger] series[i].samples[k]).measured(#[trigger] engine_at(slot))
                ==> lowest_engine_reading(series) <= series[i].samples[k].value(engine_at(slot)),
        lowest_engine_reading(series) == i32::MAX || exists|i: int, k: int, slot: int|
            0 <= i < series.len() && 0 <= k < series[i].samples.len() && 0 <= slot < 3 && (
            #[trigger] series[i].samples[k]).measured(#[trigger] engine_at(slot))
                && lowest_engine_reading(series) == series[i].samples[k].value(engine_at(slot)),
    decreases series.len(),
{
    if series.len() > 0 {
        let earlier = series.drop_last();
        let last = series.last();
        let ceiling = lowest_engine_reading(earlier);
        let bottom = lowest_engine_reading(series);
        lemma_lowest_engine_reading_is_minimum(earlier);
        lemma_lowest_is_minimum(ceiling, last.samples);
        assert forall|i: int, k: int, slot: int|
            0 <= i < series.len() && 0 <= k < series[i].samples.len() && 0 <= slot < 3 && (
            #[trigger] series[i].samples[k]).measured(#[trigger] engine_at(slot)) implies bottom
            <= series[i].samples[k].value(engine_at(slot)) by {
            if i < earlier.len() {
                assert(series[i] == earlier[i]);
            }
        }
        if bottom != i32::MAX {
            if bottom == ceiling {
                let (i, k, slot) = choose|i: int, k: int, slot: int|
                    0 <= i < earlier.len() && 0 <= k < earlier[i].samples.len() && 0 <= slot < 3
                        && (#[trigger] earlier[i].samples[k]).measured(#[trigger] engine_at(slot))
                        && ceiling == earlier[i].samples[k].value(engine_at(slot));
                assert(series[i] == earlier[i]);
                assert(series[i].samples[k].measured(engine_at(slot)));
            } else {
                let (k, slot) = choose|k: int, slot: int|
                    0 <= k < last.samples.len() && 0 <= slot < 3 && (
                    #[trigger] last.samples[k]).measured(#[trigger] engine_at(slot)) && bottom
                        == last.samples[k].value(engine_at(slot));
                let i = series.len() - 1;
                assert(series[i].samples[k].measured(engine_at(slot)));
            }
        }
    }
}

/// The strip of one engine for the application with ordinal `ordinal`: a
/// short tick for each measured reading and the summary marker of the
/// engine, both at the engine's own offset from the application's position.
pub open spec fn engine_layer(samples: Seq<Sample>, ordinal: int, engine: Metric) -> LayerModel {
    LayerModel {
        color: engine_color(engine),
        marks: sample_marks(
            samples,
            engine,
            MarkerStyle::HorizontalTick,
            STRIP_HALF_WIDTH as int,
            position(ordinal) + engine_offset(engine),
        ),
        summary: Some(
            marker_at(
                summary(samples, engine),
                position(ordinal) + engine_offset(engine),
                STRIP_BOX_HALF_WIDTH as int,
            ),
        ),
    }
}

/// The layers of the engine panel: three strips for each application, in
/// order of ordinal and, within an application, of slot.
pub open spec fn browser_layers(series: Seq<SeriesModel>) -> Seq<LayerModel> {
    Seq::new(
        3 * series.len(),
        |j: int| engine_layer(series[j / 3].samples, j / 3 + 1, engine_at(j % 3)),
    )
}

/// The strip with number `j`, counted over all applications, has nothing to
/// summarize.
pub open spec fn strip_lacks_summary(series: Seq<SeriesModel>, j: int) -> bool {
    lacks_summary(series, engine_at(j % 3), j / 3)
}

/// The engine panel can be planned over `series`: every strip has
/// something to summarize.
pub open spec fn browser_plannable(series: Seq<SeriesModel>) -> bool {
    forall|j: int| 0 <= j < 3 * series.len() ==> !strip_lacks_summary(series, j)
}

/// `error` names the first strip, in order of ordinal and then of slot,
/// that has nothing to summarize.
pub open spec fn browser_failure(series: Seq<SeriesModel>, error: PlanError) -> bool {
    &&& 1 <= error.ordinal <= series.len()
    &&& error.cause.metric.is_engine()
    &&& strip_lacks_summary(series, 3 * (error.ordinal - 1) + slot_of(error.cause.metric))
    &&& forall|j: int|
        0 <= j < 3 * (error.ordinal - 1) + slot_of(error.cause.metric) ==> !strip_lacks_summary(
            series,
            j,
        )
}

/// The legend of the engine panel: one coloured caption for each engine, a
/// fifth of the image width apart, a seventh of the image height down.
pub open spec fn browser_legend(image_width: int, image_height: int) -> Seq<LegendModel> {
    Seq::new(
        3,
        |slot: int|
            LegendModel {
                text: engine_caption(engine_at(slot)),
                color: engine_color(engine_at(slot)),
                x: (slot + 1) * (image_width / 5),
                y: image_height / 7,
            },
    )
}

/// The plan of the engine panel over `series`.
pub open spec fn browser_plan(
    series: Seq<SeriesModel>,
    extremes: Extremes,
    image_width: int,
    image_height: int,
) -> PanelModel {
    PanelModel {
        title: metric_title(Metric::Chromium),
        x_end: axis_end(series.len()),
        gridlines: false,
        ticks: labelled_ticks(names_of(series)),
        y_range: browser_range(lowest_engine_reading(series), highest_engine_extreme(extremes)),
        layers: browser_layers(series),
        legend: browser_legend(image_width, image_height),
    }
}

/// In the engine panel every strip has exactly as many marks as the
/// application has measured readings of the engine.
pub proof fn lemma_strips_draw_the_measured(series: Seq<SeriesModel>)
    ensures
        browser_layers(series).len() == 3 * series.len(),
        forall|i: int, slot: int|
            0 <= i < series.len() && 0 <= slot < 3 ==> (#[trigger] browser_layers(series)[3 * i
                + slot]).marks.len() == measured_count(series[i].samples, engine_at(slot)),
{
    assert forall|i: int, slot: int| 0 <= i < series.len() && 0 <= slot < 3 implies (
    #[trigger] browser_layers(series)[3 * i + slot]).marks.len() == measured_count(
        series[i].samples,
        engine_at(slot),
    ) by {
        let j = 3 * i + slot;
        assert(j / 3 == i && j % 3 == slot);
        lemma_qualifying_are_the_measured(series[i].samples, engine_at(slot));
    }
}

/// The engine drawn in slot `slot`.
pub fn engine_in_slot(slot: usize) -> (engine: Metric)
    requires
        slot < 3,
    ensures
        engine == engine_at(slot as int),
        engine.is_engine(),
{
    if slot == 0 {
        Metric::Chromium
    } else if slot == 1 {
        Metric::Webkit
    } else {
        Metric::Firefox
    }
}

/// How far the strip of `engine` stands from the application's position.
pub fn offset_of_engine(engine: Metric) -> (offset: i32)
    ensures
        offset == engine_offset(engine),
{
    match engine {
        Metric::Chromium => -STRIP_OFFSET,
        Metric::Webkit => 0,
        _ => STRIP_OFFSET,
    }
}

/// The colour of `engine`.
pub fn color_of_engine(engine: Metric) -> (color: Color)
    ensures
        color == engine_color(engine),
{
    match engine {
        Metric::Chromium => Color {
            hue_numerator: 0,
            hue_denominator: 1000,
            saturation: 1000,
            lightness: 500,
        },
        Metric::Webkit => Color {
            hue_numerator: 333,
            hue_denominator: 1000,
            saturation: 1000,
            lightness: 500,
        },
        _ => Color { hue_numerator: 666, hue_denominator: 1000, saturation: 1000, lightness: 750 },
    }
}

/// The text of `engine` in the legend.
pub fn caption_of_engine(engine: Metric) -> (caption: String)
    ensures
        caption@ == engine_caption(engine),
{
    match engine {
        Metric::Chromium => "\u{2015} Chromium".to_owned(),
        Metric::Webkit => "\u{2015} Webkit".to_owned(),
        _ => "\u{2015} Firefox".to_owned(),
    }
}

/// Plans the strip of one engine for one application.
///
/// The strip always carries a summary marker, so the application needs a
/// measured reading of the engine; without one the error names the engine.
pub fn engine_strip(samples: &Vec<Sample>, ordinal: i32, engine: Metric) -> (result: Result<
    Layer,
    StatisticsError,
>)
    requires
        1 <= ordinal <= MAX_APPLICATIONS,
        engine.is_engine(),
    ensures
        match result {
            Ok(layer) => {
                &&& qualifying(samples@, engine).len() > 0
                &&& layer@ == engine_layer(samples@, ordinal as int, engine)
            },
            Err(error) => qualifying(samples@, engine).len() == 0 && error.metric == engine,
        },
{
    let x = CoordinateMapper::position(ordinal) + offset_of_engine(engine);
    let marks = draw_samples(samples, engine, MarkerStyle::HorizontalTick, STRIP_HALF_WIDTH, x);
    match summary_statistics(samples, engine) {
        Ok(statistics) => Ok(
            Layer {
                color: color_of_engine(engine),
                marks,
                summary: Some(summary_marker(statistics, x, STRIP_BOX_HALF_WIDTH)),
            },
        ),
        Err(error) => Err(error),
    }
}

/// The smaller of `ceiling` and `reading`, unless the reading is not
/// measured.
fn lower(ceiling: i32, reading: i32) -> (bottom: i32)
    ensures
        bottom == lowered(ceiling as int, reading as int),
{
    if ceiling > reading && reading > 0 {
        reading
    } else {
        ceiling
    }
}

/// Scans all samples of all applications for the smallest measured reading
/// of any engine.
pub fn scan_lowest_engine_reading(series: &Vec<ApplicationSeries>) -> (bottom: i32)
    ensures
        bottom == lowest_engine_reading(models(series@)),
{
    let mut bottom: i32 = i32::MAX;
    let ghost all = models(series@);
    let mut i: usize = 0;
    assert(all.take(0) =~= Seq::empty());
    while i < series.len()
        invariant
            i <= series.len(),
            all == models(series@),
            bottom == lowest_engine_reading(all.take(i as int)),
        decreases series.len() - i,
    {
        let samples = &series[i].samples;
        let ghost ceiling = bottom;
        let mut k: usize = 0;
        assert(samples@.take(0) =~= Seq::empty());
        while k < samples.len()
            invariant
                k <= samples.len(),
                bottom == lowest(ceiling as int, samples@.take(k as int)),
            decreases samples.len() - k,
        {
            proof {
                let next = samples@.take(k + 1);
                assert(next.drop_last() =~= samples@.take(k as int));
                assert(next.last() == samples@[k as int]);
            }
            let sample = &samples[k];
            bottom = lower(lower(lower(bottom, sample.firefox), sample.chromium), sample.webkit);
            k += 1;
        }
        proof {
            assert(samples@.take(samples.len() as int) =~= samples@);
            let next = all.take(i + 1);
            assert(next.drop_last() =~= all.take(i as int));
            assert(next.last() == all[i as int]);
            assert(all[i as int].samples == samples@);
        }
        i += 1;
    }
    assert(all.take(series.len() as int) =~= all);
    bottom
}

/// Computes the Y range of the engine panel from the smallest measured
/// reading and the extremes of the three engines.
pub fn range_of_browser_panel(lowest: i32, extremes: &Extremes) -> (range: AxisRange)
    ensures
        range == browser_range(lowest as int, highest_engine_extreme(*extremes)),
{
    let mut highest = extremes.chromium;
    if extremes.firefox > highest {
        highest = extremes.firefox;
    }
    if extremes.webkit > highest {
        highest = extremes.webkit;
    }
    AxisRange { low_milli: lowest as i64 * 975, high_milli: highest as i64 * 1050 }
}

/// Lays out the legend of the engine panel for an image of the given size
/// in pixels.
pub fn legend_of_browser_panel(image_width: i32, image_height: i32) -> (legend: Vec<LegendEntry>)
    requires
        0 <= image_width,
        0 <= image_height,
    ensures
        legend_models(legend@) == browser_legend(image_width as int, image_height as int),
{
    let step = image_width / 5;
    let y = image_height / 7;
    let mut legend: Vec<LegendEntry> = Vec::new();
    let mut slot: usize = 0;
    while slot < 3
        invariant
            slot <= 3,
            0 <= step == image_width as int / 5,
            step <= 429_496_729,
            y == image_height as int / 7,
            legend.len() == slot,
            forall|k: int|
                0 <= k < slot ==> (#[trigger] legend@[k])@ == browser_legend(
                    image_width as int,
                    image_height as int,
                )[k],
        decreases 3 - slot,
    {
        let engine = engine_in_slot(slot);
        assert(0 <= (slot + 1) * step <= 3 * step) by (nonlinear_arith)
            requires
                0 <= slot < 3,
                0 <= step,
        ;
        legend.push(
            LegendEntry {
                text: caption_of_engine(engine),
                color: color_of_engine(engine),
                x: (slot as i32 + 1) * step,
                y,
            },
        );
        slot += 1;
    }
    assert(legend_models(legend@) =~= browser_legend(image_width as int, image_height as int));
    legend
}

/// Plans the engine panel.
///
/// Every application gets three strips, one for each engine, each with its
/// summary marker. So every application needs a measured reading of every
/// engine: the first strip, in order of ordinal and then of slot, that has
/// none stops the plan, and the error names the application and the engine.
pub fn plan_browser_panel(
    dataset: &Dataset,
    extremes: &Extremes,
    image_width: i32,
    image_height: i32,
) -> (result: Result<Panel, PlanError>)
    requires
        dataset.wf(),
        0 <= image_width,
        0 <= image_height,
    ensures
        match result {
            Ok(panel) => {
                &&& browser_plannable(dataset@)
                &&& panel@ == browser_plan(
                    dataset@,
                    *extremes,
                    image_width as int,
                    image_height as int,
                )
            },
            Err(error) => browser_failure(dataset@, error),
        },
{
    let series = dataset.series();
    let count = series.len();
    let mut layers: Vec<Layer> = Vec::new();
    let mut i: usize = 0;
    while i < count
        invariant
            i <= count == series.len() <= MAX_APPLICATIONS,
            models(series@) == dataset@,
            dataset@.len() == count,
            layers.len() == 3 * i,
            forall|j: int|
                0 <= j < 3 * i ==> (#[trigger] layers@[j])@ == browser_layers(dataset@)[j],
            forall|j: int| 0 <= j < 3 * i ==> !strip_lacks_summary(dataset@, j),
        decreases count - i,
    {
        let ordinal: i32 = (i + 1) as i32;
        let samples = &series[i].samples;
        assert(samples@ == dataset@[i as int].samples);
        let mut slot: usize = 0;
        while slot < 3
            invariant
                slot <= 3,
                i < count == series.len() <= MAX_APPLICATIONS,
                dataset@.len() == count,
                ordinal == i + 1,
                samples@ == dataset@[i as int].samples,
                layers.len() == 3 * i + slot,
                forall|j: int|
                    0 <= j < 3 * i + slot ==> (#[trigger] layers@[j])@ == browser_layers(
                        dataset@,
                    )[j],
                forall|j: int| 0 <= j < 3 * i + slot ==> !strip_lacks_summary(dataset@, j),
            decreases 3 - slot,
        {
            let engine = engine_in_slot(slot);
            let ghost j = 3 * i + slot;
            assert(j / 3 == i && j % 3 == slot);
            match engine_strip(samples, ordinal, engine) {
                Ok(layer) => {
                    layers.push(layer);
                },
                Err(cause) => {
                    return Err(PlanError { ordinal, cause });
                },
            }
            slot += 1;
        }
        i += 1;
    }
    let mapper = CoordinateMapper::new(series);
    let panel = Panel {
        title: title_of(Metric::Chromium),
        x_end: mapper.axis_end(),
        gridlines: false,
        ticks: mapper.ticks(),
        y_range: range_of_browser_panel(scan_lowest_engine_reading(series), extremes),
        layers,
        legend: legend_of_browser_panel(image_width, image_height),
    };
    proof {
        assert(layer_models(panel.layers@) =~= browser_layers(dataset@));
    }
    Ok(panel)
}

} // verus!
