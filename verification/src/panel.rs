//! The plan of one single-metric panel.

use vstd::prelude::*;
use crate::coords::{
    axis_end, labelled_ticks, names_of, position, tick_models, CoordinateMapper, Tick, TickModel,
};
use crate::dataset::{models, Dataset, SeriesModel, MAX_APPLICATIONS};
use crate::extremes::Extremes;
use crate::marks::{
    application_color, draw_samples, lemma_qualifying_are_the_measured, measured_count,
    sample_marks, style_half_width, Color, MarkerStyle, Shape,
};
use crate::metric::{Metric, Sample};
use crate::statistics::{qualifying, summary, summary_statistics, StatisticsError};
use crate::summary_marker::{marker_at, summary_marker, SummaryMarker};

verus! {

/// The box half-width of the summary marker in a single-metric panel.
pub const PANEL_BOX_HALF_WIDTH: i32 = 7;

/// The range of a Y axis, in thousandths of the metric's unit.
#[derive(Clone, Copy, Debug, PartialEq, Eq, Structural)]
pub struct AxisRange {
    pub low_milli: i64,
    pub high_milli: i64,
}

/// What is drawn for one application (or for one engine of it): marks in
/// one colour, and the summary marker over them where the panel has one.
#[derive(Clone, Debug)]
pub struct Layer {
    pub color: Color,
    pub marks: Vec<Shape>,
    pub summary: Option<SummaryMarker>,
}

/// What a [`Layer`] holds, as mathematical values.
pub struct LayerModel {
    pub color: Color,
    pub marks: Seq<Shape>,
    pub summary: Option<SummaryMarker>,
}

impl View for Layer {
    type V = LayerModel;

    open spec fn view(&self) -> LayerModel {
        LayerModel { color: self.color, marks: self.marks@, summary: self.summary }
    }
}

/// The models of a sequence of layers, one for one.
pub open spec fn layer_models(layers: Seq<Layer>) -> Seq<LayerModel> {
    Seq::new(layers.len(), |i: int| layers[i]@)
}

/// A coloured text of the legend, at a fixed place in pixels.
#[derive(Clone, Debug)]
pub struct LegendEntry {
    pub text: String,
    pub color: Color,
    pub x: i32,
    pub y: i32,
}

/// What a [`LegendEntry`] holds, as mathematical values.
pub struct LegendModel {
    pub text: Seq<char>,
    pub color: Color,
    pub x: int,
    pub y: int,
}

impl View for LegendEntry {
    type V = LegendModel;

    open spec fn view(&self) -> LegendModel {
        LegendModel { text: self.text@, color: self.color, x: self.x as int, y: self.y as int }
    }
}

/// The models of a sequence of legend entries, one for one.
pub open spec fn legend_models(entries: Seq<LegendEntry>) -> Seq<LegendModel> {
    Seq::new(entries.len(), |i: int| entries[i]@)
}

/// Everything a drawing surface needs to render one panel.
///
/// The X axis runs from 0 to `x_end`. Where `gridlines` is false no grid is
/// drawn behind the marks: only the ticks of the axes show.
#[derive(Clone, Debug)]
pub struct Panel {
    pub title: String,
    pub x_end: i32,
    pub gridlines: bool,
    pub ticks: Vec<Tick>,
    pub y_range: AxisRange,
    pub layers: Vec<Layer>,
    pub legend: Vec<LegendEntry>,
}

/// What a [`Panel`] holds, as mathematical values.
pub struct PanelModel {
    pub title: Seq<char>,
    pub x_end: int,
    pub gridlines: bool,
    pub ticks: Seq<TickModel>,
    pub y_range: AxisRange,
    pub layers: Seq<LayerModel>,
    pub legend: Seq<LegendModel>,
}

impl View for Panel {
    type V = PanelModel;

    open spec fn view(&self) -> PanelModel {
        PanelModel {
            title: self.title@,
            x_end: self.x_end as int,
            gridlines: self.gridlines,
            ticks: tick_models(self.ticks@),
            y_range: self.y_range,
            layers: layer_models(self.layers@),
            legend: legend_models(self.legend@),
        }
    }
}

/// How one metric is drawn: its marker style, whether the summary marker is
/// laid over each application, and the lower end of the Y axis.
#[derive(Clone, Copy, Debug, PartialEq, Eq, Structural)]
pub struct PanelDescriptor {
    pub metric: Metric,
    pub style: MarkerStyle,
    pub summary: bool,
    pub y_min: i32,
}

/// A panel could not be planned: the application with ordinal `ordinal` has
/// nothing to summarize. The data is there and valid, but holds no measured
/// reading of the metric.
#[derive(Clone, Copy, Debug, PartialEq, Eq, Structural)]
pub struct PlanError {
    pub ordinal: i32,
    pub cause: StatisticsError,
}

/// The title of the panel of a metric. The three engines share one panel.
pub open spec fn metric_title(metric: Metric) -> Seq<char> {
    match metric {
        Metric::InstallTime => "Install time (in ms)"@,
        Metric::BuildTime => "Build time (in ms)"@,
        Metric::DepsWithDuplicates => "Deps with duplicates"@,
        Metric::DepsWithoutDuplicates => "Deps without duplicates"@,
        Metric::BuildSize => "Build size (in KB)"@,
        Metric::Chromium | Metric::Firefox | Metric::Webkit => "In-browser execution (in ms)"@,
    }
}

/// The Y range of a single-metric panel: from the configured lower end up
/// to the extreme of the metric and 2.5 % more, so that the tallest mark
/// does not touch the top edge.
pub open spec fn panel_range(y_min: int, extreme: int) -> AxisRange {
    AxisRange { low_milli: (y_min * 1000) as i64, high_milli: (extreme * 1025) as i64 }
}

/// The application at position `i` has no measured reading of `metric`.
pub open spec fn lacks_summary(series: Seq<SeriesModel>, metric: Metric, i: int) -> bool {
    qualifying(series[i].samples, metric).len() == 0
}

/// The panel of `descriptor` can be planned over `series`: it has no
/// summary overlay, or every application has something to summarize.
pub open spec fn panel_plannable(series: Seq<SeriesModel>, descriptor: PanelDescriptor) -> bool {
    descriptor.summary ==> forall|i: int|
        0 <= i < series.len() ==> !lacks_summary(series, descriptor.metric, i)
}

/// `error` names the first application, in order of ordinal, that has
/// nothing to summarize for the panel of `descriptor`.
pub open spec fn panel_failure(
    series: Seq<SeriesModel>,
    descriptor: PanelDescriptor,
    error: PlanError,
) -> bool {
    &&& descriptor.summary
    &&& 1 <= error.ordinal <= series.len()
    &&& lacks_summary(series, descriptor.metric, error.ordinal - 1)
    &&& forall|i: int| 0 <= i < error.ordinal - 1 ==> !lacks_summary(series, descriptor.metric, i)
    &&& error.cause.metric == descriptor.metric
}

/// The layer of the application with ordinal `ordinal` among `count`.
pub open spec fn application_layer(
    samples: Seq<Sample>,
    ordinal: int,
    count: int,
    descriptor: PanelDescriptor,
) -> LayerModel {
    LayerModel {
        color: application_color(ordinal, count),
        marks: sample_marks(
            samples,
            descriptor.metric,
            descriptor.style,
            style_half_width(descriptor.style),
            position(ordinal),
        ),
        summary: if descriptor.summary {
            Some(
                marker_at(
                    summary(samples, descriptor.metric),
                    position(ordinal),
                    PANEL_BOX_HALF_WIDTH as int,
                ),
            )
        } else {
            None
        },
    }
}

/// The layers of a single-metric panel: one for each application, in order
/// of ordinal.
pub open spec fn panel_layers(series: Seq<SeriesModel>, descriptor: PanelDescriptor) -> Seq<
    LayerModel,
> {
    Seq::new(
        series.len(),
        |i: int| application_layer(series[i].samples, i + 1, series.len() as int, descriptor),
    )
}

/// The plan of the panel of `descriptor.metric` over `series`.
pub open spec fn panel_plan(
    series: Seq<SeriesModel>,
    extremes: Extremes,
    descriptor: PanelDescriptor,
) -> PanelModel {
    PanelModel {
        title: metric_title(descriptor.metric),
        x_end: axis_end(series.len()),
        gridlines: false,
        ticks: labelled_ticks(names_of(series)),
        y_range: panel_range(descriptor.y_min as int, extremes.value(descriptor.metric)),
        layers: panel_layers(series, descriptor),
        legend: Seq::empty(),
    }
}

/// In a single-metric panel every application has exactly as many marks as
/// it has measured readings of the metric: a reading of zero or less is
/// never drawn, whatever the marker style and whether or not the summary is
/// laid over.
pub proof fn lemma_panel_draws_the_measured(
    series: Seq<SeriesModel>,
    extremes: Extremes,
    descriptor: PanelDescriptor,
)
    ensures
        panel_plan(series, extremes, descriptor).layers.len() == series.len(),
        forall|i: int|
            0 <= i < series.len() ==> (#[trigger] panel_plan(
                series,
                extremes,
                descriptor,
            ).layers[i]).marks.len() == measured_count(series[i].samples, descriptor.metric),
{
    assert forall|i: int| 0 <= i < series.len() implies (#[trigger] panel_plan(
        series,
        extremes,
        descriptor,
    ).layers[i]).marks.len() == measured_count(series[i].samples, descriptor.metric) by {
        lemma_qualifying_are_the_measured(series[i].samples, descriptor.metric);
    }
}

/// The Y range of a single-metric panel comes from the extremes alone: two
/// datasets with the same extreme of the metric get the same range,
/// whatever their summaries are.
pub proof fn lemma_range_ignores_summaries(
    first: Seq<SeriesModel>,
    second: Seq<SeriesModel>,
    extremes: Extremes,
    descriptor: PanelDescriptor,
)
    ensures
        panel_plan(first, extremes, descriptor).y_range == panel_plan(
            second,
            extremes,
            descriptor,
        ).y_range,
{
}

/// The title of the panel of `metric`.
pub fn title_of(metric: Metric) -> (title: String)
    ensures
        title@ == metric_title(metric),
{
    match metric {
        Metric::InstallTime => "Install time (in ms)".to_owned(),
        Metric::BuildTime => "Build time (in ms)".to_owned(),
        Metric::DepsWithDuplicates => "Deps with duplicates".to_owned(),
        Metric::DepsWithoutDuplicates => "Deps without duplicates".to_owned(),
        Metric::BuildSize => "Build size (in KB)".to_owned(),
        Metric::Chromium | Metric::Firefox | Metric::Webkit => "In-browser execution (in ms)".to_owned(),
    }
}

/// Computes the Y range of a single-metric panel.
pub fn range_of_panel(y_min: i32, extreme: i32) -> (range: AxisRange)
    ensures
        range == panel_range(y_min as int, extreme as int),
{
    AxisRange { low_milli: y_min as i64 * 1000, high_milli: extreme as i64 * 1025 }
}

/// Plans the panel of one metric.
///
/// Every application gets a layer in its own colour with one mark for each
/// measured reading. Where the descriptor asks for the summary overlay, every
/// application needs at least one measured reading: the first one in order
/// of ordinal that has none stops the plan, and the error names it.
pub fn plan_panel(dataset: &Dataset, extremes: &Extremes, descriptor: &PanelDescriptor) -> (result:
    Result<Panel, PlanError>)
    requires
        dataset.wf(),
        !descriptor.metric.is_engine(),
    ensures
        match result {
            Ok(panel) => {
                &&& panel_plannable(dataset@, *descriptor)
                &&& panel@ == panel_plan(dataset@, *extremes, *descriptor)
            },
            Err(error) => panel_failure(dataset@, *descriptor, error),
        },
{
    let series = dataset.series();
    let count = series.len();
    let half_width = descriptor.style.half_width();
    let mut layers: Vec<Layer> = Vec::new();
    let mut i: usize = 0;
    while i < count
        invariant
            i <= count == series.len() <= MAX_APPLICATIONS,
            models(series@) == dataset@,
            half_width == style_half_width(descriptor.style),
            layers.len() == i,
            forall|k: int|
                0 <= k < i ==> (#[trigger] layers@[k])@ == panel_layers(dataset@, *descriptor)[k],
            descriptor.summary ==> forall|k: int|
                0 <= k < i ==> !lacks_summary(dataset@, descriptor.metric, k),
        decreases count - i,
    {
        let ordinal: i32 = (i + 1) as i32;
        let x = CoordinateMapper::position(ordinal);
        let samples = &series[i].samples;
        assert(samples@ == dataset@[i as int].samples);
        let marks = draw_samples(samples, descriptor.metric, descriptor.style, half_width, x);
        let summary = if descriptor.summary {
            match summary_statistics(samples, descriptor.metric) {
                Ok(statistics) => Some(summary_marker(statistics, x, PANEL_BOX_HALF_WIDTH)),
                Err(cause) => {
                    return Err(PlanError { ordinal, cause });
                },
            }
        } else {
            None
        };
        layers.push(Layer { color: Color::of_application(ordinal, count as i32), marks, summary });
        i += 1;
    }
    let mapper = CoordinateMapper::new(series);
    let panel = Panel {
        title: title_of(descriptor.metric),
        x_end: mapper.axis_end(),
        gridlines: false,
        ticks: mapper.ticks(),
        y_range: range_of_panel(descriptor.y_min, extremes.get(descriptor.metric)),
        layers,
        legend: Vec::new(),
    };
    proof {
        assert(layer_models(panel.layers@) =~= panel_layers(dataset@, *descriptor));
        assert(legend_models(panel.legend@) =~= Seq::empty());
    }
    Ok(panel)
}

} // verus!
