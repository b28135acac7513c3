//! The whole report: six panels, stacked in a fixed order.

use vstd::prelude::*;
use crate::browser::{
    browser_failure, browser_plan, browser_plannable, plan_browser_panel,
};
use crate::dataset::{
    arranges, lemma_ranking_ignores_table_order, names_distinct, Dataset, SeriesModel,
};
use crate::extremes::{extreme, scan_extremes, Extremes};
use crate::marks::MarkerStyle;
use crate::metric::Metric;
use crate::panel::{
    panel_failure, panel_plan, panel_plannable, plan_panel, Panel, PanelDescriptor, PanelModel,
    PlanError,
};

verus! {

/// The width of the image, in pixels.
pub const IMAGE_WIDTH: i32 = 600;

/// The height of the image, in pixels.
pub const IMAGE_HEIGHT: i32 = 1800;

/// The number of panels, which share the height of the image evenly.
pub const PANEL_COUNT: usize = 6;

/// The descriptors of the five single-metric panels, from top to bottom:
/// install time and build time as ticks with the summary overlay, then
/// build size and the two dependency counts as bars without it. All start
/// at 0.
pub open spec fn descriptors() -> Seq<PanelDescriptor> {
    seq![
        PanelDescriptor {
            metric: Metric::InstallTime,
            style: MarkerStyle::HorizontalTick,
            summary: true,
            y_min: 0,
        },
        PanelDescriptor {
            metric: Metric::BuildTime,
            style: MarkerStyle::HorizontalTick,
            summary: true,
            y_min: 0,
        },
        PanelDescriptor {
            metric: Metric::BuildSize,
            style: MarkerStyle::Bar,
            summary: false,
            y_min: 0,
        },
        PanelDescriptor {
            metric: Metric::DepsWithDuplicates,
            style: MarkerStyle::Bar,
            summary: false,
            y_min: 0,
        },
        PanelDescriptor {
            metric: Metric::DepsWithoutDuplicates,
            style: MarkerStyle::Bar,
            summary: false,
            y_min: 0,
        },
    ]
}

/// The extremes of all metrics over `series`.
pub open spec fn extremes_of(series: Seq<SeriesModel>) -> Extremes {
    Extremes {
        install_time: extreme(series, Metric::InstallTime) as i32,
        build_time: extreme(series, Metric::BuildTime) as i32,
        deps_with_duplicates: extreme(series, Metric::DepsWithDuplicates) as i32,
        deps_without_duplicates: extreme(series, Metric::DepsWithoutDuplicates) as i32,
        build_size: extreme(series, Metric::BuildSize) as i32,
        chromium: extreme(series, Metric::Chromium) as i32,
        firefox: extreme(series, Metric::Firefox) as i32,
        webkit: extreme(series, Metric::Webkit) as i32,
    }
}

/// The plan of one report: the image size and the panels from top to
/// bottom.
#[derive(Clone, Debug)]
pub struct Report {
    pub width: i32,
    pub height: i32,
    pub panels: Vec<Panel>,
}

/// What a [`Report`] holds, as mathematical values.
pub struct ReportModel {
    pub width: int,
    pub height: int,
    pub panels: Seq<PanelModel>,
}

/// The models of a sequence of panels, one for one.
pub open spec fn panel_models(panels: Seq<Panel>) -> Seq<PanelModel> {
    Seq::new(panels.len(), |i: int| panels[i]@)
}

impl View for Report {
    type V = ReportModel;

    open spec fn view(&self) -> ReportModel {
        ReportModel {
            width: self.width as int,
            height: self.height as int,
            panels: panel_models(self.panels@),
        }
    }
}

/// The panel at place `place` of the report over `series`: the five
/// single-metric panels, then the engine panel.
pub open spec fn report_panel(series: Seq<SeriesModel>, place: int) -> PanelModel {
    if place < 5 {
        panel_plan(series, extremes_of(series), descriptors()[place])
    } else {
        browser_plan(series, extremes_of(series), IMAGE_WIDTH as int, IMAGE_HEIGHT as int)
    }
}

/// The plan of the report over `series`.
pub open spec fn report_plan(series: Seq<SeriesModel>) -> ReportModel {
    ReportModel {
        width: IMAGE_WIDTH as int,
        height: IMAGE_HEIGHT as int,
        panels: Seq::new(PANEL_COUNT as nat, |place: int| report_panel(series, place)),
    }
}

/// The panel at place `place` can be planned over `series`.
pub open spec fn place_plannable(series: Seq<SeriesModel>, place: int) -> bool {
    if place < 5 {
        panel_plannable(series, descriptors()[place])
    } else {
        browser_plannable(series)
    }
}

/// `error` is the failure of the panel at place `place` over `series`.
pub open spec fn place_failure(series: Seq<SeriesModel>, place: int, error: PlanError) -> bool {
    if place < 5 {
        panel_failure(series, descriptors()[place], error)
    } else {
        browser_failure(series, error)
    }
}

/// `error` is the failure of the first panel, from top to bottom, that
/// cannot be planned over `series`.
pub open spec fn report_failure(series: Seq<SeriesModel>, error: PlanError) -> bool {
    exists|place: int|
        {
            &&& 0 <= place < PANEL_COUNT
            &&& #[trigger] place_failure(series, place, error)
            &&& forall|earlier: int| 0 <= earlier < place ==> place_plannable(series, earlier)
        }
}

/// The report depends on the names and the readings alone: two rankings of
/// the same tables, given in any two orders, lead to the same plan when no
/// name occurs twice. Nothing in the plan depends on time, on chance, or on
/// the order in which an unordered collection is walked.
pub proof fn lemma_report_ignores_table_order(
    first: Seq<SeriesModel>,
    second: Seq<SeriesModel>,
    first_ranking: Seq<SeriesModel>,
    second_ranking: Seq<SeriesModel>,
)
    requires
        first.to_multiset() == second.to_multiset(),
        names_distinct(first),
        arranges(first_ranking, first),
        arranges(second_ranking, second),
    ensures
        report_plan(first_ranking) == report_plan(second_ranking),
{
    lemma_ranking_ignores_table_order(first, second, first_ranking, second_ranking);
}

/// The descriptor of the single-metric panel at place `place`.
pub fn descriptor_at(place: usize) -> (descriptor: PanelDescriptor)
    requires
        place < 5,
    ensures
        descriptor == descriptors()[place as int],
        !descriptor.metric.is_engine(),
{
    if place == 0 {
        PanelDescriptor {
            metric: Metric::InstallTime,
            style: MarkerStyle::HorizontalTick,
            summary: true,
            y_min: 0,
        }
    } else if place == 1 {
        PanelDescriptor {
            metric: Metric::BuildTime,
            style: MarkerStyle::HorizontalTick,
            summary: true,
            y_min: 0,
        }
    } else if place == 2 {
        PanelDescriptor {
            metric: Metric::BuildSize,
            style: MarkerStyle::Bar,
            summary: false,
            y_min: 0,
        }
    } else if place == 3 {
        PanelDescriptor {
            metric: Metric::DepsWithDuplicates,
            style: MarkerStyle::Bar,
            summary: false,
            y_min: 0,
        }
    } else {
        PanelDescriptor {
            metric: Metric::DepsWithoutDuplicates,
            style: MarkerStyle::Bar,
            summary: false,
            y_min: 0,
        }
    }
}

/// Plans the whole report: scans the extremes, then plans the six panels
/// from top to bottom. The first panel that cannot be planned stops the
/// report, and its error is the report's.
pub fn compose_report(dataset: &Dataset) -> (result: Result<Report, PlanError>)
    requires
        dataset.wf(),
    ensures
        match result {
            Ok(report) => {
                &&& forall|place: int| 0 <= place < PANEL_COUNT ==> place_plannable(dataset@, place)
                &&& report@ == report_plan(dataset@)
            },
            Err(error) => report_failure(dataset@, error),
        },
{
    let extremes = scan_extremes(dataset.series());
    assert(extremes == extremes_of(dataset@));
    let mut panels: Vec<Panel> = Vec::new();
    let mut place: usize = 0;
    while place < 5
        invariant
            place <= 5,
            dataset.wf(),
            extremes == extremes_of(dataset@),
            panels.len() == place,
            forall|p: int| 0 <= p < place ==> (#[trigger] panels@[p])@ == report_panel(dataset@, p),
            forall|p: int| 0 <= p < place ==> place_plannable(dataset@, p),
        decreases 5 - place,
    {
        let descriptor = descriptor_at(place);
        match plan_panel(dataset, &extremes, &descriptor) {
            Ok(panel) => {
                panels.push(panel);
            },
            Err(error) => {
                assert(place_failure(dataset@, place as int, error));
                return Err(error);
            },
        }
        place += 1;
    }
    match plan_browser_panel(dataset, &extremes, IMAGE_WIDTH, IMAGE_HEIGHT) {
        Ok(panel) => {
            panels.push(panel);
        },
        Err(error) => {
            assert(place_failure(dataset@, 5, error));
            return Err(error);
        },
    }
    let report = Report { width: IMAGE_WIDTH, height: IMAGE_HEIGHT, panels };
    assert(report@.panels =~= report_plan(dataset@).panels);
    Ok(report)
}

} // verus!
