use graphs::dataset::{ApplicationSeries, Dataset};
use graphs::marks::MarkerStyle;
use graphs::metric::{Metric, Sample};
use graphs::panel::PanelDescriptor;
use graphs::report::{compose_report, descriptor_at, IMAGE_HEIGHT, IMAGE_WIDTH, PANEL_COUNT};

fn complete(seed: i32) -> Sample {
    Sample::new(seed, seed + 1, seed + 2, seed + 3, seed + 4, seed + 5, seed + 6, seed + 7)
}

fn tables() -> Vec<ApplicationSeries> {
    vec![
        ApplicationSeries { name: "solid".to_string(), samples: vec![complete(10), complete(30)] },
        ApplicationSeries { name: "lit".to_string(), samples: vec![complete(20)] },
        ApplicationSeries { name: "qwik".to_string(), samples: vec![complete(5), complete(50), complete(15)] },
    ]
}

#[test]
fn descriptors_come_in_the_fixed_order() {
    let tick = |metric| PanelDescriptor { metric, style: MarkerStyle::HorizontalTick, summary: true, y_min: 0 };
    let bar = |metric| PanelDescriptor { metric, style: MarkerStyle::Bar, summary: false, y_min: 0 };
    assert_eq!(descriptor_at(0), tick(Metric::InstallTime));
    assert_eq!(descriptor_at(1), tick(Metric::BuildTime));
    assert_eq!(descriptor_at(2), bar(Metric::BuildSize));
    assert_eq!(descriptor_at(3), bar(Metric::DepsWithDuplicates));
    assert_eq!(descriptor_at(4), bar(Metric::DepsWithoutDuplicates));
}

#[test]
fn report_stacks_six_panels_in_the_fixed_order() {
    let report = compose_report(&Dataset::assemble(tables())).unwrap();
    assert_eq!((report.width, report.height), (600, 1800));
    assert_eq!((IMAGE_WIDTH, IMAGE_HEIGHT, PANEL_COUNT), (600, 1800, 6));
    let titles: Vec<&str> = report.panels.iter().map(|p| p.title.as_str()).collect();
    assert_eq!(
        titles,
        vec![
            "Install time (in ms)",
            "Build time (in ms)",
            "Build size (in KB)",
            "Deps with duplicates",
            "Deps without duplicates",
            "In-browser execution (in ms)",
        ]
    );
    for panel in report.panels.iter().take(5) {
        assert_eq!(panel.layers.len(), 3);
        assert!(panel.legend.is_empty());
        assert_eq!(panel.x_end, 400);
        assert_eq!(panel.ticks.len(), 4);
    }
    assert_eq!(report.panels[5].layers.len(), 9);
    assert_eq!(report.panels[5].legend.len(), 3);
    assert!(report.panels[0].layers.iter().all(|l| l.summary.is_some()));
    assert!(report.panels[1].layers.iter().all(|l| l.summary.is_some()));
    for panel in report.panels.iter().skip(2).take(3) {
        assert!(panel.layers.iter().all(|l| l.summary.is_none()));
    }
    assert!(report.panels[5].layers.iter().all(|l| l.summary.is_some()));
    // extremes: install 50, build 51, size 54, deps 52 and 53
    let tops: Vec<i64> = report.panels.iter().map(|p| p.y_range.high_milli).collect();
    assert_eq!(tops, vec![51_250, 52_275, 55_350, 53_300, 54_325, 59_850]);
    assert_eq!(report.panels[5].y_range.low_milli, 9750);
}

#[test]
fn report_is_the_same_whatever_the_order_of_the_tables() {
    let reference = compose_report(&Dataset::assemble(tables())).unwrap();
    let mut reversed = tables();
    reversed.reverse();
    let mut rotated = tables();
    rotated.rotate_left(1);
    for shuffled in [reversed, rotated, tables()] {
        let report = compose_report(&Dataset::assemble(shuffled)).unwrap();
        assert_eq!(format!("{:?}", report), format!("{:?}", reference));
    }
}

#[test]
fn report_of_no_applications_has_six_empty_panels() {
    let report = compose_report(&Dataset::assemble(Vec::new())).unwrap();
    assert_eq!(report.panels.len(), 6);
    assert!(report.panels.iter().all(|p| p.layers.is_empty() && p.ticks.len() == 1));
    assert_eq!(report.panels[5].y_range.low_milli, 2_093_796_555_825);
    assert_eq!(report.panels[5].y_range.high_milli, 0);
}

#[test]
fn report_fails_on_install_time_before_build_time() {
    let mut given = tables();
    given[0].samples = vec![Sample::new(0, 0, 1, 1, 1, 1, 1, 1)];
    let error = compose_report(&Dataset::assemble(given)).unwrap_err();
    // "solid" ranks third
    assert_eq!(error.ordinal, 3);
    assert_eq!(error.cause.metric, Metric::InstallTime);
}

#[test]
fn report_does_not_fail_on_panels_without_summary() {
    let mut given = tables();
    given[1].samples = vec![Sample::new(1, 1, 0, 0, 0, 1, 1, 1)];
    let report = compose_report(&Dataset::assemble(given)).unwrap();
    assert!(report.panels[2].layers[0].marks.is_empty());
    assert!(report.panels[3].layers[0].marks.is_empty());
    assert!(report.panels[4].layers[0].marks.is_empty());
}

#[test]
fn report_fails_on_the_engine_panel_last() {
    let mut given = tables();
    given[2].samples = vec![Sample::new(1, 1, 1, 1, 1, 1, 1, 0)];
    let error = compose_report(&Dataset::assemble(given)).unwrap_err();
    // "qwik" ranks second
    assert_eq!(error.ordinal, 2);
    assert_eq!(error.cause.metric, Metric::Webkit);
}
