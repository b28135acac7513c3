use graphs::dataset::{ApplicationSeries, Dataset};
use graphs::extremes::scan_extremes;
use graphs::marks::{draw_samples, Color, MarkerStyle, Shape};
use graphs::metric::{Metric, Sample};
use graphs::panel::{plan_panel, range_of_panel, title_of, AxisRange, PanelDescriptor};
use graphs::statistics::SummaryStatistics;
use graphs::summary_marker::{summary_marker, SummaryMarker};

fn sizes(values: &[i32]) -> Vec<Sample> {
    values.iter().map(|v| Sample::new(0, 0, 0, 0, *v, 0, 0, 0)).collect()
}

fn dataset() -> Dataset {
    Dataset::assemble(vec![
        ApplicationSeries { name: "two".to_string(), samples: sizes(&[0, 7, -2, 9]) },
        ApplicationSeries { name: "one".to_string(), samples: sizes(&[5, 3]) },
        ApplicationSeries { name: "three".to_string(), samples: sizes(&[]) },
        ApplicationSeries { name: "four".to_string(), samples: sizes(&[0, 0]) },
    ])
}

fn descriptor(style: MarkerStyle, summary: bool) -> PanelDescriptor {
    PanelDescriptor { metric: Metric::BuildSize, style, summary, y_min: 0 }
}

#[test]
fn ticks_are_sixty_wide_and_sit_at_the_reading() {
    let marks = draw_samples(&sizes(&[12, 0, 40]), Metric::BuildSize, MarkerStyle::HorizontalTick, 30, 300);
    assert_eq!(
        marks,
        vec![
            Shape::Segment { x_from: 270, x_to: 330, y: 12 },
            Shape::Segment { x_from: 270, x_to: 330, y: 40 },
        ]
    );
}

#[test]
fn bars_are_forty_wide_and_rise_to_the_reading() {
    let marks = draw_samples(&sizes(&[12, -1, 40]), Metric::BuildSize, MarkerStyle::Bar, 20, 100);
    assert_eq!(
        marks,
        vec![
            Shape::Bar { x_from: 80, x_to: 120, y_top: 12 },
            Shape::Bar { x_from: 80, x_to: 120, y_top: 40 },
        ]
    );
}

#[test]
fn points_sit_at_the_application_and_the_reading() {
    let marks = draw_samples(&sizes(&[0, 12, 40]), Metric::BuildSize, MarkerStyle::Point, 0, 200);
    assert_eq!(marks, vec![Shape::Point { x: 200, y: 12 }, Shape::Point { x: 200, y: 40 }]);
}

#[test]
fn every_style_has_its_half_width() {
    assert_eq!(MarkerStyle::HorizontalTick.half_width(), 30);
    assert_eq!(MarkerStyle::Bar.half_width(), 20);
    assert_eq!(MarkerStyle::Point.half_width(), 0);
}

#[test]
fn marks_are_as_many_as_measured_readings() {
    let mut seed: u32 = 7;
    for style in [MarkerStyle::HorizontalTick, MarkerStyle::Bar, MarkerStyle::Point] {
        for length in 0..25usize {
            let mut values = Vec::new();
            for _ in 0..length {
                seed = seed.wrapping_mul(1664525).wrapping_add(1013904223);
                values.push((seed >> 10) as i32 % 7 - 3);
            }
            let marks = draw_samples(&sizes(&values), Metric::BuildSize, style, style.half_width(), 500);
            assert_eq!(marks.len(), values.iter().filter(|v| **v > 0).count());
            let heights: Vec<i32> = marks
                .iter()
                .map(|m| match m {
                    Shape::Segment { y, .. } => *y,
                    Shape::Bar { y_top, .. } => *y_top,
                    Shape::Point { y, .. } => *y,
                })
                .collect();
            let kept: Vec<i32> = values.iter().copied().filter(|v| *v > 0).collect();
            assert_eq!(heights, kept);
        }
    }
}

#[test]
fn application_colour_is_its_rank_on_the_wheel() {
    assert_eq!(
        Color::of_application(2, 5),
        Color { hue_numerator: 2, hue_denominator: 5, saturation: 1000, lightness: 500 }
    );
    assert_eq!(
        Color::of_application(5, 5),
        Color { hue_numerator: 5, hue_denominator: 5, saturation: 1000, lightness: 500 }
    );
    assert_eq!(
        Color::of_summary(),
        Color { hue_numerator: 0, hue_denominator: 1, saturation: 0, lightness: 0 }
    );
}

#[test]
fn whiskers_are_one_and_a_half_times_the_box_rounded_up() {
    let stats = SummaryStatistics { min: 1, q1: 2, median: 3, q3: 4, max: 5 };
    for (half_width, whisker) in [(0, 0), (1, 2), (2, 3), (3, 5), (4, 6), (5, 8), (7, 11), (10, 15)] {
        assert_eq!(
            summary_marker(stats, 300, half_width),
            SummaryMarker {
                x: 300,
                box_half_width: half_width,
                whisker_half_width: whisker,
                statistics: stats,
                color: Color::of_summary(),
            }
        );
    }
    assert_eq!(summary_marker(stats, -4, 1_431_655_764).whisker_half_width, 2_147_483_646);
}

#[test]
fn summary_marker_keeps_values_outside_any_axis_range() {
    let stats = SummaryStatistics { min: 1, q1: 5_000_000, median: 9_000_000, q3: i32::MAX, max: i32::MAX };
    let marker = summary_marker(stats, i32::MAX, 7);
    assert_eq!(marker.statistics, stats);
    assert_eq!(marker.x, i32::MAX);
}

#[test]
fn panel_range_adds_headroom_above_the_extreme() {
    assert_eq!(range_of_panel(0, 380), AxisRange { low_milli: 0, high_milli: 389_500 });
    assert_eq!(range_of_panel(0, 0), AxisRange { low_milli: 0, high_milli: 0 });
    assert_eq!(range_of_panel(-3, 1000), AxisRange { low_milli: -3000, high_milli: 1_025_000 });
    assert_eq!(
        range_of_panel(i32::MIN, i32::MAX),
        AxisRange { low_milli: -2_147_483_648_000, high_milli: 2_201_170_738_175 }
    );
}

#[test]
fn titles_are_fixed_per_metric() {
    assert_eq!(title_of(Metric::InstallTime), "Install time (in ms)");
    assert_eq!(title_of(Metric::BuildTime), "Build time (in ms)");
    assert_eq!(title_of(Metric::DepsWithDuplicates), "Deps with duplicates");
    assert_eq!(title_of(Metric::DepsWithoutDuplicates), "Deps without duplicates");
    assert_eq!(title_of(Metric::BuildSize), "Build size (in KB)");
    assert_eq!(title_of(Metric::Chromium), "In-browser execution (in ms)");
    assert_eq!(title_of(Metric::Firefox), "In-browser execution (in ms)");
    assert_eq!(title_of(Metric::Webkit), "In-browser execution (in ms)");
}

#[test]
fn bar_panel_is_planned_in_full() {
    let dataset = dataset();
    let extremes = scan_extremes(dataset.series());
    let panel = plan_panel(&dataset, &extremes, &descriptor(MarkerStyle::Bar, false)).unwrap();
    assert_eq!(panel.title, "Build size (in KB)");
    assert_eq!(panel.x_end, 500);
    assert_eq!(panel.y_range, AxisRange { low_milli: 0, high_milli: 9225 });
    let ticks: Vec<(i32, &str)> = panel.ticks.iter().map(|t| (t.position, t.label.as_str())).collect();
    assert_eq!(ticks, vec![(0, ""), (100, "four"), (200, "one"), (300, "three"), (400, "two")]);
    assert!(panel.legend.is_empty());
    assert!(!panel.gridlines);
    assert_eq!(panel.layers.len(), 4);
    for (i, layer) in panel.layers.iter().enumerate() {
        assert_eq!(layer.color, Color::of_application(i as i32 + 1, 4));
        assert_eq!(layer.summary, None);
    }
    assert!(panel.layers[0].marks.is_empty());
    assert_eq!(
        panel.layers[1].marks,
        vec![
            Shape::Bar { x_from: 180, x_to: 220, y_top: 5 },
            Shape::Bar { x_from: 180, x_to: 220, y_top: 3 },
        ]
    );
    assert!(panel.layers[2].marks.is_empty());
    assert_eq!(
        panel.layers[3].marks,
        vec![
            Shape::Bar { x_from: 380, x_to: 420, y_top: 7 },
            Shape::Bar { x_from: 380, x_to: 420, y_top: 9 },
        ]
    );
}

#[test]
fn panel_lower_end_is_the_configured_minimum() {
    let dataset = dataset();
    let extremes = scan_extremes(dataset.series());
    let lifted = PanelDescriptor { metric: Metric::BuildSize, style: MarkerStyle::Point, summary: false, y_min: 2 };
    let panel = plan_panel(&dataset, &extremes, &lifted).unwrap();
    assert_eq!(panel.y_range, AxisRange { low_milli: 2000, high_milli: 9225 });
}

#[test]
fn summary_overlay_sits_at_every_application() {
    let dataset = Dataset::assemble(vec![
        ApplicationSeries { name: "b".to_string(), samples: sizes(&[4, 2, 0, 8, 6]) },
        ApplicationSeries { name: "a".to_string(), samples: sizes(&[10]) },
    ]);
    let extremes = scan_extremes(dataset.series());
    let panel = plan_panel(&dataset, &extremes, &descriptor(MarkerStyle::HorizontalTick, true)).unwrap();
    assert_eq!(
        panel.layers[0].summary,
        Some(SummaryMarker {
            x: 100,
            box_half_width: 7,
            whisker_half_width: 11,
            statistics: SummaryStatistics { min: 10, q1: 10, median: 10, q3: 10, max: 10 },
            color: Color::of_summary(),
        })
    );
    assert_eq!(
        panel.layers[1].summary,
        Some(SummaryMarker {
            x: 200,
            box_half_width: 7,
            whisker_half_width: 11,
            statistics: SummaryStatistics { min: 2, q1: 4, median: 6, q3: 8, max: 8 },
            color: Color::of_summary(),
        })
    );
    assert_eq!(panel.layers[1].marks.len(), 4);
    assert_eq!(panel.y_range, AxisRange { low_milli: 0, high_milli: 10_250 });
}

#[test]
fn summary_overlay_stops_at_the_first_application_without_readings() {
    let dataset = dataset();
    let extremes = scan_extremes(dataset.series());
    let error = plan_panel(&dataset, &extremes, &descriptor(MarkerStyle::Bar, true)).unwrap_err();
    // "four" is first by name and has only unmeasured readings
    assert_eq!(error.ordinal, 1);
    assert_eq!(error.cause.metric, Metric::BuildSize);
}

#[test]
fn panel_of_no_applications_is_empty_but_well_formed() {
    let dataset = Dataset::assemble(Vec::new());
    let extremes = scan_extremes(dataset.series());
    let panel = plan_panel(&dataset, &extremes, &descriptor(MarkerStyle::Bar, true)).unwrap();
    assert_eq!(panel.x_end, 100);
    assert_eq!(panel.ticks.len(), 1);
    assert!(panel.layers.is_empty());
    assert_eq!(panel.y_range, AxisRange { low_milli: 0, high_milli: 0 });
}
