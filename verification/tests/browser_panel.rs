use graphs::browser::{
    caption_of_engine, color_of_engine, engine_in_slot, engine_strip, legend_of_browser_panel,
    offset_of_engine, plan_browser_panel, range_of_browser_panel, scan_lowest_engine_reading,
};
use graphs::dataset::{ApplicationSeries, Dataset};
use graphs::extremes::{scan_extremes, Extremes};
use graphs::marks::{Color, Shape};
use graphs::metric::{Metric, Sample};
use graphs::panel::AxisRange;
use graphs::statistics::{StatisticsError, SummaryStatistics};
use graphs::summary_marker::SummaryMarker;

fn run(chromium: i32, firefox: i32, webkit: i32) -> Sample {
    Sample::new(0, 0, 0, 0, 0, chromium, firefox, webkit)
}

fn series(name: &str, samples: Vec<Sample>) -> ApplicationSeries {
    ApplicationSeries { name: name.to_string(), samples }
}

fn flat(value: i32) -> SummaryStatistics {
    SummaryStatistics { min: value, q1: value, median: value, q3: value, max: value }
}

#[test]
fn engines_are_drawn_chromium_webkit_firefox() {
    assert_eq!(engine_in_slot(0), Metric::Chromium);
    assert_eq!(engine_in_slot(1), Metric::Webkit);
    assert_eq!(engine_in_slot(2), Metric::Firefox);
    assert_eq!(offset_of_engine(Metric::Chromium), -23);
    assert_eq!(offset_of_engine(Metric::Webkit), 0);
    assert_eq!(offset_of_engine(Metric::Firefox), 23);
}

#[test]
fn engines_have_fixed_colours_and_captions() {
    assert_eq!(
        color_of_engine(Metric::Chromium),
        Color { hue_numerator: 0, hue_denominator: 1000, saturation: 1000, lightness: 500 }
    );
    assert_eq!(
        color_of_engine(Metric::Webkit),
        Color { hue_numerator: 333, hue_denominator: 1000, saturation: 1000, lightness: 500 }
    );
    assert_eq!(
        color_of_engine(Metric::Firefox),
        Color { hue_numerator: 666, hue_denominator: 1000, saturation: 1000, lightness: 750 }
    );
    assert_eq!(caption_of_engine(Metric::Chromium), "\u{2015} Chromium");
    assert_eq!(caption_of_engine(Metric::Webkit), "\u{2015} Webkit");
    assert_eq!(caption_of_engine(Metric::Firefox), "\u{2015} Firefox");
}

#[test]
fn legend_is_laid_out_from_the_image_size() {
    let legend = legend_of_browser_panel(600, 1800);
    let places: Vec<(&str, i32, i32)> = legend.iter().map(|e| (e.text.as_str(), e.x, e.y)).collect();
    assert_eq!(
        places,
        vec![
            ("\u{2015} Chromium", 120, 257),
            ("\u{2015} Webkit", 240, 257),
            ("\u{2015} Firefox", 360, 257),
        ]
    );
    assert_eq!(legend[0].color, color_of_engine(Metric::Chromium));
    assert_eq!(legend[1].color, color_of_engine(Metric::Webkit));
    assert_eq!(legend[2].color, color_of_engine(Metric::Firefox));
    let small = legend_of_browser_panel(4, 6);
    assert_eq!(small.iter().map(|e| (e.x, e.y)).collect::<Vec<_>>(), vec![(0, 0), (0, 0), (0, 0)]);
    let large = legend_of_browser_panel(i32::MAX, i32::MAX);
    assert_eq!(
        large.iter().map(|e| (e.x, e.y)).collect::<Vec<_>>(),
        vec![(429_496_729, 306_783_378), (858_993_458, 306_783_378), (1_288_490_187, 306_783_378)]
    );
}

#[test]
fn strip_is_offset_from_the_application() {
    let samples = vec![run(30, 50, 40), run(0, 70, 44), run(32, -1, 48)];
    let chromium = engine_strip(&samples, 2, Metric::Chromium).unwrap();
    assert_eq!(chromium.color, color_of_engine(Metric::Chromium));
    assert_eq!(
        chromium.marks,
        vec![
            Shape::Segment { x_from: 172, x_to: 182, y: 30 },
            Shape::Segment { x_from: 172, x_to: 182, y: 32 },
        ]
    );
    assert_eq!(
        chromium.summary,
        Some(SummaryMarker {
            x: 177,
            box_half_width: 5,
            whisker_half_width: 8,
            statistics: SummaryStatistics { min: 30, q1: 30, median: 32, q3: 32, max: 32 },
            color: Color { hue_numerator: 0, hue_denominator: 1, saturation: 0, lightness: 0 },
        })
    );
    let webkit = engine_strip(&samples, 2, Metric::Webkit).unwrap();
    assert_eq!(webkit.marks.len(), 3);
    assert_eq!(webkit.marks[0], Shape::Segment { x_from: 195, x_to: 205, y: 40 });
    assert_eq!(webkit.summary.unwrap().x, 200);
    let firefox = engine_strip(&samples, 2, Metric::Firefox).unwrap();
    assert_eq!(
        firefox.marks,
        vec![
            Shape::Segment { x_from: 218, x_to: 228, y: 50 },
            Shape::Segment { x_from: 218, x_to: 228, y: 70 },
        ]
    );
    assert_eq!(firefox.summary.unwrap().x, 223);
}

#[test]
fn strip_without_readings_is_a_statistics_error() {
    let samples = vec![run(30, 0, 40)];
    assert_eq!(
        engine_strip(&samples, 1, Metric::Firefox).unwrap_err(),
        StatisticsError { metric: Metric::Firefox }
    );
}

#[test]
fn lowest_engine_reading_skips_unmeasured_readings() {
    let all = vec![
        series("a", vec![run(30, 0, 40), run(-5, 70, 44)]),
        series("b", vec![]),
        series("c", vec![run(32, 29, 0)]),
    ];
    assert_eq!(scan_lowest_engine_reading(&all), 29);
    let none = vec![series("a", vec![run(0, -1, 0)])];
    assert_eq!(scan_lowest_engine_reading(&none), i32::MAX);
    assert_eq!(scan_lowest_engine_reading(&Vec::new()), i32::MAX);
    let ignores_other_metrics = vec![series("a", vec![Sample::new(1, 1, 1, 1, 1, 9, 8, 7)])];
    assert_eq!(scan_lowest_engine_reading(&ignores_other_metrics), 7);
}

#[test]
fn browser_range_is_tighter_below_than_above() {
    let extremes = Extremes {
        install_time: 9999,
        build_time: 0,
        deps_with_duplicates: 0,
        deps_without_duplicates: 0,
        build_size: 0,
        chromium: 400,
        firefox: 800,
        webkit: 600,
    };
    assert_eq!(
        range_of_browser_panel(200, &extremes),
        AxisRange { low_milli: 195_000, high_milli: 840_000 }
    );
    let webkit_highest = Extremes { webkit: 1000, ..extremes };
    assert_eq!(range_of_browser_panel(1, &webkit_highest).high_milli, 1_050_000);
    let chromium_highest = Extremes { chromium: 2000, ..extremes };
    assert_eq!(range_of_browser_panel(1, &chromium_highest).high_milli, 2_100_000);
    assert_eq!(range_of_browser_panel(i32::MAX, &extremes).low_milli, 2_093_796_555_825);
}

#[test]
fn browser_panel_is_planned_in_full() {
    let dataset = Dataset::assemble(vec![
        series("beta", vec![run(20, 24, 22)]),
        series("alpha", vec![run(10, 14, 12), run(11, 0, 13)]),
    ]);
    let extremes = scan_extremes(dataset.series());
    let panel = plan_browser_panel(&dataset, &extremes, 600, 1800).unwrap();
    assert_eq!(panel.title, "In-browser execution (in ms)");
    assert_eq!(panel.x_end, 300);
    assert_eq!(panel.y_range, AxisRange { low_milli: 9750, high_milli: 25_200 });
    let ticks: Vec<(i32, &str)> = panel.ticks.iter().map(|t| (t.position, t.label.as_str())).collect();
    assert_eq!(ticks, vec![(0, ""), (100, "alpha"), (200, "beta")]);
    assert_eq!(panel.legend.len(), 3);
    assert!(!panel.gridlines);
    assert_eq!(panel.layers.len(), 6);
    let engines = [Metric::Chromium, Metric::Webkit, Metric::Firefox];
    for (j, layer) in panel.layers.iter().enumerate() {
        assert_eq!(layer.color, color_of_engine(engines[j % 3]));
        let x = (j as i32 / 3 + 1) * 100 + (j as i32 % 3 - 1) * 23;
        assert_eq!(layer.summary.unwrap().x, x);
        assert_eq!(layer.summary.unwrap().box_half_width, 5);
        assert_eq!(layer.summary.unwrap().whisker_half_width, 8);
    }
    assert_eq!(
        panel.layers[0].marks,
        vec![
            Shape::Segment { x_from: 72, x_to: 82, y: 10 },
            Shape::Segment { x_from: 72, x_to: 82, y: 11 },
        ]
    );
    assert_eq!(panel.layers[2].marks, vec![Shape::Segment { x_from: 118, x_to: 128, y: 14 }]);
    assert_eq!(panel.layers[2].summary.unwrap().statistics, flat(14));
    assert_eq!(panel.layers[4].marks, vec![Shape::Segment { x_from: 195, x_to: 205, y: 22 }]);
    assert_eq!(panel.layers[5].summary.unwrap().statistics, flat(24));
}

#[test]
fn browser_panel_stops_at_the_first_strip_without_readings() {
    let dataset = Dataset::assemble(vec![
        series("beta", vec![run(0, 24, 22)]),
        series("alpha", vec![run(10, 0, 12)]),
        series("gamma", vec![run(0, 0, 0)]),
    ]);
    let extremes = scan_extremes(dataset.series());
    let error = plan_browser_panel(&dataset, &extremes, 600, 1800).unwrap_err();
    // alpha: chromium and webkit are measured, firefox is not
    assert_eq!(error.ordinal, 1);
    assert_eq!(error.cause, StatisticsError { metric: Metric::Firefox });
}
