//! What a panel is made of: colours, the marks of single samples, and the
//! summary marker laid over them.

use vstd::prelude::*;
use crate::metric::{Metric, Sample};
use crate::statistics::qualifying;

verus! {

/// Half the length of a horizontal tick, in X units.
pub const TICK_HALF_WIDTH: i32 = 30;

/// Half the width of a bar, in X units.
pub const BAR_HALF_WIDTH: i32 = 20;

/// Half the length of a tick in an offset strip, in X units.
pub const STRIP_HALF_WIDTH: i32 = 5;

/// How the samples of a metric are drawn.
#[derive(Clone, Copy, Debug, PartialEq, Eq, Structural)]
pub enum MarkerStyle {
    /// A short horizontal segment at the sample's value.
    HorizontalTick,
    /// A filled rectangle from 0 up to the sample's value.
    Bar,
    /// A filled circle at the sample's value.
    Point,
}

/// A colour on the HSL wheel. The hue is the fraction
/// `hue_numerator / hue_denominator` of a full turn; saturation and
/// lightness are in thousandths.
#[derive(Clone, Copy, Debug, PartialEq, Eq, Structural)]
pub struct Color {
    pub hue_numerator: i32,
    pub hue_denominator: i32,
    pub saturation: i32,
    pub lightness: i32,
}

/// One drawn mark, in axis coordinates.
#[derive(Clone, Copy, Debug, PartialEq, Eq, Structural)]
pub enum Shape {
    /// A horizontal segment from `x_from` to `x_to` at height `y`.
    Segment { x_from: i32, x_to: i32, y: i32 },
    /// A filled rectangle from `x_from` to `x_to`, from height 0 to `y_top`.
    Bar { x_from: i32, x_to: i32, y_top: i32 },
    /// A filled circle centred at (`x`, `y`).
    Point { x: i32, y: i32 },
}

/// The colour of the application with ordinal `ordinal` among `count`:
/// full saturation, half lightness, and the hue `ordinal / count` of a turn.
/// It depends on the rank of the application alone, never on a reading.
pub open spec fn application_color(ordinal: int, count: int) -> Color {
    Color {
        hue_numerator: ordinal as i32,
        hue_denominator: count as i32,
        saturation: 1000,
        lightness: 500,
    }
}

/// The colour of the summary marker: black, whatever the application.
pub open spec fn summary_color() -> Color {
    Color { hue_numerator: 0, hue_denominator: 1, saturation: 0, lightness: 0 }
}

/// The half-width that goes with a marker style in a single-metric panel.
pub open spec fn style_half_width(style: MarkerStyle) -> int {
    match style {
        MarkerStyle::HorizontalTick => TICK_HALF_WIDTH as int,
        MarkerStyle::Bar => BAR_HALF_WIDTH as int,
        MarkerStyle::Point => 0,
    }
}

/// The mark of one reading `y` of an application that sits at `x`.
pub open spec fn mark_shape(style: MarkerStyle, half_width: int, x: int, y: int) -> Shape {
    match style {
        MarkerStyle::HorizontalTick => Shape::Segment {
            x_from: (x - half_width) as i32,
            x_to: (x + half_width) as i32,
            y: y as i32,
        },
        MarkerStyle::Bar => Shape::Bar {
            x_from: (x - half_width) as i32,
            x_to: (x + half_width) as i32,
            y_top: y as i32,
        },
        MarkerStyle::Point => Shape::Point { x: x as i32, y: y as i32 },
    }
}

/// The marks of one application for one metric: one for each measured
/// reading, in sample order, and none for a reading of zero or less.
pub open spec fn sample_marks(
    samples: Seq<Sample>,
    metric: Metric,
    style: MarkerStyle,
    half_width: int,
    x: int,
) -> Seq<Shape> {
    Seq::new(
        qualifying(samples, metric).len(),
        |i: int| mark_shape(style, half_width, x, qualifying(samples, metric)[i]),
    )
}

/// The number of samples with a measured reading of `metric`.
pub open spec fn measured_count(samples: Seq<Sample>, metric: Metric) -> nat
    decreases samples.len(),
{
    if samples.len() == 0 {
        0
    } else {
        measured_count(samples.drop_last(), metric) + if samples.last().measured(metric) {
            1nat
        } else {
            0nat
        }
    }
}

/// The qualifying readings are the measured ones: there are as many as
/// there are measured samples, and each is strictly positive.
pub proof fn lemma_qualifying_are_the_measured(samples: Seq<Sample>, metric: Metric)
    ensures
        qualifying(samples, metric).len() == measured_count(samples, metric),
        forall|i: int|
            0 <= i < qualifying(samples, metric).len() ==> #[trigger] qualifying(
                samples,
                metric,
            )[i] > 0,
    decreases samples.len(),
{
    if samples.len() > 0 {
        lemma_qualifying_are_the_measured(samples.drop_last(), metric);
    }
}

/// An application gets exactly as many marks as it has measured readings of
/// the metric, each at the height of a strictly positive reading: a reading
/// of zero or less is never drawn.
pub proof fn lemma_marks_are_the_measured(
    samples: Seq<Sample>,
    metric: Metric,
    style: MarkerStyle,
    half_width: int,
    x: int,
)
    ensures
        sample_marks(samples, metric, style, half_width, x).len() == measured_count(samples, metric),
        forall|i: int|
            0 <= i < sample_marks(samples, metric, style, half_width, x).len() ==> exists|y: int|
                y > 0 && #[trigger] sample_marks(samples, metric, style, half_width, x)[i]
                    == mark_shape(style, half_width, x, y),
{
    lemma_qualifying_are_the_measured(samples, metric);
    let marks = sample_marks(samples, metric, style, half_width, x);
    assert forall|i: int| 0 <= i < marks.len() implies exists|y: int|
        y > 0 && #[trigger] marks[i] == mark_shape(style, half_width, x, y) by {
        let y = qualifying(samples, metric)[i];
        assert(y > 0 && marks[i] == mark_shape(style, half_width, x, y));
    }
}

impl Color {
    /// The colour of the application with ordinal `ordinal` among `count`.
    pub fn of_application(ordinal: i32, count: i32) -> (color: Color)
        ensures
            color == application_color(ordinal as int, count as int),
    {
        Color { hue_numerator: ordinal, hue_denominator: count, saturation: 1000, lightness: 500 }
    }

    /// The colour of the summary marker.
    pub fn of_summary() -> (color: Color)
        ensures
            color == summary_color(),
    {
        Color { hue_numerator: 0, hue_denominator: 1, saturation: 0, lightness: 0 }
    }
}

impl MarkerStyle {
    /// The half-width that goes with the style in a single-metric panel.
    pub fn half_width(&self) -> (half_width: i32)
        ensures
            half_width == style_half_width(*self),
    {
        match self {
            MarkerStyle::HorizontalTick => TICK_HALF_WIDTH,
            MarkerStyle::Bar => BAR_HALF_WIDTH,
            MarkerStyle::Point => 0,
        }
    }

    /// The mark of one reading `y` of an application that sits at `x`.
    pub fn shape_at(&self, half_width: i32, x: i32, y: i32) -> (shape: Shape)
        requires
            i32::MIN <= x - half_width <= i32::MAX,
            i32::MIN <= x + half_width <= i32::MAX,
        ensures
            shape == mark_shape(*self, half_width as int, x as int, y as int),
    {
        match self {
            MarkerStyle::HorizontalTick => Shape::Segment {
                x_from: x - half_width,
                x_to: x + half_width,
                y,
            },
            MarkerStyle::Bar => Shape::Bar { x_from: x - half_width, x_to: x + half_width, y_top: y },
            MarkerStyle::Point => Shape::Point { x, y },
        }
    }
}

/// Draws the samples of one application for one metric: a mark for each
/// measured reading, in sample order, all at the application's position `x`.
pub fn draw_samples(
    samples: &Vec<Sample>,
    metric: Metric,
    style: MarkerStyle,
    half_width: i32,
    x: i32,
) -> (marks: Vec<Shape>)
    requires
        i32::MIN <= x - half_width <= i32::MAX,
        i32::MIN <= x + half_width <= i32::MAX,
    ensures
        marks@ == sample_marks(samples@, metric, style, half_width as int, x as int),
        marks@.len() == measured_count(samples@, metric),
{
    let mut marks: Vec<Shape> = Vec::new();
    let mut k: usize = 0;
    assert(samples@.take(0) =~= Seq::empty());
    while k < samples.len()
        invariant
            k <= samples.len(),
            i32::MIN <= x - half_width <= i32::MAX,
            i32::MIN <= x + half_width <= i32::MAX,
            marks@ =~= sample_marks(
                samples@.take(k as int),
                metric,
                style,
                half_width as int,
                x as int,
            ),
        decreases samples.len() - k,
    {
        let y = samples[k].get(metric);
        proof {
            let next = samples@.take(k + 1);
            assert(next.drop_last() =~= samples@.take(k as int));
            assert(next.last() == samples@[k as int]);
        }
        if y > 0 {
            marks.push(style.shape_at(half_width, x, y));
        }
        k += 1;
    }
    proof {
        assert(samples@.take(samples.len() as int) =~= samples@);
        lemma_qualifying_are_the_measured(samples@, metric);
    }
    marks
}

} // verus!
