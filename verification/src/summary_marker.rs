//! The summary marker: a quartile box with three whisker caps.

use vstd::prelude::*;
use crate::marks::{summary_color, Color};
use crate::statistics::SummaryStatistics;

verus! {

/// The largest box half-width whose whisker half-width still fits an `i32`.
pub const MAX_BOX_HALF_WIDTH: i32 = 1_431_655_764;

/// The overlay drawn for one five-number summary, centred at `x`.
///
/// It stands for a filled box from `q1` up to `q3`, `box_half_width` to
/// either side of `x`, and three horizontal caps at `min`, `median` and
/// `max`, each reaching `whisker_half_width` to either side of `x`, all in
/// `color`. It is an annotation over the samples, in a colour that no
/// application has, and has no part in sizing an axis.
#[derive(Clone, Copy, Debug, PartialEq, Eq, Structural)]
pub struct SummaryMarker {
    pub x: i32,
    pub box_half_width: i32,
    pub whisker_half_width: i32,
    pub statistics: SummaryStatistics,
    pub color: Color,
}

/// One and a half times the box half-width, rounded up.
pub open spec fn whisker_half_width(box_half_width: int) -> int {
    (3 * box_half_width + 1) / 2
}

/// The marker of `statistics` at `x` with a box of half-width
/// `box_half_width`.
pub open spec fn marker_at(statistics: SummaryStatistics, x: int, box_half_width: int)
    -> SummaryMarker {
    SummaryMarker {
        x: x as i32,
        box_half_width: box_half_width as i32,
        whisker_half_width: whisker_half_width(box_half_width) as i32,
        statistics,
        color: summary_color(),
    }
}

/// The whisker half-width is the least whole number that is at least one
/// and a half times the box half-width. So a cap is never narrower than the
/// box, and wider as soon as the box has any width.
pub proof fn lemma_whisker_is_wider(box_half_width: int)
    requires
        0 <= box_half_width,
    ensures
        2 * whisker_half_width(box_half_width) >= 3 * box_half_width,
        2 * (whisker_half_width(box_half_width) - 1) < 3 * box_half_width,
        whisker_half_width(box_half_width) >= box_half_width,
        box_half_width > 0 ==> whisker_half_width(box_half_width) > box_half_width,
{
}

/// Lays out the summary marker of `statistics` at `x`.
///
/// The values of the summary are taken as they are, also where they lie
/// outside the range of the panel's Y axis.
pub fn summary_marker(statistics: SummaryStatistics, x: i32, box_half_width: i32) -> (marker:
    SummaryMarker)
    requires
        0 <= box_half_width <= MAX_BOX_HALF_WIDTH,
    ensures
        marker == marker_at(statistics, x as int, box_half_width as int),
{
    let tripled: i64 = 3 * (box_half_width as i64) + 1;
    let whisker: i64 = tripled / 2;
    SummaryMarker {
        x,
        box_half_width,
        whisker_half_width: whisker as i32,
        statistics,
        color: Color::of_summary(),
    }
}

} // verus!
