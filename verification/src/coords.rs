//! The shared categorical X axis.
//!
//! Applications sit on an integer axis, `SPACING` units apart, so that bars,
//! offset strips and whisker caps find room between two neighbours. The
//! application with ordinal `k` sits at `k * SPACING`.

use vstd::prelude::*;
use crate::dataset::{models, ApplicationSeries, SeriesModel, MAX_APPLICATIONS};

verus! {

/// The distance on the X axis between two neighbouring applications.
pub const SPACING: i32 = 100;

/// The X coordinate of the application with ordinal `ordinal`.
pub open spec fn position(ordinal: int) -> int {
    ordinal * SPACING
}

/// The upper end of the X axis for `count` applications. The axis starts at
/// 0 and ends one spacing past the last application, so that the marks of
/// the last application are not cut off.
pub open spec fn axis_end(count: nat) -> int {
    (count + 1) * SPACING
}

/// The tick coordinates for `count` applications: one every spacing, from 0
/// up to the position of the last application.
pub open spec fn tick_positions(count: nat) -> Seq<int> {
    Seq::new(count + 1, |i: int| i * SPACING)
}

/// `coordinate` is the position of one of the first `count` ordinals.
pub open spec fn is_application_position(count: nat, coordinate: int) -> bool {
    exists|ordinal: int| 1 <= ordinal <= count && coordinate == #[trigger] position(ordinal)
}

/// The label of the axis at `coordinate`: the name of the application that
/// sits exactly there, and the empty label anywhere else.
pub open spec fn label_at(names: Seq<Seq<char>>, coordinate: int) -> Seq<char> {
    if coordinate % (SPACING as int) == 0 && 1 <= coordinate / (SPACING as int) <= names.len() {
        names[coordinate / (SPACING as int) - 1]
    } else {
        Seq::empty()
    }
}

/// The names of a sequence of series, one for one.
pub open spec fn names_of(series: Seq<SeriesModel>) -> Seq<Seq<char>> {
    Seq::new(series.len(), |i: int| series[i].name)
}

/// A tick of the X axis with its label.
#[derive(Clone, Debug)]
pub struct Tick {
    pub position: i32,
    pub label: String,
}

/// What a [`Tick`] holds, as mathematical values.
pub struct TickModel {
    pub position: int,
    pub label: Seq<char>,
}

impl View for Tick {
    type V = TickModel;

    open spec fn view(&self) -> TickModel {
        TickModel { position: self.position as int, label: self.label@ }
    }
}

/// The models of a sequence of ticks, one for one.
pub open spec fn tick_models(ticks: Seq<Tick>) -> Seq<TickModel> {
    Seq::new(ticks.len(), |i: int| ticks[i]@)
}

/// The ticks of the axis for the applications `names`, each with its label.
pub open spec fn labelled_ticks(names: Seq<Seq<char>>) -> Seq<TickModel> {
    Seq::new(
        names.len() + 1,
        |i: int|
            TickModel {
                position: tick_positions(names.len())[i],
                label: label_at(names, tick_positions(names.len())[i]),
            },
    )
}

/// There is one tick more than there are applications. Every application's
/// position is a tick, and the label there is the application's name. Any
/// coordinate that is no application's position has the empty label; among
/// the ticks that is the one at 0. The last tick is the position of the
/// last application, so it is unlabelled only when there is no application.
pub proof fn lemma_ticks_and_labels(names: Seq<Seq<char>>)
    ensures
        tick_positions(names.len()).len() == names.len() + 1,
        forall|ordinal: int|
            1 <= ordinal <= names.len() ==> {
                &&& tick_positions(names.len())[ordinal] == #[trigger] position(ordinal)
                &&& label_at(names, position(ordinal)) == names[ordinal - 1]
            },
        forall|coordinate: int|
            !is_application_position(names.len(), coordinate) ==> #[trigger] label_at(
                names,
                coordinate,
            ) == Seq::<char>::empty(),
        tick_positions(names.len())[0] == 0,
        !is_application_position(names.len(), 0),
        tick_positions(names.len()).last() == position(names.len() as int),
        names.len() == 0 ==> label_at(names, tick_positions(names.len()).last()) == Seq::<
            char,
        >::empty(),
{
    assert forall|coordinate: int|
        !is_application_position(names.len(), coordinate) implies #[trigger] label_at(
        names,
        coordinate,
    ) == Seq::<char>::empty() by {
        let ordinal = coordinate / (SPACING as int);
        if coordinate % (SPACING as int) == 0 && 1 <= ordinal <= names.len() {
            assert(coordinate == position(ordinal));
        }
    }
}

/// Maps application ordinals to X coordinates and tick coordinates back to
/// application names.
#[derive(Clone, Debug)]
pub struct CoordinateMapper {
    names: Vec<String>,
}

impl View for CoordinateMapper {
    type V = Seq<Seq<char>>;

    closed spec fn view(&self) -> Seq<Seq<char>> {
        Seq::new(self.names@.len(), |i: int| self.names@[i]@)
    }
}

impl CoordinateMapper {
    /// The invariant of a mapper: no more names than the axis can place.
    pub open spec fn wf(&self) -> bool {
        self@.len() <= MAX_APPLICATIONS
    }

    /// Builds the mapper for the applications of `series`, which come in
    /// order of their ordinals.
    pub fn new(series: &Vec<ApplicationSeries>) -> (mapper: CoordinateMapper)
        requires
            series.len() <= MAX_APPLICATIONS,
        ensures
            mapper.wf(),
            mapper@ == names_of(models(series@)),
    {
        let mut names: Vec<String> = Vec::new();
        let mut i: usize = 0;
        while i < series.len()
            invariant
                i <= series.len(),
                names.len() == i,
                forall|k: int| 0 <= k < i ==> names@[k]@ == series@[k].name@,
            decreases series.len() - i,
        {
            names.push(series[i].name.clone());
            i += 1;
        }
        let mapper = CoordinateMapper { names };
        assert(mapper@ =~= names_of(models(series@)));
        mapper
    }

    /// The number of applications on the axis.
    pub fn count(&self) -> (count: usize)
        ensures
            count == self@.len(),
    {
        self.names.len()
    }

    /// The X coordinate of the application with ordinal `ordinal`.
    pub fn position(ordinal: i32) -> (x: i32)
        requires
            0 <= ordinal <= MAX_APPLICATIONS + 1,
        ensures
            x == position(ordinal as int),
    {
        ordinal * SPACING
    }

    /// The upper end of the X axis; the lower end is 0.
    pub fn axis_end(&self) -> (end: i32)
        requires
            self.wf(),
        ensures
            end == axis_end(self@.len()),
    {
        (self.names.len() as i32 + 1) * SPACING
    }

    /// The label of the axis at `coordinate`, found by looking through the
    /// applications for the one that sits there.
    pub fn label_at(&self, coordinate: i32) -> (label: String)
        requires
            self.wf(),
        ensures
            label@ == label_at(self@, coordinate as int),
    {
        let mut i: usize = 0;
        while i < self.names.len()
            invariant
                i <= self.names.len() <= MAX_APPLICATIONS,
                forall|k: int| 0 <= k < i ==> coordinate != #[trigger] position(k + 1),
            decreases self.names.len() - i,
        {
            if (i as i32 + 1) * SPACING == coordinate {
                assert(position(i + 1) == coordinate);
                assert(self@[i as int] == self.names@[i as int]@);
                return self.names[i].clone();
            }
            i += 1;
        }
        proof {
            let ordinal = coordinate as int / (SPACING as int);
            if coordinate as int % (SPACING as int) == 0 && 1 <= ordinal <= self@.len() {
                assert(coordinate == position((ordinal - 1) + 1));
            }
        }
        String::new()
    }

    /// The ticks of the axis, in ascending order, each with its label.
    pub fn ticks(&self) -> (ticks: Vec<Tick>)
        requires
            self.wf(),
        ensures
            tick_models(ticks@) == labelled_ticks(self@),
    {
        let mut ticks: Vec<Tick> = Vec::new();
        let mut i: usize = 0;
        while i <= self.names.len()
            invariant
                i <= self.names.len() + 1,
                self.wf(),
                ticks.len() == i,
                forall|k: int| 0 <= k < i ==> (#[trigger] ticks@[k])@ == labelled_ticks(self@)[k],
            decreases self.names.len() + 1 - i,
        {
            let position: i32 = i as i32 * SPACING;
            let label = self.label_at(position);
            ticks.push(Tick { position, label });
            i += 1;
        }
        assert(tick_models(ticks@) =~= labelled_ticks(self@));
        ticks
    }
}

} // verus!
