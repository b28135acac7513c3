//! The measured quantities and one observation of them.

use vstd::prelude::*;

verus! {

/// One of the quantities recorded for each benchmark run.
#[derive(Clone, Copy, Debug, PartialEq, Eq, Structural, Hash)]
pub enum Metric {
    InstallTime,
    BuildTime,
    DepsWithDuplicates,
    DepsWithoutDuplicates,
    BuildSize,
    Chromium,
    Firefox,
    Webkit,
}

impl Metric {
    /// The three in-browser execution times, which share one panel.
    pub open spec fn is_engine(self) -> bool {
        self == Metric::Chromium || self == Metric::Firefox || self == Metric::Webkit
    }

    /// Tells whether the metric is one of the three browser engines.
    pub fn engine(&self) -> (r: bool)
        ensures
            r == self.is_engine(),
    {
        match self {
            Metric::Chromium | Metric::Firefox | Metric::Webkit => true,
            _ => false,
        }
    }
}

/// One benchmark observation of one application.
///
/// Every reading is a whole number of the metric's unit (milliseconds,
/// kilobytes, or a count). A reading that is zero or negative means
/// "not measured". `index` is the ordinal of the owning application: its
/// 1-based rank among all application names, or 0 while unassigned.
#[derive(Clone, Copy, Debug, PartialEq, Eq, Structural)]
pub struct Sample {
    pub index: i32,
    pub install_time: i32,
    pub build_time: i32,
    pub deps_with_duplicates: i32,
    pub deps_without_duplicates: i32,
    pub build_size: i32,
    pub chromium: i32,
    pub firefox: i32,
    pub webkit: i32,
}

impl Sample {
    /// The reading of `metric` in this sample.
    pub open spec fn value(self, metric: Metric) -> int {
        match metric {
            Metric::InstallTime => self.install_time as int,
            Metric::BuildTime => self.build_time as int,
            Metric::DepsWithDuplicates => self.deps_with_duplicates as int,
            Metric::DepsWithoutDuplicates => self.deps_without_duplicates as int,
            Metric::BuildSize => self.build_size as int,
            Metric::Chromium => self.chromium as int,
            Metric::Firefox => self.firefox as int,
            Metric::Webkit => self.webkit as int,
        }
    }

    /// A sample is measured for `metric` when its reading is strictly positive.
    pub open spec fn measured(self, metric: Metric) -> bool {
        self.value(metric) > 0
    }

    /// A sample with the given readings, in table order of the columns, and
    /// no ordinal yet.
    pub fn new(
        install_time: i32,
        build_time: i32,
        deps_with_duplicates: i32,
        deps_without_duplicates: i32,
        build_size: i32,
        chromium: i32,
        firefox: i32,
        webkit: i32,
    ) -> (sample: Sample)
        ensures
            sample == (Sample {
                index: 0,
                install_time,
                build_time,
                deps_with_duplicates,
                deps_without_duplicates,
                build_size,
                chromium,
                firefox,
                webkit,
            }),
    {
        Sample {
            index: 0,
            install_time,
            build_time,
            deps_with_duplicates,
            deps_without_duplicates,
            build_size,
            chromium,
            firefox,
            webkit,
        }
    }

    /// Reads one metric out of the sample.
    pub fn get(&self, metric: Metric) -> (v: i32)
        ensures
            v == self.value(metric),
    {
        match metric {
            Metric::InstallTime => self.install_time,
            Metric::BuildTime => self.build_time,
            Metric::DepsWithDuplicates => self.deps_with_duplicates,
            Metric::DepsWithoutDuplicates => self.deps_without_duplicates,
            Metric::BuildSize => self.build_size,
            Metric::Chromium => self.chromium,
            Metric::Firefox => self.firefox,
            Metric::Webkit => self.webkit,
        }
    }
}

} // verus!
