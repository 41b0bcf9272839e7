//! The closed set of UI views and the tab-activation controller.
//!
//! The controller watches which view is active each frame.  On the frame in
//! which the weight-logging view becomes active (including the very first
//! frame), the weigh-in date input is to be reset to the current calendar
//! date; the decision is a pure function of the previous and current view.

use vstd::prelude::*;

verus! {

/// The view selector of the main window.
#[derive(Clone, Copy, PartialEq, Eq, Structural, Debug)]
pub enum Tab {
    LogWeight,
    LogExercise,
    WeightProgress,
    ExerciseProgress,
}

impl Default for Tab {
    fn default() -> (r: Self)
        ensures
            r == Tab::LogWeight,
    {
        Tab::LogWeight
    }
}

impl Tab {
    /// The text shown on the tab selector.
    pub fn label(&self) -> (r: &'static str)
        ensures
            self is LogWeight ==> r@ == "LogWeight"@,
            self is LogExercise ==> r@ == "LogExercise"@,
            self is WeightProgress ==> r@ == "WeightProgress"@,
            self is ExerciseProgress ==> r@ == "ExerciseProgress"@,
    {
        match self {
            Tab::LogWeight => "LogWeight",
            Tab::LogExercise => "LogExercise",
            Tab::WeightProgress => "WeightProgress",
            Tab::ExerciseProgress => "ExerciseProgress",
        }
    }
}

/// The dietary phase of a diet cycle.
#[derive(Clone, Copy, PartialEq, Eq, Structural, Debug)]
pub enum DietPhase {
    Bulk,
    Cut,
    Maintain,
}

impl Default for DietPhase {
    fn default() -> (r: Self)
        ensures
            r == DietPhase::Bulk,
    {
        DietPhase::Bulk
    }
}

impl DietPhase {
    /// The text stored in the `phase` column and shown in the phase selector.
    pub fn label(&self) -> (r: &'static str)
        ensures
            self is Bulk ==> r@ == "Bulk"@,
            self is Cut ==> r@ == "Cut"@,
            self is Maintain ==> r@ == "Maintain"@,
    {
        match self {
            DietPhase::Bulk => "Bulk",
            DietPhase::Cut => "Cut",
            DietPhase::Maintain => "Maintain",
        }
    }
}

/// The metric tracked for an exercise.
#[derive(Clone, Copy, PartialEq, Eq, Structural, Debug)]
pub enum ExerciseMetric {
    Weight,
}

impl Default for ExerciseMetric {
    fn default() -> (r: Self)
        ensures
            r == ExerciseMetric::Weight,
    {
        ExerciseMetric::Weight
    }
}

impl ExerciseMetric {
    /// The text shown in the metric selector.
    pub fn label(&self) -> (r: &'static str)
        ensures
            self is Weight ==> r@ == "Weight"@,
    {
        match self {
            ExerciseMetric::Weight => "Weight",
        }
    }
}

/// Whether entering view `current` from view `previous` must reset the
/// weigh-in date input to today.  True exactly when the weight-logging view
/// is current and was not current on the previous frame (the very first
/// frame, where there is no previous view, counts as such a transition).
pub open spec fn spec_weigh_in_reset(previous: Option<Tab>, current: Tab) -> bool {
    current is LogWeight && previous != Some(Tab::LogWeight)
}

/// Pure transition check of the tab-activation controller.
pub fn weigh_in_reset(previous: Option<Tab>, current: Tab) -> (r: bool)
    ensures
        r == spec_weigh_in_reset(previous, current),
{
    match current {
        Tab::LogWeight => match previous {
            Some(Tab::LogWeight) => false,
            _ => true,
        },
        _ => false,
    }
}

/// Remembers which view was active on the previous frame.
pub struct TabTracker {
    previous: Option<Tab>,
}

impl TabTracker {
    /// The view that was active on the previous observed frame, if any.
    pub closed spec fn spec_previous(&self) -> Option<Tab> {
        self.previous
    }

    /// A tracker that has not observed a frame yet.
    pub fn new() -> (t: Self)
        ensures
            t.spec_previous() is None,
    {
        TabTracker { previous: None }
    }

    /// Observes one frame's active view.  Returns whether the weigh-in date
    /// must be reset on this frame, and records the view for the next frame.
    pub fn observe(&mut self, current: Tab) -> (reset: bool)
        ensures
            reset == spec_weigh_in_reset(old(self).spec_previous(), current),
            final(self).spec_previous() == Some(current),
    {
        let reset = weigh_in_reset(self.previous, current);
        self.previous = Some(current);
        reset
    }
}

impl Default for TabTracker {
    fn default() -> (t: Self)
        ensures
            t.spec_previous() is None,
    {
        TabTracker::new()
    }
}

} // verus!
