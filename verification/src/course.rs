//! The mathematical model of an integration along a profile.
//!
//! A [`Course`] is the state of one integration: the break points of the
//! profile, the segment the integration is in, how far the independent
//! variable has come and where it is headed. Every step hands the model two
//! readings, the independent variable after the step and the position that is
//! compared with the break points, and the model answers with an [`Advice`]
//! or an error and moves to the next state.

use vstd::prelude::*;
use crate::column::{ascending, ordered, ranks_of};
use crate::error::ProfileError;
use crate::rank::{is_number, rank_of};

verus! {

/// What the caller does after a step.
#[derive(Clone, Copy, Debug, PartialEq, Eq, Structural)]
pub enum Advice {
    /// The position is still inside the current segment. Interpolate between
    /// the profile points `upper - 1` and `upper` and go on.
    Within { upper: usize },
    /// The position has passed the end of the segment; the one that follows,
    /// between the profile points `upper - 1` and `upper`, is now current.
    /// Set up its bounds, interpolate in it and go on.
    Crossed { upper: usize },
    /// The independent variable had reached its target before this step.
    /// Nothing was recorded; the integration is complete.
    Done,
}

/// The state of an integration.
pub struct Course {
    /// The ranks of the break points of the profile, in profile order.
    pub marks: Seq<int>,
    /// The index of the break point that ends the current segment.
    pub upper: int,
    /// The rank of the independent variable as it was last recorded.
    pub clock: int,
    /// The rank of the target of the independent variable.
    pub goal: int,
}

impl Course {
    /// A course has at least two break points in non-decreasing order, no
    /// more of them than can be indexed, and its current segment is one of
    /// theirs.
    pub open spec fn wf(self) -> bool {
        &&& 2 <= self.marks.len() <= usize::MAX
        &&& ascending(self.marks)
        &&& 1 <= self.upper < self.marks.len()
    }

    /// Whether the independent variable is still short of its target.
    pub open spec fn pending(self) -> bool {
        self.clock < self.goal
    }

    /// Whether `position` lies beyond the end of the current segment.
    pub open spec fn crosses(self, position: u64) -> bool {
        rank_of(position) > self.marks[self.upper]
    }

    /// The upper break point of the segment in which `position` is sampled:
    /// the next segment where the position has crossed into it, the current
    /// one otherwise. At most one segment is taken per step.
    pub open spec fn entered(self, position: u64) -> int {
        if self.crosses(position) {
            self.upper + 1
        } else {
            self.upper
        }
    }

    /// The answer to a step that brings the independent variable to `clock`
    /// and the position to `position`.
    pub open spec fn advice(self, clock: u64, position: u64) -> Result<Advice, ProfileError> {
        let entered = self.entered(position);
        if !self.pending() {
            Ok(Advice::Done)
        } else if !is_number(clock) || !is_number(position) {
            Err(ProfileError::Degenerate)
        } else if rank_of(clock) <= self.clock {
            Err(ProfileError::Degenerate)
        } else if entered >= self.marks.len() {
            Err(ProfileError::OutOfSpan)
        } else if self.marks[entered - 1] == self.marks[entered] {
            Err(ProfileError::Degenerate)
        } else if self.crosses(position) {
            Ok(Advice::Crossed { upper: entered as usize })
        } else {
            Ok(Advice::Within { upper: entered as usize })
        }
    }

    /// The state after that step. A step that is answered with `Done` or with
    /// an error leaves the state as it was.
    pub open spec fn after(self, clock: u64, position: u64) -> Course {
        match self.advice(clock, position) {
            Ok(Advice::Within { .. }) | Ok(Advice::Crossed { .. }) => Course {
                upper: self.entered(position),
                clock: rank_of(clock),
                ..self
            },
            _ => self,
        }
    }
}

/// The depth column of a list of break points given as pairs of depth and
/// pressure.
pub open spec fn depths_of(points: Seq<(u64, u64)>) -> Seq<u64> {
    Seq::new(points.len(), |i: int| points[i].0)
}

/// The pressure column of a list of break points given as pairs of depth and
/// pressure.
pub open spec fn pressures_of(points: Seq<(u64, u64)>) -> Seq<u64> {
    Seq::new(points.len(), |i: int| points[i].1)
}

/// Whether a target pressure lies within the span of pressures from the
/// surface down to the last break point.
pub open spec fn pressure_in_span(pressures: Seq<u64>, surface: u64, target: u64) -> bool {
    &&& is_number(surface)
    &&& is_number(target)
    &&& rank_of(surface) <= rank_of(target) <= ranks_of(pressures).last()
}

/// Whether the distance that sound covers at its surface speed in the time
/// of flight stays within the depth of the profile, and the time of flight
/// is a number.
pub open spec fn reach_in_span(depths: Seq<u64>, reach: u64, duration: u64) -> bool {
    &&& is_number(reach)
    &&& is_number(duration)
    &&& rank_of(reach) <= ranks_of(depths).last()
}

/// The course on which an integration over pressure sets out, or the reason
/// why the request is turned down.
///
/// `points` holds, for every profile point, its depth and the pressure there;
/// the integration runs from the pressure `surface` to the pressure `target`
/// in `steps` steps. The conditions are examined in the order in which they
/// stand, and the first that fails decides the error.
pub open spec fn pressure_course(
    steps: i32,
    points: Seq<(u64, u64)>,
    surface: u64,
    target: u64,
) -> Result<Course, ProfileError> {
    if steps <= 0 {
        Err(ProfileError::StepCount)
    } else if points.len() < 2 {
        Err(ProfileError::TooFewPoints)
    } else if !ordered(depths_of(points)) || !ordered(pressures_of(points)) {
        Err(ProfileError::NotSorted)
    } else if !pressure_in_span(pressures_of(points), surface, target) {
        Err(ProfileError::OutOfSpan)
    } else {
        Ok(
            Course {
                marks: ranks_of(pressures_of(points)),
                upper: 1,
                clock: rank_of(surface),
                goal: rank_of(target),
            },
        )
    }
}

/// The course on which an integration over time sets out, or the reason why
/// the request is turned down.
///
/// `depths` holds the depth of every profile point; the integration runs
/// from time zero to `duration` in `steps` steps, and `reach` is the distance
/// that the surface speed of sound covers in that time. The conditions are
/// examined in the order in which they stand, and the first that fails
/// decides the error.
pub open spec fn time_course(
    steps: i32,
    depths: Seq<u64>,
    reach: u64,
    duration: u64,
) -> Result<Course, ProfileError> {
    if depths.len() < 2 {
        Err(ProfileError::TooFewPoints)
    } else if steps <= 0 {
        Err(ProfileError::StepCount)
    } else if !ordered(depths) {
        Err(ProfileError::NotSorted)
    } else if !reach_in_span(depths, reach, duration) {
        Err(ProfileError::OutOfSpan)
    } else {
        Ok(Course { marks: ranks_of(depths), upper: 1, clock: 0, goal: rank_of(duration) })
    }
}

/// The state after the steps of `events`, each a pair of the independent
/// variable and the position, have been reported one after another.
pub open spec fn run(course: Course, events: Seq<(u64, u64)>) -> Course
    decreases events.len(),
{
    if events.len() == 0 {
        course
    } else {
        run(course.after(events[0].0, events[0].1), events.drop_first())
    }
}

/// Whether every step of `events`, reported one after another, is answered
/// with the advice to take a sample.
pub open spec fn all_sampled(course: Course, events: Seq<(u64, u64)>) -> bool
    decreases events.len(),
{
    events.len() == 0 || {
        &&& course.advice(events[0].0, events[0].1) is Ok
        &&& course.advice(events[0].0, events[0].1) != Ok::<Advice, ProfileError>(Advice::Done)
        &&& all_sampled(course.after(events[0].0, events[0].1), events.drop_first())
    }
}

/// A request over pressure is turned down whenever the step count is not
/// positive, the profile has fewer than two points, or the target pressure
/// lies outside the span from the surface pressure to the last break point.
pub proof fn lemma_pressure_request_refused(
    steps: i32,
    points: Seq<(u64, u64)>,
    surface: u64,
    target: u64,
)
    requires
        steps <= 0 || points.len() < 2 || !pressure_in_span(
            pressures_of(points),
            surface,
            target,
        ),
    ensures
        pressure_course(steps, points, surface, target) is Err,
{
}

/// A request over time is turned down whenever the profile has fewer than two
/// points, the step count is not positive, or the distance covered at the
/// surface speed exceeds the depth of the profile.
pub proof fn lemma_time_request_refused(steps: i32, depths: Seq<u64>, reach: u64, duration: u64)
    requires
        depths.len() < 2 || steps <= 0 || !reach_in_span(depths, reach, duration),
    ensures
        time_course(steps, depths, reach, duration) is Err,
{
}

/// The course of an accepted request over pressure is well formed, starts in
/// the first segment, and has its target between its start and its last
/// break point.
pub proof fn lemma_pressure_course_sets_out(
    steps: i32,
    points: Seq<(u64, u64)>,
    surface: u64,
    target: u64,
)
    requires
        pressure_course(steps, points, surface, target) is Ok,
        points.len() <= usize::MAX,
    ensures
        ({
            let course = pressure_course(steps, points, surface, target)->Ok_0;
            &&& course.wf()
            &&& course.marks.len() == points.len()
            &&& course.upper == 1
            &&& course.clock <= course.goal <= course.marks.last()
        }),
{
}

/// The course of an accepted request over time is well formed and starts at
/// time zero in the first segment.
pub proof fn lemma_time_course_sets_out(steps: i32, depths: Seq<u64>, reach: u64, duration: u64)
    requires
        time_course(steps, depths, reach, duration) is Ok,
        depths.len() <= usize::MAX,
    ensures
        ({
            let course = time_course(steps, depths, reach, duration)->Ok_0;
            &&& course.wf()
            &&& course.marks.len() == depths.len()
            &&& course.upper == 1
            &&& course.clock == 0
        }),
{
}

/// Where the target pressure equals the surface pressure, an accepted
/// integration is complete before its first step: nothing is pending, and
/// whatever is reported is answered with `Done` and changes nothing. No
/// sample is ever taken, so the integral is an empty sum.
pub proof fn lemma_target_at_surface_takes_no_step(
    steps: i32,
    points: Seq<(u64, u64)>,
    surface: u64,
    target: u64,
    clock: u64,
    position: u64,
)
    requires
        pressure_course(steps, points, surface, target) is Ok,
        rank_of(target) == rank_of(surface),
    ensures
        ({
            let course = pressure_course(steps, points, surface, target)->Ok_0;
            &&& !course.pending()
            &&& course.advice(clock, position) == Ok::<Advice, ProfileError>(Advice::Done)
            &&& course.after(clock, position) == course
        }),
{
}

/// A step keeps a course well formed. It never touches the break points or
/// the target, never moves the independent variable backwards, and moves on
/// by at most one segment and never back.
pub proof fn lemma_step_keeps_course(course: Course, clock: u64, position: u64)
    requires
        course.wf(),
    ensures
        ({
            let next = course.after(clock, position);
            &&& next.wf()
            &&& next.marks == course.marks
            &&& next.goal == course.goal
            &&& course.upper <= next.upper <= course.upper + 1
            &&& course.clock <= next.clock
        }),
{
}

/// A step is answered with `Done` exactly when nothing is pending. A step
/// answered with the advice to take a sample was pending, and has moved the
/// independent variable strictly forward, to the reading that was reported.
/// Any other step, one answered with `Done` or with an error, leaves the
/// state as it was.
pub proof fn lemma_step_moves_forward(course: Course, clock: u64, position: u64)
    requires
        course.wf(),
    ensures
        course.advice(clock, position) == Ok::<Advice, ProfileError>(Advice::Done)
            <==> !course.pending(),
        course.advice(clock, position) is Ok && course.pending() ==> {
            &&& is_number(clock)
            &&& is_number(position)
            &&& course.clock < rank_of(clock)
            &&& course.after(clock, position).clock == rank_of(clock)
        },
        course.advice(clock, position) is Err || !course.pending() ==> course.after(
            clock,
            position,
        ) == course,
{
}

/// The segment a sample is taken in is the current segment of the state
/// after the step, and its two ends differ, so that interpolation in it
/// divides by no zero. Advice `Within` keeps the segment and the position is
/// not beyond its end; advice `Crossed` moves to the segment that follows,
/// and the position is beyond its beginning.
pub proof fn lemma_sampled_segment(course: Course, clock: u64, position: u64)
    requires
        course.wf(),
    ensures
        course.advice(clock, position) matches Ok(Advice::Within { upper }) ==> {
            &&& upper == course.upper
            &&& upper == course.after(clock, position).upper
            &&& rank_of(position) <= course.marks[upper as int]
            &&& course.marks[upper - 1] < course.marks[upper as int]
        },
        course.advice(clock, position) matches Ok(Advice::Crossed { upper }) ==> {
            &&& upper == course.upper + 1
            &&& upper == course.after(clock, position).upper
            &&& upper < course.marks.len()
            &&& course.marks[upper - 1] < rank_of(position)
            &&& course.marks[upper - 1] < course.marks[upper as int]
        },
{
}

/// An integration ends. However the caller steps, the number of samples it
/// can take in a row is bounded by the distance in rank between the
/// independent variable and its target.
pub proof fn lemma_run_is_bounded(course: Course, events: Seq<(u64, u64)>)
    requires
        course.wf(),
        all_sampled(course, events),
    ensures
        run(course, events).wf(),
        events.len() > 0 ==> events.len() <= course.goal - course.clock,
    decreases events.len(),
{
    if events.len() > 0 {
        let next = course.after(events[0].0, events[0].1);
        lemma_step_keeps_course(course, events[0].0, events[0].1);
        lemma_step_moves_forward(course, events[0].0, events[0].1);
        lemma_run_is_bounded(next, events.drop_first());
    }
}

} // verus!
