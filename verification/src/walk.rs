//! The executable integration state.

use vstd::prelude::*;
use crate::column::{keys_of, ordered_ranks, ranks_of};
use crate::course::{
    depths_of, pressure_course, pressure_in_span, pressures_of, reach_in_span, time_course, Advice,
    Course,
};
use crate::error::ProfileError;
use crate::rank::rank;

verus! {

/// One integration along a profile: the executable form of a [`Course`].
///
/// The caller owns the physical quantities and does the arithmetic. It asks
/// [`Walk::pending`] whether another step is due, advances its variables,
/// reports them with [`Walk::step`], and acts on the advice it gets back.
#[derive(Debug)]
pub struct Walk {
    marks: Vec<i64>,
    upper: usize,
    clock: i64,
    goal: i64,
}

impl View for Walk {
    type V = Course;

    closed spec fn view(&self) -> Course {
        Course {
            marks: keys_of(self.marks@),
            upper: self.upper as int,
            clock: self.clock as int,
            goal: self.goal as int,
        }
    }
}

/// Splits break points given as pairs into their two columns.
fn columns(points: &[(u64, u64)]) -> (r: (Vec<u64>, Vec<u64>))
    ensures
        r.0@ == depths_of(points@),
        r.1@ == pressures_of(points@),
{
    let mut depths: Vec<u64> = Vec::new();
    let mut pressures: Vec<u64> = Vec::new();
    let mut at: usize = 0;
    while at < points.len()
        invariant
            at <= points.len(),
            depths@.len() == at,
            pressures@.len() == at,
            forall|i: int| 0 <= i < at ==> #[trigger] depths@[i] == points@[i].0,
            forall|i: int| 0 <= i < at ==> #[trigger] pressures@[i] == points@[i].1,
        decreases points.len() - at,
    {
        depths.push(points[at].0);
        pressures.push(points[at].1);
        at = at + 1;
    }
    assert(depths@ =~= depths_of(points@));
    assert(pressures@ =~= pressures_of(points@));
    (depths, pressures)
}

impl Walk {
    #[verifier::type_invariant]
    spec fn inv(&self) -> bool {
        self@.wf()
    }

    /// Sets out on an integration over pressure.
    ///
    /// `points` gives, for every profile point, the encodings of its depth
    /// and of the pressure at that depth; the segments of the walk are those
    /// between consecutive pressures. The walk runs from the pressure
    /// `surface` to the pressure `target`.
    ///
    /// The request is turned down, in this order: with `StepCount` if `steps`
    /// is not positive; with `TooFewPoints` if there are fewer than two
    /// points; with `NotSorted` if the depths or the pressures are not in
    /// non-decreasing order or hold a reading that is not a number; with
    /// `OutOfSpan` unless `surface <= target <= ` the last pressure, all
    /// three being numbers.
    pub fn by_pressure(steps: i32, points: &[(u64, u64)], surface: u64, target: u64) -> (r: Result<
        Walk,
        ProfileError,
    >)
        ensures
            r matches Ok(walk) ==> pressure_course(steps, points@, surface, target) == Ok::<
                Course,
                ProfileError,
            >(walk@),
            r matches Err(e) ==> pressure_course(steps, points@, surface, target) == Err::<
                Course,
                ProfileError,
            >(e),
            steps <= 0 || points@.len() < 2 || !pressure_in_span(
                pressures_of(points@),
                surface,
                target,
            ) ==> r is Err,
    {
        if steps <= 0 {
            return Err(ProfileError::StepCount);
        }
        if points.len() < 2 {
            return Err(ProfileError::TooFewPoints);
        }
        let (depths, pressures) = columns(points);
        let marks: Vec<i64> = match (
            ordered_ranks(depths.as_slice()),
            ordered_ranks(pressures.as_slice()),
        ) {
            (Some(_), Some(marks)) => marks,
            _ => {
                return Err(ProfileError::NotSorted);
            },
        };
        assert(keys_of(marks@).len() == points@.len());
        let last: i64 = marks[marks.len() - 1];
        assert(last == ranks_of(pressures_of(points@)).last()) by {
            assert(keys_of(marks@)[marks@.len() - 1] == last);
        }
        match (rank(surface), rank(target)) {
            (Some(clock), Some(goal)) => {
                if clock <= goal && goal <= last {
                    Ok(Walk { marks, upper: 1, clock, goal })
                } else {
                    Err(ProfileError::OutOfSpan)
                }
            },
            _ => Err(ProfileError::OutOfSpan),
        }
    }

    /// Sets out on an integration over time.
    ///
    /// `depths` gives the encoding of the depth of every profile point; the
    /// segments of the walk are those between consecutive depths. The walk
    /// runs from time zero to `duration`; `reach` is the distance covered in
    /// that time at the speed found at the first point.
    ///
    /// The request is turned down, in this order: with `TooFewPoints` if
    /// there are fewer than two points; with `StepCount` if `steps` is not
    /// positive; with `NotSorted` if the depths are not in non-decreasing
    /// order or hold a reading that is not a number; with `OutOfSpan` unless
    /// `reach` and `duration` are numbers and `reach <= ` the last depth.
    pub fn by_time(steps: i32, depths: &[u64], reach: u64, duration: u64) -> (r: Result<
        Walk,
        ProfileError,
    >)
        ensures
            r matches Ok(walk) ==> time_course(steps, depths@, reach, duration) == Ok::<
                Course,
                ProfileError,
            >(walk@),
            r matches Err(e) ==> time_course(steps, depths@, reach, duration) == Err::<
                Course,
                ProfileError,
            >(e),
            depths@.len() < 2 || steps <= 0 || !reach_in_span(depths@, reach, duration) ==> r is Err,
    {
        if depths.len() < 2 {
            return Err(ProfileError::TooFewPoints);
        }
        if steps <= 0 {
            return Err(ProfileError::StepCount);
        }
        let marks: Vec<i64> = match ordered_ranks(depths) {
            Some(marks) => marks,
            None => {
                return Err(ProfileError::NotSorted);
            },
        };
        assert(keys_of(marks@).len() == depths@.len());
        let last: i64 = marks[marks.len() - 1];
        assert(last == ranks_of(depths@).last()) by {
            assert(keys_of(marks@)[marks@.len() - 1] == last);
        }
        match (rank(reach), rank(duration)) {
            (Some(far), Some(goal)) => {
                if far <= last {
                    Ok(Walk { marks, upper: 1, clock: 0, goal })
                } else {
                    Err(ProfileError::OutOfSpan)
                }
            },
            _ => Err(ProfileError::OutOfSpan),
        }
    }

    /// Whether another step is due: the independent variable, as last
    /// recorded, is short of its target.
    pub fn pending(&self) -> (b: bool)
        ensures
            b == self@.pending(),
    {
        self.clock < self.goal
    }

    /// The index of the profile point that ends the current segment. The
    /// segment begins at the point before it.
    pub fn upper(&self) -> (i: usize)
        ensures
            i == self@.upper,
            self@.wf(),
    {
        proof {
            use_type_invariant(self);
        }
        self.upper
    }

    /// Records a step that has brought the independent variable to `clock`
    /// and the position to `position`, and says what to do next.
    pub fn step(&mut self, clock: u64, position: u64) -> (r: Result<Advice, ProfileError>)
        ensures
            r == old(self)@.advice(clock, position),
            final(self)@ == old(self)@.after(clock, position),
    {
        proof {
            use_type_invariant(&*self);
        }
        if self.clock >= self.goal {
            return Ok(Advice::Done);
        }
        let (now, place): (i64, i64) = match (rank(clock), rank(position)) {
            (Some(now), Some(place)) => (now, place),
            _ => {
                return Err(ProfileError::Degenerate);
            },
        };
        if now <= self.clock {
            return Err(ProfileError::Degenerate);
        }
        let count: usize = self.marks.len();
        let crossing: bool = place > self.marks[self.upper];
        let entered: usize = if crossing {
            self.upper + 1
        } else {
            self.upper
        };
        if entered >= count {
            return Err(ProfileError::OutOfSpan);
        }
        if self.marks[entered - 1] == self.marks[entered] {
            return Err(ProfileError::Degenerate);
        }
        self.clock = now;
        self.upper = entered;
        if crossing {
            Ok(Advice::Crossed { upper: entered })
        } else {
            Ok(Advice::Within { upper: entered })
        }
    }
}

} // verus!
