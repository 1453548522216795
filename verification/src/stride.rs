//! Stride values for the stride scheduler, with their wrap-around
//! comparison: two strides whose distance exceeds half the stride span
//! compare in reverse, so that a counter that wrapped around still ranks
//! behind one that has not caught up yet.

use vstd::prelude::*;
use crate::config::BIGSTRDE;
use crate::manager::TaskManager;

verus! {

/// A task's accumulated stride.
#[derive(Clone, Copy)]
pub struct Stride(pub u64);

impl Stride {
    /// Wrap-around "less than": the plain comparison, reversed when the
    /// two values lie more than half the stride span apart. Equal values
    /// are neither less nor greater.
    pub open spec fn less_spec(self, other: Stride) -> bool {
        if self.0 == other.0 {
            false
        } else {
            let differ = if self.0 > other.0 {
                self.0 - other.0
            } else {
                other.0 - self.0
            };
            if differ > BIGSTRDE / 2 {
                !(self.0 < other.0)
            } else {
                self.0 < other.0
            }
        }
    }

    /// Wrap-around "greater than".
    pub open spec fn greater_spec(self, other: Stride) -> bool {
        self.0 != other.0 && !self.less_spec(other)
    }

    /// Wrap-around "less than".
    pub fn less(&self, other: &Stride) -> (r: bool)
        ensures
            r == self.less_spec(*other),
    {
        if self.0 == other.0 {
            return false;
        }
        let is_less = self.0 < other.0;
        let differ = if self.0 > other.0 {
            self.0 - other.0
        } else {
            other.0 - self.0
        };
        if differ > BIGSTRDE / 2 {
            !is_less
        } else {
            is_less
        }
    }

    /// Wrap-around "greater than".
    pub fn greater(&self, other: &Stride) -> (r: bool)
        ensures
            r == self.greater_spec(*other),
    {
        if self.0 == other.0 {
            return false;
        }
        !self.less(other)
    }

    /// The stride a fresh task starts with: the smallest stride currently
    /// waiting in the ready queue, so that the newcomer is scheduled
    /// fairly rather than monopolizing the processor.
    pub fn init(manager: &TaskManager) -> (r: Stride)
        ensures
            manager.ready_queue@.len() == 0 ==> r.0 == 0,
            manager.ready_queue@.len() > 0 ==> r == manager.min_stride_spec(),
    {
        manager.get_min_stride()
    }
}

} // verus!
