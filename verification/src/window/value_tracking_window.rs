use vstd::prelude::*;

use crate::math::Point;
use crate::math::Range;

use super::StoreState;
use super::WindowBehavior;
use super::WindowTransition;

verus! {

/// Window which keeps the data in the view as much as possible
///
/// If 100 elements are added before the view range, the current data set stays in view.
#[derive(Debug)]
pub struct ValueTrackingWindow {}

/// Middle of a page: `(start + end) / 2`.
pub open spec fn page_half(page: Range) -> int {
    ((page.lo() + page.hi()) / 2) as int
}

impl WindowBehavior for ValueTrackingWindow {
    open spec fn insert_transition(page: Range, view: nat, p: nat) -> WindowTransition {
        if p >= page.hi() {
            WindowTransition::Identity
        } else if p < page.lo() {
            WindowTransition::SlideRight(1)
        } else if p < page_half(page) {
            WindowTransition::InsertLeft { pos: p as usize, by: 1 }
        } else {
            WindowTransition::InsertRight { pos: p as usize, by: 1 }
        }
    }

    open spec fn remove_transition(page: Range, view: nat, p: nat) -> WindowTransition {
        if p >= page.hi() {
            WindowTransition::Identity
        } else if p < page.lo() {
            WindowTransition::TransitionLeft(1)
        } else if p < page_half(page) {
            WindowTransition::RemoveLeft { pos: p as usize, by: 1 }
        } else {
            WindowTransition::RemoveRight { pos: p as usize, by: 1 }
        }
    }

    open spec fn slide_transition(page: Range, view: nat, moved: Range) -> WindowTransition {
        if page.hi() <= moved.lo() {
            WindowTransition::Identity
        } else if moved.lo() < page.lo() {
            WindowTransition::SlideRight((moved.hi() - moved.lo()) as usize)
        } else {
            WindowTransition::InsertRight {
                pos: moved.lo() as usize,
                by: (if moved.hi() - moved.lo() <= page.hi() - moved.lo() {
                    moved.hi() - moved.lo()
                } else {
                    page.hi() - moved.lo()
                }) as usize,
            }
        }
    }

    /// Insertion after the page changes nothing; insertion before it slides the window one
    /// record to the right. Insertion in the first half of the page pushes records out on the
    /// left, insertion in the second half pushes them out on the right.
    fn insert(state: &StoreState, p: &Point) -> (t: WindowTransition) {
        let v = p.value();
        let start = *state.page.start();
        let end = *state.page.end();
        if v >= end {
            WindowTransition::Identity
        } else if v < start {
            WindowTransition::SlideRight(1)
        } else {
            let half: usize = start + (end - start) / 2;
            if v < half {
                WindowTransition::InsertLeft { pos: v, by: 1 }
            } else {
                WindowTransition::InsertRight { pos: v, by: 1 }
            }
        }
    }

    /// Removal after the page changes nothing; removal before it moves the window one record
    /// to the left, so that it keeps the same records. Removal in the first half of the page
    /// pulls records in from the left, removal in the second half pulls them in from the right.
    fn remove(state: &StoreState, p: &Point) -> (t: WindowTransition) {
        let v = p.value();
        let start = *state.page.start();
        let end = *state.page.end();
        if v >= end {
            WindowTransition::Identity
        } else if v < start {
            WindowTransition::TransitionLeft(1)
        } else {
            let half: usize = start + (end - start) / 2;
            if v < half {
                WindowTransition::RemoveLeft { pos: v, by: 1 }
            } else {
                WindowTransition::RemoveRight { pos: v, by: 1 }
            }
        }
    }

    /// Moving data after the page changes nothing. When the moved range starts before the
    /// page the window slides right by its length; otherwise its records are inserted at its
    /// start, at most up to the end of the page.
    fn slide(state: &StoreState, moved: &Range) -> (t: WindowTransition) {
        let r = state.page;
        if *r.end() <= *moved.start() {
            WindowTransition::Identity
        } else if *moved.start() < *r.start() {
            WindowTransition::SlideRight(moved.len())
        } else {
            let room = *r.end() - *moved.start();
            let moved_len = moved.len();
            WindowTransition::InsertRight {
                pos: *moved.start(),
                by: if moved_len <= room { moved_len } else { room },
            }
        }
    }
}

} // verus!
