use vstd::prelude::*;

use crate::math::min_nat;
use crate::math::Point;
use crate::math::Range;

use super::StoreState;
use super::WindowBehavior;
use super::WindowTransition;

verus! {

/// Window which keeps its position in the dataset
///
/// This window is stable in terms of pagination. If the store view is at the third page
/// of data it stays there as much as possible
#[derive(Debug)]
pub struct PositionTrackingWindow {}

impl WindowBehavior for PositionTrackingWindow {
    open spec fn insert_transition(page: Range, view: nat, p: nat) -> WindowTransition {
        if p >= page.hi() {
            WindowTransition::Identity
        } else if p < page.lo() {
            WindowTransition::InsertRight { pos: page.lo() as usize, by: 1 }
        } else {
            WindowTransition::InsertRight { pos: p as usize, by: 1 }
        }
    }

    open spec fn remove_transition(page: Range, view: nat, p: nat) -> WindowTransition {
        if p >= page.hi() {
            WindowTransition::Identity
        } else if p < page.lo() {
            WindowTransition::RemoveRight { pos: page.lo() as usize, by: 1 }
        } else {
            WindowTransition::RemoveRight { pos: p as usize, by: 1 }
        }
    }

    open spec fn slide_transition(page: Range, view: nat, moved: Range) -> WindowTransition {
        if page.hi() <= moved.lo() {
            WindowTransition::Identity
        } else if moved.lo() <= page.lo() && page.hi() <= moved.hi() {
            WindowTransition::InsertRight {
                pos: page.lo() as usize,
                by: min_nat((moved.hi() - moved.lo()) as nat, (page.hi() - page.lo()) as nat) as usize,
            }
        } else if moved.hi() <= page.lo() {
            WindowTransition::InsertRight {
                pos: page.lo() as usize,
                by: min_nat((moved.hi() - moved.lo()) as nat, (page.hi() - page.lo()) as nat) as usize,
            }
        } else if moved.lo() < page.lo() {
            WindowTransition::InsertRight {
                pos: page.lo() as usize,
                by: min_nat((moved.hi() - page.lo()) as nat, (page.hi() - page.lo()) as nat) as usize,
            }
        } else {
            WindowTransition::InsertRight {
                pos: moved.lo() as usize,
                by: min_nat(
                    (min_nat(page.hi(), moved.hi()) - moved.lo()) as nat,
                    (page.hi() - page.lo()) as nat,
                ) as usize,
            }
        }
    }

    /// Insertion after the page changes nothing. Insertion before it takes one record from
    /// the left as the new first one and drops the last. Insertion in the page puts the value
    /// at its position and pushes the following records to the right.
    fn insert(state: &StoreState, p: &Point) -> (t: WindowTransition) {
        let v = p.value();
        if v >= *state.page.end() {
            WindowTransition::Identity
        } else if v < *state.page.start() {
            WindowTransition::InsertRight { pos: *state.page.start(), by: 1 }
        } else {
            WindowTransition::InsertRight { pos: v, by: 1 }
        }
    }

    /// Removal after the page changes nothing. Removal before it removes the first record and
    /// brings one in at the end. Removal in the page removes the value at its position and
    /// pulls the following records to the left.
    fn remove(state: &StoreState, p: &Point) -> (t: WindowTransition) {
        let v = p.value();
        if v >= *state.page.end() {
            WindowTransition::Identity
        } else if v < *state.page.start() {
            WindowTransition::RemoveRight { pos: *state.page.start(), by: 1 }
        } else {
            WindowTransition::RemoveRight { pos: v, by: 1 }
        }
    }

    /// Moving data of `moved`: nothing happens when it lies after the page. When it lies
    /// before the page it counts as adding its records before the page; otherwise as an
    /// insertion of the part that overlaps the page, at the start of that part. At most a page
    /// of records is inserted.
    fn slide(state: &StoreState, moved: &Range) -> (t: WindowTransition) {
        let r = state.page;
        let page_len = r.len();
        if *r.end() <= *moved.start() {
            WindowTransition::Identity
        } else if *moved.start() <= *r.start() && *r.end() <= *moved.end() {
            let moved_len = moved.len();
            WindowTransition::InsertRight {
                pos: *r.start(),
                by: if moved_len <= page_len { moved_len } else { page_len },
            }
        } else if *moved.end() <= *r.start() {
            let moved_len = moved.len();
            WindowTransition::InsertRight {
                pos: *r.start(),
                by: if moved_len <= page_len { moved_len } else { page_len },
            }
        } else if *moved.start() < *r.start() {
            let n = *moved.end() - *r.start();
            WindowTransition::InsertRight { pos: *r.start(), by: if n <= page_len { n } else { page_len } }
        } else {
            let upto = if *r.end() <= *moved.end() { *r.end() } else { *moved.end() };
            let n = upto - *moved.start();
            WindowTransition::InsertRight {
                pos: *moved.start(),
                by: if n <= page_len { n } else { page_len },
            }
        }
    }
}

} // verus!
