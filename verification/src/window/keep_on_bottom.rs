use vstd::prelude::*;

use crate::math::Point;
use crate::math::Range;

use super::StoreState;
use super::WindowBehavior;
use super::WindowTransition;

verus! {

/// Locks the view to the bottom (last page) of the store view
///
/// Useful for logging tools, such as the list of commands issued by a git client.
#[derive(Debug)]
pub struct KeepOnBottom {}

impl WindowBehavior for KeepOnBottom {
    open spec fn insert_transition(page: Range, view: nat, p: nat) -> WindowTransition {
        if p < page.lo() {
            WindowTransition::TransitionRight(1)
        } else if p >= page.hi() {
            WindowTransition::SlideRight(1)
        } else {
            WindowTransition::InsertLeft { pos: p as usize, by: 1 }
        }
    }

    open spec fn remove_transition(page: Range, view: nat, p: nat) -> WindowTransition {
        if p < page.lo() {
            WindowTransition::TransitionLeft(1)
        } else if p >= page.hi() {
            WindowTransition::Identity
        } else {
            WindowTransition::RemoveLeft { pos: p as usize, by: 1 }
        }
    }

    open spec fn slide_transition(page: Range, view: nat, moved: Range) -> WindowTransition {
        WindowTransition::Identity
    }

    /// Inserting before the page moves the window right, inserting after it slides the
    /// view by one record, inserting in it pushes the first record out on the left.
    fn insert(state: &StoreState, p: &Point) -> (t: WindowTransition) {
        let v = p.value();
        if v < *state.page.start() {
            WindowTransition::TransitionRight(1)
        } else if v >= *state.page.end() {
            WindowTransition::SlideRight(1)
        } else {
            WindowTransition::InsertLeft { pos: v, by: 1 }
        }
    }

    /// Removing before the page moves the window left, removing after it changes nothing,
    /// removing in it pulls the record before the page into it.
    fn remove(state: &StoreState, p: &Point) -> (t: WindowTransition) {
        let v = p.value();
        if v < *state.page.start() {
            WindowTransition::TransitionLeft(1)
        } else if v >= *state.page.end() {
            WindowTransition::Identity
        } else {
            WindowTransition::RemoveLeft { pos: v, by: 1 }
        }
    }

    /// Does nothing. The view can't slide away from the bottom while using this behavior
    fn slide(_state: &StoreState, _moved: &Range) -> (t: WindowTransition) {
        WindowTransition::Identity
    }
}

} // verus!
