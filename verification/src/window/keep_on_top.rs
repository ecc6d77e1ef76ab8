use vstd::prelude::*;

use crate::math::Point;
use crate::math::Range;

use super::StoreState;
use super::WindowBehavior;
use super::WindowTransition;

verus! {

/// Locks the view to the top (first page) of the store view
///
/// Useful for a reporting tool that shows the top records of the store and nothing else.
#[derive(Debug)]
pub struct KeepOnTop {}

impl WindowBehavior for KeepOnTop {
    open spec fn insert_transition(page: Range, view: nat, p: nat) -> WindowTransition {
        if p >= page.hi() {
            WindowTransition::Identity
        } else {
            WindowTransition::InsertRight { pos: p as usize, by: 1 }
        }
    }

    open spec fn remove_transition(page: Range, view: nat, p: nat) -> WindowTransition {
        if p >= page.hi() {
            WindowTransition::Identity
        } else {
            WindowTransition::RemoveRight { pos: p as usize, by: 1 }
        }
    }

    open spec fn slide_transition(page: Range, view: nat, moved: Range) -> WindowTransition {
        WindowTransition::Identity
    }

    /// An insertion after the page is ignored; otherwise the data is inserted to the right,
    /// the only direction from which data can come
    fn insert(state: &StoreState, p: &Point) -> (t: WindowTransition) {
        let v = p.value();
        if v >= *state.page.end() {
            WindowTransition::Identity
        } else {
            WindowTransition::InsertRight { pos: v, by: 1 }
        }
    }

    /// A removal after the page is ignored; otherwise the data is removed to the right,
    /// the only direction from which data can come
    fn remove(state: &StoreState, p: &Point) -> (t: WindowTransition) {
        let v = p.value();
        if v >= *state.page.end() {
            WindowTransition::Identity
        } else {
            WindowTransition::RemoveRight { pos: v, by: 1 }
        }
    }

    /// Does nothing. The view can't slide away from the top while using this behavior
    fn slide(_state: &StoreState, _moved: &Range) -> (t: WindowTransition) {
        WindowTransition::Identity
    }
}

} // verus!
