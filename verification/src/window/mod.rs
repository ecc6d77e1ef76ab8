//! Basic view window behaviors.
//!
//! When data is shown to the user, different kinds of view behavior are wanted when the
//! data in the store changes.
//!
//! With pagination use [PositionTrackingWindow]: it never shows data of two pages at once.
//! With scrolling use [ValueTrackingWindow]: it keeps the data in the view as much as possible.
//! For a log preview use [KeepOnBottom], which shows the last page of records.
//! For a dashboard use [KeepOnTop], which locks the view to the first page of records.

mod keep_on_bottom;
mod keep_on_top;
mod position_tracking_window;
mod store_state;
mod value_tracking_window;
mod window_transition;

use vstd::prelude::*;

use crate::math::Point;
use crate::math::Range;

pub use keep_on_bottom::KeepOnBottom;
pub use keep_on_top::KeepOnTop;
pub use position_tracking_window::PositionTrackingWindow;
pub use store_state::StoreState;
pub use value_tracking_window::ValueTrackingWindow;
pub use window_transition::WindowTransition;

verus! {

/// Describes how the window view should behave in presence of changes
///
/// Implementations should return [WindowTransition::Identity] as often as possible, else
/// the view computes updates for elements which are out of the view.
pub trait WindowBehavior {
    /// Transition for an insertion at `p` while the view shows `page`.
    spec fn insert_transition(page: Range, view: nat, p: nat) -> WindowTransition;

    /// Transition for a removal at `p` while the view shows `page`.
    spec fn remove_transition(page: Range, view: nat, p: nat) -> WindowTransition;

    /// Transition for moving the data of `moved` while the view shows `page`.
    spec fn slide_transition(page: Range, view: nat, moved: Range) -> WindowTransition;

    /// Computes change in order of indexes of elements on the line due to insert
    ///
    /// - `state` is the current store view state
    /// - `p` is an insertion point
    fn insert(state: &StoreState, p: &Point) -> (t: WindowTransition)
        ensures
            t == Self::insert_transition(state.page, state.view as nat, p.at()),
    ;

    /// Computes change in order of indexes of element on the line due to removal
    ///
    /// - `state` is the current store view state
    /// - `p` is the removal point
    fn remove(state: &StoreState, p: &Point) -> (t: WindowTransition)
        ensures
            t == Self::remove_transition(state.page, state.view as nat, p.at()),
    ;

    /// Computes change in order of indexes of elements due to moving the range
    ///
    /// - `state` is the current store view state
    /// - `moved` is the new range to which the view would be moved to
    fn slide(state: &StoreState, moved: &Range) -> (t: WindowTransition)
        ensures
            t == Self::slide_transition(state.page, state.view as nat, *moved),
    ;
}

} // verus!
