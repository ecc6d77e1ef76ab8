//! How each window behavior moves the window of a store view.

use vstd::prelude::*;

use crate::data_store::DataStore;
use crate::data_store::StoreViewMsg;
use crate::math::Range;
use crate::position::Position;
use crate::store_view::after_insert_left;
use crate::store_view::after_insert_right;
use crate::store_view::after_reload;
use crate::store_view::handled;
use crate::store_view::slid;
use crate::store_view::step;
use crate::store_view::transition_of;
use crate::store_view::ViewState;
use crate::window::KeepOnBottom;
use crate::window::KeepOnTop;
use crate::window::PositionTrackingWindow;
use crate::window::ValueTrackingWindow;
use crate::window::WindowBehavior;
use crate::window::WindowTransition;

verus! {

broadcast use {Range::lemma_span, Range::lemma_bounds};

/// None of the messages asks the view to slide to a position.
pub open spec fn no_slide(msgs: Seq<StoreViewMsg>) -> bool {
    forall|i: int| 0 <= i < msgs.len() ==> !(#[trigger] msgs[i] is SlideTo)
}

/// A transition that leaves the window where it is.
pub open spec fn in_place(t: WindowTransition) -> bool {
    t is Identity || t is InsertRight || t is RemoveRight
}

/// Handling one message whose transition leaves the window in place keeps the window.
proof fn lemma_step_in_place<S: DataStore, W: WindowBehavior>(
    store: S,
    cap: nat,
    st: ViewState<S::Record>,
    msg: StoreViewMsg,
)
    requires
        !(msg is SlideTo),
        in_place(transition_of::<W>(st.0, st.1.len(), msg)),
    ensures
        step::<S, W>(store, cap, st, msg).0 == st.0,
{
}

/// Handling messages whose transitions all leave the window in place keeps the window.
proof fn lemma_handled_in_place<S: DataStore, W: WindowBehavior>(
    store: S,
    cap: nat,
    st: ViewState<S::Record>,
    msgs: Seq<StoreViewMsg>,
)
    requires
        no_slide(msgs),
        forall|page: Range, len: nat, msg: StoreViewMsg| #[trigger]
            in_place(transition_of::<W>(page, len, msg)),
    ensures
        handled::<S, W>(store, cap, st, msgs).0 == st.0,
    decreases msgs.len(),
{
    if msgs.len() > 0 {
        let rest = msgs.drop_last();
        assert(no_slide(rest)) by {
            assert forall|i: int| 0 <= i < rest.len() implies !(#[trigger] rest[i] is SlideTo) by {
                assert(rest[i] == msgs[i]);
            }
        }
        lemma_handled_in_place::<S, W>(store, cap, st, rest);
        let before = handled::<S, W>(store, cap, st, rest);
        assert(!(msgs.last() is SlideTo)) by {
            assert(msgs.last() == msgs[msgs.len() - 1]);
        }
        assert(in_place(transition_of::<W>(before.0, before.1.len(), msgs.last())));
        lemma_step_in_place::<S, W>(store, cap, before, msgs.last());
    }
}

/// A view with a [PositionTrackingWindow] stays on its page: whatever the store tells it,
/// only [StoreViewMsg::SlideTo] moves its window.
pub proof fn lemma_position_tracking_stays<S: DataStore>(
    store: S,
    cap: nat,
    st: ViewState<S::Record>,
    msgs: Seq<StoreViewMsg>,
)
    requires
        no_slide(msgs),
    ensures
        handled::<S, PositionTrackingWindow>(store, cap, st, msgs).0 == st.0,
{
    assert forall|page: Range, len: nat, msg: StoreViewMsg| #[trigger]
        in_place(transition_of::<PositionTrackingWindow>(page, len, msg)) by {}
    lemma_handled_in_place::<S, PositionTrackingWindow>(store, cap, st, msgs);
}

/// A view with [KeepOnTop] stays where it is, on the first page when it starts there:
/// only [StoreViewMsg::SlideTo] moves its window.
pub proof fn lemma_keep_on_top_stays<S: DataStore>(
    store: S,
    cap: nat,
    st: ViewState<S::Record>,
    msgs: Seq<StoreViewMsg>,
)
    requires
        no_slide(msgs),
    ensures
        handled::<S, KeepOnTop>(store, cap, st, msgs).0 == st.0,
{
    assert forall|page: Range, len: nat, msg: StoreViewMsg| #[trigger]
        in_place(transition_of::<KeepOnTop>(page, len, msg)) by {}
    lemma_handled_in_place::<S, KeepOnTop>(store, cap, st, msgs);
}

/// A view with a [ValueTrackingWindow] follows its records: after a record is added before
/// its window, the window moves one record to the right (when the store holds a record past
/// the moved window).
pub proof fn lemma_value_tracking_follows<S: DataStore>(
    store: S,
    cap: nat,
    st: ViewState<S::Record>,
    p: usize,
)
    requires
        st.0.lo() <= st.0.hi(),
        p < st.0.lo(),
        st.0.hi() + 1 <= store.count(),
    ensures
        step::<S, ValueTrackingWindow>(store, cap, st, StoreViewMsg::NewAt(Position(p))).0
            == st.0.moved_right(1),
{
}

/// A view with [KeepOnBottom] whose window lies within the store and spans a page never
/// moves its window to the left when a record is added.
pub proof fn lemma_keep_on_bottom_never_back<S: DataStore>(
    store: S,
    cap: nat,
    st: ViewState<S::Record>,
    p: usize,
)
    requires
        st.0.lo() <= st.0.hi(),
        st.0.hi() <= store.count(),
        st.0.size() == cap,
    ensures
        step::<S, KeepOnBottom>(store, cap, st, StoreViewMsg::NewAt(Position(p))).0.lo() >= st.0.lo(),
{
    let page = st.0;
    let t = transition_of::<KeepOnBottom>(page, st.1.len(), StoreViewMsg::NewAt(Position(p)));
    if page.lo() <= p < page.hi() {
        let by: nat = 1;
        let after = after_insert_left(store, cap, st, p as nat, by);
        assert(after.0.lo() >= page.lo()) by {
            if page.lo() == 0 && st.1.len() + by <= cap {
                assert(after == after_insert_right(store, cap, st, p as nat, by));
            }
        }
    }
}

} // verus!

verus! {

/// Records added or removed after the page leave the window of [KeepOnTop],
/// [PositionTrackingWindow] and [ValueTrackingWindow] alone, and [KeepOnBottom] ignores
/// removals there.
pub proof fn lemma_after_page_ignored(page: Range, view: nat, p: nat)
    requires
        page.lo() <= page.hi(),
        p >= page.hi(),
    ensures
        KeepOnTop::insert_transition(page, view, p) is Identity,
        KeepOnTop::remove_transition(page, view, p) is Identity,
        PositionTrackingWindow::insert_transition(page, view, p) is Identity,
        PositionTrackingWindow::remove_transition(page, view, p) is Identity,
        ValueTrackingWindow::insert_transition(page, view, p) is Identity,
        ValueTrackingWindow::remove_transition(page, view, p) is Identity,
        KeepOnBottom::remove_transition(page, view, p) is Identity,
{
}

} // verus!

verus! {

/// When records move within the page of a [ValueTrackingWindow], from `moved.lo()` on, the
/// records from there are inserted again: as many as moved, but not past the end of the page.
pub proof fn lemma_value_tracking_move_in_page(page: Range, view: nat, moved: Range)
    requires
        page.lo() <= page.hi(),
        moved.lo() <= moved.hi(),
        page.lo() <= moved.lo() < page.hi(),
    ensures
        match ValueTrackingWindow::slide_transition(page, view, moved) {
            WindowTransition::InsertRight { pos, by } => {
                &&& pos == moved.lo()
                &&& by <= moved.size()
                &&& by <= page.hi() - moved.lo()
                &&& (by == moved.size() || by == page.hi() - moved.lo())
            },
            _ => false,
        },
{
}

/// Sliding right within the records of the store moves the window right by exactly `by`
/// records and keeps its size.
pub proof fn lemma_slide_right_within_data(r: Range, by: nat, len: nat, cap: nat)
    requires
        r.lo() <= r.hi(),
        r.hi() + by <= len,
        len <= usize::MAX,
    ensures
        crate::store_view::slid_right(r, by, len, cap) == r.moved_right(by),
        crate::store_view::slid_right(r, by, len, cap).lo() == r.lo() + by,
        crate::store_view::slid_right(r, by, len, cap).size() == r.size(),
{
}

} // verus!
