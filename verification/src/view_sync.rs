//! A store view stays in sync with a store that answers in store order.
//!
//! Stores may answer [DataStore::get_range] in any order; the laws here are about stores
//! that answer from the records they hold, in order. Each message is handled while the
//! store holds the records it announced.

use vstd::prelude::*;

use crate::data_container::fit;
use crate::data_container::insert_left_allowed;
use crate::data_container::insert_left_outcome;
use crate::data_container::left_count;
use crate::data_container::insert_right_allowed;
use crate::data_container::insert_right_outcome;
use crate::data_container::reload_outcome;
use crate::data_container::right_count;
use crate::data_container::right_kept;
use crate::data_store::DataStore;
use crate::data_store::StoreViewMsg;
use crate::math::min_nat;
use crate::math::Range;
use crate::position::Position;
use crate::record::ids_of;
use crate::record::Record;
use crate::store_view::after_insert_left;
use crate::store_view::after_insert_right;
use crate::store_view::after_reload;
use crate::store_view::fetched;
use crate::store_view::slid;
use crate::store_view::slid_left;
use crate::store_view::slid_right;
use crate::store_view::step;
use crate::store_view::updated_entries;
use crate::store_view::with_window;
use crate::store_view::with_outcome;
use crate::store_view::ViewState;
use crate::window::KeepOnBottom;
use crate::window::KeepOnTop;
use crate::window::PositionTrackingWindow;
use crate::window::ValueTrackingWindow;
use crate::window::WindowBehavior;

verus! {

broadcast use {Range::lemma_span, Range::lemma_bounds};

/// Records of `content` that the window `w` covers.
pub open spec fn window_of<R>(content: Seq<R>, w: Range) -> Seq<R> {
    content.subrange(min_nat(w.lo(), content.len()) as int, min_nat(w.hi(), content.len()) as int)
}

/// The store answers from `content`, the records it holds in store order: it counts them
/// and gives, in order, the ones a range covers.
pub open spec fn answers_from<S: DataStore>(store: S, content: Seq<S::Record>) -> bool {
    &&& store.count() == content.len()
    &&& forall|r: Range| r.lo() <= r.hi() ==> (#[trigger] store.records_in(r))@ == window_of(content, r)
}

/// No two records of `content` share an identifier.
pub open spec fn distinct<R: Record>(content: Seq<R>) -> bool {
    ids_of(content).no_duplicates()
}

/// The view state `st`, of a window of `cap` records, shows the records of `content` that
/// its window covers. (A view's page size is always the size of its window.)
pub open spec fn in_sync<R>(st: ViewState<R>, content: Seq<R>, cap: nat) -> bool {
    &&& st.0.lo() <= st.0.hi()
    &&& st.0.size() == cap
    &&& st.1 == window_of(content, st.0)
}

/// Identifiers of a part of `c` are that part of its identifiers.
proof fn lemma_ids_subrange<R: Record>(c: Seq<R>, a: int, b: int)
    requires
        0 <= a <= b <= c.len(),
    ensures
        ids_of(c.subrange(a, b)) == ids_of(c).subrange(a, b),
        distinct(c) ==> distinct(c.subrange(a, b)),
{
    assert(ids_of(c.subrange(a, b)) =~= ids_of(c).subrange(a, b));
}

/// Reloading a window of `cap` records from a store that answers from `content` shows the
/// records of `content` in the window.
proof fn lemma_reload_in_sync<S: DataStore>(store: S, content: Seq<S::Record>, cap: nat, st: ViewState<S::Record>)
    requires
        answers_from(store, content),
        distinct(content),
        st.0.lo() <= st.0.hi(),
        st.0.size() == cap,
    ensures
        in_sync(after_reload(store, cap, st), content, cap),
        after_reload(store, cap, st).0 == st.0,
{
    let rs = store.records_in(st.0)@;
    let lo = min_nat(st.0.lo(), content.len());
    let hi = min_nat(st.0.hi(), content.len());
    assert(rs == window_of(content, st.0));
    lemma_ids_subrange(content, lo as int, hi as int);
    assert(rs.take(fit(rs.len(), cap) as int) =~= rs);
    assert(ids_of(rs).to_set().disjoint(Seq::<u128>::empty().to_set()));
}

/// After a [StoreViewMsg::Reload] the view shows the records of its window, whatever its
/// window behavior.
pub proof fn lemma_reload_syncs<S: DataStore, W: WindowBehavior>(
    store: S,
    content: Seq<S::Record>,
    cap: nat,
    st: ViewState<S::Record>,
)
    requires
        answers_from(store, content),
        distinct(content),
        st.0.lo() <= st.0.hi(),
        st.0.size() == cap,
    ensures
        in_sync(step::<S, W>(store, cap, st, StoreViewMsg::Reload), content, cap),
{
    lemma_reload_in_sync(store, content, cap, (st.0, st.1, st.2, st.3, st.4, true));
}

/// In a view in sync with `c`, inserting at `q` the record that the store now holds there,
/// after `r` went in at `p`, keeps the view in sync when `q` is the first position of the
/// window that the insertion changes.
proof fn lemma_insert_right_in_sync<S: DataStore>(
    store: S,
    c: Seq<S::Record>,
    p: nat,
    r: S::Record,
    cap: nat,
    st: ViewState<S::Record>,
    q: nat,
)
    requires
        in_sync(st, c, cap),
        st.0.lo() <= c.len(),
        p <= c.len(),
        q == if p < st.0.lo() { st.0.lo() } else { p },
        q < st.0.hi(),
        answers_from(store, c.insert(p as int, r)),
        distinct(c.insert(p as int, r)),
    ensures
        in_sync(after_insert_right(store, cap, st, q, 1), c.insert(p as int, r), cap),
        after_insert_right(store, cap, st, q, 1).0 == st.0,
{
    let c2 = c.insert(p as int, r);
    c.insert_ensures(p as int, r);
    let lo = st.0.lo();
    let hi = st.0.hi();
    let e = st.1;
    let m = min_nat(hi, c.len());
    assert(e == c.subrange(lo as int, m as int));
    let rs = fetched(store, q, 1);
    assert(rs =~= seq![c2[q as int]]) by {
        assert(Range::span(q, q + 1).lo() <= Range::span(q, q + 1).hi());
    }
    let position = (q - lo) as nat;
    let k = right_count(cap, position, 1);
    let keep = right_kept(e.len(), cap, position, 1);
    assert(k == 1);
    // the records of the view are records of c2 at indexes other than q
    let idx = |j: int| if j < p { j } else { j + 1 };
    assert forall|i: int| 0 <= i < e.len() implies #[trigger] e[i] == c2[idx(lo + i)] && idx(lo + i) != q
        && 0 <= idx(lo + i) < c2.len() by {}
    assert(insert_right_allowed(e, cap, position, rs)) by {
        assert(ids_of(rs.take(k as int)) =~= seq![c2[q as int].id_of()]);
        assert forall|x: u128| ids_of(rs.take(k as int)).to_set().contains(x) implies !ids_of(e).take(
            keep as int,
        ).to_set().contains(x) by {
            assert(ids_of(rs.take(k as int))[0] == x);
            if ids_of(e).take(keep as int).to_set().contains(x) {
                let i = choose|i: int| 0 <= i < keep && ids_of(e).take(keep as int)[i] == x;
                assert(ids_of(c2)[idx(lo + i)] == ids_of(c2)[q as int]);
            }
        }
        assert(ids_of(rs.take(k as int)).to_set().disjoint(ids_of(e).take(keep as int).to_set()));
    }
    let out = insert_right_outcome(e, cap, position, rs).0;
    let target = window_of(c2, st.0);
    assert(target == c2.subrange(lo as int, min_nat(hi, c2.len()) as int));
    assert(out.len() == target.len());
    assert forall|i: int| 0 <= i < out.len() implies out[i] == target[i] by {
        if i < position {
            assert(out[i] == e[i]);
        } else if i == position {
        } else {
            assert(out[i] == e[i - 1]);
        }
    }
    assert(out =~= target);
}

/// A view of an empty window shows nothing, before and after a record is added.
proof fn lemma_empty_window_insert<S: DataStore>(
    store: S,
    c: Seq<S::Record>,
    p: nat,
    r: S::Record,
    cap: nat,
    st: ViewState<S::Record>,
)
    requires
        in_sync(st, c, cap),
        st.0.lo() == st.0.hi(),
        st.0.lo() <= c.len(),
        p <= c.len(),
        answers_from(store, c.insert(p as int, r)),
    ensures
        in_sync(after_insert_right(store, cap, st, st.0.lo(), 1), c.insert(p as int, r), cap),
        after_insert_right(store, cap, st, st.0.lo(), 1).0 == st.0,
{
    let c2 = c.insert(p as int, r);
    let rs = fetched(store, st.0.lo(), 1);
    assert(st.1 =~= Seq::<S::Record>::empty());
    assert(insert_right_allowed(st.1, cap, 0, rs)) by {
        assert(rs.take(0) =~= Seq::<S::Record>::empty());
        assert(ids_of(rs.take(0)) =~= Seq::<u128>::empty());
        assert(ids_of(st.1).take(0) =~= Seq::<u128>::empty());
    }
    assert(insert_right_outcome(st.1, cap, 0, rs).0 =~= Seq::<S::Record>::empty());
    assert(window_of(c2, st.0) =~= Seq::<S::Record>::empty());
}

/// Records before `hi` are the same in `c` and in `c` with a record added at `p >= hi`.
proof fn lemma_insert_after_window<R>(c: Seq<R>, p: nat, r: R, w: Range)
    requires
        w.lo() <= w.hi(),
        w.hi() <= p <= c.len(),
    ensures
        window_of(c.insert(p as int, r), w) == window_of(c, w),
{
    c.insert_ensures(p as int, r);
    assert(window_of(c.insert(p as int, r), w) =~= window_of(c, w));
}

/// Records before `hi` are the same in `c` and in `c` without its record at `p >= hi`.
proof fn lemma_remove_after_window<R>(c: Seq<R>, p: nat, w: Range)
    requires
        w.lo() <= w.hi(),
        w.hi() <= p < c.len(),
    ensures
        window_of(c.remove(p as int), w) == window_of(c, w),
{
    c.remove_ensures(p as int);
    assert(window_of(c.remove(p as int), w) =~= window_of(c, w));
}

/// Removing a record keeps the identifiers of the others distinct.
proof fn lemma_remove_distinct<R: Record>(c: Seq<R>, p: nat)
    requires
        distinct(c),
        p < c.len(),
    ensures
        distinct(c.remove(p as int)),
{
    c.remove_ensures(p as int);
    let c2 = c.remove(p as int);
    assert forall|i: int, j: int| 0 <= i < j < c2.len() implies ids_of(c2)[i] != ids_of(c2)[j] by {
        let a = if i < p { i } else { i + 1 };
        let b = if j < p { j } else { j + 1 };
        assert(ids_of(c2)[i] == ids_of(c)[a] && ids_of(c2)[j] == ids_of(c)[b]);
    }
}

/// A view with a [PositionTrackingWindow] that shows the records of its window keeps
/// showing them, on the same window, when the store adds a record at `p`.
pub proof fn lemma_position_tracking_insert_syncs<S: DataStore>(
    store: S,
    c: Seq<S::Record>,
    p: usize,
    r: S::Record,
    cap: nat,
    st: ViewState<S::Record>,
)
    requires
        in_sync(st, c, cap),
        st.0.lo() <= c.len(),
        p <= c.len(),
        answers_from(store, c.insert(p as int, r)),
        distinct(c.insert(p as int, r)),
    ensures
        ({
            let after = step::<S, PositionTrackingWindow>(store, cap, st, StoreViewMsg::NewAt(Position(p)));
            &&& in_sync(after, c.insert(p as int, r), cap)
            &&& after.0 == st.0
        }),
{
    if p >= st.0.hi() {
        lemma_insert_after_window(c, p as nat, r, st.0);
    } else if st.0.lo() == st.0.hi() {
        lemma_empty_window_insert(store, c, p as nat, r, cap, st);
    } else {
        let q = if p < st.0.lo() { st.0.lo() } else { p as nat };
        lemma_insert_right_in_sync(store, c, p as nat, r, cap, st, q);
    }
}

/// A view with [KeepOnTop] that shows the records of its window keeps showing them, on the
/// same window, when the store adds a record at `p`.
pub proof fn lemma_keep_on_top_insert_syncs<S: DataStore>(
    store: S,
    c: Seq<S::Record>,
    p: usize,
    r: S::Record,
    cap: nat,
    st: ViewState<S::Record>,
)
    requires
        in_sync(st, c, cap),
        st.0.lo() <= c.len(),
        p <= c.len(),
        answers_from(store, c.insert(p as int, r)),
        distinct(c.insert(p as int, r)),
    ensures
        ({
            let after = step::<S, KeepOnTop>(store, cap, st, StoreViewMsg::NewAt(Position(p)));
            &&& in_sync(after, c.insert(p as int, r), cap)
            &&& after.0 == st.0
        }),
{
    if p >= st.0.hi() {
        lemma_insert_after_window(c, p as nat, r, st.0);
    } else if p < st.0.lo() {
        lemma_reload_in_sync(store, c.insert(p as int, r), cap, st);
    } else {
        lemma_insert_right_in_sync(store, c, p as nat, r, cap, st, p as nat);
    }
}

/// A view with a [PositionTrackingWindow] that shows the records of its window keeps
/// showing them, on the same window, when the store removes its record at `p`.
pub proof fn lemma_position_tracking_remove_syncs<S: DataStore>(
    store: S,
    c: Seq<S::Record>,
    p: usize,
    cap: nat,
    st: ViewState<S::Record>,
)
    requires
        in_sync(st, c, cap),
        p < c.len(),
        answers_from(store, c.remove(p as int)),
        distinct(c),
    ensures
        ({
            let after = step::<S, PositionTrackingWindow>(store, cap, st, StoreViewMsg::Remove(Position(p)));
            &&& in_sync(after, c.remove(p as int), cap)
            &&& after.0 == st.0
        }),
{
    if p >= st.0.hi() {
        lemma_remove_after_window(c, p as nat, st.0);
    } else {
        lemma_remove_distinct(c, p as nat);
        lemma_reload_in_sync(store, c.remove(p as int), cap, st);
    }
}

/// A view with [KeepOnTop] that shows the records of its window keeps showing them, on the
/// same window, when the store removes its record at `p`.
pub proof fn lemma_keep_on_top_remove_syncs<S: DataStore>(
    store: S,
    c: Seq<S::Record>,
    p: usize,
    cap: nat,
    st: ViewState<S::Record>,
)
    requires
        in_sync(st, c, cap),
        p < c.len(),
        answers_from(store, c.remove(p as int)),
        distinct(c),
    ensures
        ({
            let after = step::<S, KeepOnTop>(store, cap, st, StoreViewMsg::Remove(Position(p)));
            &&& in_sync(after, c.remove(p as int), cap)
            &&& after.0 == st.0
        }),
{
    if p >= st.0.hi() {
        lemma_remove_after_window(c, p as nat, st.0);
    } else {
        lemma_remove_distinct(c, p as nat);
        lemma_reload_in_sync(store, c.remove(p as int), cap, st);
    }
}

/// A window of `cap` records moved anywhere keeps its size.
proof fn lemma_slid_size(w: Range, start: nat)
    requires
        w.lo() <= w.hi(),
    ensures
        slid(w, start).lo() <= slid(w, start).hi(),
        slid(w, start).size() == w.size(),
{
}

/// Moving the window and reloading it shows the records of the moved window.
proof fn lemma_move_and_reload_in_sync<S: DataStore>(
    store: S,
    content: Seq<S::Record>,
    cap: nat,
    st: ViewState<S::Record>,
    w: Range,
)
    requires
        answers_from(store, content),
        distinct(content),
        w.lo() <= w.hi(),
        w.size() == cap,
    ensures
        in_sync(after_reload(store, cap, with_window(st, w)), content, cap),
        after_reload(store, cap, with_window(st, w)).0 == w,
{
    lemma_reload_in_sync(store, content, cap, with_window(st, w));
}

/// In a view in sync with `c`, inserting to the left the record that the store now holds at
/// `p` keeps the view in sync, on the window it moves to.
proof fn lemma_insert_left_in_sync<S: DataStore>(
    store: S,
    c: Seq<S::Record>,
    p: nat,
    r: S::Record,
    cap: nat,
    st: ViewState<S::Record>,
)
    requires
        in_sync(st, c, cap),
        st.0.lo() <= p < st.0.hi(),
        p <= c.len(),
        st.0.hi() < usize::MAX || st.0.lo() == 0,
        answers_from(store, c.insert(p as int, r)),
        distinct(c.insert(p as int, r)),
    ensures
        in_sync(
            after_insert_left(store, cap, st, p, 1),
            c.insert(p as int, r),
            cap,
        ),
{
    let c2 = c.insert(p as int, r);
    c.insert_ensures(p as int, r);
    let lo = st.0.lo();
    let hi = st.0.hi();
    let e = st.1;
    let m = min_nat(hi, c.len());
    let rs = fetched(store, p, 1);
    let position = (p - lo) as nat;
    let after = after_insert_left(store, cap, st, p, 1);
    if lo == 0 && e.len() + 1 <= cap {
        lemma_insert_right_in_sync(store, c, p, r, cap, st, p);
    } else if insert_left_allowed(e, cap, position, rs) {
        assert(rs =~= seq![c2[p as int]]) by {
            assert(Range::span(p, p + 1).lo() <= Range::span(p, p + 1).hi());
        }
        assert(hi < usize::MAX);
        let w = slid(st.0, lo + 1);
        assert(w.lo() == lo + 1 && w.hi() == hi + 1);
        let k = left_count(position, 1);
        let out = insert_left_outcome(e, cap, position, rs).0;
        let target = window_of(c2, w);
        assert(e == c.subrange(lo as int, m as int));
        assert(target == c2.subrange((lo + 1) as int, (m + 1) as int));
        assert(out.len() == target.len());
        assert forall|i: int| 0 <= i < out.len() implies out[i] == target[i] by {
            if k == 0 {
                assert(out[i] == e[i]);
            } else if i < position - 1 {
                assert(out[i] == e[i + 1]);
            } else if i == position - 1 {
            } else {
                assert(out[i] == e[i]);
            }
        }
        assert(out =~= target);
    } else {
        lemma_reload_in_sync(store, c2, cap, st);
    }
}

/// Records of `c` in window `w` are those of `c` without its record at `p < lo` in the window
/// moved one record to the left.
proof fn lemma_remove_before_window<R>(c: Seq<R>, p: nat, w: Range)
    requires
        w.lo() <= w.hi(),
        p < w.lo(),
        p < c.len(),
    ensures
        window_of(c.remove(p as int), slid_left(w, 1)) == window_of(c, w),
{
    c.remove_ensures(p as int);
    assert(window_of(c.remove(p as int), slid_left(w, 1)) =~= window_of(c, w));
}

/// Records of `c` in window `w` are those of `c` with a record added at `p < lo` in the window
/// moved one record to the right.
proof fn lemma_insert_before_window<R>(c: Seq<R>, p: nat, r: R, w: Range)
    requires
        w.lo() <= w.hi() < usize::MAX,
        p < w.lo(),
        p <= c.len(),
    ensures
        window_of(c.insert(p as int, r), slid(w, w.lo() + 1)) == window_of(c, w),
{
    c.insert_ensures(p as int, r);
    assert(window_of(c.insert(p as int, r), slid(w, w.lo() + 1)) =~= window_of(c, w));
}

/// A view with a [ValueTrackingWindow] that shows the records of its window keeps showing
/// the records of its window, wherever it moves it, when the store adds a record at `p`.
pub proof fn lemma_value_tracking_insert_syncs<S: DataStore>(
    store: S,
    c: Seq<S::Record>,
    p: usize,
    r: S::Record,
    cap: nat,
    st: ViewState<S::Record>,
)
    requires
        in_sync(st, c, cap),
        st.0.lo() <= c.len(),
        p <= c.len(),
        st.0.hi() < usize::MAX || st.0.lo() == 0,
        answers_from(store, c.insert(p as int, r)),
        distinct(c.insert(p as int, r)),
    ensures
        in_sync(
            step::<S, ValueTrackingWindow>(store, cap, st, StoreViewMsg::NewAt(Position(p))),
            c.insert(p as int, r),
            cap,
        ),
{
    let c2 = c.insert(p as int, r);
    if p >= st.0.hi() {
        lemma_insert_after_window(c, p as nat, r, st.0);
    } else if p < st.0.lo() {
        let w = slid_right(st.0, 1, store.count() as nat, cap);
        lemma_slid_size(st.0, 0);
        lemma_slid_size(st.0, (store.count() - cap) as nat);
        lemma_slid_size(st.0, st.0.lo() + 1);
        lemma_move_and_reload_in_sync(store, c2, cap, st, w);
    } else if p < (st.0.lo() + st.0.hi()) / 2 {
        lemma_insert_left_in_sync(store, c, p as nat, r, cap, st);
    } else {
        lemma_insert_right_in_sync(store, c, p as nat, r, cap, st, p as nat);
    }
}

/// A view with [KeepOnBottom] that shows the records of its window keeps showing the records
/// of its window, wherever it moves it, when the store adds a record at `p`.
pub proof fn lemma_keep_on_bottom_insert_syncs<S: DataStore>(
    store: S,
    c: Seq<S::Record>,
    p: usize,
    r: S::Record,
    cap: nat,
    st: ViewState<S::Record>,
)
    requires
        in_sync(st, c, cap),
        st.0.lo() <= c.len(),
        p <= c.len(),
        st.0.hi() < usize::MAX,
        answers_from(store, c.insert(p as int, r)),
        distinct(c.insert(p as int, r)),
    ensures
        in_sync(
            step::<S, KeepOnBottom>(store, cap, st, StoreViewMsg::NewAt(Position(p))),
            c.insert(p as int, r),
            cap,
        ),
{
    let c2 = c.insert(p as int, r);
    if p < st.0.lo() {
        lemma_insert_before_window(c, p as nat, r, st.0);
        lemma_slid_size(st.0, st.0.lo() + 1);
    } else if p >= st.0.hi() {
        let w = slid_right(st.0, 1, store.count() as nat, cap);
        lemma_slid_size(st.0, 0);
        lemma_slid_size(st.0, (store.count() - cap) as nat);
        lemma_slid_size(st.0, st.0.lo() + 1);
        lemma_move_and_reload_in_sync(store, c2, cap, st, w);
    } else {
        lemma_insert_left_in_sync(store, c, p as nat, r, cap, st);
    }
}

/// A view with a [ValueTrackingWindow] that shows the records of its window keeps showing
/// the records of its window, wherever it moves it, when the store removes its record at `p`.
pub proof fn lemma_value_tracking_remove_syncs<S: DataStore>(
    store: S,
    c: Seq<S::Record>,
    p: usize,
    cap: nat,
    st: ViewState<S::Record>,
)
    requires
        in_sync(st, c, cap),
        p < c.len(),
        answers_from(store, c.remove(p as int)),
        distinct(c),
    ensures
        in_sync(
            step::<S, ValueTrackingWindow>(store, cap, st, StoreViewMsg::Remove(Position(p))),
            c.remove(p as int),
            cap,
        ),
{
    lemma_remove_distinct(c, p as nat);
    lemma_slid_size(st.0, (st.0.lo() - 1) as nat);
    lemma_slid_size(st.0, 0);
    if p >= st.0.hi() {
        lemma_remove_after_window(c, p as nat, st.0);
    } else if p < st.0.lo() {
        lemma_remove_before_window(c, p as nat, st.0);
    } else {
        lemma_move_and_reload_in_sync(store, c.remove(p as int), cap, st, slid_left(st.0, 1));
        lemma_reload_in_sync(store, c.remove(p as int), cap, st);
    }
}

/// A view with [KeepOnBottom] that shows the records of its window keeps showing the records
/// of its window, wherever it moves it, when the store removes its record at `p`.
pub proof fn lemma_keep_on_bottom_remove_syncs<S: DataStore>(
    store: S,
    c: Seq<S::Record>,
    p: usize,
    cap: nat,
    st: ViewState<S::Record>,
)
    requires
        in_sync(st, c, cap),
        p < c.len(),
        answers_from(store, c.remove(p as int)),
        distinct(c),
    ensures
        in_sync(
            step::<S, KeepOnBottom>(store, cap, st, StoreViewMsg::Remove(Position(p))),
            c.remove(p as int),
            cap,
        ),
{
    lemma_remove_distinct(c, p as nat);
    lemma_slid_size(st.0, (st.0.lo() - 1) as nat);
    lemma_slid_size(st.0, 0);
    if p >= st.0.hi() {
        lemma_remove_after_window(c, p as nat, st.0);
    } else if p < st.0.lo() {
        lemma_remove_before_window(c, p as nat, st.0);
    } else {
        lemma_move_and_reload_in_sync(store, c.remove(p as int), cap, st, slid_left(st.0, 1));
    }
}

/// A view that shows the records of its window keeps showing them when the store replaces
/// one of its records by a new version, whatever its window behavior.
pub proof fn lemma_update_syncs<S: DataStore, W: WindowBehavior>(
    store: S,
    c: Seq<S::Record>,
    j: int,
    r: S::Record,
    cap: nat,
    st: ViewState<S::Record>,
)
    requires
        in_sync(st, c, cap),
        0 <= j < c.len(),
        r.id_of() == c[j].id_of(),
        distinct(c),
        store.lookup(r.id_of()) == Some(r),
    ensures
        ({
            let after = step::<S, W>(store, cap, st, StoreViewMsg::Update(r.id_of()));
            &&& in_sync(after, c.update(j, r), cap)
            &&& after.0 == st.0
        }),
{
    let c2 = c.update(j, r);
    let lo = min_nat(st.0.lo(), c.len());
    let m = min_nat(st.0.hi(), c.len());
    let e = st.1;
    assert(e == c.subrange(lo as int, m as int));
    assert forall|i: int| 0 <= i < e.len() implies #[trigger] updated_entries(e, r)[i]
        == c2.subrange(lo as int, m as int)[i] by {
        if lo + i != j {
            assert(ids_of(c)[lo + i] != ids_of(c)[j]);
        }
    }
    assert(updated_entries(e, r) =~= window_of(c2, st.0));
}

} // verus!
