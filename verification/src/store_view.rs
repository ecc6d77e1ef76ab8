//! Store view: the part of a data store that is shown, kept in sync with the store.

use std::marker::PhantomData;

use vstd::prelude::*;
use vstd::std_specs::iter::IteratorSpec;

use crate::data_container::changed;
use crate::data_container::insert_left_allowed;
use crate::data_container::insert_left_outcome;
use crate::data_container::insert_right_allowed;
use crate::data_container::insert_right_outcome;
use crate::data_container::reload_allowed;
use crate::data_container::reload_outcome;
use crate::data_container::DataContainer;
use crate::data_container::Outcome;
use crate::data_store::DataStore;
use crate::data_store::StoreViewMsg;
use crate::math::min_nat;
use crate::math::Range;
use crate::pagination::page_count;
use crate::pagination::pages_for;
use crate::pagination::Pagination;
use crate::position::Position;
use crate::record::ids_of;
use crate::record_with_location::RecordWithLocation;
use crate::redraw::plan_redraw;
use crate::redraw::redraw_of;
use crate::redraw::RedrawPlan;
use crate::record::Record;
use crate::record::RecordId;
use crate::window::StoreState;
use crate::window::WindowBehavior;
use crate::window::WindowTransition;
use crate::window_changeset::WindowChangeset;

verus! {

broadcast use {Range::lemma_span, Range::lemma_bounds};

/// Window, records in view order, and the identifiers whose widgets leave, are refreshed
/// and are created, with the reload mark: what handling store messages changes.
pub type ViewState<R> = (Range, Seq<R>, Set<RecordId>, Set<RecordId>, Set<RecordId>, bool);

/// `st` with the records and identifier sets of a container operation.
pub open spec fn with_outcome<R>(st: ViewState<R>, o: Outcome<R>) -> ViewState<R> {
    (st.0, o.0, st.2 + o.1, st.3 + o.2, st.4 + o.3, st.5)
}

/// `st` with the window `r`.
pub open spec fn with_window<R>(st: ViewState<R>, r: Range) -> ViewState<R> {
    (r, st.1, st.2, st.3, st.4, st.5)
}

/// `a + b`, or `usize::MAX` when that is smaller.
pub open spec fn add_capped(a: nat, b: nat) -> nat {
    min_nat(a + b, usize::MAX as nat)
}

/// Range of the same length as `r` starting at `start`, or as close to it as the largest
/// number allows.
pub open spec fn slid(r: Range, start: nat) -> Range {
    let s = min_nat(start, (usize::MAX - r.size()) as nat);
    Range::span(s, (s + r.size()) as nat)
}

/// Reload of the window of `st` from `store`: its records replace those of the view; when
/// they repeat an identifier the view is emptied.
pub open spec fn after_reload<S: DataStore>(store: S, cap: nat, st: ViewState<S::Record>) -> ViewState<S::Record> {
    let rs = store.records_in(st.0)@;
    if reload_allowed(cap, rs) {
        with_outcome(st, reload_outcome(st.1, cap, rs))
    } else {
        with_outcome(st, reload_outcome(st.1, cap, Seq::<S::Record>::empty()))
    }
}

/// Records the store holds at `pos..pos + by`.
pub open spec fn fetched<S: DataStore>(store: S, pos: nat, by: nat) -> Seq<S::Record> {
    store.records_in(Range::span(pos, add_capped(pos, by)))@
}

/// Insertion of the records at `pos..pos + by` of the store right of their place in the view;
/// when the view can't take them it is reloaded.
pub open spec fn after_insert_right<S: DataStore>(
    store: S,
    cap: nat,
    st: ViewState<S::Record>,
    pos: nat,
    by: nat,
) -> ViewState<S::Record> {
    let rs = fetched(store, pos, by);
    let position = (pos - st.0.lo()) as nat;
    if pos >= st.0.lo() && insert_right_allowed(st.1, cap, position, rs) {
        with_outcome(st, insert_right_outcome(st.1, cap, position, rs))
    } else {
        after_reload(store, cap, st)
    }
}

/// Insertion of the records at `pos..pos + by` of the store left of their place in the view.
/// On the first page with room for them it is an insertion to the right; otherwise the records
/// before them leave the view and the window moves right by `by`. When the view can't take
/// them it is reloaded.
pub open spec fn after_insert_left<S: DataStore>(
    store: S,
    cap: nat,
    st: ViewState<S::Record>,
    pos: nat,
    by: nat,
) -> ViewState<S::Record> {
    let rs = fetched(store, pos, by);
    let position = (pos - st.0.lo()) as nat;
    if st.0.lo() == 0 && st.1.len() + by <= cap {
        after_insert_right(store, cap, st, pos, by)
    } else if pos >= st.0.lo() && insert_left_allowed(st.1, cap, position, rs) {
        with_window(
            with_outcome(st, insert_left_outcome(st.1, cap, position, rs)),
            slid(st.0, st.0.lo() + by as nat),
        )
    } else {
        after_reload(store, cap, st)
    }
}

/// Window after sliding `by` records to the right: it stops at the last page of the store,
/// or stays on the first one when the store holds less than a page.
pub open spec fn slid_right(r: Range, by: nat, len: nat, cap: nat) -> Range {
    if r.hi() + by > len {
        if len < cap {
            slid(r, 0)
        } else {
            slid(r, (len - cap) as nat)
        }
    } else {
        slid(r, r.lo() + by)
    }
}

/// Window moved `by` records to the left, stopping at the first record.
pub open spec fn slid_left(r: Range, by: nat) -> Range {
    slid(r, if by <= r.lo() { (r.lo() - by) as nat } else { 0 })
}

/// `e` with `r` in place of the record that has its identifier.
pub open spec fn updated_entries<R: Record>(e: Seq<R>, r: R) -> Seq<R> {
    Seq::new(e.len(), |i: int| if e[i].id_of() == r.id_of() { r } else { e[i] })
}

/// Transition that window behavior `W` gives for `msg` while the view shows `page` and
/// holds `len` records.
pub open spec fn transition_of<W: WindowBehavior>(page: Range, len: nat, msg: StoreViewMsg) -> WindowTransition {
    match msg {
        StoreViewMsg::NewAt(p) => W::insert_transition(page, len, p.0 as nat),
        StoreViewMsg::Move { from, to } => W::slide_transition(
            page,
            len,
            Range::span(min_nat(from.0 as nat, to.0 as nat), if from.0 <= to.0 { to.0 as nat } else { from.0 as nat }),
        ),
        StoreViewMsg::Reorder { from, to } => W::slide_transition(
            page,
            len,
            Range::span(min_nat(from.0 as nat, to.0 as nat), if from.0 <= to.0 { to.0 as nat } else { from.0 as nat }),
        ),
        StoreViewMsg::Remove(p) => W::remove_transition(page, len, p.0 as nat),
        _ => WindowTransition::Identity,
    }
}

/// Handling of one store message by a view of capacity `cap` on `store`.
pub open spec fn step<S: DataStore, W: WindowBehavior>(
    store: S,
    cap: nat,
    st: ViewState<S::Record>,
    msg: StoreViewMsg,
) -> ViewState<S::Record> {
    match transition_of::<W>(st.0, st.1.len(), msg) {
        WindowTransition::Identity => match msg {
            StoreViewMsg::Update(id) => match store.lookup(id) {
                Some(r) => (st.0, updated_entries(st.1, r), st.2, st.3.insert(id), st.4, st.5),
                None => st,
            },
            StoreViewMsg::Reload => after_reload(store, cap, (st.0, st.1, st.2, st.3, st.4, true)),
            StoreViewMsg::SlideTo(p) => after_reload(store, cap, with_window(st, slid(st.0, p.0 as nat))),
            _ => st,
        },
        WindowTransition::InsertLeft { pos, by } => after_insert_left(store, cap, st, pos as nat, by as nat),
        WindowTransition::InsertRight { pos, by } => after_insert_right(store, cap, st, pos as nat, by as nat),
        WindowTransition::TransitionRight(n) => with_window(st, slid(st.0, st.0.lo() + n as nat)),
        WindowTransition::TransitionLeft(n) => with_window(st, slid_left(st.0, n as nat)),
        WindowTransition::SlideRight(by) => after_reload(
            store,
            cap,
            with_window(st, slid_right(st.0, by as nat, store.count() as nat, cap)),
        ),
        WindowTransition::RemoveLeft { pos, by } => after_reload(store, cap, with_window(st, slid_left(st.0, by as nat))),
        WindowTransition::SlideLeft(by) => after_reload(store, cap, with_window(st, slid_left(st.0, by as nat))),
        WindowTransition::RemoveRight { .. } => after_reload(store, cap, st),
    }
}

/// Handling of the messages `msgs`, in order, starting from `st`.
pub open spec fn handled<S: DataStore, W: WindowBehavior>(
    store: S,
    cap: nat,
    st: ViewState<S::Record>,
    msgs: Seq<StoreViewMsg>,
) -> ViewState<S::Record>
    decreases msgs.len(),
{
    if msgs.len() == 0 {
        st
    } else {
        step::<S, W>(store, cap, handled::<S, W>(store, cap, st, msgs.drop_last()), msgs.last())
    }
}

/// Handling a single message is one step.
pub proof fn lemma_handled_one<S: DataStore, W: WindowBehavior>(
    store: S,
    cap: nat,
    st: ViewState<S::Record>,
    msg: StoreViewMsg,
)
    ensures
        handled::<S, W>(store, cap, st, seq![msg]) == step::<S, W>(store, cap, st, msg),
{
    assert(seq![msg].drop_last() =~= Seq::<StoreViewMsg>::empty());
    assert(handled::<S, W>(store, cap, st, Seq::<StoreViewMsg>::empty()) == st);
}

/// Going back a page right after going to the next one brings the window back where it was.
pub proof fn lemma_next_then_prev_page(w: Range)
    requires
        w.lo() <= w.hi(),
        w.hi() + w.size() <= usize::MAX,
    ensures
        ({
            let next = w.moved_right(w.size() as nat);
            next.moved_left(next.size() as nat) == w
        }),
{
    Range::lemma_right_then_left(w, w.size() as nat);
}

/// Whether `a` and `b` hold the same identifiers in the same order.
fn same_ids(a: &Vec<RecordId>, b: &Vec<RecordId>) -> (same: bool)
    ensures
        same == (a@ == b@),
{
    if a.len() != b.len() {
        return false;
    }
    let mut i: usize = 0;
    while i < a.len()
        invariant
            a@.len() == b@.len(),
            0 <= i <= a@.len(),
            forall|j: int| 0 <= j < i ==> a@[j] == b@[j],
        decreases a@.len() - i,
    {
        if a[i] != b[i] {
            return false;
        }
        i = i + 1;
    }
    assert(a@ =~= b@);
    true
}

/// View of the store
///
/// The state of the view reflects a subset of the state of the store, like a page of the data.
/// To change the content, use the store: the store propagates the updates to the view.
///
/// This view does not support stores holding a record twice.
#[derive(Debug)]
pub struct StoreViewImplementation<S: DataStore, W: WindowBehavior> {
    store: S,
    view: DataContainer<S::Record>,
    changes: Vec<StoreViewMsg>,
    range: Range,
    size: usize,
    limit: usize,
    shown: Vec<RecordId>,
    behavior: PhantomData<W>,
}

impl<S: DataStore, W: WindowBehavior> StoreViewImplementation<S, W> {
    /// Store that provides the data.
    pub closed spec fn backend(&self) -> S {
        self.store
    }

    /// Range of the store that the view shows.
    pub closed spec fn window(&self) -> Range {
        self.range
    }

    /// Records in the view, in view order.
    pub closed spec fn entries(&self) -> Seq<S::Record> {
        self.view.entries()
    }

    /// Messages waiting to be handled.
    pub closed spec fn pending(&self) -> Seq<StoreViewMsg> {
        self.changes@
    }

    /// Most records the view shows: the size of its window, but no more than the page size
    /// it was created with.
    pub closed spec fn page_size(&self) -> nat {
        self.size as nat
    }

    /// Page size the view was created with.
    pub closed spec fn max_page(&self) -> nat {
        self.limit as nat
    }

    /// Records whose widgets the last redraw left shown, in order.
    pub closed spec fn shown(&self) -> Seq<RecordId> {
        self.shown@
    }

    /// The view is consistent.
    pub closed spec fn wf(&self) -> bool {
        &&& self.view.wf()
        &&& self.view.capacity() == self.size
        &&& self.range.lo() <= self.range.hi()
        &&& self.size == min_nat(self.limit as nat, self.range.size() as nat)
        &&& self.shown@.no_duplicates()
    }

    /// State of the view and of `cs`.
    pub open spec fn state(&self, cs: WindowChangeset) -> ViewState<S::Record> {
        (self.window(), self.entries(), cs.removed(), cs.updated(), cs.added(), cs.reload)
    }

    /// Creates a view of `size` records on the first page of `store`; its first handling of
    /// messages loads the data.
    pub fn new(store: S, size: usize) -> (v: Self)
        ensures
            v.wf(),
            v.backend() == store,
            v.window() == Range::span(0, size as nat),
            v.entries() == Seq::<S::Record>::empty(),
            v.pending() == seq![StoreViewMsg::Reload],
            v.page_size() == size,
            v.max_page() == size,
            v.shown() == Seq::<RecordId>::empty(),
    {
        let range = Range::new(0, size);
        let mut changes = Vec::new();
        changes.push(StoreViewMsg::Reload);
        Self {
            store,
            view: DataContainer::new(size),
            changes,
            range,
            size,
            limit: size,
            shown: Vec::new(),
            behavior: PhantomData,
        }
    }

    /// Adds message to the inbox; messages are handled in batch at render time
    pub fn inbox(&mut self, message: StoreViewMsg)
        ensures
            final(self).pending() == old(self).pending().push(message),
            final(self).backend() == old(self).backend(),
            final(self).window() == old(self).window(),
            final(self).entries() == old(self).entries(),
            final(self).page_size() == old(self).page_size(),
            final(self).max_page() == old(self).max_page(),
            final(self).shown() == old(self).shown(),
            old(self).wf() ==> final(self).wf(),
    {
        self.changes.push(message);
    }

    /// Reloads the window from the store.
    fn reload(&mut self, changeset: &mut WindowChangeset)
        requires
            old(self).wf(),
        ensures
            final(self).wf(),
            final(self).state(*final(changeset)) == after_reload(
                old(self).backend(),
                old(self).page_size(),
                old(self).state(*old(changeset)),
            ),
            final(self).backend() == old(self).backend(),
            final(self).pending() == old(self).pending(),
            final(self).page_size() == old(self).page_size(),
            final(self).max_page() == old(self).max_page(),
            final(self).shown() == old(self).shown(),
    {
        let data = self.store.get_range(&self.range);
        if self.view.can_reload(&data) {
            self.view.reload(changeset, data);
        } else {
            let nothing: Vec<S::Record> = Vec::new();
            assert(nothing@ =~= Seq::<S::Record>::empty());
            self.view.reload(changeset, nothing);
        }
    }

    /// Records of the store at `pos..pos + by`.
    fn fetch(&self, pos: usize, by: usize) -> (v: Vec<S::Record>)
        ensures
            v@ == fetched(self.backend(), pos as nat, by as nat),
    {
        let end = if by <= usize::MAX - pos {
            pos + by
        } else {
            usize::MAX
        };
        self.store.get_range(&Range::new(pos, end))
    }

    /// The window moved to start at `start`, as far as the largest number allows.
    fn slide_to(&self, start: usize) -> (r: Range)
        requires
            self.window().lo() <= self.window().hi(),
        ensures
            r == slid(self.window(), start as nat),
            r.lo() <= r.hi(),
            r.size() == self.window().size(),
    {
        let len = self.range.len();
        let s = if start <= usize::MAX - len {
            start
        } else {
            usize::MAX - len
        };
        self.range.slide(s)
    }

    /// Inserts the records at `pos..pos + by` of the store right of their place in the view.
    fn insert_right(&mut self, changeset: &mut WindowChangeset, pos: usize, by: usize)
        requires
            old(self).wf(),
        ensures
            final(self).wf(),
            final(self).state(*final(changeset)) == after_insert_right(
                old(self).backend(),
                old(self).page_size(),
                old(self).state(*old(changeset)),
                pos as nat,
                by as nat,
            ),
            final(self).backend() == old(self).backend(),
            final(self).pending() == old(self).pending(),
            final(self).page_size() == old(self).page_size(),
            final(self).max_page() == old(self).max_page(),
            final(self).shown() == old(self).shown(),
    {
        let data = self.fetch(pos, by);
        let start = *self.range.start();
        if pos >= start {
            let position = pos - start;
            if self.view.can_insert_right(position, &data) {
                self.view.insert_right(changeset, position, data);
                return;
            }
        }
        self.reload(changeset);
    }

    /// Inserts the records at `pos..pos + by` of the store left of their place in the view.
    ///
    /// On the first page with room for them it inserts to the right instead. Otherwise as many
    /// records leave the view at its beginning, and the window moves right by `by`.
    fn insert_left(&mut self, changeset: &mut WindowChangeset, pos: usize, by: usize)
        requires
            old(self).wf(),
        ensures
            final(self).wf(),
            final(self).state(*final(changeset)) == after_insert_left(
                old(self).backend(),
                old(self).page_size(),
                old(self).state(*old(changeset)),
                pos as nat,
                by as nat,
            ),
            final(self).backend() == old(self).backend(),
            final(self).pending() == old(self).pending(),
            final(self).page_size() == old(self).page_size(),
            final(self).max_page() == old(self).max_page(),
            final(self).shown() == old(self).shown(),
    {
        proof {
            self.view.lemma_wf();
        }
        let start = *self.range.start();
        if start == 0 && by <= self.size - self.view.len() {
            self.insert_right(changeset, pos, by);
            return;
        }
        let data = self.fetch(pos, by);
        if pos >= start {
            let position = pos - start;
            if self.view.can_insert_left(position, &data) {
                self.view.insert_left(changeset, position, data);
                let target = if by <= usize::MAX - start {
                    start + by
                } else {
                    usize::MAX
                };
                self.range = self.slide_to(target);
                proof {
                    let st = old(self).state(*old(changeset));
                    let o = insert_left_outcome(st.1, old(self).page_size(), position as nat, data@);
                    assert(self.window() == slid(st.0, st.0.lo() + by as nat));
                    assert(self.entries() == o.0);
                    assert(self.state(*changeset) == with_window(with_outcome(st, o), slid(st.0, st.0.lo() + by as nat)));
                }
                return;
            }
        }
        self.reload(changeset);
    }

    /// Transition that the window behavior gives for `message` in the current state.
    fn convert_to_transition(&self, message: StoreViewMsg) -> (t: WindowTransition)
        requires
            self.wf(),
        ensures
            t == transition_of::<W>(self.window(), self.entries().len(), message),
    {
        let state = StoreState { page: self.range, view: self.view.len() };
        match message {
            StoreViewMsg::NewAt(p) => W::insert(&state, &p.to_point()),
            StoreViewMsg::Move { from, to } => W::slide(&state, &Range::new(from.0, to.0)),
            StoreViewMsg::Reorder { from, to } => W::slide(&state, &Range::new(from.0, to.0)),
            StoreViewMsg::Remove(at) => W::remove(&state, &at.to_point()),
            _ => WindowTransition::Identity,
        }
    }

    /// Window after sliding `by` records to the right, kept within the data of the store.
    fn slid_right_window(&self, by: usize) -> (r: Range)
        requires
            self.window().lo() <= self.window().hi(),
        ensures
            r.lo() <= r.hi(),
            r.size() == self.window().size(),
            r == slid_right(self.window(), by as nat, self.backend().count() as nat, self.page_size()),
    {
        let len = self.store.len();
        let start = *self.range.start();
        let end = *self.range.end();
        if end > len || by > len - end {
            if len < self.size {
                self.slide_to(0)
            } else {
                self.slide_to(len - self.size)
            }
        } else {
            self.slide_to(start + by)
        }
    }

    /// Handles one store message.
    fn apply(&mut self, changeset: &mut WindowChangeset, change: StoreViewMsg)
        requires
            old(self).wf(),
        ensures
            final(self).wf(),
            final(self).state(*final(changeset)) == step::<S, W>(
                old(self).backend(),
                old(self).page_size(),
                old(self).state(*old(changeset)),
                change,
            ),
            final(self).backend() == old(self).backend(),
            final(self).pending() == old(self).pending(),
            final(self).page_size() == old(self).page_size(),
            final(self).max_page() == old(self).max_page(),
            final(self).shown() == old(self).shown(),
    {
        let transition = self.convert_to_transition(change);
        match transition {
            WindowTransition::Identity => match change {
                StoreViewMsg::Update(id) => {
                    if let Some(record) = self.store.get(&id) {
                        changeset.ids_to_update.insert(id);
                        self.view.update(record);
                        proof {
                            self.view.lemma_wf();
                            assert(self.entries() =~= updated_entries(old(self).entries(), record));
                        }
                    }
                },
                StoreViewMsg::Reload => {
                    changeset.reload = true;
                    self.reload(changeset);
                },
                StoreViewMsg::SlideTo(p) => {
                    self.range = self.slide_to(p.0);
                    self.reload(changeset);
                },
                _ => {},
            },
            WindowTransition::InsertLeft { pos, by } => {
                self.insert_left(changeset, pos, by);
            },
            WindowTransition::InsertRight { pos, by } => {
                self.insert_right(changeset, pos, by);
            },
            WindowTransition::TransitionRight(n) => {
                let start = *self.range.start();
                let target = if n <= usize::MAX - start {
                    start + n
                } else {
                    usize::MAX
                };
                self.range = self.slide_to(target);
            },
            WindowTransition::TransitionLeft(n) => {
                let start = *self.range.start();
                let target = if n <= start {
                    start - n
                } else {
                    0
                };
                self.range = self.slide_to(target);
            },
            WindowTransition::SlideRight(by) => {
                self.range = self.slid_right_window(by);
                self.reload(changeset);
            },
            WindowTransition::RemoveLeft { pos: _, by } | WindowTransition::SlideLeft(by) => {
                // the records before the window come into the view from the left
                let start = *self.range.start();
                let target = if by <= start {
                    start - by
                } else {
                    0
                };
                self.range = self.slide_to(target);
                self.reload(changeset);
            },
            WindowTransition::RemoveRight { .. } => {
                // the records after the removed ones come in from the right: the window is reloaded
                self.reload(changeset);
            },
        }
    }

    /// Handles all waiting messages and returns how the view changed
    ///
    /// Widgets of records that are new to the view are only added, never also updated.
    pub fn compile_changes(&mut self) -> (changeset: WindowChangeset)
        requires
            old(self).wf(),
        ensures
            final(self).wf(),
            ({
                let st = handled::<S, W>(
                    old(self).backend(),
                    old(self).page_size(),
                    (old(self).window(), old(self).entries(), Set::empty(), Set::empty(), Set::empty(), false),
                    old(self).pending(),
                );
                &&& final(self).window() == st.0
                &&& final(self).entries() == st.1
                &&& changeset.removed() == st.2
                &&& changeset.updated() == st.3.difference(st.4)
                &&& changeset.added() == st.4
                &&& changeset.reload == st.5
            }),
            changeset.updated().disjoint(changeset.added()),
            final(self).pending() == Seq::<StoreViewMsg>::empty(),
            final(self).backend() == old(self).backend(),
            final(self).page_size() == old(self).page_size(),
            final(self).max_page() == old(self).max_page(),
            final(self).shown() == old(self).shown(),
    {
        let mut changeset = WindowChangeset::default();
        let mut changes: Vec<StoreViewMsg> = Vec::new();
        std::mem::swap(&mut changes, &mut self.changes);
        let ghost msgs = changes@;
        let ghost start = (old(self).window(), old(self).entries(), Set::<RecordId>::empty(), Set::<RecordId>::empty(),
            Set::<RecordId>::empty(), false);
        assert(self.state(changeset) == start);
        let mut i: usize = 0;
        while i < changes.len()
            invariant
                changes@ == msgs,
                msgs == old(self).pending(),
                0 <= i <= msgs.len(),
                self.wf(),
                self.backend() == old(self).backend(),
                self.page_size() == old(self).page_size(),
                self.max_page() == old(self).max_page(),
                self.shown() == old(self).shown(),
                self.pending() == Seq::<StoreViewMsg>::empty(),
                self.state(changeset) == handled::<S, W>(self.backend(), self.page_size(), start, msgs.take(i as int)),
            decreases msgs.len() - i,
        {
            let change = changes[i];
            self.apply(&mut changeset, change);
            proof {
                assert(msgs.take(i + 1).drop_last() =~= msgs.take(i as int));
                assert(msgs.take(i + 1).last() == change);
            }
            i = i + 1;
        }
        assert(msgs.take(msgs.len() as int) =~= msgs);
        let ghost before = changeset.updated();
        let ghost removed = changeset.removed();
        let ghost reload = changeset.reload;
        let mut added: Vec<RecordId> = Vec::new();
        let ghost keys = vstd::std_specs::hash::spec_hash_keys_iter(&changeset.ids_to_add).remaining();
        for id in it: changeset.ids_to_add.iter()
            invariant
                it.seq() == keys,
                added@ == it.seq().take(it.index() as int).map_values(|r: &RecordId| *r),
        {
            added.push(*id);
            proof {
                assert(it.seq().take(it.index() + 1) =~= it.seq().take(it.index() as int).push(id));
            }
        }
        proof {
            assert(added@ =~= keys.unref());
            assert(added@.to_set() =~= changeset.added());
        }
        let mut j: usize = 0;
        while j < added.len()
            invariant
                0 <= j <= added@.len(),
                changeset.updated() =~= before.difference(added@.take(j as int).to_set()),
                changeset.added() == added@.to_set(),
                changeset.removed() == removed,
                changeset.reload == reload,
            decreases added@.len() - j,
        {
            changeset.ids_to_update.remove(&added[j]);
            proof {
                assert(added@.take(j + 1) =~= added@.take(j as int).push(added@[j as int]));
                added@.take(j as int).lemma_push_to_set_commute(added@[j as int]);
            }
            j = j + 1;
        }
        assert(added@.take(added@.len() as int) =~= added@);
        changeset
    }

    /// Total amount of available records in the store
    pub fn len(&self) -> (n: usize)
        ensures
            n == self.backend().count(),
    {
        self.store.len()
    }

    /// Returns true if the store doesn't contain any records yet
    pub fn is_empty(&self) -> (b: bool)
        ensures
            b == (self.backend().count() == 0),
    {
        self.store.is_empty()
    }

    /// Returns the record from the store
    pub fn get(&self, id: &RecordId) -> (r: Option<S::Record>)
        ensures
            r == self.backend().lookup(*id),
    {
        self.store.get(id)
    }

    /// Returns records which are in the store at the given range
    pub fn get_range(&self, range: &Range) -> (v: Vec<S::Record>)
        ensures
            v@ == self.backend().records_in(*range)@,
            range.lo() >= self.backend().count() ==> v@.len() == 0,
    {
        self.store.get_range(range)
    }

    /// Number of records the window spans
    pub fn window_size(&self) -> (n: usize)
        ensures
            n == self.window().size(),
    {
        self.range.len()
    }

    /// Returns current number of records visible via the store view
    pub fn current_len(&self) -> (n: usize)
        requires
            self.wf(),
        ensures
            n == self.entries().len(),
            n <= self.window().size(),
    {
        proof {
            self.view.lemma_wf();
        }
        self.view.len()
    }

    /// Returns range in the parent store for data in the current window
    pub fn get_window(&self) -> (r: Range)
        ensures
            r == self.window(),
    {
        self.range
    }

    /// Moves the window to the new range; its records are loaded at the next handling of
    /// messages
    ///
    /// The view shows at most as many records as the new range holds, and never more than the
    /// page size it was created with: the records beyond that leave the view.
    pub fn set_window(&mut self, range: Range)
        requires
            old(self).wf(),
        ensures
            final(self).wf(),
            final(self).window() == range,
            final(self).max_page() == old(self).max_page(),
            final(self).page_size() == min_nat(old(self).max_page(), range.size() as nat),
            final(self).entries() == old(self).entries().take(
                min_nat(old(self).entries().len(), final(self).page_size()) as int,
            ),
            final(self).pending() == old(self).pending().push(StoreViewMsg::Reload),
            final(self).backend() == old(self).backend(),
            final(self).shown() == old(self).shown(),
    {
        let len = range.len();
        let size = if self.limit <= len {
            self.limit
        } else {
            len
        };
        self.view.set_capacity(size);
        self.size = size;
        self.range = range;
        self.changes.push(StoreViewMsg::Reload);
    }

    /// Returns current size of unhandled messages in the view
    pub fn inbox_queue_size(&self) -> (n: usize)
        ensures
            n == self.pending().len(),
    {
        self.changes.len()
    }

    /// Copies of the records in the view with their positions in the store
    pub fn get_view_data(&self) -> (data: Vec<RecordWithLocation<S::Record>>)
        requires
            self.wf(),
            self.window().lo() + self.entries().len() <= usize::MAX,
        ensures
            data@.len() == self.entries().len(),
            forall|i: int| 0 <= i < data@.len() ==> (#[trigger] data@[i]).position.0 == self.window().lo() + i
                && cloned(self.entries()[i], data@[i].record),
    {
        proof {
            self.view.lemma_wf();
        }
        let ids = self.view.ordered_record_ids();
        let start = *self.range.start();
        let mut result: Vec<RecordWithLocation<S::Record>> = Vec::new();
        let mut idx: usize = 0;
        while idx < ids.len()
            invariant
                self.wf(),
                ids@ == self.view.ids(),
                ids@.len() == self.entries().len(),
                start == self.window().lo(),
                start + ids@.len() <= usize::MAX,
                0 <= idx <= ids@.len(),
                result@.len() == idx,
                forall|i: int| 0 <= i < idx ==> (#[trigger] result@[i]).position.0 == start + i
                    && cloned(self.entries()[i], result@[i].record),
            decreases ids@.len() - idx,
        {
            let record = self.view.get_record(&ids[idx]);
            proof {
                self.view.lemma_wf();
                assert(self.view.ids().contains(ids@[idx as int]));
            }
            let record = record.unwrap();
            proof {
                let i = choose|i: int| 0 <= i < self.entries().len() && self.entries()[i] == *record
                    && self.view.ids()[i] == ids@[idx as int];
                assert(self.view.ids()[i] == self.view.ids()[idx as int]);
            }
            let copy = record.clone();
            result.push(RecordWithLocation::new(Position(start + idx), copy));
            idx = idx + 1;
        }
        result
    }

    /// Index in the view of the record with identifier `id`; `None` when it is not in the view
    pub fn get_position(&self, id: &RecordId) -> (p: Option<Position>)
        requires
            self.wf(),
        ensures
            p is None <==> !ids_of(self.entries()).contains(*id),
            p matches Some(pos) ==> pos.0 < self.entries().len() && ids_of(self.entries())[pos.0 as int] == *id,
    {
        proof {
            self.view.lemma_wf();
        }
        let ids = self.view.ordered_record_ids();
        let mut idx: usize = 0;
        while idx < ids.len()
            invariant
                ids@ == ids_of(self.entries()),
                0 <= idx <= ids@.len(),
                forall|i: int| 0 <= i < idx ==> ids@[i] != *id,
            decreases ids@.len() - idx,
        {
            if ids[idx] == *id {
                return Some(Position(idx));
            }
            idx = idx + 1;
        }
        None
    }

    /// Asks for the data of the window again after moving it to `range`.
    fn move_and_reload(&mut self, range: Range)
        requires
            range.size() == old(self).window().size(),
        ensures
            final(self).window() == range,
            final(self).entries() == old(self).entries(),
            final(self).pending() == old(self).pending().push(StoreViewMsg::Reload),
            final(self).backend() == old(self).backend(),
            final(self).page_size() == old(self).page_size(),
            final(self).max_page() == old(self).max_page(),
            final(self).shown() == old(self).shown(),
            old(self).wf() ==> final(self).wf(),
    {
        self.range = range;
        self.changes.push(StoreViewMsg::Reload);
    }

    /// Advances the store view to the next page of the underlying store, if it exists
    ///
    /// When the window already reaches the end of the store nothing changes.
    pub fn next_page(&mut self)
        requires
            old(self).window().hi() < old(self).backend().count() ==> old(self).window().hi()
                + old(self).window().size() <= usize::MAX,
        ensures
            old(self).window().hi() >= old(self).backend().count() ==> *final(self) == *old(self),
            old(self).window().hi() < old(self).backend().count() ==> {
                &&& final(self).window() == old(self).window().moved_right(old(self).window().size() as nat)
                &&& final(self).window().lo() == old(self).window().lo() + old(self).window().size()
                &&& final(self).window().size() == old(self).window().size()
                &&& final(self).entries() == old(self).entries()
                &&& final(self).pending() == old(self).pending().push(StoreViewMsg::Reload)
            },
            final(self).backend() == old(self).backend(),
            final(self).page_size() == old(self).page_size(),
            final(self).max_page() == old(self).max_page(),
            final(self).shown() == old(self).shown(),
            old(self).wf() ==> final(self).wf(),
    {
        if *self.range.end() >= self.store.len() {
            return;
        }
        let size = self.window_size();
        let range = self.range.to_right(size);
        self.move_and_reload(range);
    }

    /// Goes back to the previous page of the underlying store, if it exists; it stops at the
    /// first record
    ///
    /// When the window already starts at the first record nothing changes.
    pub fn prev_page(&mut self)
        ensures
            old(self).window().lo() == 0 ==> *final(self) == *old(self),
            old(self).window().lo() > 0 ==> {
                &&& final(self).window() == old(self).window().moved_left(old(self).window().size() as nat)
                &&& final(self).window().lo() == if old(self).window().size() <= old(self).window().lo() {
                    old(self).window().lo() - old(self).window().size()
                } else {
                    0
                }
                &&& final(self).window().size() == old(self).window().size()
                &&& final(self).entries() == old(self).entries()
                &&& final(self).pending() == old(self).pending().push(StoreViewMsg::Reload)
            },
            final(self).backend() == old(self).backend(),
            final(self).page_size() == old(self).page_size(),
            final(self).max_page() == old(self).max_page(),
            final(self).shown() == old(self).shown(),
            old(self).wf() ==> final(self).wf(),
    {
        if *self.range.start() == 0 {
            return;
        }
        let size = self.window_size();
        let range = self.range.to_left(size);
        self.move_and_reload(range);
    }

    /// Goes to the first page of data in the underlying store
    pub fn first_page(&mut self)
        ensures
            final(self).window() == old(self).window().moved_to(0),
            final(self).window().lo() == 0,
            final(self).window().size() == old(self).window().size(),
            final(self).entries() == old(self).entries(),
            final(self).pending() == old(self).pending().push(StoreViewMsg::Reload),
            final(self).backend() == old(self).backend(),
            final(self).page_size() == old(self).page_size(),
            final(self).max_page() == old(self).max_page(),
            final(self).shown() == old(self).shown(),
            old(self).wf() ==> final(self).wf(),
    {
        let range = self.range.slide(0);
        self.move_and_reload(range);
    }

    /// Goes to the last page of the data in the underlying store
    pub fn last_page(&mut self)
        requires
            page_count(old(self).backend().count() as nat, old(self).window().size() as nat)
                * old(self).window().size() <= usize::MAX,
        ensures
            ({
                let size = old(self).window().size() as nat;
                let pages = page_count(old(self).backend().count() as nat, size);
                let first = if pages > 0 { ((pages - 1) * size) as nat } else { 0 };
                &&& final(self).window() == old(self).window().moved_to(first)
                &&& final(self).window().lo() == first
                &&& final(self).window().hi() == first + size
            }),
            final(self).entries() == old(self).entries(),
            final(self).pending() == old(self).pending().push(StoreViewMsg::Reload),
            final(self).backend() == old(self).backend(),
            final(self).page_size() == old(self).page_size(),
            final(self).max_page() == old(self).max_page(),
            final(self).shown() == old(self).shown(),
            old(self).wf() ==> final(self).wf(),
    {
        let total_pages = self.total_pages();
        let size = self.window_size();
        let range = if total_pages > 0 {
            proof {
                assert((total_pages - 1) * size + size == total_pages * size) by (nonlinear_arith);
                assert((total_pages - 1) * size <= total_pages * size) by (nonlinear_arith);
            }
            let last_page_start = (total_pages - 1) * size;
            Range::new(last_page_start, last_page_start + size)
        } else {
            Range::new(0, size)
        };
        self.move_and_reload(range);
    }

    /// Handles the waiting messages and decides the widget work of the redraw
    ///
    /// Returns `None` when no message waits, or when the messages changed no record of the
    /// view and the view shows the records whose widgets are shown. Otherwise the plan goes
    /// from the widgets of the last redraw to the records of the view.
    pub fn redraw(&mut self) -> (plan: Option<RedrawPlan>)
        requires
            old(self).wf(),
        ensures
            final(self).wf(),
            final(self).backend() == old(self).backend(),
            final(self).page_size() == old(self).page_size(),
            final(self).max_page() == old(self).max_page(),
            old(self).pending().len() == 0 ==> plan is None && *final(self) == *old(self),
            old(self).pending().len() > 0 ==> ({
                let st = handled::<S, W>(
                    old(self).backend(),
                    old(self).page_size(),
                    (old(self).window(), old(self).entries(), Set::empty(), Set::empty(), Set::empty(), false),
                    old(self).pending(),
                );
                let updated = st.3.difference(st.4);
                let order = ids_of(st.1);
                &&& final(self).window() == st.0
                &&& final(self).entries() == st.1
                &&& final(self).pending() == Seq::<StoreViewMsg>::empty()
                &&& final(self).shown() == order
                &&& (plan is None <==> (st.2.is_empty() && updated.is_empty() && st.4.is_empty()
                    && order == old(self).shown()))
                &&& plan matches Some(p) ==> {
                    &&& p.records@.len() == st.1.len()
                    &&& forall|i: int| 0 <= i < st.1.len() ==> #[trigger] p.records@[i] == redraw_of(
                        old(self).shown(),
                        order,
                        updated,
                        st.4,
                        st.0.lo(),
                        i,
                    )
                    &&& p.dropped@.to_set() == old(self).shown().to_set().difference(order.to_set())
                }
            }),
    {
        if self.changes.len() == 0 {
            return None;
        }
        let changeset = self.compile_changes();
        proof {
            self.view.lemma_wf();
        }
        let same = same_ids(&self.shown, self.view.ordered_record_ids());
        if same && changeset.widgets_to_remove.is_empty() && changeset.ids_to_add.is_empty()
            && changeset.ids_to_update.is_empty() {
            return None;
        }
        let start = *self.range.start();
        let plan = plan_redraw(&self.shown, self.view.ordered_record_ids(), &changeset, start);
        self.shown = self.view.ordered_record_ids().clone();
        Some(plan)
    }

    /// A view never shows more records than its window size, nor more than the page size it
    /// was created with, nor a record twice.
    pub proof fn lemma_view_bounded(&self)
        requires
            self.wf(),
        ensures
            self.page_size() <= self.window().size(),
            self.page_size() <= self.max_page(),
            self.entries().len() <= self.window().size(),
            self.entries().len() <= self.page_size(),
            ids_of(self.entries()).no_duplicates(),
    {
        self.view.lemma_wf();
    }

    /// The position that [StoreViewImplementation::get_position] gives for the record at
    /// `i` in the view is `i`, the index at which [StoreViewImplementation::get_view_data]
    /// lists it.
    pub proof fn lemma_position_of_entry(&self, i: int)
        requires
            self.wf(),
            0 <= i < self.entries().len(),
        ensures
            forall|j: int| 0 <= j < self.entries().len() && ids_of(self.entries())[j] == ids_of(self.entries())[i]
                ==> j == i,
    {
        self.view.lemma_wf();
    }
}

} // verus!

verus! {

impl<S: DataStore, W: WindowBehavior> Pagination for StoreViewImplementation<S, W> {
    open spec fn paged_len(&self) -> nat {
        self.backend().count() as nat
    }

    open spec fn paged_size(&self) -> nat {
        self.window().size() as nat
    }

    open spec fn paged_start(&self) -> nat {
        self.window().lo()
    }

    /// Pages of window size needed for the records of the store
    fn total_pages(&self) -> (n: usize) {
        pages_for(self.len(), self.window_size())
    }

    /// Page whose records the window starts with, counted from 1
    fn current_page(&self) -> (n: usize) {
        let window_start = *self.range.start();
        let size = self.window_size();
        1 + pages_for(window_start, size)
    }
}

} // verus!
