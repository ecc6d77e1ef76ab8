//! Decisions of a store view redraw: which record widgets to create, refresh, move or drop.

use std::collections::HashSet;

use vstd::prelude::*;
use vstd::std_specs::iter::IteratorSpec;

use crate::math::min_nat;
use crate::position::Position;
use crate::record::RecordId;
use crate::window_changeset::WindowChangeset;

verus! {

broadcast use vstd::std_specs::hash::group_hash_axioms;

/// Messages used to notify interrelated components that redraw is needed
///
/// They might be interesting for you if you are implementing custom store-view
#[derive(Debug, Clone, Copy, PartialEq, Eq)]
pub enum RedrawMessages {
    /// Message sent to redraw parts of ui
    Redraw,
}

/// Widgets shown for one record: those the user defined and their root widget.
#[derive(Debug)]
pub struct Widgets<W, Root> {
    /// Widgets defined by the user
    pub widgets: W,
    /// Outermost widget, in most cases a gtk widget
    pub root: Root,
}

/// What to do with the widget of one record of the view.
#[derive(Debug, Clone, Copy, PartialEq, Eq)]
pub struct RecordRedraw {
    /// Identifier of the record
    pub id: RecordId,
    /// Position of the record in the store; the largest number stands for any position beyond it
    pub position: Position,
    /// Record whose widget precedes this one; `None` puts the widget first
    pub after: Option<RecordId>,
    /// A widget is created for the record
    pub create: bool,
    /// The widget of the record is refreshed
    pub refresh: bool,
    /// The widget of the record moves next to the widget of `after`
    pub reattach: bool,
}

/// Widget work of a redraw: one entry per record of the view, in view order, and the
/// identifiers whose widgets are dropped.
#[derive(Debug)]
pub struct RedrawPlan {
    /// Work for each record of the view
    pub records: Vec<RecordRedraw>,
    /// Records whose widgets leave the view
    pub dropped: Vec<RecordId>,
}

/// `s` without the identifiers of `out`, in the same order.
pub open spec fn without(s: Seq<RecordId>, out: Set<RecordId>) -> Seq<RecordId>
    decreases s.len(),
{
    if s.len() == 0 {
        Seq::empty()
    } else {
        let rest = without(s.drop_last(), out);
        if out.contains(s.last()) {
            rest
        } else {
            rest.push(s.last())
        }
    }
}

/// Removing identifiers from two sequences one after the other removes them from both.
proof fn lemma_without_concat(a: Seq<RecordId>, b: Seq<RecordId>, out: Set<RecordId>)
    ensures
        without(a + b, out) == without(a, out) + without(b, out),
    decreases b.len(),
{
    if b.len() == 0 {
        assert(a + b =~= a);
        assert(without(a, out) + without(b, out) =~= without(a, out));
    } else {
        assert((a + b).drop_last() =~= a + b.drop_last());
        assert((a + b).last() == b.last());
        lemma_without_concat(a, b.drop_last(), out);
        if !out.contains(b.last()) {
            assert(without(a, out) + without(b.drop_last(), out).push(b.last()) =~= (without(a, out)
                + without(b.drop_last(), out)).push(b.last()));
        }
    }
}

/// What is left of `s` is what `s` holds outside `out`.
proof fn lemma_without_contains(s: Seq<RecordId>, out: Set<RecordId>, x: RecordId)
    ensures
        without(s, out).contains(x) <==> s.contains(x) && !out.contains(x),
    decreases s.len(),
{
    if s.len() > 0 {
        lemma_without_contains(s.drop_last(), out, x);
        assert(s =~= s.drop_last().push(s.last()));
        assert(s.contains(x) <==> s.drop_last().contains(x) || s.last() == x) by {
            if s.contains(x) {
                let j = choose|j: int| 0 <= j < s.len() && s[j] == x;
                if j < s.len() - 1 {
                    assert(s.drop_last()[j] == x);
                }
            }
            if s.drop_last().contains(x) {
                let j = choose|j: int| 0 <= j < s.drop_last().len() && s.drop_last()[j] == x;
                assert(s[j] == x);
            }
        }
        let rest = without(s.drop_last(), out);
        assert(rest.push(s.last()).contains(x) <==> rest.contains(x) || s.last() == x) by {
            if rest.push(s.last()).contains(x) {
                let j = choose|j: int| 0 <= j < rest.len() + 1 && rest.push(s.last())[j] == x;
                if j < rest.len() {
                    assert(rest[j] == x);
                }
            }
            if rest.contains(x) {
                let j = choose|j: int| 0 <= j < rest.len() && rest[j] == x;
                assert(rest.push(s.last())[j] == x);
            }
            if s.last() == x {
                assert(rest.push(s.last())[rest.len() as int] == x);
            }
        }
    }
}

/// Nothing of `s` is removed when `s` has nothing of `out`.
proof fn lemma_without_none(s: Seq<RecordId>, out: Set<RecordId>)
    requires
        forall|x: RecordId| s.contains(x) ==> !out.contains(x),
    ensures
        without(s, out) == s,
    decreases s.len(),
{
    if s.len() > 0 {
        assert forall|x: RecordId| s.drop_last().contains(x) implies !out.contains(x) by {
            let j = choose|j: int| 0 <= j < s.drop_last().len() && s.drop_last()[j] == x;
            assert(s[j] == x);
        }
        lemma_without_none(s.drop_last(), out);
        assert(s.contains(s.last()));
        assert(s.drop_last().push(s.last()) =~= s);
    }
}

/// Everything of `s` is removed when all of it is in `out`.
proof fn lemma_without_all(s: Seq<RecordId>, out: Set<RecordId>)
    requires
        forall|x: RecordId| s.contains(x) ==> out.contains(x),
    ensures
        without(s, out) == Seq::<RecordId>::empty(),
    decreases s.len(),
{
    if s.len() > 0 {
        assert forall|x: RecordId| s.drop_last().contains(x) implies out.contains(x) by {
            let j = choose|j: int| 0 <= j < s.drop_last().len() && s.drop_last()[j] == x;
            assert(s[j] == x);
        }
        lemma_without_all(s.drop_last(), out);
        assert(s.contains(s.last()));
    }
}

/// Removing `a` and then `b` removes `a` and `b`.
proof fn lemma_without_twice(s: Seq<RecordId>, a: Set<RecordId>, b: Set<RecordId>)
    ensures
        without(without(s, a), b) == without(s, a + b),
    decreases s.len(),
{
    if s.len() > 0 {
        lemma_without_twice(s.drop_last(), a, b);
        let r = without(s.drop_last(), a);
        if !a.contains(s.last()) {
            assert(r.push(s.last()).drop_last() =~= r);
            assert(r.push(s.last()).last() == s.last());
        }
    }
}

/// What is left of a sequence of distinct identifiers has distinct identifiers.
proof fn lemma_without_distinct(s: Seq<RecordId>, out: Set<RecordId>)
    requires
        s.no_duplicates(),
    ensures
        without(s, out).no_duplicates(),
    decreases s.len(),
{
    if s.len() > 0 {
        assert(s.drop_last().no_duplicates());
        lemma_without_distinct(s.drop_last(), out);
        let r = without(s.drop_last(), out);
        if !out.contains(s.last()) {
            lemma_without_contains(s.drop_last(), out, s.last());
            if s.drop_last().contains(s.last()) {
                let j = choose|j: int| 0 <= j < s.drop_last().len() && s.drop_last()[j] == s.last();
                assert(s[j] == s[s.len() - 1]);
            }
            assert forall|i: int, j: int| 0 <= i < j < r.len() + 1 implies r.push(s.last())[i] != r.push(
                s.last(),
            )[j] by {
                if j == r.len() {
                    assert(r.contains(r[i]));
                }
            }
        }
    }
}

/// Records of `order` at and after `i` that already had a widget in `old_order`: those of
/// `old_order` that are not before `i` in `order`, in the order of their widgets.
pub open spec fn unplaced(old_order: Seq<RecordId>, order: Seq<RecordId>, i: int) -> Seq<RecordId> {
    without(old_order, order.take(i).to_set())
}

/// Widget work for the record at index `i` of the view `order`, whose widgets showed
/// `old_order` before, for the identifiers `updated` and `added` by the changes of a window
/// starting at `start`.
///
/// A widget is created for an added record, and for a record that had none; the widget of
/// an updated record is refreshed. A widget that stays is moved next to the record before it
/// when the record was updated and no longer stands at the same index, or when the widgets
/// before it would otherwise not end in view order.
pub open spec fn redraw_of(
    old_order: Seq<RecordId>,
    order: Seq<RecordId>,
    updated: Set<RecordId>,
    added: Set<RecordId>,
    start: nat,
    i: int,
) -> RecordRedraw {
    let id = order[i];
    let create = added.contains(id) || !old_order.contains(id);
    let refresh = updated.contains(id);
    let rest = unplaced(old_order, order, i);
    let out_of_place = rest.len() == 0 || rest[0] != id;
    RecordRedraw {
        id,
        position: Position(min_nat(start + i as nat, usize::MAX as nat) as usize),
        after: if i == 0 {
            None
        } else {
            Some(order[i - 1])
        },
        create,
        refresh,
        reattach: !create && ((refresh && i < old_order.len() && old_order[i] != id) || out_of_place),
    }
}

/// The identifiers of `ids`, as a set.
fn id_set(ids: &Vec<RecordId>) -> (set: HashSet<RecordId>)
    ensures
        set@ == ids@.to_set(),
{
    let mut set: HashSet<RecordId> = HashSet::new();
    let mut i: usize = 0;
    while i < ids.len()
        invariant
            0 <= i <= ids@.len(),
            set@ =~= ids@.take(i as int).to_set(),
        decreases ids@.len() - i,
    {
        set.insert(ids[i]);
        proof {
            assert(ids@.take(i + 1) =~= ids@.take(i as int).push(ids@[i as int]));
            ids@.take(i as int).lemma_push_to_set_commute(ids@[i as int]);
        }
        i = i + 1;
    }
    assert(ids@.take(ids@.len() as int) =~= ids@);
    set
}

/// Decides the widget work of a redraw
///
/// - **old_order** records whose widgets are shown, in order
/// - **order** view order after the changes
/// - **changeset** how the view changed
/// - **start** position in the store of the first record of the view
///
/// The widgets of records that left the view are dropped; no record of the view loses its
/// widget.
pub fn plan_redraw(
    old_order: &Vec<RecordId>,
    order: &Vec<RecordId>,
    changeset: &WindowChangeset,
    start: usize,
) -> (plan: RedrawPlan)
    requires
        old_order@.no_duplicates(),
    ensures
        plan.records@.len() == order@.len(),
        forall|i: int| 0 <= i < order@.len() ==> #[trigger] plan.records@[i] == redraw_of(
            old_order@,
            order@,
            changeset.updated(),
            changeset.added(),
            start as nat,
            i,
        ),
        plan.dropped@.to_set() == old_order@.to_set().difference(order@.to_set()),
        plan.dropped@.no_duplicates(),
{
    let old_set = id_set(old_order);
    let new_set = id_set(order);
    let mut placed: HashSet<RecordId> = HashSet::new();
    let mut r: usize = 0;
    let mut records: Vec<RecordRedraw> = Vec::new();
    let mut i: usize = 0;
    while i < order.len()
        invariant
            0 <= i <= order@.len(),
            old_order@.no_duplicates(),
            old_set@ == old_order@.to_set(),
            placed@ == order@.take(i as int).to_set(),
            0 <= r <= old_order@.len(),
            forall|j: int| 0 <= j < r ==> placed@.contains(#[trigger] old_order@[j]),
            r == old_order@.len() || !placed@.contains(old_order@[r as int]),
            records@.len() == i,
            forall|j: int| 0 <= j < i ==> #[trigger] records@[j] == redraw_of(
                old_order@,
                order@,
                changeset.updated(),
                changeset.added(),
                start as nat,
                j,
            ),
        decreases order@.len() - i,
    {
        let id = order[i];
        let after = if i == 0 {
            None
        } else {
            Some(order[i - 1])
        };
        let had = old_set.contains(&id);
        let create = changeset.ids_to_add.contains(&id) || !had;
        let refresh = changeset.ids_to_update.contains(&id);
        let in_place = r < old_order.len() && old_order[r] == id;
        let reattach = !create && ((refresh && i < old_order.len() && old_order[i] != id) || !in_place);
        let position = if i <= usize::MAX - start {
            start + i
        } else {
            usize::MAX
        };
        proof {
            assert(old_order@.to_set().contains(id) <==> old_order@.contains(id));
            let set = order@.take(i as int).to_set();
            let rest = unplaced(old_order@, order@, i as int);
            assert(old_order@ =~= old_order@.take(r as int) + old_order@.skip(r as int));
            lemma_without_concat(old_order@.take(r as int), old_order@.skip(r as int), set);
            assert forall|x: RecordId| old_order@.take(r as int).contains(x) implies set.contains(x) by {
                let j = choose|j: int| 0 <= j < r && old_order@.take(r as int)[j] == x;
                assert(old_order@[j] == x);
            }
            lemma_without_all(old_order@.take(r as int), set);
            assert(rest =~= without(old_order@.skip(r as int), set));
            if r < old_order.len() {
                let tail = old_order@.skip(r as int);
                assert(tail =~= seq![old_order@[r as int]] + tail.skip(1));
                lemma_without_concat(seq![old_order@[r as int]], tail.skip(1), set);
                assert(without(seq![old_order@[r as int]], set) =~= seq![old_order@[r as int]]) by {
                    let one = seq![old_order@[r as int]];
                    assert(one.drop_last() =~= Seq::<RecordId>::empty());
                    assert(without(one.drop_last(), set) == Seq::<RecordId>::empty());
                    assert(one.last() == old_order@[r as int]);
                    assert(!set.contains(one.last()));
                    assert(Seq::<RecordId>::empty().push(one.last()) =~= one);
                }
                assert(rest.len() > 0 && rest[0] == old_order@[r as int]);
            } else {
                assert(rest =~= Seq::<RecordId>::empty());
            }
        }
        records.push(RecordRedraw { id, position: Position(position), after, create, refresh, reattach });
        placed.insert(id);
        proof {
            assert(order@.take(i + 1) =~= order@.take(i as int).push(id));
            order@.take(i as int).lemma_push_to_set_commute(id);
        }
        while r < old_order.len() && placed.contains(&old_order[r])
            invariant
                0 <= r <= old_order@.len(),
                forall|j: int| 0 <= j < r ==> placed@.contains(#[trigger] old_order@[j]),
            decreases old_order@.len() - r,
        {
            r = r + 1;
        }
        i = i + 1;
    }
    let mut dropped: Vec<RecordId> = Vec::new();
    let mut k: usize = 0;
    while k < old_order.len()
        invariant
            0 <= k <= old_order@.len(),
            old_order@.no_duplicates(),
            new_set@ == order@.to_set(),
            dropped@.to_set() =~= old_order@.take(k as int).to_set().difference(order@.to_set()),
            dropped@.no_duplicates(),
        decreases old_order@.len() - k,
    {
        let id = old_order[k];
        proof {
            assert(old_order@.take(k + 1) =~= old_order@.take(k as int).push(id));
            old_order@.take(k as int).lemma_push_to_set_commute(id);
            if dropped@.contains(id) {
                assert(dropped@.to_set().contains(id));
                assert(old_order@.take(k as int).contains(id));
                let m = choose|m: int| 0 <= m < k && old_order@.take(k as int)[m] == id;
                assert(old_order@[m] == old_order@[k as int]);
            }
        }
        if !new_set.contains(&id) {
            proof {
                dropped@.lemma_push_to_set_commute(id);
            }
            dropped.push(id);
        }
        k = k + 1;
    }
    assert(old_order@.take(old_order@.len() as int) =~= old_order@);
    RedrawPlan { records, dropped }
}

/// Widgets, in container order, after the widget of `id` is attached just after the widget
/// of `after`, or first when `after` is `None`; a widget the record had before leaves first.
pub open spec fn attach(c: Seq<RecordId>, id: RecordId, after: Option<RecordId>) -> Seq<RecordId> {
    let c1 = without(c, set![id]);
    match after {
        None => seq![id] + c1,
        Some(a) => {
            let k = choose|k: int| 0 <= k < c1.len() && c1[k] == a;
            c1.take(k + 1) + seq![id] + c1.skip(k + 1)
        },
    }
}

/// Widgets, in container order, after the work of `records`, in order, on the widgets `c`.
pub open spec fn replay(c: Seq<RecordId>, records: Seq<RecordRedraw>) -> Seq<RecordId>
    decreases records.len(),
{
    if records.len() == 0 {
        c
    } else {
        let before = replay(c, records.drop_last());
        let r = records.last();
        if r.create || r.reattach {
            attach(before, r.id, r.after)
        } else {
            before
        }
    }
}

/// The work of the plan for the records of `order`.
pub open spec fn plan_records(
    old_order: Seq<RecordId>,
    order: Seq<RecordId>,
    updated: Set<RecordId>,
    added: Set<RecordId>,
    start: nat,
) -> Seq<RecordRedraw> {
    Seq::new(order.len(), |i: int| redraw_of(old_order, order, updated, added, start, i))
}

/// After the work of the first `i` records, the widgets are those records, in view order,
/// followed by the other widgets in their former order.
proof fn lemma_replay_prefix(
    old_order: Seq<RecordId>,
    order: Seq<RecordId>,
    updated: Set<RecordId>,
    added: Set<RecordId>,
    start: nat,
    i: int,
)
    requires
        old_order.no_duplicates(),
        order.no_duplicates(),
        0 <= i <= order.len(),
    ensures
        replay(old_order, plan_records(old_order, order, updated, added, start).take(i)) == order.take(i)
            + unplaced(old_order, order, i),
    decreases i,
{
    let records = plan_records(old_order, order, updated, added, start);
    if i == 0 {
        assert(records.take(0) =~= Seq::<RecordRedraw>::empty());
        assert(order.take(0).to_set() =~= Set::<RecordId>::empty());
        lemma_without_none(old_order, order.take(0).to_set());
        assert(order.take(0) + old_order =~= old_order);
    } else {
        let k = i - 1;
        lemma_replay_prefix(old_order, order, updated, added, start, k);
        assert(records.take(i).drop_last() =~= records.take(k));
        assert(records.take(i).last() == records[k]);
        let id = order[k];
        let prefix = order.take(k);
        let set = prefix.to_set();
        let r = unplaced(old_order, order, k);
        let c = prefix + r;
        let next = unplaced(old_order, order, i);
        assert(!prefix.contains(id)) by {
            if prefix.contains(id) {
                let j = choose|j: int| 0 <= j < k && prefix[j] == id;
                assert(order[j] == order[k]);
            }
        }
        assert(order.take(i) =~= prefix.push(id));
        prefix.lemma_push_to_set_commute(id);
        assert(set + set![id] =~= order.take(i).to_set());
        lemma_without_twice(old_order, set, set![id]);
        assert(next == without(r, set![id]));
        lemma_without_distinct(old_order, set);
        lemma_without_distinct(old_order, order.take(i).to_set());
        assert forall|x: RecordId| prefix.contains(x) implies !set![id].contains(x) by {}
        lemma_without_none(prefix, set![id]);
        lemma_without_concat(prefix, r, set![id]);
        let c1 = without(c, set![id]);
        assert(c1 == prefix + next);
        let work = records[k];
        if work.create || work.reattach {
            if k == 0 {
                assert(prefix =~= Seq::<RecordId>::empty());
                assert(seq![id] + c1 =~= order.take(i) + next);
            } else {
                let a = order[k - 1];
                assert(c1[k - 1] == a);
                assert(c1.no_duplicates()) by {
                    assert forall|p: int, q: int| 0 <= p < q < c1.len() implies c1[p] != c1[q] by {
                        if p < k && q >= k {
                            lemma_without_contains(old_order, order.take(i).to_set(), c1[q]);
                            assert(next.contains(c1[q]) ) by {
                                assert(next[q - k] == c1[q]);
                            }
                            assert(order.take(i).to_set().contains(c1[p])) by {
                                assert(order.take(i)[p] == c1[p]);
                            }
                        } else if p < k {
                            assert(prefix[p] == order[p] && prefix[q] == order[q]);
                        } else {
                            assert(next[p - k] == c1[p] && next[q - k] == c1[q]);
                        }
                    }
                }
                let kk = choose|kk: int| 0 <= kk < c1.len() && c1[kk] == a;
                assert(kk == k - 1);
                assert(c1.take(k) + seq![id] + c1.skip(k) =~= order.take(i) + next);
            }
        } else {
            assert(r.len() > 0 && r[0] == id);
            assert(r =~= seq![id] + r.skip(1));
            lemma_without_concat(seq![id], r.skip(1), set![id]);
            assert(without(seq![id], set![id]) =~= Seq::<RecordId>::empty()) by {
                assert(seq![id].drop_last() =~= Seq::<RecordId>::empty());
                assert(without(seq![id].drop_last(), set![id]) == Seq::<RecordId>::empty());
                assert(seq![id].last() == id);
            }
            assert forall|x: RecordId| r.skip(1).contains(x) implies !set![id].contains(x) by {
                let j = choose|j: int| 0 <= j < r.skip(1).len() && r.skip(1)[j] == x;
                assert(r[j + 1] == x);
                if x == id {
                    assert(r[0] == r[j + 1]);
                }
            }
            lemma_without_none(r.skip(1), set![id]);
            assert(next =~= r.skip(1));
            assert(c =~= order.take(i) + next);
        }
    }
}

/// After the widget work of a plan, done record by record in view order and followed by the
/// removal of the dropped widgets, the container holds one widget per record of the view, in
/// view order, when it held the widgets of `old_order` in that order before.
pub proof fn lemma_plan_orders_widgets(
    old_order: Seq<RecordId>,
    order: Seq<RecordId>,
    updated: Set<RecordId>,
    added: Set<RecordId>,
    start: nat,
)
    requires
        old_order.no_duplicates(),
        order.no_duplicates(),
    ensures
        without(
            replay(old_order, plan_records(old_order, order, updated, added, start)),
            old_order.to_set().difference(order.to_set()),
        ) == order,
{
    let records = plan_records(old_order, order, updated, added, start);
    let n = order.len() as int;
    lemma_replay_prefix(old_order, order, updated, added, start, n);
    assert(records.take(n) =~= records);
    assert(order.take(n) =~= order);
    let u = unplaced(old_order, order, n);
    let dropped = old_order.to_set().difference(order.to_set());
    lemma_without_concat(order, u, dropped);
    assert forall|x: RecordId| order.contains(x) implies !dropped.contains(x) by {}
    lemma_without_none(order, dropped);
    assert forall|x: RecordId| u.contains(x) implies dropped.contains(x) by {
        lemma_without_contains(old_order, order.to_set(), x);
    }
    lemma_without_all(u, dropped);
    assert(order + Seq::<RecordId>::empty() =~= order);
}

} // verus!

verus! {

/// The widget of every updated record of the view is refreshed with its new data, wherever
/// the record stands, and no other widget is refreshed.
pub proof fn lemma_updated_refreshed(
    old_order: Seq<RecordId>,
    order: Seq<RecordId>,
    updated: Set<RecordId>,
    added: Set<RecordId>,
    start: nat,
    i: int,
)
    requires
        0 <= i < order.len(),
    ensures
        redraw_of(old_order, order, updated, added, start, i).refresh == updated.contains(order[i]),
        redraw_of(old_order, order, updated, added, start, i).id == order[i],
{
}

} // verus!
