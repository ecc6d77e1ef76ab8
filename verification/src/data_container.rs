//! Data container of a store view.
//!
//! In the store view the order of the records and the copies of the records held in the view
//! are tightly related: a record added to the view is added to the order, a record removed
//! from the view leaves the order.

use std::collections::HashMap;
use std::collections::HashSet;

use vstd::prelude::*;
use vstd::std_specs::iter::IteratorSpec;

use crate::math::min_nat;
use crate::record::ids_of;
use crate::record::Record;
use crate::record::RecordId;
use crate::window_changeset::WindowChangeset;

verus! {

/// Number of records that fit: `n` but at most `cap`.
pub open spec fn fit(n: nat, cap: nat) -> nat {
    min_nat(n, cap)
}

/// Number of records that an insertion to the right of `position` takes from `n` offered.
pub open spec fn right_count(cap: nat, position: nat, n: nat) -> nat {
    fit(n, (cap - position) as nat)
}

/// Number of records of a container of `len` records kept (before or after the inserted
/// ones) by an insertion to the right of `position`.
pub open spec fn right_kept(len: nat, cap: nat, position: nat, n: nat) -> nat {
    (fit(len + right_count(cap, position, n), cap) - right_count(cap, position, n)) as nat
}

broadcast use vstd::std_specs::hash::group_hash_axioms;

/// Records of a container after an operation, and the identifiers whose widgets leave the
/// view, are refreshed and are created by it.
pub type Outcome<R> = (Seq<R>, Set<RecordId>, Set<RecordId>, Set<RecordId>);

/// `after` holds the records of `outcome` and `cs_after` adds its identifiers to `cs_before`.
pub open spec fn changed<R: Record>(
    before: DataContainer<R>,
    after: DataContainer<R>,
    cs_before: WindowChangeset,
    cs_after: WindowChangeset,
    outcome: Outcome<R>,
) -> bool {
    &&& after.entries() == outcome.0
    &&& cs_after.removed() == cs_before.removed() + outcome.1
    &&& cs_after.updated() == cs_before.updated() + outcome.2
    &&& cs_after.added() == cs_before.added() + outcome.3
}

/// The records are distinct records none of which is in `taken`.
pub open spec fn fresh<R: Record>(rs: Seq<R>, taken: Seq<RecordId>) -> bool {
    &&& ids_of(rs).no_duplicates()
    &&& ids_of(rs).to_set().disjoint(taken.to_set())
}

/// A container of capacity `cap` can be reloaded with `rs`.
pub open spec fn reload_allowed<R: Record>(cap: nat, rs: Seq<R>) -> bool {
    fresh(rs.take(fit(rs.len(), cap) as int), Seq::<RecordId>::empty())
}

/// Reloading records `e` with `rs`: the first records of `rs` that fit replace them.
pub open spec fn reload_outcome<R: Record>(e: Seq<R>, cap: nat, rs: Seq<R>) -> Outcome<R> {
    let kept = rs.take(fit(rs.len(), cap) as int);
    let new_ids = ids_of(kept).to_set();
    let old_ids = ids_of(e).to_set();
    (kept, old_ids.difference(new_ids), new_ids.intersect(old_ids), new_ids.difference(old_ids))
}

/// Records `e` of a container of capacity `cap` accept `rs` inserted right of `position`.
pub open spec fn insert_right_allowed<R: Record>(e: Seq<R>, cap: nat, position: nat, rs: Seq<R>) -> bool {
    &&& position <= cap
    &&& fresh(
        rs.take(right_count(cap, position, rs.len()) as int),
        ids_of(e).take(right_kept(e.len(), cap, position, rs.len()) as int),
    )
}

/// Inserting `rs` right of `position` into records `e`: the records that fit go in at
/// `position`, those pushed past the capacity leave.
pub open spec fn insert_right_outcome<R: Record>(e: Seq<R>, cap: nat, position: nat, rs: Seq<R>) -> Outcome<R> {
    let k = right_count(cap, position, rs.len());
    let keep = right_kept(e.len(), cap, position, rs.len());
    let p = min_nat(position, e.len());
    (
        e.take(p as int) + rs.take(k as int) + e.subrange(p as int, keep as int),
        ids_of(e.subrange(keep as int, e.len() as int)).to_set(),
        ids_of(e.subrange(p as int, keep as int)).to_set(),
        ids_of(rs.take(k as int)).to_set(),
    )
}

/// Number of records that an insertion to the left of `position` takes from `n` offered.
pub open spec fn left_count(position: nat, n: nat) -> nat {
    min_nat(n, position)
}

/// Records `e` of a container of capacity `cap` accept `rs` inserted left of `position`.
pub open spec fn insert_left_allowed<R: Record>(e: Seq<R>, cap: nat, position: nat, rs: Seq<R>) -> bool {
    let k = left_count(position, rs.len());
    &&& position <= e.len() || e.len() == 0 || rs.len() == 0 || position <= rs.len()
    &&& position > e.len() ==> k <= cap
    &&& fresh(rs.skip(rs.len() - k), ids_of(e).skip(min_nat(k, e.len()) as int))
}

/// Inserting `rs` left of `position` into records `e`: the last records of `rs` that fit end
/// just before `position`, as many records leave at the beginning.
pub open spec fn insert_left_outcome<R: Record>(e: Seq<R>, cap: nat, position: nat, rs: Seq<R>) -> Outcome<R> {
    let k = left_count(position, rs.len());
    let x = min_nat(k, e.len());
    let y = min_nat(position, e.len());
    let added = rs.skip(rs.len() - k);
    (
        e.subrange(x as int, y as int) + added + e.subrange(y as int, e.len() as int),
        ids_of(e.take(x as int)).to_set(),
        if k > 0 {
            ids_of(e.subrange(x as int, y as int)).to_set()
        } else {
            Set::<RecordId>::empty()
        },
        ids_of(added).to_set(),
    )
}

/// The order and data assembled by a splice form a well formed container whose records are
/// the kept old ones around the new ones.
proof fn lemma_splice_result<R: Record>(
    o: Seq<RecordId>,
    old_data: Map<RecordId, R>,
    e: Seq<R>,
    rs: Seq<R>,
    ni: Seq<RecordId>,
    n: Seq<RecordId>,
    data: Map<RecordId, R>,
    x: int,
    y: int,
    z: int,
)
    requires
        0 <= x <= y <= z <= o.len(),
        o.no_duplicates(),
        e.len() == o.len(),
        forall|j: int| 0 <= j < o.len() ==> old_data.contains_key(#[trigger] o[j]) && old_data[o[j]].id_of() == o[j]
            && e[j] == old_data[o[j]],
        ni == ids_of(rs),
        ni.no_duplicates(),
        n == o.subrange(x, y) + ni + o.subrange(y, z),
        forall|id: RecordId| #[trigger] data.contains_key(id) <==> (ni.contains(id) || (exists|j: int|
            x <= j < z && o[j] == id)),
        forall|i: int| 0 <= i < rs.len() ==> data[#[trigger] ni[i]] == rs[i],
        forall|j: int| x <= j < z ==> !ni.contains(#[trigger] o[j]) && data[o[j]] == old_data[o[j]],
    ensures
        n.no_duplicates(),
        forall|id: RecordId| #[trigger] data.contains_key(id) <==> n.contains(id),
        forall|id: RecordId| #[trigger] data.contains_key(id) ==> data[id].id_of() == id,
        n.map_values(|id: RecordId| data[id]) =~= e.subrange(x, y) + rs + e.subrange(y, z),
{
    let k = ni.len() as int;
    let a = y - x;
    assert(rs.len() == k);
    assert forall|i: int| 0 <= i < n.len() implies #[trigger] n[i] == if i < a {
        o[x + i]
    } else if i < a + k {
        ni[i - a]
    } else {
        o[x + i - k]
    } by {}
    assert forall|i: int, j: int| 0 <= i < j < n.len() implies n[i] != n[j] by {
        if i < a || i >= a + k {
            if j < a || j >= a + k {
                let oi = if i < a { x + i } else { x + i - k };
                let oj = if j < a { x + j } else { x + j - k };
                assert(oi != oj);
            } else {
                assert(ni.contains(n[j]));
            }
        } else if a <= j < a + k {
        } else {
            assert(ni.contains(n[i]));
        }
    }
    assert forall|id: RecordId| #[trigger] data.contains_key(id) <==> n.contains(id) by {
        if ni.contains(id) {
            let m = choose|m: int| 0 <= m < ni.len() && ni[m] == id;
            assert(n[a + m] == id);
        }
        if exists|j: int| x <= j < z && o[j] == id {
            let j = choose|j: int| x <= j < z && o[j] == id;
            if j < y {
                assert(n[j - x] == id);
            } else {
                assert(n[j - x + k] == id);
            }
        }
        if n.contains(id) {
            let m = choose|m: int| 0 <= m < n.len() && n[m] == id;
            if a <= m < a + k {
                assert(ni[m - a] == id);
            } else {
                let j = if m < a { x + m } else { x + m - k };
                assert(x <= j < z && o[j] == id);
            }
        }
    }
    assert forall|id: RecordId| #[trigger] data.contains_key(id) implies data[id].id_of() == id by {
        if ni.contains(id) {
            let m = choose|m: int| 0 <= m < ni.len() && ni[m] == id;
            assert(data[ni[m]] == rs[m]);
        } else {
            let j = choose|j: int| x <= j < z && o[j] == id;
            assert(data[o[j]] == old_data[o[j]]);
        }
    }
    let got = n.map_values(|id: RecordId| data[id]);
    assert forall|i: int| 0 <= i < n.len() implies #[trigger] got[i]
        == (e.subrange(x, y) + rs + e.subrange(y, z))[i] by {
        if a <= i < a + k {
            assert(data[ni[i - a]] == rs[i - a]);
        } else {
            let j = if i < a { x + i } else { x + i - k };
            assert(n[i] == o[j]);
        }
    }
}

/// Whether the records at `from..to` have distinct identifiers, none of which is in `taken`.
fn fresh_ids<R: Record>(records: &Vec<R>, from: usize, to: usize, taken: &HashSet<RecordId>) -> (ok: bool)
    requires
        from <= to <= records@.len(),
    ensures
        ok == (ids_of(records@.subrange(from as int, to as int)).no_duplicates() && ids_of(
            records@.subrange(from as int, to as int),
        ).to_set().disjoint(taken@)),
{
    let ghost ids = ids_of(records@.subrange(from as int, to as int));
    let mut seen: HashSet<RecordId> = HashSet::new();
    let mut i = from;
    while i < to
        invariant
            from <= i <= to <= records@.len(),
            ids == ids_of(records@.subrange(from as int, to as int)),
            seen@ =~= ids.take(i - from).to_set(),
            ids.take(i - from).no_duplicates(),
            ids.take(i - from).to_set().disjoint(taken@),
        decreases to - i,
    {
        let id = records[i].get_id();
        assert(id == ids[i - from]);
        if taken.contains(&id) {
            proof {
                assert(ids.to_set().contains(id));
            }
            return false;
        }
        if seen.contains(&id) {
            proof {
                let before = ids.take(i - from);
                assert(before.to_set().contains(id));
                let j = choose|j: int| 0 <= j < before.len() && before[j] == id;
                assert(ids[j] == ids[i - from]);
            }
            return false;
        }
        seen.insert(id);
        proof {
            assert(ids.take(i + 1 - from) =~= ids.take(i - from).push(id));
            ids.take(i - from).lemma_push_to_set_commute(id);
        }
        i = i + 1;
    }
    assert(ids.take(to - from) =~= ids);
    true
}

/// Appends `src[from..to]` to `dst`.
fn copy_ids(dst: &mut Vec<RecordId>, src: &Vec<RecordId>, from: usize, to: usize)
    requires
        from <= to <= src@.len(),
    ensures
        final(dst)@ == old(dst)@ + src@.subrange(from as int, to as int),
{
    let mut i = from;
    while i < to
        invariant
            from <= i <= to <= src@.len(),
            dst@ =~= old(dst)@ + src@.subrange(from as int, i as int),
        decreases to - i,
    {
        dst.push(src[i]);
        i = i + 1;
    }
}

/// Data container for the store view implementation
///
/// Guarantees, at the end of every method:
///
/// 1. `data` and `order` hold the same identifiers, each once
/// 2. every record in `data` is stored under its own identifier
/// 3. the container never holds more than `max_size` records
#[derive(Debug)]
pub struct DataContainer<R: Record> {
    /// Keeps copy of records in the view
    data: HashMap<RecordId, R>,
    /// Keeps ordered vector of record identifiers
    order: Vec<RecordId>,
    /// Maximum number of elements in the data container
    max_size: usize,
}

impl<R: Record> DataContainer<R> {
    /// Records of the container, in view order.
    pub closed spec fn entries(&self) -> Seq<R> {
        self.order@.map_values(|id: RecordId| self.data@[id])
    }

    /// Maximum number of records the container holds.
    pub closed spec fn capacity(&self) -> nat {
        self.max_size as nat
    }

    /// Identifiers of the records of the container, in view order.
    pub open spec fn ids(&self) -> Seq<RecordId> {
        ids_of(self.entries())
    }

    /// The guarantees of the container hold.
    pub closed spec fn wf(&self) -> bool {
        &&& self.order@.no_duplicates()
        &&& forall|id: RecordId| #[trigger]
            self.data@.contains_key(id) <==> self.order@.contains(id)
        &&& forall|id: RecordId| #[trigger]
            self.data@.contains_key(id) ==> self.data@[id].id_of() == id
        &&& self.order@.len() <= self.max_size
    }

    proof fn lemma_ids_are_order(&self)
        requires
            self.wf(),
        ensures
            self.ids() =~= self.order@,
            self.entries().len() == self.order@.len(),
    {
        assert forall|i: int| 0 <= i < self.order@.len() implies #[trigger] self.ids()[i]
            == self.order@[i] by {
            assert(self.order@.contains(self.order@[i]));
            assert(self.data@.contains_key(self.order@[i]));
            assert(self.entries()[i] == self.data@[self.order@[i]]);
            assert(self.ids()[i] == self.entries()[i].id_of());
        }
    }

    /// A well formed container holds each identifier once and no more records than its
    /// capacity.
    pub proof fn lemma_wf(&self)
        requires
            self.wf(),
        ensures
            self.ids().no_duplicates(),
            self.entries().len() <= self.capacity(),
            self.ids().len() == self.entries().len(),
    {
        self.lemma_ids_are_order();
    }

    /// Creates an empty container for at most `max_size` records.
    pub fn new(max_size: usize) -> (dc: Self)
        ensures
            dc.wf(),
            dc.entries() == Seq::<R>::empty(),
            dc.capacity() == max_size,
    {
        let dc = DataContainer { data: HashMap::new(), order: Vec::new(), max_size };
        assert(dc.entries() =~= Seq::<R>::empty());
        dc
    }

    /// Checks the guarantees of the container at run time.
    pub fn invariants(&self) -> (ok: bool)
        ensures
            ok == self.wf(),
    {
        let n = self.order.len();
        let mut i: usize = 0;
        while i < n
            invariant
                n == self.order@.len(),
                0 <= i <= n,
                forall|j: int| 0 <= j < i ==> #[trigger] self.data@.contains_key(self.order@[j]),
                forall|j: int| 0 <= j < i ==> self.data@[#[trigger] self.order@[j]].id_of()
                    == self.order@[j],
                forall|j: int, l: int| 0 <= j < l < i ==> self.order@[j] != self.order@[l],
            decreases n - i,
        {
            let id = self.order[i];
            match self.data.get(&id) {
                Some(r) => {
                    if r.get_id() != id {
                        proof {
                            assert(self.order@.contains(id));
                        }
                        return false;
                    }
                },
                None => {
                    proof {
                        assert(self.order@.contains(id));
                    }
                    return false;
                },
            }
            let mut j: usize = 0;
            while j < i
                invariant
                    n == self.order@.len(),
                    0 <= j <= i < n,
                    id == self.order@[i as int],
                    forall|l: int| 0 <= l < j ==> self.order@[l] != id,
                decreases i - j,
            {
                if self.order[j] == id {
                    return false;
                }
                j = j + 1;
            }
            i = i + 1;
        }
        assert(self.order@.no_duplicates());
        if self.data.len() != n || n > self.max_size {
            proof {
                if self.wf() {
                    self.order@.unique_seq_to_set();
                    assert(self.data@.dom() =~= self.order@.to_set());
                }
            }
            return false;
        }
        proof {
            self.order@.unique_seq_to_set();
            assert(self.order@.to_set().subset_of(self.data@.dom()));
            vstd::set_lib::lemma_subset_equality(self.order@.to_set(), self.data@.dom());
            assert forall|id: RecordId| #[trigger]
                self.data@.contains_key(id) implies self.order@.contains(id) by {
                assert(self.order@.to_set().contains(id));
            }
            assert forall|id: RecordId| #[trigger]
                self.data@.contains_key(id) implies self.data@[id].id_of() == id by {
                assert(self.order@.contains(id));
                let j = choose|j: int| 0 <= j < self.order@.len() && self.order@[j] == id;
                assert(self.data@[self.order@[j]].id_of() == self.order@[j]);
            }
        }
        true
    }

    /// Number of records in the container.
    pub fn len(&self) -> (n: usize)
        requires
            self.wf(),
        ensures
            n == self.entries().len(),
    {
        self.order.len()
    }

    /// Removes all records.
    pub fn clear(&mut self)
        requires
            old(self).wf(),
        ensures
            final(self).wf(),
            final(self).entries() == Seq::<R>::empty(),
            final(self).capacity() == old(self).capacity(),
    {
        self.data.clear();
        self.order.clear();
        assert(self.entries() =~= Seq::<R>::empty());
    }

    /// Sets the capacity to `max_size`; the records beyond it leave the container.
    pub fn set_capacity(&mut self, max_size: usize)
        requires
            old(self).wf(),
        ensures
            final(self).wf(),
            final(self).capacity() == max_size,
            final(self).entries() == old(self).entries().take(
                min_nat(old(self).entries().len(), max_size as nat) as int,
            ),
    {
        proof {
            self.lemma_ids_are_order();
        }
        let ghost e = self.entries();
        let ghost o = self.order@;
        let ghost old_data = self.data@;
        let len = self.order.len();
        let keep = if max_size < len { max_size } else { len };
        let mut dropped = WindowChangeset::default();
        self.drop_data(&mut dropped, keep, len);
        self.order.truncate(keep);
        self.max_size = max_size;
        proof {
            assert(self.order@ =~= o.take(keep as int));
            assert forall|j: int| 0 <= j < keep implies !o.subrange(keep as int, len as int).contains(
                #[trigger] o[j],
            ) by {
                if o.subrange(keep as int, len as int).contains(o[j]) {
                    let m = choose|m: int| 0 <= m < len - keep && o.subrange(keep as int, len as int)[m] == o[j];
                    assert(o[keep + m] == o[j]);
                }
                assert(o.contains(o[j]));
            }
            assert forall|id: RecordId| #[trigger] self.data@.contains_key(id) <==> self.order@.contains(id) by {
                if self.order@.contains(id) {
                    let j = choose|j: int| 0 <= j < keep && self.order@[j] == id;
                    assert(o[j] == id);
                    assert(o.contains(id));
                }
                if self.data@.contains_key(id) {
                    assert(o.contains(id));
                    let j = choose|j: int| 0 <= j < len && o[j] == id;
                    if j >= keep {
                        assert(o.subrange(keep as int, len as int)[j - keep] == id);
                    }
                    assert(self.order@[j] == id);
                }
            }
            assert forall|id: RecordId| #[trigger] self.data@.contains_key(id) implies self.data@[id].id_of() == id by {
                assert(old_data.contains_key(id));
            }
            assert forall|j: int| 0 <= j < keep implies #[trigger] self.entries()[j] == e[j] by {
                assert(o.contains(o[j]));
                assert(old_data.contains_key(o[j]));
                assert(self.data@.contains_key(o[j]));
                assert(self.order@[j] == o[j]);
                assert(self.data@[o[j]] == old_data[o[j]]);
            }
            assert(self.entries() =~= e.take(keep as int));
        }
    }

    /// Identifier of the record at index `idx` of the view order.
    pub fn get_order_idx(&self, idx: usize) -> (id: &RecordId)
        requires
            self.wf(),
            idx < self.entries().len(),
        ensures
            *id == self.ids()[idx as int],
    {
        proof {
            self.lemma_ids_are_order();
        }
        &self.order[idx]
    }

    /// The record with identifier `id`, if the container holds one.
    pub fn get_record(&self, id: &RecordId) -> (r: Option<&R>)
        requires
            self.wf(),
        ensures
            self.ids().contains(*id) <==> r is Some,
            r matches Some(rec) ==> exists|i: int|
                0 <= i < self.entries().len() && self.entries()[i] == *rec && self.ids()[i]
                    == *id,
    {
        proof {
            self.lemma_ids_are_order();
        }
        let r = self.data.get(id);
        proof {
            if r is Some {
                assert(self.order@.contains(*id));
                let i = choose|i: int| 0 <= i < self.order@.len() && self.order@[i] == *id;
                assert(self.entries()[i] == self.data@[*id]);
            }
        }
        r
    }

    /// Replaces the record that has the identifier of `r`, if the container holds one.
    pub fn update(&mut self, r: R)
        requires
            old(self).wf(),
        ensures
            final(self).wf(),
            final(self).capacity() == old(self).capacity(),
            final(self).entries().len() == old(self).entries().len(),
            forall|i: int|
                0 <= i < old(self).entries().len() ==> #[trigger] final(self).entries()[i] == if old(
                    self,
                ).ids()[i] == r.id_of() {
                    r
                } else {
                    old(self).entries()[i]
                },
    {
        proof {
            self.lemma_ids_are_order();
        }
        let id = r.get_id();
        if self.data.contains_key(&id) {
            self.data.insert(id, r);
        }
    }

    /// Replaces the content of the container with the first records of `records` that fit.
    ///
    /// Identifiers that stay in the view are marked for update, new ones for addition and
    /// those that leave the view for removal.
    pub fn reload(&mut self, changeset: &mut WindowChangeset, records: Vec<R>)
        requires
            old(self).wf(),
            reload_allowed(old(self).capacity(), records@),
        ensures
            final(self).wf(),
            final(self).capacity() == old(self).capacity(),
            final(changeset).reload == old(changeset).reload,
            changed(*old(self), *final(self), *old(changeset), *final(changeset),
                reload_outcome(old(self).entries(), old(self).capacity(), records@)),
    {
        proof {
            self.lemma_ids_are_order();
        }
        let ghost old_ids = self.order@;
        let ghost orig = records@;
        let last = if self.max_size <= records.len() {
            self.max_size
        } else {
            records.len()
        };
        let ghost kept = orig.take(last as int);
        let ghost new_ids = ids_of(kept);
        let mut records = records;
        records.truncate(last);
        assert(records@ =~= kept);

        let mut old_order: Vec<RecordId> = Vec::new();
        std::mem::swap(&mut old_order, &mut self.order);
        let mut old_set: HashSet<RecordId> = HashSet::new();
        let mut i: usize = 0;
        while i < old_order.len()
            invariant
                old_order@ == old_ids,
                0 <= i <= old_order@.len(),
                old_set@ =~= old_ids.take(i as int).to_set(),
            decreases old_order@.len() - i,
        {
            old_set.insert(old_order[i]);
            proof {
                assert(old_ids.take(i + 1) =~= old_ids.take(i as int).push(old_ids[i as int]));
                old_ids.take(i as int).lemma_push_to_set_commute(old_ids[i as int]);
            }
            i = i + 1;
        }
        assert(old_ids.take(old_ids.len() as int) =~= old_ids);
        self.data.clear();

        let mut new_set: HashSet<RecordId> = HashSet::new();
        let ghost changeset_start_updated = changeset.updated();
        let ghost changeset_start_added = changeset.added();
        let mut idx: usize = 0;
        while idx < last
            invariant
                records@ == kept,
                kept.len() == last,
                new_ids == ids_of(kept),
                new_ids.no_duplicates(),
                0 <= idx <= last,
                self.order@ =~= new_ids.take(idx as int),
                new_set@ =~= new_ids.take(idx as int).to_set(),
                old_set@ =~= old_ids.to_set(),
                self.data@ == Map::<RecordId, R>::empty(),
                self.max_size == old(self).max_size,
                last <= self.max_size,
                changeset.updated() =~= changeset_start_updated + new_ids.take(idx as int).to_set().intersect(old_ids.to_set()),
                changeset.added() =~= changeset_start_added + new_ids.take(idx as int).to_set().difference(old_ids.to_set()),
                changeset.removed() == old(changeset).removed(),
                changeset.reload == old(changeset).reload,
            decreases last - idx,
        {
            let id = records[idx].get_id();
            self.order.push(id);
            new_set.insert(id);
            if old_set.contains(&id) {
                changeset.ids_to_update.insert(id);
            } else {
                changeset.ids_to_add.insert(id);
            }
            proof {
                assert(new_ids.take(idx + 1) =~= new_ids.take(idx as int).push(id));
                new_ids.take(idx as int).lemma_push_to_set_commute(id);
            }
            idx = idx + 1;
        }
        assert(new_ids.take(last as int) =~= new_ids);

        let ghost changeset_mid_removed = changeset.removed();
        let ghost changeset_mid_updated = changeset.updated();
        let ghost changeset_mid_added = changeset.added();
        let mut j: usize = 0;
        while j < old_order.len()
            invariant
                old_order@ == old_ids,
                0 <= j <= old_order@.len(),
                new_set@ =~= new_ids.to_set(),
                changeset.removed() =~= changeset_mid_removed + old_ids.take(j as int).to_set().difference(new_ids.to_set()),
                changeset.updated() == changeset_mid_updated,
                changeset.added() == changeset_mid_added,
                changeset.reload == old(changeset).reload,
            decreases old_order@.len() - j,
        {
            let id = old_order[j];
            if !new_set.contains(&id) {
                changeset.widgets_to_remove.insert(id);
            }
            proof {
                assert(old_ids.take(j + 1) =~= old_ids.take(j as int).push(id));
                old_ids.take(j as int).lemma_push_to_set_commute(id);
            }
            j = j + 1;
        }
        assert(old_ids.take(old_ids.len() as int) =~= old_ids);

        while records.len() > 0
            invariant
                kept.len() == last,
                new_ids == ids_of(kept),
                new_ids.no_duplicates(),
                self.order@ == new_ids,
                records@ == kept.take(records@.len() as int),
                records@.len() <= last,
                forall|id: RecordId| #[trigger] self.data@.contains_key(id) <==> exists|k: int|
                    records@.len() <= k < last && new_ids[k] == id,
                forall|k: int| records@.len() <= k < last ==> #[trigger] self.data@[new_ids[k]] == kept[k],
                self.max_size == old(self).max_size,
                last <= self.max_size,
            decreases records@.len(),
        {
            let r = records.pop().unwrap();
            let ghost k = records@.len() as int;
            let id = r.get_id();
            assert(id == new_ids[k]);
            self.data.insert(id, r);
            proof {
                assert(records@ =~= kept.take(k));
                assert forall|m: int| k < m < last implies #[trigger] new_ids[m] != id by {
                    assert(new_ids[m] != new_ids[k]);
                }
                assert forall|rid: RecordId| #[trigger] self.data@.contains_key(rid) <==> exists|m: int|
                    k <= m < last && new_ids[m] == rid by {
                    if rid == id {
                        assert(k <= k < last && new_ids[k] == rid);
                    }
                }
            }
        }
        proof {
            assert forall|rid: RecordId| #[trigger] self.data@.contains_key(rid) <==> self.order@.contains(rid) by {
                if self.data@.contains_key(rid) {
                    let m = choose|m: int| 0 <= m < last && new_ids[m] == rid;
                    assert(self.order@[m] == rid);
                }
                if self.order@.contains(rid) {
                    let m = choose|m: int| 0 <= m < self.order@.len() && self.order@[m] == rid;
                    assert(0 <= m < last && new_ids[m] == rid);
                }
            }
            assert forall|rid: RecordId| #[trigger] self.data@.contains_key(rid) implies self.data@[rid].id_of() == rid by {
                let m = choose|m: int| 0 <= m < last && new_ids[m] == rid;
                assert(self.data@[new_ids[m]] == kept[m]);
            }
            assert(self.entries() =~= kept) by {
                assert forall|m: int| 0 <= m < last implies #[trigger] self.entries()[m] == kept[m] by {
                    assert(self.data@[new_ids[m]] == kept[m]);
                }
            }
            self.lemma_ids_are_order();
        }
    }

    /// Removes from `data` the records whose ids stand at `from..to` in the order, and marks
    /// their widgets for removal. The order itself is left as it is.
    fn drop_data(&mut self, changeset: &mut WindowChangeset, from: usize, to: usize)
        requires
            from <= to <= old(self).order@.len(),
            old(self).order@.no_duplicates(),
        ensures
            final(self).order@ == old(self).order@,
            final(self).max_size == old(self).max_size,
            forall|id: RecordId| #[trigger] final(self).data@.contains_key(id) <==> (old(self).data@.contains_key(id)
                && !old(self).order@.subrange(from as int, to as int).contains(id)),
            forall|id: RecordId| #[trigger] final(self).data@.contains_key(id) ==> final(self).data@[id] == old(self).data@[id],
            final(changeset).removed() == old(changeset).removed() + old(self).order@.subrange(from as int, to as int).to_set(),
            final(changeset).updated() == old(changeset).updated(),
            final(changeset).added() == old(changeset).added(),
            final(changeset).reload == old(changeset).reload,
    {
        let ghost o = self.order@;
        let mut idx = from;
        while idx < to
            invariant
                from <= idx <= to <= o.len(),
                self.order@ == o,
                o.no_duplicates(),
                self.max_size == old(self).max_size,
                forall|id: RecordId| #[trigger] self.data@.contains_key(id) <==> (old(self).data@.contains_key(id)
                    && !o.subrange(from as int, idx as int).contains(id)),
                forall|id: RecordId| #[trigger] self.data@.contains_key(id) ==> self.data@[id] == old(self).data@[id],
                changeset.removed() =~= old(changeset).removed() + o.subrange(from as int, idx as int).to_set(),
                changeset.updated() == old(changeset).updated(),
                changeset.added() == old(changeset).added(),
                changeset.reload == old(changeset).reload,
            decreases to - idx,
        {
            let id = self.order[idx];
            self.data.remove(&id);
            changeset.widgets_to_remove.insert(id);
            proof {
                assert(o.subrange(from as int, idx + 1) =~= o.subrange(from as int, idx as int).push(id));
                assert forall|rid: RecordId| #[trigger] o.subrange(from as int, idx + 1).contains(rid) <==> (
                o.subrange(from as int, idx as int).contains(rid) || rid == id) by {
                    if o.subrange(from as int, idx + 1).contains(rid) && rid != id {
                        let sub = o.subrange(from as int, idx + 1);
                        let m = choose|m: int| 0 <= m < sub.len() && sub[m] == rid;
                        assert(o.subrange(from as int, idx as int)[m] == rid);
                    }
                    if rid == id {
                        assert(o.subrange(from as int, idx + 1)[idx - from] == rid);
                    }
                }
                o.subrange(from as int, idx as int).lemma_push_to_set_commute(id);
            }
            idx = idx + 1;
        }
    }

    /// Marks the widgets of the ids at `from..to` in the order for update.
    fn mark_updated(&self, changeset: &mut WindowChangeset, from: usize, to: usize)
        requires
            from <= to <= self.order@.len(),
        ensures
            final(changeset).updated() == old(changeset).updated() + self.order@.subrange(from as int, to as int).to_set(),
            final(changeset).removed() == old(changeset).removed(),
            final(changeset).added() == old(changeset).added(),
            final(changeset).reload == old(changeset).reload,
    {
        let ghost o = self.order@;
        let mut idx = from;
        while idx < to
            invariant
                from <= idx <= to <= o.len(),
                self.order@ == o,
                changeset.updated() =~= old(changeset).updated() + o.subrange(from as int, idx as int).to_set(),
                changeset.removed() == old(changeset).removed(),
                changeset.added() == old(changeset).added(),
                changeset.reload == old(changeset).reload,
            decreases to - idx,
        {
            let id = self.order[idx];
            changeset.ids_to_update.insert(id);
            proof {
                assert(o.subrange(from as int, idx + 1) =~= o.subrange(from as int, idx as int).push(id));
                o.subrange(from as int, idx as int).lemma_push_to_set_commute(id);
            }
            idx = idx + 1;
        }
    }

    /// Moves `records` into `data`, each under its own id.
    fn store_records(&mut self, records: Vec<R>)
        requires
            ids_of(records@).no_duplicates(),
        ensures
            final(self).order@ == old(self).order@,
            final(self).max_size == old(self).max_size,
            forall|id: RecordId| #[trigger] final(self).data@.contains_key(id) <==> (old(self).data@.contains_key(id)
                || ids_of(records@).contains(id)),
            forall|i: int| 0 <= i < records@.len() ==> final(self).data@[#[trigger] ids_of(records@)[i]] == records@[i],
            forall|id: RecordId| #[trigger] final(self).data@.contains_key(id) && !ids_of(records@).contains(id)
                ==> final(self).data@[id] == old(self).data@[id],
    {
        let ghost all = records@;
        let ghost ids = ids_of(all);
        let mut records = records;
        while records.len() > 0
            invariant
                ids == ids_of(all),
                ids.no_duplicates(),
                records@ == all.take(records@.len() as int),
                records@.len() <= all.len(),
                self.order@ == old(self).order@,
                self.max_size == old(self).max_size,
                forall|id: RecordId| #[trigger] self.data@.contains_key(id) <==> (old(self).data@.contains_key(id)
                    || exists|k: int| records@.len() <= k < all.len() && ids[k] == id),
                forall|k: int| records@.len() <= k < all.len() ==> #[trigger] self.data@[ids[k]] == all[k],
                forall|id: RecordId| #[trigger] self.data@.contains_key(id) && !(exists|k: int|
                    records@.len() <= k < all.len() && ids[k] == id) ==> self.data@[id] == old(self).data@[id],
            decreases records@.len(),
        {
            let r = records.pop().unwrap();
            let ghost k = records@.len() as int;
            let id = r.get_id();
            assert(id == ids[k]);
            self.data.insert(id, r);
            proof {
                assert(records@ =~= all.take(k));
                assert forall|m: int| k < m < all.len() implies #[trigger] ids[m] != id by {
                    assert(ids[m] != ids[k]);
                }
                assert forall|rid: RecordId| #[trigger] self.data@.contains_key(rid) <==> (old(self).data@.contains_key(rid)
                    || exists|m: int| k <= m < all.len() && ids[m] == rid) by {
                    if rid == id {
                        assert(k <= k < all.len() && ids[k] == rid);
                    }
                }
            }
        }
        proof {
            assert forall|rid: RecordId| (exists|m: int| 0 <= m < all.len() && ids[m] == rid) <==> ids.contains(rid) by {
                if ids.contains(rid) {
                    let m = choose|m: int| 0 <= m < ids.len() && ids[m] == rid;
                    assert(0 <= m < all.len() && ids[m] == rid);
                }
            }
        }
    }

    /// Appends the ids of `records` to `order` and marks them for addition.
    fn push_ids(order: &mut Vec<RecordId>, records: &Vec<R>, changeset: &mut WindowChangeset)
        ensures
            final(order)@ == old(order)@ + ids_of(records@),
            final(changeset).added() == old(changeset).added() + ids_of(records@).to_set(),
            final(changeset).removed() == old(changeset).removed(),
            final(changeset).updated() == old(changeset).updated(),
            final(changeset).reload == old(changeset).reload,
    {
        let ghost ids = ids_of(records@);
        let mut i: usize = 0;
        while i < records.len()
            invariant
                ids == ids_of(records@),
                0 <= i <= records@.len(),
                order@ =~= old(order)@ + ids.take(i as int),
                changeset.added() =~= old(changeset).added() + ids.take(i as int).to_set(),
                changeset.removed() == old(changeset).removed(),
                changeset.updated() == old(changeset).updated(),
                changeset.reload == old(changeset).reload,
            decreases records@.len() - i,
        {
            let id = records[i].get_id();
            order.push(id);
            changeset.ids_to_add.insert(id);
            proof {
                assert(ids.take(i + 1) =~= ids.take(i as int).push(id));
                ids.take(i as int).lemma_push_to_set_commute(id);
            }
            i = i + 1;
        }
        assert(ids.take(records@.len() as int) =~= ids);
    }


    /// Replaces the content of the container with `order[x..y] + records + order[y..z]`.
    ///
    /// The records whose ids stand before `x` or from `z` on leave the container and their
    /// widgets are marked for removal; the new records are marked for addition.
    fn splice(&mut self, changeset: &mut WindowChangeset, x: usize, y: usize, z: usize, records: Vec<R>)
        requires
            old(self).wf(),
            x <= y <= z <= old(self).order@.len(),
            ids_of(records@).no_duplicates(),
            ids_of(records@).to_set().disjoint(old(self).order@.subrange(x as int, z as int).to_set()),
            z - x + records@.len() <= old(self).max_size,
        ensures
            final(self).wf(),
            final(self).max_size == old(self).max_size,
            final(self).entries() == old(self).entries().subrange(x as int, y as int) + records@
                + old(self).entries().subrange(y as int, z as int),
            final(changeset).removed() == old(changeset).removed() + old(self).order@.subrange(0, x as int).to_set()
                + old(self).order@.subrange(z as int, old(self).order@.len() as int).to_set(),
            final(changeset).added() == old(changeset).added() + ids_of(records@).to_set(),
            final(changeset).updated() == old(changeset).updated(),
            final(changeset).reload == old(changeset).reload,
    {
        let ghost o = self.order@;
        let ghost old_data = self.data@;
        let ghost e = self.entries();
        let ghost rs = records@;
        let ghost ni = ids_of(rs);
        let len = self.order.len();
        self.drop_data(changeset, 0, x);
        let ghost mid_data = self.data@;
        self.drop_data(changeset, z, len);
        let ghost dropped_data = self.data@;
        let mut new_order: Vec<RecordId> = Vec::new();
        copy_ids(&mut new_order, &self.order, x, y);
        Self::push_ids(&mut new_order, &records, changeset);
        copy_ids(&mut new_order, &self.order, y, z);
        self.order = new_order;
        self.store_records(records);
        proof {
            assert forall|id: RecordId| #[trigger] self.data@.contains_key(id) <==> (ni.contains(id) || (exists|j: int|
                x <= j < z && o[j] == id)) by {
                if exists|j: int| x <= j < z && o[j] == id {
                    let j = choose|j: int| x <= j < z && o[j] == id;
                    assert(o.contains(id));
                    if o.subrange(0, x as int).contains(id) {
                        let m = choose|m: int| 0 <= m < x && o.subrange(0, x as int)[m] == id;
                        assert(o[m] == id);
                    }
                    if o.subrange(z as int, len as int).contains(id) {
                        let sub = o.subrange(z as int, len as int);
                        let m = choose|m: int| 0 <= m < sub.len() && sub[m] == id;
                        assert(o[z + m] == id);
                    }
                }
                if self.data@.contains_key(id) && !ni.contains(id) {
                    assert(old_data.contains_key(id));
                    let j = choose|j: int| 0 <= j < o.len() && o[j] == id;
                    if j < x {
                        assert(o.subrange(0, x as int)[j] == id);
                    }
                    if j >= z {
                        assert(o.subrange(z as int, len as int)[j - z] == id);
                    }
                }
            }
            assert forall|j: int| x <= j < z implies !ni.contains(#[trigger] o[j]) && self.data@[o[j]]
                == old_data[o[j]] by {
                assert(o.subrange(x as int, z as int)[j - x] == o[j]);
                assert(o.subrange(x as int, z as int).to_set().contains(o[j]));
                if ni.contains(o[j]) {
                    assert(ni.to_set().contains(o[j]));
                }
                assert(o.contains(o[j]));
                if o.subrange(0, x as int).contains(o[j]) {
                    let m = choose|m: int| 0 <= m < x && o.subrange(0, x as int)[m] == o[j];
                    assert(o[m] == o[j]);
                }
                if o.subrange(z as int, len as int).contains(o[j]) {
                    let sub = o.subrange(z as int, len as int);
                    let m = choose|m: int| 0 <= m < sub.len() && sub[m] == o[j];
                    assert(o[z + m] == o[j]);
                }
                assert(old_data.contains_key(o[j]));
                assert(mid_data.contains_key(o[j]));
                assert(dropped_data.contains_key(o[j]));
                assert(dropped_data[o[j]] == old_data[o[j]]);
                assert(self.data@.contains_key(o[j]));
            }
            assert forall|j: int| 0 <= j < o.len() implies old_data.contains_key(#[trigger] o[j]) && old_data[o[j]].id_of()
                == o[j] && e[j] == old_data[o[j]] by {
                assert(o.contains(o[j]));
            }
            lemma_splice_result(o, old_data, e, rs, ni, self.order@, self.data@, x as int, y as int, z as int);
            assert(o.subrange(0, x as int).to_set() + o.subrange(z as int, len as int).to_set() =~= o.subrange(0, x as int).to_set()
                + o.subrange(z as int, len as int).to_set());
        }
    }

    /// Inserts records to the right of `position`
    ///
    /// Only the records that fit between `position` and the capacity are inserted, taken from
    /// the beginning of `records`. The records at and after `position` move right; those pushed
    /// beyond the capacity leave the container. A `position` beyond the last record appends.
    ///
    /// - **changeset** collects the widgets to remove, add and update
    /// - **position** index at which the first record will be inserted
    /// - **records** ordered records to insert
    pub fn insert_right(&mut self, changeset: &mut WindowChangeset, position: usize, records: Vec<R>)
        requires
            old(self).wf(),
            insert_right_allowed(old(self).entries(), old(self).capacity(), position as nat, records@),
        ensures
            final(self).wf(),
            final(self).capacity() == old(self).capacity(),
            final(changeset).reload == old(changeset).reload,
            changed(*old(self), *final(self), *old(changeset), *final(changeset),
                insert_right_outcome(old(self).entries(), old(self).capacity(), position as nat, records@)),
    {
        proof {
            self.lemma_ids_are_order();
        }
        let ghost e = self.entries();
        let ghost o = self.order@;
        let ghost all = records@;
        let len = self.order.len();
        let room = self.max_size - position;
        let k = if records.len() <= room { records.len() } else { room };
        let total = if k <= self.max_size - len { len + k } else { self.max_size };
        let keep = total - k;
        let p = if position <= len { position } else { len };
        self.mark_updated(changeset, p, keep);
        let mut records = records;
        records.truncate(k);
        proof {
            assert(o.take(keep as int) =~= o.subrange(0, keep as int));
        }
        self.splice(changeset, 0, p, keep, records);
        proof {
            assert(e.subrange(0, p as int) =~= e.take(p as int));
            assert(o.subrange(0, 0) =~= Seq::<RecordId>::empty());
            assert(ids_of(e.subrange(keep as int, len as int)) =~= o.subrange(keep as int, len as int));
            assert(ids_of(e.subrange(p as int, keep as int)) =~= o.subrange(p as int, keep as int));
            assert(Set::<RecordId>::empty() + o.subrange(keep as int, len as int).to_set() =~= o.subrange(keep as int, len as int).to_set());
            let out = insert_right_outcome(e, old(self).capacity(), position as nat, all);
            assert(self.entries() == out.0);
            assert(changeset.removed() == old(changeset).removed() + out.1);
            assert(changeset.updated() == old(changeset).updated() + out.2);
            assert(changeset.added() == old(changeset).added() + out.3);
        }
    }

    /// Inserts records to the left of `position`
    ///
    /// Takes the last `min(records.len(), position)` records. As many records leave the
    /// container at its beginning, the records before `position` move left, and the new
    /// records end just before `position`. An empty container, or enough records to fill
    /// everything up to `position`, take the new records alone.
    ///
    /// - **changeset** collects the widgets to remove, add and update
    /// - **position** index just after the last inserted record
    /// - **records** ordered records to insert
    pub fn insert_left(&mut self, changeset: &mut WindowChangeset, position: usize, records: Vec<R>)
        requires
            old(self).wf(),
            insert_left_allowed(old(self).entries(), old(self).capacity(), position as nat, records@),
        ensures
            final(self).wf(),
            final(self).capacity() == old(self).capacity(),
            final(changeset).reload == old(changeset).reload,
            changed(*old(self), *final(self), *old(changeset), *final(changeset),
                insert_left_outcome(old(self).entries(), old(self).capacity(), position as nat, records@)),
    {
        proof {
            self.lemma_ids_are_order();
        }
        let ghost e = self.entries();
        let ghost o = self.order@;
        let ghost all = records@;
        let len = self.order.len();
        let n = records.len();
        let k = if n <= position { n } else { position };
        if k == 0 {
            proof {
                assert(all.skip(n as int) =~= Seq::<R>::empty());
                assert(e.subrange(0, 0) + Seq::<R>::empty() + e.subrange(0, len as int) =~= e);
                assert(ids_of(e.take(0)).to_set() =~= Set::<RecordId>::empty());
                assert(ids_of(Seq::<R>::empty()).to_set() =~= Set::<RecordId>::empty());
                assert(old(changeset).removed() + Set::<RecordId>::empty() =~= old(changeset).removed());
                assert(old(changeset).updated() + Set::<RecordId>::empty() =~= old(changeset).updated());
                assert(old(changeset).added() + Set::<RecordId>::empty() =~= old(changeset).added());
                let out = insert_left_outcome(e, old(self).capacity(), position as nat, all);
                assert(self.entries() == out.0);
                assert(changeset.removed() == old(changeset).removed() + out.1);
                assert(changeset.updated() == old(changeset).updated() + out.2);
                assert(changeset.added() == old(changeset).added() + out.3);
            }
            return;
        }
        let x = if k <= len { k } else { len };
        let y = if position <= len { position } else { len };
        self.mark_updated(changeset, x, y);
        let mut records = records;
        let added = records.split_off(n - k);
        proof {
            assert(added@ =~= all.skip(n - k));
            assert(o.skip(x as int) =~= o.subrange(x as int, len as int));
        }
        self.splice(changeset, x, y, len, added);
        proof {
            assert(o.subrange(0, x as int) =~= ids_of(e.take(x as int)));
            assert(o.subrange(len as int, len as int).to_set() =~= Set::<RecordId>::empty());
            assert(o.subrange(0, x as int).to_set() + Set::<RecordId>::empty() =~= o.subrange(0, x as int).to_set());
            assert(ids_of(e.subrange(x as int, y as int)) =~= o.subrange(x as int, y as int));
            let out = insert_left_outcome(e, old(self).capacity(), position as nat, all);
            assert(self.entries() == out.0);
            assert(changeset.removed() == old(changeset).removed() + out.1);
            assert(changeset.updated() == old(changeset).updated() + out.2);
            assert(changeset.added() == old(changeset).added() + out.3);
        }
    }

    /// Identifiers of the records in the container, in no particular order.
    pub fn record_ids(&self) -> (ids: Vec<RecordId>)
        requires
            self.wf(),
        ensures
            ids@.to_set() == self.ids().to_set(),
            ids@.no_duplicates(),
    {
        proof {
            self.lemma_ids_are_order();
        }
        let mut ids: Vec<RecordId> = Vec::new();
        let ghost keys = vstd::std_specs::hash::spec_keys_iter(&self.data).remaining();
        for id in it: self.data.keys()
            invariant
                it.seq() == keys,
                ids@ == it.seq().take(it.index() as int).map_values(|r: &RecordId| *r),
        {
            ids.push(*id);
            proof {
                assert(it.seq().take(it.index() + 1) =~= it.seq().take(it.index() as int).push(id));
            }
        }
        proof {
            assert(ids@ =~= keys.unref());
            assert forall|rid: RecordId| #[trigger] ids@.to_set().contains(rid) <==> self.order@.contains(rid) by {
                assert(ids@.to_set().contains(rid) <==> self.data@.dom().contains(rid));
            }
            assert(ids@.to_set() =~= self.order@.to_set());
        }
        ids
    }

    /// Identifiers of the records in the container, in view order.
    pub fn ordered_record_ids(&self) -> (ids: &Vec<RecordId>)
        requires
            self.wf(),
        ensures
            ids@ == self.ids(),
    {
        proof {
            self.lemma_ids_are_order();
        }
        &self.order
    }

    /// Set of the identifiers at `from..to` of the order.
    fn id_set(&self, from: usize, to: usize) -> (set: HashSet<RecordId>)
        requires
            from <= to <= self.order@.len(),
        ensures
            set@ == self.order@.subrange(from as int, to as int).to_set(),
    {
        let ghost o = self.order@;
        let mut set: HashSet<RecordId> = HashSet::new();
        let mut i = from;
        while i < to
            invariant
                from <= i <= to <= o.len(),
                self.order@ == o,
                set@ =~= o.subrange(from as int, i as int).to_set(),
            decreases to - i,
        {
            set.insert(self.order[i]);
            proof {
                assert(o.subrange(from as int, i + 1) =~= o.subrange(from as int, i as int).push(o[i as int]));
                o.subrange(from as int, i as int).lemma_push_to_set_commute(o[i as int]);
            }
            i = i + 1;
        }
        set
    }

    /// Whether [DataContainer::reload] accepts `records`.
    pub fn can_reload(&self, records: &Vec<R>) -> (ok: bool)
        requires
            self.wf(),
        ensures
            ok == reload_allowed(self.capacity(), records@),
    {
        let last = if self.max_size <= records.len() {
            self.max_size
        } else {
            records.len()
        };
        let taken: HashSet<RecordId> = HashSet::new();
        let ok = fresh_ids(records, 0, last, &taken);
        proof {
            assert(records@.subrange(0, last as int) =~= records@.take(last as int));
            assert(Seq::<RecordId>::empty().to_set() =~= Set::<RecordId>::empty());
        }
        ok
    }

    /// Whether [DataContainer::insert_right] accepts `records` at `position`.
    pub fn can_insert_right(&self, position: usize, records: &Vec<R>) -> (ok: bool)
        requires
            self.wf(),
        ensures
            ok == insert_right_allowed(self.entries(), self.capacity(), position as nat, records@),
    {
        proof {
            self.lemma_ids_are_order();
        }
        if position > self.max_size {
            return false;
        }
        let len = self.order.len();
        let room = self.max_size - position;
        let k = if records.len() <= room { records.len() } else { room };
        let total = if k <= self.max_size - len { len + k } else { self.max_size };
        let keep = total - k;
        let taken = self.id_set(0, keep);
        let ok = fresh_ids(records, 0, k, &taken);
        proof {
            assert(records@.subrange(0, k as int) =~= records@.take(k as int));
            assert(self.order@.subrange(0, keep as int) =~= self.ids().take(keep as int));
        }
        ok
    }

    /// Whether [DataContainer::insert_left] accepts `records` at `position`.
    pub fn can_insert_left(&self, position: usize, records: &Vec<R>) -> (ok: bool)
        requires
            self.wf(),
        ensures
            ok == insert_left_allowed(self.entries(), self.capacity(), position as nat, records@),
    {
        proof {
            self.lemma_ids_are_order();
        }
        let len = self.order.len();
        let n = records.len();
        let k = if n <= position { n } else { position };
        if !(position <= len || len == 0 || n == 0 || position <= n) {
            return false;
        }
        if position > len && k > self.max_size {
            return false;
        }
        let x = if k <= len { k } else { len };
        let taken = self.id_set(x, len);
        let ok = fresh_ids(records, n - k, n, &taken);
        proof {
            assert(records@.subrange((n - k) as int, n as int) =~= records@.skip(n - k));
            assert(self.order@.subrange(x as int, len as int) =~= self.ids().skip(x as int));
        }
        ok
    }
}

} // verus!

verus! {

/// After a reload the container holds the first records offered, as many as fit; the widgets
/// of the old records that are not among them leave the view, those of the records that
/// stay are refreshed and those of the others are created.
pub proof fn lemma_reload_reports<R: Record>(e: Seq<R>, cap: nat, rs: Seq<R>)
    ensures
        ({
            let o = reload_outcome(e, cap, rs);
            &&& o.0.len() == min_nat(rs.len(), cap)
            &&& forall|i: int| 0 <= i < o.0.len() ==> o.0[i] == rs[i]
            &&& forall|x: RecordId| #[trigger] o.1.contains(x)
                <==> (ids_of(e).contains(x) && !ids_of(o.0).contains(x))
            &&& forall|x: RecordId| #[trigger] o.2.contains(x)
                <==> (ids_of(e).contains(x) && ids_of(o.0).contains(x))
            &&& forall|x: RecordId| #[trigger] o.3.contains(x)
                <==> (!ids_of(e).contains(x) && ids_of(o.0).contains(x))
        }),
{
}

/// Inserting records to the right refreshes the widget of every old record that stays in
/// the container at another index, and refreshes only records that stay.
pub proof fn lemma_insert_right_refreshes_moved<R: Record>(e: Seq<R>, cap: nat, position: nat, rs: Seq<R>)
    requires
        ids_of(e).no_duplicates(),
        insert_right_allowed(e, cap, position, rs),
    ensures
        ({
            let o = insert_right_outcome(e, cap, position, rs);
            &&& forall|j: int| 0 <= j < e.len()
                && ids_of(o.0).contains(#[trigger] e[j].id_of())
                && !ids_of(rs).contains(e[j].id_of())
                && (j >= o.0.len() || o.0[j].id_of() != e[j].id_of())
                ==> o.2.contains(e[j].id_of())
            &&& forall|x: RecordId| #[trigger] o.2.contains(x) ==> ids_of(o.0).contains(x)
        }),
{
    let o = insert_right_outcome(e, cap, position, rs);
    let k = right_count(cap, position, rs.len());
    let keep = right_kept(e.len(), cap, position, rs.len());
    let p = min_nat(position, e.len());
    let a = e.take(p as int);
    let b = rs.take(k as int);
    let c = e.subrange(p as int, keep as int);
    assert(keep <= e.len());
    assert(o.0 == a + b + c);
    assert forall|j: int| 0 <= j < e.len()
        && ids_of(o.0).contains(#[trigger] e[j].id_of())
        && !ids_of(rs).contains(e[j].id_of())
        && (j >= o.0.len() || o.0[j].id_of() != e[j].id_of())
        implies o.2.contains(e[j].id_of()) by {
        let id = e[j].id_of();
        let m = choose|m: int| 0 <= m < ids_of(o.0).len() && ids_of(o.0)[m] == id;
        assert(ids_of(e)[j] == id);
        if m < p {
            assert(o.0[m] == e[m]);
            assert(ids_of(e)[m] == id);
            assert(m == j);
            assert(false);
        } else if m < p + k {
            assert(o.0[m] == rs[m - p]);
            assert(ids_of(rs)[m - p] == id);
            assert(false);
        } else {
            let n = m - k;
            assert(o.0[m] == e[n]);
            assert(ids_of(e)[n] == id);
            assert(n == j);
            assert(ids_of(c)[j - p] == id);
        }
    }
    assert forall|x: RecordId| #[trigger] o.2.contains(x) implies ids_of(o.0).contains(x) by {
        let t = choose|t: int| 0 <= t < ids_of(c).len() && ids_of(c)[t] == x;
        assert(o.0[p + k + t] == c[t]);
        assert(ids_of(o.0)[p + k + t] == x);
    }
}

} // verus!
