//! Stores of records and the messages they exchange with their views.

use vstd::prelude::*;

use crate::math::Range;
use crate::position::Position;
use crate::record::Record;
use crate::record::RecordId;

verus! {

/// DataStore is a collection specialized in housekeeping business model data
///
/// Implementations own records, can be asked what is inside, and answer each question
/// from their current content alone: asked twice about the same content, a store answers
/// the same way. The `spec` functions name those answers.
pub trait DataStore {
    /// Type of records kept in the data store
    type Record: Record + Clone;

    /// Number of records in the store.
    spec fn count(&self) -> usize;

    /// Answer of the store to [DataStore::get] for `id`.
    spec fn lookup(&self, id: RecordId) -> Option<Self::Record>;

    /// Answer of the store to [DataStore::get_range] for `range`.
    spec fn records_in(&self, range: Range) -> Vec<Self::Record>;

    /// Total amount of available records in the store
    fn len(&self) -> (n: usize)
        ensures
            n == self.count(),
    ;

    /// Returns true if store doesn't contain any records yet
    fn is_empty(&self) -> (b: bool)
        ensures
            b == (self.count() == 0),
    ;

    /// Returns the record from the store; [None] means there is no such record in the store
    fn get(&self, id: &RecordId) -> (r: Option<Self::Record>)
        ensures
            r == self.lookup(*id),
    ;

    /// Returns records which are in the store at the given range
    ///
    /// Returned vector doesn't need to be ordered by position.
    /// If the range is out of bounds the returned vector is empty.
    fn get_range(&self, range: &Range) -> (v: Vec<Self::Record>)
        ensures
            v@ == self.records_in(*range)@,
            range.lo() >= self.count() ==> v@.len() == 0,
    ;
}

/// Messages that a backend asks its store to send to the views after handling a message
#[derive(Debug)]
pub struct Replies {
    /// List of messages to be sent to the store views
    pub replies: Vec<StoreViewMsg>,
}

/// Backend of a data store: the records, and the handling of the messages sent to the store
pub trait Backend: DataStore {
    /// Handles a message and returns what the views of the store must be told
    fn inbox(&mut self, msg: StoreMsg<Self::Record>) -> Replies;
}

/// Backend that supports switching the natural order of its records
pub trait OrderedBackend<OrderBy>: Backend {
    /// Sets the natural order of the records and returns what the views must be told
    fn set_order(&mut self, order: OrderBy) -> Replies;
}

/// How a backend sorts its records
pub trait Sorter<R: Record>: Copy {
    /// Compares `lhs` with `rhs`
    ///
    /// A backend that uses the sorter assumes that `cmp` is a total order
    fn cmp(&self, lhs: &R, rhs: &R) -> std::cmp::Ordering;
}

/// Data store that supports switching the natural order of its records
///
/// After the order changes the store tells its views how their records moved.
pub trait OrderedStore<OrderBy>: DataStore {
    /// Sets the natural order of the records
    fn set_order(&mut self, order: OrderBy);
}

/// Messages sent to/between stores
#[derive(Clone, Debug)]
pub enum StoreMsg<T: Record> {
    /// Record was committed to the store
    Commit(T),
    /// Record was updated in the store
    Update(RecordId),
    /// Removes record from the store
    Delete(RecordId),
    /// Store should be reloaded fully, dump all data, indexes, etc... and reload the data
    Reload,
}

/// Messages sent from a store to its views
#[derive(Clone, Copy, Debug, PartialEq, Eq)]
pub enum StoreViewMsg {
    /// New record was added at the given position
    NewAt(Position),
    /// One record in store has been moved
    Move {
        /// Position at which record was
        from: Position,
        /// Position at which record is now
        to: Position,
    },
    /// There is big reorder in the given region of the store
    Reorder {
        /// beginning of the region reorder
        from: Position,
        /// end of the region of reorder
        to: Position,
    },
    /// Record was removed from the store at given position
    Remove(Position),
    /// Record with the given id was updated
    Update(RecordId),
    /// Store should be reloaded fully, dump all data, indexes, etc... and reload the data
    Reload,
    /// Move the window such that first shown record is at given position
    SlideTo(Position),
}

} // verus!
