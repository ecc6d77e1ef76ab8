//! A record together with its position in the store.

use std::cmp::Ordering;

use vstd::prelude::*;
use vstd::std_specs::cmp::PartialEqSpecImpl;
use vstd::std_specs::cmp::PartialOrdSpecImpl;

use crate::position::Position;
use crate::record::Record;

verus! {

/// Passes information about a record and its order in the store
#[derive(Debug)]
pub struct RecordWithLocation<T: Record> {
    /// Position at which the record is placed in the store; defines the order of records
    pub position: Position,
    /// Copy of the record in the store
    pub record: T,
}

impl<T: Record> RecordWithLocation<T> {
    /// Creates new instance of RecordWithLocation
    pub fn new(position: Position, record: T) -> (r: Self)
        ensures
            r.position == position,
            r.record == record,
    {
        RecordWithLocation { position, record }
    }
}

impl<T: Record> std::ops::Deref for RecordWithLocation<T> {
    type Target = T;

    /// Auto dereferences RecordWithLocation to the record
    fn deref(&self) -> (r: &T)
        ensures
            *r == self.record,
    {
        &self.record
    }
}

impl<T: Record> PartialEq for RecordWithLocation<T> {
    /// Two records are equal if their ids are equal
    fn eq(&self, other: &Self) -> (r: bool) {
        self.record.get_id() == other.record.get_id()
    }
}

impl<T: Record> PartialEqSpecImpl for RecordWithLocation<T> {
    open spec fn obeys_eq_spec() -> bool {
        true
    }

    open spec fn eq_spec(&self, other: &Self) -> bool {
        self.record.id_of() == other.record.id_of()
    }
}

impl<T: Record> Eq for RecordWithLocation<T> {

}

impl<T: Record> PartialOrd for RecordWithLocation<T> {
    /// Records have a natural order by the position
    fn partial_cmp(&self, other: &Self) -> (r: Option<Ordering>) {
        if self.position.0 < other.position.0 {
            Some(Ordering::Less)
        } else if self.position.0 == other.position.0 {
            Some(Ordering::Equal)
        } else {
            Some(Ordering::Greater)
        }
    }
}

impl<T: Record> PartialOrdSpecImpl for RecordWithLocation<T> {
    open spec fn obeys_partial_cmp_spec() -> bool {
        true
    }

    open spec fn partial_cmp_spec(&self, other: &Self) -> Option<Ordering> {
        if self.position.0 < other.position.0 {
            Some(Ordering::Less)
        } else if self.position.0 == other.position.0 {
            Some(Ordering::Equal)
        } else {
            Some(Ordering::Greater)
        }
    }
}

} // verus!
