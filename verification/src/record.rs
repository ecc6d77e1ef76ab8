//! Records kept in stores and their identifiers.

use vstd::prelude::*;

verus! {

/// Identifier of a record; every record in a store has its own.
pub type RecordId = u128;

/// A record kept by a store: a value that carries its own identifier.
///
/// Stores and store views tell records apart only by their identifiers, so two records
/// with the same identifier are two versions of the same data.
pub trait Record: Sized {
    /// Identifier of the record.
    spec fn id_of(&self) -> RecordId;

    /// Returns the identifier of the record.
    fn get_id(&self) -> (id: RecordId)
        ensures
            id == self.id_of(),
    ;
}

/// Identifiers of a sequence of records, in the same order.
pub open spec fn ids_of<R: Record>(rs: Seq<R>) -> Seq<RecordId> {
    rs.map_values(|r: R| r.id_of())
}

} // verus!
