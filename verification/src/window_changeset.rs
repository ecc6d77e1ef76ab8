//! Description of how the content of a store view window changed.

use std::collections::HashSet;

use vstd::prelude::*;

use crate::record::RecordId;

verus! {

/// WindowChangeset describes how the store view window has changed in response to the
/// changes in the store
#[derive(Debug)]
pub struct WindowChangeset {
    /// Set of record id's of widgets which needs to be removed from the view
    pub widgets_to_remove: HashSet<RecordId>,
    /// Set of record id's of widgets which needs to be added to the view
    pub ids_to_add: HashSet<RecordId>,
    /// Set of record id's of widgets which needs to be updated
    pub ids_to_update: HashSet<RecordId>,
    /// Marks changeset as reload
    pub reload: bool,
}

impl WindowChangeset {
    /// Set of ids whose widgets are to be removed.
    pub open spec fn removed(&self) -> Set<RecordId> {
        self.widgets_to_remove@
    }

    /// Set of ids whose widgets are to be created.
    pub open spec fn added(&self) -> Set<RecordId> {
        self.ids_to_add@
    }

    /// Set of ids whose widgets are to be refreshed.
    pub open spec fn updated(&self) -> Set<RecordId> {
        self.ids_to_update@
    }
}

impl Default for WindowChangeset {
    /// Changeset with no change in it
    fn default() -> (r: WindowChangeset)
        ensures
            r.removed() == Set::<RecordId>::empty(),
            r.added() == Set::<RecordId>::empty(),
            r.updated() == Set::<RecordId>::empty(),
            !r.reload,
    {
        WindowChangeset {
            widgets_to_remove: HashSet::new(),
            ids_to_add: HashSet::new(),
            ids_to_update: HashSet::new(),
            reload: false,
        }
    }
}

} // verus!
