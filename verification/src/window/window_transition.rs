use vstd::prelude::*;

verus! {

/// Describe transitions in relation to range of items displayed by window
#[derive(Debug, Clone, Copy, PartialEq, Eq)]
pub enum WindowTransition {
    /// Nothing to do
    Identity,
    /// Starting from `pos`, insert `by` records, change indexes of items from `pos` by `idx + by`,
    /// drop last `by` records
    InsertRight {
        /// position in the store
        pos: usize,
        /// how many records
        by: usize,
    },
    /// Drop first `by` records, change indexes of items from first to `pos` by `idx - by`,
    /// insert `by` records
    InsertLeft {
        /// position in the store
        pos: usize,
        /// how many records
        by: usize,
    },
    /// Starting from `pos`, remove `by` records, change indexes of items from `pos` by `idx - by`,
    /// insert last `by` records
    RemoveRight {
        /// position in the store
        pos: usize,
        /// how many elements
        by: usize,
    },
    /// Change indexes of items from first to `pos` by `idx - by`. Insert at the beginning `by`
    /// records. From pos remove `by` records
    RemoveLeft {
        /// position in the store
        pos: usize,
        /// how many elements
        by: usize,
    },
    /// Move window to the right. No records were changed. Indexes of records did change
    TransitionRight(usize),
    /// Move window to the left. No records were changed. Indexes of records did change
    TransitionLeft(usize),
    /// Move window to the left, remove `.0` of records from right and add `.0` from left.
    /// Records and their indexes were not changed.
    SlideLeft(usize),
    /// Move window to the right, remove `.0` of records from left and add `.0` from right.
    /// Records and their indexes were not changed.
    SlideRight(usize),
}

} // verus!
