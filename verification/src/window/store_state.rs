use vstd::prelude::*;

use crate::math::Range;

verus! {

/// Basic information about store state required to calculate data window change
#[derive(Debug, Clone, Copy)]
pub struct StoreState {
    /// Store view data range; describes the content of the current page
    pub page: Range,
    /// How many records are currently loaded into the store view page
    ///
    /// A page can be partially filled, for example when there is not enough data
    /// in the data store to fill it.
    pub view: usize,
}

} // verus!
