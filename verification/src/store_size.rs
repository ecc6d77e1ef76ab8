//! Size limits of stores and store views.

use vstd::prelude::*;
use vstd::std_specs::convert::FromSpec;
use vstd::std_specs::convert::FromSpecImpl;
use vstd::std_specs::convert::TryFromSpecImpl;

verus! {

/// Enum used to define the size of the store/store-view
///
/// Store/store-view decides how to respect those limits.
#[derive(Debug, Clone, Copy, PartialEq, Eq)]
pub enum StoreSize {
    /// Keep unlimited amounts of data; in practice [usize::MAX]
    Unlimited,
    /// Keep only up to given amount of data
    Items(usize),
}

/// Number of items that a size allows.
pub open spec fn size_items(s: StoreSize) -> usize {
    match s {
        StoreSize::Unlimited => usize::MAX,
        StoreSize::Items(n) => n,
    }
}

impl StoreSize {
    /// How many items can be stored
    pub fn items(&self) -> (r: usize)
        ensures
            r == size_items(*self),
    {
        match self {
            StoreSize::Unlimited => usize::MAX,
            StoreSize::Items(items) => *items,
        }
    }

}

impl From<usize> for StoreSize {
    fn from(value: usize) -> (r: StoreSize) {
        StoreSize::Items(value)
    }
}

impl FromSpecImpl<usize> for StoreSize {
    open spec fn obeys_from_spec() -> bool {
        true
    }

    open spec fn from_spec(v: usize) -> StoreSize {
        StoreSize::Items(v)
    }
}

impl TryFrom<i64> for StoreSize {
    type Error = &'static str;

    /// Negative numbers are refused
    fn try_from(value: i64) -> (r: Result<StoreSize, &'static str>) {
        if value < 0 {
            Err("Size can't be negative")
        } else {
            Ok(StoreSize::Items(value as usize))
        }
    }
}

impl TryFromSpecImpl<i64> for StoreSize {
    open spec fn obeys_try_from_spec() -> bool {
        true
    }

    open spec fn try_from_spec(v: i64) -> Result<StoreSize, &'static str> {
        if v < 0 {
            Err("Size can't be negative")
        } else {
            Ok(StoreSize::Items(v as usize))
        }
    }
}

} // verus!

verus! {

/// A size made from a number of items allows exactly that many items.
pub proof fn lemma_items_of_from(n: usize)
    ensures
        size_items(FromSpec::from_spec(n)) == n,
{
}

} // verus!
