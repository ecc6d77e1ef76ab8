//! Pagination of store views.

use vstd::prelude::*;

verus! {

/// Number of pages of `size` records needed for `len` records: `len / size` rounded up.
///
/// With pages of no record, no page is needed for no record and every page number is
/// needed otherwise.
pub open spec fn page_count(len: nat, size: nat) -> nat {
    if size == 0 {
        if len == 0 {
            0
        } else {
            usize::MAX as nat
        }
    } else if len % size == 0 {
        len / size
    } else {
        len / size + 1
    }
}

/// Pages of `size` records hold `len` records, and the last of them holds at least one.
pub proof fn lemma_pages_cover(len: nat, size: nat)
    requires
        len > 0,
        size > 0,
    ensures
        page_count(len, size) >= 1,
        (page_count(len, size) - 1) * size < len <= page_count(len, size) * size,
{
    let q = len / size;
    let r = len % size;
    assert(len == q * size + r && 0 <= r < size) by (nonlinear_arith)
        requires
            q == len / size,
            r == len % size,
            size > 0,
    ;
    if r == 0 {
        assert(q >= 1 && (q - 1) * size < len) by (nonlinear_arith)
            requires
                len == q * size,
                len > 0,
                size > 0,
        ;
    } else {
        assert((q + 1) * size == q * size + size) by (nonlinear_arith);
    }
}

/// The page after the one starting at `start` is one page further.
pub proof fn lemma_next_page_count(start: nat, size: nat)
    requires
        size > 0,
    ensures
        page_count(start + size, size) == page_count(start, size) + 1,
{
    let q = start / size;
    let r = start % size;
    assert((start + size) / size == q + 1 && (start + size) % size == r) by (nonlinear_arith)
        requires
            q == start / size,
            r == start % size,
            size > 0,
    {
        vstd::arithmetic::div_mod::lemma_fundamental_div_mod(start as int, size as int);
        vstd::arithmetic::div_mod::lemma_add_mod_noop(start as int, size as int, size as int);
        vstd::arithmetic::div_mod::lemma_div_plus_one(start as int, size as int);
    }
}

/// `len / size` rounded up, as [page_count] defines it.
pub(crate) fn pages_for(len: usize, size: usize) -> (n: usize)
    ensures
        n == page_count(len as nat, size as nat),
{
    if size == 0 {
        if len == 0 {
            0
        } else {
            usize::MAX
        }
    } else {
        let whole = len / size;
        if len % size == 0 {
            whole
        } else {
            proof {
                assert(whole * size <= len) by (nonlinear_arith)
                    requires
                        whole == len / size,
                        size > 0,
                ;
                assert(whole < usize::MAX) by (nonlinear_arith)
                    requires
                        whole == len / size,
                        size > 0,
                        len % size != 0,
                        len <= usize::MAX,
                ;
            }
            whole + 1
        }
    }
}

/// Generic pagination methods of a store view
pub trait Pagination {
    /// Number of records being paged.
    spec fn paged_len(&self) -> nat;

    /// Number of records per page.
    spec fn paged_size(&self) -> nat;

    /// Index of the first record of the current page.
    spec fn paged_start(&self) -> nat;

    /// Total amount of pages in store view
    fn total_pages(&self) -> (n: usize)
        ensures
            n == page_count(self.paged_len(), self.paged_size()),
    ;

    /// Current page in the view, counted from 1
    fn current_page(&self) -> (n: usize)
        requires
            page_count(self.paged_start(), self.paged_size()) < usize::MAX,
        ensures
            n == 1 + page_count(self.paged_start(), self.paged_size()),
    ;
}

} // verus!
