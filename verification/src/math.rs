//! One dimensional ranges and points used to compute how a store view window changes.

use std::cmp::Ordering;

use vstd::prelude::*;
use vstd::std_specs::cmp::PartialEqSpecImpl;
use vstd::std_specs::cmp::PartialOrdSpecImpl;

verus! {

/// Smaller of two numbers.
pub open spec fn min_nat(a: nat, b: nat) -> nat {
    if a <= b {
        a
    } else {
        b
    }
}

/// Decimal digits of `n`, most significant first, as `usize` values are displayed.
pub open spec fn decimal(n: nat) -> Seq<char>
    decreases n,
{
    let digit = (48 + n % 10) as char;
    if n < 10 {
        seq![digit]
    } else {
        decimal(n / 10).push(digit)
    }
}

/// The text `Range(start..end)`, with both numbers in decimal.
pub open spec fn range_text_of(start: nat, end: nat) -> Seq<char> {
    seq!['R', 'a', 'n', 'g', 'e', '('] + decimal(start) + seq!['.', '.'] + decimal(end) + seq![')']
}

/// The text `Point(p)`, with the number in decimal.
pub open spec fn point_text_of(p: nat) -> Seq<char> {
    seq!['P', 'o', 'i', 'n', 't', '('] + decimal(p) + seq![')']
}

/// `format!` of `Range({}..{})` with `start` and `end`: std displays a `usize` as its
/// decimal digits.
#[verifier::external_body]
fn range_text(start: usize, end: usize) -> (s: String)
    ensures
        s@ == range_text_of(start as nat, end as nat),
{
    format!("Range({}..{})", start, end)
}

/// `format!` of `Point({})` with `p`: std displays a `usize` as its decimal digits.
#[verifier::external_body]
fn point_text(p: usize) -> (s: String)
    ensures
        s@ == point_text_of(p as nat),
{
    format!("Point({})", p)
}

/// One dimensional half open range `[start, end)`.
#[derive(Clone, Copy, PartialEq, Eq, Debug)]
pub struct Range {
    start: usize,
    end: usize,
}

impl Range {
    #[verifier::type_invariant]
    spec fn ordered(self) -> bool {
        self.start <= self.end
    }

    /// Smallest value in the range.
    pub closed spec fn lo(self) -> nat {
        self.start as nat
    }

    /// Smallest value above the range.
    pub closed spec fn hi(self) -> nat {
        self.end as nat
    }

    /// The range `[lo, hi)`; meaningful when `lo <= hi <= usize::MAX`.
    pub closed spec fn span(lo: nat, hi: nat) -> Range {
        Range { start: lo as usize, end: hi as usize }
    }

    /// A range built by [Range::span] has the bounds it was built from.
    pub broadcast proof fn lemma_span(lo: nat, hi: nat)
        requires
            lo <= hi <= usize::MAX,
        ensures
            #[trigger] Range::span(lo, hi).lo() == lo,
            Range::span(lo, hi).hi() == hi,
    {
    }

    /// The bounds of a range are numbers of `usize`.
    pub broadcast proof fn lemma_bounds(r: Range)
        ensures
            #[trigger] r.hi() <= usize::MAX,
            r.lo() <= usize::MAX,
    {
    }

    /// Two ranges with the same bounds are the same range.
    pub proof fn lemma_same_bounds(a: Range, b: Range)
        requires
            a.lo() == b.lo(),
            a.hi() == b.hi(),
        ensures
            a == b,
    {
    }

    /// Number of values in the range.
    pub open spec fn size(self) -> int {
        self.hi() - self.lo()
    }

    /// Whether `v` lies in the range.
    pub open spec fn has(self, v: int) -> bool {
        self.lo() <= v < self.hi()
    }

    /// The range of the same length starting at `start`.
    pub open spec fn moved_to(self, start: nat) -> Range {
        Range::span(start, (start + self.size()) as nat)
    }

    /// The range moved `l` to the left, stopping at 0.
    pub open spec fn moved_left(self, l: nat) -> Range {
        self.moved_to(if l <= self.lo() { (self.lo() - l) as nat } else { 0 })
    }

    /// The range moved `r` to the right.
    pub open spec fn moved_right(self, r: nat) -> Range {
        self.moved_to(self.lo() + r)
    }

    /// Values that `self` and `other` both hold, as a range; `None` when there is none.
    pub open spec fn common(self, other: Range) -> Option<Range> {
        let lo = if self.lo() <= other.lo() { other.lo() } else { self.lo() };
        let hi = if self.hi() <= other.hi() { self.hi() } else { other.hi() };
        if lo < hi {
            Some(Range::span(lo, hi))
        } else {
            None
        }
    }

    /// Moving a range to the right and back to the left by the same amount gives it back.
    pub proof fn lemma_right_then_left(r: Range, n: nat)
        requires
            r.lo() <= r.hi(),
            r.hi() + n <= usize::MAX,
        ensures
            r.moved_right(n).moved_left(n) == r,
    {
        Range::lemma_span(r.lo() + n, r.hi() + n);
        Range::lemma_span(r.lo(), r.hi());
        Range::lemma_same_bounds(r.moved_right(n).moved_left(n), r);
    }

    /// The common part of two ranges does not depend on their order.
    pub proof fn lemma_common_symmetric(a: Range, b: Range)
        ensures
            a.common(b) == b.common(a),
    {
    }

    /// A range has all of itself in common with itself, unless it is empty.
    pub proof fn lemma_common_with_itself(a: Range)
        ensures
            a.common(a) == if a.lo() < a.hi() { Some(a) } else { None::<Range> },
    {
        if a.lo() < a.hi() {
            Range::lemma_same_bounds(Range::span(a.lo(), a.hi()), a);
        }
    }

    /// Creates the range spanning `a` and `b`, whichever comes first.
    #[must_use]
    pub fn new(a: usize, b: usize) -> (r: Range)
        ensures
            r.lo() == if a <= b { a } else { b },
            r.hi() == if a <= b { b } else { a },
            r == Range::span(min_nat(a as nat, b as nat), if a <= b { b as nat } else { a as nat }),
    {
        if a <= b {
            Range { start: a, end: b }
        } else {
            Range { start: b, end: a }
        }
    }

    /// Text of the range: `Range(start..end)`.
    pub fn to_string(&self) -> (s: String)
        ensures
            s@ == range_text_of(self.lo(), self.hi()),
    {
        range_text(self.start, self.end)
    }

    /// Returns the length of the range.
    pub fn len(&self) -> (r: usize)
        ensures
            r == self.hi() - self.lo(),
            self.lo() <= self.hi(),
    {
        proof {
            use_type_invariant(self);
        }
        self.end - self.start
    }

    /// A range is empty when its start and end are equal.
    pub fn is_empty(&self) -> (r: bool)
        ensures
            r == (self.lo() == self.hi()),
            self.lo() <= self.hi(),
    {
        proof {
            use_type_invariant(self);
        }
        self.start == self.end
    }

    /// Returns the range of the same length that begins at `start`.
    pub fn slide(&self, start: usize) -> (r: Range)
        requires
            start + self.size() <= usize::MAX,
        ensures
            r.lo() == start,
            r.hi() == start + self.size(),
            r == Range::span(start as nat, (start + self.size()) as nat),
            self.lo() <= self.hi(),
    {
        proof {
            use_type_invariant(self);
        }
        Range { start, end: start + self.len() }
    }

    /// Returns the smallest value in the range.
    pub fn start(&self) -> (r: &usize)
        ensures
            *r == self.lo(),
            self.lo() <= self.hi(),
    {
        proof {
            use_type_invariant(self);
        }
        &self.start
    }

    /// Returns the smallest value above the range.
    pub fn end(&self) -> (r: &usize)
        ensures
            *r == self.hi(),
            self.lo() <= self.hi(),
    {
        proof {
            use_type_invariant(self);
        }
        &self.end
    }

    /// Returns the range of the same length moved `l` to the left; it stops at 0.
    pub fn to_left(&self, l: usize) -> (r: Range)
        ensures
            r == self.moved_left(l as nat),
            r.lo() == if l <= self.lo() { self.lo() - l } else { 0 },
            r.size() == self.size(),
            self.lo() <= self.hi(),
    {
        proof {
            use_type_invariant(self);
        }
        let moved = if self.start <= l { self.start } else { l };
        self.slide(self.start - moved)
    }

    /// Returns the range of the same length moved `r` to the right.
    pub fn to_right(&self, r: usize) -> (res: Range)
        requires
            self.hi() + r <= usize::MAX,
        ensures
            res == self.moved_right(r as nat),
            res.lo() == self.lo() + r,
            res.size() == self.size(),
            self.lo() <= self.hi(),
    {
        proof {
            use_type_invariant(self);
        }
        self.slide(self.start + r)
    }

    /// Returns the part that this range and `other` have in common, or `None` when
    /// they share no value.
    pub fn common_part(&self, other: &Range) -> (res: Option<Range>)
        ensures
            self.lo() <= self.hi(),
            other.lo() <= other.hi(),
            res == self.common(*other),
            res is None <==> forall|v: int| !(#[trigger] self.has(v) && other.has(v)),
            res matches Some(c) ==> {
                &&& c.lo() == if self.lo() <= other.lo() { other.lo() } else { self.lo() }
                &&& c.hi() == if self.hi() <= other.hi() { self.hi() } else { other.hi() }
                &&& forall|v: int| #[trigger] c.has(v) <==> (self.has(v) && other.has(v))
            },
    {
        proof {
            use_type_invariant(self);
            use_type_invariant(other);
        }
        let start = if self.start <= other.start { other.start } else { self.start };
        let end = if self.end <= other.end { self.end } else { other.end };
        if start < end {
            let c = Range { start, end };
            assert(self.has(start as int) && other.has(start as int));
            Some(c)
        } else {
            None
        }
    }
}

/// One dimensional point.
#[derive(Debug)]
pub struct Point(usize);

impl Point {
    /// Value of the point.
    pub closed spec fn at(self) -> nat {
        self.0 as nat
    }

    /// Returns a new point.
    pub fn new(p: usize) -> (r: Point)
        ensures
            r.at() == p,
    {
        Point(p)
    }

    /// Returns the value of the point.
    pub fn value(&self) -> (r: usize)
        ensures
            r == self.at(),
    {
        self.0
    }

    /// Text of the point: `Point(p)`.
    pub fn to_string(&self) -> (s: String)
        ensures
            s@ == point_text_of(self.at()),
    {
        point_text(self.0)
    }
}

impl PartialEq<usize> for Point {
    /// A point equals the number it stands at.
    fn eq(&self, other: &usize) -> (r: bool) {
        self.0 == *other
    }
}

impl PartialEqSpecImpl<usize> for Point {
    open spec fn obeys_eq_spec() -> bool {
        true
    }

    open spec fn eq_spec(&self, other: &usize) -> bool {
        self.at() == *other
    }
}

impl PartialOrd<usize> for Point {
    /// Points are ordered as the numbers they stand at.
    fn partial_cmp(&self, other: &usize) -> (r: Option<Ordering>) {
        if self.0 < *other {
            Some(Ordering::Less)
        } else if self.0 == *other {
            Some(Ordering::Equal)
        } else {
            Some(Ordering::Greater)
        }
    }
}

impl PartialOrdSpecImpl<usize> for Point {
    open spec fn obeys_partial_cmp_spec() -> bool {
        true
    }

    open spec fn partial_cmp_spec(&self, other: &usize) -> Option<Ordering> {
        if self.at() < *other {
            Some(Ordering::Less)
        } else if self.at() == *other {
            Some(Ordering::Equal)
        } else {
            Some(Ordering::Greater)
        }
    }
}

impl std::ops::Deref for Point {
    type Target = usize;

    /// The number the point stands at.
    fn deref(&self) -> (r: &usize)
        ensures
            *r == self.at(),
    {
        &self.0
    }
}

} // verus!
