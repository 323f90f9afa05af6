use vstd::prelude::*;

verus! {

/// A value that sits on a fixed scale: its place on the scale is an integer
/// rank, and values of equal rank are the same value.
pub trait Ranked: Sized {
    spec fn rank(&self) -> int;

    fn position(&self) -> (r: u64)
        ensures
            r as int == self.rank(),
    ;

    proof fn lemma_rank_injective(&self, other: &Self)
        ensures
            self.rank() == other.rank() ==> *self == *other,
    ;
}

impl Ranked for u64 {
    open spec fn rank(&self) -> int {
        *self as int
    }

    fn position(&self) -> (r: u64) {
        *self
    }

    proof fn lemma_rank_injective(&self, other: &Self) {
    }
}

/// One edge of an interval.
#[derive(Debug, PartialEq, Eq, Clone, Copy)]
pub enum Limit<T> {
    Includes(T),
    Excludes(T),
    Inf,
}

impl<T: Ranked> Limit<T> {
    /// As a lower edge, this limit lets through the value of rank `v`.
    pub open spec fn admits_from_below(self, v: int) -> bool {
        match self {
            Limit::Includes(low) => low.rank() <= v,
            Limit::Excludes(low) => low.rank() < v,
            Limit::Inf => true,
        }
    }

    /// As an upper edge, this limit lets through the value of rank `v`.
    pub open spec fn admits_from_above(self, v: int) -> bool {
        match self {
            Limit::Includes(high) => v <= high.rank(),
            Limit::Excludes(high) => v < high.rank(),
            Limit::Inf => true,
        }
    }

    /// As lower edges, `self` is at most as restrictive as `other`.
    pub open spec fn weaker_lower(self, other: Limit<T>) -> bool {
        match (self, other) {
            (Limit::Inf, _) => true,
            (_, Limit::Inf) => false,
            (Limit::Excludes(a), Limit::Includes(b)) => a.rank() < b.rank(),
            (Limit::Includes(a), Limit::Includes(b)) => a.rank() <= b.rank(),
            (Limit::Includes(a), Limit::Excludes(b)) => a.rank() <= b.rank(),
            (Limit::Excludes(a), Limit::Excludes(b)) => a.rank() <= b.rank(),
        }
    }

    /// As upper edges, `self` is at most as restrictive as `other`.
    pub open spec fn weaker_upper(self, other: Limit<T>) -> bool {
        match (self, other) {
            (Limit::Inf, _) => true,
            (_, Limit::Inf) => false,
            (Limit::Excludes(a), Limit::Includes(b)) => a.rank() > b.rank(),
            (Limit::Includes(a), Limit::Includes(b)) => a.rank() >= b.rank(),
            (Limit::Includes(a), Limit::Excludes(b)) => a.rank() >= b.rank(),
            (Limit::Excludes(a), Limit::Excludes(b)) => a.rank() >= b.rank(),
        }
    }

    pub fn is_lower_bound_of(&self, v: &T) -> (r: bool)
        ensures
            r == self.admits_from_below(v.rank()),
    {
        match self {
            Limit::Excludes(low) => low.position() < v.position(),
            Limit::Includes(low) => low.position() <= v.position(),
            Limit::Inf => true,
        }
    }

    pub fn is_upper_bound_of(&self, v: &T) -> (r: bool)
        ensures
            r == self.admits_from_above(v.rank()),
    {
        match self {
            Limit::Excludes(high) => v.position() < high.position(),
            Limit::Includes(high) => v.position() <= high.position(),
            Limit::Inf => true,
        }
    }

    /// Whether `self`, as a lower edge, lets through everything that `other` does.
    pub fn is_lower_bound(&self, other: &Limit<T>) -> (r: bool)
        ensures
            r == self.weaker_lower(*other),
    {
        match (self, other) {
            (Limit::Inf, _) => true,
            (_, Limit::Inf) => false,
            (Limit::Excludes(a), Limit::Includes(b)) => a.position() < b.position(),
            (Limit::Includes(a), Limit::Includes(b)) => a.position() <= b.position(),
            (Limit::Includes(a), Limit::Excludes(b)) => a.position() <= b.position(),
            (Limit::Excludes(a), Limit::Excludes(b)) => a.position() <= b.position(),
        }
    }

    /// Whether `self`, as an upper edge, lets through everything that `other` does.
    pub fn is_upper_bound(&self, other: &Limit<T>) -> (r: bool)
        ensures
            r == self.weaker_upper(*other),
    {
        match (self, other) {
            (Limit::Inf, _) => true,
            (_, Limit::Inf) => false,
            (Limit::Excludes(a), Limit::Includes(b)) => a.position() > b.position(),
            (Limit::Includes(a), Limit::Includes(b)) => a.position() >= b.position(),
            (Limit::Includes(a), Limit::Excludes(b)) => a.position() >= b.position(),
            (Limit::Excludes(a), Limit::Excludes(b)) => a.position() >= b.position(),
        }
    }
}

/// An interval given by a lower and an upper edge. An inverted interval is
/// allowed and holds nothing.
#[derive(Debug, PartialEq, Eq, Clone, Copy)]
pub struct Range<T> {
    pub low: Limit<T>,
    pub high: Limit<T>,
}

impl<T: Ranked + Copy> Range<T> {
    /// The value of rank `v` lies in the interval.
    pub open spec fn holds(self, v: int) -> bool {
        self.low.admits_from_below(v) && self.high.admits_from_above(v)
    }

    /// The edges of the wider of two intervals, edge by edge.
    pub open spec fn spec_union(self, other: Range<T>) -> Range<T> {
        Range {
            low: if self.low.weaker_lower(other.low) { self.low } else { other.low },
            high: if self.high.weaker_upper(other.high) { self.high } else { other.high },
        }
    }

    /// The edges of the narrower of two intervals, edge by edge.
    pub open spec fn spec_intersection(self, other: Range<T>) -> Range<T> {
        Range {
            low: if self.low.weaker_lower(other.low) { other.low } else { self.low },
            high: if self.high.weaker_upper(other.high) { other.high } else { self.high },
        }
    }

    pub fn new(low: Limit<T>, high: Limit<T>) -> (r: Self)
        ensures
            r.low == low,
            r.high == high,
    {
        Range { low, high }
    }

    /// The interval that holds exactly `v`.
    pub fn eq(v: T) -> (r: Self)
        ensures
            r.low == Limit::Includes(v),
            r.high == Limit::Includes(v),
    {
        Range { low: Limit::Includes(v), high: Limit::Includes(v) }
    }

    pub fn contains(&self, v: &T) -> (r: bool)
        ensures
            r == (self.low.admits_from_below(v.rank()) && self.high.admits_from_above(v.rank())),
            r == self.holds(v.rank()),
    {
        self.low.is_lower_bound_of(v) && self.high.is_upper_bound_of(v)
    }

    /// Whether each edge of `self` is at least as restrictive as that of `other`.
    pub fn is_subrange(&self, other: &Range<T>) -> (r: bool)
        ensures
            r == (other.low.weaker_lower(self.low) && other.high.weaker_upper(self.high)),
    {
        other.low.is_lower_bound(&self.low) && other.high.is_upper_bound(&self.high)
    }

    pub fn union(self, other: Range<T>) -> (r: Self)
        ensures
            r == self.spec_union(other),
    {
        let low = if self.low.is_lower_bound(&other.low) {
            self.low
        } else {
            other.low
        };
        let high = if self.high.is_upper_bound(&other.high) {
            self.high
        } else {
            other.high
        };
        Range { low, high }
    }

    pub fn intersection(self, other: Range<T>) -> (r: Self)
        ensures
            r == self.spec_intersection(other),
    {
        let low = if self.low.is_lower_bound(&other.low) {
            other.low
        } else {
            self.low
        };
        let high = if self.high.is_upper_bound(&other.high) {
            other.high
        } else {
            self.high
        };
        Range { low, high }
    }
}

/// Taking the union of two intervals does not depend on their order, and
/// every value that lies in either interval lies in their union.
pub proof fn lemma_union_commutes_and_covers<T: Ranked + Copy>(a: Range<T>, b: Range<T>, v: T)
    ensures
        a.spec_union(b) == b.spec_union(a),
        a.holds(v.rank()) || b.holds(v.rank()) ==> a.spec_union(b).holds(v.rank()),
{
    lemma_limits_agree(a.low, b.low);
    lemma_limits_agree(a.high, b.high);
}

/// Every value in the intersection of two intervals lies in both of them.
pub proof fn lemma_intersection_within<T: Ranked + Copy>(a: Range<T>, b: Range<T>, v: T)
    ensures
        a.spec_intersection(b).holds(v.rank()) ==> a.holds(v.rank()) && b.holds(v.rank()),
{
}

/// Two limits, each weaker than the other on the same side, are the same limit.
proof fn lemma_limits_agree<T: Ranked + Copy>(x: Limit<T>, y: Limit<T>)
    ensures
        x.weaker_lower(y) && y.weaker_lower(x) ==> x == y,
        x.weaker_upper(y) && y.weaker_upper(x) ==> x == y,
{
    match (x, y) {
        (Limit::Includes(a), Limit::Includes(b)) => a.lemma_rank_injective(&b),
        (Limit::Excludes(a), Limit::Excludes(b)) => a.lemma_rank_injective(&b),
        _ => {},
    }
}

} // verus!
