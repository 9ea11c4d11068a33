use super::rank::Rank;
use vstd::prelude::*;

verus! {

/// A closed range of ranks, from `min` up to `max`.
#[derive(Clone, Copy, Debug, PartialEq, Eq, Structural)]
pub struct Interval {
    min: Rank,
    max: Rank,
}

impl Interval {
    /// The lower end.
    pub closed spec fn lo(&self) -> int {
        self.min as int
    }

    /// The upper end.
    pub closed spec fn hi(&self) -> int {
        self.max as int
    }

    /// No interval is upside down.
    #[verifier::type_invariant]
    pub closed spec fn wf(&self) -> bool {
        self.min <= self.max
    }

    /// `x` lies in the range, the ends included.
    pub open spec fn spec_contains(&self, x: int) -> bool {
        self.lo() <= x <= self.hi()
    }

    /// `x` lies in the range, the ends excluded.
    pub open spec fn spec_surrounds(&self, x: int) -> bool {
        self.lo() < x < self.hi()
    }

    /// The point of the range that is nearest to `x`.
    pub open spec fn spec_clamp(&self, x: int) -> int {
        if x < self.lo() {
            self.lo()
        } else if x > self.hi() {
            self.hi()
        } else {
            x
        }
    }

    /// The range from `min` to `max`.
    pub closed spec fn spec_new(min: Rank, max: Rank) -> Interval {
        Interval { min, max }
    }

    /// The range from `min` to `max`.
    pub fn new(min: Rank, max: Rank) -> (r: Self)
        requires
            min <= max,
        ensures
            r == Interval::spec_new(min, max),
            r.lo() == min,
            r.hi() == max,
            r.wf(),
    {
        Interval { min, max }
    }

    /// The lower end.
    pub fn min(&self) -> (r: Rank)
        ensures
            r == self.lo(),
            self.wf(),
    {
        proof {
            use_type_invariant(self);
        }
        self.min
    }

    /// The upper end.
    pub fn max(&self) -> (r: Rank)
        ensures
            r == self.hi(),
            self.wf(),
    {
        proof {
            use_type_invariant(self);
        }
        self.max
    }

    /// Whether `x` lies in the range or on one of its ends.
    pub fn contains(&self, x: Rank) -> (r: bool)
        ensures
            r == self.spec_contains(x as int),
    {
        self.min <= x && x <= self.max
    }

    /// Whether `x` lies strictly between the ends.
    pub fn surrounds(&self, x: Rank) -> (r: bool)
        ensures
            r == self.spec_surrounds(x as int),
    {
        self.min < x && x < self.max
    }

    /// Saturates `x` to the range: what lies below it becomes `min`, what lies
    /// above it becomes `max`, and what lies in it stays.
    pub fn clamp(&self, x: Rank) -> (r: Rank)
        ensures
            r == self.spec_clamp(x as int),
            self.spec_contains(r as int),
    {
        proof {
            use_type_invariant(self);
        }
        if x < self.min {
            self.min
        } else if x > self.max {
            self.max
        } else {
            x
        }
    }

    /// The ends of an interval are in order.
    pub proof fn lemma_ends_ordered(self)
        requires
            self.wf(),
        ensures
            self.lo() <= self.hi(),
            i64::MIN <= self.lo(),
            self.hi() <= i64::MAX,
    {
    }

    /// An interval is its two ends.
    pub proof fn lemma_new(min: Rank, max: Rank)
        ensures
            Interval::spec_new(min, max).lo() == min,
            Interval::spec_new(min, max).hi() == max,
            Interval::spec_new(min, max).wf() <==> min <= max,
    {
    }

    /// Clamping lands in the range, and leaves alone what is already there.
    pub proof fn lemma_clamp_contained(self, x: int)
        requires
            self.wf(),
        ensures
            self.spec_contains(self.spec_clamp(x)),
            self.spec_contains(x) ==> self.spec_clamp(x) == x,
            self.spec_clamp(self.spec_clamp(x)) == self.spec_clamp(x),
    {
    }

    /// Clamping keeps the order: of two ranks, the lower one never comes out
    /// above the higher one.
    pub proof fn lemma_clamp_monotone(self, x: int, y: int)
        requires
            self.wf(),
            x <= y,
        ensures
            self.spec_clamp(x) <= self.spec_clamp(y),
    {
    }
}

} // verus!
