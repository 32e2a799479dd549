//! Intervals of system-time instants (milliseconds since the Unix epoch).

use vstd::prelude::*;

verus! {

/// Lower edge of a non-empty interval.
#[derive(Debug, Clone, Copy, PartialEq, Eq, Structural)]
pub enum LowerBound {
    NegInf,
    Incl(i64),
    Excl(i64),
}

/// Upper edge of a non-empty interval.
#[derive(Debug, Clone, Copy, PartialEq, Eq, Structural)]
pub enum UpperBound {
    Incl(i64),
    PosInf,
}

/// An interval in one of its canonical forms.
#[derive(Debug, Clone, Copy, PartialEq, Eq, Structural)]
pub enum TimeInterval {
    /// `()`
    Empty,
    /// `[lower, upper]`, with `lower <= upper`; a singleton when they are equal
    Closed { lower: i64, upper: i64 },
    /// `(lower, upper]`, with `lower < upper`
    LeftOpen { lower: i64, upper: i64 },
    /// `(-inf, upper]`
    UnboundedClosedRight { upper: i64 },
    /// `(lower, +inf)`
    UnboundedOpenLeft { lower: i64 },
    /// `(-inf, +inf)`
    Unbounded,
}

pub open spec fn above_lower(lo: LowerBound, t: int) -> bool {
    match lo {
        LowerBound::NegInf => true,
        LowerBound::Incl(l) => l <= t,
        LowerBound::Excl(l) => l < t,
    }
}

pub open spec fn below_upper(up: UpperBound, t: int) -> bool {
    match up {
        UpperBound::Incl(u) => t <= u,
        UpperBound::PosInf => true,
    }
}

/// The tighter of two lower edges.
pub open spec fn max_lower(a: LowerBound, b: LowerBound) -> LowerBound {
    match (a, b) {
        (LowerBound::NegInf, _) => b,
        (_, LowerBound::NegInf) => a,
        (LowerBound::Incl(s), LowerBound::Incl(t)) => LowerBound::Incl(if s < t { t } else { s }),
        (LowerBound::Excl(s), LowerBound::Excl(t)) => LowerBound::Excl(if s < t { t } else { s }),
        (LowerBound::Incl(s), LowerBound::Excl(t)) => if s <= t {
            LowerBound::Excl(t)
        } else {
            LowerBound::Incl(s)
        },
        (LowerBound::Excl(s), LowerBound::Incl(t)) => if t <= s {
            LowerBound::Excl(s)
        } else {
            LowerBound::Incl(t)
        },
    }
}

/// The tighter of two upper edges.
pub open spec fn min_upper(a: UpperBound, b: UpperBound) -> UpperBound {
    match (a, b) {
        (UpperBound::PosInf, _) => b,
        (_, UpperBound::PosInf) => a,
        (UpperBound::Incl(s), UpperBound::Incl(t)) => UpperBound::Incl(if s < t { s } else { t }),
    }
}

/// The canonical interval between two edges. A closed lower edge comes only
/// with a closed upper one among canonical intervals; the remaining pair maps
/// to the unbounded interval and never arises from canonical arguments.
pub open spec fn from_bounds(lo: LowerBound, up: UpperBound) -> TimeInterval {
    match (lo, up) {
        (LowerBound::NegInf, UpperBound::PosInf) => TimeInterval::Unbounded,
        (LowerBound::NegInf, UpperBound::Incl(u)) => TimeInterval::UnboundedClosedRight { upper: u },
        (LowerBound::Excl(l), UpperBound::PosInf) => TimeInterval::UnboundedOpenLeft { lower: l },
        (LowerBound::Incl(l), UpperBound::Incl(u)) => if l <= u {
            TimeInterval::Closed { lower: l, upper: u }
        } else {
            TimeInterval::Empty
        },
        (LowerBound::Excl(l), UpperBound::Incl(u)) => if l < u {
            TimeInterval::LeftOpen { lower: l, upper: u }
        } else {
            TimeInterval::Empty
        },
        (LowerBound::Incl(_), UpperBound::PosInf) => TimeInterval::Unbounded,
    }
}

impl TimeInterval {
    /// The canonical-form constraints on the edges.
    pub open spec fn wf(self) -> bool {
        match self {
            TimeInterval::Closed { lower, upper } => lower <= upper,
            TimeInterval::LeftOpen { lower, upper } => lower < upper,
            _ => true,
        }
    }

    /// Whether the instant `t` lies in the interval.
    pub open spec fn contains(self, t: int) -> bool {
        match self {
            TimeInterval::Empty => false,
            TimeInterval::Closed { lower, upper } => lower <= t <= upper,
            TimeInterval::LeftOpen { lower, upper } => lower < t <= upper,
            TimeInterval::UnboundedClosedRight { upper } => t <= upper,
            TimeInterval::UnboundedOpenLeft { lower } => lower < t,
            TimeInterval::Unbounded => true,
        }
    }

    pub open spec fn lower(self) -> LowerBound {
        match self {
            TimeInterval::Closed { lower, .. } => LowerBound::Incl(lower),
            TimeInterval::LeftOpen { lower, .. } => LowerBound::Excl(lower),
            TimeInterval::UnboundedOpenLeft { lower } => LowerBound::Excl(lower),
            _ => LowerBound::NegInf,
        }
    }

    pub open spec fn upper(self) -> UpperBound {
        match self {
            TimeInterval::Closed { upper, .. } => UpperBound::Incl(upper),
            TimeInterval::LeftOpen { upper, .. } => UpperBound::Incl(upper),
            TimeInterval::UnboundedClosedRight { upper } => UpperBound::Incl(upper),
            _ => UpperBound::PosInf,
        }
    }

    pub open spec fn spec_intersect(self, other: TimeInterval) -> TimeInterval {
        if self is Empty || other is Empty {
            TimeInterval::Empty
        } else {
            from_bounds(max_lower(self.lower(), other.lower()), min_upper(self.upper(), other.upper()))
        }
    }

    /// Everything strictly to the right of the right edge.
    pub open spec fn spec_right_complement(self) -> TimeInterval {
        match self {
            TimeInterval::Empty => TimeInterval::Unbounded,
            TimeInterval::Closed { upper, .. } => TimeInterval::UnboundedOpenLeft { lower: upper },
            TimeInterval::LeftOpen { upper, .. } => TimeInterval::UnboundedOpenLeft { lower: upper },
            TimeInterval::UnboundedClosedRight { upper } => TimeInterval::UnboundedOpenLeft {
                lower: upper,
            },
            _ => TimeInterval::Empty,
        }
    }

    pub proof fn lemma_bounds(self, t: int)
        requires
            self.wf(),
            !(self is Empty),
        ensures
            self.contains(t) <==> above_lower(self.lower(), t) && below_upper(self.upper(), t),
            !(self.lower() is Incl && self.upper() is PosInf),
    {
    }

    pub fn empty() -> (r: TimeInterval)
        ensures
            r == TimeInterval::Empty,
            forall|t: int| !r.contains(t),
    {
        TimeInterval::Empty
    }

    pub fn singleton(t: i64) -> (r: TimeInterval)
        ensures
            r == (TimeInterval::Closed { lower: t, upper: t }),
            r.wf(),
            forall|u: int| r.contains(u) <==> u == t,
    {
        TimeInterval::Closed { lower: t, upper: t }
    }

    /// `(-inf, upper]`
    pub fn unbounded_closed_right(upper: i64) -> (r: TimeInterval)
        ensures
            r == (TimeInterval::UnboundedClosedRight { upper }),
            forall|u: int| r.contains(u) <==> u <= upper,
    {
        TimeInterval::UnboundedClosedRight { upper }
    }

    /// `(lower, upper]`, or the empty interval when `upper <= lower`.
    pub fn left_half_open(lower: i64, upper: i64) -> (r: TimeInterval)
        ensures
            r.wf(),
            forall|u: int| r.contains(u) <==> lower < u <= upper,
    {
        if lower < upper {
            TimeInterval::LeftOpen { lower, upper }
        } else {
            TimeInterval::Empty
        }
    }

    pub fn is_empty(&self) -> (r: bool)
        ensures
            r == (self is Empty),
            self.wf() ==> (r <==> forall|t: int| !self.contains(t)),
    {
        match self {
            TimeInterval::Empty => true,
            TimeInterval::Closed { lower, upper } => {
                assert(self.wf() ==> self.contains(*upper as int));
                false
            },
            TimeInterval::LeftOpen { lower, upper } => {
                assert(self.wf() ==> self.contains(*upper as int));
                false
            },
            TimeInterval::UnboundedClosedRight { upper } => {
                assert(self.contains(*upper as int));
                false
            },
            TimeInterval::UnboundedOpenLeft { lower } => {
                assert(self.contains(*lower as int + 1));
                false
            },
            TimeInterval::Unbounded => {
                assert(self.contains(0));
                false
            },
        }
    }

    pub fn contains_point(&self, t: i64) -> (r: bool)
        ensures
            r == self.contains(t as int),
    {
        match self {
            TimeInterval::Empty => false,
            TimeInterval::Closed { lower, upper } => *lower <= t && t <= *upper,
            TimeInterval::LeftOpen { lower, upper } => *lower < t && t <= *upper,
            TimeInterval::UnboundedClosedRight { upper } => t <= *upper,
            TimeInterval::UnboundedOpenLeft { lower } => *lower < t,
            TimeInterval::Unbounded => true,
        }
    }

    fn lower_bound(&self) -> (r: LowerBound)
        ensures
            r == self.lower(),
    {
        match self {
            TimeInterval::Closed { lower, .. } => LowerBound::Incl(*lower),
            TimeInterval::LeftOpen { lower, .. } => LowerBound::Excl(*lower),
            TimeInterval::UnboundedOpenLeft { lower } => LowerBound::Excl(*lower),
            _ => LowerBound::NegInf,
        }
    }

    fn upper_bound(&self) -> (r: UpperBound)
        ensures
            r == self.upper(),
    {
        match self {
            TimeInterval::Closed { upper, .. } => UpperBound::Incl(*upper),
            TimeInterval::LeftOpen { upper, .. } => UpperBound::Incl(*upper),
            TimeInterval::UnboundedClosedRight { upper } => UpperBound::Incl(*upper),
            _ => UpperBound::PosInf,
        }
    }

    pub fn intersect(&self, other: &TimeInterval) -> (r: TimeInterval)
        ensures
            r == self.spec_intersect(*other),
            self.wf() && other.wf() ==> r.wf(),
            self.wf() && other.wf() ==> forall|t: int|
                r.contains(t) <==> self.contains(t) && other.contains(t),
    {
        proof {
            if self.wf() && other.wf() {
                lemma_intersect(*self, *other);
            }
        }
        match (self, other) {
            (TimeInterval::Empty, _) => TimeInterval::Empty,
            (_, TimeInterval::Empty) => TimeInterval::Empty,
            _ => {
                let lo = tighter_lower(self.lower_bound(), other.lower_bound());
                let up = tighter_upper(self.upper_bound(), other.upper_bound());
                interval_from_bounds(lo, up)
            },
        }
    }

    pub fn right_complement(&self) -> (r: TimeInterval)
        ensures
            r == self.spec_right_complement(),
            r.wf(),
            self.wf() ==> forall|t: int|
                r.contains(t) <==> (forall|u: int| self.contains(u) ==> u < t),
    {
        proof {
            if self.wf() {
                lemma_right_complement(*self);
            }
        }
        match self {
            TimeInterval::Empty => TimeInterval::Unbounded,
            TimeInterval::Closed { upper, .. } => TimeInterval::UnboundedOpenLeft { lower: *upper },
            TimeInterval::LeftOpen { upper, .. } => TimeInterval::UnboundedOpenLeft { lower: *upper },
            TimeInterval::UnboundedClosedRight { upper } => TimeInterval::UnboundedOpenLeft {
                lower: *upper,
            },
            _ => TimeInterval::Empty,
        }
    }
}

fn tighter_lower(a: LowerBound, b: LowerBound) -> (r: LowerBound)
    ensures
        r == max_lower(a, b),
{
    match (a, b) {
        (LowerBound::NegInf, _) => b,
        (_, LowerBound::NegInf) => a,
        (LowerBound::Incl(s), LowerBound::Incl(t)) => LowerBound::Incl(if s < t { t } else { s }),
        (LowerBound::Excl(s), LowerBound::Excl(t)) => LowerBound::Excl(if s < t { t } else { s }),
        (LowerBound::Incl(s), LowerBound::Excl(t)) => if s <= t {
            LowerBound::Excl(t)
        } else {
            LowerBound::Incl(s)
        },
        (LowerBound::Excl(s), LowerBound::Incl(t)) => if t <= s {
            LowerBound::Excl(s)
        } else {
            LowerBound::Incl(t)
        },
    }
}

fn tighter_upper(a: UpperBound, b: UpperBound) -> (r: UpperBound)
    ensures
        r == min_upper(a, b),
{
    match (a, b) {
        (UpperBound::PosInf, _) => b,
        (_, UpperBound::PosInf) => a,
        (UpperBound::Incl(s), UpperBound::Incl(t)) => UpperBound::Incl(if s < t { s } else { t }),
    }
}

fn interval_from_bounds(lo: LowerBound, up: UpperBound) -> (r: TimeInterval)
    ensures
        r == from_bounds(lo, up),
{
    match (lo, up) {
        (LowerBound::NegInf, UpperBound::PosInf) => TimeInterval::Unbounded,
        (LowerBound::NegInf, UpperBound::Incl(u)) => TimeInterval::UnboundedClosedRight { upper: u },
        (LowerBound::Excl(l), UpperBound::PosInf) => TimeInterval::UnboundedOpenLeft { lower: l },
        (LowerBound::Incl(l), UpperBound::Incl(u)) => if l <= u {
            TimeInterval::Closed { lower: l, upper: u }
        } else {
            TimeInterval::Empty
        },
        (LowerBound::Excl(l), UpperBound::Incl(u)) => if l < u {
            TimeInterval::LeftOpen { lower: l, upper: u }
        } else {
            TimeInterval::Empty
        },
        (LowerBound::Incl(_), UpperBound::PosInf) => TimeInterval::Unbounded,
    }
}

/// Intersection by edges is canonical and holds exactly the common instants.
pub proof fn lemma_intersect(a: TimeInterval, b: TimeInterval)
    requires
        a.wf(),
        b.wf(),
    ensures
        a.spec_intersect(b).wf(),
        forall|t: int| a.spec_intersect(b).contains(t) <==> a.contains(t) && b.contains(t),
{
    if !(a is Empty) && !(b is Empty) {
        assert forall|t: int| a.spec_intersect(b).contains(t) <==> a.contains(t) && b.contains(t) by {
            a.lemma_bounds(t);
            b.lemma_bounds(t);
        }
    }
}

/// The right complement is canonical and holds exactly the instants above
/// every instant of the interval.
pub proof fn lemma_right_complement(a: TimeInterval)
    requires
        a.wf(),
    ensures
        a.spec_right_complement().wf(),
        forall|t: int|
            a.spec_right_complement().contains(t) <==> (forall|u: int| a.contains(u) ==> u < t),
{
    assert forall|t: int|
        a.spec_right_complement().contains(t) <==> (forall|u: int| a.contains(u) ==> u < t) by {
        match a {
            TimeInterval::Closed { lower, upper } => {
                if !a.spec_right_complement().contains(t) {
                    assert(a.contains(upper as int));
                }
            },
            TimeInterval::LeftOpen { lower, upper } => {
                if !a.spec_right_complement().contains(t) {
                    assert(a.contains(upper as int));
                }
            },
            TimeInterval::UnboundedClosedRight { upper } => {
                if !a.spec_right_complement().contains(t) {
                    assert(a.contains(upper as int));
                }
            },
            TimeInterval::UnboundedOpenLeft { lower } => {
                let w = if t > lower { t } else { lower + 1 };
                assert(a.contains(w));
            },
            TimeInterval::Unbounded => {
                assert(a.contains(t));
            },
            TimeInterval::Empty => {},
        }
    }
}

/// An interval and its right complement share no instant: their intersection
/// is the empty interval.
pub proof fn lemma_right_complement_disjoint(x: TimeInterval)
    requires
        x.wf(),
    ensures
        x.spec_right_complement().spec_intersect(x) == TimeInterval::Empty,
{
}

/// Intersection does not depend on the order of its arguments.
pub proof fn lemma_intersect_commutes(a: TimeInterval, b: TimeInterval)
    ensures
        a.spec_intersect(b) == b.spec_intersect(a),
{
}

/// A singleton holds its own instant.
pub proof fn lemma_singleton_contains(t: i64)
    ensures
        (TimeInterval::Closed { lower: t, upper: t }).contains(t as int),
{
}

} // verus!
