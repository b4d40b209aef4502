//! Focus levels and their total order.
//!
//! A `FocusLevel` says whether and how an element takes part in sequential
//! focus navigation. The order is deliberately not the plain numeric tab-index
//! order: every `Ordered` level ranks above plain `Focusable`, whatever its
//! index, and `Ordered` levels rank among themselves by index.

use vstd::prelude::*;

verus! {

/// How an element takes part in sequential (tab) focus navigation.
///
/// `Ordered(n)` carries a tab index; a well-formed level has `n >= 1`
/// (index zero classifies as plain `Focusable` instead).
#[derive(Clone, Copy, PartialEq, Eq, Structural, Debug)]
pub enum FocusLevel {
    Unfocusable,
    Focusable,
    Ordered(u16),
}

impl Default for FocusLevel {
    fn default() -> (r: Self)
        ensures
            r == FocusLevel::Unfocusable,
    {
        FocusLevel::Unfocusable
    }
}

impl FocusLevel {
    /// A well-formed `Ordered` level carries a positive index.
    pub open spec fn wf(self) -> bool {
        match self {
            FocusLevel::Ordered(n) => n >= 1,
            _ => true,
        }
    }

    pub open spec fn spec_focusable(&self) -> bool {
        match *self {
            FocusLevel::Unfocusable => false,
            FocusLevel::Focusable => true,
            FocusLevel::Ordered(_) => true,
        }
    }

    /// Whether an element at this level can receive focus through navigation.
    #[verifier::when_used_as_spec(spec_focusable)]
    pub fn focusable(&self) -> (r: bool)
        ensures
            r == self.spec_focusable(),
    {
        match self {
            FocusLevel::Unfocusable => false,
            FocusLevel::Focusable => true,
            FocusLevel::Ordered(_) => true,
        }
    }

    /// The strict total order on levels:
    /// `Unfocusable < Focusable < Ordered(a) < Ordered(b)` whenever `a < b`.
    pub open spec fn spec_lt(self, other: Self) -> bool {
        match (self, other) {
            (FocusLevel::Unfocusable, FocusLevel::Unfocusable) => false,
            (FocusLevel::Unfocusable, _) => true,
            (FocusLevel::Focusable, FocusLevel::Ordered(_)) => true,
            (FocusLevel::Ordered(a), FocusLevel::Ordered(b)) => a < b,
            _ => false,
        }
    }

    pub open spec fn spec_le(self, other: Self) -> bool {
        self == other || self.spec_lt(other)
    }
}

/// The `FocusLevel` order is a strict total order: irreflexive, asymmetric,
/// transitive and total. In particular every `Ordered` level, whatever its
/// index, ranks strictly above plain `Focusable`.
pub proof fn lemma_level_order_strict_total()
    ensures
        forall|x: FocusLevel| !x.spec_lt(x),
        forall|x: FocusLevel, y: FocusLevel| x.spec_lt(y) ==> !y.spec_lt(x),
        forall|x: FocusLevel, y: FocusLevel, z: FocusLevel|
            x.spec_lt(y) && y.spec_lt(z) ==> x.spec_lt(z),
        forall|x: FocusLevel, y: FocusLevel| x.spec_lt(y) || y.spec_lt(x) || x == y,
        FocusLevel::Focusable.spec_lt(FocusLevel::Ordered(1)),
        FocusLevel::Focusable.spec_lt(FocusLevel::Ordered(65535)),
{
}

impl PartialOrd for FocusLevel {
    fn partial_cmp(&self, other: &Self) -> (r: Option<core::cmp::Ordering>) {
        match (self, other) {
            (FocusLevel::Unfocusable, FocusLevel::Unfocusable) => {
                Some(core::cmp::Ordering::Equal)
            },
            (FocusLevel::Unfocusable, FocusLevel::Focusable) => Some(core::cmp::Ordering::Less),
            (FocusLevel::Unfocusable, FocusLevel::Ordered(_)) => Some(core::cmp::Ordering::Less),
            (FocusLevel::Focusable, FocusLevel::Unfocusable) => Some(core::cmp::Ordering::Greater),
            (FocusLevel::Focusable, FocusLevel::Focusable) => Some(core::cmp::Ordering::Equal),
            (FocusLevel::Focusable, FocusLevel::Ordered(_)) => Some(core::cmp::Ordering::Less),
            (FocusLevel::Ordered(_), FocusLevel::Unfocusable) => Some(core::cmp::Ordering::Greater),
            (FocusLevel::Ordered(_), FocusLevel::Focusable) => Some(core::cmp::Ordering::Greater),
            (FocusLevel::Ordered(a), FocusLevel::Ordered(b)) => {
                if a < b {
                    Some(core::cmp::Ordering::Less)
                } else if a == b {
                    Some(core::cmp::Ordering::Equal)
                } else {
                    Some(core::cmp::Ordering::Greater)
                }
            },
        }
    }
}

impl vstd::std_specs::cmp::PartialOrdSpecImpl for FocusLevel {
    open spec fn obeys_partial_cmp_spec() -> bool {
        true
    }

    open spec fn partial_cmp_spec(&self, other: &Self) -> Option<core::cmp::Ordering> {
        if self.spec_lt(*other) {
            Some(core::cmp::Ordering::Less)
        } else if *self == *other {
            Some(core::cmp::Ordering::Equal)
        } else {
            Some(core::cmp::Ordering::Greater)
        }
    }
}

} // verus!
