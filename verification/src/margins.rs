//! Collapsing of adjoining block margins.
//!
//! Adjoining margins collapse into one: the largest positive margin among
//! them plus the most negative one. A `CollapsedMargin` keeps both, so that
//! more margins can adjoin later, and `solve` gives the resulting length.
use vstd::prelude::*;

use crate::geom::{fits, int_max, int_min, Length, Sides};

verus! {

/// The model of a collapsed margin.
pub struct MarginView {
    pub max_positive: int,
    pub min_negative: int,
}

impl MarginView {
    pub open spec fn zero() -> MarginView {
        MarginView { max_positive: 0, min_negative: 0 }
    }

    /// The collapsed margin made of a single margin.
    pub open spec fn from_margin(margin: int) -> MarginView {
        MarginView { max_positive: int_max(margin, 0), min_negative: int_min(margin, 0) }
    }

    /// The collapsed margin of two adjoining collapsed margins.
    pub open spec fn adjoin(self, other: MarginView) -> MarginView {
        MarginView {
            max_positive: int_max(self.max_positive, other.max_positive),
            min_negative: int_min(self.min_negative, other.min_negative),
        }
    }

    /// The length that the collapsed margin resolves to.
    pub open spec fn solve(self) -> int {
        self.max_positive + self.min_negative
    }

    /// What every collapsed margin satisfies.
    pub open spec fn is_valid(self) -> bool {
        &&& 0 <= self.max_positive
        &&& self.min_negative <= 0
        &&& fits(self.max_positive)
        &&& fits(self.min_negative)
    }
}

/// The collapsed margin of a sequence of adjoining margins.
pub open spec fn collapse(margins: Seq<int>) -> MarginView
    decreases margins.len(),
{
    if margins.len() == 0 {
        MarginView::zero()
    } else {
        collapse(margins.drop_last()).adjoin(MarginView::from_margin(margins.last()))
    }
}

/// A margin, or several adjoining margins collapsed into one.
#[derive(Clone, Copy, Debug)]
pub struct CollapsedMargin {
    max_positive: Length,
    min_negative: Length,
}

impl View for CollapsedMargin {
    type V = MarginView;

    closed spec fn view(&self) -> MarginView {
        MarginView { max_positive: self.max_positive@, min_negative: self.min_negative@ }
    }
}

impl CollapsedMargin {
    #[verifier::type_invariant]
    closed spec fn inv(self) -> bool {
        self.max_positive@ >= 0 && self.min_negative@ <= 0
    }

    pub fn zero() -> (r: CollapsedMargin)
        ensures
            r@ == MarginView::zero(),
            r@.is_valid(),
    {
        CollapsedMargin { max_positive: Length::zero(), min_negative: Length::zero() }
    }

    /// The collapsed margin made of the single margin `margin`.
    pub fn new(margin: Length) -> (r: CollapsedMargin)
        ensures
            r@ == MarginView::from_margin(margin@),
            r@.is_valid(),
    {
        CollapsedMargin {
            max_positive: margin.max(Length::zero()),
            min_negative: margin.min(Length::zero()),
        }
    }

    /// The collapsed margin of this margin and an adjoining one.
    pub fn adjoin(&self, other: &CollapsedMargin) -> (r: CollapsedMargin)
        ensures
            r@ == self@.adjoin(other@),
            r@.is_valid(),
            self@.is_valid(),
            other@.is_valid(),
    {
        proof {
            use_type_invariant(self);
            use_type_invariant(other);
        }
        CollapsedMargin {
            max_positive: self.max_positive.max(other.max_positive),
            min_negative: self.min_negative.min(other.min_negative),
        }
    }

    /// Collapses an adjoining margin into this one.
    pub fn adjoin_assign(&mut self, other: &CollapsedMargin)
        ensures
            final(self)@ == old(self)@.adjoin(other@),
            final(self)@.is_valid(),
    {
        *self = self.adjoin(other);
    }

    /// The length that this collapsed margin resolves to.
    pub fn solve(&self) -> (r: Length)
        ensures
            r@ == self@.solve(),
            self@.is_valid(),
    {
        proof {
            use_type_invariant(self);
        }
        self.max_positive.plus(self.min_negative)
    }
}

/// The collapsed margins at the start and at the end of a block.
#[derive(Debug)]
pub struct CollapsedBlockMargins {
    pub collapsed_through: bool,
    pub start: CollapsedMargin,
    pub end: CollapsedMargin,
}

impl CollapsedBlockMargins {
    /// The block's own margins, not collapsed with anything.
    pub fn from_margin(margin: &Sides) -> (r: CollapsedBlockMargins)
        ensures
            !r.collapsed_through,
            r.start@ == MarginView::from_margin(margin.block_start@),
            r.end@ == MarginView::from_margin(margin.block_end@),
    {
        CollapsedBlockMargins {
            collapsed_through: false,
            start: CollapsedMargin::new(margin.block_start),
            end: CollapsedMargin::new(margin.block_end),
        }
    }

    pub fn zero() -> (r: CollapsedBlockMargins)
        ensures
            !r.collapsed_through,
            r.start@ == MarginView::zero(),
            r.end@ == MarginView::zero(),
    {
        CollapsedBlockMargins {
            collapsed_through: false,
            start: CollapsedMargin::zero(),
            end: CollapsedMargin::zero(),
        }
    }
}

// ---------------------------------------------------------------------------
// Laws of margin collapsing.
/// The order of two adjoining margins does not matter.
pub proof fn lemma_adjoin_commutative(a: MarginView, b: MarginView)
    ensures
        a.adjoin(b) == b.adjoin(a),
{
}

/// Collapsing three margins gives the same result however they are grouped.
pub proof fn lemma_adjoin_associative(a: MarginView, b: MarginView, c: MarginView)
    ensures
        a.adjoin(b).adjoin(c) == a.adjoin(b.adjoin(c)),
{
}

/// A collapsed margin adjoining itself is unchanged.
pub proof fn lemma_adjoin_idempotent(a: MarginView)
    ensures
        a.adjoin(a) == a,
{
}

/// The zero margin is neutral: adjoining it to a collapsed margin, on either
/// side, changes nothing.
pub proof fn lemma_adjoin_zero(a: MarginView)
    requires
        a.is_valid(),
    ensures
        a.adjoin(MarginView::zero()) == a,
        MarginView::zero().adjoin(a) == a,
{
}

/// Adjoining keeps a collapsed margin valid.
pub proof fn lemma_adjoin_valid(a: MarginView, b: MarginView)
    requires
        a.is_valid(),
        b.is_valid(),
    ensures
        a.adjoin(b).is_valid(),
{
}

/// A single margin, not collapsed with anything, resolves to itself.
pub proof fn lemma_solve_single(margin: int)
    ensures
        MarginView::from_margin(margin).solve() == margin,
{
}

/// Any number of adjoining margins collapse to the largest positive one (or
/// zero where none is positive) plus the most negative one (or zero where none
/// is negative).
pub proof fn lemma_collapse(margins: Seq<int>)
    ensures
        ({
            let c = collapse(margins);
            &&& c.max_positive >= 0
            &&& forall|i: int| 0 <= i < margins.len() ==> c.max_positive >= #[trigger] margins[i]
            &&& c.max_positive == 0 || exists|i: int|
                0 <= i < margins.len() && margins[i] == c.max_positive
            &&& c.min_negative <= 0
            &&& forall|i: int| 0 <= i < margins.len() ==> c.min_negative <= #[trigger] margins[i]
            &&& c.min_negative == 0 || exists|i: int|
                0 <= i < margins.len() && margins[i] == c.min_negative
            &&& c.solve() == c.max_positive + c.min_negative
        }),
    decreases margins.len(),
{
    if margins.len() > 0 {
        let init = margins.drop_last();
        lemma_collapse(init);
        let c0 = collapse(init);
        let c = collapse(margins);
        assert forall|i: int| 0 <= i < margins.len() implies c.max_positive >= #[trigger] margins[i]
            && c.min_negative <= margins[i] by {
            if i < margins.len() - 1 {
                assert(margins[i] == init[i]);
            }
        }
        if c.max_positive != 0 {
            if c.max_positive == c0.max_positive {
                let j = choose|j: int| 0 <= j < init.len() && init[j] == c0.max_positive;
                assert(margins[j] == init[j]);
            } else {
                assert(margins[margins.len() - 1] == c.max_positive);
            }
        }
        if c.min_negative != 0 {
            if c.min_negative == c0.min_negative {
                let j = choose|j: int| 0 <= j < init.len() && init[j] == c0.min_negative;
                assert(margins[j] == init[j]);
            } else {
                assert(margins[margins.len() - 1] == c.min_negative);
            }
        }
    }
}

} // verus!
