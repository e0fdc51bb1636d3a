//! The order of slopes: by angle, and among slopes of one angle by their
//! denominator, so that no two different slopes count as equal.

use core::cmp::Ordering;
use vstd::prelude::*;
use vstd::std_specs::cmp::PartialOrdSpecImpl;
use crate::slope::{lemma_slopes_compare, Ratio, Slope};

verus! {

/// How two fractions stand to each other: the greater angle is greater;
/// of two spellings of one angle, the one over the greater denominator.
pub open spec fn ratio_order(a: Ratio, b: Ratio) -> Ordering {
    if a.above(b.num, b.den) {
        Ordering::Greater
    } else if a.below(b.num, b.den) {
        Ordering::Less
    } else if a.den > b.den {
        Ordering::Greater
    } else if a.den < b.den {
        Ordering::Less
    } else if a.num > b.num {
        Ordering::Greater
    } else if a.num < b.num {
        Ordering::Less
    } else {
        Ordering::Equal
    }
}

impl PartialOrd for Slope {
    fn partial_cmp(&self, other: &Slope) -> (order: Option<Ordering>) {
        if self.greater(other.y, other.x) {
            Some(Ordering::Greater)
        } else if self.less(other.y, other.x) {
            Some(Ordering::Less)
        } else if self.x > other.x {
            Some(Ordering::Greater)
        } else if self.x < other.x {
            Some(Ordering::Less)
        } else if self.y > other.y {
            Some(Ordering::Greater)
        } else if self.y < other.y {
            Some(Ordering::Less)
        } else {
            Some(Ordering::Equal)
        }
    }
}

impl PartialOrdSpecImpl for Slope {
    open spec fn obeys_partial_cmp_spec() -> bool {
        true
    }

    open spec fn partial_cmp_spec(&self, other: &Slope) -> Option<Ordering> {
        Some(ratio_order(self@, other@))
    }
}

/// Any two slopes are ordered, and only a slope and itself count as equal.
pub proof fn lemma_order_is_total(a: Ratio, b: Ratio)
    ensures
        (ratio_order(a, b) == Ordering::Equal) == (a == b),
        (ratio_order(a, b) == Ordering::Less) == (ratio_order(b, a) == Ordering::Greater),
        (ratio_order(a, b) == Ordering::Greater) == (ratio_order(b, a) == Ordering::Less),
{
    assert(a.num * b.den == b.den * a.num && a.den * b.num == b.num * a.den)
        by (nonlinear_arith);
}

/// Over positive denominators the order carries over from slope to slope.
pub proof fn lemma_order_is_transitive(a: Ratio, b: Ratio, c: Ratio)
    requires
        a.den > 0,
        b.den > 0,
        c.den > 0,
        ratio_order(a, b) == Ordering::Less,
        ratio_order(b, c) == Ordering::Less,
    ensures
        ratio_order(a, c) == Ordering::Less,
{
    lemma_slopes_compare(a, b);
    lemma_slopes_compare(b, c);
    lemma_slopes_compare(a, c);
    if a.below(b.num, b.den) || b.below(c.num, c.den) {
        assert(a.num * c.den < a.den * c.num) by (nonlinear_arith)
            requires
                a.den > 0,
                b.den > 0,
                c.den > 0,
                a.num * b.den <= a.den * b.num,
                b.num * c.den <= b.den * c.num,
                a.num * b.den < a.den * b.num || b.num * c.den < b.den * c.num,
        ;
    } else {
        // All three are one angle, spelled over growing denominators.
        assert(a.num * c.den == a.den * c.num) by (nonlinear_arith)
            requires
                a.num * b.den == a.den * b.num,
                b.num * c.den == b.den * c.num,
                b.den > 0,
        ;
        assert(a.den == c.den ==> a.num == c.num) by (nonlinear_arith)
            requires
                a.num * c.den == a.den * c.num,
                c.den > 0,
        ;
    }
}

} // verus!
