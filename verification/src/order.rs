//! Equality and order of sets: those of the underlying storage.
//!
//! Two sets are equal when their storage holds the same bits, so two sets
//! with the same members and storage of different lengths differ. The order
//! is the lexicographic one over the bits, where an unset bit comes before a
//! set one and a pattern comes before every longer pattern that it starts.

use crate::engine;
use crate::set::BitSet;
use std::cmp::Ordering;
use vstd::prelude::*;
use vstd::std_specs::cmp::{PartialEqSpecImpl, PartialOrdSpecImpl};

verus! {

/// How `left` stands to `right` in the lexicographic order over bits.
pub open spec fn lex_order(left: Seq<bool>, right: Seq<bool>) -> Ordering
    decreases left.len(),
{
    if left.len() == 0 && right.len() == 0 {
        Ordering::Equal
    } else if left.len() == 0 {
        Ordering::Less
    } else if right.len() == 0 {
        Ordering::Greater
    } else if left[0] == right[0] {
        lex_order(left.drop_first(), right.drop_first())
    } else if right[0] {
        Ordering::Less
    } else {
        Ordering::Greater
    }
}

impl<T> PartialEq for BitSet<T> {
    fn eq(&self, other: &Self) -> (r: bool) {
        engine::same(self.get_ref(), other.get_ref())
    }
}

impl<T> PartialEqSpecImpl for BitSet<T> {
    open spec fn obeys_eq_spec() -> bool {
        true
    }

    open spec fn eq_spec(&self, other: &Self) -> bool {
        self.bits() == other.bits()
    }
}

impl<T> Eq for BitSet<T> {

}

impl<T> PartialOrd for BitSet<T> {
    fn partial_cmp(&self, other: &Self) -> (r: Option<Ordering>) {
        Some(engine::order(self.get_ref(), other.get_ref()))
    }
}

impl<T> PartialOrdSpecImpl for BitSet<T> {
    open spec fn obeys_partial_cmp_spec() -> bool {
        true
    }

    open spec fn partial_cmp_spec(&self, other: &Self) -> Option<Ordering> {
        Some(lex_order(self.bits(), other.bits()))
    }
}

/// Two patterns compare as equal exactly when they are the same pattern,
/// so the order of sets agrees with their equality.
pub proof fn law_order_equal(left: Seq<bool>, right: Seq<bool>)
    ensures
        lex_order(left, right) == Ordering::Equal <==> left == right,
    decreases left.len(),
{
    if left.len() > 0 && right.len() > 0 && left[0] == right[0] {
        law_order_equal(left.drop_first(), right.drop_first());
        if left.drop_first() == right.drop_first() {
            assert(left.len() == right.len()) by {
                assert(left.drop_first().len() == right.drop_first().len());
            }
            assert forall|i: int| 0 <= i < left.len() implies left[i] == right[i] by {
                if i > 0 {
                    assert(left[i] == left.drop_first()[i - 1]);
                    assert(right[i] == right.drop_first()[i - 1]);
                }
            }
            assert(left =~= right);
        }
    } else if left.len() == 0 && right.len() == 0 {
        assert(left =~= right);
    }
}

/// One pattern comes before another exactly when the other comes after it.
pub proof fn law_order_mirrored(left: Seq<bool>, right: Seq<bool>)
    ensures
        lex_order(left, right) == Ordering::Less <==> lex_order(right, left) == Ordering::Greater,
        lex_order(left, right) == Ordering::Equal <==> lex_order(right, left) == Ordering::Equal,
    decreases left.len(),
{
    if left.len() > 0 && right.len() > 0 && left[0] == right[0] {
        law_order_mirrored(left.drop_first(), right.drop_first());
    }
}

/// What comes before a pattern that comes before a third comes before the
/// third.
pub proof fn law_order_transitive(first: Seq<bool>, second: Seq<bool>, third: Seq<bool>)
    requires
        lex_order(first, second) == Ordering::Less,
        lex_order(second, third) == Ordering::Less,
    ensures
        lex_order(first, third) == Ordering::Less,
    decreases first.len(),
{
    if first.len() > 0 && second.len() > 0 && third.len() > 0 {
        if first[0] == second[0] && second[0] == third[0] {
            law_order_transitive(first.drop_first(), second.drop_first(), third.drop_first());
        }
    }
}

} // verus!
