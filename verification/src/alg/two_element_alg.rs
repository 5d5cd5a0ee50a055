//! The two-element Boolean algebra over plain truth values.

use crate::alg::{
    AdditiveGroup, BooleanAlgebra, BoundedPartialOrder, ClassicalDomain, DirectedGraph, Domain,
    Field, Lattice, Logic, Monoid, PartialOrder, Ring, Semigroup, UnitaryRing,
};
use vstd::prelude::*;

verus! {

/// The two-element boolean algebra, which is also a field and an ordered chain.
#[derive(Debug)]
pub struct TwoElementAlg();

impl Logic for TwoElementAlg {
    type Truth = bool;

    open spec fn holds(&self, truth: bool) -> bool {
        truth
    }
}

impl Domain for TwoElementAlg {
    type Elem = bool;

    type Logic = TwoElementAlg;

    open spec fn spec_logic(&self) -> TwoElementAlg {
        TwoElementAlg()
    }

    open spec fn has(&self, elem: bool) -> bool {
        true
    }

    fn logic(&self) -> (l: &TwoElementAlg) {
        self
    }

    fn contains(&self, _elem: &bool) -> (r: bool)
        ensures
            r,
    {
        true
    }

    fn equals(&self, elem0: &bool, elem1: &bool) -> (r: bool)
        ensures
            r == (*elem0 == *elem1),
    {
        *elem0 == *elem1
    }
}

impl ClassicalDomain for TwoElementAlg {

}

impl DirectedGraph for TwoElementAlg {
    open spec fn related(&self, elem0: bool, elem1: bool) -> bool {
        elem0 ==> elem1
    }

    fn edge(&self, elem0: &bool, elem1: &bool) -> (r: bool)
        ensures
            r == (*elem0 ==> *elem1),
    {
        !*elem0 || *elem1
    }
}

impl PartialOrder for TwoElementAlg {
    proof fn law_reflexive(&self, a: bool) {
    }

    proof fn law_antisymmetric(&self, a: bool, b: bool) {
    }

    proof fn law_transitive(&self, a: bool, b: bool, c: bool) {
    }
}

impl BoundedPartialOrder for TwoElementAlg {
    open spec fn spec_bot(&self) -> bool {
        false
    }

    open spec fn spec_top(&self) -> bool {
        true
    }

    fn bot(&self) -> (r: bool) {
        false
    }

    fn top(&self) -> (r: bool) {
        true
    }

    proof fn law_bounds(&self, a: bool) {
    }
}

impl Lattice for TwoElementAlg {
    open spec fn spec_meet(&self, elem0: bool, elem1: bool) -> bool {
        elem0 && elem1
    }

    open spec fn spec_join(&self, elem0: bool, elem1: bool) -> bool {
        elem0 || elem1
    }

    fn meet(&self, elem0: &bool, elem1: &bool) -> (r: bool) {
        *elem0 && *elem1
    }

    fn join(&self, elem0: &bool, elem1: &bool) -> (r: bool) {
        *elem0 || *elem1
    }

    proof fn law_idempotent(&self, a: bool) {
    }

    proof fn law_commutative(&self, a: bool, b: bool) {
    }

    proof fn law_associative(&self, a: bool, b: bool, c: bool) {
    }

    proof fn law_absorbing(&self, a: bool) {
    }

    proof fn law_order(&self, a: bool, b: bool) {
    }
}

impl BooleanAlgebra for TwoElementAlg {
    open spec fn spec_not(&self, elem: bool) -> bool {
        !elem
    }

    open spec fn spec_xor(&self, elem0: bool, elem1: bool) -> bool {
        elem0 != elem1
    }

    open spec fn spec_imp(&self, elem0: bool, elem1: bool) -> bool {
        elem0 ==> elem1
    }

    open spec fn spec_equ(&self, elem0: bool, elem1: bool) -> bool {
        elem0 == elem1
    }

    fn not(&self, elem: &bool) -> (r: bool) {
        !*elem
    }

    fn xor(&self, elem0: &bool, elem1: &bool) -> (r: bool) {
        *elem0 ^ *elem1
    }

    fn imp(&self, elem0: &bool, elem1: &bool) -> (r: bool) {
        !*elem0 || *elem1
    }

    fn equ(&self, elem0: &bool, elem1: &bool) -> (r: bool) {
        *elem0 == *elem1
    }

    proof fn law_involutive(&self, a: bool) {
    }

    proof fn law_complement(&self, a: bool) {
    }

    proof fn law_imp(&self, a: bool, b: bool) {
    }

    proof fn law_equ(&self, a: bool, b: bool) {
    }
}

impl AdditiveGroup for TwoElementAlg {
    open spec fn spec_zero(&self) -> bool {
        self.spec_bot()
    }

    open spec fn spec_neg(&self, elem: bool) -> bool {
        elem
    }

    open spec fn spec_add(&self, elem0: bool, elem1: bool) -> bool {
        self.spec_xor(elem0, elem1)
    }

    fn zero(&self) -> (r: bool) {
        self.bot()
    }

    fn neg(&self, elem: &bool) -> (r: bool) {
        *elem
    }

    fn add(&self, elem0: &bool, elem1: &bool) -> (r: bool) {
        self.xor(elem0, elem1)
    }

    proof fn law_add_associative(&self, a: bool, b: bool, c: bool) {
    }

    proof fn law_add_commutative(&self, a: bool, b: bool) {
    }

    proof fn law_add_zero(&self, a: bool) {
    }

    proof fn law_add_neg(&self, a: bool) {
    }
}

impl Semigroup for TwoElementAlg {
    open spec fn spec_mul(&self, elem0: bool, elem1: bool) -> bool {
        self.spec_meet(elem0, elem1)
    }

    fn mul(&self, elem0: &bool, elem1: &bool) -> (r: bool) {
        self.meet(elem0, elem1)
    }

    proof fn law_mul_associative(&self, a: bool, b: bool, c: bool) {
    }
}

impl Monoid for TwoElementAlg {
    open spec fn spec_unit(&self) -> bool {
        self.spec_top()
    }

    fn unit(&self) -> (r: bool) {
        self.top()
    }

    proof fn law_mul_unit(&self, a: bool) {
    }
}

impl Ring for TwoElementAlg {
    proof fn law_distributive(&self, a: bool, b: bool, c: bool) {
    }
}

impl UnitaryRing for TwoElementAlg {

}

impl Field for TwoElementAlg {
    open spec fn spec_inv(&self, elem: bool) -> bool {
        elem
    }

    fn inv(&self, elem: &bool) -> (r: bool) {
        *elem
    }

    proof fn law_mul_commutative(&self, a: bool, b: bool) {
    }

    proof fn law_mul_inv(&self, a: bool) {
    }
}

/// In the two-element algebra every member is its own additive inverse: a
/// member added to itself is zero.
pub proof fn lemma_add_self(alg: &TwoElementAlg, x: bool)
    ensures
        alg.spec_add(x, x) == alg.spec_zero(),
        alg.spec_zero() == false,
{
}

/// In the two-element algebra every member other than zero is its own
/// multiplicative inverse.
pub proof fn lemma_self_inverse(alg: &TwoElementAlg, x: bool)
    requires
        x != alg.spec_zero(),
    ensures
        alg.spec_inv(x) == x,
        alg.spec_mul(x, x) == alg.spec_unit(),
{
}

/// In the two-element algebra the least member is `false`, the greatest is
/// `true`, meet is conjunction and join is disjunction.
pub proof fn lemma_bounded_lattice(alg: &TwoElementAlg, x: bool, y: bool)
    ensures
        alg.spec_bot() == false,
        alg.spec_top() == true,
        alg.spec_meet(x, y) == (x && y),
        alg.spec_join(x, y) == (x || y),
        alg.related(x, y) == (x ==> y),
{
}

} // verus!
