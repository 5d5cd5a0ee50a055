//! The hierarchy of algebraic structures: each level adds operations and
//! laws to the levels that it builds on.

use vstd::prelude::*;

pub mod two_element_alg;

verus! {

/// A source of truth values: its elements say whether something holds.
pub trait Logic {
    type Truth;

    /// Whether the element says that the statement holds.
    spec fn holds(&self, truth: Self::Truth) -> bool;
}

/// A set of elements with an equality, whose statements about its elements
/// are elements of a logic.
pub trait Domain {
    type Elem;

    type Logic: Logic;

    /// The logic of the domain.
    spec fn spec_logic(&self) -> Self::Logic;

    /// Membership of an element in the domain.
    spec fn has(&self, elem: Self::Elem) -> bool;

    /// The logic in which the domain states what holds of its elements.
    fn logic(&self) -> (l: &Self::Logic)
        ensures
            *l == self.spec_logic(),
    ;

    /// Whether the element is a member of the domain.
    fn contains(&self, elem: &Self::Elem) -> (r: <Self::Logic as Logic>::Truth)
        ensures
            self.spec_logic().holds(r) == self.has(*elem),
    ;

    /// Whether the two members are equal.
    fn equals(&self, elem0: &Self::Elem, elem1: &Self::Elem) -> (r: <Self::Logic as Logic>::Truth)
        requires
            self.has(*elem0),
            self.has(*elem1),
        ensures
            self.spec_logic().holds(r) == (*elem0 == *elem1),
    ;
}

/// A domain whose logic is the classical two-valued one.
pub trait ClassicalDomain: Domain<Logic = two_element_alg::TwoElementAlg> {

}

/// A domain with a binary relation on its members.
pub trait DirectedGraph: Domain {
    /// Whether there is an edge from the first member to the second.
    spec fn related(&self, elem0: Self::Elem, elem1: Self::Elem) -> bool;

    /// Whether there is an edge from the first member to the second.
    fn edge(&self, elem0: &Self::Elem, elem1: &Self::Elem) -> (r: <Self::Logic as Logic>::Truth)
        requires
            self.has(*elem0),
            self.has(*elem1),
        ensures
            self.spec_logic().holds(r) == self.related(*elem0, *elem1),
    ;
}

/// A directed graph whose relation is reflexive, antisymmetric and
/// transitive.
pub trait PartialOrder: DirectedGraph {
    proof fn law_reflexive(&self, a: Self::Elem)
        requires
            self.has(a),
        ensures
            self.related(a, a),
    ;

    proof fn law_antisymmetric(&self, a: Self::Elem, b: Self::Elem)
        requires
            self.has(a),
            self.has(b),
            self.related(a, b),
            self.related(b, a),
        ensures
            a == b,
    ;

    proof fn law_transitive(&self, a: Self::Elem, b: Self::Elem, c: Self::Elem)
        requires
            self.has(a),
            self.has(b),
            self.has(c),
            self.related(a, b),
            self.related(b, c),
        ensures
            self.related(a, c),
    ;
}

/// A partial order with a least and a greatest member.
pub trait BoundedPartialOrder: PartialOrder {
    /// The least member.
    spec fn spec_bot(&self) -> Self::Elem;

    /// The greatest member.
    spec fn spec_top(&self) -> Self::Elem;

    /// The least member.
    fn bot(&self) -> (r: Self::Elem)
        ensures
            r == self.spec_bot(),
            self.has(r),
    ;

    /// The greatest member.
    fn top(&self) -> (r: Self::Elem)
        ensures
            r == self.spec_top(),
            self.has(r),
    ;

    proof fn law_bounds(&self, a: Self::Elem)
        requires
            self.has(a),
        ensures
            self.related(self.spec_bot(), a),
            self.related(a, self.spec_top()),
    ;
}

/// A bounded partial order in which any two members have a greatest lower
/// bound and a least upper bound.
pub trait Lattice: BoundedPartialOrder {
    /// The greatest lower bound.
    spec fn spec_meet(&self, elem0: Self::Elem, elem1: Self::Elem) -> Self::Elem;

    /// The least upper bound.
    spec fn spec_join(&self, elem0: Self::Elem, elem1: Self::Elem) -> Self::Elem;

    /// The greatest lower bound of two members.
    fn meet(&self, elem0: &Self::Elem, elem1: &Self::Elem) -> (r: Self::Elem)
        requires
            self.has(*elem0),
            self.has(*elem1),
        ensures
            r == self.spec_meet(*elem0, *elem1),
            self.has(r),
    ;

    /// The least upper bound of two members.
    fn join(&self, elem0: &Self::Elem, elem1: &Self::Elem) -> (r: Self::Elem)
        requires
            self.has(*elem0),
            self.has(*elem1),
        ensures
            r == self.spec_join(*elem0, *elem1),
            self.has(r),
    ;

    proof fn law_idempotent(&self, a: Self::Elem)
        requires
            self.has(a),
        ensures
            self.spec_meet(a, a) == a,
            self.spec_join(a, a) == a,
    ;

    proof fn law_commutative(&self, a: Self::Elem, b: Self::Elem)
        requires
            self.has(a),
            self.has(b),
        ensures
            self.spec_meet(a, b) == self.spec_meet(b, a),
            self.spec_join(a, b) == self.spec_join(b, a),
    ;

    proof fn law_associative(&self, a: Self::Elem, b: Self::Elem, c: Self::Elem)
        requires
            self.has(a),
            self.has(b),
            self.has(c),
        ensures
            self.spec_meet(self.spec_meet(a, b), c) == self.spec_meet(a, self.spec_meet(b, c)),
            self.spec_join(self.spec_join(a, b), c) == self.spec_join(a, self.spec_join(b, c)),
    ;

    /// The bounds absorb and are neutral.
    proof fn law_absorbing(&self, a: Self::Elem)
        requires
            self.has(a),
        ensures
            self.spec_meet(a, self.spec_bot()) == self.spec_bot(),
            self.spec_join(a, self.spec_top()) == self.spec_top(),
            self.spec_meet(a, self.spec_top()) == a,
            self.spec_join(a, self.spec_bot()) == a,
    ;

    /// The order is the one that meet and join induce.
    proof fn law_order(&self, a: Self::Elem, b: Self::Elem)
        requires
            self.has(a),
            self.has(b),
        ensures
            self.related(a, b) == (self.spec_meet(a, b) == a),
            self.related(a, b) == (self.spec_join(a, b) == b),
    ;
}

/// A lattice with complements.
pub trait BooleanAlgebra: Lattice {
    /// The complement.
    spec fn spec_not(&self, elem: Self::Elem) -> Self::Elem;

    /// The symmetric difference.
    spec fn spec_xor(&self, elem0: Self::Elem, elem1: Self::Elem) -> Self::Elem;

    /// The implication.
    spec fn spec_imp(&self, elem0: Self::Elem, elem1: Self::Elem) -> Self::Elem;

    /// The equivalence.
    spec fn spec_equ(&self, elem0: Self::Elem, elem1: Self::Elem) -> Self::Elem;

    /// The complement of a member.
    fn not(&self, elem: &Self::Elem) -> (r: Self::Elem)
        requires
            self.has(*elem),
        ensures
            r == self.spec_not(*elem),
            self.has(r),
    ;

    /// The symmetric difference of two members.
    fn xor(&self, elem0: &Self::Elem, elem1: &Self::Elem) -> (r: Self::Elem)
        requires
            self.has(*elem0),
            self.has(*elem1),
        ensures
            r == self.spec_xor(*elem0, *elem1),
            self.has(r),
    ;

    /// The implication from the first member to the second.
    fn imp(&self, elem0: &Self::Elem, elem1: &Self::Elem) -> (r: Self::Elem)
        requires
            self.has(*elem0),
            self.has(*elem1),
        ensures
            r == self.spec_imp(*elem0, *elem1),
            self.has(r),
    ;

    /// The equivalence of two members.
    fn equ(&self, elem0: &Self::Elem, elem1: &Self::Elem) -> (r: Self::Elem)
        requires
            self.has(*elem0),
            self.has(*elem1),
        ensures
            r == self.spec_equ(*elem0, *elem1),
            self.has(r),
    ;

    proof fn law_involutive(&self, a: Self::Elem)
        requires
            self.has(a),
        ensures
            self.spec_not(self.spec_not(a)) == a,
    ;

    proof fn law_complement(&self, a: Self::Elem)
        requires
            self.has(a),
        ensures
            self.spec_meet(a, self.spec_not(a)) == self.spec_bot(),
            self.spec_join(a, self.spec_not(a)) == self.spec_top(),
    ;

    /// The implication is the greatest member exactly where the order holds.
    proof fn law_imp(&self, a: Self::Elem, b: Self::Elem)
        requires
            self.has(a),
            self.has(b),
        ensures
            (self.spec_imp(a, b) == self.spec_top()) == self.related(a, b),
    ;

    /// The equivalence is the greatest member exactly on equal members, and
    /// the symmetric difference is its complement.
    proof fn law_equ(&self, a: Self::Elem, b: Self::Elem)
        requires
            self.has(a),
            self.has(b),
        ensures
            (self.spec_equ(a, b) == self.spec_top()) == (a == b),
            self.spec_xor(a, b) == self.spec_not(self.spec_equ(a, b)),
    ;
}

/// A domain with a commutative addition that has a neutral member and
/// inverses.
pub trait AdditiveGroup: Domain {
    /// The neutral member of addition.
    spec fn spec_zero(&self) -> Self::Elem;

    /// The additive inverse.
    spec fn spec_neg(&self, elem: Self::Elem) -> Self::Elem;

    /// The sum.
    spec fn spec_add(&self, elem0: Self::Elem, elem1: Self::Elem) -> Self::Elem;

    /// The neutral member of addition.
    fn zero(&self) -> (r: Self::Elem)
        ensures
            r == self.spec_zero(),
            self.has(r),
    ;

    /// The additive inverse of a member.
    fn neg(&self, elem: &Self::Elem) -> (r: Self::Elem)
        requires
            self.has(*elem),
        ensures
            r == self.spec_neg(*elem),
            self.has(r),
    ;

    /// The sum of two members.
    fn add(&self, elem0: &Self::Elem, elem1: &Self::Elem) -> (r: Self::Elem)
        requires
            self.has(*elem0),
            self.has(*elem1),
        ensures
            r == self.spec_add(*elem0, *elem1),
            self.has(r),
    ;

    proof fn law_add_associative(&self, a: Self::Elem, b: Self::Elem, c: Self::Elem)
        requires
            self.has(a),
            self.has(b),
            self.has(c),
        ensures
            self.spec_add(self.spec_add(a, b), c) == self.spec_add(a, self.spec_add(b, c)),
    ;

    proof fn law_add_commutative(&self, a: Self::Elem, b: Self::Elem)
        requires
            self.has(a),
            self.has(b),
        ensures
            self.spec_add(a, b) == self.spec_add(b, a),
    ;

    proof fn law_add_zero(&self, a: Self::Elem)
        requires
            self.has(a),
        ensures
            self.spec_add(a, self.spec_zero()) == a,
    ;

    proof fn law_add_neg(&self, a: Self::Elem)
        requires
            self.has(a),
        ensures
            self.spec_add(a, self.spec_neg(a)) == self.spec_zero(),
    ;
}

/// A domain with an associative multiplication.
pub trait Semigroup: Domain {
    /// The product.
    spec fn spec_mul(&self, elem0: Self::Elem, elem1: Self::Elem) -> Self::Elem;

    /// The product of two members.
    fn mul(&self, elem0: &Self::Elem, elem1: &Self::Elem) -> (r: Self::Elem)
        requires
            self.has(*elem0),
            self.has(*elem1),
        ensures
            r == self.spec_mul(*elem0, *elem1),
            self.has(r),
    ;

    proof fn law_mul_associative(&self, a: Self::Elem, b: Self::Elem, c: Self::Elem)
        requires
            self.has(a),
            self.has(b),
            self.has(c),
        ensures
            self.spec_mul(self.spec_mul(a, b), c) == self.spec_mul(a, self.spec_mul(b, c)),
    ;
}

/// A semigroup with a neutral member.
pub trait Monoid: Semigroup {
    /// The neutral member of multiplication.
    spec fn spec_unit(&self) -> Self::Elem;

    /// The neutral member of multiplication.
    fn unit(&self) -> (r: Self::Elem)
        ensures
            r == self.spec_unit(),
            self.has(r),
    ;

    proof fn law_mul_unit(&self, a: Self::Elem)
        requires
            self.has(a),
        ensures
            self.spec_mul(a, self.spec_unit()) == a,
            self.spec_mul(self.spec_unit(), a) == a,
    ;
}

/// An additive group with a multiplication that distributes over addition.
pub trait Ring: AdditiveGroup + Semigroup {
    proof fn law_distributive(&self, a: Self::Elem, b: Self::Elem, c: Self::Elem)
        requires
            self.has(a),
            self.has(b),
            self.has(c),
        ensures
            self.spec_mul(a, self.spec_add(b, c)) == self.spec_add(
                self.spec_mul(a, b),
                self.spec_mul(a, c),
            ),
            self.spec_mul(self.spec_add(a, b), c) == self.spec_add(
                self.spec_mul(a, c),
                self.spec_mul(b, c),
            ),
    ;
}

/// A ring whose multiplication has a neutral member.
pub trait UnitaryRing: Ring + Monoid {

}

/// A commutative unitary ring in which every member but zero has a
/// multiplicative inverse.
pub trait Field: UnitaryRing {
    /// The multiplicative inverse of a member other than zero.
    spec fn spec_inv(&self, elem: Self::Elem) -> Self::Elem;

    /// The multiplicative inverse of a member; zero for zero.
    fn inv(&self, elem: &Self::Elem) -> (r: Self::Elem)
        requires
            self.has(*elem),
        ensures
            r == self.spec_inv(*elem),
            self.has(r),
    ;

    proof fn law_mul_commutative(&self, a: Self::Elem, b: Self::Elem)
        requires
            self.has(a),
            self.has(b),
        ensures
            self.spec_mul(a, b) == self.spec_mul(b, a),
    ;

    proof fn law_mul_inv(&self, a: Self::Elem)
        requires
            self.has(a),
            a != self.spec_zero(),
        ensures
            self.spec_mul(a, self.spec_inv(a)) == self.spec_unit(),
    ;
}

} // verus!
