//! The Boolean-algebra capability: scalar logical operations over elements
//! that are either plain truth values or handles into a constraint store.

use crate::alg::two_element_alg::TwoElementAlg;
use crate::alg::{AdditiveGroup, BooleanAlgebra, BoundedPartialOrder, Lattice, Monoid};
use vstd::prelude::*;

verus! {

/// Sum bit of a one-bit full adder: true when an odd number of inputs are true.
pub open spec fn sum3(a: bool, b: bool, c: bool) -> bool {
    (a != b) != c
}

/// Carry bit of a one-bit full adder: true when at least two inputs are true.
pub open spec fn maj3(a: bool, b: bool, c: bool) -> bool {
    (a && b) || (a && c) || (b && c)
}

/// What the elements of an algebra mean.
///
/// An element has no truth value of its own; it has one under each model.
/// An algebra instance knows which elements belong to it and which models
/// are still consistent with everything it has built so far.
pub trait Valuation: Sized {
    type Elem: Copy;

    type Model;

    /// Membership of an element in this algebra instance.
    spec fn contains(&self, elem: Self::Elem) -> bool;

    /// Whether the model is consistent with the instance's constraints.
    spec fn admits(&self, model: Self::Model) -> bool;

    /// Truth value of an element under a model.
    spec fn eval(elem: Self::Elem, model: Self::Model) -> bool;
}

/// `after` is a later state of `before`: every element of `before` is still
/// an element, and no model has been gained.
pub open spec fn grows<A: Valuation>(before: &A, after: &A) -> bool {
    &&& forall|e: A::Elem| #[trigger] before.contains(e) ==> after.contains(e)
    &&& forall|m: A::Model| #[trigger] after.admits(m) ==> before.admits(m)
}

/// `elem` belongs to `alg` and, under every model that `alg` admits, has the
/// truth value that `value` gives for that model.
pub open spec fn denotes<A: Valuation>(
    alg: &A,
    elem: A::Elem,
    value: spec_fn(A::Model) -> bool,
) -> bool {
    &&& alg.contains(elem)
    &&& forall|m: A::Model| alg.admits(m) ==> #[trigger] A::eval(elem, m) == value(m)
}

/// Every element of the sequence belongs to the algebra.
pub open spec fn all_in<A: Valuation>(alg: &A, elems: Seq<A::Elem>) -> bool {
    forall|i: int| 0 <= i < elems.len() ==> alg.contains(#[trigger] elems[i])
}

/// A Boolean algebra whose elements may be symbolic.
///
/// Constructing an element may change the instance (a solver allocates
/// variables and clauses), but only by growing it.
pub trait BoolAlg: Valuation {
    /// The constant element for a truth value.
    fn bool_lift(&self, elem: bool) -> (r: Self::Elem)
        ensures
            denotes(self, r, |m: Self::Model| elem),
    ;

    /// The false element.
    fn bool_zero(&self) -> (r: Self::Elem)
        ensures
            denotes(self, r, |m: Self::Model| false),
    {
        self.bool_lift(false)
    }

    /// The true element.
    fn bool_unit(&self) -> (r: Self::Elem)
        ensures
            denotes(self, r, |m: Self::Model| true),
    {
        self.bool_lift(true)
    }

    /// Negation.
    fn bool_not(&mut self, elem: Self::Elem) -> (r: Self::Elem)
        requires
            old(self).contains(elem),
        ensures
            grows(old(self), final(self)),
            denotes(final(self), r, |m: Self::Model| !Self::eval(elem, m)),
    ;

    /// Disjunction.
    fn bool_or(&mut self, elem1: Self::Elem, elem2: Self::Elem) -> (r: Self::Elem)
        requires
            old(self).contains(elem1),
            old(self).contains(elem2),
        ensures
            grows(old(self), final(self)),
            denotes(final(self), r, |m: Self::Model| Self::eval(elem1, m) || Self::eval(elem2, m)),
    ;

    /// Conjunction.
    fn bool_and(&mut self, elem1: Self::Elem, elem2: Self::Elem) -> (r: Self::Elem)
        requires
            old(self).contains(elem1),
            old(self).contains(elem2),
        ensures
            grows(old(self), final(self)),
            denotes(final(self), r, |m: Self::Model| Self::eval(elem1, m) && Self::eval(elem2, m)),
    ;

    /// Exclusive or, the sum of the two-element field.
    fn bool_xor(&mut self, elem1: Self::Elem, elem2: Self::Elem) -> (r: Self::Elem)
        requires
            old(self).contains(elem1),
            old(self).contains(elem2),
        ensures
            grows(old(self), final(self)),
            denotes(final(self), r, |m: Self::Model| Self::eval(elem1, m) != Self::eval(elem2, m)),
    ;

    /// Logical equivalence.
    fn bool_equ(&mut self, elem1: Self::Elem, elem2: Self::Elem) -> (r: Self::Elem)
        requires
            old(self).contains(elem1),
            old(self).contains(elem2),
        ensures
            grows(old(self), final(self)),
            denotes(final(self), r, |m: Self::Model| Self::eval(elem1, m) == Self::eval(elem2, m)),
    ;

    /// Implication, the order of the algebra.
    fn bool_imp(&mut self, elem1: Self::Elem, elem2: Self::Elem) -> (r: Self::Elem)
        requires
            old(self).contains(elem1),
            old(self).contains(elem2),
        ensures
            grows(old(self), final(self)),
            denotes(final(self), r, |m: Self::Model| Self::eval(elem1, m) ==> Self::eval(elem2, m)),
    ;

    /// Sum bit of a full adder over the three elements.
    fn bool_ad3(&mut self, elem1: Self::Elem, elem2: Self::Elem, elem3: Self::Elem) -> (r:
        Self::Elem)
        requires
            old(self).contains(elem1),
            old(self).contains(elem2),
            old(self).contains(elem3),
        ensures
            grows(old(self), final(self)),
            denotes(
                final(self),
                r,
                |m: Self::Model|
                    sum3(Self::eval(elem1, m), Self::eval(elem2, m), Self::eval(elem3, m)),
            ),
    {
        let t = self.bool_xor(elem1, elem2);
        self.bool_xor(t, elem3)
    }

    /// Carry bit of a full adder over the three elements.
    fn bool_maj(&mut self, elem1: Self::Elem, elem2: Self::Elem, elem3: Self::Elem) -> (r:
        Self::Elem)
        requires
            old(self).contains(elem1),
            old(self).contains(elem2),
            old(self).contains(elem3),
        ensures
            grows(old(self), final(self)),
            denotes(
                final(self),
                r,
                |m: Self::Model|
                    maj3(Self::eval(elem1, m), Self::eval(elem2, m), Self::eval(elem3, m)),
            ),
    {
        let both = self.bool_and(elem1, elem2);
        let either = self.bool_or(elem1, elem2);
        let carried = self.bool_and(elem3, either);
        self.bool_or(both, carried)
    }
}

/// The concrete two-valued algebra: an element is its own truth value, and
/// there is a single model. It computes in the two-element algebra.
#[derive(Debug)]
pub struct Boolean {
    logic: TwoElementAlg,
}

impl Boolean {
    pub fn new() -> (r: Self) {
        Boolean { logic: TwoElementAlg() }
    }
}

impl Valuation for Boolean {
    type Elem = bool;

    type Model = ();

    open spec fn contains(&self, elem: bool) -> bool {
        true
    }

    open spec fn admits(&self, model: ()) -> bool {
        true
    }

    open spec fn eval(elem: bool, model: ()) -> bool {
        elem
    }
}

impl BoolAlg for Boolean {
    fn bool_lift(&self, elem: bool) -> (r: bool)
        ensures
            r == elem,
    {
        if elem {
            self.logic.top()
        } else {
            self.logic.bot()
        }
    }

    fn bool_zero(&self) -> (r: bool)
        ensures
            r == false,
    {
        self.logic.zero()
    }

    fn bool_unit(&self) -> (r: bool)
        ensures
            r == true,
    {
        self.logic.unit()
    }

    fn bool_not(&mut self, elem: bool) -> (r: bool)
        ensures
            r == !elem,
    {
        self.logic.not(&elem)
    }

    fn bool_or(&mut self, elem1: bool, elem2: bool) -> (r: bool)
        ensures
            r == (elem1 || elem2),
    {
        self.logic.join(&elem1, &elem2)
    }

    fn bool_and(&mut self, elem1: bool, elem2: bool) -> (r: bool)
        ensures
            r == (elem1 && elem2),
    {
        self.logic.meet(&elem1, &elem2)
    }

    fn bool_xor(&mut self, elem1: bool, elem2: bool) -> (r: bool)
        ensures
            r == (elem1 != elem2),
    {
        self.logic.xor(&elem1, &elem2)
    }

    fn bool_equ(&mut self, elem1: bool, elem2: bool) -> (r: bool)
        ensures
            r == (elem1 == elem2),
    {
        self.logic.equ(&elem1, &elem2)
    }

    fn bool_imp(&mut self, elem1: bool, elem2: bool) -> (r: bool)
        ensures
            r == (elem1 ==> elem2),
    {
        self.logic.imp(&elem1, &elem2)
    }

    fn bool_ad3(&mut self, elem1: bool, elem2: bool, elem3: bool) -> (r: bool)
        ensures
            r == sum3(elem1, elem2, elem3),
    {
        let partial = self.logic.add(&elem1, &elem2);
        self.logic.add(&partial, &elem3)
    }

    fn bool_maj(&mut self, elem1: bool, elem2: bool, elem3: bool) -> (r: bool)
        ensures
            r == maj3(elem1, elem2, elem3),
    {
        let both = self.logic.meet(&elem1, &elem2);
        let either = self.logic.join(&elem1, &elem2);
        let carried = self.logic.meet(&elem3, &either);
        self.logic.join(&both, &carried)
    }
}

} // verus!
