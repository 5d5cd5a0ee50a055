//! Fixed-length vectors of algebra elements, combined bit by bit or as
//! two's-complement numbers.

use crate::bits::{
    bit_of, int_bit, int_bits, lemma_full_adder, lemma_int_bits_congruent, lemma_int_bits_wrapped,
    lemma_unsigned_int_bits, lemma_unsigned_push, unsigned, weight,
};
use crate::boolalg::{all_in, grows, BoolAlg, Boolean, Valuation};
use vstd::arithmetic::div_mod::{lemma_add_mod_noop, lemma_mod_twice, lemma_sub_mod_noop};
use vstd::arithmetic::power2::{lemma_pow2_pos, lemma_pow2_unfold, pow2};
use vstd::pervasive::runtime_assert;
use vstd::prelude::*;

verus! {

/// The truth values of a vector's elements under a model.
pub open spec fn eval_bits<A: Valuation>(v: Seq<A::Elem>, m: A::Model) -> Seq<bool> {
    Seq::new(v.len(), |i: int| A::eval(v[i], m))
}

/// The vector belongs to `alg` and, under every model that `alg` admits,
/// its elements have the truth values that `value` gives for that model.
pub open spec fn denotes_bits<A: Valuation>(
    alg: &A,
    v: Seq<A::Elem>,
    value: spec_fn(A::Model) -> Seq<bool>,
) -> bool {
    &&& all_in(alg, v)
    &&& forall|m: A::Model| alg.admits(m) ==> #[trigger] eval_bits::<A>(v, m) == value(m)
}

/// Bitwise negation.
pub open spec fn bits_not(a: Seq<bool>) -> Seq<bool> {
    Seq::new(a.len(), |i: int| !a[i])
}

/// Bitwise disjunction of two sequences of one length.
pub open spec fn bits_or(a: Seq<bool>, b: Seq<bool>) -> Seq<bool> {
    Seq::new(a.len(), |i: int| a[i] || b[i])
}

/// Bitwise conjunction of two sequences of one length.
pub open spec fn bits_and(a: Seq<bool>, b: Seq<bool>) -> Seq<bool> {
    Seq::new(a.len(), |i: int| a[i] && b[i])
}

/// Bitwise exclusive or of two sequences of one length.
pub open spec fn bits_xor(a: Seq<bool>, b: Seq<bool>) -> Seq<bool> {
    Seq::new(a.len(), |i: int| a[i] != b[i])
}

/// Bitwise equivalence of two sequences of one length.
pub open spec fn bits_equ(a: Seq<bool>, b: Seq<bool>) -> Seq<bool> {
    Seq::new(a.len(), |i: int| a[i] == b[i])
}

/// Bitwise implication between two sequences of one length.
pub open spec fn bits_imp(a: Seq<bool>, b: Seq<bool>) -> Seq<bool> {
    Seq::new(a.len(), |i: int| a[i] ==> b[i])
}

/// Negation of a number in two's complement, wrapping at the sequence's width.
pub open spec fn bits_neg(a: Seq<bool>) -> Seq<bool> {
    int_bits(-(unsigned(a) as int), a.len())
}

/// Sum of two numbers of one width, wrapping at that width.
pub open spec fn bits_sum(a: Seq<bool>, b: Seq<bool>) -> Seq<bool> {
    int_bits((unsigned(a) + unsigned(b)) as int, a.len())
}

/// Difference of two numbers of one width, wrapping at that width.
pub open spec fn bits_diff(a: Seq<bool>, b: Seq<bool>) -> Seq<bool> {
    int_bits(unsigned(a) - unsigned(b), a.len())
}

/// Sum of a sequence of lengths.
pub open spec fn total(lens: Seq<nat>) -> nat
    decreases lens.len(),
{
    if lens.len() == 0 {
        0
    } else {
        total(lens.drop_last()) + lens.last()
    }
}

/// The total of a prefix grows by the element that the prefix gains.
pub proof fn lemma_total_prefix(lens: Seq<nat>, n: int)
    requires
        0 < n <= lens.len(),
    ensures
        total(lens.take(n)) == total(lens.take(n - 1)) + lens[n - 1],
        total(lens.take(n)) <= total(lens),
    decreases lens.len(),
{
    assert(lens.take(n).drop_last() =~= lens.take(n - 1));
    if n < lens.len() {
        assert(lens.drop_last().take(n) =~= lens.take(n));
        lemma_total_prefix(lens.drop_last(), n);
    }
}

/// Boolean array algebra.
///
/// The contracts at this level speak of lengths and membership only, which
/// is all that every implementation shares; the implementation over a
/// Boolean algebra adds what the elements of each result mean.
pub trait BoolVecAlg: Sized {
    type Elem;

    /// Membership of a vector in this algebra instance.
    spec fn valid(&self, elem: &Self::Elem) -> bool;

    /// Number of elements of a vector.
    spec fn length(elem: &Self::Elem) -> nat;

    /// Returns the length of the vector.
    fn len(elem: &Self::Elem) -> (n: usize)
        ensures
            n == Self::length(elem),
    ;

    /// Creates the vector of the constants for the given truth values.
    fn bit_lift(&self, elem: &[bool]) -> (r: Self::Elem)
        ensures
            self.valid(&r),
            Self::length(&r) == elem@.len(),
    ;

    /// Returns the element wise negation of the vector.
    fn bit_not(&mut self, elem: &Self::Elem) -> (r: Self::Elem)
        requires
            old(self).valid(elem),
        ensures
            forall|e: &Self::Elem| #[trigger] old(self).valid(e) ==> final(self).valid(e),
            final(self).valid(&r),
            Self::length(&r) == Self::length(elem),
    ;

    /// Returns a new vector whose elements are the disjunctions of the
    /// operands' elements.
    fn bit_or(&mut self, elem1: &Self::Elem, elem2: &Self::Elem) -> (r: Self::Elem)
        requires
            old(self).valid(elem1),
            old(self).valid(elem2),
            Self::length(elem1) == Self::length(elem2),
        ensures
            forall|e: &Self::Elem| #[trigger] old(self).valid(e) ==> final(self).valid(e),
            final(self).valid(&r),
            Self::length(&r) == Self::length(elem1),
    ;

    /// Returns a new vector whose elements are the conjunctions of the
    /// operands' elements.
    fn bit_and(&mut self, elem1: &Self::Elem, elem2: &Self::Elem) -> (r: Self::Elem)
        requires
            old(self).valid(elem1),
            old(self).valid(elem2),
            Self::length(elem1) == Self::length(elem2),
        ensures
            forall|e: &Self::Elem| #[trigger] old(self).valid(e) ==> final(self).valid(e),
            final(self).valid(&r),
            Self::length(&r) == Self::length(elem1),
    ;

    /// Returns a new vector whose elements are the exclusive or of the
    /// operands' elements.
    fn bit_add(&mut self, elem1: &Self::Elem, elem2: &Self::Elem) -> (r: Self::Elem)
        requires
            old(self).valid(elem1),
            old(self).valid(elem2),
            Self::length(elem1) == Self::length(elem2),
        ensures
            forall|e: &Self::Elem| #[trigger] old(self).valid(e) ==> final(self).valid(e),
            final(self).valid(&r),
            Self::length(&r) == Self::length(elem1),
    ;

    /// Returns a new vector whose elements are the logical equivalence of the
    /// operands' elements.
    fn bit_equ(&mut self, elem1: &Self::Elem, elem2: &Self::Elem) -> (r: Self::Elem)
        requires
            old(self).valid(elem1),
            old(self).valid(elem2),
            Self::length(elem1) == Self::length(elem2),
        ensures
            forall|e: &Self::Elem| #[trigger] old(self).valid(e) ==> final(self).valid(e),
            final(self).valid(&r),
            Self::length(&r) == Self::length(elem1),
    ;

    /// Returns a new vector whose elements are the logical implication of the
    /// operands' elements.
    fn bit_leq(&mut self, elem1: &Self::Elem, elem2: &Self::Elem) -> (r: Self::Elem)
        requires
            old(self).valid(elem1),
            old(self).valid(elem2),
            Self::length(elem1) == Self::length(elem2),
        ensures
            forall|e: &Self::Elem| #[trigger] old(self).valid(e) ==> final(self).valid(e),
            final(self).valid(&r),
            Self::length(&r) == Self::length(elem1),
    ;

    /// Concatenates the given vectors into a single one.
    fn concat(&self, elems: &[&Self::Elem]) -> (r: Self::Elem)
        requires
            forall|i: int| 0 <= i < elems@.len() ==> self.valid(#[trigger] elems@[i]),
            total(elems@.map_values(|e: &Self::Elem| Self::length(e))) <= usize::MAX,
        ensures
            self.valid(&r),
            Self::length(&r) == total(elems@.map_values(|e: &Self::Elem| Self::length(e))),
    ;

    /// Creates a new vector of the given length representing the given binary
    /// number.
    fn num_lift(&self, len: usize, elem: i64) -> (r: Self::Elem)
        ensures
            self.valid(&r),
            Self::length(&r) == len,
    ;

    /// Returns the negative of the given binary number in two's complement.
    fn num_neg(&mut self, elem: &Self::Elem) -> (r: Self::Elem)
        requires
            old(self).valid(elem),
        ensures
            forall|e: &Self::Elem| #[trigger] old(self).valid(e) ==> final(self).valid(e),
            final(self).valid(&r),
            Self::length(&r) == Self::length(elem),
    ;

    /// Returns the sum of the two binary numbers of the same length in
    /// two's complement.
    fn num_add(&mut self, elem1: &Self::Elem, elem2: &Self::Elem) -> (r: Self::Elem)
        requires
            old(self).valid(elem1),
            old(self).valid(elem2),
            Self::length(elem1) == Self::length(elem2),
        ensures
            forall|e: &Self::Elem| #[trigger] old(self).valid(e) ==> final(self).valid(e),
            final(self).valid(&r),
            Self::length(&r) == Self::length(elem1),
    ;

    /// Returns the difference of the two binary numbers of the same length in
    /// two's complement.
    fn num_sub(&mut self, elem1: &Self::Elem, elem2: &Self::Elem) -> (r: Self::Elem)
        requires
            old(self).valid(elem1),
            old(self).valid(elem2),
            Self::length(elem1) == Self::length(elem2),
        ensures
            forall|e: &Self::Elem| #[trigger] old(self).valid(e) ==> final(self).valid(e),
            final(self).valid(&r),
            Self::length(&r) == Self::length(elem1),
    ;
}

/// The shape-checking mode: a vector is nothing but its length, and every
/// operation only computes the length of its result. A binary operation
/// checks at run time, too, that the lengths of its operands agree.
pub type Checker = ();

impl BoolVecAlg for Checker {
    type Elem = usize;

    open spec fn valid(&self, elem: &usize) -> bool {
        true
    }

    open spec fn length(elem: &usize) -> nat {
        *elem as nat
    }

    fn len(elem: &usize) -> (n: usize) {
        *elem
    }

    fn bit_lift(&self, elem: &[bool]) -> (r: usize) {
        elem.len()
    }

    fn bit_not(&mut self, elem: &usize) -> (r: usize) {
        *elem
    }

    fn bit_or(&mut self, elem1: &usize, elem2: &usize) -> (r: usize) {
        runtime_assert(*elem1 == *elem2);
        *elem1
    }

    fn bit_and(&mut self, elem1: &usize, elem2: &usize) -> (r: usize) {
        runtime_assert(*elem1 == *elem2);
        *elem1
    }

    fn bit_add(&mut self, elem1: &usize, elem2: &usize) -> (r: usize) {
        runtime_assert(*elem1 == *elem2);
        *elem1
    }

    fn bit_equ(&mut self, elem1: &usize, elem2: &usize) -> (r: usize) {
        runtime_assert(*elem1 == *elem2);
        *elem1
    }

    fn bit_leq(&mut self, elem1: &usize, elem2: &usize) -> (r: usize) {
        runtime_assert(*elem1 == *elem2);
        *elem1
    }

    fn concat(&self, elems: &[&usize]) -> (r: usize) {
        let ghost lens = elems@.map_values(|e: &usize| Self::length(e));
        let mut sum: usize = 0;
        let mut i: usize = 0;
        while i < elems.len()
            invariant
                i <= elems@.len(),
                lens == elems@.map_values(|e: &usize| Self::length(e)),
                sum == total(lens.take(i as int)),
                total(lens) <= usize::MAX,
            decreases elems@.len() - i,
        {
            proof {
                lemma_total_prefix(lens, i + 1);
            }
            sum = sum + *elems[i];
            i += 1;
        }
        proof {
            assert(lens.take(i as int) =~= lens);
        }
        sum
    }

    fn num_lift(&self, len: usize, elem: i64) -> (r: usize) {
        len
    }

    fn num_neg(&mut self, elem: &usize) -> (r: usize) {
        *elem
    }

    fn num_add(&mut self, elem1: &usize, elem2: &usize) -> (r: usize) {
        runtime_assert(*elem1 == *elem2);
        *elem1
    }

    fn num_sub(&mut self, elem1: &usize, elem2: &usize) -> (r: usize) {
        runtime_assert(*elem1 == *elem2);
        *elem1
    }
}

/// Vectors over a Boolean algebra. A result belongs to the algebra, which
/// only grows, and its elements mean what the operation says, under every
/// model that the algebra still admits. A binary operation checks at run
/// time, too, that the lengths of its operands agree.
impl<A: BoolAlg> BoolVecAlg for A {
    type Elem = Vec<A::Elem>;

    open spec fn valid(&self, elem: &Vec<A::Elem>) -> bool {
        all_in(self, elem@)
    }

    open spec fn length(elem: &Vec<A::Elem>) -> nat {
        elem@.len()
    }

    fn len(elem: &Vec<A::Elem>) -> (n: usize) {
        elem.len()
    }

    fn bit_lift(&self, elem: &[bool]) -> (r: Vec<A::Elem>)
        ensures
            denotes_bits(self, r@, |m: A::Model| elem@),
    {
        let mut result: Vec<A::Elem> = Vec::with_capacity(elem.len());
        let mut i: usize = 0;
        while i < elem.len()
            invariant
                i <= elem@.len(),
                result@.len() == i,
                all_in(self, result@),
                forall|m: A::Model, j: int|
                    self.admits(m) && 0 <= j < i ==> #[trigger] A::eval(result@[j], m) == elem@[j],
            decreases elem@.len() - i,
        {
            let bit = self.bool_lift(elem[i]);
            result.push(bit);
            i += 1;
        }
        proof {
            assert forall|m: A::Model| self.admits(m) implies #[trigger] eval_bits::<A>(
                result@,
                m,
            ) == elem@ by {
            }
        }
        result
    }

    fn bit_not(&mut self, elem: &Vec<A::Elem>) -> (r: Vec<A::Elem>)
        ensures
            grows(old(self), final(self)),
            denotes_bits(final(self), r@, |m: A::Model| bits_not(eval_bits::<A>(elem@, m))),
    {
        let mut result: Vec<A::Elem> = Vec::with_capacity(elem.len());
        let mut i: usize = 0;
        while i < elem.len()
            invariant
                i <= elem@.len(),
                result@.len() == i,
                grows(old(self), self),
                all_in(self, elem@),
                all_in(self, result@),
                forall|m: A::Model, j: int|
                    self.admits(m) && 0 <= j < i ==> #[trigger] A::eval(result@[j], m)
                        == !A::eval(elem@[j], m),
            decreases elem@.len() - i,
        {
            let bit = self.bool_not(elem[i]);
            result.push(bit);
            i += 1;
        }
        proof {
            assert forall|m: A::Model| self.admits(m) implies #[trigger] eval_bits::<A>(
                result@,
                m,
            ) == bits_not(eval_bits::<A>(elem@, m)) by {
            }
        }
        result
    }

    fn bit_or(&mut self, elem1: &Vec<A::Elem>, elem2: &Vec<A::Elem>) -> (r: Vec<A::Elem>)
        ensures
            grows(old(self), final(self)),
            denotes_bits(
                final(self),
                r@,
                |m: A::Model| bits_or(eval_bits::<A>(elem1@, m), eval_bits::<A>(elem2@, m)),
            ),
    {
        runtime_assert(elem1.len() == elem2.len());
        let mut result: Vec<A::Elem> = Vec::with_capacity(elem1.len());
        let mut i: usize = 0;
        while i < elem1.len()
            invariant
                i <= elem1@.len(),
                elem1@.len() == elem2@.len(),
                result@.len() == i,
                grows(old(self), self),
                all_in(self, elem1@),
                all_in(self, elem2@),
                all_in(self, result@),
                forall|m: A::Model, j: int|
                    self.admits(m) && 0 <= j < i ==> #[trigger] A::eval(result@[j], m) == (A::eval(
                        elem1@[j],
                        m,
                    ) || A::eval(elem2@[j], m)),
            decreases elem1@.len() - i,
        {
            let bit = self.bool_or(elem1[i], elem2[i]);
            result.push(bit);
            i += 1;
        }
        proof {
            assert forall|m: A::Model| self.admits(m) implies #[trigger] eval_bits::<A>(
                result@,
                m,
            ) == bits_or(eval_bits::<A>(elem1@, m), eval_bits::<A>(elem2@, m)) by {
            }
        }
        result
    }

    fn bit_and(&mut self, elem1: &Vec<A::Elem>, elem2: &Vec<A::Elem>) -> (r: Vec<A::Elem>)
        ensures
            grows(old(self), final(self)),
            denotes_bits(
                final(self),
                r@,
                |m: A::Model| bits_and(eval_bits::<A>(elem1@, m), eval_bits::<A>(elem2@, m)),
            ),
    {
        runtime_assert(elem1.len() == elem2.len());
        let mut result: Vec<A::Elem> = Vec::with_capacity(elem1.len());
        let mut i: usize = 0;
        while i < elem1.len()
            invariant
                i <= elem1@.len(),
                elem1@.len() == elem2@.len(),
                result@.len() == i,
                grows(old(self), self),
                all_in(self, elem1@),
                all_in(self, elem2@),
                all_in(self, result@),
                forall|m: A::Model, j: int|
                    self.admits(m) && 0 <= j < i ==> #[trigger] A::eval(result@[j], m) == (A::eval(
                        elem1@[j],
                        m,
                    ) && A::eval(elem2@[j], m)),
            decreases elem1@.len() - i,
        {
            let bit = self.bool_and(elem1[i], elem2[i]);
            result.push(bit);
            i += 1;
        }
        proof {
            assert forall|m: A::Model| self.admits(m) implies #[trigger] eval_bits::<A>(
                result@,
                m,
            ) == bits_and(eval_bits::<A>(elem1@, m), eval_bits::<A>(elem2@, m)) by {
            }
        }
        result
    }

    fn bit_add(&mut self, elem1: &Vec<A::Elem>, elem2: &Vec<A::Elem>) -> (r: Vec<A::Elem>)
        ensures
            grows(old(self), final(self)),
            denotes_bits(
                final(self),
                r@,
                |m: A::Model| bits_xor(eval_bits::<A>(elem1@, m), eval_bits::<A>(elem2@, m)),
            ),
    {
        runtime_assert(elem1.len() == elem2.len());
        let mut result: Vec<A::Elem> = Vec::with_capacity(elem1.len());
        let mut i: usize = 0;
        while i < elem1.len()
            invariant
                i <= elem1@.len(),
                elem1@.len() == elem2@.len(),
                result@.len() == i,
                grows(old(self), self),
                all_in(self, elem1@),
                all_in(self, elem2@),
                all_in(self, result@),
                forall|m: A::Model, j: int|
                    self.admits(m) && 0 <= j < i ==> #[trigger] A::eval(result@[j], m) == (A::eval(
                        elem1@[j],
                        m,
                    ) != A::eval(elem2@[j], m)),
            decreases elem1@.len() - i,
        {
            let bit = self.bool_xor(elem1[i], elem2[i]);
            result.push(bit);
            i += 1;
        }
        proof {
            assert forall|m: A::Model| self.admits(m) implies #[trigger] eval_bits::<A>(
                result@,
                m,
            ) == bits_xor(eval_bits::<A>(elem1@, m), eval_bits::<A>(elem2@, m)) by {
            }
        }
        result
    }

    fn bit_equ(&mut self, elem1: &Vec<A::Elem>, elem2: &Vec<A::Elem>) -> (r: Vec<A::Elem>)
        ensures
            grows(old(self), final(self)),
            denotes_bits(
                final(self),
                r@,
                |m: A::Model| bits_equ(eval_bits::<A>(elem1@, m), eval_bits::<A>(elem2@, m)),
            ),
    {
        runtime_assert(elem1.len() == elem2.len());
        let mut result: Vec<A::Elem> = Vec::with_capacity(elem1.len());
        let mut i: usize = 0;
        while i < elem1.len()
            invariant
                i <= elem1@.len(),
                elem1@.len() == elem2@.len(),
                result@.len() == i,
                grows(old(self), self),
                all_in(self, elem1@),
                all_in(self, elem2@),
                all_in(self, result@),
                forall|m: A::Model, j: int|
                    self.admits(m) && 0 <= j < i ==> #[trigger] A::eval(result@[j], m) == (A::eval(
                        elem1@[j],
                        m,
                    ) == A::eval(elem2@[j], m)),
            decreases elem1@.len() - i,
        {
            let bit = self.bool_equ(elem1[i], elem2[i]);
            result.push(bit);
            i += 1;
        }
        proof {
            assert forall|m: A::Model| self.admits(m) implies #[trigger] eval_bits::<A>(
                result@,
                m,
            ) == bits_equ(eval_bits::<A>(elem1@, m), eval_bits::<A>(elem2@, m)) by {
            }
        }
        result
    }

    fn bit_leq(&mut self, elem1: &Vec<A::Elem>, elem2: &Vec<A::Elem>) -> (r: Vec<A::Elem>)
        ensures
            grows(old(self), final(self)),
            denotes_bits(
                final(self),
                r@,
                |m: A::Model| bits_imp(eval_bits::<A>(elem1@, m), eval_bits::<A>(elem2@, m)),
            ),
    {
        runtime_assert(elem1.len() == elem2.len());
        let mut result: Vec<A::Elem> = Vec::with_capacity(elem1.len());
        let mut i: usize = 0;
        while i < elem1.len()
            invariant
                i <= elem1@.len(),
                elem1@.len() == elem2@.len(),
                result@.len() == i,
                grows(old(self), self),
                all_in(self, elem1@),
                all_in(self, elem2@),
                all_in(self, result@),
                forall|m: A::Model, j: int|
                    self.admits(m) && 0 <= j < i ==> #[trigger] A::eval(result@[j], m) == (A::eval(
                        elem1@[j],
                        m,
                    ) ==> A::eval(elem2@[j], m)),
            decreases elem1@.len() - i,
        {
            let bit = self.bool_imp(elem1[i], elem2[i]);
            result.push(bit);
            i += 1;
        }
        proof {
            assert forall|m: A::Model| self.admits(m) implies #[trigger] eval_bits::<A>(
                result@,
                m,
            ) == bits_imp(eval_bits::<A>(elem1@, m), eval_bits::<A>(elem2@, m)) by {
            }
        }
        result
    }

    fn concat(&self, elems: &[&Vec<A::Elem>]) -> (r: Vec<A::Elem>)
        ensures
            r@ == elems@.map_values(|e: &Vec<A::Elem>| e@).flatten(),
    {
        let ghost parts = elems@.map_values(|e: &Vec<A::Elem>| e@);
        let ghost lens = elems@.map_values(|e: &Vec<A::Elem>| Self::length(e));
        let mut size: usize = 0;
        let mut k: usize = 0;
        while k < elems.len()
            invariant
                k <= elems@.len(),
                lens == elems@.map_values(|e: &Vec<A::Elem>| Self::length(e)),
                size == total(lens.take(k as int)),
                total(lens) <= usize::MAX,
            decreases elems@.len() - k,
        {
            proof {
                lemma_total_prefix(lens, k + 1);
            }
            size = size + elems[k].len();
            k += 1;
        }
        let mut result: Vec<A::Elem> = Vec::with_capacity(size);
        k = 0;
        while k < elems.len()
            invariant
                k <= elems@.len(),
                parts == elems@.map_values(|e: &Vec<A::Elem>| e@),
                lens == elems@.map_values(|e: &Vec<A::Elem>| Self::length(e)),
                forall|i: int| 0 <= i < elems@.len() ==> all_in(self, (#[trigger] elems@[i])@),
                result@ == parts.take(k as int).flatten_alt(),
                result@.len() == total(lens.take(k as int)),
                all_in(self, result@),
            decreases elems@.len() - k,
        {
            let elem = elems[k];
            let ghost before = result@;
            let mut i: usize = 0;
            while i < elem.len()
                invariant
                    i <= elem@.len(),
                    all_in(self, elem@),
                    all_in(self, result@),
                    result@ == before + elem@.take(i as int),
                decreases elem@.len() - i,
            {
                result.push(elem[i]);
                i += 1;
            }
            proof {
                assert(parts.take(k + 1).drop_last() =~= parts.take(k as int));
                lemma_total_prefix(lens, k + 1);
            }
            k += 1;
        }
        proof {
            assert(parts.take(k as int) =~= parts);
            assert(lens.take(k as int) =~= lens);
            parts.lemma_flatten_and_flatten_alt_are_equivalent();
        }
        result
    }

    fn num_lift(&self, len: usize, elem: i64) -> (r: Vec<A::Elem>)
        ensures
            denotes_bits(self, r@, |m: A::Model| int_bits(elem as int, len as nat)),
    {
        let mut result: Vec<A::Elem> = Vec::with_capacity(len);
        let mut i: usize = 0;
        while i < len
            invariant
                i <= len,
                result@.len() == i,
                all_in(self, result@),
                forall|m: A::Model, j: int|
                    self.admits(m) && 0 <= j < i ==> #[trigger] A::eval(result@[j], m) == int_bits(
                        elem as int,
                        len as nat,
                    )[j],
            decreases len - i,
        {
            let bit = self.bool_lift(bit_of(elem, i));
            result.push(bit);
            i += 1;
        }
        proof {
            assert forall|m: A::Model| self.admits(m) implies #[trigger] eval_bits::<A>(
                result@,
                m,
            ) == int_bits(elem as int, len as nat) by {
            }
        }
        result
    }

    fn num_neg(&mut self, elem: &Vec<A::Elem>) -> (r: Vec<A::Elem>)
        ensures
            grows(old(self), final(self)),
            denotes_bits(final(self), r@, |m: A::Model| bits_neg(eval_bits::<A>(elem@, m))),
    {
        let mut carry = self.bool_unit();
        let mut result: Vec<A::Elem> = Vec::with_capacity(elem.len());
        let mut i: usize = 0;
        while i < elem.len()
            invariant
                i <= elem@.len(),
                result@.len() == i,
                grows(old(self), self),
                all_in(self, elem@),
                all_in(self, result@),
                self.contains(carry),
                forall|m: A::Model| #[trigger]
                    self.admits(m) ==> unsigned(eval_bits::<A>(result@, m)) + weight(
                        A::eval(carry, m),
                        i as nat,
                    ) == pow2(i as nat) - unsigned(eval_bits::<A>(elem@.take(i as int), m)),
            decreases elem@.len() - i,
        {
            let ghost before = result@;
            let not_elem = self.bool_not(elem[i]);
            let bit = self.bool_xor(not_elem, carry);
            result.push(bit);
            carry = self.bool_and(not_elem, carry);
            proof {
                assert forall|m: A::Model| #[trigger] self.admits(m) implies unsigned(
                    eval_bits::<A>(result@, m),
                ) + weight(A::eval(carry, m), (i + 1) as nat) == pow2((i + 1) as nat) - unsigned(
                    eval_bits::<A>(elem@.take(i + 1), m),
                ) by {
                    let x = A::eval(elem@[i as int], m);
                    assert(eval_bits::<A>(result@, m) =~= eval_bits::<A>(before, m).push(
                        A::eval(bit, m),
                    ));
                    lemma_unsigned_push(eval_bits::<A>(before, m), A::eval(bit, m));
                    assert(eval_bits::<A>(elem@.take(i + 1), m) =~= eval_bits::<A>(
                        elem@.take(i as int),
                        m,
                    ).push(x));
                    lemma_unsigned_push(eval_bits::<A>(elem@.take(i as int), m), x);
                    lemma_pow2_unfold((i + 1) as nat);
                }
            }
            i += 1;
        }
        proof {
            assert(elem@.take(i as int) =~= elem@);
            assert forall|m: A::Model| self.admits(m) implies #[trigger] eval_bits::<A>(
                result@,
                m,
            ) == bits_neg(eval_bits::<A>(elem@, m)) by {
                let bits = eval_bits::<A>(result@, m);
                let x = -(unsigned(eval_bits::<A>(elem@, m)) as int);
                if A::eval(carry, m) {
                    lemma_int_bits_wrapped(bits, x, 0);
                } else {
                    lemma_int_bits_wrapped(bits, x, -1);
                }
            }
        }
        result
    }

    fn num_add(&mut self, elem1: &Vec<A::Elem>, elem2: &Vec<A::Elem>) -> (r: Vec<A::Elem>)
        ensures
            grows(old(self), final(self)),
            denotes_bits(
                final(self),
                r@,
                |m: A::Model| bits_sum(eval_bits::<A>(elem1@, m), eval_bits::<A>(elem2@, m)),
            ),
    {
        runtime_assert(elem1.len() == elem2.len());
        let mut carry = self.bool_zero();
        let mut result: Vec<A::Elem> = Vec::with_capacity(elem1.len());
        let mut i: usize = 0;
        while i < elem1.len()
            invariant
                i <= elem1@.len(),
                elem1@.len() == elem2@.len(),
                result@.len() == i,
                grows(old(self), self),
                all_in(self, elem1@),
                all_in(self, elem2@),
                all_in(self, result@),
                self.contains(carry),
                forall|m: A::Model| #[trigger]
                    self.admits(m) ==> unsigned(eval_bits::<A>(result@, m)) + weight(
                        A::eval(carry, m),
                        i as nat,
                    ) == unsigned(eval_bits::<A>(elem1@.take(i as int), m)) + unsigned(
                        eval_bits::<A>(elem2@.take(i as int), m),
                    ),
            decreases elem1@.len() - i,
        {
            let ghost before = result@;
            let ghost carry_in = carry;
            let bit = self.bool_ad3(elem1[i], elem2[i], carry);
            result.push(bit);
            carry = self.bool_maj(elem1[i], elem2[i], carry);
            proof {
                assert forall|m: A::Model| #[trigger] self.admits(m) implies unsigned(
                    eval_bits::<A>(result@, m),
                ) + weight(A::eval(carry, m), (i + 1) as nat) == unsigned(
                    eval_bits::<A>(elem1@.take(i + 1), m),
                ) + unsigned(eval_bits::<A>(elem2@.take(i + 1), m)) by {
                    let x = A::eval(elem1@[i as int], m);
                    let y = A::eval(elem2@[i as int], m);
                    let c = A::eval(carry_in, m);
                    assert(eval_bits::<A>(result@, m) =~= eval_bits::<A>(before, m).push(
                        A::eval(bit, m),
                    ));
                    lemma_unsigned_push(eval_bits::<A>(before, m), A::eval(bit, m));
                    assert(eval_bits::<A>(elem1@.take(i + 1), m) =~= eval_bits::<A>(
                        elem1@.take(i as int),
                        m,
                    ).push(x));
                    lemma_unsigned_push(eval_bits::<A>(elem1@.take(i as int), m), x);
                    assert(eval_bits::<A>(elem2@.take(i + 1), m) =~= eval_bits::<A>(
                        elem2@.take(i as int),
                        m,
                    ).push(y));
                    lemma_unsigned_push(eval_bits::<A>(elem2@.take(i as int), m), y);
                    lemma_full_adder(x, y, c, i as nat);
                }
            }
            i += 1;
        }
        proof {
            assert(elem1@.take(i as int) =~= elem1@);
            assert(elem2@.take(i as int) =~= elem2@);
            assert forall|m: A::Model| self.admits(m) implies #[trigger] eval_bits::<A>(
                result@,
                m,
            ) == bits_sum(eval_bits::<A>(elem1@, m), eval_bits::<A>(elem2@, m)) by {
                let bits = eval_bits::<A>(result@, m);
                let x = unsigned(eval_bits::<A>(elem1@, m)) + unsigned(
                    eval_bits::<A>(elem2@, m),
                );
                if A::eval(carry, m) {
                    lemma_int_bits_wrapped(bits, x as int, 1);
                } else {
                    lemma_int_bits_wrapped(bits, x as int, 0);
                }
            }
        }
        result
    }

    fn num_sub(&mut self, elem1: &Vec<A::Elem>, elem2: &Vec<A::Elem>) -> (r: Vec<A::Elem>)
        ensures
            grows(old(self), final(self)),
            denotes_bits(
                final(self),
                r@,
                |m: A::Model| bits_diff(eval_bits::<A>(elem1@, m), eval_bits::<A>(elem2@, m)),
            ),
    {
        runtime_assert(elem1.len() == elem2.len());
        let mut carry = self.bool_unit();
        let mut result: Vec<A::Elem> = Vec::with_capacity(elem1.len());
        let mut i: usize = 0;
        while i < elem1.len()
            invariant
                i <= elem1@.len(),
                elem1@.len() == elem2@.len(),
                result@.len() == i,
                grows(old(self), self),
                all_in(self, elem1@),
                all_in(self, elem2@),
                all_in(self, result@),
                self.contains(carry),
                forall|m: A::Model| #[trigger]
                    self.admits(m) ==> unsigned(eval_bits::<A>(result@, m)) + weight(
                        A::eval(carry, m),
                        i as nat,
                    ) == unsigned(eval_bits::<A>(elem1@.take(i as int), m)) - unsigned(
                        eval_bits::<A>(elem2@.take(i as int), m),
                    ) + pow2(i as nat),
            decreases elem1@.len() - i,
        {
            let ghost before = result@;
            let not_elem2 = self.bool_not(elem2[i]);
            let bit = self.bool_ad3(elem1[i], not_elem2, carry);
            result.push(bit);
            carry = self.bool_maj(elem1[i], not_elem2, carry);
            proof {
                assert forall|m: A::Model| #[trigger] self.admits(m) implies unsigned(
                    eval_bits::<A>(result@, m),
                ) + weight(A::eval(carry, m), (i + 1) as nat) == unsigned(
                    eval_bits::<A>(elem1@.take(i + 1), m),
                ) - unsigned(eval_bits::<A>(elem2@.take(i + 1), m)) + pow2((i + 1) as nat) by {
                    let x = A::eval(elem1@[i as int], m);
                    let y = A::eval(elem2@[i as int], m);
                    assert(eval_bits::<A>(result@, m) =~= eval_bits::<A>(before, m).push(
                        A::eval(bit, m),
                    ));
                    lemma_unsigned_push(eval_bits::<A>(before, m), A::eval(bit, m));
                    assert(eval_bits::<A>(elem1@.take(i + 1), m) =~= eval_bits::<A>(
                        elem1@.take(i as int),
                        m,
                    ).push(x));
                    lemma_unsigned_push(eval_bits::<A>(elem1@.take(i as int), m), x);
                    assert(eval_bits::<A>(elem2@.take(i + 1), m) =~= eval_bits::<A>(
                        elem2@.take(i as int),
                        m,
                    ).push(y));
                    lemma_unsigned_push(eval_bits::<A>(elem2@.take(i as int), m), y);
                    lemma_pow2_unfold((i + 1) as nat);
                }
            }
            i += 1;
        }
        proof {
            assert(elem1@.take(i as int) =~= elem1@);
            assert(elem2@.take(i as int) =~= elem2@);
            assert forall|m: A::Model| self.admits(m) implies #[trigger] eval_bits::<A>(
                result@,
                m,
            ) == bits_diff(eval_bits::<A>(elem1@, m), eval_bits::<A>(elem2@, m)) by {
                let bits = eval_bits::<A>(result@, m);
                let x = unsigned(eval_bits::<A>(elem1@, m)) - unsigned(
                    eval_bits::<A>(elem2@, m),
                );
                if A::eval(carry, m) {
                    lemma_int_bits_wrapped(bits, x, 0);
                } else {
                    lemma_int_bits_wrapped(bits, x, -1);
                }
            }
        }
        result
    }
}

/// In the two-valued algebra a vector is its own meaning: what it denotes
/// is what it holds.
pub proof fn lemma_boolean_bits(alg: &Boolean, v: Seq<bool>, value: spec_fn(()) -> Seq<bool>)
    requires
        denotes_bits(alg, v, value),
    ensures
        v == value(()),
{
    assert(eval_bits::<Boolean>(v, ()) =~= v);
}

/// Concatenating two vectors: the lengths add up, the first operand's
/// elements come first and the second operand's follow.
pub proof fn lemma_concat_pair<T>(a: Seq<T>, b: Seq<T>)
    ensures
        seq![a, b].flatten() == a + b,
        seq![a, b].flatten().len() == a.len() + b.len(),
        forall|i: int| 0 <= i < a.len() ==> seq![a, b].flatten()[i] == a[i],
        forall|i: int|
            a.len() <= i < a.len() + b.len() ==> seq![a, b].flatten()[i] == b[i - a.len()],
        total(seq![a.len(), b.len()]) == a.len() + b.len(),
{
    let parts = seq![a, b];
    parts.lemma_flatten_and_flatten_alt_are_equivalent();
    let first = parts.drop_last();
    assert(first.drop_last().flatten_alt() =~= Seq::<T>::empty());
    assert(first.flatten_alt() =~= a);
    let lens = seq![a.len(), b.len()];
    let head = lens.drop_last();
    assert(total(head.drop_last()) == 0);
    assert(total(head) == a.len());
}

/// The width-`w` encoding of an integer holds bit `i` of the integer at
/// position `i`, least significant bit first.
pub proof fn lemma_num_lift_bits(v: int, width: nat, i: int)
    requires
        0 <= i < width,
    ensures
        int_bits(v, width).len() == width,
        int_bits(v, width)[i] == int_bit(v, i as nat),
{
}

/// Adding the encodings of two integers gives the encoding of their sum,
/// which is also the encoding of the sum reduced modulo `2^width`.
pub proof fn lemma_sum_of_encodings(x: int, y: int, width: nat)
    ensures
        bits_sum(int_bits(x, width), int_bits(y, width)) == int_bits(x + y, width),
        int_bits(x + y, width) == int_bits((x + y) % (pow2(width) as int), width),
{
    let a = int_bits(x, width);
    let b = int_bits(y, width);
    let m = pow2(width) as int;
    lemma_pow2_pos(width);
    lemma_unsigned_int_bits(x, width);
    lemma_unsigned_int_bits(y, width);
    lemma_add_mod_noop(x, y, m);
    lemma_int_bits_congruent((unsigned(a) + unsigned(b)) as int, x + y, width);
    lemma_mod_twice(x + y, m);
    lemma_int_bits_congruent(x + y, (x + y) % m, width);
}

/// Subtracting the encodings of two integers gives the encoding of their
/// difference, which is also the encoding of the difference reduced modulo
/// `2^width`.
pub proof fn lemma_diff_of_encodings(x: int, y: int, width: nat)
    ensures
        bits_diff(int_bits(x, width), int_bits(y, width)) == int_bits(x - y, width),
        int_bits(x - y, width) == int_bits((x - y) % (pow2(width) as int), width),
{
    let a = int_bits(x, width);
    let b = int_bits(y, width);
    let m = pow2(width) as int;
    lemma_pow2_pos(width);
    lemma_unsigned_int_bits(x, width);
    lemma_unsigned_int_bits(y, width);
    lemma_sub_mod_noop(x, y, m);
    lemma_int_bits_congruent(unsigned(a) - unsigned(b), x - y, width);
    lemma_mod_twice(x - y, m);
    lemma_int_bits_congruent(x - y, (x - y) % m, width);
}

/// Negating the encoding of an integer gives the encoding of its negative,
/// which is also the encoding of the negative reduced modulo `2^width`.
pub proof fn lemma_neg_of_encoding(x: int, width: nat)
    ensures
        bits_neg(int_bits(x, width)) == int_bits(-x, width),
        int_bits(-x, width) == int_bits((-x) % (pow2(width) as int), width),
{
    let a = int_bits(x, width);
    let m = pow2(width) as int;
    lemma_pow2_pos(width);
    lemma_unsigned_int_bits(x, width);
    lemma_sub_mod_noop(0, x, m);
    lemma_int_bits_congruent(-(unsigned(a) as int), -x, width);
    lemma_mod_twice(-x, m);
    lemma_int_bits_congruent(-x, (-x) % m, width);
}

} // verus!
