//! Dense multi-dimensional arrays and the tensor capability that relations
//! are built on.

use crate::boolalg::{all_in, grows, BoolAlg, Valuation};
use crate::shape::{
    coords_of, in_range, lemma_coords_of_position, lemma_position_bound, lemma_position_of_coords,
    position, volume, Shape,
};
use vstd::prelude::*;

verus! {

/// A dense array of values addressed by coordinates.
#[derive(Debug, Clone, PartialEq, Eq)]
pub struct Tensor<T> {
    pub shape: Shape,
    pub elems: Vec<T>,
}

impl<T> Tensor<T> {
    /// There is one stored value per cell of the shape.
    pub open spec fn wf(&self) -> bool {
        self.elems@.len() == volume(self.shape@)
    }

    /// The value in the cell with the given coordinates.
    pub open spec fn at(&self, coords: Seq<usize>) -> T {
        self.elems@[position(self.shape@, coords) as int]
    }

    /// The shape of the array.
    pub fn shape(&self) -> (s: &Shape)
        ensures
            s@ == self.shape@,
    {
        &self.shape
    }
}

/// `value` is what `op` may return for the coordinates.
pub open spec fn yields<T, F: Fn(&[usize]) -> T>(op: F, coords: Seq<usize>, value: T) -> bool {
    exists|c: &[usize]| c@ == coords && #[trigger] call_ensures(op, (c,), value)
}

impl<T: Copy> Tensor<T> {
    /// Creates the array of the given shape whose cells hold what `op`
    /// returns for their coordinates.
    pub fn create<F: Fn(&[usize]) -> T>(shape: Shape, op: F) -> (r: Tensor<T>)
        requires
            volume(shape@) <= usize::MAX,
            forall|c: &[usize]| in_range(shape@, c@) ==> call_requires(op, (c,)),
        ensures
            r.wf(),
            r.shape@ == shape@,
            forall|coords: Seq<usize>|
                in_range(shape@, coords) ==> #[trigger] yields(op, coords, r.at(coords)),
    {
        let size = shape.volume();
        let mut elems: Vec<T> = Vec::with_capacity(size);
        let mut k: usize = 0;
        while k < size
            invariant
                k <= size == volume(shape@),
                elems@.len() == k,
                forall|c: &[usize]| in_range(shape@, c@) ==> call_requires(op, (c,)),
                forall|j: int|
                    0 <= j < k ==> #[trigger] yields(op, coords_of(shape@, j as nat), elems@[j]),
            decreases size - k,
        {
            let coords = shape.coords_of(k);
            proof {
                lemma_position_of_coords(shape@, k as nat);
            }
            let cell = coords.as_slice();
            let value = op(cell);
            elems.push(value);
            k += 1;
        }
        let r = Tensor { shape, elems };
        proof {
            assert forall|coords: Seq<usize>| in_range(r.shape@, coords) implies #[trigger] yields(
                op,
                coords,
                r.at(coords),
            ) by {
                lemma_position_bound(r.shape@, coords);
                lemma_coords_of_position(r.shape@, coords);
                let j = position(r.shape@, coords) as int;
                assert(yields(op, coords_of(r.shape@, j as nat), r.elems@[j]));
            }
        }
        r
    }

    /// Creates the array of the given shape whose cell at some coordinates
    /// holds what this array holds at the coordinates picked out by
    /// `mapping`: axis `k` of this array is addressed by the new coordinate
    /// number `mapping[k]`. New axes that `mapping` does not name are dummies;
    /// an axis named twice reads this array along a diagonal.
    pub fn polymer(&self, shape: Shape, mapping: &[usize]) -> (r: Tensor<T>)
        requires
            self.wf(),
            fits_polymer(self.shape@, shape@, mapping@),
            volume(shape@) <= usize::MAX,
        ensures
            r.wf(),
            r.shape@ == shape@,
            forall|coords: Seq<usize>|
                in_range(shape@, coords) ==> #[trigger] r.at(coords) == self.at(
                    remap(coords, mapping@),
                ),
    {
        let size = shape.volume();
        proof {
            assert(self.elems.len() == volume(self.shape@));
        }
        let mut elems: Vec<T> = Vec::with_capacity(size);
        let mut k: usize = 0;
        while k < size
            invariant
                k <= size == volume(shape@),
                elems@.len() == k,
                self.wf(),
                volume(self.shape@) <= usize::MAX,
                fits_polymer(self.shape@, shape@, mapping@),
                forall|j: int|
                    0 <= j < k ==> #[trigger] elems@[j] == self.at(
                        remap(coords_of(shape@, j as nat), mapping@),
                    ),
            decreases size - k,
        {
            let coords = shape.coords_of(k);
            proof {
                lemma_position_of_coords(shape@, k as nat);
            }
            let mut source: Vec<usize> = Vec::with_capacity(mapping.len());
            let mut a: usize = 0;
            while a < mapping.len()
                invariant
                    a <= mapping@.len(),
                    in_range(shape@, coords@),
                    fits_polymer(self.shape@, shape@, mapping@),
                    source@ == remap(coords@, mapping@).take(a as int),
                decreases mapping@.len() - a,
            {
                source.push(coords[mapping[a]]);
                a += 1;
            }
            proof {
                assert(source@ =~= remap(coords@, mapping@));
                lemma_position_bound(self.shape@, source@);
            }
            let place = self.shape.position(source.as_slice());
            elems.push(self.elems[place]);
            k += 1;
        }
        let r = Tensor { shape, elems };
        proof {
            assert forall|coords: Seq<usize>| in_range(r.shape@, coords) implies #[trigger] r.at(
                coords,
            ) == self.at(remap(coords, mapping@)) by {
                lemma_position_bound(r.shape@, coords);
                lemma_coords_of_position(r.shape@, coords);
            }
        }
        r
    }
}

/// The coordinates of the source cell that `mapping` picks for a cell of the
/// new array.
pub open spec fn remap(coords: Seq<usize>, mapping: Seq<usize>) -> Seq<usize> {
    Seq::new(mapping.len(), |k: int| coords[mapping[k] as int])
}

/// `mapping` names, for every axis of the source shape, an axis of the
/// target shape of the same size.
pub open spec fn fits_polymer(source: Seq<usize>, target: Seq<usize>, mapping: Seq<usize>) -> bool {
    &&& mapping.len() == source.len()
    &&& forall|k: int|
        0 <= k < mapping.len() ==> (#[trigger] mapping[k]) < target.len()
            && target[mapping[k] as int] == source[k]
}

/// What the elements of a tensor algebra mean.
///
/// An element is an array of truth values that may depend on a model. An
/// algebra instance knows which elements belong to it and which models are
/// still consistent with everything it has built so far.
pub trait TensorValuation: Sized {
    type Elem;

    type Model;

    /// Membership of an element in this algebra instance.
    spec fn has_tensor(&self, elem: &Self::Elem) -> bool;

    /// Whether the model is consistent with the instance's constraints.
    spec fn allows(&self, model: Self::Model) -> bool;

    /// The shape of an element.
    spec fn shape_of(elem: &Self::Elem) -> Seq<usize>;

    /// Truth value of the cell of an element at the coordinates, under a
    /// model.
    spec fn value_at(elem: &Self::Elem, coords: Seq<usize>, model: Self::Model) -> bool;
}

/// `after` is a later state of `before`: every element of `before` is still
/// an element, and no model has been gained.
pub open spec fn tensor_grows<A: TensorValuation>(before: &A, after: &A) -> bool {
    &&& forall|e: &A::Elem| #[trigger] before.has_tensor(e) ==> after.has_tensor(e)
    &&& forall|m: A::Model| #[trigger] after.allows(m) ==> before.allows(m)
}

/// `elem` belongs to `alg`, has the given shape and, under every model that
/// `alg` allows, holds in each cell the truth value that `value` gives for
/// the model and the cell's coordinates.
pub open spec fn tensor_denotes<A: TensorValuation>(
    alg: &A,
    elem: &A::Elem,
    shape: Seq<usize>,
    value: spec_fn(A::Model, Seq<usize>) -> bool,
) -> bool {
    &&& alg.has_tensor(elem)
    &&& A::shape_of(elem) == shape
    &&& forall|m: A::Model, c: Seq<usize>|
        alg.allows(m) && in_range(shape, c) ==> #[trigger] A::value_at(elem, c, m) == value(m, c)
}

/// The coordinates with one more coordinate in front.
pub open spec fn prepend(first: usize, coords: Seq<usize>) -> Seq<usize> {
    seq![first] + coords
}

/// Whether the element is true somewhere along its first axis, the other
/// coordinates being fixed.
pub open spec fn any_along_first<A: TensorValuation>(
    elem: &A::Elem,
    coords: Seq<usize>,
    model: A::Model,
) -> bool {
    exists|first: usize|
        first < A::shape_of(elem)[0] && #[trigger] A::value_at(elem, prepend(first, coords), model)
}

/// The tensor capability: arrays of logical values with pointwise
/// connectives, reindexing of axes and existential reduction.
///
/// Constructing an element may change the instance, but only by growing it.
pub trait TensorAlg: TensorValuation {
    /// The shape of an element.
    fn shape(elem: &Self::Elem) -> (s: &Shape)
        ensures
            s@ == Self::shape_of(elem),
    ;

    /// The element that holds the given constants.
    fn tensor_lift(&mut self, elem: Tensor<bool>) -> (r: Self::Elem)
        requires
            elem.wf(),
        ensures
            tensor_grows(old(self), final(self)),
            tensor_denotes(
                final(self),
                &r,
                elem.shape@,
                |m: Self::Model, c: Seq<usize>| elem.at(c),
            ),
    ;

    /// Pointwise negation.
    fn tensor_not(&mut self, elem: Self::Elem) -> (r: Self::Elem)
        requires
            old(self).has_tensor(&elem),
        ensures
            tensor_grows(old(self), final(self)),
            tensor_denotes(
                final(self),
                &r,
                Self::shape_of(&elem),
                |m: Self::Model, c: Seq<usize>| !Self::value_at(&elem, c, m),
            ),
    ;

    /// Pointwise disjunction.
    fn tensor_or(&mut self, elem1: Self::Elem, elem2: Self::Elem) -> (r: Self::Elem)
        requires
            old(self).has_tensor(&elem1),
            old(self).has_tensor(&elem2),
            Self::shape_of(&elem1) == Self::shape_of(&elem2),
        ensures
            tensor_grows(old(self), final(self)),
            tensor_denotes(
                final(self),
                &r,
                Self::shape_of(&elem1),
                |m: Self::Model, c: Seq<usize>|
                    Self::value_at(&elem1, c, m) || Self::value_at(&elem2, c, m),
            ),
    ;

    /// Pointwise conjunction.
    fn tensor_and(&mut self, elem1: Self::Elem, elem2: Self::Elem) -> (r: Self::Elem)
        requires
            old(self).has_tensor(&elem1),
            old(self).has_tensor(&elem2),
            Self::shape_of(&elem1) == Self::shape_of(&elem2),
        ensures
            tensor_grows(old(self), final(self)),
            tensor_denotes(
                final(self),
                &r,
                Self::shape_of(&elem1),
                |m: Self::Model, c: Seq<usize>|
                    Self::value_at(&elem1, c, m) && Self::value_at(&elem2, c, m),
            ),
    ;

    /// Pointwise exclusive or.
    fn tensor_xor(&mut self, elem1: Self::Elem, elem2: Self::Elem) -> (r: Self::Elem)
        requires
            old(self).has_tensor(&elem1),
            old(self).has_tensor(&elem2),
            Self::shape_of(&elem1) == Self::shape_of(&elem2),
        ensures
            tensor_grows(old(self), final(self)),
            tensor_denotes(
                final(self),
                &r,
                Self::shape_of(&elem1),
                |m: Self::Model, c: Seq<usize>|
                    Self::value_at(&elem1, c, m) != Self::value_at(&elem2, c, m),
            ),
    ;

    /// Pointwise equivalence.
    fn tensor_equ(&mut self, elem1: Self::Elem, elem2: Self::Elem) -> (r: Self::Elem)
        requires
            old(self).has_tensor(&elem1),
            old(self).has_tensor(&elem2),
            Self::shape_of(&elem1) == Self::shape_of(&elem2),
        ensures
            tensor_grows(old(self), final(self)),
            tensor_denotes(
                final(self),
                &r,
                Self::shape_of(&elem1),
                |m: Self::Model, c: Seq<usize>|
                    Self::value_at(&elem1, c, m) == Self::value_at(&elem2, c, m),
            ),
    ;

    /// Pointwise implication.
    fn tensor_imp(&mut self, elem1: Self::Elem, elem2: Self::Elem) -> (r: Self::Elem)
        requires
            old(self).has_tensor(&elem1),
            old(self).has_tensor(&elem2),
            Self::shape_of(&elem1) == Self::shape_of(&elem2),
        ensures
            tensor_grows(old(self), final(self)),
            tensor_denotes(
                final(self),
                &r,
                Self::shape_of(&elem1),
                |m: Self::Model, c: Seq<usize>|
                    Self::value_at(&elem1, c, m) ==> Self::value_at(&elem2, c, m),
            ),
    ;

    /// The element of the given shape whose cell at some coordinates holds
    /// what `elem` holds at the coordinates picked out by `mapping`.
    fn tensor_polymer(&mut self, elem: Self::Elem, shape: Shape, mapping: &[usize]) -> (r:
        Self::Elem)
        requires
            old(self).has_tensor(&elem),
            fits_polymer(Self::shape_of(&elem), shape@, mapping@),
            volume(shape@) <= usize::MAX,
        ensures
            tensor_grows(old(self), final(self)),
            tensor_denotes(
                final(self),
                &r,
                shape@,
                |m: Self::Model, c: Seq<usize>| Self::value_at(&elem, remap(c, mapping@), m),
            ),
    ;

    /// The element with the first axis removed whose cells say whether
    /// `elem` is true somewhere along that axis.
    fn tensor_any(&mut self, elem: Self::Elem) -> (r: Self::Elem)
        requires
            old(self).has_tensor(&elem),
            Self::shape_of(&elem).len() > 0,
            volume(Self::shape_of(&elem).drop_first()) <= usize::MAX,
        ensures
            tensor_grows(old(self), final(self)),
            tensor_denotes(
                final(self),
                &r,
                Self::shape_of(&elem).drop_first(),
                |m: Self::Model, c: Seq<usize>| any_along_first::<Self>(&elem, c, m),
            ),
    ;
}

/// Arrays over a Boolean algebra form a tensor algebra with the same models.
impl<A: BoolAlg> TensorValuation for A {
    type Elem = Tensor<A::Elem>;

    type Model = A::Model;

    open spec fn has_tensor(&self, elem: &Tensor<A::Elem>) -> bool {
        elem.wf() && all_in(self, elem.elems@)
    }

    open spec fn allows(&self, model: A::Model) -> bool {
        self.admits(model)
    }

    open spec fn shape_of(elem: &Tensor<A::Elem>) -> Seq<usize> {
        elem.shape@
    }

    open spec fn value_at(elem: &Tensor<A::Elem>, coords: Seq<usize>, model: A::Model) -> bool {
        A::eval(elem.at(coords), model)
    }
}

impl<A: BoolAlg> TensorAlg for A {
    fn shape(elem: &Tensor<A::Elem>) -> (s: &Shape) {
        elem.shape()
    }

    fn tensor_lift(&mut self, elem: Tensor<bool>) -> (r: Tensor<A::Elem>) {
        let size = elem.elems.len();
        let mut elems: Vec<A::Elem> = Vec::with_capacity(size);
        let mut k: usize = 0;
        while k < size
            invariant
                k <= size == elem.elems@.len(),
                elems@.len() == k,
                all_in(self, elems@),
                forall|m: A::Model, j: int|
                    self.admits(m) && 0 <= j < k ==> #[trigger] A::eval(elems@[j], m)
                        == elem.elems@[j],
            decreases size - k,
        {
            let cell = self.bool_lift(elem.elems[k]);
            elems.push(cell);
            k += 1;
        }
        let r = Tensor { shape: elem.shape, elems };
        proof {
            assert forall|m: A::Model, c: Seq<usize>|
                self.admits(m) && in_range(r.shape@, c) implies #[trigger] Self::value_at(&r, c, m)
                == elem.at(c) by {
                lemma_position_bound(r.shape@, c);
            }
        }
        r
    }

    fn tensor_not(&mut self, elem: Tensor<A::Elem>) -> (r: Tensor<A::Elem>) {
        let size = elem.elems.len();
        let mut elems: Vec<A::Elem> = Vec::with_capacity(size);
        let mut k: usize = 0;
        while k < size
            invariant
                k <= size == elem.elems@.len(),
                elems@.len() == k,
                grows(old(self), self),
                all_in(self, elem.elems@),
                all_in(self, elems@),
                forall|m: A::Model, j: int|
                    self.admits(m) && 0 <= j < k ==> #[trigger] A::eval(elems@[j], m) == !A::eval(
                        elem.elems@[j],
                        m,
                    ),
            decreases size - k,
        {
            let cell = self.bool_not(elem.elems[k]);
            elems.push(cell);
            k += 1;
        }
        let r = Tensor { shape: elem.shape, elems };
        proof {
            assert forall|m: A::Model, c: Seq<usize>|
                self.admits(m) && in_range(r.shape@, c) implies #[trigger] Self::value_at(&r, c, m)
                == !Self::value_at(&elem, c, m) by {
                lemma_position_bound(r.shape@, c);
            }
        }
        r
    }

    fn tensor_or(&mut self, elem1: Tensor<A::Elem>, elem2: Tensor<A::Elem>) -> (r: Tensor<
        A::Elem,
    >) {
        let size = elem1.elems.len();
        let mut elems: Vec<A::Elem> = Vec::with_capacity(size);
        let mut k: usize = 0;
        while k < size
            invariant
                k <= size == elem1.elems@.len() == elem2.elems@.len(),
                elems@.len() == k,
                grows(old(self), self),
                all_in(self, elem1.elems@),
                all_in(self, elem2.elems@),
                all_in(self, elems@),
                forall|m: A::Model, j: int|
                    self.admits(m) && 0 <= j < k ==> #[trigger] A::eval(elems@[j], m) == (A::eval(
                        elem1.elems@[j],
                        m,
                    ) || A::eval(elem2.elems@[j], m)),
            decreases size - k,
        {
            let cell = self.bool_or(elem1.elems[k], elem2.elems[k]);
            elems.push(cell);
            k += 1;
        }
        let r = Tensor { shape: elem1.shape, elems };
        proof {
            assert forall|m: A::Model, c: Seq<usize>|
                self.admits(m) && in_range(r.shape@, c) implies #[trigger] Self::value_at(&r, c, m)
                == (Self::value_at(&elem1, c, m) || Self::value_at(&elem2, c, m)) by {
                lemma_position_bound(r.shape@, c);
            }
        }
        r
    }

    fn tensor_and(&mut self, elem1: Tensor<A::Elem>, elem2: Tensor<A::Elem>) -> (r: Tensor<
        A::Elem,
    >) {
        let size = elem1.elems.len();
        let mut elems: Vec<A::Elem> = Vec::with_capacity(size);
        let mut k: usize = 0;
        while k < size
            invariant
                k <= size == elem1.elems@.len() == elem2.elems@.len(),
                elems@.len() == k,
                grows(old(self), self),
                all_in(self, elem1.elems@),
                all_in(self, elem2.elems@),
                all_in(self, elems@),
                forall|m: A::Model, j: int|
                    self.admits(m) && 0 <= j < k ==> #[trigger] A::eval(elems@[j], m) == (A::eval(
                        elem1.elems@[j],
                        m,
                    ) && A::eval(elem2.elems@[j], m)),
            decreases size - k,
        {
            let cell = self.bool_and(elem1.elems[k], elem2.elems[k]);
            elems.push(cell);
            k += 1;
        }
        let r = Tensor { shape: elem1.shape, elems };
        proof {
            assert forall|m: A::Model, c: Seq<usize>|
                self.admits(m) && in_range(r.shape@, c) implies #[trigger] Self::value_at(&r, c, m)
                == (Self::value_at(&elem1, c, m) && Self::value_at(&elem2, c, m)) by {
                lemma_position_bound(r.shape@, c);
            }
        }
        r
    }

    fn tensor_xor(&mut self, elem1: Tensor<A::Elem>, elem2: Tensor<A::Elem>) -> (r: Tensor<
        A::Elem,
    >) {
        let size = elem1.elems.len();
        let mut elems: Vec<A::Elem> = Vec::with_capacity(size);
        let mut k: usize = 0;
        while k < size
            invariant
                k <= size == elem1.elems@.len() == elem2.elems@.len(),
                elems@.len() == k,
                grows(old(self), self),
                all_in(self, elem1.elems@),
                all_in(self, elem2.elems@),
                all_in(self, elems@),
                forall|m: A::Model, j: int|
                    self.admits(m) && 0 <= j < k ==> #[trigger] A::eval(elems@[j], m) == (A::eval(
                        elem1.elems@[j],
                        m,
                    ) != A::eval(elem2.elems@[j], m)),
            decreases size - k,
        {
            let cell = self.bool_xor(elem1.elems[k], elem2.elems[k]);
            elems.push(cell);
            k += 1;
        }
        let r = Tensor { shape: elem1.shape, elems };
        proof {
            assert forall|m: A::Model, c: Seq<usize>|
                self.admits(m) && in_range(r.shape@, c) implies #[trigger] Self::value_at(&r, c, m)
                == (Self::value_at(&elem1, c, m) != Self::value_at(&elem2, c, m)) by {
                lemma_position_bound(r.shape@, c);
            }
        }
        r
    }

    fn tensor_equ(&mut self, elem1: Tensor<A::Elem>, elem2: Tensor<A::Elem>) -> (r: Tensor<
        A::Elem,
    >) {
        let size = elem1.elems.len();
        let mut elems: Vec<A::Elem> = Vec::with_capacity(size);
        let mut k: usize = 0;
        while k < size
            invariant
                k <= size == elem1.elems@.len() == elem2.elems@.len(),
                elems@.len() == k,
                grows(old(self), self),
                all_in(self, elem1.elems@),
                all_in(self, elem2.elems@),
                all_in(self, elems@),
                forall|m: A::Model, j: int|
                    self.admits(m) && 0 <= j < k ==> #[trigger] A::eval(elems@[j], m) == (A::eval(
                        elem1.elems@[j],
                        m,
                    ) == A::eval(elem2.elems@[j], m)),
            decreases size - k,
        {
            let cell = self.bool_equ(elem1.elems[k], elem2.elems[k]);
            elems.push(cell);
            k += 1;
        }
        let r = Tensor { shape: elem1.shape, elems };
        proof {
            assert forall|m: A::Model, c: Seq<usize>|
                self.admits(m) && in_range(r.shape@, c) implies #[trigger] Self::value_at(&r, c, m)
                == (Self::value_at(&elem1, c, m) == Self::value_at(&elem2, c, m)) by {
                lemma_position_bound(r.shape@, c);
            }
        }
        r
    }

    fn tensor_imp(&mut self, elem1: Tensor<A::Elem>, elem2: Tensor<A::Elem>) -> (r: Tensor<
        A::Elem,
    >) {
        let size = elem1.elems.len();
        let mut elems: Vec<A::Elem> = Vec::with_capacity(size);
        let mut k: usize = 0;
        while k < size
            invariant
                k <= size == elem1.elems@.len() == elem2.elems@.len(),
                elems@.len() == k,
                grows(old(self), self),
                all_in(self, elem1.elems@),
                all_in(self, elem2.elems@),
                all_in(self, elems@),
                forall|m: A::Model, j: int|
                    self.admits(m) && 0 <= j < k ==> #[trigger] A::eval(elems@[j], m) == (A::eval(
                        elem1.elems@[j],
                        m,
                    ) ==> A::eval(elem2.elems@[j], m)),
            decreases size - k,
        {
            let cell = self.bool_imp(elem1.elems[k], elem2.elems[k]);
            elems.push(cell);
            k += 1;
        }
        let r = Tensor { shape: elem1.shape, elems };
        proof {
            assert forall|m: A::Model, c: Seq<usize>|
                self.admits(m) && in_range(r.shape@, c) implies #[trigger] Self::value_at(&r, c, m)
                == (Self::value_at(&elem1, c, m) ==> Self::value_at(&elem2, c, m)) by {
                lemma_position_bound(r.shape@, c);
            }
        }
        r
    }

    fn tensor_polymer(&mut self, elem: Tensor<A::Elem>, shape: Shape, mapping: &[usize]) -> (r:
        Tensor<A::Elem>) {
        let r = elem.polymer(shape, mapping);
        proof {
            assert forall|i: int| 0 <= i < r.elems@.len() implies self.contains(
                #[trigger] r.elems@[i],
            ) by {
                lemma_position_of_coords(r.shape@, i as nat);
                let c = coords_of(r.shape@, i as nat);
                assert(r.elems@[i] == r.at(c));
                lemma_position_bound(elem.shape@, remap(c, mapping@));
            }
        }
        r
    }

    fn tensor_any(&mut self, elem: Tensor<A::Elem>) -> (r: Tensor<A::Elem>) {
        let rank = elem.shape.len();
        let width = elem.shape.dims[0];
        let mut dims: Vec<usize> = Vec::with_capacity(rank - 1);
        let mut a: usize = 1;
        while a < rank
            invariant
                1 <= a <= rank == elem.shape@.len(),
                dims@ == elem.shape@.subrange(1, a as int),
            decreases rank - a,
        {
            dims.push(elem.shape.dims[a]);
            a += 1;
        }
        let shape = Shape::new(dims);
        let size = shape.volume();
        let stored = elem.elems.len();
        let mut elems: Vec<A::Elem> = Vec::with_capacity(size);
        let mut k: usize = 0;
        while k < size
            invariant
                k <= size == volume(shape@),
                stored == elem.elems@.len(),
                shape@ == elem.shape@.drop_first(),
                elem.shape@.len() > 0,
                width == elem.shape@[0],
                width * size == elem.elems@.len(),
                elems@.len() == k,
                grows(old(self), self),
                all_in(self, elem.elems@),
                all_in(self, elems@),
                forall|m: A::Model, j: int|
                    self.admits(m) && 0 <= j < k ==> #[trigger] A::eval(elems@[j], m) == any_upto::<
                        A,
                    >(elem.elems@, width * j, width as int, m),
            decreases size - k,
        {
            proof {
                assert(0 <= width * k && width * k + width <= width * size) by (nonlinear_arith)
                    requires
                        0 <= k < size,
                        0 <= width,
                ;
            }
            let base = width * k;
            let mut found = self.bool_zero();
            let mut b: usize = 0;
            while b < width
                invariant
                    b <= width,
                    base + width <= stored == elem.elems@.len(),
                    elems@.len() == k,
                    grows(old(self), self),
                    all_in(self, elem.elems@),
                    all_in(self, elems@),
                    self.contains(found),
                    forall|m: A::Model, j: int|
                        self.admits(m) && 0 <= j < k ==> #[trigger] A::eval(elems@[j], m)
                            == any_upto::<A>(elem.elems@, width * j, width as int, m),
                    forall|m: A::Model| #[trigger]
                        self.admits(m) ==> A::eval(found, m) == any_upto::<A>(
                            elem.elems@,
                            base as int,
                            b as int,
                            m,
                        ),
                decreases width - b,
            {
                found = self.bool_or(found, elem.elems[base + b]);
                b += 1;
            }
            elems.push(found);
            k += 1;
        }
        let r = Tensor { shape, elems };
        proof {
            assert forall|m: A::Model, c: Seq<usize>|
                self.admits(m) && in_range(r.shape@, c) implies #[trigger] Self::value_at(&r, c, m)
                == any_along_first::<Self>(&elem, c, m) by {
                lemma_position_bound(r.shape@, c);
                lemma_any_along_first::<A>(&elem, c, m);
            }
        }
        r
    }
}

/// Whether one of the `count` elements from place `base` on is true under
/// the model.
pub open spec fn any_upto<A: Valuation>(
    elems: Seq<A::Elem>,
    base: int,
    count: int,
    model: A::Model,
) -> bool {
    exists|b: int| 0 <= b < count && #[trigger] A::eval(elems[base + b], model)
}

/// The cells along the first axis at fixed other coordinates are stored next
/// to each other.
pub proof fn lemma_any_along_first<A: BoolAlg>(
    elem: &Tensor<A::Elem>,
    coords: Seq<usize>,
    model: A::Model,
)
    requires
        elem.shape@.len() > 0,
        in_range(elem.shape@.drop_first(), coords),
    ensures
        any_along_first::<A>(elem, coords, model) == any_upto::<A>(
            elem.elems@,
            elem.shape@[0] * position(elem.shape@.drop_first(), coords),
            elem.shape@[0] as int,
            model,
        ),
{
    let width = elem.shape@[0];
    let base = width * position(elem.shape@.drop_first(), coords);
    assert forall|first: usize|
        #![trigger prepend(first, coords)]
        position(elem.shape@, prepend(first, coords)) == first + base by {
        assert(prepend(first, coords).drop_first() =~= coords);
    }
    if any_along_first::<A>(elem, coords, model) {
        let first = choose|first: usize|
            first < width && #[trigger] <A as TensorValuation>::value_at(
                elem,
                prepend(first, coords),
                model,
            );
        assert(A::eval(elem.elems@[base + first], model));
    }
    if any_upto::<A>(elem.elems@, base as int, width as int, model) {
        let b = choose|b: int| 0 <= b < width && #[trigger] A::eval(elem.elems@[base + b], model);
        let first = b as usize;
        assert(<A as TensorValuation>::value_at(elem, prepend(first, coords), model));
    }
}

} // verus!
