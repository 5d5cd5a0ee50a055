//! Binary relations over a finite universe, as sets of pairs, and the
//! algebra of relations carried out on square tensors.

use crate::shape::{in_range, rectangular, volume, Shape};
use crate::tensor::{
    any_along_first, prepend, remap, tensor_grows, yields, Tensor, TensorAlg, TensorValuation,
};
use vstd::pervasive::runtime_assert;
use vstd::prelude::*;

verus! {

/// The total relation on the universe `{0, ..., size - 1}`.
pub open spec fn rel_full(size: nat) -> Set<(nat, nat)> {
    Set::new(|p: (nat, nat)| p.0 < size && p.1 < size)
}

/// The total relation for `true`, the empty relation for `false`.
pub open spec fn rel_const(size: nat, value: bool) -> Set<(nat, nat)> {
    if value {
        rel_full(size)
    } else {
        Set::empty()
    }
}

/// The identity relation on the universe.
pub open spec fn rel_diag(size: nat) -> Set<(nat, nat)> {
    Set::new(|p: (nat, nat)| p.0 < size && p.0 == p.1)
}

/// The complement of a relation within the universe.
pub open spec fn rel_comp(size: nat, r: Set<(nat, nat)>) -> Set<(nat, nat)> {
    rel_full(size).difference(r)
}

/// The intersection of two relations.
pub open spec fn rel_meet(r: Set<(nat, nat)>, s: Set<(nat, nat)>) -> Set<(nat, nat)> {
    r.intersect(s)
}

/// The union of two relations.
pub open spec fn rel_join(r: Set<(nat, nat)>, s: Set<(nat, nat)>) -> Set<(nat, nat)> {
    r.union(s)
}

/// The converse of a relation.
pub open spec fn rel_inv(r: Set<(nat, nat)>) -> Set<(nat, nat)> {
    Set::new(|p: (nat, nat)| r.contains((p.1, p.0)))
}

/// Whether `y` links `x` to `z`: `x` is related to `y` by `r`, and `y` to `z`
/// by `s`.
pub open spec fn links(r: Set<(nat, nat)>, s: Set<(nat, nat)>, x: nat, y: nat, z: nat) -> bool {
    r.contains((x, y)) && s.contains((y, z))
}

/// The composition of two relations: `x` is related to `z` when some `y`
/// links them.
pub open spec fn rel_circ(r: Set<(nat, nat)>, s: Set<(nat, nat)>) -> Set<(nat, nat)> {
    Set::new(|p: (nat, nat)| exists|y: nat| #[trigger] links(r, s, p.0, y, p.1))
}

/// The converse of the identity is the identity.
pub proof fn lemma_inv_diag(size: nat)
    ensures
        rel_inv(rel_diag(size)) == rel_diag(size),
{
}

/// Complementing twice gives the relation back.
pub proof fn lemma_comp_comp(size: nat, r: Set<(nat, nat)>)
    requires
        r.subset_of(rel_full(size)),
    ensures
        rel_comp(size, rel_comp(size, r)) == r,
{
}

/// De Morgan: the union is the complement of the intersection of the
/// complements.
pub proof fn lemma_join_de_morgan(size: nat, r: Set<(nat, nat)>, s: Set<(nat, nat)>)
    requires
        r.subset_of(rel_full(size)),
        s.subset_of(rel_full(size)),
    ensures
        rel_join(r, s) == rel_comp(size, rel_meet(rel_comp(size, r), rel_comp(size, s))),
{
}

/// Composition is associative.
pub proof fn lemma_circ_assoc(r: Set<(nat, nat)>, s: Set<(nat, nat)>, t: Set<(nat, nat)>)
    ensures
        rel_circ(rel_circ(r, s), t) == rel_circ(r, rel_circ(s, t)),
{
    let left = rel_circ(rel_circ(r, s), t);
    let right = rel_circ(r, rel_circ(s, t));
    assert forall|p: (nat, nat)| left.contains(p) == right.contains(p) by {
        if left.contains(p) {
            let z = choose|z: nat| #[trigger] links(rel_circ(r, s), t, p.0, z, p.1);
            let y = choose|y: nat| #[trigger] links(r, s, p.0, y, z);
            let q = (y, p.1);
            assert(links(s, t, q.0, z, q.1));
            assert(links(r, rel_circ(s, t), p.0, y, p.1));
        }
        if right.contains(p) {
            let y = choose|y: nat| #[trigger] links(r, rel_circ(s, t), p.0, y, p.1);
            let z = choose|z: nat| #[trigger] links(s, t, y, z, p.1);
            let q = (p.0, z);
            assert(links(r, s, q.0, y, q.1));
            assert(links(rel_circ(r, s), t, p.0, z, p.1));
        }
    }
}

/// The identity is a unit of composition on both sides.
pub proof fn lemma_circ_diag(size: nat, r: Set<(nat, nat)>)
    requires
        r.subset_of(rel_full(size)),
    ensures
        rel_circ(r, rel_diag(size)) == r,
        rel_circ(rel_diag(size), r) == r,
{
    let d = rel_diag(size);
    assert forall|p: (nat, nat)| rel_circ(r, d).contains(p) == r.contains(p) by {
        if r.contains(p) {
            assert(links(r, d, p.0, p.1, p.1));
        }
    }
    assert forall|p: (nat, nat)| rel_circ(d, r).contains(p) == r.contains(p) by {
        if r.contains(p) {
            assert(links(d, r, p.0, p.0, p.1));
        }
    }
}

/// The shape with `rank` axes of the given size.
pub open spec fn square(size: usize, rank: nat) -> Seq<usize> {
    Seq::new(rank, |i: int| size)
}

/// The coordinates of a cell of a square array.
pub open spec fn pair(x: usize, y: usize) -> Seq<usize> {
    seq![x, y]
}

/// A square with two axes has as many cells as the universe has pairs, a
/// cube as many as it has triples.
pub proof fn lemma_volume_of_square(size: usize)
    ensures
        volume(square(size, 0)) == 1,
        volume(square(size, 1)) == size,
        volume(square(size, 2)) == size * size,
        volume(square(size, 3)) == size * size * size,
{
    let s0 = square(size, 0);
    let s1 = square(size, 1);
    let s2 = square(size, 2);
    let s3 = square(size, 3);
    assert(s1.drop_first() =~= s0);
    assert(s2.drop_first() =~= s1);
    assert(s3.drop_first() =~= s2);
    assert(volume(s1) == size * volume(s0));
    assert(volume(s2) == size * volume(s1));
    assert(volume(s3) == size * volume(s2));
}

/// What the elements of a relation algebra mean.
///
/// An element stands, under each model, for a binary relation on the
/// universe `{0, ..., size - 1}`.
pub trait RelValuation: Sized {
    type Elem;

    type Model;

    /// Number of elements of the universe.
    spec fn size(&self) -> nat;

    /// Membership of an element in this algebra instance.
    spec fn has_rel(&self, elem: &Self::Elem) -> bool;

    /// Whether the model is consistent with the instance's constraints.
    spec fn admits(&self, model: Self::Model) -> bool;

    /// Whether an array with `rank` axes over the universe fits in memory.
    spec fn fits(&self, rank: nat) -> bool;

    /// The pairs that an element relates under a model.
    spec fn pairs(elem: &Self::Elem, model: Self::Model) -> Set<(nat, nat)>;

    /// An element relates members of the universe only.
    proof fn lemma_pairs_in_universe(&self, elem: &Self::Elem, model: Self::Model)
        requires
            self.has_rel(elem),
        ensures
            Self::pairs(elem, model).subset_of(rel_full(self.size())),
    ;
}

/// `after` is a later state of `before` over the same universe: every
/// element of `before` is still an element, and no model has been gained.
pub open spec fn rel_grows<A: RelValuation>(before: &A, after: &A) -> bool {
    &&& after.size() == before.size()
    &&& forall|rank: nat| #[trigger] after.fits(rank) == before.fits(rank)
    &&& forall|e: &A::Elem| #[trigger] before.has_rel(e) ==> after.has_rel(e)
    &&& forall|m: A::Model| #[trigger] after.admits(m) ==> before.admits(m)
}

/// `elem` belongs to `alg` and, under every model that `alg` admits, relates
/// the pairs that `value` gives for that model.
pub open spec fn rel_denotes<A: RelValuation>(
    alg: &A,
    elem: &A::Elem,
    value: spec_fn(A::Model) -> Set<(nat, nat)>,
) -> bool {
    &&& alg.has_rel(elem)
    &&& forall|m: A::Model| alg.admits(m) ==> #[trigger] A::pairs(elem, m) == value(m)
}

/// The algebra of binary relations over a fixed universe.
pub trait BinaryRelAlg: RelValuation {
    /// Returns the empty or total relation.
    fn binrel_lift(&mut self, elem: bool) -> (r: Self::Elem)
        requires
            old(self).fits(2),
        ensures
            rel_grows(old(self), final(self)),
            rel_denotes(final(self), &r, |m: Self::Model| rel_const(old(self).size(), elem)),
    ;

    /// Returns the empty relation.
    fn binrel_empty(&mut self) -> (r: Self::Elem)
        requires
            old(self).fits(2),
        ensures
            rel_grows(old(self), final(self)),
            rel_denotes(final(self), &r, |m: Self::Model| Set::<(nat, nat)>::empty()),
    {
        self.binrel_lift(false)
    }

    /// Returns the total relation.
    fn binrel_total(&mut self) -> (r: Self::Elem)
        requires
            old(self).fits(2),
        ensures
            rel_grows(old(self), final(self)),
            rel_denotes(final(self), &r, |m: Self::Model| rel_full(old(self).size())),
    {
        self.binrel_lift(true)
    }

    /// Returns the diagonal relation.
    fn binrel_diag(&mut self) -> (r: Self::Elem)
        requires
            old(self).fits(2),
        ensures
            rel_grows(old(self), final(self)),
            rel_denotes(final(self), &r, |m: Self::Model| rel_diag(old(self).size())),
    ;

    /// Returns the complement of the given relation.
    fn binrel_comp(&mut self, elem: Self::Elem) -> (r: Self::Elem)
        requires
            old(self).has_rel(&elem),
        ensures
            rel_grows(old(self), final(self)),
            rel_denotes(
                final(self),
                &r,
                |m: Self::Model| rel_comp(old(self).size(), Self::pairs(&elem, m)),
            ),
    ;

    /// Intersection of a pair of relations.
    fn binrel_meet(&mut self, elem1: Self::Elem, elem2: Self::Elem) -> (r: Self::Elem)
        requires
            old(self).has_rel(&elem1),
            old(self).has_rel(&elem2),
        ensures
            rel_grows(old(self), final(self)),
            rel_denotes(
                final(self),
                &r,
                |m: Self::Model| rel_meet(Self::pairs(&elem1, m), Self::pairs(&elem2, m)),
            ),
    ;

    /// Union of a pair of relations.
    fn binrel_join(&mut self, elem1: Self::Elem, elem2: Self::Elem) -> (r: Self::Elem)
        requires
            old(self).has_rel(&elem1),
            old(self).has_rel(&elem2),
        ensures
            rel_grows(old(self), final(self)),
            rel_denotes(
                final(self),
                &r,
                |m: Self::Model| rel_join(Self::pairs(&elem1, m), Self::pairs(&elem2, m)),
            ),
    {
        let ghost start = *self;
        let comp1 = self.binrel_comp(elem1);
        let comp2 = self.binrel_comp(elem2);
        let both = self.binrel_meet(comp1, comp2);
        let r = self.binrel_comp(both);
        proof {
            assert forall|m: Self::Model| self.admits(m) implies #[trigger] Self::pairs(&r, m)
                == rel_join(Self::pairs(&elem1, m), Self::pairs(&elem2, m)) by {
                start.lemma_pairs_in_universe(&elem1, m);
                start.lemma_pairs_in_universe(&elem2, m);
            }
        }
        r
    }

    /// Returns the inverse of the relation.
    fn binrel_inv(&mut self, elem: Self::Elem) -> (r: Self::Elem)
        requires
            old(self).has_rel(&elem),
            old(self).fits(2),
        ensures
            rel_grows(old(self), final(self)),
            rel_denotes(final(self), &r, |m: Self::Model| rel_inv(Self::pairs(&elem, m))),
    ;

    /// Returns the composition of a pair of relations.
    fn binrel_circ(&mut self, elem1: Self::Elem, elem2: Self::Elem) -> (r: Self::Elem)
        requires
            old(self).has_rel(&elem1),
            old(self).has_rel(&elem2),
            old(self).fits(3),
        ensures
            rel_grows(old(self), final(self)),
            rel_denotes(
                final(self),
                &r,
                |m: Self::Model| rel_circ(Self::pairs(&elem1, m), Self::pairs(&elem2, m)),
            ),
    ;
}

/// The pairs that a square element of a tensor algebra relates under a
/// model: those at whose coordinates it is true.
pub open spec fn pairs_of<ALG: TensorValuation>(elem: &ALG::Elem, model: ALG::Model) -> Set<
    (nat, nat),
> {
    Set::new(
        |p: (nat, nat)|
            {
                &&& ALG::shape_of(elem).len() == 2
                &&& p.0 < ALG::shape_of(elem)[0]
                &&& p.1 < ALG::shape_of(elem)[1]
                &&& ALG::value_at(elem, pair(p.0 as usize, p.1 as usize), model)
            },
    )
}

/// The truth value of a scalar element of a tensor algebra under a model.
pub open spec fn scalar_of<ALG: TensorValuation>(elem: &ALG::Elem, model: ALG::Model) -> bool {
    ALG::value_at(elem, Seq::empty(), model)
}

/// A tensor algebra together with the size of the universe that its
/// relations range over.
pub struct Universe<ALG> where ALG: TensorAlg {
    alg: ALG,
    size: usize,
}

impl<ALG: TensorAlg> Universe<ALG> {
    /// The tensor algebra that the universe builds its elements in.
    pub closed spec fn algebra(&self) -> ALG {
        self.alg
    }

    /// The size of the universe.
    pub closed spec fn extent(&self) -> usize {
        self.size
    }

    /// `self` is a later state of `before`: the same universe over a grown
    /// tensor algebra.
    pub open spec fn extends(&self, before: &Self) -> bool {
        &&& self.extent() == before.extent()
        &&& tensor_grows(&before.algebra(), &self.algebra())
    }

    /// Membership of a scalar in the universe's algebra.
    pub open spec fn has_scalar(&self, elem: &ALG::Elem) -> bool {
        &&& self.algebra().has_tensor(elem)
        &&& ALG::shape_of(elem).len() == 0
    }

    /// `elem` is a scalar of the universe's algebra and, under every model
    /// that the algebra allows, has the truth value that `value` gives.
    pub open spec fn scalar_denotes(
        &self,
        elem: &ALG::Elem,
        value: spec_fn(ALG::Model) -> bool,
    ) -> bool {
        &&& self.has_scalar(elem)
        &&& forall|m: ALG::Model|
            self.algebra().allows(m) ==> #[trigger] scalar_of::<ALG>(elem, m) == value(m)
    }

    pub fn new(alg: ALG, size: usize) -> (r: Self)
        ensures
            r.algebra() == alg,
            r.extent() == size,
    {
        Self { alg, size }
    }
}

impl<ALG> Universe<ALG> where ALG: TensorAlg {
    /// Whether the element has no axis.
    pub fn is_scalar(&self, elem: &ALG::Elem) -> (b: bool)
        ensures
            b == (ALG::shape_of(elem).len() == 0),
    {
        ALG::shape(elem).is_empty()
    }

    /// Whether every axis of the element ranges over the universe.
    pub fn is_relation(&self, elem: &ALG::Elem) -> (b: bool)
        ensures
            b == rectangular(ALG::shape_of(elem), self.extent()),
    {
        ALG::shape(elem).is_rectangular(self.size)
    }

    /// Whether the element has two axes that range over the universe.
    pub fn is_binary_rel(&self, elem: &ALG::Elem) -> (b: bool)
        ensures
            b == (ALG::shape_of(elem).len() == 2 && rectangular(
                ALG::shape_of(elem),
                self.extent(),
            )),
            b == (ALG::shape_of(elem) == square(self.extent(), 2)),
    {
        proof {
            let shape = ALG::shape_of(elem);
            if shape.len() == 2 && rectangular(shape, self.extent()) {
                assert(shape =~= square(self.extent(), 2));
            }
        }
        ALG::shape(elem).len() == 2 && self.is_relation(elem)
    }

    /// Whether an array with `rank` axes over the universe fits in memory.
    pub fn can_hold(&self, rank: usize) -> (b: bool)
        ensures
            b == (volume(square(self.extent(), rank as nat)) <= usize::MAX),
    {
        self.new_shape(rank).checked_volume().is_some()
    }

    /// The shape with `len` axes that range over the universe.
    pub fn new_shape(&self, len: usize) -> (shape: Shape)
        ensures
            shape@ == square(self.extent(), len as nat),
    {
        let mut dims: Vec<usize> = Vec::with_capacity(len);
        let mut i: usize = 0;
        while i < len
            invariant
                i <= len,
                dims@ == square(self.size, i as nat),
            decreases len - i,
        {
            dims.push(self.size);
            i += 1;
        }
        Shape::new(dims)
    }
}

/// The scalars of a universe's algebra form a Boolean algebra. An operation
/// checks at run time, too, that its operands have no axis.
impl<ALG> Universe<ALG> where ALG: TensorAlg {
    /// The constant scalar for a truth value.
    pub fn bool_lift(&mut self, elem: bool) -> (r: ALG::Elem)
        ensures
            final(self).extends(old(self)),
            final(self).scalar_denotes(&r, |m: ALG::Model| elem),
    {
        let shape = self.new_shape(0);
        let op = |c: &[usize]| -> (b: bool)
            ensures
                b == elem,
            { elem };
        let cells = Tensor::create(shape, op);
        proof {
            assert(yields(op, Seq::empty(), cells.at(Seq::empty())));
        }
        self.alg.tensor_lift(cells)
    }

    /// Negation of a scalar.
    pub fn bool_not(&mut self, elem: ALG::Elem) -> (r: ALG::Elem)
        requires
            old(self).has_scalar(&elem),
        ensures
            final(self).extends(old(self)),
            final(self).scalar_denotes(&r, |m: ALG::Model| !scalar_of::<ALG>(&elem, m)),
    {
        runtime_assert(self.is_scalar(&elem));
        self.alg.tensor_not(elem)
    }

    /// Disjunction of two scalars.
    pub fn bool_or(&mut self, elem1: ALG::Elem, elem2: ALG::Elem) -> (r: ALG::Elem)
        requires
            old(self).has_scalar(&elem1),
            old(self).has_scalar(&elem2),
        ensures
            final(self).extends(old(self)),
            final(self).scalar_denotes(
                &r,
                |m: ALG::Model| scalar_of::<ALG>(&elem1, m) || scalar_of::<ALG>(&elem2, m),
            ),
    {
        runtime_assert(self.is_scalar(&elem1));
        runtime_assert(self.is_scalar(&elem2));
        proof {
            assert(ALG::shape_of(&elem1) =~= ALG::shape_of(&elem2));
        }
        self.alg.tensor_or(elem1, elem2)
    }

    /// Exclusive or of two scalars.
    pub fn bool_xor(&mut self, elem1: ALG::Elem, elem2: ALG::Elem) -> (r: ALG::Elem)
        requires
            old(self).has_scalar(&elem1),
            old(self).has_scalar(&elem2),
        ensures
            final(self).extends(old(self)),
            final(self).scalar_denotes(
                &r,
                |m: ALG::Model| scalar_of::<ALG>(&elem1, m) != scalar_of::<ALG>(&elem2, m),
            ),
    {
        runtime_assert(self.is_scalar(&elem1));
        runtime_assert(self.is_scalar(&elem2));
        proof {
            assert(ALG::shape_of(&elem1) =~= ALG::shape_of(&elem2));
        }
        self.alg.tensor_xor(elem1, elem2)
    }

    /// Conjunction of two scalars.
    pub fn bool_and(&mut self, elem1: ALG::Elem, elem2: ALG::Elem) -> (r: ALG::Elem)
        requires
            old(self).has_scalar(&elem1),
            old(self).has_scalar(&elem2),
        ensures
            final(self).extends(old(self)),
            final(self).scalar_denotes(
                &r,
                |m: ALG::Model| scalar_of::<ALG>(&elem1, m) && scalar_of::<ALG>(&elem2, m),
            ),
    {
        runtime_assert(self.is_scalar(&elem1));
        runtime_assert(self.is_scalar(&elem2));
        proof {
            assert(ALG::shape_of(&elem1) =~= ALG::shape_of(&elem2));
        }
        self.alg.tensor_and(elem1, elem2)
    }

    /// Equivalence of two scalars.
    pub fn bool_equ(&mut self, elem1: ALG::Elem, elem2: ALG::Elem) -> (r: ALG::Elem)
        requires
            old(self).has_scalar(&elem1),
            old(self).has_scalar(&elem2),
        ensures
            final(self).extends(old(self)),
            final(self).scalar_denotes(
                &r,
                |m: ALG::Model| scalar_of::<ALG>(&elem1, m) == scalar_of::<ALG>(&elem2, m),
            ),
    {
        runtime_assert(self.is_scalar(&elem1));
        runtime_assert(self.is_scalar(&elem2));
        proof {
            assert(ALG::shape_of(&elem1) =~= ALG::shape_of(&elem2));
        }
        self.alg.tensor_equ(elem1, elem2)
    }

    /// Implication between two scalars.
    pub fn bool_imp(&mut self, elem1: ALG::Elem, elem2: ALG::Elem) -> (r: ALG::Elem)
        requires
            old(self).has_scalar(&elem1),
            old(self).has_scalar(&elem2),
        ensures
            final(self).extends(old(self)),
            final(self).scalar_denotes(
                &r,
                |m: ALG::Model| scalar_of::<ALG>(&elem1, m) ==> scalar_of::<ALG>(&elem2, m),
            ),
    {
        runtime_assert(self.is_scalar(&elem1));
        runtime_assert(self.is_scalar(&elem2));
        proof {
            assert(ALG::shape_of(&elem1) =~= ALG::shape_of(&elem2));
        }
        self.alg.tensor_imp(elem1, elem2)
    }
}

impl<ALG> RelValuation for Universe<ALG> where ALG: TensorAlg {
    type Elem = ALG::Elem;

    type Model = ALG::Model;

    open spec fn size(&self) -> nat {
        self.extent() as nat
    }

    open spec fn has_rel(&self, elem: &ALG::Elem) -> bool {
        &&& self.algebra().has_tensor(elem)
        &&& ALG::shape_of(elem) == square(self.extent(), 2)
    }

    open spec fn admits(&self, model: ALG::Model) -> bool {
        self.algebra().allows(model)
    }

    open spec fn fits(&self, rank: nat) -> bool {
        volume(square(self.extent(), rank)) <= usize::MAX
    }

    open spec fn pairs(elem: &ALG::Elem, model: ALG::Model) -> Set<(nat, nat)> {
        pairs_of::<ALG>(elem, model)
    }

    proof fn lemma_pairs_in_universe(&self, elem: &ALG::Elem, model: ALG::Model) {
    }
}

/// What composition computes, cell by cell: `left` and `right` spread the
/// operands over a cube so that the first axis is the one they share, `both`
/// is their conjunction, and `r` says where `both` is true somewhere along
/// that axis.
proof fn lemma_circ_pairs<ALG: TensorValuation>(
    size: usize,
    elem1: &ALG::Elem,
    elem2: &ALG::Elem,
    left: &ALG::Elem,
    right: &ALG::Elem,
    both: &ALG::Elem,
    r: &ALG::Elem,
    first: Seq<usize>,
    second: Seq<usize>,
    m: ALG::Model,
)
    requires
        first =~= seq![1usize, 0usize],
        second =~= seq![0usize, 2usize],
        ALG::shape_of(elem1) == square(size, 2),
        ALG::shape_of(elem2) == square(size, 2),
        ALG::shape_of(both) == square(size, 3),
        ALG::shape_of(r) == square(size, 2),
        forall|c: Seq<usize>|
            in_range(square(size, 3), c) ==> #[trigger] ALG::value_at(left, c, m) == ALG::value_at(
                elem1,
                remap(c, first),
                m,
            ),
        forall|c: Seq<usize>|
            in_range(square(size, 3), c) ==> #[trigger] ALG::value_at(right, c, m)
                == ALG::value_at(elem2, remap(c, second), m),
        forall|c: Seq<usize>|
            in_range(square(size, 3), c) ==> #[trigger] ALG::value_at(both, c, m) == (
            ALG::value_at(left, c, m) && ALG::value_at(right, c, m)),
        forall|c: Seq<usize>|
            in_range(square(size, 2), c) ==> #[trigger] ALG::value_at(r, c, m) == any_along_first::<
                ALG,
            >(both, c, m),
    ensures
        pairs_of::<ALG>(r, m) == rel_circ(pairs_of::<ALG>(elem1, m), pairs_of::<ALG>(elem2, m)),
{
    let rel1 = pairs_of::<ALG>(elem1, m);
    let rel2 = pairs_of::<ALG>(elem2, m);
    let result = pairs_of::<ALG>(r, m);
    assert forall|p: (nat, nat)| result.contains(p) == rel_circ(rel1, rel2).contains(p) by {
        let x = p.0 as usize;
        let z = p.1 as usize;
        if result.contains(p) {
            let y = choose|y: usize|
                y < ALG::shape_of(both)[0] && #[trigger] ALG::value_at(
                    both,
                    prepend(y, pair(x, z)),
                    m,
                );
            let c = prepend(y, pair(x, z));
            assert(remap(c, first) =~= pair(x, y));
            assert(remap(c, second) =~= pair(y, z));
            assert(links(rel1, rel2, p.0, y as nat, p.1));
        }
        if rel_circ(rel1, rel2).contains(p) {
            let w = choose|w: nat| #[trigger] links(rel1, rel2, p.0, w, p.1);
            let y = w as usize;
            let c = prepend(y, pair(x, z));
            assert(in_range(square(size, 3), c));
            assert(remap(c, first) =~= pair(x, y));
            assert(remap(c, second) =~= pair(y, z));
            assert(ALG::value_at(both, c, m));
        }
    }
}

/// A cube over a universe that fits in memory has faces that fit too.
proof fn lemma_square_fits(size: usize)
    requires
        volume(square(size, 3)) <= usize::MAX,
    ensures
        volume(square(size, 2)) <= usize::MAX,
        square(size, 3).drop_first() == square(size, 2),
{
    let cube = square(size, 3);
    assert(cube.drop_first() =~= square(size, 2));
    if size > 0 {
        crate::shape::lemma_all_positive_volume(cube);
        crate::shape::lemma_volume_positive(cube);
    } else {
        let face = square(size, 2);
        assert(face[0] == 0);
    }
}

/// Relations over a universe are the square elements of its tensor algebra.
/// An operation checks at run time, too, that its operands are square.
impl<ALG> BinaryRelAlg for Universe<ALG> where ALG: TensorAlg {
    fn binrel_lift(&mut self, elem: bool) -> (r: ALG::Elem)
        ensures
            final(self).extends(old(self)),
    {
        let shape = self.new_shape(2);
        let op = |c: &[usize]| -> (b: bool)
            ensures
                b == elem,
            { elem };
        let cells = Tensor::create(shape, op);
        let r = self.alg.tensor_lift(cells);
        proof {
            let size = self.size;
            assert forall|m: ALG::Model| self.admits(m) implies #[trigger] Self::pairs(&r, m)
                == rel_const(size as nat, elem) by {
                assert forall|p: (nat, nat)| Self::pairs(&r, m).contains(p) == rel_const(
                    size as nat,
                    elem,
                ).contains(p) by {
                    if p.0 < size && p.1 < size {
                        let c = pair(p.0 as usize, p.1 as usize);
                        assert(yields(op, c, cells.at(c)));
                    }
                }
            }
        }
        r
    }

    fn binrel_diag(&mut self) -> (r: ALG::Elem)
        ensures
            final(self).extends(old(self)),
    {
        let shape = self.new_shape(2);
        let op = |c: &[usize]| -> (b: bool)
            requires
                c@.len() == 2,
            ensures
                b == (c@[0] == c@[1]),
            { c[0] == c[1] };
        let cells = Tensor::create(shape, op);
        let r = self.alg.tensor_lift(cells);
        proof {
            let size = self.size;
            assert forall|m: ALG::Model| self.admits(m) implies #[trigger] Self::pairs(&r, m)
                == rel_diag(size as nat) by {
                assert forall|p: (nat, nat)| Self::pairs(&r, m).contains(p) == rel_diag(
                    size as nat,
                ).contains(p) by {
                    if p.0 < size && p.1 < size {
                        let c = pair(p.0 as usize, p.1 as usize);
                        assert(yields(op, c, cells.at(c)));
                    }
                }
            }
        }
        r
    }

    fn binrel_comp(&mut self, elem: ALG::Elem) -> (r: ALG::Elem)
        ensures
            final(self).extends(old(self)),
    {
        runtime_assert(self.is_binary_rel(&elem));
        let r = self.alg.tensor_not(elem);
        proof {
            let size = self.size;
            assert forall|m: ALG::Model| self.admits(m) implies #[trigger] Self::pairs(&r, m)
                == rel_comp(size as nat, Self::pairs(&elem, m)) by {
            }
        }
        r
    }

    fn binrel_meet(&mut self, elem1: ALG::Elem, elem2: ALG::Elem) -> (r: ALG::Elem)
        ensures
            final(self).extends(old(self)),
    {
        runtime_assert(self.is_binary_rel(&elem1));
        runtime_assert(self.is_binary_rel(&elem2));
        let r = self.alg.tensor_and(elem1, elem2);
        proof {
            assert forall|m: ALG::Model| self.admits(m) implies #[trigger] Self::pairs(&r, m)
                == rel_meet(Self::pairs(&elem1, m), Self::pairs(&elem2, m)) by {
                assert(Self::pairs(&r, m) =~= rel_meet(
                    Self::pairs(&elem1, m),
                    Self::pairs(&elem2, m),
                ));
            }
        }
        r
    }

    fn binrel_join(&mut self, elem1: ALG::Elem, elem2: ALG::Elem) -> (r: ALG::Elem)
        ensures
            final(self).extends(old(self)),
    {
        runtime_assert(self.is_binary_rel(&elem1));
        runtime_assert(self.is_binary_rel(&elem2));
        let r = self.alg.tensor_or(elem1, elem2);
        proof {
            assert forall|m: ALG::Model| self.admits(m) implies #[trigger] Self::pairs(&r, m)
                == rel_join(Self::pairs(&elem1, m), Self::pairs(&elem2, m)) by {
            }
        }
        r
    }

    fn binrel_inv(&mut self, elem: ALG::Elem) -> (r: ALG::Elem)
        ensures
            final(self).extends(old(self)),
    {
        runtime_assert(self.is_binary_rel(&elem));
        let shape = self.new_shape(2);
        let mapping: [usize; 2] = [1, 0];
        let r = self.alg.tensor_polymer(elem, shape, mapping.as_slice());
        proof {
            let size = self.size;
            assert forall|m: ALG::Model| self.admits(m) implies #[trigger] Self::pairs(&r, m)
                == rel_inv(Self::pairs(&elem, m)) by {
                assert forall|p: (nat, nat)| Self::pairs(&r, m).contains(p) == rel_inv(
                    Self::pairs(&elem, m),
                ).contains(p) by {
                    if p.0 < size && p.1 < size {
                        let x = p.0 as usize;
                        let y = p.1 as usize;
                        assert(remap(pair(x, y), mapping@) =~= pair(y, x));
                    }
                }
            }
        }
        r
    }

    fn binrel_circ(&mut self, elem1: ALG::Elem, elem2: ALG::Elem) -> (r: ALG::Elem)
        ensures
            final(self).extends(old(self)),
    {
        runtime_assert(self.is_binary_rel(&elem1));
        runtime_assert(self.is_binary_rel(&elem2));
        let first: [usize; 2] = [1, 0];
        let second: [usize; 2] = [0, 2];
        proof {
            lemma_square_fits(self.size);
        }
        let shape1 = self.new_shape(3);
        let left = self.alg.tensor_polymer(elem1, shape1, first.as_slice());
        let shape2 = self.new_shape(3);
        let right = self.alg.tensor_polymer(elem2, shape2, second.as_slice());
        let both = self.alg.tensor_and(left, right);
        let r = self.alg.tensor_any(both);
        proof {
            let size = self.size;
            assert forall|m: ALG::Model| self.admits(m) implies #[trigger] Self::pairs(&r, m)
                == rel_circ(Self::pairs(&elem1, m), Self::pairs(&elem2, m)) by {
                lemma_circ_pairs::<ALG>(
                    size,
                    &elem1,
                    &elem2,
                    &left,
                    &right,
                    &both,
                    &r,
                    first@,
                    second@,
                    m,
                );
            }
        }
        r
    }
}

} // verus!
