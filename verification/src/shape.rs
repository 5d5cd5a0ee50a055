//! Shapes of dense arrays and the correspondence between coordinates and
//! positions in linear storage. The first axis varies fastest.

use vstd::arithmetic::div_mod::{lemma_fundamental_div_mod, lemma_fundamental_div_mod_converse};
use vstd::prelude::*;

verus! {

/// Number of coordinate tuples of a shape: the product of its axis sizes.
pub open spec fn volume(shape: Seq<usize>) -> nat
    decreases shape.len(),
{
    if shape.len() == 0 {
        1
    } else {
        shape[0] as nat * volume(shape.drop_first())
    }
}

/// The coordinates address a cell of the shape: one coordinate per axis, each
/// below the axis size.
pub open spec fn in_range(shape: Seq<usize>, coords: Seq<usize>) -> bool {
    &&& coords.len() == shape.len()
    &&& forall|i: int| 0 <= i < shape.len() ==> coords[i] < shape[i]
}

/// Every axis has the given size.
pub open spec fn rectangular(shape: Seq<usize>, size: usize) -> bool {
    forall|i: int| 0 <= i < shape.len() ==> shape[i] == size
}

/// Place of a cell in linear storage.
pub open spec fn position(shape: Seq<usize>, coords: Seq<usize>) -> nat
    decreases shape.len(),
{
    if shape.len() == 0 {
        0
    } else {
        coords[0] as nat + shape[0] as nat * position(shape.drop_first(), coords.drop_first())
    }
}

/// Coordinates of the cell at a place in linear storage.
pub open spec fn coords_of(shape: Seq<usize>, k: nat) -> Seq<usize>
    decreases shape.len(),
{
    if shape.len() == 0 {
        Seq::empty()
    } else {
        seq![(k % shape[0] as nat) as usize] + coords_of(shape.drop_first(), k / shape[0] as nat)
    }
}

/// A shape with a cell has no empty axis, and dropping its first axis does
/// not enlarge it.
pub proof fn lemma_volume_positive(shape: Seq<usize>)
    requires
        volume(shape) > 0,
    ensures
        forall|i: int| 0 <= i < shape.len() ==> shape[i] > 0,
        shape.len() > 0 ==> 0 < volume(shape.drop_first()) <= volume(shape),
    decreases shape.len(),
{
    if shape.len() > 0 {
        let rest = shape.drop_first();
        let d = shape[0] as nat;
        assert(d > 0 && volume(rest) > 0 && volume(rest) <= d * volume(rest)) by (nonlinear_arith)
            requires
                d * volume(rest) > 0,
        ;
        lemma_volume_positive(rest);
        assert forall|i: int| 0 <= i < shape.len() implies shape[i] > 0 by {
            if i > 0 {
                assert(shape[i] == rest[i - 1]);
            }
        }
    }
}

/// A cell's place is below the volume.
pub proof fn lemma_position_bound(shape: Seq<usize>, coords: Seq<usize>)
    requires
        in_range(shape, coords),
    ensures
        position(shape, coords) < volume(shape),
    decreases shape.len(),
{
    if shape.len() > 0 {
        let rest = shape.drop_first();
        let tail = coords.drop_first();
        lemma_position_bound(rest, tail);
        let d = shape[0] as nat;
        let c = coords[0] as nat;
        let p = position(rest, tail);
        let v = volume(rest);
        assert(c + d * p < d * v) by (nonlinear_arith)
            requires
                c < d,
                p < v,
        ;
    }
}

/// The place of a cell among the cells that share its first coordinates is
/// no greater than its place among all cells.
pub proof fn lemma_suffix_position(shape: Seq<usize>, coords: Seq<usize>, i: int)
    requires
        in_range(shape, coords),
        0 <= i <= shape.len(),
    ensures
        position(shape.skip(i), coords.skip(i)) <= position(shape, coords),
    decreases i,
{
    if i == 0 {
        assert(shape.skip(0) =~= shape);
        assert(coords.skip(0) =~= coords);
    } else {
        lemma_suffix_position(shape, coords, i - 1);
        let suffix = shape.skip(i - 1);
        let tail = coords.skip(i - 1);
        assert(suffix.drop_first() =~= shape.skip(i));
        assert(tail.drop_first() =~= coords.skip(i));
        let d = suffix[0] as nat;
        let p = position(shape.skip(i), coords.skip(i));
        assert(tail[0] < suffix[0]);
        assert(p <= d * p) by (nonlinear_arith)
            requires
                d >= 1,
        ;
    }
}

/// Going from coordinates to a place and back gives the coordinates.
pub proof fn lemma_coords_of_position(shape: Seq<usize>, coords: Seq<usize>)
    requires
        in_range(shape, coords),
    ensures
        coords_of(shape, position(shape, coords)) == coords,
    decreases shape.len(),
{
    if shape.len() > 0 {
        let rest = shape.drop_first();
        let tail = coords.drop_first();
        lemma_coords_of_position(rest, tail);
        let d = shape[0] as int;
        let c = coords[0] as int;
        let p = position(rest, tail) as int;
        lemma_fundamental_div_mod_converse(c + d * p, d, p, c);
    }
}

/// Going from a place below the volume to coordinates and back gives the
/// place, and the coordinates address a cell.
pub proof fn lemma_position_of_coords(shape: Seq<usize>, k: nat)
    requires
        k < volume(shape),
    ensures
        in_range(shape, coords_of(shape, k)),
        position(shape, coords_of(shape, k)) == k,
    decreases shape.len(),
{
    if shape.len() > 0 {
        let rest = shape.drop_first();
        let d = shape[0] as nat;
        let q = k / d;
        let r = k % d;
        lemma_fundamental_div_mod(k as int, d as int);
        assert(q < volume(rest)) by (nonlinear_arith)
            requires
                k < d * volume(rest),
                k == d * q + r,
                0 <= r,
                d > 0,
        ;
        lemma_position_of_coords(rest, q);
        let coords = coords_of(shape, k);
        assert(coords.drop_first() =~= coords_of(rest, q));
    }
}

/// The sizes of the axes of a dense array, first axis first.
#[derive(Debug, Clone, PartialEq, Eq)]
pub struct Shape {
    pub dims: Vec<usize>,
}

impl View for Shape {
    type V = Seq<usize>;

    open spec fn view(&self) -> Seq<usize> {
        self.dims@
    }
}

impl Shape {
    /// Creates a shape from its axis sizes.
    pub fn new(dims: Vec<usize>) -> (r: Shape)
        ensures
            r@ == dims@,
    {
        Shape { dims }
    }

    /// Number of axes.
    pub fn len(&self) -> (n: usize)
        ensures
            n == self@.len(),
    {
        self.dims.len()
    }

    /// Whether the shape has no axis, which is the shape of a single scalar.
    pub fn is_empty(&self) -> (b: bool)
        ensures
            b == (self@.len() == 0),
    {
        self.dims.len() == 0
    }

    /// Whether every axis has the given size.
    pub fn is_rectangular(&self, size: usize) -> (b: bool)
        ensures
            b == rectangular(self@, size),
    {
        let mut i: usize = 0;
        while i < self.dims.len()
            invariant
                i <= self@.len(),
                forall|j: int| 0 <= j < i ==> self@[j] == size,
            decreases self@.len() - i,
        {
            if self.dims[i] != size {
                return false;
            }
            i += 1;
        }
        true
    }

    /// Number of cells.
    pub fn volume(&self) -> (n: usize)
        requires
            volume(self@) <= usize::MAX,
        ensures
            n == volume(self@),
    {
        let len = self.dims.len();
        let mut i: usize = 0;
        while i < len
            invariant
                i <= len == self@.len(),
                forall|j: int| 0 <= j < i ==> self@[j] > 0,
            decreases len - i,
        {
            if self.dims[i] == 0 {
                proof {
                    if volume(self@) > 0 {
                        lemma_volume_positive(self@);
                    }
                }
                return 0;
            }
            i += 1;
        }
        let mut n: usize = 1;
        proof {
            lemma_suffix_volume(self@, i as int);
        }
        while i > 0
            invariant
                i <= len == self@.len(),
                forall|j: int| 0 <= j < len ==> self@[j] > 0,
                n == volume(self@.skip(i as int)),
                0 < volume(self@.skip(i as int)) <= volume(self@) <= usize::MAX,
            decreases i,
        {
            i -= 1;
            proof {
                let suffix = self@.skip(i as int);
                assert(suffix.drop_first() =~= self@.skip(i + 1));
                lemma_suffix_volume(self@, i as int);
            }
            n = self.dims[i] * n;
        }
        proof {
            assert(self@.skip(0) =~= self@);
        }
        n
    }

    /// Number of cells, unless it does not fit in memory.
    pub fn checked_volume(&self) -> (n: Option<usize>)
        ensures
            n == if volume(self@) <= usize::MAX {
                Some(volume(self@) as usize)
            } else {
                None
            },
    {
        let len = self.dims.len();
        let mut i: usize = 0;
        while i < len
            invariant
                i <= len == self@.len(),
                forall|j: int| 0 <= j < i ==> self@[j] > 0,
            decreases len - i,
        {
            if self.dims[i] == 0 {
                proof {
                    if volume(self@) > 0 {
                        lemma_volume_positive(self@);
                    }
                }
                return Some(0);
            }
            i += 1;
        }
        let mut n: usize = 1;
        while i > 0
            invariant
                i <= len == self@.len(),
                forall|j: int| 0 <= j < len ==> self@[j] > 0,
                n == volume(self@.skip(i as int)),
            decreases i,
        {
            i -= 1;
            proof {
                let suffix = self@.skip(i as int);
                assert(suffix.drop_first() =~= self@.skip(i + 1));
                lemma_suffix_volume(self@, i as int);
            }
            match self.dims[i].checked_mul(n) {
                Some(product) => {
                    n = product;
                },
                None => {
                    return None;
                },
            }
        }
        proof {
            assert(self@.skip(0) =~= self@);
        }
        Some(n)
    }

    /// Place in linear storage of the cell with the given coordinates.
    pub fn position(&self, coords: &[usize]) -> (k: usize)
        requires
            in_range(self@, coords@),
            position(self@, coords@) <= usize::MAX,
        ensures
            k == position(self@, coords@),
    {
        let mut i: usize = self.dims.len();
        let mut k: usize = 0;
        while i > 0
            invariant
                i <= self@.len(),
                in_range(self@, coords@),
                position(self@, coords@) <= usize::MAX,
                k == position(self@.skip(i as int), coords@.skip(i as int)),
            decreases i,
        {
            i -= 1;
            proof {
                let suffix = self@.skip(i as int);
                let tail = coords@.skip(i as int);
                assert(suffix.drop_first() =~= self@.skip(i + 1));
                assert(tail.drop_first() =~= coords@.skip(i + 1));
                lemma_suffix_position(self@, coords@, i as int);
                assert(self@[i as int] * k <= position(suffix, tail)) by (nonlinear_arith)
                    requires
                        position(suffix, tail) == coords@[i as int] + self@[i as int] * k,
                ;
            }
            k = coords[i] + self.dims[i] * k;
        }
        proof {
            assert(self@.skip(0) =~= self@);
            assert(coords@.skip(0) =~= coords@);
        }
        k
    }

    /// Coordinates of the cell at a place in linear storage.
    pub fn coords_of(&self, k: usize) -> (coords: Vec<usize>)
        requires
            k < volume(self@),
        ensures
            coords@ == coords_of(self@, k as nat),
    {
        let len = self.dims.len();
        let mut coords: Vec<usize> = Vec::with_capacity(len);
        let mut rest: usize = k;
        let mut i: usize = 0;
        proof {
            lemma_volume_positive(self@);
            assert(self@.skip(0) =~= self@);
        }
        while i < len
            invariant
                i <= len == self@.len(),
                forall|j: int| 0 <= j < len ==> self@[j] > 0,
                coords_of(self@, k as nat) == coords@ + coords_of(
                    self@.skip(i as int),
                    rest as nat,
                ),
            decreases len - i,
        {
            let d = self.dims[i];
            proof {
                let suffix = self@.skip(i as int);
                assert(suffix.drop_first() =~= self@.skip(i + 1));
            }
            coords.push(rest % d);
            rest = rest / d;
            i += 1;
        }
        coords
    }
}

/// Where no axis is empty, the volume of a suffix of the axes is positive and
/// at most the volume of the whole.
pub proof fn lemma_suffix_volume(shape: Seq<usize>, i: int)
    requires
        0 <= i <= shape.len(),
        forall|j: int| 0 <= j < shape.len() ==> shape[j] > 0,
    ensures
        0 < volume(shape.skip(i)) <= volume(shape),
    decreases i,
{
    if i == 0 {
        assert(shape.skip(0) =~= shape);
        lemma_all_positive_volume(shape);
    } else {
        lemma_suffix_volume(shape, i - 1);
        let prev = shape.skip(i - 1);
        assert(prev.drop_first() =~= shape.skip(i));
        lemma_volume_positive(prev);
    }
}

/// A shape without an empty axis has a cell.
pub proof fn lemma_all_positive_volume(shape: Seq<usize>)
    requires
        forall|j: int| 0 <= j < shape.len() ==> shape[j] > 0,
    ensures
        volume(shape) > 0,
    decreases shape.len(),
{
    if shape.len() > 0 {
        let rest = shape.drop_first();
        lemma_all_positive_volume(rest);
        assert(shape[0] as nat * volume(rest) > 0) by (nonlinear_arith)
            requires
                shape[0] > 0,
                volume(rest) > 0,
        ;
    }
}

} // verus!
