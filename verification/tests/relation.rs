use uasat::boolalg::Boolean;
use uasat::relation::{BinaryRelAlg, Universe};
use uasat::shape::Shape;
use uasat::tensor::{Tensor, TensorAlg};

type Rel = Tensor<bool>;

/// The relation on `{0, .., size - 1}` that holds the given pairs.
fn relation(size: usize, pairs: &[(usize, usize)]) -> Rel {
    Tensor::create(Shape::new(vec![size, size]), |c: &[usize]| {
        pairs.contains(&(c[0], c[1]))
    })
}

fn pairs_of(rel: &Rel) -> Vec<(usize, usize)> {
    let size = rel.shape.dims[0];
    let mut pairs = Vec::new();
    for x in 0..size {
        for y in 0..size {
            if rel.elems[x + size * y] {
                pairs.push((x, y));
            }
        }
    }
    pairs
}

fn samples() -> Vec<Rel> {
    vec![
        relation(3, &[]),
        relation(3, &[(0, 1)]),
        relation(3, &[(0, 1), (1, 2)]),
        relation(3, &[(0, 0), (1, 2), (2, 1), (2, 2)]),
        relation(3, &[(0, 2), (1, 0), (1, 1), (2, 0)]),
        relation(
            3,
            &[
                (0, 0),
                (0, 1),
                (0, 2),
                (1, 0),
                (1, 1),
                (1, 2),
                (2, 0),
                (2, 1),
                (2, 2),
            ],
        ),
    ]
}

fn copy(rel: &Rel) -> Rel {
    Tensor {
        shape: Shape::new(rel.shape.dims.clone()),
        elems: rel.elems.clone(),
    }
}

#[test]
fn shape_predicates() {
    let mut universe = Universe::new(Boolean::new(), 3);
    let scalar = universe.bool_lift(true);
    assert!(universe.is_scalar(&scalar));
    assert!(universe.is_relation(&scalar));
    assert!(!universe.is_binary_rel(&scalar));
    let square = universe.binrel_total();
    assert!(!universe.is_scalar(&square));
    assert!(universe.is_relation(&square));
    assert!(universe.is_binary_rel(&square));
    let cube: Rel = Tensor::create(Shape::new(vec![3, 3, 3]), |_| false);
    assert!(universe.is_relation(&cube));
    assert!(!universe.is_binary_rel(&cube));
    let oblong: Rel = Tensor::create(Shape::new(vec![3, 2]), |_| false);
    assert!(!universe.is_relation(&oblong));
    assert!(!universe.is_binary_rel(&oblong));
    let other: Rel = Tensor::create(Shape::new(vec![2, 2]), |_| false);
    assert!(!universe.is_binary_rel(&other));
    assert_eq!(universe.new_shape(3).dims, vec![3, 3, 3]);
    assert_eq!(universe.new_shape(0).dims, Vec::<usize>::new());
}

#[test]
fn universes_that_fit_in_memory() {
    let universe = Universe::new(Boolean::new(), 1000);
    assert!(universe.can_hold(0));
    assert!(universe.can_hold(2));
    assert!(universe.can_hold(3));
    assert!(universe.can_hold(6));
    assert!(!universe.can_hold(7));
    let huge = Universe::new(Boolean::new(), usize::MAX);
    assert!(huge.can_hold(1));
    assert!(!huge.can_hold(2));
    let empty = Universe::new(Boolean::new(), 0);
    assert!(empty.can_hold(0));
    assert!(empty.can_hold(3));
}

#[test]
fn constants() {
    let mut universe = Universe::new(Boolean::new(), 3);
    assert_eq!(pairs_of(&universe.binrel_empty()), vec![]);
    assert_eq!(pairs_of(&universe.binrel_lift(false)), vec![]);
    assert_eq!(pairs_of(&universe.binrel_total()).len(), 9);
    assert_eq!(pairs_of(&universe.binrel_lift(true)).len(), 9);
    assert_eq!(
        pairs_of(&universe.binrel_diag()),
        vec![(0, 0), (1, 1), (2, 2)]
    );
}

#[test]
fn operations_on_given_relations() {
    let mut universe = Universe::new(Boolean::new(), 3);
    let r = relation(3, &[(0, 1), (1, 2)]);
    let s = relation(3, &[(1, 2), (2, 0)]);
    assert_eq!(
        pairs_of(&universe.binrel_inv(copy(&r))),
        vec![(1, 0), (2, 1)]
    );
    assert_eq!(
        pairs_of(&universe.binrel_meet(copy(&r), copy(&s))),
        vec![(1, 2)]
    );
    assert_eq!(
        pairs_of(&universe.binrel_join(copy(&r), copy(&s))),
        vec![(0, 1), (1, 2), (2, 0)]
    );
    assert_eq!(
        pairs_of(&universe.binrel_circ(copy(&r), copy(&s))),
        vec![(0, 2), (1, 0)]
    );
    assert_eq!(
        pairs_of(&universe.binrel_circ(copy(&s), copy(&r))),
        vec![(2, 1)]
    );
    assert_eq!(
        pairs_of(&universe.binrel_comp(copy(&r))),
        vec![(0, 0), (0, 2), (1, 0), (1, 1), (2, 0), (2, 1), (2, 2)]
    );
}

#[test]
fn inverse_of_diagonal_is_diagonal() {
    for size in 0..5 {
        let mut universe = Universe::new(Boolean::new(), size);
        let diag = universe.binrel_diag();
        let inverse = universe.binrel_inv(copy(&diag));
        assert_eq!(inverse.elems, diag.elems);
        assert_eq!(inverse.shape.dims, vec![size, size]);
    }
}

#[test]
fn complement_is_an_involution() {
    let mut universe = Universe::new(Boolean::new(), 3);
    for r in samples() {
        let once = universe.binrel_comp(copy(&r));
        assert_ne!(once.elems, r.elems);
        let twice = universe.binrel_comp(once);
        assert_eq!(twice.elems, r.elems);
    }
}

#[test]
fn join_is_de_morgan_dual_of_meet() {
    let mut universe = Universe::new(Boolean::new(), 3);
    for r in samples() {
        for s in samples() {
            let direct = universe.binrel_join(copy(&r), copy(&s));
            let not_r = universe.binrel_comp(copy(&r));
            let not_s = universe.binrel_comp(copy(&s));
            let both = universe.binrel_meet(not_r, not_s);
            let dual = universe.binrel_comp(both);
            assert_eq!(direct.elems, dual.elems);
        }
    }
}

#[test]
fn composition_is_associative() {
    let mut universe = Universe::new(Boolean::new(), 3);
    for r in samples() {
        for s in samples() {
            for t in samples() {
                let rs = universe.binrel_circ(copy(&r), copy(&s));
                let left = universe.binrel_circ(rs, copy(&t));
                let st = universe.binrel_circ(copy(&s), copy(&t));
                let right = universe.binrel_circ(copy(&r), st);
                assert_eq!(left.elems, right.elems);
            }
        }
    }
}

#[test]
fn diagonal_is_the_unit_of_composition() {
    let mut universe = Universe::new(Boolean::new(), 3);
    for r in samples() {
        let diag = universe.binrel_diag();
        let right = universe.binrel_circ(copy(&r), diag);
        assert_eq!(right.elems, r.elems);
        let diag = universe.binrel_diag();
        let left = universe.binrel_circ(diag, copy(&r));
        assert_eq!(left.elems, r.elems);
    }
}

#[test]
fn empty_universe() {
    let mut universe = Universe::new(Boolean::new(), 0);
    let total = universe.binrel_total();
    assert!(universe.is_binary_rel(&total));
    assert_eq!(total.elems, Vec::<bool>::new());
    let diag = universe.binrel_diag();
    assert_eq!(diag.elems, Vec::<bool>::new());
    let comp = universe.binrel_comp(diag);
    let circ = universe.binrel_circ(total, comp);
    assert!(universe.is_binary_rel(&circ));
    assert_eq!(circ.elems, Vec::<bool>::new());
}

#[test]
fn scalar_front() {
    let mut universe = Universe::new(Boolean::new(), 4);
    for a in [false, true] {
        let x = universe.bool_lift(a);
        assert!(universe.is_scalar(&x));
        assert_eq!(x.elems, vec![a]);
        assert_eq!(universe.bool_not(x).elems, vec![!a]);
        for b in [false, true] {
            let x = universe.bool_lift(a);
            let y = universe.bool_lift(b);
            assert_eq!(universe.bool_or(x, y).elems, vec![a || b]);
            let x = universe.bool_lift(a);
            let y = universe.bool_lift(b);
            assert_eq!(universe.bool_xor(x, y).elems, vec![a != b]);
            let x = universe.bool_lift(a);
            let y = universe.bool_lift(b);
            assert_eq!(universe.bool_and(x, y).elems, vec![a && b]);
            let x = universe.bool_lift(a);
            let y = universe.bool_lift(b);
            assert_eq!(universe.bool_equ(x, y).elems, vec![a == b]);
            let x = universe.bool_lift(a);
            let y = universe.bool_lift(b);
            assert_eq!(universe.bool_imp(x, y).elems, vec![!a || b]);
        }
    }
}

#[test]
fn tensor_shape_of_results() {
    let mut alg = Boolean::new();
    let r = relation(3, &[(0, 1)]);
    assert_eq!(<Boolean as TensorAlg>::shape(&r).dims, vec![3, 3]);
    let lifted = alg.tensor_lift(copy(&r));
    assert_eq!(lifted.elems, r.elems);
}
