use uasat::boolalg::Boolean;
use uasat::shape::Shape;
use uasat::tensor::{Tensor, TensorAlg};

#[test]
fn shape_queries() {
    let shape = Shape::new(vec![2, 3, 4]);
    assert_eq!(shape.len(), 3);
    assert!(!shape.is_empty());
    assert!(!shape.is_rectangular(2));
    assert_eq!(shape.volume(), 24);
    let scalar = Shape::new(vec![]);
    assert_eq!(scalar.len(), 0);
    assert!(scalar.is_empty());
    assert!(scalar.is_rectangular(7));
    assert_eq!(scalar.volume(), 1);
    let cube = Shape::new(vec![5, 5, 5]);
    assert!(cube.is_rectangular(5));
    assert!(!cube.is_rectangular(4));
    assert_eq!(cube.volume(), 125);
    assert_eq!(Shape::new(vec![usize::MAX, 0, usize::MAX]).volume(), 0);
}

#[test]
fn checked_volume_tells_what_fits() {
    assert_eq!(Shape::new(vec![2, 3, 4]).checked_volume(), Some(24));
    assert_eq!(Shape::new(vec![]).checked_volume(), Some(1));
    assert_eq!(
        Shape::new(vec![usize::MAX]).checked_volume(),
        Some(usize::MAX)
    );
    assert_eq!(Shape::new(vec![usize::MAX, 2]).checked_volume(), None);
    assert_eq!(Shape::new(vec![1 << 32, 1 << 32]).checked_volume(), None);
    assert_eq!(
        Shape::new(vec![1 << 32, 1 << 31]).checked_volume(),
        Some(1 << 63)
    );
    assert_eq!(
        Shape::new(vec![usize::MAX, usize::MAX, 0]).checked_volume(),
        Some(0)
    );
}

#[test]
fn first_axis_varies_fastest() {
    let shape = Shape::new(vec![2, 3, 4]);
    assert_eq!(shape.position(&[0, 0, 0]), 0);
    assert_eq!(shape.position(&[1, 0, 0]), 1);
    assert_eq!(shape.position(&[0, 1, 0]), 2);
    assert_eq!(shape.position(&[0, 0, 1]), 6);
    assert_eq!(shape.position(&[1, 2, 3]), 23);
    assert_eq!(shape.coords_of(0), vec![0, 0, 0]);
    assert_eq!(shape.coords_of(7), vec![1, 0, 1]);
    assert_eq!(shape.coords_of(23), vec![1, 2, 3]);
    for place in 0..24 {
        assert_eq!(shape.position(&shape.coords_of(place)), place);
    }
    assert_eq!(Shape::new(vec![]).position(&[]), 0);
    let vast = Shape::new(vec![1 << 40, 1 << 40]);
    assert_eq!(vast.position(&[5, 0]), 5);
    assert_eq!(vast.position(&[0, 1]), 1 << 40);
    assert_eq!(vast.coords_of((1 << 41) + 3), vec![3, 2]);
    assert_eq!(Shape::new(vec![]).coords_of(0), Vec::<usize>::new());
}

#[test]
fn create_fills_every_cell() {
    let tensor = Tensor::create(Shape::new(vec![2, 3]), |c: &[usize]| 10 * c[0] + c[1]);
    assert_eq!(tensor.elems, vec![0, 10, 1, 11, 2, 12]);
    assert_eq!(tensor.shape().dims, vec![2, 3]);
    let scalar = Tensor::create(Shape::new(vec![]), |c: &[usize]| c.len() == 0);
    assert_eq!(scalar.elems, vec![true]);
    let empty = Tensor::create(Shape::new(vec![3, 0]), |_| 1u8);
    assert_eq!(empty.elems, Vec::<u8>::new());
}

#[test]
fn polymer_transposes_spreads_and_takes_diagonals() {
    let tensor = Tensor::create(Shape::new(vec![2, 3]), |c: &[usize]| 10 * c[0] + c[1]);
    let transposed = tensor.polymer(Shape::new(vec![3, 2]), &[1, 0]);
    assert_eq!(transposed.elems, vec![0, 1, 2, 10, 11, 12]);
    let spread = tensor.polymer(Shape::new(vec![2, 2, 3]), &[0, 2]);
    assert_eq!(spread.elems, vec![0, 10, 0, 10, 1, 11, 1, 11, 2, 12, 2, 12]);
    let square = Tensor::create(Shape::new(vec![3, 3]), |c: &[usize]| 10 * c[0] + c[1]);
    let diagonal = square.polymer(Shape::new(vec![3]), &[0, 0]);
    assert_eq!(diagonal.elems, vec![0, 11, 22]);
    let same = square.polymer(Shape::new(vec![3, 3]), &[0, 1]);
    assert_eq!(same.elems, square.elems);
}

#[test]
fn pointwise_connectives() {
    let mut alg = Boolean::new();
    let lift = |bits: [bool; 4]| {
        Tensor::create(Shape::new(vec![2, 2]), |c: &[usize]| bits[c[0] + 2 * c[1]])
    };
    let a = [false, false, true, true];
    let b = [false, true, false, true];
    assert_eq!(
        alg.tensor_not(lift(a)).elems,
        vec![true, true, false, false]
    );
    assert_eq!(
        alg.tensor_or(lift(a), lift(b)).elems,
        vec![false, true, true, true]
    );
    assert_eq!(
        alg.tensor_and(lift(a), lift(b)).elems,
        vec![false, false, false, true]
    );
    assert_eq!(
        alg.tensor_xor(lift(a), lift(b)).elems,
        vec![false, true, true, false]
    );
    assert_eq!(
        alg.tensor_equ(lift(a), lift(b)).elems,
        vec![true, false, false, true]
    );
    assert_eq!(
        alg.tensor_imp(lift(a), lift(b)).elems,
        vec![true, true, false, true]
    );
    assert_eq!(alg.tensor_or(lift(a), lift(b)).shape.dims, vec![2, 2]);
}

#[test]
fn any_reduces_the_first_axis() {
    let mut alg = Boolean::new();
    let tensor = Tensor::create(Shape::new(vec![3, 2, 2]), |c: &[usize]| {
        (c[1] == 0 && c[2] == 0 && c[0] == 2) || (c[1] == 1 && c[2] == 1)
    });
    let reduced = alg.tensor_any(tensor);
    assert_eq!(reduced.shape.dims, vec![2, 2]);
    assert_eq!(reduced.elems, vec![true, false, false, true]);
    let vector = Tensor::create(Shape::new(vec![4]), |_| false);
    let none = alg.tensor_any(vector);
    assert_eq!(none.shape.dims, Vec::<usize>::new());
    assert_eq!(none.elems, vec![false]);
    let hollow = Tensor::create(Shape::new(vec![0, 2]), |_| true);
    let nothing = alg.tensor_any(hollow);
    assert_eq!(nothing.elems, vec![false, false]);
}

#[test]
fn polymer_through_the_algebra() {
    let mut alg = Boolean::new();
    let tensor = Tensor::create(Shape::new(vec![2, 2]), |c: &[usize]| c[0] < c[1]);
    let transposed = alg.tensor_polymer(tensor, Shape::new(vec![2, 2]), &[1, 0]);
    assert_eq!(transposed.elems, vec![false, true, false, false]);
}
