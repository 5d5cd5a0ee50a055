use uasat::boolalg::{BoolAlg, Valuation};
use uasat::boolvec::BoolVecAlg;
use uasat::relation::{BinaryRelAlg, Universe};
use uasat::shape::Shape;
use uasat::tensor::{Tensor, TensorAlg};

/// An algebra whose elements are truth tables over three variables: bit `k`
/// of an element is its truth value under the assignment number `k`. It
/// counts the elements it has built.
struct Tables {
    built: usize,
}

const X: u8 = 0b1010_1010;
const Y: u8 = 0b1100_1100;
const Z: u8 = 0b1111_0000;

impl Valuation for Tables {
    type Elem = u8;
    type Model = u8;

    fn contains(&self, _elem: u8) -> bool {
        true
    }

    fn admits(&self, model: u8) -> bool {
        model < 8
    }

    fn eval(elem: u8, model: u8) -> bool {
        under(elem, model)
    }
}

impl BoolAlg for Tables {
    fn bool_lift(&self, elem: bool) -> u8 {
        if elem {
            0xff
        } else {
            0
        }
    }

    fn bool_not(&mut self, elem: u8) -> u8 {
        self.built += 1;
        !elem
    }

    fn bool_or(&mut self, elem1: u8, elem2: u8) -> u8 {
        self.built += 1;
        elem1 | elem2
    }

    fn bool_and(&mut self, elem1: u8, elem2: u8) -> u8 {
        self.built += 1;
        elem1 & elem2
    }

    fn bool_xor(&mut self, elem1: u8, elem2: u8) -> u8 {
        self.built += 1;
        elem1 ^ elem2
    }

    fn bool_equ(&mut self, elem1: u8, elem2: u8) -> u8 {
        self.built += 1;
        !(elem1 ^ elem2)
    }

    fn bool_imp(&mut self, elem1: u8, elem2: u8) -> u8 {
        self.built += 1;
        !elem1 | elem2
    }
}

fn under(elem: u8, model: u8) -> bool {
    (elem >> model) & 1 != 0
}

fn number_under(bits: &Vec<u8>, model: u8) -> u64 {
    let mut value = 0;
    for (i, bit) in bits.iter().enumerate() {
        if under(*bit, model) {
            value |= 1 << i;
        }
    }
    value
}

#[test]
fn derived_combinators_of_a_symbolic_algebra() {
    let mut alg = Tables { built: 0 };
    assert_eq!(alg.bool_zero(), 0);
    assert_eq!(alg.bool_unit(), 0xff);
    let sum = alg.bool_ad3(X, Y, Z);
    let carry = alg.bool_maj(X, Y, Z);
    for model in 0..8 {
        let count = under(X, model) as u8 + under(Y, model) as u8 + under(Z, model) as u8;
        assert_eq!(under(sum, model), count % 2 == 1);
        assert_eq!(under(carry, model), count >= 2);
    }
    assert!(alg.built > 0);
}

#[test]
fn symbolic_arithmetic_holds_under_every_model() {
    let mut alg = Tables { built: 0 };
    let one = alg.bool_lift(true);
    let zero = alg.bool_lift(false);
    let a = vec![X, Y, one, zero];
    let b = vec![Z, X, Y, one];
    let sum = alg.num_add(&a, &b);
    let diff = alg.num_sub(&a, &b);
    let neg = alg.num_neg(&a);
    assert_eq!(sum.len(), 4);
    assert_eq!(diff.len(), 4);
    assert_eq!(neg.len(), 4);
    for model in 0..8 {
        let x = number_under(&a, model);
        let y = number_under(&b, model);
        assert_eq!(number_under(&sum, model), (x + y) % 16);
        assert_eq!(number_under(&diff, model), (16 + x - y) % 16);
        assert_eq!(number_under(&neg, model), (16 - x) % 16);
    }
    assert!(alg.built > 0);
}

#[test]
fn symbolic_bitwise_operations_hold_under_every_model() {
    let mut alg = Tables { built: 0 };
    let a = vec![X, Y];
    let b = vec![Z, X];
    let not = alg.bit_not(&a);
    let or = alg.bit_or(&a, &b);
    let and = alg.bit_and(&a, &b);
    let xor = alg.bit_add(&a, &b);
    let equ = alg.bit_equ(&a, &b);
    let leq = alg.bit_leq(&a, &b);
    for model in 0..8 {
        for i in 0..2 {
            let p = under(a[i], model);
            let q = under(b[i], model);
            assert_eq!(under(not[i], model), !p);
            assert_eq!(under(or[i], model), p || q);
            assert_eq!(under(and[i], model), p && q);
            assert_eq!(under(xor[i], model), p != q);
            assert_eq!(under(equ[i], model), p == q);
            assert_eq!(under(leq[i], model), !p || q);
        }
    }
}

#[test]
fn symbolic_composition_holds_under_every_model() {
    let mut universe = Universe::new(Tables { built: 0 }, 2);
    let r = Tensor {
        shape: Shape::new(vec![2, 2]),
        elems: vec![X, Y, Z, 0xff],
    };
    let s = Tensor {
        shape: Shape::new(vec![2, 2]),
        elems: vec![Y, 0, X, Z],
    };
    let r_cells = r.elems.clone();
    let s_cells = s.elems.clone();
    let circ = universe.binrel_circ(r, s);
    assert_eq!(<Tables as TensorAlg>::shape(&circ).dims, vec![2, 2]);
    for model in 0..8 {
        for x in 0..2 {
            for z in 0..2 {
                let mut linked = false;
                for y in 0..2 {
                    linked |= under(r_cells[x + 2 * y], model) && under(s_cells[y + 2 * z], model);
                }
                assert_eq!(under(circ.elems[x + 2 * z], model), linked);
            }
        }
    }
}
