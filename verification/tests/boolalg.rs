use uasat::alg::two_element_alg::TwoElementAlg;
use uasat::alg::{
    AdditiveGroup, BooleanAlgebra, BoundedPartialOrder, DirectedGraph, Domain, Field, Lattice,
    Monoid, Semigroup,
};
use uasat::bits::bit_of;
use uasat::boolalg::{BoolAlg, Boolean};

const VALUES: [bool; 2] = [false, true];

#[test]
fn boolean_connectives() {
    let mut alg = Boolean::new();
    assert_eq!(alg.bool_lift(true), true);
    assert_eq!(alg.bool_lift(false), false);
    assert_eq!(alg.bool_zero(), false);
    assert_eq!(alg.bool_unit(), true);
    for a in VALUES {
        assert_eq!(alg.bool_not(a), !a);
        for b in VALUES {
            assert_eq!(alg.bool_or(a, b), a || b);
            assert_eq!(alg.bool_and(a, b), a && b);
            assert_eq!(alg.bool_xor(a, b), a != b);
            assert_eq!(alg.bool_equ(a, b), a == b);
            assert_eq!(alg.bool_imp(a, b), !a || b);
        }
    }
}

#[test]
fn full_adder_combinators() {
    let mut alg = Boolean::new();
    for a in VALUES {
        for b in VALUES {
            for c in VALUES {
                let count = a as u8 + b as u8 + c as u8;
                assert_eq!(alg.bool_ad3(a, b, c), count % 2 == 1);
                assert_eq!(alg.bool_maj(a, b, c), count >= 2);
            }
        }
    }
}

#[test]
fn bit_of_reads_twos_complement() {
    assert!(bit_of(13, 0));
    assert!(!bit_of(13, 1));
    assert!(bit_of(13, 2));
    assert!(bit_of(13, 3));
    assert!(!bit_of(13, 4));
    assert!(bit_of(-3, 0));
    assert!(!bit_of(-3, 1));
    assert!(bit_of(-3, 63));
    assert!(bit_of(-3, 64));
    assert!(bit_of(-3, 1000));
    assert!(!bit_of(13, 64));
    assert!(bit_of(i64::MIN, 63));
    assert!(!bit_of(i64::MIN, 62));
    assert!(!bit_of(i64::MAX, 63));
}

#[test]
fn two_element_bounded_lattice() {
    let alg = TwoElementAlg();
    assert_eq!(alg.bot(), false);
    assert_eq!(alg.top(), true);
    for a in VALUES {
        assert!(alg.contains(&a));
        assert_eq!(alg.meet(&a, &a), a);
        assert_eq!(alg.join(&a, &a), a);
        assert_eq!(alg.meet(&a, &alg.bot()), alg.bot());
        assert_eq!(alg.join(&a, &alg.top()), alg.top());
        assert_eq!(alg.meet(&a, &alg.top()), a);
        assert_eq!(alg.join(&a, &alg.bot()), a);
        assert!(alg.edge(&alg.bot(), &a));
        assert!(alg.edge(&a, &alg.top()));
        for b in VALUES {
            assert_eq!(alg.meet(&a, &b), a && b);
            assert_eq!(alg.join(&a, &b), a || b);
            assert_eq!(alg.meet(&a, &b), alg.meet(&b, &a));
            assert_eq!(alg.join(&a, &b), alg.join(&b, &a));
            assert_eq!(alg.edge(&a, &b), alg.meet(&a, &b) == a);
            assert_eq!(alg.equals(&a, &b), a == b);
            for c in VALUES {
                assert_eq!(
                    alg.meet(&alg.meet(&a, &b), &c),
                    alg.meet(&a, &alg.meet(&b, &c))
                );
                assert_eq!(
                    alg.join(&alg.join(&a, &b), &c),
                    alg.join(&a, &alg.join(&b, &c))
                );
            }
        }
    }
}

#[test]
fn two_element_boolean_algebra() {
    let alg = TwoElementAlg();
    for a in VALUES {
        assert_eq!(alg.not(&alg.not(&a)), a);
        assert_eq!(alg.not(&a), !a);
        for b in VALUES {
            assert_eq!(alg.xor(&a, &b), a != b);
            assert_eq!(alg.imp(&a, &b), alg.edge(&a, &b));
            assert_eq!(alg.imp(&a, &b), a <= b);
            assert_eq!(alg.equ(&a, &b), a == b);
        }
    }
    assert!(alg.logic().contains(&true));
}

#[test]
fn two_element_field() {
    let alg = TwoElementAlg();
    assert_eq!(alg.zero(), false);
    assert_eq!(alg.unit(), true);
    for a in VALUES {
        assert_eq!(alg.add(&a, &a), alg.zero());
        assert_eq!(alg.neg(&a), a);
        assert_eq!(alg.add(&a, &alg.neg(&a)), alg.zero());
        assert_eq!(alg.inv(&a), a);
        if a != alg.zero() {
            assert_eq!(alg.mul(&a, &alg.inv(&a)), alg.unit());
        }
        for b in VALUES {
            assert_eq!(alg.add(&a, &b), a ^ b);
            assert_eq!(alg.mul(&a, &b), a && b);
        }
    }
}
