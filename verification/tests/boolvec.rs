use uasat::boolalg::Boolean;
use uasat::boolvec::{BoolVecAlg, Checker};

fn value_of(bits: &Vec<bool>) -> u64 {
    let mut value = 0u64;
    for (i, bit) in bits.iter().enumerate() {
        if *bit {
            value |= 1 << i;
        }
    }
    value
}

#[test]
fn num_lift() {
    let alg = Boolean::new();
    let v1 = alg.bit_lift(&[true, false, true, true]);
    let v2 = alg.num_lift(4, 13);
    assert_eq!(v1, v2);

    let v3 = alg.num_lift(4, -3);
    assert_eq!(v1, v3);
}

#[test]
fn concat() {
    let alg = Boolean::new();
    let v1 = alg.num_lift(4, 0x3);
    let v2 = alg.num_lift(4, 0xd);
    let v3 = alg.num_lift(8, 0xd3);
    let v4 = alg.concat(&[&v1, &v2]);
    assert_eq!(v3, v4);
}

#[test]
fn numops() {
    let mut alg = Boolean::new();
    let v1 = alg.num_lift(8, 17);
    let v2 = alg.num_lift(8, 73);
    let v3 = alg.num_lift(8, 90);
    let v4 = alg.num_add(&v1, &v2);
    assert_eq!(v3, v4);
    let v5 = alg.num_lift(8, -17);
    let v6 = alg.num_neg(&v1);
    assert_eq!(v5, v6);
    let v7 = alg.num_lift(8, -56);
    let v8 = alg.num_sub(&v1, &v2);
    assert_eq!(v7, v8);
}

#[test]
fn numops_unsigned_encodings() {
    let mut alg = Boolean::new();
    let v1 = alg.num_lift(8, 17);
    let v2 = alg.num_lift(8, 73);
    assert_eq!(value_of(&alg.num_add(&v1, &v2)), 90);
    assert_eq!(value_of(&alg.num_neg(&v1)), 239);
    assert_eq!(value_of(&alg.num_sub(&v1, &v2)), 200);
}

#[test]
fn num_lift_is_least_significant_bit_first() {
    let alg = Boolean::new();
    assert_eq!(alg.num_lift(4, 1), vec![true, false, false, false]);
    assert_eq!(alg.num_lift(4, 8), vec![false, false, false, true]);
    assert_eq!(alg.num_lift(3, 6), vec![false, true, true]);
    assert_eq!(alg.num_lift(0, 5), Vec::<bool>::new());
}

#[test]
fn num_lift_matches_shifted_bits() {
    let alg = Boolean::new();
    for value in [
        0i64,
        1,
        -1,
        13,
        -3,
        90,
        i64::MAX,
        i64::MIN,
        0x1234_5678_9abc,
    ] {
        let bits = alg.num_lift(64, value);
        assert_eq!(bits.len(), 64);
        for i in 0..64 {
            assert_eq!(bits[i], (value >> i) & 1 != 0);
        }
    }
}

#[test]
fn num_lift_extends_the_sign_beyond_64_bits() {
    let alg = Boolean::new();
    let negative = alg.num_lift(70, -2);
    assert_eq!(negative.len(), 70);
    assert!(!negative[0]);
    for i in 1..70 {
        assert!(negative[i]);
    }
    let positive = alg.num_lift(70, 5);
    assert_eq!(value_of(&positive[..64].to_vec()), 5);
    for i in 64..70 {
        assert!(!positive[i]);
    }
}

#[test]
fn arithmetic_wraps_at_the_width() {
    let mut alg = Boolean::new();
    let top = alg.num_lift(8, 255);
    let one = alg.num_lift(8, 1);
    let zero = alg.num_lift(8, 0);
    assert_eq!(alg.num_add(&top, &one), zero);
    assert_eq!(alg.num_sub(&zero, &one), top);
    assert_eq!(alg.num_neg(&zero), zero);
    let lowest = alg.num_lift(8, -128);
    assert_eq!(alg.num_neg(&lowest), lowest);
}

#[test]
fn arithmetic_agrees_with_wrapping_integers() {
    let mut alg = Boolean::new();
    for a in -8i64..8 {
        for b in -8i64..8 {
            let va = alg.num_lift(4, a);
            let vb = alg.num_lift(4, b);
            assert_eq!(alg.num_add(&va, &vb), alg.num_lift(4, a + b));
            assert_eq!(alg.num_sub(&va, &vb), alg.num_lift(4, a - b));
            assert_eq!(alg.num_neg(&va), alg.num_lift(4, -a));
            assert_eq!(
                value_of(&alg.num_add(&va, &vb)),
                ((a + b).rem_euclid(16)) as u64
            );
        }
    }
}

#[test]
fn arithmetic_on_empty_vectors() {
    let mut alg = Boolean::new();
    let empty = alg.num_lift(0, 7);
    assert_eq!(alg.num_add(&empty, &empty), Vec::<bool>::new());
    assert_eq!(alg.num_sub(&empty, &empty), Vec::<bool>::new());
    assert_eq!(alg.num_neg(&empty), Vec::<bool>::new());
}

#[test]
fn bitwise_operations() {
    let mut alg = Boolean::new();
    let a = alg.bit_lift(&[false, false, true, true]);
    let b = alg.bit_lift(&[false, true, false, true]);
    assert_eq!(alg.bit_not(&a), vec![true, true, false, false]);
    assert_eq!(alg.bit_or(&a, &b), vec![false, true, true, true]);
    assert_eq!(alg.bit_and(&a, &b), vec![false, false, false, true]);
    assert_eq!(alg.bit_add(&a, &b), vec![false, true, true, false]);
    assert_eq!(alg.bit_equ(&a, &b), vec![true, false, false, true]);
    assert_eq!(alg.bit_leq(&a, &b), vec![true, true, false, true]);
    assert_eq!(<Boolean as BoolVecAlg>::len(&a), 4);
}

#[test]
fn concat_keeps_order_and_lengths() {
    let alg = Boolean::new();
    let a = alg.bit_lift(&[true, false]);
    let b = alg.bit_lift(&[]);
    let c = alg.bit_lift(&[false, true, true]);
    let all = alg.concat(&[&a, &b, &c]);
    assert_eq!(all, vec![true, false, false, true, true]);
    assert_eq!(all.len(), a.len() + b.len() + c.len());
    for i in 0..all.len() {
        if i < a.len() {
            assert_eq!(all[i], a[i]);
        } else {
            assert_eq!(all[i], c[i - a.len()]);
        }
    }
    assert_eq!(alg.concat(&[]), Vec::<bool>::new());
}

#[test]
fn checker_computes_lengths_only() {
    let mut checker: Checker = ();
    let a = checker.bit_lift(&[true, false, true]);
    assert_eq!(a, 3);
    let b = checker.num_lift(3, -1);
    assert_eq!(b, 3);
    assert_eq!(checker.bit_not(&a), 3);
    assert_eq!(checker.bit_or(&a, &b), 3);
    assert_eq!(checker.bit_and(&a, &b), 3);
    assert_eq!(checker.bit_add(&a, &b), 3);
    assert_eq!(checker.bit_equ(&a, &b), 3);
    assert_eq!(checker.bit_leq(&a, &b), 3);
    assert_eq!(checker.num_neg(&a), 3);
    assert_eq!(checker.num_add(&a, &b), 3);
    assert_eq!(checker.num_sub(&a, &b), 3);
    assert_eq!(checker.concat(&[&a, &b, &5]), 11);
    assert_eq!(checker.concat(&[]), 0);
    assert_eq!(<Checker as BoolVecAlg>::len(&a), 3);
}
