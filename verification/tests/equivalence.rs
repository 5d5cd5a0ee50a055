use uasat::equivalence::{
    blocking_clause, reflexive_clauses, symmetric_clauses, transitive_clauses, Literal,
};

fn pos(var: usize) -> Literal {
    Literal {
        var,
        positive: true,
    }
}

fn neg(var: usize) -> Literal {
    Literal {
        var,
        positive: false,
    }
}

fn satisfied(assignment: &[bool], clauses: &[Vec<Literal>]) -> bool {
    clauses
        .iter()
        .all(|clause| clause.iter().any(|lit| assignment[lit.var] == lit.positive))
}

/// The number of assignments to a table of the given size that satisfy the
/// three families of clauses.
fn count_models(size: usize) -> usize {
    let mut clauses = reflexive_clauses(size);
    clauses.extend(symmetric_clauses(size));
    clauses.extend(transitive_clauses(size));
    let cells = size * size;
    let mut count = 0;
    for code in 0..(1usize << cells) {
        let assignment: Vec<bool> = (0..cells).map(|v| (code >> v) & 1 != 0).collect();
        if satisfied(&assignment, &clauses) {
            count += 1;
        }
    }
    count
}

#[test]
fn reflexive_clauses_of_a_pair() {
    assert_eq!(reflexive_clauses(2), vec![vec![pos(0)], vec![pos(3)]]);
    assert_eq!(
        reflexive_clauses(3),
        vec![vec![pos(0)], vec![pos(4)], vec![pos(8)]]
    );
}

#[test]
fn symmetric_clauses_of_a_pair() {
    assert_eq!(
        symmetric_clauses(2),
        vec![
            vec![neg(0), pos(0)],
            vec![neg(1), pos(2)],
            vec![neg(2), pos(1)],
            vec![neg(3), pos(3)],
        ]
    );
}

#[test]
fn transitive_clauses_of_a_pair() {
    assert_eq!(
        transitive_clauses(2),
        vec![
            vec![neg(0), neg(0), pos(0)],
            vec![neg(0), neg(1), pos(1)],
            vec![neg(1), neg(2), pos(0)],
            vec![neg(1), neg(3), pos(1)],
            vec![neg(2), neg(0), pos(2)],
            vec![neg(2), neg(1), pos(3)],
            vec![neg(3), neg(2), pos(2)],
            vec![neg(3), neg(3), pos(3)],
        ]
    );
}

#[test]
fn families_have_one_clause_per_tuple() {
    for size in 0..6 {
        assert_eq!(reflexive_clauses(size).len(), size);
        assert_eq!(symmetric_clauses(size).len(), size * size);
        assert_eq!(transitive_clauses(size).len(), size * size * size);
    }
}

#[test]
fn empty_universe_needs_no_clause() {
    assert_eq!(reflexive_clauses(0), Vec::<Vec<Literal>>::new());
    assert_eq!(symmetric_clauses(0), Vec::<Vec<Literal>>::new());
    assert_eq!(transitive_clauses(0), Vec::<Vec<Literal>>::new());
    assert_eq!(count_models(0), 1);
}

#[test]
fn models_are_the_equivalence_relations() {
    assert_eq!(count_models(1), 1);
    assert_eq!(count_models(2), 2);
    assert_eq!(count_models(3), 5);
    assert_eq!(count_models(4), 15);
}

#[test]
fn blocking_clause_negates_every_value() {
    assert_eq!(
        blocking_clause(&[true, false, true]),
        vec![neg(0), pos(1), neg(2)]
    );
    assert_eq!(blocking_clause(&[]), Vec::<Literal>::new());
}

#[test]
fn blocking_clause_rules_out_one_assignment() {
    let blocked = [true, false, true];
    let clause = vec![blocking_clause(&blocked)];
    for code in 0..8usize {
        let assignment: Vec<bool> = (0..3).map(|v| (code >> v) & 1 != 0).collect();
        assert_eq!(satisfied(&assignment, &clause), assignment != blocked);
    }
}
