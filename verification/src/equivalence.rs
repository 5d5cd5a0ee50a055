//! The clauses that make a table of propositional variables an equivalence
//! relation, and the clause that rules one assignment out.
//!
//! The variables form a square table: variable `x * size + y` says that `x`
//! is related to `y`.

use vstd::arithmetic::div_mod::{lemma_fundamental_div_mod, lemma_fundamental_div_mod_converse};
use vstd::prelude::*;

verus! {

/// A propositional variable or its negation.
#[derive(Clone, Copy, Debug, PartialEq, Eq)]
pub struct Literal {
    pub var: usize,
    pub positive: bool,
}

/// The variable of the table that relates `x` to `y`.
pub open spec fn cell(size: usize, x: int, y: int) -> int {
    x * size + y
}

/// The literal that says that `x` is related to `y`, or that it is not.
pub open spec fn says(size: usize, x: int, y: int, positive: bool) -> Literal {
    Literal { var: cell(size, x, y) as usize, positive }
}

/// The clause that relates `x` to itself.
pub open spec fn reflexive_clause(size: usize, x: int) -> Seq<Literal> {
    seq![says(size, x, x, true)]
}

/// The clause that relates `y` to `x` where `x` is related to `y`.
pub open spec fn symmetric_clause(size: usize, x: int, y: int) -> Seq<Literal> {
    seq![says(size, x, y, false), says(size, y, x, true)]
}

/// The clause that relates `x` to `z` where `x` is related to `y` and `y`
/// to `z`.
pub open spec fn transitive_clause(size: usize, x: int, y: int, z: int) -> Seq<Literal> {
    seq![says(size, x, y, false), says(size, y, z, false), says(size, x, z, true)]
}

/// Whether the literal is true under the assignment.
pub open spec fn holds(lit: Literal, assignment: Seq<bool>) -> bool {
    lit.var < assignment.len() && assignment[lit.var as int] == lit.positive
}

/// Whether some literal of the clause is true under the assignment.
pub open spec fn satisfies(assignment: Seq<bool>, clause: Seq<Literal>) -> bool {
    exists|k: int| 0 <= k < clause.len() && holds(#[trigger] clause[k], assignment)
}

/// Whether the assignment relates `x` to `y`.
pub open spec fn relates(assignment: Seq<bool>, size: usize, x: int, y: int) -> bool {
    assignment[cell(size, x, y)]
}

/// The clauses of reflexivity, one per member.
pub open spec fn reflexive_family(size: usize) -> Seq<Seq<Literal>> {
    Seq::new(size as nat, |x: int| reflexive_clause(size, x))
}

/// The clauses of symmetry, one per pair of members, in the order of the
/// table.
pub open spec fn symmetric_family(size: usize) -> Seq<Seq<Literal>> {
    Seq::new(
        (size * size) as nat,
        |n: int| symmetric_clause(size, n / (size as int), n % (size as int)),
    )
}

/// The clauses of transitivity, one per triple of members: the clause for
/// `x`, `y` and `z` stands at the place `(x * size + y) * size + z`.
pub open spec fn transitive_family(size: usize) -> Seq<Seq<Literal>> {
    Seq::new(
        (size * size * size) as nat,
        |n: int|
            transitive_clause(
                size,
                (n / (size as int)) / (size as int),
                (n / (size as int)) % (size as int),
                n % (size as int),
            ),
    )
}

/// Whether the assignment satisfies every clause.
pub open spec fn satisfies_all(assignment: Seq<bool>, clauses: Seq<Seq<Literal>>) -> bool {
    forall|n: int| 0 <= n < clauses.len() ==> satisfies(assignment, #[trigger] clauses[n])
}

/// Whether the relation that the assignment stands for is reflexive,
/// symmetric and transitive.
pub open spec fn is_equivalence(assignment: Seq<bool>, size: usize) -> bool {
    &&& forall|x: int| 0 <= x < size ==> #[trigger] relates(assignment, size, x, x)
    &&& forall|x: int, y: int|
        0 <= x < size && 0 <= y < size && #[trigger] relates(assignment, size, x, y) ==> relates(
            assignment,
            size,
            y,
            x,
        )
    &&& forall|x: int, y: int, z: int|
        0 <= x < size && 0 <= y < size && 0 <= z < size && #[trigger] relates(
            assignment,
            size,
            x,
            y,
        ) && #[trigger] relates(assignment, size, y, z) ==> relates(assignment, size, x, z)
}

/// The vectors of a list of clauses as sequences.
pub open spec fn views(clauses: Seq<Vec<Literal>>) -> Seq<Seq<Literal>> {
    clauses.map_values(|clause: Vec<Literal>| clause@)
}

/// A cell of the table lies inside the table, and the table's rows do not
/// overlap.
pub proof fn lemma_cell(size: usize, x: int, y: int)
    requires
        0 <= x < size,
        0 <= y < size,
    ensures
        0 <= cell(size, x, y) < size * size,
        cell(size, x, y) / (size as int) == x,
        cell(size, x, y) % (size as int) == y,
{
    assert(0 <= x * size && x * size + size <= size * size) by (nonlinear_arith)
        requires
            0 <= x < size,
    ;
    lemma_fundamental_div_mod_converse(cell(size, x, y), size as int, x, y);
}

/// Every place in the table is a cell.
pub proof fn lemma_place(size: usize, n: int)
    requires
        0 <= n < size * size,
    ensures
        0 <= n / (size as int) < size,
        0 <= n % (size as int) < size,
        cell(size, n / (size as int), n % (size as int)) == n,
{
    let d = size as int;
    lemma_fundamental_div_mod(n, d);
    let q = n / d;
    assert(q >= d ==> d * q >= d * d) by (nonlinear_arith)
        requires
            d > 0,
    ;
    assert(d * q == q * d) by (nonlinear_arith);
}

/// A place in a row of the cube of triples lies inside the cube, and rows do
/// not overlap.
pub proof fn lemma_row(size: usize, row: int, z: int)
    requires
        0 <= row < size * size,
        0 <= z < size,
    ensures
        0 <= cell(size, row, z) < size * size * size,
        cell(size, row, z) / (size as int) == row,
        cell(size, row, z) % (size as int) == z,
{
    assert(0 <= row * size && row * size + size <= size * size * size) by (nonlinear_arith)
        requires
            0 <= row < size * size,
    ;
    lemma_fundamental_div_mod_converse(cell(size, row, z), size as int, row, z);
}

/// Every place in the cube of triples lies in a row of the table.
pub proof fn lemma_cube(size: usize, n: int)
    requires
        0 <= n < size * size * size,
    ensures
        0 <= n / (size as int) < size * size,
        0 <= n % (size as int) < size,
        cell(size, n / (size as int), n % (size as int)) == n,
{
    let d = size as int;
    lemma_fundamental_div_mod(n, d);
    let q = n / d;
    assert(q >= d * d ==> d * q >= d * d * d) by (nonlinear_arith)
        requires
            d > 0,
    ;
    assert(d * q == q * d) by (nonlinear_arith);
}

/// The clause that gives each variable the opposite of its value.
pub open spec fn blocking(values: Seq<bool>) -> Seq<Literal> {
    Seq::new(values.len(), |v: int| Literal { var: v as usize, positive: !values[v] })
}

/// The clauses that make the relation reflexive, one per member.
pub fn reflexive_clauses(size: usize) -> (clauses: Vec<Vec<Literal>>)
    requires
        size * size <= usize::MAX,
    ensures
        views(clauses@) == reflexive_family(size),
{
    let mut clauses: Vec<Vec<Literal>> = Vec::with_capacity(size);
    let mut x: usize = 0;
    while x < size
        invariant
            x <= size,
            size * size <= usize::MAX,
            clauses@.len() == x,
            forall|i: int| 0 <= i < x ==> (#[trigger] clauses@[i])@ == reflexive_clause(size, i),
        decreases size - x,
    {
        proof {
            lemma_cell(size, x as int, x as int);
        }
        let mut clause: Vec<Literal> = Vec::with_capacity(1);
        clause.push(Literal { var: x * size + x, positive: true });
        clauses.push(clause);
        x += 1;
    }
    clauses
}

/// The clauses that make the relation symmetric, one per pair of members,
/// in the order of the table.
pub fn symmetric_clauses(size: usize) -> (clauses: Vec<Vec<Literal>>)
    requires
        size * size <= usize::MAX,
    ensures
        views(clauses@) == symmetric_family(size),
{
    let mut clauses: Vec<Vec<Literal>> = Vec::with_capacity(size * size);
    let mut x: usize = 0;
    while x < size
        invariant
            x <= size,
            size * size <= usize::MAX,
            clauses@.len() == x * size,
            forall|n: int|
                0 <= n < x * size ==> (#[trigger] clauses@[n])@ == symmetric_clause(
                    size,
                    n / (size as int),
                    n % (size as int),
                ),
        decreases size - x,
    {
        let mut y: usize = 0;
        while y < size
            invariant
                x < size,
                y <= size,
                size * size <= usize::MAX,
                clauses@.len() == x * size + y,
                forall|n: int|
                    0 <= n < x * size + y ==> (#[trigger] clauses@[n])@ == symmetric_clause(
                        size,
                        n / (size as int),
                        n % (size as int),
                    ),
            decreases size - y,
        {
            proof {
                lemma_cell(size, x as int, y as int);
                lemma_cell(size, y as int, x as int);
            }
            let mut clause: Vec<Literal> = Vec::with_capacity(2);
            clause.push(Literal { var: x * size + y, positive: false });
            clause.push(Literal { var: y * size + x, positive: true });
            clauses.push(clause);
            y += 1;
        }
        proof {
            assert(x * size + size == (x + 1) * size) by (nonlinear_arith);
        }
        x += 1;
    }
    clauses
}

/// The clauses that make the relation transitive, one per triple of
/// members: the clause for `x`, `y` and `z` stands at the place
/// `(x * size + y) * size + z`.
pub fn transitive_clauses(size: usize) -> (clauses: Vec<Vec<Literal>>)
    requires
        size * size * size <= usize::MAX,
    ensures
        views(clauses@) == transitive_family(size),
{
    proof {
        assert(size * size <= size * size * size || size == 0) by (nonlinear_arith);
    }
    let rows = size * size;
    let mut clauses: Vec<Vec<Literal>> = Vec::with_capacity(rows * size);
    let mut x: usize = 0;
    while x < size
        invariant
            x <= size,
            rows == size * size,
            rows * size <= usize::MAX,
            clauses@.len() == x * size * size,
            forall|n: int|
                0 <= n < x * size * size ==> (#[trigger] clauses@[n])@ == transitive_clause(
                    size,
                    (n / (size as int)) / (size as int),
                    (n / (size as int)) % (size as int),
                    n % (size as int),
                ),
        decreases size - x,
    {
        let mut y: usize = 0;
        while y < size
            invariant
                x < size,
                y <= size,
                rows == size * size,
                rows * size <= usize::MAX,
                clauses@.len() == (x * size + y) * size,
                forall|n: int|
                    0 <= n < (x * size + y) * size ==> (#[trigger] clauses@[n])@
                        == transitive_clause(
                        size,
                        (n / (size as int)) / (size as int),
                        (n / (size as int)) % (size as int),
                        n % (size as int),
                    ),
            decreases size - y,
        {
            let mut z: usize = 0;
            while z < size
                invariant
                    x < size,
                    y < size,
                    z <= size,
                    rows == size * size,
                    rows * size <= usize::MAX,
                    clauses@.len() == (x * size + y) * size + z,
                    forall|n: int|
                        0 <= n < (x * size + y) * size + z ==> (#[trigger] clauses@[n])@
                            == transitive_clause(
                            size,
                            (n / (size as int)) / (size as int),
                            (n / (size as int)) % (size as int),
                            n % (size as int),
                        ),
                decreases size - z,
            {
                proof {
                    lemma_cell(size, x as int, y as int);
                    lemma_cell(size, y as int, z as int);
                    lemma_cell(size, x as int, z as int);
                    let row = cell(size, x as int, y as int);
                    lemma_fundamental_div_mod_converse(
                        row * size + z,
                        size as int,
                        row,
                        z as int,
                    );
                }
                let mut clause: Vec<Literal> = Vec::with_capacity(3);
                clause.push(Literal { var: x * size + y, positive: false });
                clause.push(Literal { var: y * size + z, positive: false });
                clause.push(Literal { var: x * size + z, positive: true });
                clauses.push(clause);
                z += 1;
            }
            proof {
                assert((x * size + y) * size + size == (x * size + y + 1) * size)
                    by (nonlinear_arith);
            }
            y += 1;
        }
        proof {
            assert((x * size + size) * size == (x + 1) * size * size) by (nonlinear_arith);
        }
        x += 1;
    }
    clauses
}

/// The clause that is false under the given assignment and under no other:
/// each variable with the opposite of its value.
pub fn blocking_clause(values: &[bool]) -> (clause: Vec<Literal>)
    ensures
        clause@ == blocking(values@),
{
    let mut clause: Vec<Literal> = Vec::with_capacity(values.len());
    let mut v: usize = 0;
    while v < values.len()
        invariant
            v <= values@.len(),
            clause@.len() == v,
            forall|i: int|
                0 <= i < v ==> #[trigger] clause@[i] == (Literal {
                    var: i as usize,
                    positive: !values@[i],
                }),
        decreases values@.len() - v,
    {
        clause.push(Literal { var: v, positive: !values[v] });
        v += 1;
    }
    clause
}

/// The three families of clauses say together that the relation is an
/// equivalence: an assignment to the table satisfies all of them exactly
/// when the relation it stands for is reflexive, symmetric and transitive.
pub proof fn lemma_families_say_equivalence(size: usize, assignment: Seq<bool>)
    requires
        assignment.len() == size * size,
        size * size * size <= usize::MAX,
    ensures
        (satisfies_all(assignment, reflexive_family(size)) && satisfies_all(
            assignment,
            symmetric_family(size),
        ) && satisfies_all(assignment, transitive_family(size))) == is_equivalence(
            assignment,
            size,
        ),
{
    let refl = reflexive_family(size);
    let symm = symmetric_family(size);
    let tran = transitive_family(size);
    let d = size as int;
    assert(size * size <= size * size * size || size == 0) by (nonlinear_arith);
    if satisfies_all(assignment, refl) && satisfies_all(assignment, symm) && satisfies_all(
        assignment,
        tran,
    ) {
        assert forall|x: int| 0 <= x < size implies #[trigger] relates(assignment, size, x, x) by {
            lemma_cell(size, x, x);
            let clause = refl[x];
        }
        assert forall|x: int, y: int|
            0 <= x < size && 0 <= y < size && #[trigger] relates(
                assignment,
                size,
                x,
                y,
            ) implies relates(assignment, size, y, x) by {
            lemma_cell(size, x, y);
            lemma_cell(size, y, x);
            let clause = symm[cell(size, x, y)];
        }
        assert forall|x: int, y: int, z: int|
            0 <= x < size && 0 <= y < size && 0 <= z < size && #[trigger] relates(
                assignment,
                size,
                x,
                y,
            ) && #[trigger] relates(assignment, size, y, z) implies relates(
            assignment,
            size,
            x,
            z,
        ) by {
            lemma_cell(size, x, y);
            lemma_cell(size, y, z);
            lemma_cell(size, x, z);
            lemma_row(size, cell(size, x, y), z);
            let clause = tran[cell(size, cell(size, x, y), z)];
        }
    }
    if is_equivalence(assignment, size) {
        assert forall|n: int| 0 <= n < refl.len() implies satisfies(
            assignment,
            #[trigger] refl[n],
        ) by {
            lemma_cell(size, n, n);
            assert(relates(assignment, size, n, n));
            assert(holds(refl[n][0], assignment));
        }
        assert forall|n: int| 0 <= n < symm.len() implies satisfies(
            assignment,
            #[trigger] symm[n],
        ) by {
            lemma_place(size, n);
            let x = n / d;
            let y = n % d;
            lemma_cell(size, y, x);
            if relates(assignment, size, x, y) {
                assert(holds(symm[n][1], assignment));
            } else {
                assert(holds(symm[n][0], assignment));
            }
        }
        assert forall|n: int| 0 <= n < tran.len() implies satisfies(
            assignment,
            #[trigger] tran[n],
        ) by {
            lemma_cube(size, n);
            let row = n / d;
            let z = n % d;
            lemma_place(size, row);
            let x = row / d;
            let y = row % d;
            lemma_cell(size, y, z);
            lemma_cell(size, x, z);
            if !relates(assignment, size, x, y) {
                assert(holds(tran[n][0], assignment));
            } else if !relates(assignment, size, y, z) {
                assert(holds(tran[n][1], assignment));
            } else {
                assert(holds(tran[n][2], assignment));
            }
        }
    }
}

/// The clause that rules an assignment out is false under it and true under
/// every other assignment of the same variables.
pub proof fn lemma_blocking(values: Seq<bool>, assignment: Seq<bool>)
    requires
        values.len() == assignment.len(),
        values.len() <= usize::MAX,
    ensures
        satisfies(assignment, blocking(values)) == (assignment != values),
{
    let clause = blocking(values);
    if assignment != values {
        assert(!(assignment =~= values));
        let k = choose|k: int| 0 <= k < values.len() && assignment[k] != values[k];
        assert(holds(clause[k], assignment));
    }
}

} // verus!
