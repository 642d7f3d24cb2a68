//! The constraint shape of a single cycle: three sparse matrices `A`, `B`,
//! `C` with `(Az) * (Bz) = Cz` entry by entry, over the variables of one
//! cycle followed by the constant one and the public inputs.

use crate::field::{modulus, Fe};
use crate::math::{log2, next_power_of_two, spec_next_power_of_two};
use vstd::arithmetic::power2::*;
use vstd::prelude::*;

verus! {

/// The column of an entry after the variables were padded from `num_vars` to
/// `padded`: the columns behind the variables move up.
pub open spec fn padded_column(col: nat, num_vars: nat, padded: nat) -> nat {
    if col >= num_vars {
        (col + padded - num_vars) as nat
    } else {
        col
    }
}

/// A matrix entry with an integer coefficient as one with that coefficient in
/// the field, its column moved for the padding.
pub open spec fn is_padded_entry(
    out: (usize, usize, Fe),
    entry: (usize, usize, i64),
    num_vars: nat,
    padded: nat,
) -> bool {
    &&& out.0 == entry.0
    &&& out.1 == padded_column(entry.1 as nat, num_vars, padded)
    &&& out.2@ == (entry.2 as int) % (modulus() as int)
}

/// `out` is `matrix` entry by entry, each as `is_padded_entry` says.
pub open spec fn is_padded_matrix(
    out: Seq<(usize, usize, Fe)>,
    matrix: Seq<(usize, usize, i64)>,
    num_vars: nat,
    padded: nat,
) -> bool {
    &&& out.len() == matrix.len()
    &&& forall|i: int|
        0 <= i < matrix.len() ==> is_padded_entry(#[trigger] out[i], matrix[i], num_vars, padded)
}

/// No column of `matrix` leaves the machine's range when the variables are
/// padded.
pub open spec fn columns_fit(matrix: Seq<(usize, usize, i64)>, num_vars: nat, padded: nat) -> bool {
    forall|i: int|
        0 <= i < matrix.len() ==> padded_column((#[trigger] matrix[i]).1 as nat, num_vars, padded)
            <= usize::MAX
}

/// A sparse matrix with its coefficients in the field and its columns moved
/// for the padding.
fn pad_matrix(matrix: &Vec<(usize, usize, i64)>, num_vars: usize, padded: usize) -> (out: Vec<
    (usize, usize, Fe),
>)
    requires
        num_vars <= padded,
        columns_fit(matrix@, num_vars as nat, padded as nat),
    ensures
        is_padded_matrix(out@, matrix@, num_vars as nat, padded as nat),
{
    let mut out: Vec<(usize, usize, Fe)> = Vec::with_capacity(matrix.len());
    let mut i: usize = 0;
    while i < matrix.len()
        invariant
            i <= matrix.len(),
            num_vars <= padded,
            columns_fit(matrix@, num_vars as nat, padded as nat),
            out.len() == i,
            forall|j: int|
                0 <= j < i ==> is_padded_entry(
                    #[trigger] out[j],
                    matrix[j],
                    num_vars as nat,
                    padded as nat,
                ),
        decreases matrix.len() - i,
    {
        let (row, col, coefficient) = matrix[i];
        let col = if col >= num_vars {
            col + (padded - num_vars)
        } else {
            col
        };
        out.push((row, col, Fe::from_i64(coefficient)));
        i = i + 1;
    }
    out
}

/// Whether no column of `matrix` leaves the machine's range when the
/// variables are padded.
fn matrix_fits(matrix: &Vec<(usize, usize, i64)>, num_vars: usize, padded: usize) -> (r: bool)
    requires
        num_vars <= padded,
    ensures
        r == columns_fit(matrix@, num_vars as nat, padded as nat),
{
    let room = usize::MAX - (padded - num_vars);
    let mut i: usize = 0;
    while i < matrix.len()
        invariant
            i <= matrix.len(),
            num_vars <= padded,
            room == usize::MAX - (padded - num_vars),
            columns_fit(matrix@.subrange(0, i as int), num_vars as nat, padded as nat),
        decreases matrix.len() - i,
    {
        let col = matrix[i].1;
        if col >= num_vars && col > room {
            return false;
        }
        i = i + 1;
        proof {
            let before = matrix@.subrange(0, i - 1);
            let now = matrix@.subrange(0, i as int);
            assert forall|j: int| 0 <= j < now.len() implies padded_column(
                (#[trigger] now[j]).1 as nat,
                num_vars as nat,
                padded as nat,
            ) <= usize::MAX by {
                if j < i - 1 {
                    assert(now[j] == before[j]);
                }
            }
        }
    }
    proof {
        assert(matrix@.subrange(0, i as int) =~= matrix@);
    }
    true
}

/// Row `row` of the product of a sparse matrix and the vector `z`: the sum of
/// the coefficients in that row, each times the variable in its column.
pub open spec fn row_product(matrix: Seq<(usize, usize, Fe)>, row: nat, z: Seq<Fe>) -> nat
    decreases matrix.len(),
{
    if matrix.len() == 0 {
        0
    } else {
        let rest = row_product(matrix.drop_last(), row, z);
        let entry = matrix.last();
        if entry.0 == row {
            (rest + (entry.2@ * z[entry.1 as int]@) % modulus()) % modulus()
        } else {
            rest
        }
    }
}

/// Every entry of `matrix` lies in one of `num_rows` rows and `num_cols`
/// columns.
pub open spec fn entries_in_range(
    matrix: Seq<(usize, usize, Fe)>,
    num_rows: nat,
    num_cols: nat,
) -> bool {
    forall|i: int|
        0 <= i < matrix.len() ==> (#[trigger] matrix[i]).0 < num_rows && matrix[i].1 < num_cols
}

/// Whether every entry of `matrix` lies in range.
fn check_entries(matrix: &Vec<(usize, usize, Fe)>, num_rows: usize, num_cols: usize) -> (r: bool)
    ensures
        r == entries_in_range(matrix@, num_rows as nat, num_cols as nat),
{
    let mut i: usize = 0;
    while i < matrix.len()
        invariant
            i <= matrix.len(),
            forall|j: int|
                0 <= j < i ==> (#[trigger] matrix[j]).0 < num_rows && matrix[j].1 < num_cols,
        decreases matrix.len() - i,
    {
        if matrix[i].0 >= num_rows || matrix[i].1 >= num_cols {
            return false;
        }
        i = i + 1;
    }
    true
}

/// The product of a sparse matrix of `num_rows` rows and the vector `z`.
fn multiply(matrix: &Vec<(usize, usize, Fe)>, num_rows: usize, z: &Vec<Fe>) -> (out: Vec<Fe>)
    requires
        entries_in_range(matrix@, num_rows as nat, z.len() as nat),
    ensures
        out.len() == num_rows,
        forall|row: int| 0 <= row < num_rows ==> (#[trigger] out[row])@ == row_product(matrix@, row as nat, z@),
{
    let mut out: Vec<Fe> = Vec::with_capacity(num_rows);
    let mut row: usize = 0;
    while row < num_rows
        invariant
            row <= num_rows,
            out.len() == row,
            forall|j: int| 0 <= j < row ==> (#[trigger] out[j])@ == 0,
        decreases num_rows - row,
    {
        out.push(Fe::zero());
        row = row + 1;
    }
    let mut i: usize = 0;
    while i < matrix.len()
        invariant
            i <= matrix.len(),
            entries_in_range(matrix@, num_rows as nat, z.len() as nat),
            out.len() == num_rows,
            forall|row: int|
                0 <= row < num_rows ==> (#[trigger] out[row])@ == row_product(
                    matrix@.subrange(0, i as int),
                    row as nat,
                    z@,
                ),
        decreases matrix.len() - i,
    {
        let (row, col, coefficient) = matrix[i];
        let sum = out[row].plus(coefficient.times(z[col]));
        out.set(row, sum);
        i = i + 1;
        proof {
            let now = matrix@.subrange(0, i as int);
            assert(now.drop_last() =~= matrix@.subrange(0, i - 1));
            assert(now.last() == matrix[i - 1]);
        }
    }
    proof {
        assert(matrix@.subrange(0, i as int) =~= matrix@);
    }
    out
}

/// The constraints of one cycle as they are written down: sparse matrices
/// with small integer coefficients, and the counts that go with them.
#[derive(Clone, Debug)]
pub struct R1CSBuilder {
    pub a: Vec<(usize, usize, i64)>,
    pub b: Vec<(usize, usize, i64)>,
    pub c: Vec<(usize, usize, i64)>,
    pub num_constraints: usize,
    pub num_inputs: usize,
    pub num_aux: usize,
    pub num_internal: usize,
}

/// The constraint shape of one cycle over the field.
#[derive(Clone, Debug, Default)]
pub struct R1CSShape {
    pub a: Vec<(usize, usize, Fe)>,
    pub b: Vec<(usize, usize, Fe)>,
    pub c: Vec<(usize, usize, Fe)>,
    pub num_cons: usize,
    pub num_vars: usize,
    pub num_io: usize,
}

impl R1CSShape {
    /// The shape holds the constraints of `builder`: its counts, the number
    /// of variables padded to a power of two, and its matrices over the
    /// field with their columns moved for the padding.
    pub open spec fn is_padded_shape_of(&self, builder: R1CSBuilder) -> bool {
        &&& self.num_cons == builder.num_constraints
        &&& self.num_vars == builder.padded_vars()
        &&& self.num_io == builder.num_inputs
        &&& is_padded_matrix(self.a@, builder.a@, builder.num_aux as nat, builder.padded_vars())
        &&& is_padded_matrix(self.b@, builder.b@, builder.num_aux as nat, builder.padded_vars())
        &&& is_padded_matrix(self.c@, builder.c@, builder.num_aux as nat, builder.padded_vars())
    }

    /// Every entry of the three matrices lies in one of the shape's rows and
    /// in one of `num_cols` columns.
    pub open spec fn in_range(&self, num_cols: nat) -> bool {
        &&& entries_in_range(self.a@, self.num_cons as nat, num_cols)
        &&& entries_in_range(self.b@, self.num_cons as nat, num_cols)
        &&& entries_in_range(self.c@, self.num_cons as nat, num_cols)
    }

    /// `(Az) * (Bz) = Cz` in every row.
    pub open spec fn satisfied_by(&self, z: Seq<Fe>) -> bool {
        forall|row: int|
            0 <= row < self.num_cons ==> (#[trigger] row_product(self.a@, row as nat, z)
                * row_product(self.b@, row as nat, z)) % modulus() == row_product(
                self.c@,
                row as nat,
                z,
            )
    }

    /// Whether every entry of the matrices lies in range for a vector of
    /// `num_cols` variables.
    pub fn check_in_range(&self, num_cols: usize) -> (r: bool)
        ensures
            r == self.in_range(num_cols as nat),
    {
        check_entries(&self.a, self.num_cons, num_cols) && check_entries(
            &self.b,
            self.num_cons,
            num_cols,
        ) && check_entries(&self.c, self.num_cons, num_cols)
    }

    /// Whether the variables `z` of one cycle satisfy every constraint.
    pub fn is_satisfied(&self, z: &Vec<Fe>) -> (r: bool)
        requires
            self.in_range(z.len() as nat),
        ensures
            r == self.satisfied_by(z@),
    {
        let az = multiply(&self.a, self.num_cons, z);
        let bz = multiply(&self.b, self.num_cons, z);
        let cz = multiply(&self.c, self.num_cons, z);
        let mut row: usize = 0;
        while row < self.num_cons
            invariant
                row <= self.num_cons,
                az.len() == self.num_cons,
                bz.len() == self.num_cons,
                cz.len() == self.num_cons,
                forall|j: int|
                    0 <= j < self.num_cons ==> (#[trigger] az[j])@ == row_product(
                        self.a@,
                        j as nat,
                        z@,
                    ),
                forall|j: int|
                    0 <= j < self.num_cons ==> (#[trigger] bz[j])@ == row_product(
                        self.b@,
                        j as nat,
                        z@,
                    ),
                forall|j: int|
                    0 <= j < self.num_cons ==> (#[trigger] cz[j])@ == row_product(
                        self.c@,
                        j as nat,
                        z@,
                    ),
                forall|j: int|
                    0 <= j < row ==> (#[trigger] row_product(self.a@, j as nat, z@) * row_product(
                        self.b@,
                        j as nat,
                        z@,
                    )) % modulus() == row_product(self.c@, j as nat, z@),
            decreases self.num_cons - row,
        {
            let product = az[row].times(bz[row]);
            proof {
                Fe::lemma_view_injective(product, cz[row as int]);
            }
            if product != cz[row] {
                return false;
            }
            row = row + 1;
        }
        true
    }
}

impl R1CSBuilder {
    /// The number of variables of the padded shape: the least power of two
    /// that holds the auxiliary variables.
    pub open spec fn padded_vars(&self) -> nat {
        spec_next_power_of_two(self.num_aux as nat)
    }

    /// The padded shape fits the machine: its number of variables and every
    /// column of its matrices.
    pub open spec fn fits(&self) -> bool {
        &&& self.padded_vars() <= usize::MAX
        &&& columns_fit(self.a@, self.num_aux as nat, self.padded_vars())
        &&& columns_fit(self.b@, self.num_aux as nat, self.padded_vars())
        &&& columns_fit(self.c@, self.num_aux as nat, self.padded_vars())
    }

    /// Whether the padded shape fits the machine.
    pub fn check_fits(&self) -> (r: bool)
        ensures
            r == self.fits(),
    {
        let k = log2(self.num_aux);
        proof {
            lemma2_to64();
            if k < usize::BITS {
                vstd::bits::lemma_usize_pow2_no_overflow(k as nat);
            } else if k > usize::BITS {
                lemma_pow2_strictly_increases(usize::BITS as nat, k as nat);
            }
        }
        if k as u32 >= usize::BITS {
            return false;
        }
        let padded = next_power_of_two(self.num_aux);
        matrix_fits(&self.a, self.num_aux, padded) && matrix_fits(&self.b, self.num_aux, padded)
            && matrix_fits(&self.c, self.num_aux, padded)
    }

    /// The builder holds no constraint yet: its matrices are empty and its
    /// counts are zero.
    pub open spec fn is_empty(&self) -> bool {
        &&& self.a@.len() == 0
        &&& self.b@.len() == 0
        &&& self.c@.len() == 0
        &&& self.num_constraints == 0
        &&& self.num_inputs == 0
        &&& self.num_aux == 0
        &&& self.num_internal == 0
    }

    /// Two builders hold the same constraints and counts.
    pub open spec fn same_constraints(&self, other: R1CSBuilder) -> bool {
        &&& self.a@ == other.a@
        &&& self.b@ == other.b@
        &&& self.c@ == other.c@
        &&& self.num_constraints == other.num_constraints
        &&& self.num_inputs == other.num_inputs
        &&& self.num_aux == other.num_aux
        &&& self.num_internal == other.num_internal
    }

    /// The builder's constraints as a shape: the matrices over the field,
    /// with the number of variables padded to a power of two. The constant
    /// and the public inputs are not counted among the variables.
    pub fn padded_shape(&self) -> (shape: R1CSShape)
        requires
            self.fits(),
        ensures
            shape.is_padded_shape_of(*self),
    {
        let padded = next_power_of_two(self.num_aux);
        R1CSShape {
            a: pad_matrix(&self.a, self.num_aux, padded),
            b: pad_matrix(&self.b, self.num_aux, padded),
            c: pad_matrix(&self.c, self.num_aux, padded),
            num_cons: self.num_constraints,
            num_vars: padded,
            num_io: self.num_inputs,
        }
    }

    /// The shape of a single cycle. It is built afresh: `get_matrices`
    /// writes the constraints into an empty builder, and the shape is the
    /// padded shape of what it returns. The receiver is not read, so every
    /// builder gives the shape of the same construction.
    pub fn single_step_shape<M: FnOnce(R1CSBuilder) -> R1CSBuilder>(
        &self,
        get_matrices: M,
    ) -> (shape: R1CSShape)
        requires
            forall|empty: R1CSBuilder| empty.is_empty() ==> call_requires(get_matrices, (empty,)),
            forall|empty: R1CSBuilder, filled: R1CSBuilder|
                empty.is_empty() && call_ensures(get_matrices, (empty,), filled) ==> filled.fits(),
        ensures
            is_single_step_shape(get_matrices, shape),
    {
        let jolt_shape = get_matrices(R1CSBuilder::default());
        jolt_shape.padded_shape()
    }
}

impl Default for R1CSBuilder {
    fn default() -> (r: R1CSBuilder)
        ensures
            r.is_empty(),
    {
        R1CSBuilder {
            a: Vec::new(),
            b: Vec::new(),
            c: Vec::new(),
            num_constraints: 0,
            num_inputs: 0,
            num_aux: 0,
            num_internal: 0,
        }
    }
}

/// `shape` is the padded shape of what `get_matrices` makes of an empty
/// builder.
pub open spec fn is_single_step_shape<M: FnOnce(R1CSBuilder) -> R1CSBuilder>(
    get_matrices: M,
    shape: R1CSShape,
) -> bool {
    exists|empty: R1CSBuilder, filled: R1CSBuilder|
        {
            &&& empty.is_empty()
            &&& #[trigger] call_ensures(get_matrices, (empty,), filled)
            &&& shape.is_padded_shape_of(filled)
        }
}

/// Two padded copies of one matrix are the same matrix.
proof fn lemma_padded_matrix_determined(
    first: Seq<(usize, usize, Fe)>,
    second: Seq<(usize, usize, Fe)>,
    matrix: Seq<(usize, usize, i64)>,
    num_vars: nat,
    padded: nat,
)
    requires
        is_padded_matrix(first, matrix, num_vars, padded),
        is_padded_matrix(second, matrix, num_vars, padded),
    ensures
        first == second,
{
    assert forall|i: int| 0 <= i < first.len() implies first[i] == second[i] by {
        assert(is_padded_entry(first[i], matrix[i], num_vars, padded));
        assert(is_padded_entry(second[i], matrix[i], num_vars, padded));
        Fe::lemma_view_injective(first[i].2, second[i].2);
    }
    assert(first =~= second);
}

/// Where the construction of the constraints always writes the same
/// constraints into an empty builder, the shape of a single cycle is one
/// shape: whichever builders it was asked of, the matrices and the counts
/// agree.
pub proof fn lemma_single_step_shape_determined<M: FnOnce(R1CSBuilder) -> R1CSBuilder>(
    get_matrices: M,
    first: R1CSShape,
    second: R1CSShape,
)
    requires
        forall|e1: R1CSBuilder, e2: R1CSBuilder, f1: R1CSBuilder, f2: R1CSBuilder|
            e1.is_empty() && e2.is_empty() && #[trigger] call_ensures(get_matrices, (e1,), f1)
                && #[trigger] call_ensures(get_matrices, (e2,), f2) ==> f1.same_constraints(f2),
        is_single_step_shape(get_matrices, first),
        is_single_step_shape(get_matrices, second),
    ensures
        first.a@ == second.a@,
        first.b@ == second.b@,
        first.c@ == second.c@,
        first.num_cons == second.num_cons,
        first.num_vars == second.num_vars,
        first.num_io == second.num_io,
{
    let (e1, f1) = choose|e: R1CSBuilder, f: R1CSBuilder|
        e.is_empty() && #[trigger] call_ensures(get_matrices, (e,), f) && first.is_padded_shape_of(
            f,
        );
    let (e2, f2) = choose|e: R1CSBuilder, f: R1CSBuilder|
        e.is_empty() && #[trigger] call_ensures(get_matrices, (e,), f) && second.is_padded_shape_of(
            f,
        );
    assert(f1.same_constraints(f2));
    lemma_padded_matrix_determined(first.a@, second.a@, f1.a@, f1.num_aux as nat, f1.padded_vars());
    lemma_padded_matrix_determined(first.b@, second.b@, f1.b@, f1.num_aux as nat, f1.padded_vars());
    lemma_padded_matrix_determined(first.c@, second.c@, f1.c@, f1.num_aux as nat, f1.padded_vars());
}

} // verus!
