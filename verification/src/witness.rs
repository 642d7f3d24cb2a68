//! The witness synthesizer: the rows of the trace, each extended by the
//! auxiliary variables of the constraint system, turned into one segment per
//! variable.

use crate::field::Fe;
use crate::inputs::{is_step_row, program_counter, rows_view, R1CSInputs};
use vstd::prelude::*;

verus! {

/// `count` columns of a list of rows, from column `offset` on, each as a
/// sequence with one entry per row.
pub open spec fn transposed(rows: Seq<Seq<Fe>>, offset: int, count: nat) -> Seq<Seq<Fe>> {
    Seq::new(count, |v: int| Seq::new(rows.len(), |s: int| rows[s][offset + v]))
}

/// `out` is what the auxiliary computation made of the row of cycle `s`.
pub open spec fn is_witness_row<A: Fn(Vec<Fe>) -> Vec<Fe>>(
    calc_aux: A,
    out: Vec<Fe>,
    cols: Seq<Seq<Fe>>,
    s: nat,
) -> bool {
    exists|row: Vec<Fe>| is_step_row(row@, cols, s) && call_ensures(calc_aux, (row,), out)
}

/// `rows` holds, for every cycle of the trace, what the auxiliary computation
/// made of the cycle's row.
pub open spec fn are_witness_rows<A: Fn(Vec<Fe>) -> Vec<Fe>>(
    calc_aux: A,
    rows: Seq<Vec<Fe>>,
    cols: Seq<Seq<Fe>>,
) -> bool {
    &&& rows.len() == cols[0].len()
    &&& forall|s: int| 0 <= s < rows.len() ==> is_witness_row(calc_aux, #[trigger] rows[s], cols, s as nat)
}

/// Every row that the auxiliary computation makes of a row of the trace has
/// `len` variables.
pub open spec fn witness_rows_have_len<A: Fn(Vec<Fe>) -> Vec<Fe>>(
    calc_aux: A,
    cols: Seq<Seq<Fe>>,
    len: nat,
) -> bool {
    forall|row: Vec<Fe>, out: Vec<Fe>, s: nat|
        #[trigger] is_step_row(row@, cols, s) && #[trigger] call_ensures(calc_aux, (row,), out)
            ==> out.len() == len
}

/// The auxiliary computation leaves a row as it is but for the two reserved
/// slots, and may append to it.
pub open spec fn fills_and_appends<A: Fn(Vec<Fe>) -> Vec<Fe>>(calc_aux: A) -> bool {
    forall|row: Vec<Fe>, out: Vec<Fe>| #[trigger]
        call_ensures(calc_aux, (row,), out) ==> {
            &&& out.len() >= row.len()
            &&& forall|i: int| 0 <= i < row.len() && i != 1 && i != 2 ==> out[i] == row[i]
        }
}

/// `state` and `aux` are the segments of the witness rows of the trace: the
/// `num_state` variables after the constant at the head of each row, and the
/// last `num_aux` variables of each row.
pub open spec fn are_state_aux_segments<A: Fn(Vec<Fe>) -> Vec<Fe>>(
    calc_aux: A,
    cols: Seq<Seq<Fe>>,
    num_state: nat,
    num_aux: nat,
    state: Seq<Vec<Fe>>,
    aux: Seq<Vec<Fe>>,
) -> bool {
    exists|rows: Seq<Vec<Fe>>|
        {
            &&& #[trigger] are_witness_rows(calc_aux, rows, cols)
            &&& rows_view(state) == transposed(rows_view(rows), 1, num_state)
            &&& rows_view(aux) == transposed(
                rows_view(rows),
                rows[0].len() - num_aux,
                num_aux,
            )
        }
}

/// `count` columns of `rows`, from column `offset` on, one segment each.
fn transpose_range(rows: &Vec<Vec<Fe>>, offset: usize, count: usize) -> (segments: Vec<Vec<Fe>>)
    requires
        forall|s: int| 0 <= s < rows.len() ==> count == 0 || offset + count <= (#[trigger] rows[s]).len(),
    ensures
        rows_view(segments@) == transposed(rows_view(rows@), offset as int, count as nat),
{
    let ghost want = transposed(rows_view(rows@), offset as int, count as nat);
    let mut segments: Vec<Vec<Fe>> = Vec::with_capacity(count);
    let mut v: usize = 0;
    while v < count
        invariant
            v <= count,
            forall|s: int|
                0 <= s < rows.len() ==> count == 0 || offset + count <= (#[trigger] rows[s]).len(),
            want == transposed(rows_view(rows@), offset as int, count as nat),
            rows_view(segments@) == want.subrange(0, v as int),
        decreases count - v,
    {
        let mut segment: Vec<Fe> = Vec::with_capacity(rows.len());
        let mut s: usize = 0;
        while s < rows.len()
            invariant
                v < count,
                s <= rows.len(),
                forall|s: int|
                    0 <= s < rows.len() ==> count == 0 || offset + count <= (
                    #[trigger] rows[s]).len(),
                want == transposed(rows_view(rows@), offset as int, count as nat),
                segment@ == want[v as int].subrange(0, s as int),
            decreases rows.len() - s,
        {
            let row = &rows[s];
            segment.push(row[offset + v]);
            s = s + 1;
            proof {
                assert(segment@ =~= want[v as int].subrange(0, s as int));
            }
        }
        let ghost before = segments@;
        segments.push(segment);
        v = v + 1;
        proof {
            assert(segment@ =~= want[v - 1]);
            assert(rows_view(segments@) =~= rows_view(before).push(segment@));
            assert(rows_view(segments@) =~= want.subrange(0, v as int));
        }
    }
    proof {
        assert(want.subrange(0, count as int) =~= want);
    }
    segments
}

/// One segment per variable but the last of each row: segment `v` holds
/// variable `v` of every row.
pub fn reassemble_segments(jolt_witnesses: Vec<Vec<Fe>>) -> (segments: Vec<Vec<Fe>>)
    requires
        jolt_witnesses.len() > 0,
        jolt_witnesses[0].len() > 0,
        forall|s: int|
            0 <= s < jolt_witnesses.len() ==> jolt_witnesses[0].len() - 1 <= (
            #[trigger] jolt_witnesses[s]).len(),
    ensures
        rows_view(segments@) == transposed(
            rows_view(jolt_witnesses@),
            0,
            (jolt_witnesses[0].len() - 1) as nat,
        ),
{
    let num_variables = jolt_witnesses[0].len();
    transpose_range(&jolt_witnesses, 0, num_variables - 1)
}

/// The segments of the first `num_front` variables after the constant at the
/// head of each row, and the segments of the last `num_back` variables of a
/// row of the first row's length.
pub fn reassemble_segments_partial(
    jolt_witnesses: Vec<Vec<Fe>>,
    num_front: usize,
    num_back: usize,
) -> (segments: (Vec<Vec<Fe>>, Vec<Vec<Fe>>))
    requires
        jolt_witnesses.len() > 0,
        num_back <= jolt_witnesses[0].len(),
        forall|s: int|
            0 <= s < jolt_witnesses.len() ==> num_front == 0 || num_front < (
            #[trigger] jolt_witnesses[s]).len(),
        forall|s: int|
            0 <= s < jolt_witnesses.len() ==> num_back == 0 || jolt_witnesses[0].len() <= (
            #[trigger] jolt_witnesses[s]).len(),
    ensures
        rows_view(segments.0@) == transposed(rows_view(jolt_witnesses@), 1, num_front as nat),
        rows_view(segments.1@) == transposed(
            rows_view(jolt_witnesses@),
            jolt_witnesses[0].len() - num_back,
            num_back as nat,
        ),
{
    let total_length = jolt_witnesses[0].len();
    let front = transpose_range(&jolt_witnesses, 1, num_front);
    let back = transpose_range(&jolt_witnesses, total_length - num_back, num_back);
    (front, back)
}

/// A trace together with the number of steps that it is proved for.
#[derive(Clone, Debug, Default)]
pub struct JoltCircuit {
    num_steps: usize,
    inputs: R1CSInputs,
}

impl JoltCircuit {
    pub closed spec fn spec_num_steps(&self) -> nat {
        self.num_steps as nat
    }

    pub closed spec fn spec_inputs(&self) -> R1CSInputs {
        self.inputs
    }

    pub fn new_from_inputs(num_steps: usize, inputs: R1CSInputs) -> (r: Self)
        ensures
            r.spec_num_steps() == num_steps,
            r.spec_inputs() == inputs,
    {
        JoltCircuit { num_steps, inputs }
    }

    pub fn num_steps(&self) -> (r: usize)
        ensures
            r == self.spec_num_steps(),
    {
        self.num_steps
    }

    pub fn inputs(&self) -> (r: &R1CSInputs)
        ensures
            *r == self.spec_inputs(),
    {
        &self.inputs
    }

    /// The rows of the trace, each handed to the auxiliary computation.
    pub fn synthesize_witnesses<A: Fn(Vec<Fe>) -> Vec<Fe>>(&self, calc_aux: A) -> (rows: Vec<
        Vec<Fe>,
    >)
        requires
            self.spec_inputs().wf(),
            forall|row: Vec<Fe>, s: nat|
                is_step_row(row@, self.spec_inputs().columns(), s) ==> call_requires(
                    calc_aux,
                    (row,),
                ),
        ensures
            are_witness_rows(calc_aux, rows@, self.spec_inputs().columns()),
    {
        let t = self.inputs.trace_len();
        let ghost cols = self.inputs.columns();
        let mut rows: Vec<Vec<Fe>> = Vec::with_capacity(t);
        let mut s: usize = 0;
        while s < t
            invariant
                s <= t,
                self.spec_inputs().wf(),
                t == cols[0].len(),
                cols == self.spec_inputs().columns(),
                forall|row: Vec<Fe>, i: nat|
                    is_step_row(row@, cols, i) ==> call_requires(calc_aux, (row,)),
                rows.len() == s,
                forall|j: int|
                    0 <= j < rows.len() ==> is_witness_row(calc_aux, #[trigger] rows[j], cols, j as nat),
            decreases t - s,
        {
            let row = self.inputs.step_row(s);
            let out = calc_aux(row);
            assert(is_witness_row(calc_aux, out, cols, s as nat));
            rows.push(out);
            s = s + 1;
        }
        rows
    }

    /// The witness rows turned into segments: the `num_state` variables after
    /// the constant at the head of each row, and the last `num_aux` variables
    /// of each row. Each segment holds one entry per cycle.
    pub fn synthesize_state_aux_segments<A: Fn(Vec<Fe>) -> Vec<Fe>>(
        &self,
        num_state: usize,
        num_aux: usize,
        calc_aux: A,
    ) -> (segments: (Vec<Vec<Fe>>, Vec<Vec<Fe>>))
        requires
            self.spec_inputs().wf(),
            forall|row: Vec<Fe>, s: nat|
                is_step_row(row@, self.spec_inputs().columns(), s) ==> call_requires(
                    calc_aux,
                    (row,),
                ),
            exists|len: nat|
                {
                    &&& #[trigger] witness_rows_have_len(
                        calc_aux,
                        self.spec_inputs().columns(),
                        len,
                    )
                    &&& num_state == 0 || num_state < len
                    &&& num_aux <= len
                },
        ensures
            segments.0.len() == num_state,
            segments.1.len() == num_aux,
            forall|v: int|
                0 <= v < num_state ==> (#[trigger] segments.0[v]).len()
                    == self.spec_inputs().spec_trace_len(),
            forall|v: int|
                0 <= v < num_aux ==> (#[trigger] segments.1[v]).len()
                    == self.spec_inputs().spec_trace_len(),
            are_state_aux_segments(
                calc_aux,
                self.spec_inputs().columns(),
                num_state as nat,
                num_aux as nat,
                segments.0@,
                segments.1@,
            ),
    {
        let ghost cols = self.inputs.columns();
        let ghost len = choose|len: nat|
            {
                &&& #[trigger] witness_rows_have_len(calc_aux, cols, len)
                &&& num_state == 0 || num_state < len
                &&& num_aux <= len
            };
        let jolt_witnesses = self.synthesize_witnesses(calc_aux);
        let ghost rows = jolt_witnesses@;
        proof {
            assert forall|s: int| 0 <= s < rows.len() implies (#[trigger] rows[s]).len() == len by {
                assert(is_witness_row(calc_aux, rows[s], cols, s as nat));
            }
        }
        let segments = reassemble_segments_partial(jolt_witnesses, num_state, num_aux);
        proof {
            assert(are_witness_rows(calc_aux, rows, cols));
            assert(rows_view(segments.0@).len() == num_state);
            assert(rows_view(segments.1@).len() == num_aux);
            assert forall|v: int| 0 <= v < num_state implies (#[trigger] segments.0[v]).len()
                == rows.len() by {
                assert(rows_view(segments.0@)[v] == segments.0[v]@);
            }
            assert forall|v: int| 0 <= v < num_aux implies (#[trigger] segments.1[v]).len()
                == rows.len() by {
                assert(rows_view(segments.1@)[v] == segments.1[v]@);
            }
        }
        segments
    }
}

/// Where the auxiliary computation only fills the two reserved slots of a
/// row and appends to it, the third state segment holds the number of each
/// cycle and the fourth its program counter.
pub proof fn lemma_state_segments_hold_cycle_and_counter<A: Fn(Vec<Fe>) -> Vec<Fe>>(
    calc_aux: A,
    rows: Seq<Vec<Fe>>,
    cols: Seq<Seq<Fe>>,
    num_state: nat,
)
    requires
        fills_and_appends(calc_aux),
        are_witness_rows(calc_aux, rows, cols),
        num_state >= 4,
    ensures
        forall|s: int|
            0 <= s < rows.len() ==> {
                &&& (#[trigger] transposed(rows_view(rows), 1, num_state)[2][s])@ == s
                &&& transposed(rows_view(rows), 1, num_state)[3][s]@ == program_counter(
                    cols[0][s]@,
                    s as nat,
                )
            },
{
    let state = transposed(rows_view(rows), 1, num_state);
    assert forall|s: int| 0 <= s < rows.len() implies {
        &&& (#[trigger] state[2][s])@ == s
        &&& state[3][s]@ == program_counter(cols[0][s]@, s as nat)
    } by {
        assert(is_witness_row(calc_aux, rows[s], cols, s as nat));
        let row = choose|row: Vec<Fe>|
            is_step_row(row@, cols, s as nat) && call_ensures(calc_aux, (row,), rows[s]);
        assert(rows[s][3] == row[3]);
        assert(rows[s][4] == row[4]);
        assert(rows_view(rows)[s] == rows[s]@);
    }
}

} // verus!
