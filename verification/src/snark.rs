//! Proving and verifying that a trace satisfies the uniform constraint
//! system. The argument itself (key setup, commitment, sum-check) is the
//! caller's; what is fixed here is what it is handed and in which order.

use crate::field::Fe;
use crate::inputs::{
    all_chunks, is_step_row, lemma_step_row_determined, rows_view, R1CSInputs,
};
use crate::shape::{R1CSBuilder, R1CSShape};
use crate::witness::{
    are_state_aux_segments, are_witness_rows, is_witness_row, transposed, witness_rows_have_len,
    JoltCircuit,
};
use vstd::prelude::*;

verus! {

/// The variables after the constant at the head of each row whose segments
/// are committed to as the state of a cycle.
pub const NUM_STATE_VARS: usize = 4;

/// The full witness in its fixed order: the state segments, the segments of
/// the trace columns, the auxiliary segments.
pub open spec fn witness_segments(
    rows: Seq<Vec<Fe>>,
    cols: Seq<Seq<Fe>>,
    padded_trace_len: nat,
    num_aux: nat,
) -> Seq<Seq<Fe>> {
    transposed(rows_view(rows), 1, NUM_STATE_VARS as nat) + all_chunks(cols, padded_trace_len)
        + transposed(rows_view(rows), rows[0].len() - num_aux, num_aux)
}

/// `commitments` holds one commitment for each of `segments`, in their
/// order.
pub open spec fn are_commitments<C, G, M: Fn(&G, &Vec<Fe>) -> C>(
    commit: M,
    generators: G,
    segments: Seq<Vec<Fe>>,
    commitments: Seq<C>,
) -> bool {
    &&& commitments.len() == segments.len()
    &&& forall|i: int|
        0 <= i < segments.len() ==> call_ensures(
            commit,
            (&generators, &#[trigger] segments[i]),
            commitments[i],
        )
}

/// `witness` is the full witness of the trace and `commitments` the list of
/// commitments that belongs to it: those of the state segments, made here,
/// then `prior`, made earlier for the segments of the trace columns, then
/// those of the auxiliary segments, made here.
pub open spec fn is_committed_witness<C, G, A: Fn(Vec<Fe>) -> Vec<Fe>, M: Fn(&G, &Vec<Fe>) -> C>(
    calc_aux: A,
    commit: M,
    generators: G,
    cols: Seq<Seq<Fe>>,
    padded_trace_len: nat,
    num_aux: nat,
    prior: Seq<C>,
    witness: Seq<Vec<Fe>>,
    commitments: Seq<C>,
) -> bool {
    let chunks = all_chunks(cols, padded_trace_len).len();
    &&& exists|rows: Seq<Vec<Fe>>|
        are_witness_rows(calc_aux, rows, cols) && rows_view(witness) == witness_segments(
            rows,
            cols,
            padded_trace_len,
            num_aux,
        )
    &&& witness.len() == NUM_STATE_VARS + chunks + num_aux
    &&& commitments.len() == NUM_STATE_VARS + prior.len() + num_aux
    &&& are_commitments(
        commit,
        generators,
        witness.subrange(0, NUM_STATE_VARS as int),
        commitments.subrange(0, NUM_STATE_VARS as int),
    )
    &&& commitments.subrange(NUM_STATE_VARS as int, NUM_STATE_VARS + prior.len()) == prior
    &&& are_commitments(
        commit,
        generators,
        witness.subrange(NUM_STATE_VARS + chunks, witness.len() as int),
        commitments.subrange(NUM_STATE_VARS + prior.len(), commitments.len() as int),
    )
}

/// Where the commitment scheme adds no randomness, so that a segment and a
/// set of generators have one commitment only, two lists of commitments to
/// the same segments are the same list.
pub proof fn lemma_commitments_determined<C, G, M: Fn(&G, &Vec<Fe>) -> C>(
    commit: M,
    generators: G,
    segments: Seq<Vec<Fe>>,
    first: Seq<C>,
    second: Seq<C>,
)
    requires
        forall|g: G, segment: Vec<Fe>, a: C, b: C|
            #[trigger] call_ensures(commit, (&g, &segment), a) && #[trigger] call_ensures(
                commit,
                (&g, &segment),
                b,
            ) ==> a == b,
        are_commitments(commit, generators, segments, first),
        are_commitments(commit, generators, segments, second),
    ensures
        first == second,
{
    assert forall|i: int| 0 <= i < first.len() implies first[i] == second[i] by {
        assert(call_ensures(commit, (&generators, &segments[i]), first[i]));
        assert(call_ensures(commit, (&generators, &segments[i]), second[i]));
    }
    assert(first =~= second);
}

/// The auxiliary computation adds no randomness: rows that hold the same
/// values come out holding the same values.
pub open spec fn is_deterministic_aux<A: Fn(Vec<Fe>) -> Vec<Fe>>(calc_aux: A) -> bool {
    forall|r1: Vec<Fe>, r2: Vec<Fe>, o1: Vec<Fe>, o2: Vec<Fe>|
        r1@ == r2@ && #[trigger] call_ensures(calc_aux, (r1,), o1) && #[trigger] call_ensures(
            calc_aux,
            (r2,),
            o2,
        ) ==> o1@ == o2@
}

/// The commitment scheme adds no randomness: segments that hold the same
/// values have the same commitment under the same generators.
pub open spec fn is_deterministic_commitment<C, G, M: Fn(&G, &Vec<Fe>) -> C>(commit: M) -> bool {
    forall|g: G, s1: Vec<Fe>, s2: Vec<Fe>, a: C, b: C|
        s1@ == s2@ && #[trigger] call_ensures(commit, (&g, &s1), a) && #[trigger] call_ensures(
            commit,
            (&g, &s2),
            b,
        ) ==> a == b
}

/// Where neither the auxiliary computation nor the commitment scheme adds
/// randomness, a trace has one witness and one list of commitments: two
/// committed witnesses of the same trace, made with the same generators and
/// the same prior commitments, hold the same values and carry the same
/// commitments, entry by entry.
pub proof fn lemma_committed_witness_determined<
    C,
    G,
    A: Fn(Vec<Fe>) -> Vec<Fe>,
    M: Fn(&G, &Vec<Fe>) -> C,
>(
    calc_aux: A,
    commit: M,
    generators: G,
    cols: Seq<Seq<Fe>>,
    padded_trace_len: nat,
    num_aux: nat,
    prior: Seq<C>,
    first: Seq<Vec<Fe>>,
    first_commitments: Seq<C>,
    second: Seq<Vec<Fe>>,
    second_commitments: Seq<C>,
)
    requires
        cols[0].len() > 0,
        is_deterministic_aux(calc_aux),
        is_deterministic_commitment::<C, G, M>(commit),
        is_committed_witness(
            calc_aux,
            commit,
            generators,
            cols,
            padded_trace_len,
            num_aux,
            prior,
            first,
            first_commitments,
        ),
        is_committed_witness(
            calc_aux,
            commit,
            generators,
            cols,
            padded_trace_len,
            num_aux,
            prior,
            second,
            second_commitments,
        ),
    ensures
        rows_view(first) == rows_view(second),
        first_commitments == second_commitments,
{
    let rows1 = choose|rows: Seq<Vec<Fe>>|
        are_witness_rows(calc_aux, rows, cols) && rows_view(first) == witness_segments(
            rows,
            cols,
            padded_trace_len,
            num_aux,
        );
    let rows2 = choose|rows: Seq<Vec<Fe>>|
        are_witness_rows(calc_aux, rows, cols) && rows_view(second) == witness_segments(
            rows,
            cols,
            padded_trace_len,
            num_aux,
        );
    assert forall|s: int| 0 <= s < rows1.len() implies (#[trigger] rows1[s])@ == rows2[s]@ by {
        assert(is_witness_row(calc_aux, rows1[s], cols, s as nat));
        assert(is_witness_row(calc_aux, rows2[s], cols, s as nat));
        let r1 = choose|row: Vec<Fe>|
            is_step_row(row@, cols, s as nat) && call_ensures(calc_aux, (row,), rows1[s]);
        let r2 = choose|row: Vec<Fe>|
            is_step_row(row@, cols, s as nat) && call_ensures(calc_aux, (row,), rows2[s]);
        lemma_step_row_determined(r1@, r2@, cols, s as nat);
    }
    assert(rows_view(rows1) =~= rows_view(rows2));
    assert(rows1[0]@ == rows2[0]@);
    assert(rows_view(first) == rows_view(second));
    let chunks = all_chunks(cols, padded_trace_len).len();
    let state = NUM_STATE_VARS as int;
    assert forall|i: int| 0 <= i < first_commitments.len() implies first_commitments[i]
        == second_commitments[i] by {
        if i < state {
            let w1 = first.subrange(0, state);
            let w2 = second.subrange(0, state);
            let c1 = first_commitments.subrange(0, state);
            let c2 = second_commitments.subrange(0, state);
            assert(rows_view(first)[i] == first[i]@ && rows_view(second)[i] == second[i]@);
            assert(call_ensures(commit, (&generators, &w1[i]), c1[i]));
            assert(call_ensures(commit, (&generators, &w2[i]), c2[i]));
        } else if i < state + prior.len() {
            let c1 = first_commitments.subrange(state, state + prior.len());
            let c2 = second_commitments.subrange(state, state + prior.len());
            assert(c1[i - state] == c2[i - state]);
        } else {
            let j = i - state - prior.len();
            let k = state + chunks + j;
            let w1 = first.subrange(state + chunks, first.len() as int);
            let w2 = second.subrange(state + chunks, second.len() as int);
            let c1 = first_commitments.subrange(
                state + prior.len(),
                first_commitments.len() as int,
            );
            let c2 = second_commitments.subrange(
                state + prior.len(),
                second_commitments.len() as int,
            );
            assert(rows_view(first)[k] == first[k]@ && rows_view(second)[k] == second[k]@);
            assert(w1[j] == first[k] && w2[j] == second[k]);
            assert(c1[j] == first_commitments[i] && c2[j] == second_commitments[i]);
            assert(call_ensures(commit, (&generators, &w1[j]), c1[j]));
            assert(call_ensures(commit, (&generators, &w2[j]), c2[j]));
        }
    }
    assert(first_commitments =~= second_commitments);
}

/// Three lists of segments as one, in the order given.
pub fn assemble_witness(
    io_segments: Vec<Vec<Fe>>,
    inputs_segments: Vec<Vec<Fe>>,
    aux_segments: Vec<Vec<Fe>>,
) -> (w_segments: Vec<Vec<Fe>>)
    ensures
        w_segments@ == io_segments@ + inputs_segments@ + aux_segments@,
{
    let mut w_segments = io_segments;
    let mut inputs_segments = inputs_segments;
    let mut aux_segments = aux_segments;
    w_segments.append(&mut inputs_segments);
    w_segments.append(&mut aux_segments);
    w_segments
}

/// Three lists of commitments as one, in the order given.
pub fn merge_commitments<C>(io_comms: Vec<C>, input_comms: Vec<C>, aux_comms: Vec<C>) -> (r: Vec<C>)
    ensures
        r@ == io_comms@ + input_comms@ + aux_comms@,
{
    let mut all = io_comms;
    let mut input_comms = input_comms;
    let mut aux_comms = aux_comms;
    all.append(&mut input_comms);
    all.append(&mut aux_comms);
    all
}

/// One commitment for each segment, in the segments' order.
pub fn commit_segments<C, G, M: Fn(&G, &Vec<Fe>) -> C>(
    segments: &Vec<Vec<Fe>>,
    generators: &G,
    commit: &M,
) -> (commitments: Vec<C>)
    requires
        forall|segment: Vec<Fe>| call_requires(*commit, (generators, &segment)),
    ensures
        are_commitments(*commit, *generators, segments@, commitments@),
{
    let mut commitments: Vec<C> = Vec::with_capacity(segments.len());
    let mut i: usize = 0;
    while i < segments.len()
        invariant
            i <= segments.len(),
            forall|segment: Vec<Fe>| call_requires(*commit, (generators, &segment)),
            commitments.len() == i,
            forall|j: int|
                0 <= j < i ==> call_ensures(
                    *commit,
                    (generators, &#[trigger] segments[j]),
                    commitments[j],
                ),
        decreases segments.len() - i,
    {
        let c = commit(generators, &segments[i]);
        commitments.push(c);
        i = i + 1;
    }
    commitments
}

/// The full witness of a trace and the commitments that belong to it. The
/// state and auxiliary segments are synthesized and committed to here; the
/// segments of the trace columns come with the commitments in
/// `prior_commitments`.
pub fn commit_witness<C, G, A: Fn(Vec<Fe>) -> Vec<Fe>, M: Fn(&G, &Vec<Fe>) -> C>(
    padded_trace_len: usize,
    inputs: R1CSInputs,
    generators: &G,
    prior_commitments: Vec<C>,
    num_aux: usize,
    calc_aux: A,
    commit: &M,
) -> (r: (Vec<Vec<Fe>>, Vec<C>))
    requires
        inputs.wf(),
        padded_trace_len > 0,
        forall|row: Vec<Fe>, s: nat|
            is_step_row(row@, inputs.columns(), s) ==> call_requires(calc_aux, (row,)),
        exists|len: nat|
            {
                &&& #[trigger] witness_rows_have_len(calc_aux, inputs.columns(), len)
                &&& NUM_STATE_VARS < len
                &&& num_aux <= len
            },
        forall|segment: Vec<Fe>| call_requires(*commit, (generators, &segment)),
    ensures
        is_committed_witness(
            calc_aux,
            *commit,
            *generators,
            inputs.columns(),
            padded_trace_len as nat,
            num_aux as nat,
            prior_commitments@,
            r.0@,
            r.1@,
        ),
{
    let ghost cols = inputs.columns();
    proof {
        let len = choose|len: nat|
            {
                &&& #[trigger] witness_rows_have_len(calc_aux, cols, len)
                &&& NUM_STATE_VARS < len
                &&& num_aux <= len
            };
        assert(witness_rows_have_len(calc_aux, cols, len) && (NUM_STATE_VARS == 0 || NUM_STATE_VARS
            < len) && num_aux <= len);
    }
    let jolt_circuit = JoltCircuit::new_from_inputs(padded_trace_len, inputs);
    let (io_segments, aux_segments) = jolt_circuit.synthesize_state_aux_segments(
        NUM_STATE_VARS,
        num_aux,
        calc_aux,
    );
    let inputs_segments = jolt_circuit.inputs().trace_len_chunks(padded_trace_len);
    let io_comms = commit_segments(&io_segments, generators, commit);
    let aux_comms = commit_segments(&aux_segments, generators, commit);
    let ghost io = io_segments@;
    let ghost mid = inputs_segments@;
    let ghost aux = aux_segments@;
    let ghost io_c = io_comms@;
    let ghost aux_c = aux_comms@;
    let w_segments = assemble_witness(io_segments, inputs_segments, aux_segments);
    let commitments = merge_commitments(io_comms, prior_commitments, aux_comms);
    proof {
        assert(are_state_aux_segments(
            calc_aux,
            cols,
            NUM_STATE_VARS as nat,
            num_aux as nat,
            io,
            aux,
        ));
        let rows = choose|rows: Seq<Vec<Fe>>|
            {
                &&& #[trigger] are_witness_rows(calc_aux, rows, cols)
                &&& rows_view(io) == transposed(rows_view(rows), 1, NUM_STATE_VARS as nat)
                &&& rows_view(aux) == transposed(
                    rows_view(rows),
                    rows[0].len() - num_aux,
                    num_aux as nat,
                )
            };
        assert(io.len() == rows_view(io).len());
        assert(aux.len() == rows_view(aux).len());
        assert(mid.len() == rows_view(mid).len());
        assert(rows_view(w_segments@) =~= witness_segments(
            rows,
            cols,
            padded_trace_len as nat,
            num_aux as nat,
        ));
        assert(w_segments@.subrange(0, NUM_STATE_VARS as int) =~= io);
        assert(commitments@.subrange(0, NUM_STATE_VARS as int) =~= io_c);
        assert(w_segments@.subrange(NUM_STATE_VARS + mid.len(), w_segments@.len() as int) =~= aux);
        assert(commitments@.subrange(
            NUM_STATE_VARS + prior_commitments@.len(),
            commitments@.len() as int,
        ) =~= aux_c);
        assert(commitments@.subrange(
            NUM_STATE_VARS as int,
            NUM_STATE_VARS + prior_commitments@.len(),
        ) =~= prior_commitments@);
    }
    (w_segments, commitments)
}

/// The prover, handed `key`, a committed witness of the trace and its
/// commitments, gave `outcome`.
pub open spec fn is_prover_outcome<
    K,
    P,
    C,
    G,
    E,
    A: Fn(Vec<Fe>) -> Vec<Fe>,
    M: Fn(&G, &Vec<Fe>) -> C,
    V: FnOnce(&K, Vec<Vec<Fe>>, &Vec<C>) -> Result<P, E>,
>(
    calc_aux: A,
    commit: M,
    prove_precommitted: V,
    generators: G,
    cols: Seq<Seq<Fe>>,
    padded_trace_len: nat,
    num_aux: nat,
    prior: Seq<C>,
    key: K,
    commitments: Vec<C>,
    outcome: Result<P, E>,
) -> bool {
    exists|witness: Vec<Vec<Fe>>|
        {
            &&& is_committed_witness(
                calc_aux,
                commit,
                generators,
                cols,
                padded_trace_len,
                num_aux,
                prior,
                witness@,
                commitments@,
            )
            &&& #[trigger] call_ensures(prove_precommitted, (&key, witness, &commitments), outcome)
        }
}

/// The key setup, handed the shape of `builder`'s constraints and the padded
/// trace length, gave `outcome`.
pub open spec fn is_setup_outcome<K, E, S: FnOnce(&R1CSShape, usize) -> Result<K, E>>(
    setup: S,
    builder: R1CSBuilder,
    padded_trace_len: usize,
    outcome: Result<K, E>,
) -> bool {
    exists|shape: R1CSShape|
        {
            &&& shape.is_padded_shape_of(builder)
            &&& #[trigger] call_ensures(setup, (&shape, padded_trace_len), outcome)
        }
}

/// The verifier, handed the proof, the key, no public input and the
/// generators, gave `outcome`.
pub open spec fn is_verifier_outcome<
    K,
    P,
    G,
    E,
    V: FnOnce(&P, &K, &Vec<Fe>, &G) -> Result<(), E>,
>(verify_precommitted: V, argument: P, key: K, generators: G, outcome: Result<(), E>) -> bool {
    exists|io: Vec<Fe>|
        {
            &&& io@.len() == 0
            &&& #[trigger] call_ensures(
                verify_precommitted,
                (&argument, &key, &io, &generators),
                outcome,
            )
        }
}

/// Where neither the auxiliary computation nor the commitment scheme adds
/// randomness, two runs of the prover on the same trace, generators and prior
/// commitments were handed the same commitments, whatever their keys and
/// their answers.
pub proof fn lemma_runs_carry_equal_commitments<
    K,
    P,
    C,
    G,
    E,
    A: Fn(Vec<Fe>) -> Vec<Fe>,
    M: Fn(&G, &Vec<Fe>) -> C,
    V: FnOnce(&K, Vec<Vec<Fe>>, &Vec<C>) -> Result<P, E>,
>(
    calc_aux: A,
    commit: M,
    prove_precommitted: V,
    generators: G,
    cols: Seq<Seq<Fe>>,
    padded_trace_len: nat,
    num_aux: nat,
    prior: Seq<C>,
    first_key: K,
    first_commitments: Vec<C>,
    first_outcome: Result<P, E>,
    second_key: K,
    second_commitments: Vec<C>,
    second_outcome: Result<P, E>,
)
    requires
        cols[0].len() > 0,
        is_deterministic_aux(calc_aux),
        is_deterministic_commitment::<C, G, M>(commit),
        is_prover_outcome(
            calc_aux,
            commit,
            prove_precommitted,
            generators,
            cols,
            padded_trace_len,
            num_aux,
            prior,
            first_key,
            first_commitments,
            first_outcome,
        ),
        is_prover_outcome(
            calc_aux,
            commit,
            prove_precommitted,
            generators,
            cols,
            padded_trace_len,
            num_aux,
            prior,
            second_key,
            second_commitments,
            second_outcome,
        ),
    ensures
        first_commitments@ == second_commitments@,
{
    let w1 = choose|witness: Vec<Vec<Fe>>|
        is_committed_witness(
            calc_aux,
            commit,
            generators,
            cols,
            padded_trace_len,
            num_aux,
            prior,
            witness@,
            first_commitments@,
        ) && #[trigger] call_ensures(
            prove_precommitted,
            (&first_key, witness, &first_commitments),
            first_outcome,
        );
    let w2 = choose|witness: Vec<Vec<Fe>>|
        is_committed_witness(
            calc_aux,
            commit,
            generators,
            cols,
            padded_trace_len,
            num_aux,
            prior,
            witness@,
            second_commitments@,
        ) && #[trigger] call_ensures(
            prove_precommitted,
            (&second_key, witness, &second_commitments),
            second_outcome,
        );
    lemma_committed_witness_determined(
        calc_aux,
        commit,
        generators,
        cols,
        padded_trace_len,
        num_aux,
        prior,
        w1@,
        first_commitments@,
        w2@,
        second_commitments@,
    );
}

/// Which stage of an argument failed, with the error that it gave.
#[derive(Debug)]
pub enum R1CSError<E> {
    /// The key could not be derived from the constraint shape.
    Setup(E),
    /// The prover could not build the argument.
    Proving(E),
    /// The proof does not satisfy the relation that was checked.
    Verification(E),
}

/// The commitments to the segments of a witness, and the generators that
/// they were made with.
pub struct R1CSCommitments<C, G> {
    witness_segment_commitments: Vec<C>,
    generators: G,
}

impl<C, G> R1CSCommitments<C, G> {
    pub closed spec fn spec_witness_segment_commitments(&self) -> Vec<C> {
        self.witness_segment_commitments
    }

    pub closed spec fn spec_generators(&self) -> G {
        self.generators
    }

    pub fn witness_segment_commitments(&self) -> (r: &Vec<C>)
        ensures
            *r == self.spec_witness_segment_commitments(),
    {
        &self.witness_segment_commitments
    }

    pub fn generators(&self) -> (r: &G)
        ensures
            *r == self.spec_generators(),
    {
        &self.generators
    }
}

/// A proof that a trace satisfies the uniform constraint system, with the
/// key and the commitments that it is checked against.
pub struct R1CSProof<K, P, C, G> {
    pub key: K,
    pub proof: P,
    pub commitments: R1CSCommitments<C, G>,
}

impl<K, P, C, G> R1CSProof<K, P, C, G> {
    /// Proves that the trace in `inputs` satisfies the constraints of
    /// `builder`: derives the key from the shape of the constraints and the
    /// padded trace length, synthesizes and commits to the witness, with as
    /// many auxiliary segments as the constraints have internal variables,
    /// and hands key, witness and commitments to the prover. An error names
    /// the stage that failed; no stage is run after it.
    pub fn prove<
        E,
        S: FnOnce(&R1CSShape, usize) -> Result<K, E>,
        A: Fn(Vec<Fe>) -> Vec<Fe>,
        M: Fn(&G, &Vec<Fe>) -> C,
        V: FnOnce(&K, Vec<Vec<Fe>>, &Vec<C>) -> Result<P, E>,
    >(
        padded_trace_len: usize,
        inputs: R1CSInputs,
        builder: &R1CSBuilder,
        generators: G,
        prior_commitments: Vec<C>,
        setup: S,
        calc_aux: A,
        commit: M,
        prove_precommitted: V,
    ) -> (r: Result<Self, R1CSError<E>>)
        requires
            inputs.wf(),
            padded_trace_len > 0,
            builder.fits(),
            forall|shape: R1CSShape|
                shape.is_padded_shape_of(*builder) ==> call_requires(
                    setup,
                    (&shape, padded_trace_len),
                ),
            forall|row: Vec<Fe>, s: nat|
                is_step_row(row@, inputs.columns(), s) ==> call_requires(calc_aux, (row,)),
            exists|len: nat|
                {
                    &&& #[trigger] witness_rows_have_len(calc_aux, inputs.columns(), len)
                    &&& NUM_STATE_VARS < len
                    &&& builder.num_internal <= len
                },
            forall|segment: Vec<Fe>| call_requires(commit, (&generators, &segment)),
            forall|key: K, witness: Vec<Vec<Fe>>, commitments: Vec<C>|
                is_setup_outcome(setup, *builder, padded_trace_len, Ok::<K, E>(key))
                    && is_committed_witness(
                    calc_aux,
                    commit,
                    generators,
                    inputs.columns(),
                    padded_trace_len as nat,
                    builder.num_internal as nat,
                    prior_commitments@,
                    witness@,
                    commitments@,
                ) ==> call_requires(prove_precommitted, (&key, witness, &commitments)),
        ensures
            r matches Ok(p) ==> {
                &&& is_setup_outcome(setup, *builder, padded_trace_len, Ok::<K, E>(p.key))
                &&& p.commitments.spec_generators() == generators
                &&& p.commitments.spec_witness_segment_commitments().len() == NUM_STATE_VARS
                    + prior_commitments.len() + builder.num_internal
                &&& is_prover_outcome(
                    calc_aux,
                    commit,
                    prove_precommitted,
                    generators,
                    inputs.columns(),
                    padded_trace_len as nat,
                    builder.num_internal as nat,
                    prior_commitments@,
                    p.key,
                    p.commitments.spec_witness_segment_commitments(),
                    Ok::<P, E>(p.proof),
                )
            },
            r matches Err(R1CSError::Setup(e)) ==> is_setup_outcome(
                setup,
                *builder,
                padded_trace_len,
                Err::<K, E>(e),
            ),
            r matches Err(R1CSError::Proving(e)) ==> exists|key: K, commitments: Vec<C>|
                {
                    &&& is_setup_outcome(setup, *builder, padded_trace_len, Ok::<K, E>(key))
                    &&& #[trigger] is_prover_outcome(
                        calc_aux,
                        commit,
                        prove_precommitted,
                        generators,
                        inputs.columns(),
                        padded_trace_len as nat,
                        builder.num_internal as nat,
                        prior_commitments@,
                        key,
                        commitments,
                        Err::<P, E>(e),
                    )
                },
            !(r matches Err(R1CSError::Verification(_))),
    {
        let shape = builder.padded_shape();
        let derived = setup(&shape, padded_trace_len);
        proof {
            assert(call_ensures(setup, (&shape, padded_trace_len), derived));
            assert(is_setup_outcome(setup, *builder, padded_trace_len, derived));
        }
        let key = match derived {
            Ok(key) => key,
            Err(e) => {
                return Err(R1CSError::Setup(e));
            },
        };
        let num_aux = builder.num_internal;
        let (w_segments, witness_segment_commitments) = commit_witness(
            padded_trace_len,
            inputs,
            &generators,
            prior_commitments,
            num_aux,
            calc_aux,
            &commit,
        );
        let ghost witness = w_segments;
        let outcome = prove_precommitted(&key, w_segments, &witness_segment_commitments);
        proof {
            assert(call_ensures(
                prove_precommitted,
                (&key, witness, &witness_segment_commitments),
                outcome,
            ));
            assert(is_prover_outcome(
                calc_aux,
                commit,
                prove_precommitted,
                generators,
                inputs.columns(),
                padded_trace_len as nat,
                num_aux as nat,
                prior_commitments@,
                key,
                witness_segment_commitments,
                outcome,
            ));
        }
        let r = match outcome {
            Ok(argument) => Ok(
                R1CSProof {
                    key,
                    proof: argument,
                    commitments: R1CSCommitments { witness_segment_commitments, generators },
                },
            ),
            Err(e) => Err(R1CSError::Proving(e)),
        };
        proof {
            assert(!(r matches Err(R1CSError::Verification(_))));
            assert(!(r matches Err(R1CSError::Setup(_))));
            if r is Err {
                assert(r matches Err(R1CSError::Proving(e)) && outcome == Err::<P, E>(e));
                assert(derived == Ok::<K, E>(key));
            }
        }
        r
    }

    /// Checks the proof against the key and the generators, with no public
    /// input. The witness is not needed.
    pub fn verify<E, V: FnOnce(&P, &K, &Vec<Fe>, &G) -> Result<(), E>>(
        &self,
        verify_precommitted: V,
    ) -> (r: Result<(), R1CSError<E>>)
        requires
            forall|io: Vec<Fe>|
                io@.len() == 0 ==> call_requires(
                    verify_precommitted,
                    (&self.proof, &self.key, &io, &self.commitments.spec_generators()),
                ),
        ensures
            r matches Ok(_) ==> is_verifier_outcome(
                verify_precommitted,
                self.proof,
                self.key,
                self.commitments.spec_generators(),
                Ok::<(), E>(()),
            ),
            r matches Err(R1CSError::Verification(e)) ==> is_verifier_outcome(
                verify_precommitted,
                self.proof,
                self.key,
                self.commitments.spec_generators(),
                Err::<(), E>(e),
            ),
            !(r matches Err(R1CSError::Setup(_))),
            !(r matches Err(R1CSError::Proving(_))),
    {
        let io: Vec<Fe> = Vec::new();
        let outcome = verify_precommitted(&self.proof, &self.key, &io, &self.commitments.generators);
        proof {
            assert(call_ensures(
                verify_precommitted,
                (&self.proof, &self.key, &io, &self.commitments.spec_generators()),
                outcome,
            ));
            assert(is_verifier_outcome(
                verify_precommitted,
                self.proof,
                self.key,
                self.commitments.spec_generators(),
                outcome,
            ));
        }
        match outcome {
            Ok(unit) => {
                assert(outcome == Ok::<(), E>(()));
                Ok(())
            },
            Err(e) => Err(R1CSError::Verification(e)),
        }
    }
}

} // verus!
