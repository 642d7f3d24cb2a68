use jolt_core::field::Fe;
use jolt_core::inputs::R1CSInputs;
use jolt_core::shape::{R1CSBuilder, R1CSShape};
use jolt_core::snark::{
    assemble_witness, commit_segments, commit_witness, merge_commitments, R1CSError, R1CSProof,
};

fn fes(values: &[u64]) -> Vec<Fe> {
    values.iter().map(|v| Fe::from_u64(*v)).collect()
}

fn trace() -> R1CSInputs {
    R1CSInputs::new(
        fes(&[1, 2]),
        fes(&[3, 4]),
        fes(&[5, 6, 7, 8]),
        fes(&[]),
        fes(&[]),
        fes(&[]),
        fes(&[]),
        fes(&[]),
        fes(&[]),
        fes(&[9, 10]),
    )
}

/// A stand-in for a commitment: the sum of the segment times the generator.
fn commit(generator: &Fe, segment: &Vec<Fe>) -> Fe {
    segment
        .iter()
        .fold(Fe::zero(), |sum, value| sum.plus(*value))
        .times(*generator)
}

/// Constraints with `num_internal` internal variables and no matrix entry.
fn no_constraints(num_internal: usize) -> R1CSBuilder {
    R1CSBuilder {
        a: vec![],
        b: vec![],
        c: vec![],
        num_constraints: 0,
        num_inputs: 0,
        num_aux: num_internal,
        num_internal,
    }
}

fn calc_aux(mut row: Vec<Fe>) -> Vec<Fe> {
    let doubled = row[3].plus(row[3]);
    row.push(doubled);
    row
}

const RAM: u64 = 0x8000_0000;

fn expected_witness() -> Vec<Vec<Fe>> {
    vec![
        fes(&[0, 0]),
        fes(&[0, 0]),
        fes(&[0, 1]),
        fes(&[4 + RAM, 8 + RAM]),
        fes(&[1, 2]),
        fes(&[3, 4]),
        fes(&[5, 6]),
        fes(&[7, 8]),
        fes(&[9, 10]),
        fes(&[0, 2]),
    ]
}

fn expected_commitments() -> Vec<Fe> {
    let mut list = fes(&[0, 0, 3]);
    list.push(Fe::from_u64(12 + 2 * RAM).times(Fe::from_u64(3)));
    list.extend(fes(&[1001, 1002, 1003, 1004, 1005]));
    list.push(Fe::from_u64(6));
    list
}

#[test]
fn witness_and_commitments_keep_their_order() {
    assert_eq!(
        assemble_witness(vec![fes(&[1])], vec![fes(&[2]), fes(&[3])], vec![fes(&[4])]),
        vec![fes(&[1]), fes(&[2]), fes(&[3]), fes(&[4])]
    );
    assert_eq!(
        merge_commitments(vec!['a', 'b'], vec!['c'], vec!['d', 'e']),
        vec!['a', 'b', 'c', 'd', 'e']
    );
    assert_eq!(
        merge_commitments(Vec::<u8>::new(), vec![1], Vec::new()),
        vec![1]
    );
    let segments = vec![fes(&[1, 2]), fes(&[]), fes(&[10])];
    assert_eq!(
        commit_segments(&segments, &Fe::from_u64(2), &commit),
        fes(&[6, 0, 20])
    );
}

#[test]
fn committed_witness_of_a_small_trace() {
    let prior = fes(&[1001, 1002, 1003, 1004, 1005]);
    let (witness, commitments) =
        commit_witness(2, trace(), &Fe::from_u64(3), prior, 1, calc_aux, &commit);
    assert_eq!(witness, expected_witness());
    assert_eq!(commitments, expected_commitments());
}

#[test]
fn proof_is_made_of_what_the_prover_returns() {
    let prior = fes(&[1001, 1002, 1003, 1004, 1005]);
    let outcome: Result<R1CSProof<usize, (usize, Vec<Vec<Fe>>, Vec<Fe>), Fe, Fe>, R1CSError<String>> =
        R1CSProof::prove(
            2,
            trace(),
            &no_constraints(1),
            Fe::from_u64(3),
            prior,
            |shape: &R1CSShape, steps: usize| Ok(steps * 10 + shape.num_vars - 1),
            calc_aux,
            commit,
            |key: &usize, witness: Vec<Vec<Fe>>, commitments: &Vec<Fe>| {
                Ok((*key, witness, commitments.clone()))
            },
        );
    let made = outcome.unwrap();
    assert_eq!(made.key, 20);
    assert_eq!(made.proof.0, 20);
    assert_eq!(made.proof.1, expected_witness());
    assert_eq!(made.proof.2, expected_commitments());
    assert_eq!(
        *made.commitments.witness_segment_commitments(),
        expected_commitments()
    );
    assert_eq!(*made.commitments.generators(), Fe::from_u64(3));

    let accepted: Result<(), R1CSError<String>> = made.verify(
        |proof: &(usize, Vec<Vec<Fe>>, Vec<Fe>), key: &usize, io: &Vec<Fe>, generators: &Fe| {
            if proof.0 == *key && io.is_empty() && *generators == Fe::from_u64(3) {
                Ok(())
            } else {
                Err(String::from("mismatch"))
            }
        },
    );
    assert!(accepted.is_ok());
    let refused = made.verify(
        |_: &(usize, Vec<Vec<Fe>>, Vec<Fe>), _: &usize, _: &Vec<Fe>, _: &Fe| {
            Err(String::from("sum-check"))
        },
    );
    assert!(matches!(refused, Err(R1CSError::Verification(reason)) if reason == "sum-check"));
}

#[test]
fn a_failed_stage_is_named() {
    let no_key: Result<R1CSProof<usize, usize, Fe, Fe>, R1CSError<String>> = R1CSProof::prove(
        2,
        trace(),
        &no_constraints(1),
        Fe::one(),
        Vec::new(),
        |_: &R1CSShape, _: usize| Err(String::from("shape")),
        calc_aux,
        commit,
        |_: &usize, _: Vec<Vec<Fe>>, _: &Vec<Fe>| -> Result<usize, String> {
            panic!("no stage runs after a failed setup")
        },
    );
    assert!(matches!(no_key, Err(R1CSError::Setup(reason)) if reason == "shape"));

    let no_proof: Result<R1CSProof<usize, usize, Fe, Fe>, R1CSError<String>> = R1CSProof::prove(
        2,
        trace(),
        &no_constraints(1),
        Fe::one(),
        Vec::new(),
        |_: &R1CSShape, steps: usize| Ok(steps),
        calc_aux,
        commit,
        |_: &usize, _: Vec<Vec<Fe>>, _: &Vec<Fe>| Err(String::from("degree")),
    );
    assert!(matches!(no_proof, Err(R1CSError::Proving(reason)) if reason == "degree"));
}

#[test]
fn shape_is_padded_to_a_power_of_two() {
    let builder = R1CSBuilder {
        a: vec![(0, 0, 1), (1, 4, -1), (2, 5, 7)],
        b: vec![(0, 6, i64::MIN)],
        c: vec![],
        num_constraints: 3,
        num_inputs: 2,
        num_aux: 5,
        num_internal: 5,
    };
    let shape = builder.padded_shape();
    assert_eq!(shape.num_cons, 3);
    assert_eq!(shape.num_vars, 8);
    assert_eq!(shape.num_io, 2);
    assert_eq!(
        shape.a,
        vec![
            (0, 0, Fe::one()),
            (1, 4, Fe::zero().minus(Fe::one())),
            (2, 8, Fe::from_u64(7)),
        ]
    );
    assert_eq!(shape.b, vec![(0, 9, Fe::zero().minus(Fe::from_u64(1 << 63)))]);
    assert_eq!(shape.c, Vec::new());

    let exact = R1CSBuilder {
        a: vec![(0, 3, 2), (0, 4, 3)],
        b: vec![],
        c: vec![],
        num_constraints: 1,
        num_inputs: 0,
        num_aux: 4,
        num_internal: 4,
    };
    let shape = exact.padded_shape();
    assert_eq!(shape.num_vars, 4);
    assert_eq!(shape.a, vec![(0, 3, Fe::from_u64(2)), (0, 4, Fe::from_u64(3))]);
    let empty = R1CSBuilder::default().padded_shape();
    assert_eq!((empty.num_cons, empty.num_vars, empty.num_io), (0, 1, 0));
}

#[test]
fn the_same_segments_give_the_same_commitments() {
    let segments = vec![fes(&[1, 2, 3]), fes(&[4]), fes(&[])];
    let generator = Fe::from_u64(5);
    let first = commit_segments(&segments, &generator, &commit);
    let second = commit_segments(&segments, &generator, &commit);
    assert_eq!(first, second);
    assert_eq!(first, fes(&[30, 20, 0]));
    let changed = vec![fes(&[1, 2, 4]), fes(&[4]), fes(&[])];
    assert_ne!(commit_segments(&changed, &generator, &commit), first);
}

/// Eight cycles with a bytecode address and a lookup output each.
fn eight_cycles() -> R1CSInputs {
    R1CSInputs::new(
        fes(&[0, 1, 2, 3, 4, 5, 6, 7]),
        fes(&[]),
        fes(&[]),
        fes(&[]),
        fes(&[]),
        fes(&[]),
        fes(&[]),
        fes(&[]),
        fes(&[10, 11, 12, 13, 14, 15, 16, 17]),
        fes(&[]),
    )
}

/// Two constraints on the nine variables of a cycle:
/// `z3 * z4 = z7` and `(z6 + z0) * z0 = z8`.
fn two_constraints() -> R1CSBuilder {
    R1CSBuilder {
        a: vec![(0, 3, 1), (1, 6, 1), (1, 0, 1)],
        b: vec![(0, 4, 1), (1, 0, 1)],
        c: vec![(0, 7, 1), (1, 8, 1)],
        num_constraints: 2,
        num_inputs: 0,
        num_aux: 16,
        num_internal: 2,
    }
}

fn honest_aux(mut row: Vec<Fe>) -> Vec<Fe> {
    let product = row[3].times(row[4]);
    let successor = row[6].plus(row[0]);
    row.push(product);
    row.push(successor);
    row
}

fn flipped_aux(row: Vec<Fe>) -> Vec<Fe> {
    let fifth = row[3] == Fe::from_u64(5);
    let mut row = honest_aux(row);
    if fifth {
        row[8] = row[8].plus(Fe::one());
    }
    row
}

fn run_argument(calc_aux: fn(Vec<Fe>) -> Vec<Fe>) -> Result<(), R1CSError<String>> {
    let builder = two_constraints();
    assert!(builder.check_fits());
    let shape = builder.padded_shape();
    assert!(shape.check_in_range(9));
    let expected_a = shape.a.clone();
    let generator = Fe::from_u64(7);
    let inputs = eight_cycles();
    let prior: Vec<Fe> = inputs
        .trace_len_chunks(8)
        .iter()
        .map(|segment| commit(&generator, segment))
        .collect();
    let made: R1CSProof<usize, Vec<Fe>, Fe, Fe> = R1CSProof::prove(
        8,
        inputs,
        &builder,
        generator,
        prior,
        |handed: &R1CSShape, steps: usize| {
            assert_eq!(handed.a, expected_a);
            assert_eq!((handed.num_cons, handed.num_vars, handed.num_io), (2, 16, 0));
            Ok(steps * handed.num_cons)
        },
        calc_aux,
        commit,
        |key: &usize, witness: Vec<Vec<Fe>>, commitments: &Vec<Fe>| {
            assert_eq!(*key, 16);
            assert_eq!(witness.len(), 8);
            for step in 0..8 {
                let mut z = vec![Fe::one()];
                z.extend(witness.iter().map(|segment| segment[step]));
                if !shape.is_satisfied(&z) {
                    return Err(format!("cycle {} does not satisfy the constraints", step));
                }
            }
            Ok(commitments.clone())
        },
    )?;
    assert_eq!(made.commitments.witness_segment_commitments().len(), 8);
    made.verify(|argument: &Vec<Fe>, key: &usize, io: &Vec<Fe>, generators: &Fe| {
        if argument.len() == 8 && *key == 16 && io.is_empty() && *generators == Fe::from_u64(7) {
            Ok(())
        } else {
            Err(String::from("the proof does not belong to the key"))
        }
    })
}

#[test]
fn a_satisfying_trace_is_proved_and_verified() {
    assert!(run_argument(honest_aux).is_ok());
}

#[test]
fn a_flipped_witness_value_is_caught() {
    let outcome = run_argument(flipped_aux);
    assert!(matches!(
        outcome,
        Err(R1CSError::Proving(reason)) if reason == "cycle 5 does not satisfy the constraints"
    ));
}

#[test]
fn constraints_are_checked_row_by_row() {
    let shape = two_constraints().padded_shape();
    let z = fes(&[1, 0, 0, 3, 5, 0, 9, 15, 10]);
    assert!(shape.is_satisfied(&z));
    assert!(!shape.is_satisfied(&fes(&[1, 0, 0, 3, 5, 0, 9, 16, 10])));
    assert!(!shape.is_satisfied(&fes(&[1, 0, 0, 3, 5, 0, 9, 15, 11])));
    assert!(shape.check_in_range(9));
    assert!(!shape.check_in_range(8));
    // coefficients below zero: (z0 - z1) * z2 = z3
    let difference = R1CSBuilder {
        a: vec![(0, 0, 1), (0, 1, -1)],
        b: vec![(0, 2, 1)],
        c: vec![(0, 3, 1)],
        num_constraints: 1,
        num_inputs: 0,
        num_aux: 4,
        num_internal: 0,
    };
    let shape = difference.padded_shape();
    assert!(shape.is_satisfied(&vec![
        Fe::from_u64(2),
        Fe::from_u64(5),
        Fe::from_u64(4),
        Fe::from_i64(-12),
    ]));
    assert!(!shape.is_satisfied(&fes(&[2, 5, 4, 12])));
    let nothing = R1CSBuilder::default().padded_shape();
    assert!(nothing.is_satisfied(&Vec::new()));
}

#[test]
fn a_shape_that_does_not_fit_is_refused() {
    let mut builder = two_constraints();
    assert!(builder.check_fits());
    builder.num_aux = usize::MAX;
    assert!(!builder.check_fits());
    builder.num_aux = 5;
    builder.c.push((0, usize::MAX - 2, 1));
    assert!(!builder.check_fits());
    builder.c.pop();
    builder.c.push((0, usize::MAX - 3, 1));
    assert!(builder.check_fits());
}

#[test]
fn shape_of_a_single_cycle_is_built_afresh() {
    let get_matrices = |mut builder: R1CSBuilder| {
        assert!(builder.a.is_empty() && builder.b.is_empty() && builder.c.is_empty());
        assert_eq!(
            (
                builder.num_constraints,
                builder.num_inputs,
                builder.num_aux,
                builder.num_internal
            ),
            (0, 0, 0, 0)
        );
        builder.a.push((0, 1, 2));
        builder.b.push((0, 3, -1));
        builder.c.push((0, 4, 1));
        builder.num_constraints = 1;
        builder.num_inputs = 1;
        builder.num_aux = 3;
        builder.num_internal = 3;
        builder
    };
    let from_empty = R1CSBuilder::default().single_step_shape(get_matrices);
    let from_other = two_constraints().single_step_shape(get_matrices);
    for shape in [&from_empty, &from_other] {
        assert_eq!((shape.num_cons, shape.num_vars, shape.num_io), (1, 4, 1));
        assert_eq!(shape.a, vec![(0, 1, Fe::from_u64(2))]);
        assert_eq!(shape.b, vec![(0, 4, Fe::zero().minus(Fe::one()))]);
        assert_eq!(shape.c, vec![(0, 5, Fe::one())]);
    }
}

#[test]
fn auxiliary_segments_are_the_tail_of_the_rows() {
    // the auxiliary computation appends two values; one auxiliary segment is
    // asked for, and three
    let appends_two = |mut row: Vec<Fe>| {
        row.push(Fe::from_u64(70).plus(row[3]));
        row.push(Fe::from_u64(80).plus(row[3]));
        row
    };
    let (witness, commitments) = commit_witness(
        2,
        trace(),
        &Fe::one(),
        fes(&[1, 2, 3, 4, 5]),
        1,
        appends_two,
        &commit,
    );
    assert_eq!(witness.len(), 10);
    assert_eq!(witness[9], fes(&[80, 81]));
    assert_eq!(commitments.len(), 10);
    let (witness, _) = commit_witness(
        2,
        trace(),
        &Fe::one(),
        fes(&[1, 2, 3, 4, 5]),
        3,
        appends_two,
        &commit,
    );
    assert_eq!(witness.len(), 12);
    assert_eq!(witness[9], fes(&[9, 10]));
    assert_eq!(witness[10], fes(&[70, 71]));
    assert_eq!(witness[11], fes(&[80, 81]));
}
