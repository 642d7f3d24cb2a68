use jolt_core::field::Fe;
use jolt_core::inputs::{R1CSInputs, PREFIX_VARS_PER_STEP, RAM_START_ADDRESS};
use jolt_core::witness::{reassemble_segments, reassemble_segments_partial, JoltCircuit};

fn fes(values: &[u64]) -> Vec<Fe> {
    values.iter().map(|v| Fe::from_u64(*v)).collect()
}

/// A trace of three cycles; the second column is two values wide, the third
/// is empty, the others hold one value per cycle.
fn small_trace() -> R1CSInputs {
    R1CSInputs::new(
        fes(&[0, 5, 0]),
        fes(&[10, 11, 12, 20, 21, 22]),
        fes(&[]),
        fes(&[30, 31, 32]),
        fes(&[40, 41, 42]),
        fes(&[50, 51, 52]),
        fes(&[60, 61, 62]),
        fes(&[70, 71, 72]),
        fes(&[80, 81, 82]),
        fes(&[90, 91, 92]),
    )
}

#[test]
fn rows_hold_the_prefix_and_the_values_of_their_cycle() {
    let trace = small_trace();
    assert_eq!(trace.trace_len(), 3);
    assert_eq!(trace.num_vars_per_step(), 10);
    let rows = trace.clone_to_stepwise();
    assert_eq!(
        rows,
        vec![
            fes(&[1, 0, 0, 0, RAM_START_ADDRESS, 0, 10, 20, 30, 40, 50, 60, 70, 80, 90]),
            fes(&[1, 0, 0, 1, 20 + RAM_START_ADDRESS, 5, 11, 21, 31, 41, 51, 61, 71, 81, 91]),
            fes(&[1, 0, 0, 2, 0, 0, 12, 22, 32, 42, 52, 62, 72, 82, 92]),
        ]
    );
    assert_eq!(trace.step_row(1), rows[1]);
}

#[test]
fn every_row_has_the_declared_length() {
    let trace = small_trace();
    let expected = trace.num_vars_per_step() + PREFIX_VARS_PER_STEP;
    assert_eq!(expected, 15);
    for row in trace.clone_to_stepwise() {
        assert_eq!(row.len(), expected);
    }
}

#[test]
fn a_partial_row_is_not_well_formed() {
    assert!(small_trace().is_well_formed());
    let ragged = R1CSInputs::new(
        fes(&[1, 2]),
        fes(&[7, 8, 9]),
        fes(&[]),
        fes(&[]),
        fes(&[]),
        fes(&[]),
        fes(&[]),
        fes(&[]),
        fes(&[]),
        fes(&[3, 4, 5, 6]),
    );
    assert!(!ragged.is_well_formed());
    let last = R1CSInputs::new(
        fes(&[1, 2]),
        fes(&[7, 8]),
        fes(&[]),
        fes(&[]),
        fes(&[]),
        fes(&[]),
        fes(&[]),
        fes(&[]),
        fes(&[]),
        fes(&[3, 4, 5, 6, 7]),
    );
    assert!(!last.is_well_formed());
    assert!(!R1CSInputs::default().is_well_formed());
    let whole = R1CSInputs::new(
        fes(&[1, 2]),
        fes(&[7, 8, 9, 10]),
        fes(&[]),
        fes(&[]),
        fes(&[]),
        fes(&[]),
        fes(&[]),
        fes(&[]),
        fes(&[]),
        fes(&[3, 4, 5, 6]),
    );
    assert!(whole.is_well_formed());
    assert_eq!(whole.num_vars_per_step(), 5);
    let rows = whole.clone_to_stepwise();
    assert_eq!(rows[0], fes(&[1, 0, 0, 0, 4 + RAM_START_ADDRESS, 1, 7, 9, 3, 5]));
    assert_eq!(rows[1], fes(&[1, 0, 0, 1, 8 + RAM_START_ADDRESS, 2, 8, 10, 4, 6]));
}

#[test]
fn program_counter_wraps_in_the_field() {
    let top = Fe::zero().minus(Fe::one());
    let trace = R1CSInputs::new(
        vec![top],
        vec![],
        vec![],
        vec![],
        vec![],
        vec![],
        vec![],
        vec![],
        vec![],
        vec![],
    );
    let row = trace.step_row(0);
    assert_eq!(row.len(), 6);
    assert_eq!(row[4], Fe::from_u64(RAM_START_ADDRESS - 4));
    assert_eq!(row[5], top);
}

#[test]
fn columns_are_cut_into_segments_of_the_padded_length() {
    let trace = small_trace();
    let chunks = trace.trace_len_chunks(3);
    assert_eq!(
        chunks,
        vec![
            fes(&[0, 5, 0]),
            fes(&[10, 11, 12]),
            fes(&[20, 21, 22]),
            fes(&[30, 31, 32]),
            fes(&[40, 41, 42]),
            fes(&[50, 51, 52]),
            fes(&[60, 61, 62]),
            fes(&[70, 71, 72]),
            fes(&[80, 81, 82]),
            fes(&[90, 91, 92]),
        ]
    );
    let uneven = trace.trace_len_chunks(4);
    assert_eq!(uneven.len(), 10);
    assert_eq!(uneven[0], fes(&[0, 5, 0]));
    assert_eq!(uneven[1], fes(&[10, 11, 12, 20]));
    assert_eq!(uneven[2], fes(&[21, 22]));
    assert_eq!(uneven[3], fes(&[30, 31, 32]));
}

#[test]
fn segments_put_together_give_the_columns_back() {
    let trace = small_trace();
    let all: Vec<Fe> = fes(&[
        0, 5, 0, 10, 11, 12, 20, 21, 22, 30, 31, 32, 40, 41, 42, 50, 51, 52, 60, 61, 62, 70, 71,
        72, 80, 81, 82, 90, 91, 92,
    ]);
    for padded in [1usize, 2, 3, 4, 5, 6, 7, 100] {
        let chunks = trace.trace_len_chunks(padded);
        assert_eq!(chunks.concat(), all);
        for chunk in &chunks {
            assert!(!chunk.is_empty() && chunk.len() <= padded);
        }
    }
    assert_eq!(trace.trace_len_chunks(1).len(), 30);
    for chunk in trace.trace_len_chunks(3) {
        assert_eq!(chunk.len(), 3);
    }
}

#[test]
fn rows_are_turned_into_one_segment_per_variable() {
    let rows = vec![fes(&[1, 2, 3, 4]), fes(&[5, 6, 7, 8]), fes(&[9, 10, 11, 12])];
    assert_eq!(
        reassemble_segments(rows.clone()),
        vec![fes(&[1, 5, 9]), fes(&[2, 6, 10]), fes(&[3, 7, 11])]
    );
    let (front, back) = reassemble_segments_partial(rows.clone(), 2, 1);
    assert_eq!(front, vec![fes(&[2, 6, 10]), fes(&[3, 7, 11])]);
    assert_eq!(back, vec![fes(&[4, 8, 12])]);
    let (front, back) = reassemble_segments_partial(rows.clone(), 0, 4);
    assert_eq!(front, Vec::<Vec<Fe>>::new());
    assert_eq!(
        back,
        vec![fes(&[1, 5, 9]), fes(&[2, 6, 10]), fes(&[3, 7, 11]), fes(&[4, 8, 12])]
    );
    let (front, back) = reassemble_segments_partial(rows, 3, 0);
    assert_eq!(front, vec![fes(&[2, 6, 10]), fes(&[3, 7, 11]), fes(&[4, 8, 12])]);
    assert_eq!(back, Vec::<Vec<Fe>>::new());
    assert_eq!(reassemble_segments(vec![fes(&[7])]), Vec::<Vec<Fe>>::new());
}

#[test]
fn witness_rows_carry_the_auxiliary_variables() {
    let circuit = JoltCircuit::new_from_inputs(4, small_trace());
    assert_eq!(circuit.num_steps(), 4);
    assert_eq!(circuit.inputs().trace_len(), 3);
    // the auxiliary computation fills the two reserved slots and appends the
    // sum and the product of the cycle's number and its program counter
    let calc_aux = |mut row: Vec<Fe>| {
        row[1] = Fe::from_u64(100).plus(row[3]);
        row[2] = Fe::from_u64(200).plus(row[3]);
        let sum = row[3].plus(row[4]);
        let product = row[3].times(row[4]);
        row.push(sum);
        row.push(product);
        row
    };
    let rows = circuit.synthesize_witnesses(calc_aux);
    assert_eq!(rows.len(), 3);
    assert_eq!(
        rows[1],
        fes(&[
            1,
            101,
            201,
            1,
            20 + RAM_START_ADDRESS,
            5,
            11,
            21,
            31,
            41,
            51,
            61,
            71,
            81,
            91,
            21 + RAM_START_ADDRESS,
            20 + RAM_START_ADDRESS,
        ])
    );
    let (state, aux) = circuit.synthesize_state_aux_segments(2, 1, calc_aux);
    assert_eq!(state, vec![fes(&[100, 101, 102]), fes(&[200, 201, 202])]);
    assert_eq!(aux, vec![fes(&[0, 20 + RAM_START_ADDRESS, 0])]);
    let (state, aux) = circuit.synthesize_state_aux_segments(0, 17, calc_aux);
    assert_eq!(state, Vec::<Vec<Fe>>::new());
    assert_eq!(aux.len(), 17);
    assert_eq!(aux[0], fes(&[1, 1, 1]));
    assert_eq!(aux[16], fes(&[0, 20 + RAM_START_ADDRESS, 0]));
    let (state, aux) = circuit.synthesize_state_aux_segments(4, 2, calc_aux);
    assert_eq!(
        state,
        vec![
            fes(&[100, 101, 102]),
            fes(&[200, 201, 202]),
            fes(&[0, 1, 2]),
            fes(&[RAM_START_ADDRESS, 20 + RAM_START_ADDRESS, 0]),
        ]
    );
    assert_eq!(
        aux,
        vec![
            fes(&[RAM_START_ADDRESS, 21 + RAM_START_ADDRESS, 2]),
            fes(&[0, 20 + RAM_START_ADDRESS, 0]),
        ]
    );
}
