use ark_std::rand::RngCore;
use jolt_core::field::Fe;
use jolt_core::instruction::{chunk_and_concatenate_operands, combine_signed_less_than, BGEInstruction};
use jolt_core::math::{log2, next_power_of_two, pow2_u64};
use jolt_core::subtable::Subtable;
use rand::rngs::StdRng;
use rand::SeedableRng;

fn expect_lookup(instruction: BGEInstruction, tables: &[Vec<Fe>], c: usize, m: usize, expected: Fe) {
    let indices = instruction.to_indices(c, log2(m));
    let mut values: Vec<Fe> = Vec::with_capacity(c * tables.len());
    for table in tables {
        for i in 0..c {
            values.push(table[indices[i]]);
        }
    }
    assert_eq!(instruction.combine_lookups(&values, c, m), expected);
}

fn materialized(instruction: BGEInstruction, c: usize, m: usize) -> Vec<Vec<Fe>> {
    instruction
        .subtables(c)
        .iter()
        .map(|table| table.materialize(m))
        .collect()
}

#[test]
fn bge_instruction_e2e() {
    let mut rng = ark_std::test_rng();
    const C: usize = 8;
    const M: usize = 1 << 16;
    let tables = materialized(BGEInstruction(0, 0), C, M);

    for _ in 0..256 {
        let x = rng.next_u64() as i64;
        let y = rng.next_u64() as i64;

        expect_lookup(
            BGEInstruction(x as u64, y as u64),
            &tables,
            C,
            M,
            Fe::from_u64(u64::from(x >= y)),
        );
        assert_eq!(
            BGEInstruction(x as u64, y as u64).lookup_entry(C, M),
            Fe::from_u64(u64::from(x >= y))
        );
    }
    for _ in 0..256 {
        let x = rng.next_u64() as i64;
        expect_lookup(BGEInstruction(x as u64, x as u64), &tables, C, M, Fe::one());
        assert_eq!(
            BGEInstruction(x as u64, x as u64).lookup_entry(C, M),
            Fe::one()
        );
    }
}

#[test]
fn signed_comparison_at_the_boundaries() {
    let cases: [(i64, i64); 12] = [
        (0, 0),
        (-1, 0),
        (0, -1),
        (-1, -1),
        (i64::MIN, i64::MAX),
        (i64::MAX, i64::MIN),
        (i64::MIN, i64::MIN),
        (i64::MAX, i64::MAX),
        (5, 6),
        (6, 5),
        (-6, -5),
        (-5, -6),
    ];
    for (x, y) in cases {
        let expected = Fe::from_u64(u64::from(x >= y));
        assert_eq!(BGEInstruction(x as u64, y as u64).lookup_entry(8, 1 << 16), expected);
        assert_eq!(BGEInstruction(x as u64, y as u64).lookup_entry(16, 1 << 8), expected);
        assert_eq!(BGEInstruction(x as u64, y as u64).lookup_entry(4, 1 << 32), expected);
    }
}

#[test]
fn signed_less_than_is_the_complement() {
    let cases: [(i64, i64); 5] = [(0, 0), (-1, 0), (0, -1), (3, 9), (-9, -3)];
    for (x, y) in cases {
        let instruction = BGEInstruction(x as u64, y as u64);
        let values = instruction.gather_lookups(8, 16);
        assert_eq!(values.len(), 48);
        assert_eq!(
            combine_signed_less_than(&values, 8),
            Fe::from_u64(u64::from(x < y))
        );
        assert_eq!(
            instruction.combine_lookups(&values, 8, 1 << 16),
            Fe::from_u64(u64::from(x >= y))
        );
    }
}

#[test]
fn indices_pack_the_chunks_of_both_operands() {
    let instruction = BGEInstruction(0x0123_4567_89ab_cdef, 0xfedc_ba98_7654_3210);
    assert_eq!(
        instruction.to_indices(8, 16),
        vec![0x01fe, 0x23dc, 0x45ba, 0x6798, 0x8976, 0xab54, 0xcd32, 0xef10]
    );
    assert_eq!(
        instruction.to_indices(4, 32),
        vec![0x0123_fedc, 0x4567_ba98, 0x89ab_7654, 0xcdef_3210]
    );
    assert_eq!(
        chunk_and_concatenate_operands(0b1011, 0b0110, 4, 2),
        vec![0b10, 0b01, 0b11, 0b10]
    );
    assert_eq!(instruction.to_indices(0, 16), Vec::<usize>::new());
}

#[test]
fn indices_stay_below_the_table_size() {
    let mut rng = ark_std::test_rng();
    for (c, log_m) in [
        (8usize, 16usize),
        (4, 32),
        (16, 8),
        (3, 10),
        (70, 2),
        (5, 0),
        (2, 64),
        (2, 66),
        (1, 200),
        (9, 63),
    ] {
        for _ in 0..50 {
            let instruction = BGEInstruction(rng.next_u64(), rng.next_u64());
            let indices = instruction.to_indices(c, log_m);
            assert_eq!(indices.len(), c);
            for index in indices {
                assert!(log_m >= 64 || index < 1usize << log_m);
            }
        }
    }
}

#[test]
fn indices_wider_than_a_word_are_cut_to_the_word() {
    // one chunk of 40 bits from each operand: 80 bits, of which 64 are kept
    let wide = BGEInstruction(0xff_ffff_ffff, 1).to_indices(1, 80);
    assert_eq!(wide, vec![0xffff_ff00_0000_0001]);
    // chunks of 33 bits: the first holds the upper 31 bits of an operand
    let split = BGEInstruction((1 << 33) | 5, 7).to_indices(2, 66);
    assert_eq!(split, vec![1 << 33, (5 << 33) | 7]);
    // chunks of 64 bits and more hold a whole operand; the left one lies
    // above the word
    assert_eq!(BGEInstruction(3, 9).to_indices(1, 128), vec![9]);
    assert_eq!(BGEInstruction(3, 9).to_indices(2, 128), vec![0, 9]);
    assert_eq!(BGEInstruction(3, 9).to_indices(1, 131), vec![9]);
    let huge = BGEInstruction(u64::MAX, u64::MAX - 1).to_indices(3, usize::MAX);
    assert_eq!(huge, vec![0, 0, usize::MAX - 1]);
    assert_eq!(
        BGEInstruction(u64::MAX, 0).to_indices(usize::MAX.count_ones() as usize, 1).len(),
        64
    );
}

#[test]
fn chunks_beyond_the_operand_are_zero() {
    let indices = BGEInstruction(u64::MAX, u64::MAX).to_indices(10, 16);
    assert_eq!(
        indices,
        vec![0, 0, 0xffff, 0xffff, 0xffff, 0xffff, 0xffff, 0xffff, 0xffff, 0xffff]
    );
    assert_eq!(BGEInstruction(u64::MAX, u64::MAX).to_indices(3, 1), vec![0, 0, 0]);
}

#[test]
fn instruction_declares_its_tables_and_degree() {
    let instruction = BGEInstruction(3, 4);
    assert_eq!(instruction.operands(), [3, 4]);
    assert_eq!(instruction.g_poly_degree(8), 8);
    assert_eq!(instruction.g_poly_degree(0), 0);
    assert_eq!(
        instruction.subtables(8),
        vec![
            Subtable::GtMsb,
            Subtable::EqMsb,
            Subtable::Ltu,
            Subtable::Eq,
            Subtable::LtAbs,
            Subtable::EqAbs,
        ]
    );
    let zero = BGEInstruction::default();
    assert_eq!((zero.0, zero.1), (0, 0));
}

#[test]
fn random_instruction_takes_two_draws_of_the_generator() {
    let mut used = StdRng::seed_from_u64(42);
    let mut fresh = StdRng::seed_from_u64(42);
    let first = BGEInstruction(0, 0).random(&mut used);
    let second = BGEInstruction(u64::MAX, 17).random(&mut used);
    assert_eq!(first.0, fresh.next_u64());
    assert_eq!(first.1, fresh.next_u64());
    assert_eq!(second.0, fresh.next_u64());
    assert_eq!(second.1, fresh.next_u64());
    assert!((first.0, first.1) != (second.0, second.1));
    // equal states of the generator give equal instructions, whatever the
    // receiver holds
    let mut again = StdRng::seed_from_u64(42);
    let repeated = BGEInstruction(5, 6).random(&mut again);
    assert_eq!((repeated.0, repeated.1), (first.0, first.1));
    // the operands use all 64 bits
    let mut rng = StdRng::seed_from_u64(7);
    let mut seen: u64 = 0;
    for _ in 0..64 {
        let drawn = BGEInstruction(0, 0).random(&mut rng);
        seen |= drawn.0 | drawn.1;
    }
    assert_eq!(seen, u64::MAX);
    let made = BGEInstruction::from_operands(7, u64::MAX);
    assert_eq!((made.0, made.1), (7, u64::MAX));
}

#[test]
fn table_entries_follow_their_relation() {
    let one = Fe::one();
    let zero = Fe::zero();
    // chunks of 4 bits: the index is left * 16 + right
    let at = |table: Subtable, left: usize, right: usize| table.entry(left * 16 + right, 8);
    assert_eq!(at(Subtable::Ltu, 3, 9), one);
    assert_eq!(at(Subtable::Ltu, 9, 3), zero);
    assert_eq!(at(Subtable::Ltu, 9, 9), zero);
    assert_eq!(at(Subtable::Eq, 9, 9), one);
    assert_eq!(at(Subtable::Eq, 9, 8), zero);
    assert_eq!(at(Subtable::GtMsb, 0b1000, 0b0111), one);
    assert_eq!(at(Subtable::GtMsb, 0b0111, 0b1000), zero);
    assert_eq!(at(Subtable::GtMsb, 0b1000, 0b1111), zero);
    assert_eq!(at(Subtable::EqMsb, 0b1000, 0b1111), one);
    assert_eq!(at(Subtable::EqMsb, 0b0000, 0b0111), one);
    assert_eq!(at(Subtable::EqMsb, 0b1000, 0b0111), zero);
    assert_eq!(at(Subtable::LtAbs, 0b1001, 0b0010), one);
    assert_eq!(at(Subtable::LtAbs, 0b0010, 0b1001), zero);
    assert_eq!(at(Subtable::LtAbs, 0b1010, 0b0010), zero);
    assert_eq!(at(Subtable::EqAbs, 0b1010, 0b0010), one);
    assert_eq!(at(Subtable::EqAbs, 0b1011, 0b0010), zero);
}

#[test]
fn materialized_table_holds_every_entry() {
    for table in [
        Subtable::GtMsb,
        Subtable::EqMsb,
        Subtable::Ltu,
        Subtable::Eq,
        Subtable::LtAbs,
        Subtable::EqAbs,
    ] {
        let entries = table.materialize(256);
        assert_eq!(entries.len(), 256);
        for (index, entry) in entries.iter().enumerate() {
            assert_eq!(*entry, table.entry(index, 8));
        }
    }
    let less = Subtable::Ltu.materialize(16);
    let ones: Vec<usize> = (0..16).filter(|i| less[*i] == Fe::one()).collect();
    assert_eq!(ones, vec![1, 2, 3, 6, 7, 11]);
    // a size that is no power of two is rounded up: 5 entries, chunks of one bit
    assert_eq!(
        Subtable::Eq.materialize(5),
        vec![Fe::one(), Fe::zero(), Fe::zero(), Fe::one(), Fe::zero()]
    );
}

#[test]
fn logarithms_round_up() {
    assert_eq!(log2(0), 0);
    assert_eq!(log2(1), 0);
    assert_eq!(log2(2), 1);
    assert_eq!(log2(3), 2);
    assert_eq!(log2(4), 2);
    assert_eq!(log2(5), 3);
    assert_eq!(log2(1 << 16), 16);
    assert_eq!(log2((1 << 16) + 1), 17);
    assert_eq!(log2(usize::MAX), 64);
    assert_eq!(pow2_u64(0), 1);
    assert_eq!(pow2_u64(63), 1 << 63);
    assert_eq!(next_power_of_two(0), 1);
    assert_eq!(next_power_of_two(1), 1);
    assert_eq!(next_power_of_two(5), 8);
    assert_eq!(next_power_of_two(8), 8);
    assert_eq!(next_power_of_two(9), 16);
}
