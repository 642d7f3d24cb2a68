//! The signed "greater or equal" instruction and its reduction to lookups in
//! small tables: the operands are cut into chunks, each pair of chunks is
//! looked up in six tables, and the values found are combined into the
//! instruction's result.

use crate::field::{fe_values, modulus, Fe};
use crate::reduction::{bit, lemma_bge_lookup_is_signed_ge};
use crate::math::{log2, pow2_u64, spec_log2};
use crate::subtable::Subtable;
use rand_core::RngCore;
use vstd::arithmetic::div_mod::*;
use vstd::arithmetic::power2::*;
use vstd::prelude::*;

verus! {

#[verifier::external_type_specification]
#[verifier::external_body]
pub struct ExStdRng(rand::rngs::StdRng);

/// `RngCore::next_u64` of `rand::rngs::StdRng`: the next 64 bits of the
/// generator. Nothing is claimed of them.
#[verifier::external_body]
fn next_operand(rng: &mut rand::rngs::StdRng) -> (r: u64) {
    rng.next_u64()
}

/// A 64-bit word read as a two's-complement number.
pub open spec fn signed(v: u64) -> int {
    if v < 0x8000_0000_0000_0000 {
        v as int
    } else {
        v as int - 0x1_0000_0000_0000_0000
    }
}

/// Chunk `i` of `v`, cut into `c` chunks of `b` bits; chunk `0` is the most
/// significant.
pub open spec fn operand_chunk(v: nat, c: nat, b: nat, i: nat) -> nat {
    (v / pow2(((c - 1 - i) * b) as nat)) % pow2(b)
}

/// The table index for chunk `i`: the chunk of `x` above the chunk of `y`.
pub open spec fn chunk_index(x: nat, y: nat, c: nat, b: nat, i: nat) -> nat {
    operand_chunk(x, c, b, i) * pow2(b) + operand_chunk(y, c, b, i)
}

/// The tables of the instruction, in the order in which their values are
/// handed to the combination.
pub open spec fn bge_subtables() -> Seq<Subtable> {
    seq![
        Subtable::GtMsb,
        Subtable::EqMsb,
        Subtable::Ltu,
        Subtable::Eq,
        Subtable::LtAbs,
        Subtable::EqAbs,
    ]
}

/// What the six tables hold at the `c` chunk indices of `(x, y)`: table by
/// table, and within a table chunk by chunk.
pub open spec fn lookup_values(x: nat, y: nat, c: nat, b: nat) -> Seq<nat> {
    Seq::new(
        6 * c,
        |j: int|
            bge_subtables()[j / (c as int)].spec_entry(
                chunk_index(x, y, c, b, (j % (c as int)) as nat),
                b,
            ),
    )
}

/// The product of the magnitude equality of chunk `0` and the equalities of
/// the chunks `1..k`.
pub open spec fn eq_acc(vals: Seq<nat>, c: nat, k: nat) -> nat
    decreases k,
{
    if k <= 1 {
        vals[5 * c as int]
    } else {
        (eq_acc(vals, c, (k - 1) as nat) * vals[3 * c + k - 1]) % modulus()
    }
}

/// The sum, over the chunks below `k`, of "less than" at that chunk times
/// "equal" at every chunk before it.
pub open spec fn lt_acc(vals: Seq<nat>, c: nat, k: nat) -> nat
    decreases k,
{
    if k <= 1 {
        vals[4 * c as int]
    } else {
        (lt_acc(vals, c, (k - 1) as nat) + (vals[2 * c + k - 1] * eq_acc(vals, c, (k - 1) as nat))
            % modulus()) % modulus()
    }
}

/// The combination for signed "less than": the left operand is negative and
/// the right one is not, or the signs agree and the rest compares below.
pub open spec fn slt_combine(vals: Seq<nat>, c: nat) -> nat {
    (vals[0] + (vals[c as int] * lt_acc(vals, c, c)) % modulus()) % modulus()
}

/// The combination for signed "greater or equal": one minus "less than".
pub open spec fn bge_combine(vals: Seq<nat>, c: nat) -> nat {
    ((1 - slt_combine(vals, c)) % (modulus() as int)) as nat
}

/// The operands cut into `c` chunks of `log_m / 2` bits, each pair packed
/// into one table index. Where a pair is wider than a machine word, the index
/// is what fits the word: its low bits.
pub fn chunk_and_concatenate_operands(x: u64, y: u64, c: usize, log_m: usize) -> (r: Vec<usize>)
    ensures
        r.len() == c,
        forall|i: int|
            0 <= i < c ==> #[trigger] r[i] == chunk_index(
                x as nat,
                y as nat,
                c as nat,
                (log_m / 2) as nat,
                i as nat,
            ) % pow2(usize::BITS as nat),
        2 * (log_m / 2) <= usize::BITS ==> forall|i: int|
            0 <= i < c ==> #[trigger] r[i] == chunk_index(
                x as nat,
                y as nat,
                c as nat,
                (log_m / 2) as nat,
                i as nat,
            ),
        forall|i: int| 0 <= i < c ==> #[trigger] r[i] < pow2((2 * (log_m / 2)) as nat),
{
    let b: usize = log_m / 2;
    let word: u128 = usize::MAX as u128 + 1;
    let mut indices: Vec<usize> = Vec::with_capacity(c);
    let mut i: usize = 0;
    proof {
        lemma2_to64();
        assert(word == pow2(usize::BITS as nat));
    }
    while i < c
        invariant
            i <= c,
            b == log_m / 2,
            word == pow2(usize::BITS as nat),
            word == usize::MAX + 1,
            indices.len() == i,
            forall|j: int|
                0 <= j < i ==> #[trigger] indices[j] == chunk_index(
                    x as nat,
                    y as nat,
                    c as nat,
                    b as nat,
                    j as nat,
                ) % pow2(usize::BITS as nat),
        decreases c - i,
    {
        assert((c - 1 - i) * b <= 0xffff_ffff_ffff_ffff * 0xffff_ffff_ffff_ffff) by (nonlinear_arith)
            requires
                0 <= c - 1 - i <= 0xffff_ffff_ffff_ffff,
                0 <= b <= 0xffff_ffff_ffff_ffff,
        ;
        let shift: u128 = (c - 1 - i) as u128 * (b as u128);
        let mut high_x: u64 = 0;
        let mut high_y: u64 = 0;
        if shift < 64 {
            let divisor: u64 = pow2_u64(shift as u64);
            proof {
                lemma_pow2_pos(shift as nat);
            }
            high_x = x / divisor;
            high_y = y / divisor;
        } else {
            proof {
                lemma2_to64();
                if shift > 64 {
                    lemma_pow2_strictly_increases(64, shift as nat);
                }
                let p = pow2(shift as nat) as int;
                assert(x as int / p == 0 && y as int / p == 0) by (nonlinear_arith)
                    requires
                        0 <= x < p,
                        0 <= y < p,
                ;
            }
        }
        assert(shift == ((c as nat - 1 - i as nat) * b as nat) as nat);
        assert(high_x == x as nat / pow2(shift as nat));
        assert(high_y == y as nat / pow2(shift as nat));
        let mut index: usize = 0;
        if b < 64 {
            let base: u64 = pow2_u64(b as u64);
            proof {
                lemma_pow2_pos(b as nat);
            }
            let left: u64 = high_x % base;
            let right: u64 = high_y % base;
            assert(left * base + right <= 0xffff_ffff_ffff_ffff * 0xffff_ffff_ffff_ffff
                + 0xffff_ffff_ffff_ffff) by (nonlinear_arith)
                requires
                    0 <= left <= 0xffff_ffff_ffff_ffff,
                    0 <= base <= 0xffff_ffff_ffff_ffff,
                    0 <= right <= 0xffff_ffff_ffff_ffff,
            ;
            let wide: u128 = left as u128 * (base as u128) + right as u128;
            index = (wide % word) as usize;
            proof {
                assert(left == operand_chunk(x as nat, c as nat, b as nat, i as nat));
                assert(right == operand_chunk(y as nat, c as nat, b as nat, i as nat));
                assert(wide == chunk_index(x as nat, y as nat, c as nat, b as nat, i as nat));
            }
        } else {
            index = (high_y as u128 % word) as usize;
            proof {
                lemma2_to64();
                if b > 64 {
                    lemma_pow2_strictly_increases(64, b as nat);
                }
                lemma_small_mod(high_x as nat, pow2(b as nat));
                lemma_small_mod(high_y as nat, pow2(b as nat));
                let rest = (b - usize::BITS) as nat;
                lemma_pow2_adds(rest, usize::BITS as nat);
                let factor = high_x as int * pow2(rest) as int;
                assert(high_x as int * pow2(b as nat) as int == pow2(usize::BITS as nat) as int
                    * factor) by (nonlinear_arith)
                    requires
                        pow2(b as nat) == pow2(rest) * pow2(usize::BITS as nat),
                        factor == high_x as int * pow2(rest) as int,
                ;
                lemma_mod_multiples_vanish(factor, high_y as int, pow2(usize::BITS as nat) as int);
                assert(chunk_index(x as nat, y as nat, c as nat, b as nat, i as nat) == high_x
                    * pow2(b as nat) + high_y);
            }
        }
        indices.push(index);
        i = i + 1;
    }
    proof {
        let b = b as nat;
        assert forall|j: int| 0 <= j < c implies #[trigger] indices[j] < pow2(2 * b) && (2 * b
            <= usize::BITS ==> indices[j] == chunk_index(x as nat, y as nat, c as nat, b, j as nat))
        by {
            let full = chunk_index(x as nat, y as nat, c as nat, b, j as nat);
            lemma_chunk_index_bound(x as nat, y as nat, c as nat, b, j as nat);
            if 2 * b <= usize::BITS {
                if 2 * b < usize::BITS {
                    lemma_pow2_strictly_increases(2 * b, usize::BITS as nat);
                }
                lemma_small_mod(full, pow2(usize::BITS as nat));
            } else {
                lemma_pow2_strictly_increases(usize::BITS as nat, 2 * b);
            }
        }
    }
    indices
}

/// A table index of chunks of `b` bits has `2 * b` bits.
pub proof fn lemma_chunk_index_bound(x: nat, y: nat, c: nat, b: nat, i: nat)
    ensures
        chunk_index(x, y, c, b, i) < pow2(2 * b),
{
    let left = operand_chunk(x, c, b, i);
    let right = operand_chunk(y, c, b, i);
    let base = pow2(b);
    lemma_pow2_pos(b);
    lemma_pow2_adds(b, b);
    lemma_mod_bound((x / pow2(((c - 1 - i) * b) as nat)) as int, base as int);
    lemma_mod_bound((y / pow2(((c - 1 - i) * b) as nat)) as int, base as int);
    assert(left * base + right < base * base) by (nonlinear_arith)
        requires
            left <= base - 1,
            right <= base - 1,
            base > 0,
    ;
}

/// The values of the signed "less than" tables combined.
pub fn combine_signed_less_than(vals: &[Fe], c: usize) -> (r: Fe)
    requires
        c >= 1,
        vals.len() == 6 * c,
    ensures
        r@ == slt_combine(fe_values(vals@), c as nat),
        r.wf(),
{
    let ghost v = fe_values(vals@);
    let mut lt_sum: Fe = vals[4 * c];
    let mut eq_prod: Fe = vals[5 * c];
    let mut i: usize = 1;
    while i < c
        invariant
            1 <= i <= c,
            vals.len() == 6 * c,
            v == fe_values(vals@),
            lt_sum@ == lt_acc(v, c as nat, i as nat),
            eq_prod@ == eq_acc(v, c as nat, i as nat),
        decreases c - i,
    {
        let lt_here: Fe = vals[2 * c + i];
        let eq_here: Fe = vals[3 * c + i];
        lt_sum = lt_sum.plus(lt_here.times(eq_prod));
        eq_prod = eq_prod.times(eq_here);
        i = i + 1;
    }
    let gt_msb: Fe = vals[0];
    let eq_msb: Fe = vals[c];
    gt_msb.plus(eq_msb.times(lt_sum))
}

/// The instruction "branch if greater or equal", on two 64-bit operands read
/// as signed numbers.
#[derive(Clone, Copy, Debug, Default)]
pub struct BGEInstruction(pub u64, pub u64);

impl BGEInstruction {
    pub fn operands(&self) -> (r: [u64; 2])
        ensures
            r[0] == self.0,
            r[1] == self.1,
    {
        [self.0, self.1]
    }

    /// The instruction's result from the values that its tables hold at its
    /// chunk indices: one minus signed "less than".
    pub fn combine_lookups(&self, vals: &[Fe], c: usize, m: usize) -> (r: Fe)
        requires
            c >= 1,
            vals.len() == 6 * c,
        ensures
            r@ == bge_combine(fe_values(vals@), c as nat),
            r.wf(),
    {
        Fe::one().minus(combine_signed_less_than(vals, c))
    }

    /// The degree of the combination in the values of the tables.
    pub fn g_poly_degree(&self, c: usize) -> (r: usize)
        ensures
            r == c,
    {
        c
    }

    /// The tables that the instruction looks its chunks up in.
    pub fn subtables(&self, c: usize) -> (r: Vec<Subtable>)
        ensures
            r@ == bge_subtables(),
    {
        let tables = vec![
            Subtable::GtMsb,
            Subtable::EqMsb,
            Subtable::Ltu,
            Subtable::Eq,
            Subtable::LtAbs,
            Subtable::EqAbs,
        ];
        assert(tables@ =~= bge_subtables());
        tables
    }

    /// The `c` table indices of the operands, for tables of `2^log_m`
    /// entries. Where an index is wider than a machine word, it is cut to
    /// the word.
    pub fn to_indices(&self, c: usize, log_m: usize) -> (r: Vec<usize>)
        ensures
            r.len() == c,
            forall|i: int|
                0 <= i < c ==> #[trigger] r[i] == chunk_index(
                    self.0 as nat,
                    self.1 as nat,
                    c as nat,
                    (log_m / 2) as nat,
                    i as nat,
                ) % pow2(usize::BITS as nat),
            2 * (log_m / 2) <= usize::BITS ==> forall|i: int|
                0 <= i < c ==> #[trigger] r[i] == chunk_index(
                    self.0 as nat,
                    self.1 as nat,
                    c as nat,
                    (log_m / 2) as nat,
                    i as nat,
                ),
            forall|i: int| 0 <= i < c ==> #[trigger] r[i] < pow2(log_m as nat),
    {
        let r = chunk_and_concatenate_operands(self.0, self.1, c, log_m);
        proof {
            if 2 * (log_m / 2) < log_m {
                lemma_pow2_strictly_increases((2 * (log_m / 2)) as nat, log_m as nat);
            }
        }
        r
    }

    /// The values that the instruction's tables hold at its chunk indices,
    /// for tables of `2^log_m` entries: table by table, and within a table
    /// chunk by chunk.
    pub fn gather_lookups(&self, c: usize, log_m: usize) -> (r: Vec<Fe>)
        requires
            2 <= log_m <= usize::BITS,
            6 * c <= usize::MAX,
        ensures
            fe_values(r@) == lookup_values(
                self.0 as nat,
                self.1 as nat,
                c as nat,
                (log_m / 2) as nat,
            ),
            r.len() == 6 * c,
    {
        let indices = self.to_indices(c, log_m);
        let tables = self.subtables(c);
        let ghost b = (log_m / 2) as nat;
        let ghost want = lookup_values(self.0 as nat, self.1 as nat, c as nat, b);
        let mut values: Vec<Fe> = Vec::new();
        let mut s: usize = 0;
        while s < 6
            invariant
                s <= 6,
                6 * c <= usize::MAX,
                2 <= log_m <= usize::BITS,
                b == log_m / 2,
                tables@ == bge_subtables(),
                indices.len() == c,
                forall|i: int|
                    0 <= i < c ==> #[trigger] indices[i] == chunk_index(
                        self.0 as nat,
                        self.1 as nat,
                        c as nat,
                        b,
                        i as nat,
                    ),
                want == lookup_values(self.0 as nat, self.1 as nat, c as nat, b),
                values.len() == s * c,
                forall|j: int| 0 <= j < values.len() ==> (#[trigger] values[j])@ == want[j],
            decreases 6 - s,
        {
            let table = tables[s];
            let mut i: usize = 0;
            while i < c
                invariant
                    s < 6,
                    i <= c,
                    6 * c <= usize::MAX,
                    2 <= log_m <= usize::BITS,
                    b == log_m / 2,
                    table == bge_subtables()[s as int],
                    indices.len() == c,
                    forall|i: int|
                        0 <= i < c ==> #[trigger] indices[i] == chunk_index(
                            self.0 as nat,
                            self.1 as nat,
                            c as nat,
                            b,
                            i as nat,
                        ),
                    want == lookup_values(self.0 as nat, self.1 as nat, c as nat, b),
                    values.len() == s * c + i,
                    forall|j: int| 0 <= j < values.len() ==> (#[trigger] values[j])@ == want[j],
                decreases c - i,
            {
                proof {
                    assert(0 <= s * c + i < 6 * c) by (nonlinear_arith)
                        requires
                            s < 6,
                            i < c,
                    ;
                    lemma_fundamental_div_mod_converse(
                        (s * c + i) as int,
                        c as int,
                        s as int,
                        i as int,
                    );
                }
                values.push(table.entry(indices[i], log_m));
                i = i + 1;
            }
            proof {
                assert(s * c + c == (s + 1) * c) by (nonlinear_arith);
            }
            s = s + 1;
        }
        proof {
            assert(fe_values(values@) =~= want);
        }
        values
    }

    /// The instruction's result by way of its tables of `m` entries: the
    /// chunk indices are looked up and the values combined. Where the chunks
    /// cover all 64 bits of the operands, that is the signed comparison.
    pub fn lookup_entry(&self, c: usize, m: usize) -> (r: Fe)
        requires
            c >= 1,
            m > 2,
            6 * c <= usize::MAX,
        ensures
            r@ == bge_combine(
                lookup_values(self.0 as nat, self.1 as nat, c as nat, spec_log2(m as nat) / 2),
                c as nat,
            ),
            c * (spec_log2(m as nat) / 2) == 64 ==> r@ == bit(signed(self.0) >= signed(self.1)),
            r.wf(),
    {
        let log_m = log2(m);
        proof {
            lemma2_to64();
            if log_m < 2 {
                assert(pow2(log_m as nat) <= 2);
            }
            if c * (log_m / 2) == 64 {
                lemma_bge_lookup_is_signed_ge(self.0, self.1, c as nat, (log_m / 2) as nat);
            }
        }
        let values = self.gather_lookups(c, log_m);
        self.combine_lookups(values.as_slice(), c, m)
    }

    /// The instruction on the operands given.
    pub fn from_operands(x: u64, y: u64) -> (r: Self)
        ensures
            r.0 == x,
            r.1 == y,
    {
        BGEInstruction(x, y)
    }

    /// An instruction on random operands: the left one is the next 64 bits
    /// of `rng`, the right one the 64 bits after them. The receiver is not
    /// read.
    pub fn random(&self, rng: &mut rand::rngs::StdRng) -> (r: Self) {
        let x = next_operand(rng);
        let y = next_operand(rng);
        Self::from_operands(x, y)
    }
}

} // verus!
