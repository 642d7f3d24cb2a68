//! The small tables that a comparison instruction is reduced to. A table is
//! indexed by a pair of operand chunks packed into one number: the left chunk
//! above the right one, each `log_m / 2` bits wide.

use crate::field::Fe;
use crate::math::{log2, pow2_u64, spec_log2};
use vstd::arithmetic::power2::*;
use vstd::prelude::*;

verus! {

/// The chunk in the upper half of a table index.
pub open spec fn left_operand(index: nat, b: nat) -> nat {
    index / pow2(b)
}

/// The chunk in the lower half of a table index.
pub open spec fn right_operand(index: nat, b: nat) -> nat {
    index % pow2(b)
}

/// The most significant bit of a `b`-bit chunk.
pub open spec fn sign_bit(v: nat, b: nat) -> nat {
    (v / pow2((b - 1) as nat)) % 2
}

/// A `b`-bit chunk without its most significant bit.
pub open spec fn magnitude(v: nat, b: nat) -> nat {
    v % pow2((b - 1) as nat)
}

/// One primitive relation between two chunks. A table's identity is its
/// variant.
#[derive(Clone, Copy, Debug, PartialEq, Eq, Structural)]
pub enum Subtable {
    /// The left sign bit is set and the right one is not.
    GtMsb,
    /// The sign bits agree.
    EqMsb,
    /// The left chunk is below the right one.
    Ltu,
    /// The chunks are equal.
    Eq,
    /// Without their sign bits, the left chunk is below the right one.
    LtAbs,
    /// Without their sign bits, the chunks are equal.
    EqAbs,
}

impl Subtable {
    /// Whether the relation holds between two chunks of `b` bits.
    pub open spec fn holds(self, x: nat, y: nat, b: nat) -> bool {
        match self {
            Subtable::GtMsb => sign_bit(x, b) > sign_bit(y, b),
            Subtable::EqMsb => sign_bit(x, b) == sign_bit(y, b),
            Subtable::Ltu => x < y,
            Subtable::Eq => x == y,
            Subtable::LtAbs => magnitude(x, b) < magnitude(y, b),
            Subtable::EqAbs => magnitude(x, b) == magnitude(y, b),
        }
    }

    /// The table's value at `index`, for chunks of `b` bits: one where the
    /// relation holds between the two halves of the index, zero elsewhere.
    pub open spec fn spec_entry(self, index: nat, b: nat) -> nat {
        if self.holds(left_operand(index, b), right_operand(index, b), b) {
            1
        } else {
            0
        }
    }

    /// The table's value at `index`, computed on demand.
    pub fn entry(&self, index: usize, log_m: usize) -> (r: Fe)
        requires
            2 <= log_m <= 64,
        ensures
            r@ == self.spec_entry(index as nat, (log_m / 2) as nat),
            r.wf(),
    {
        let b: u64 = (log_m / 2) as u64;
        let base: u64 = pow2_u64(b);
        let half: u64 = pow2_u64(b - 1);
        proof {
            lemma_pow2_pos(b as nat);
            lemma_pow2_pos((b - 1) as nat);
        }
        let x: u64 = index as u64 / base;
        let y: u64 = index as u64 % base;
        let holds = match self {
            Subtable::GtMsb => (x / half) % 2 > (y / half) % 2,
            Subtable::EqMsb => (x / half) % 2 == (y / half) % 2,
            Subtable::Ltu => x < y,
            Subtable::Eq => x == y,
            Subtable::LtAbs => x % half < y % half,
            Subtable::EqAbs => x % half == y % half,
        };
        if holds {
            Fe::one()
        } else {
            Fe::zero()
        }
    }

    /// The whole table of size `m`, entry by entry.
    pub fn materialize(&self, m: usize) -> (r: Vec<Fe>)
        requires
            m > 2,
        ensures
            r.len() == m,
            forall|i: int|
                0 <= i < m ==> (#[trigger] r[i])@ == self.spec_entry(
                    i as nat,
                    spec_log2(m as nat) / 2,
                ),
    {
        let log_m = log2(m);
        proof {
            lemma2_to64();
            if log_m < 2 {
                assert(pow2(log_m as nat) <= 2);
            }
        }
        let mut table: Vec<Fe> = Vec::with_capacity(m);
        let mut i: usize = 0;
        while i < m
            invariant
                i <= m,
                2 <= log_m <= 64,
                log_m == spec_log2(m as nat),
                table.len() == i,
                forall|j: int|
                    0 <= j < i ==> (#[trigger] table[j])@ == self.spec_entry(
                        j as nat,
                        spec_log2(m as nat) / 2,
                    ),
            decreases m - i,
        {
            table.push(self.entry(i, log_m));
            i = i + 1;
        }
        table
    }
}

} // verus!
