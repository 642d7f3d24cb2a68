//! The trace column store: ten flat columns of an execution trace, reshaped
//! into one row per cycle or cut into segments of the padded trace length.

use crate::field::{modulus, Fe};
use vstd::arithmetic::div_mod::*;
use vstd::prelude::*;

verus! {

/// Where the program's memory starts: the program counter of a cycle is four
/// times its bytecode address, shifted by this.
pub const RAM_START_ADDRESS: u64 = 0x8000_0000;

/// The slots that every row starts with: the constant one, two slots that the
/// witness synthesizer fills, the cycle's number and its program counter.
pub const PREFIX_VARS_PER_STEP: usize = 5;

/// The contents of a list of vectors.
pub open spec fn rows_view(rows: Seq<Vec<Fe>>) -> Seq<Seq<Fe>> {
    rows.map_values(|r: Vec<Fe>| r@)
}

/// How many values per cycle a column of a trace of `t` cycles holds.
pub open spec fn column_width(col: Seq<Fe>, t: nat) -> nat {
    col.len() / t
}

/// The values of a column that belong to cycle `s`: one from each stretch of
/// `t` values.
pub open spec fn column_at_step(col: Seq<Fe>, t: nat, s: nat) -> Seq<Fe> {
    Seq::new(column_width(col, t), |v: int| col[v * t + s])
}

/// The per-cycle width of all ten columns together.
pub open spec fn num_vars(cols: Seq<Seq<Fe>>) -> nat {
    let t = cols[0].len();
    column_width(cols[0], t) + column_width(cols[1], t) + column_width(cols[2], t) + column_width(
        cols[3],
        t,
    ) + column_width(cols[4], t) + column_width(cols[5], t) + column_width(cols[6], t)
        + column_width(cols[7], t) + column_width(cols[8], t) + column_width(cols[9], t)
}

/// The values of all ten columns that belong to cycle `s`, column by column.
pub open spec fn trace_at_step(cols: Seq<Seq<Fe>>, s: nat) -> Seq<Fe> {
    let t = cols[0].len();
    column_at_step(cols[0], t, s) + column_at_step(cols[1], t, s) + column_at_step(cols[2], t, s)
        + column_at_step(cols[3], t, s) + column_at_step(cols[4], t, s) + column_at_step(
        cols[5],
        t,
        s,
    ) + column_at_step(cols[6], t, s) + column_at_step(cols[7], t, s) + column_at_step(
        cols[8],
        t,
        s,
    ) + column_at_step(cols[9], t, s)
}

/// No column holds a partial row: the trace is not empty, and its length
/// divides the length of every column.
pub open spec fn columns_well_formed(cols: Seq<Seq<Fe>>) -> bool {
    let t = cols[0].len() as int;
    &&& t > 0
    &&& cols[1].len() as int % t == 0
    &&& cols[2].len() as int % t == 0
    &&& cols[3].len() as int % t == 0
    &&& cols[4].len() as int % t == 0
    &&& cols[5].len() as int % t == 0
    &&& cols[6].len() as int % t == 0
    &&& cols[7].len() as int % t == 0
    &&& cols[8].len() as int % t == 0
    &&& cols[9].len() as int % t == 0
}

/// The program counter of cycle `s`, whose bytecode address is `address`:
/// zero for a padding cycle (any cycle but the first whose address is zero).
pub open spec fn program_counter(address: nat, s: nat) -> nat {
    if s > 0 && address == 0 {
        0
    } else {
        (4 * address + RAM_START_ADDRESS as nat) % modulus()
    }
}

/// `row` is the row of cycle `s`: the five prefix slots, then the cycle's
/// values of the ten columns.
pub open spec fn is_step_row(row: Seq<Fe>, cols: Seq<Seq<Fe>>, s: nat) -> bool {
    &&& row.len() == PREFIX_VARS_PER_STEP + num_vars(cols)
    &&& row[0]@ == 1
    &&& row[1]@ == 0
    &&& row[2]@ == 0
    &&& row[3]@ == s
    &&& row[4]@ == program_counter(cols[0][s as int]@, s)
    &&& row.subrange(PREFIX_VARS_PER_STEP as int, row.len() as int) == trace_at_step(cols, s)
}

/// A cycle has one row.
pub proof fn lemma_step_row_determined(first: Seq<Fe>, second: Seq<Fe>, cols: Seq<Seq<Fe>>, s: nat)
    requires
        is_step_row(first, cols, s),
        is_step_row(second, cols, s),
    ensures
        first == second,
{
    assert forall|i: int| 0 <= i < first.len() implies first[i] == second[i] by {
        if i < PREFIX_VARS_PER_STEP {
            Fe::lemma_view_injective(first[i], second[i]);
        } else {
            let tail = trace_at_step(cols, s);
            assert(first.subrange(PREFIX_VARS_PER_STEP as int, first.len() as int)[i
                - PREFIX_VARS_PER_STEP] == first[i]);
            assert(second.subrange(PREFIX_VARS_PER_STEP as int, second.len() as int)[i
                - PREFIX_VARS_PER_STEP] == second[i]);
        }
    }
    assert(first =~= second);
}

/// Into how many pieces of at most `n` values a column of `len` values is
/// cut.
pub open spec fn chunk_count(len: nat, n: nat) -> nat {
    if len % n == 0 {
        len / n
    } else {
        len / n + 1
    }
}

/// A column cut into contiguous pieces of `n` values; the last piece holds
/// what is left.
pub open spec fn column_chunks(col: Seq<Fe>, n: nat) -> Seq<Seq<Fe>> {
    Seq::new(
        chunk_count(col.len(), n),
        |k: int|
            col.subrange(
                k * n,
                if (k + 1) * n <= col.len() {
                    (k + 1) * n
                } else {
                    col.len() as int
                },
            ),
    )
}

/// The pieces of all ten columns, column by column.
pub open spec fn all_chunks(cols: Seq<Seq<Fe>>, n: nat) -> Seq<Seq<Fe>> {
    column_chunks(cols[0], n) + column_chunks(cols[1], n) + column_chunks(cols[2], n)
        + column_chunks(cols[3], n) + column_chunks(cols[4], n) + column_chunks(cols[5], n)
        + column_chunks(cols[6], n) + column_chunks(cols[7], n) + column_chunks(cols[8], n)
        + column_chunks(cols[9], n)
}

/// The ten columns one after the other.
pub open spec fn all_columns(cols: Seq<Seq<Fe>>) -> Seq<Fe> {
    cols[0] + cols[1] + cols[2] + cols[3] + cols[4] + cols[5] + cols[6] + cols[7] + cols[8]
        + cols[9]
}

/// A piece with a number below the count starts inside the column.
proof fn lemma_chunk_start(len: nat, n: nat, k: nat)
    requires
        n > 0,
        k < chunk_count(len, n),
    ensures
        k * n < len,
{
    lemma_fundamental_div_mod(len as int, n as int);
    let q = (len / n) as int;
    if len % n == 0 {
        assert(k * n <= (q - 1) * n) by (nonlinear_arith)
            requires
                k <= q - 1,
                n > 0,
        ;
        assert((q - 1) * n == n * q - n) by (nonlinear_arith);
    } else {
        assert(k * n <= q * n) by (nonlinear_arith)
            requires
                k <= q,
                n > 0,
        ;
        assert(q * n == n * q) by (nonlinear_arith);
    }
}

/// The first `j` pieces of a column, put together, are the column up to the
/// end of piece `j - 1`.
proof fn lemma_chunks_prefix(col: Seq<Fe>, n: nat, j: nat)
    requires
        n > 0,
        j <= chunk_count(col.len(), n),
    ensures
        column_chunks(col, n).subrange(0, j as int).flatten() =~= col.subrange(
            0,
            if j * n <= col.len() {
                (j * n) as int
            } else {
                col.len() as int
            },
        ),
    decreases j,
{
    let chunks = column_chunks(col, n);
    if j == 0 {
        assert(chunks.subrange(0, 0).flatten() =~= Seq::<Fe>::empty());
        assert(0 * n == 0);
    } else {
        let i = (j - 1) as nat;
        lemma_chunks_prefix(col, n, i);
        lemma_chunk_start(col.len(), n, i);
        assert(chunks.subrange(0, j as int) =~= chunks.subrange(0, i as int).push(chunks[i as int]));
        chunks.subrange(0, i as int).lemma_flatten_push(chunks[i as int]);
        assert((i + 1) * n == i * n + n) by (nonlinear_arith);
    }
}

/// Cutting a column into pieces and putting the pieces together again gives
/// the column back.
pub proof fn lemma_chunks_round_trip(col: Seq<Fe>, n: nat)
    requires
        n > 0,
    ensures
        column_chunks(col, n).flatten() =~= col,
{
    let chunks = column_chunks(col, n);
    let count = chunk_count(col.len(), n);
    lemma_chunks_prefix(col, n, count);
    assert(chunks.subrange(0, count as int) =~= chunks);
    lemma_fundamental_div_mod(col.len() as int, n as int);
    let q = (col.len() / n) as int;
    if col.len() % n == 0 {
        assert(q * n == n * q) by (nonlinear_arith);
    } else {
        assert((q + 1) * n == n * q + n) by (nonlinear_arith);
    }
}

/// Where the piece length divides the column's length, every piece is full.
pub proof fn lemma_chunks_even(col: Seq<Fe>, n: nat)
    requires
        n > 0,
        col.len() % n == 0,
    ensures
        column_chunks(col, n).len() == col.len() / n,
        forall|k: int|
            0 <= k < column_chunks(col, n).len() ==> (#[trigger] column_chunks(col, n)[k]).len()
                == n,
{
    assert forall|k: int| 0 <= k < column_chunks(col, n).len() implies (#[trigger] column_chunks(
        col,
        n,
    )[k]).len() == n by {
        lemma_fundamental_div_mod(col.len() as int, n as int);
        let q = (col.len() / n) as int;
        assert((k + 1) * n <= q * n) by (nonlinear_arith)
            requires
                k + 1 <= q,
                n > 0,
        ;
        assert(q * n == n * q) by (nonlinear_arith);
        assert((k + 1) * n == k * n + n) by (nonlinear_arith);
        assert(k * n >= 0) by (nonlinear_arith)
            requires
                k >= 0,
                n > 0,
        ;
    }
}

/// Cutting all ten columns into pieces and putting all pieces together gives
/// the ten columns one after the other.
pub proof fn lemma_all_chunks_round_trip(cols: Seq<Seq<Fe>>, n: nat)
    requires
        n > 0,
    ensures
        all_chunks(cols, n).flatten() =~= all_columns(cols),
{
    let c0 = column_chunks(cols[0], n);
    let c1 = c0 + column_chunks(cols[1], n);
    let c2 = c1 + column_chunks(cols[2], n);
    let c3 = c2 + column_chunks(cols[3], n);
    let c4 = c3 + column_chunks(cols[4], n);
    let c5 = c4 + column_chunks(cols[5], n);
    let c6 = c5 + column_chunks(cols[6], n);
    let c7 = c6 + column_chunks(cols[7], n);
    let c8 = c7 + column_chunks(cols[8], n);
    lemma_chunks_round_trip(cols[0], n);
    lemma_chunks_round_trip(cols[1], n);
    lemma_chunks_round_trip(cols[2], n);
    lemma_chunks_round_trip(cols[3], n);
    lemma_chunks_round_trip(cols[4], n);
    lemma_chunks_round_trip(cols[5], n);
    lemma_chunks_round_trip(cols[6], n);
    lemma_chunks_round_trip(cols[7], n);
    lemma_chunks_round_trip(cols[8], n);
    lemma_chunks_round_trip(cols[9], n);
    vstd::seq_lib::lemma_flatten_concat(c0, column_chunks(cols[1], n));
    vstd::seq_lib::lemma_flatten_concat(c1, column_chunks(cols[2], n));
    vstd::seq_lib::lemma_flatten_concat(c2, column_chunks(cols[3], n));
    vstd::seq_lib::lemma_flatten_concat(c3, column_chunks(cols[4], n));
    vstd::seq_lib::lemma_flatten_concat(c4, column_chunks(cols[5], n));
    vstd::seq_lib::lemma_flatten_concat(c5, column_chunks(cols[6], n));
    vstd::seq_lib::lemma_flatten_concat(c6, column_chunks(cols[7], n));
    vstd::seq_lib::lemma_flatten_concat(c7, column_chunks(cols[8], n));
    vstd::seq_lib::lemma_flatten_concat(c8, column_chunks(cols[9], n));
}

/// Appends to `row` the values of `col` that belong to cycle `s` of `t`.
fn push_column_at_step(row: &mut Vec<Fe>, col: &Vec<Fe>, t: usize, s: usize)
    requires
        s < t,
    ensures
        final(row)@ == old(row)@ + column_at_step(col@, t as nat, s as nat),
{
    let ghost before = row@;
    let ghost want = column_at_step(col@, t as nat, s as nat);
    let width = col.len() / t;
    let mut v: usize = 0;
    while v < width
        invariant
            s < t,
            v <= width,
            width == col.len() / t,
            want == column_at_step(col@, t as nat, s as nat),
            row@ == before + want.subrange(0, v as int),
        decreases width - v,
    {
        proof {
            lemma_fundamental_div_mod(col.len() as int, t as int);
            assert(v * t + s < t * width) by (nonlinear_arith)
                requires
                    v < width,
                    s < t,
            ;
            assert(t * (col.len() as int / t as int) == t * width);
        }
        row.push(col[v * t + s]);
        v = v + 1;
        proof {
            assert(want.subrange(0, v as int) =~= want.subrange(0, v - 1).push(want[v - 1]));
            assert(row@ =~= before + want.subrange(0, v as int));
        }
    }
    proof {
        assert(want.subrange(0, width as int) =~= want);
    }
}

/// Appends to `chunks` the pieces of `n` values that `col` is cut into.
fn push_column_chunks(chunks: &mut Vec<Vec<Fe>>, col: &Vec<Fe>, n: usize)
    requires
        n > 0,
    ensures
        rows_view(final(chunks)@) == rows_view(old(chunks)@) + column_chunks(col@, n as nat),
{
    let ghost before = rows_view(chunks@);
    let ghost want = column_chunks(col@, n as nat);
    let len = col.len();
    let quotient: usize = len / n;
    let count: usize = if len % n == 0 {
        quotient
    } else {
        proof {
            lemma_fundamental_div_mod(len as int, n as int);
            assert(2 * quotient <= n * quotient) by (nonlinear_arith)
                requires
                    n >= 2,
                    quotient >= 0,
            ;
        }
        quotient + 1
    };
    let mut k: usize = 0;
    while k < count
        invariant
            n > 0,
            k <= count,
            len == col.len(),
            count == chunk_count(len as nat, n as nat),
            want == column_chunks(col@, n as nat),
            rows_view(chunks@) == before + want.subrange(0, k as int),
        decreases count - k,
    {
        proof {
            lemma_chunk_start(len as nat, n as nat, k as nat);
            assert((k + 1) * n == k * n + n) by (nonlinear_arith);
        }
        let lo: usize = k * n;
        let hi: usize = if len - lo < n {
            len
        } else {
            lo + n
        };
        let mut piece: Vec<Fe> = Vec::with_capacity(hi - lo);
        let mut i: usize = lo;
        while i < hi
            invariant
                lo <= i <= hi <= col.len(),
                piece@ == col@.subrange(lo as int, i as int),
            decreases hi - i,
        {
            piece.push(col[i]);
            i = i + 1;
            proof {
                assert(piece@ =~= col@.subrange(lo as int, i as int));
            }
        }
        let ghost old_chunks = chunks@;
        chunks.push(piece);
        k = k + 1;
        proof {
            assert(piece@ == want[k - 1]);
            assert(want.subrange(0, k as int) =~= want.subrange(0, k - 1).push(want[k - 1]));
            assert(rows_view(chunks@) =~= rows_view(old_chunks).push(piece@));
            assert(rows_view(chunks@) =~= before + want.subrange(0, k as int));
        }
    }
    proof {
        assert(want.subrange(0, count as int) =~= want);
    }
}

/// The ten columns of a trace. The first holds one bytecode address per
/// cycle, so its length is the trace length; each of the others holds, for
/// each of its per-cycle values in turn, one value per cycle.
#[derive(Clone, Debug, Default)]
pub struct R1CSInputs {
    bytecode_a: Vec<Fe>,
    bytecode_v: Vec<Fe>,
    memreg_a_rw: Vec<Fe>,
    memreg_v_reads: Vec<Fe>,
    memreg_v_writes: Vec<Fe>,
    chunks_x: Vec<Fe>,
    chunks_y: Vec<Fe>,
    chunks_query: Vec<Fe>,
    lookup_outputs: Vec<Fe>,
    circuit_flags_bits: Vec<Fe>,
}

impl R1CSInputs {
    /// The ten columns in their declared order.
    pub closed spec fn columns(&self) -> Seq<Seq<Fe>> {
        seq![
            self.bytecode_a@,
            self.bytecode_v@,
            self.memreg_a_rw@,
            self.memreg_v_reads@,
            self.memreg_v_writes@,
            self.chunks_x@,
            self.chunks_y@,
            self.chunks_query@,
            self.lookup_outputs@,
            self.circuit_flags_bits@,
        ]
    }

    /// The number of cycles: the length of the first column.
    pub open spec fn spec_trace_len(&self) -> nat {
        self.columns()[0].len()
    }

    /// No column holds a partial row.
    pub open spec fn wf(&self) -> bool {
        columns_well_formed(self.columns())
    }

    pub fn new(
        bytecode_a: Vec<Fe>,
        bytecode_v: Vec<Fe>,
        memreg_a_rw: Vec<Fe>,
        memreg_v_reads: Vec<Fe>,
        memreg_v_writes: Vec<Fe>,
        chunks_x: Vec<Fe>,
        chunks_y: Vec<Fe>,
        chunks_query: Vec<Fe>,
        lookup_outputs: Vec<Fe>,
        circuit_flags_bits: Vec<Fe>,
    ) -> (r: Self)
        ensures
            r.columns() == seq![
                bytecode_a@,
                bytecode_v@,
                memreg_a_rw@,
                memreg_v_reads@,
                memreg_v_writes@,
                chunks_x@,
                chunks_y@,
                chunks_query@,
                lookup_outputs@,
                circuit_flags_bits@,
            ],
    {
        Self {
            bytecode_a,
            bytecode_v,
            memreg_a_rw,
            memreg_v_reads,
            memreg_v_writes,
            chunks_x,
            chunks_y,
            chunks_query,
            lookup_outputs,
            circuit_flags_bits,
        }
    }

    pub fn trace_len(&self) -> (r: usize)
        ensures
            r == self.spec_trace_len(),
    {
        self.bytecode_a.len()
    }

    /// Whether no column holds a partial row.
    pub fn is_well_formed(&self) -> (r: bool)
        ensures
            r == self.wf(),
    {
        let t = self.bytecode_a.len();
        t > 0 && self.bytecode_v.len() % t == 0 && self.memreg_a_rw.len() % t == 0
            && self.memreg_v_reads.len() % t == 0 && self.memreg_v_writes.len() % t == 0
            && self.chunks_x.len() % t == 0 && self.chunks_y.len() % t == 0
            && self.chunks_query.len() % t == 0 && self.lookup_outputs.len() % t == 0
            && self.circuit_flags_bits.len() % t == 0
    }

    /// The per-cycle width of the ten columns together.
    pub fn num_vars_per_step(&self) -> (r: usize)
        requires
            self.spec_trace_len() > 0,
            num_vars(self.columns()) <= usize::MAX,
        ensures
            r == num_vars(self.columns()),
    {
        let t = self.trace_len();
        self.bytecode_a.len() / t + self.bytecode_v.len() / t + self.memreg_a_rw.len() / t
            + self.memreg_v_reads.len() / t + self.memreg_v_writes.len() / t + self.chunks_x.len()
            / t + self.chunks_y.len() / t + self.chunks_query.len() / t + self.lookup_outputs.len()
            / t + self.circuit_flags_bits.len() / t
    }

    /// The row of cycle `s`.
    pub fn step_row(&self, s: usize) -> (row: Vec<Fe>)
        requires
            self.wf(),
            s < self.spec_trace_len(),
        ensures
            is_step_row(row@, self.columns(), s as nat),
    {
        let t = self.trace_len();
        let address: Fe = self.bytecode_a[s];
        let program_counter: Fe = if s > 0 && address.is_zero() {
            Fe::zero()
        } else {
            proof {
                lemma_add_mod_noop(
                    (address@ * 4) as int,
                    RAM_START_ADDRESS as int,
                    modulus() as int,
                );
            }
            address.times(Fe::from_u64(4)).plus(Fe::from_u64(RAM_START_ADDRESS))
        };
        let mut row: Vec<Fe> = Vec::new();
        row.push(Fe::from_u64(1));
        row.push(Fe::from_u64(0));
        row.push(Fe::from_u64(0));
        row.push(Fe::from_u64(s as u64));
        row.push(program_counter);
        let ghost prefix = row@;
        push_column_at_step(&mut row, &self.bytecode_a, t, s);
        push_column_at_step(&mut row, &self.bytecode_v, t, s);
        push_column_at_step(&mut row, &self.memreg_a_rw, t, s);
        push_column_at_step(&mut row, &self.memreg_v_reads, t, s);
        push_column_at_step(&mut row, &self.memreg_v_writes, t, s);
        push_column_at_step(&mut row, &self.chunks_x, t, s);
        push_column_at_step(&mut row, &self.chunks_y, t, s);
        push_column_at_step(&mut row, &self.chunks_query, t, s);
        push_column_at_step(&mut row, &self.lookup_outputs, t, s);
        push_column_at_step(&mut row, &self.circuit_flags_bits, t, s);
        proof {
            let trace = trace_at_step(self.columns(), s as nat);
            assert(row@ =~= prefix + trace);
            assert(row@.subrange(PREFIX_VARS_PER_STEP as int, row@.len() as int) =~= trace);
        }
        row
    }

    /// One row per cycle of a trace without partial rows: the five prefix
    /// slots, then the cycle's values of the ten columns. Every row has the
    /// same length.
    pub fn clone_to_stepwise(&self) -> (rows: Vec<Vec<Fe>>)
        requires
            self.wf(),
        ensures
            rows.len() == self.spec_trace_len(),
            forall|s: int|
                0 <= s < rows.len() ==> is_step_row((#[trigger] rows[s])@, self.columns(), s as nat),
            forall|s: int|
                0 <= s < rows.len() ==> (#[trigger] rows[s]).len() == num_vars(self.columns())
                    + PREFIX_VARS_PER_STEP,
    {
        let t = self.trace_len();
        let mut rows: Vec<Vec<Fe>> = Vec::with_capacity(t);
        let mut s: usize = 0;
        while s < t
            invariant
                s <= t,
                self.wf(),
                t == self.spec_trace_len(),
                rows.len() == s,
                forall|i: int|
                    0 <= i < s ==> is_step_row((#[trigger] rows[i])@, self.columns(), i as nat),
            decreases t - s,
        {
            rows.push(self.step_row(s));
            s = s + 1;
        }
        rows
    }

    /// Every column cut into pieces of `padded_trace_len` values, the pieces
    /// of all columns in one list, column by column.
    pub fn trace_len_chunks(&self, padded_trace_len: usize) -> (chunks: Vec<Vec<Fe>>)
        requires
            padded_trace_len > 0,
        ensures
            rows_view(chunks@) == all_chunks(self.columns(), padded_trace_len as nat),
    {
        let mut chunks: Vec<Vec<Fe>> = Vec::new();
        assert(rows_view(chunks@) =~= Seq::<Seq<Fe>>::empty());
        push_column_chunks(&mut chunks, &self.bytecode_a, padded_trace_len);
        push_column_chunks(&mut chunks, &self.bytecode_v, padded_trace_len);
        push_column_chunks(&mut chunks, &self.memreg_a_rw, padded_trace_len);
        push_column_chunks(&mut chunks, &self.memreg_v_reads, padded_trace_len);
        push_column_chunks(&mut chunks, &self.memreg_v_writes, padded_trace_len);
        push_column_chunks(&mut chunks, &self.chunks_x, padded_trace_len);
        push_column_chunks(&mut chunks, &self.chunks_y, padded_trace_len);
        push_column_chunks(&mut chunks, &self.chunks_query, padded_trace_len);
        push_column_chunks(&mut chunks, &self.lookup_outputs, padded_trace_len);
        push_column_chunks(&mut chunks, &self.circuit_flags_bits, padded_trace_len);
        proof {
            assert(rows_view(chunks@) =~= all_chunks(self.columns(), padded_trace_len as nat));
        }
        chunks
    }
}

} // verus!
