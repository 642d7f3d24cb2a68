//! Why the lookup reduction of the signed "greater or equal" instruction is
//! right: on operands cut into chunks that cover all 64 bits, the tables'
//! values combine to one exactly where the left operand, read as a signed
//! number, is not below the right one.

use crate::field::modulus;
use crate::instruction::{
    bge_combine, bge_subtables, chunk_index, eq_acc, lookup_values, lt_acc, operand_chunk, signed,
    slt_combine,
};
use crate::subtable::{left_operand, magnitude, right_operand, sign_bit, Subtable};
use vstd::arithmetic::div_mod::*;
use vstd::arithmetic::power2::*;
use vstd::prelude::*;

verus! {

/// The `k` most significant chunks of `v` as one number.
pub open spec fn prefix(v: nat, c: nat, b: nat, k: nat) -> nat {
    v / pow2(((c - k) * b) as nat)
}

/// Bit 63 of a 64-bit word.
pub open spec fn top_bit(v: nat) -> nat {
    v / pow2(63)
}

/// The `k` most significant chunks of `v` without bit 63.
pub open spec fn stripped(v: nat, c: nat, b: nat, k: nat) -> int {
    prefix(v, c, b, k) - top_bit(v) * pow2((k * b - 1) as nat)
}

/// One for a true statement, zero for a false one.
pub open spec fn bit(p: bool) -> nat {
    if p {
        1
    } else {
        0
    }
}

/// One more chunk extends a prefix by `b` bits.
proof fn lemma_prefix_step(v: nat, c: nat, b: nat, k: nat)
    requires
        k < c,
    ensures
        prefix(v, c, b, k + 1) == prefix(v, c, b, k) * pow2(b) + operand_chunk(v, c, b, k),
        operand_chunk(v, c, b, k) < pow2(b),
{
    let m = ((c - 1 - k) * b) as nat;
    assert((c - k) * b == (c - 1 - k) * b + b) by (nonlinear_arith);
    assert((c - (k + 1)) * b == (c - 1 - k) * b) by (nonlinear_arith);
    assert((c - 1 - k) * b >= 0) by (nonlinear_arith)
        requires
            k < c,
    ;
    lemma_pow2_adds(m, b);
    lemma_pow2_pos(m);
    lemma_pow2_pos(b);
    lemma_div_denominator(v as int, pow2(m) as int, pow2(b) as int);
    let p = v / pow2(m);
    lemma_fundamental_div_mod(p as int, pow2(b) as int);
    lemma_mod_bound(p as int, pow2(b) as int);
    assert(prefix(v, c, b, k + 1) == p);
    assert(prefix(v, c, b, k) == p / pow2(b));
    assert(operand_chunk(v, c, b, k) == p % pow2(b));
    assert(pow2(b) * (p / pow2(b)) == (p / pow2(b)) * pow2(b)) by (nonlinear_arith);
}

/// The same step for a prefix without bit 63.
proof fn lemma_stripped_step(v: nat, c: nat, b: nat, k: nat)
    requires
        b >= 1,
        1 <= k < c,
    ensures
        stripped(v, c, b, k + 1) == stripped(v, c, b, k) * pow2(b) + operand_chunk(v, c, b, k),
{
    lemma_prefix_step(v, c, b, k);
    assert(k * b - 1 >= 0) by (nonlinear_arith)
        requires
            b >= 1,
            k >= 1,
    ;
    assert((k + 1) * b - 1 == (k * b - 1) + b) by (nonlinear_arith);
    let e = (k * b - 1) as nat;
    lemma_pow2_adds(e, b);
    let t = top_bit(v) as int;
    let q = pow2(e) as int;
    let bb = pow2(b) as int;
    let p = prefix(v, c, b, k) as int;
    let ch = operand_chunk(v, c, b, k) as int;
    assert(pow2(((k + 1) * b - 1) as nat) == q * bb);
    assert((p * bb + ch) - t * (q * bb) == (p - t * q) * bb + ch) by (nonlinear_arith);
}

/// The first chunk of a 64-bit word holds its sign bit, and the rest of the
/// chunk is the first prefix without that bit.
proof fn lemma_first_chunk(v: u64, c: nat, b: nat)
    requires
        b >= 1,
        c * b == 64,
    ensures
        sign_bit(operand_chunk(v as nat, c, b, 0), b) == top_bit(v as nat),
        magnitude(operand_chunk(v as nat, c, b, 0), b) == stripped(v as nat, c, b, 1),
        top_bit(v as nat) <= 1,
        top_bit(v as nat) == 1 <==> v >= 0x8000_0000_0000_0000,
{
    lemma2_to64();
    lemma2_to64_rest();
    assert(c >= 1) by (nonlinear_arith)
        requires
            c * b == 64,
    ;
    assert((c - 1) * b == 64 - b) by (nonlinear_arith)
        requires
            c * b == 64,
    ;
    assert(b <= 64) by (nonlinear_arith)
        requires
            c * b == 64,
            c >= 1,
    ;
    let m = (64 - b) as nat;
    let h = (b - 1) as nat;
    assert(((c - 1 - 0) * b) as nat == m);
    lemma_pow2_adds(m, b);
    lemma_pow2_adds(m, h);
    lemma_pow2_unfold(b);
    lemma_pow2_pos(m);
    lemma_pow2_pos(h);
    lemma_pow2_pos(b);
    let pm = pow2(m) as int;
    let pb = pow2(b) as int;
    let ph = pow2(h) as int;
    let a0 = (v as int) / pm;
    assert(0 <= a0 < pb) by (nonlinear_arith)
        requires
            0 <= v < pm * pb,
            pm > 0,
            a0 == (v as int) / pm,
    ;
    lemma_small_mod(a0 as nat, pb as nat);
    assert(operand_chunk(v as nat, c, b, 0) == a0);
    lemma_div_denominator(v as int, pm, ph);
    assert(a0 / ph == top_bit(v as nat));
    assert(top_bit(v as nat) <= 1 && (top_bit(v as nat) == 1 <==> v >= 0x8000_0000_0000_0000))
        by (nonlinear_arith)
        requires
            top_bit(v as nat) == (v as int) / 0x8000_0000_0000_0000,
            0 <= v < 0x1_0000_0000_0000_0000,
    ;
    lemma_small_mod(top_bit(v as nat), 2);
    lemma_fundamental_div_mod(a0, ph);
    assert(1 * b - 1 == h);
    assert(ph * (a0 / ph) == (a0 / ph) * ph) by (nonlinear_arith);
}

/// The value that table `s` holds at the index of chunk `i`.
proof fn lemma_lookup_value(x: nat, y: nat, c: nat, b: nat, s: nat, i: nat)
    requires
        s < 6,
        i < c,
    ensures
        0 <= s * c + i < 6 * c,
        lookup_values(x, y, c, b)[(s * c + i) as int] == bit(
            bge_subtables()[s as int].holds(operand_chunk(x, c, b, i), operand_chunk(y, c, b, i), b),
        ),
{
    let j = (s * c + i) as int;
    assert(0 <= s * c + i < 6 * c) by (nonlinear_arith)
        requires
            s < 6,
            i < c,
    ;
    lemma_fundamental_div_mod_converse(j, c as int, s as int, i as int);
    let l = operand_chunk(x, c, b, i);
    let r = operand_chunk(y, c, b, i);
    lemma_pow2_pos(b);
    lemma_mod_bound((y / pow2(((c - 1 - i) * b) as nat)) as int, pow2(b) as int);
    let index = chunk_index(x, y, c, b, i);
    lemma_fundamental_div_mod_converse(index as int, pow2(b) as int, l as int, r as int);
    assert(left_operand(index, b) == l);
    assert(right_operand(index, b) == r);
}

/// Comparing two numbers that were each extended by one digit.
proof fn lemma_extend_order(p: int, q: int, a: int, d: int, base: int)
    requires
        base > 0,
        0 <= a < base,
        0 <= d < base,
    ensures
        (p * base + a < q * base + d) <==> (p < q || (p == q && a < d)),
        (p * base + a == q * base + d) <==> (p == q && a == d),
{
    assert((p * base + a < q * base + d) <==> (p < q || (p == q && a < d))) by (nonlinear_arith)
        requires
            base > 0,
            0 <= a < base,
            0 <= d < base,
    ;
    assert((p * base + a == q * base + d) <==> (p == q && a == d)) by (nonlinear_arith)
        requires
            base > 0,
            0 <= a < base,
            0 <= d < base,
    ;
}

/// Products and sums of truth values are not reduced by the modulus.
proof fn lemma_bits(a: nat, b: nat)
    requires
        a <= 1,
        b <= 1,
    ensures
        (a * b) % modulus() == bit(a == 1 && b == 1),
        a + b <= 1 ==> (a + b) % modulus() == a + b,
{
    assert(a * b == bit(a == 1 && b == 1)) by (nonlinear_arith)
        requires
            a <= 1,
            b <= 1,
    ;
}

/// After `k` chunks the two accumulators compare the prefixes without their
/// sign bits.
proof fn lemma_accumulators(x: u64, y: u64, c: nat, b: nat, k: nat)
    requires
        b >= 1,
        c * b == 64,
        1 <= k <= c,
    ensures
        lt_acc(lookup_values(x as nat, y as nat, c, b), c, k) == bit(
            stripped(x as nat, c, b, k) < stripped(y as nat, c, b, k),
        ),
        eq_acc(lookup_values(x as nat, y as nat, c, b), c, k) == bit(
            stripped(x as nat, c, b, k) == stripped(y as nat, c, b, k),
        ),
    decreases k,
{
    let v = lookup_values(x as nat, y as nat, c, b);
    if k == 1 {
        lemma_lookup_value(x as nat, y as nat, c, b, 4, 0);
        lemma_lookup_value(x as nat, y as nat, c, b, 5, 0);
        lemma_first_chunk(x, c, b);
        lemma_first_chunk(y, c, b);
        assert(bge_subtables()[4] == Subtable::LtAbs);
        assert(bge_subtables()[5] == Subtable::EqAbs);
        assert(4 * c + 0 == 4 * c);
        assert(5 * c + 0 == 5 * c);
    } else {
        let j = (k - 1) as nat;
        lemma_accumulators(x, y, c, b, j);
        lemma_lookup_value(x as nat, y as nat, c, b, 2, j);
        lemma_lookup_value(x as nat, y as nat, c, b, 3, j);
        assert(bge_subtables()[2] == Subtable::Ltu);
        assert(bge_subtables()[3] == Subtable::Eq);
        lemma_stripped_step(x as nat, c, b, j);
        lemma_stripped_step(y as nat, c, b, j);
        lemma_prefix_step(x as nat, c, b, j);
        lemma_prefix_step(y as nat, c, b, j);
        lemma_pow2_pos(b);
        let cx = operand_chunk(x as nat, c, b, j);
        let cy = operand_chunk(y as nat, c, b, j);
        lemma_extend_order(
            stripped(x as nat, c, b, j),
            stripped(y as nat, c, b, j),
            cx as int,
            cy as int,
            pow2(b) as int,
        );
        let lt_before = lt_acc(v, c, j);
        let eq_before = eq_acc(v, c, j);
        let lt_here = v[(2 * c + j) as int];
        let eq_here = v[(3 * c + j) as int];
        assert(lt_here == bit(cx < cy));
        assert(eq_here == bit(cx == cy));
        lemma_bits(lt_here, eq_before);
        lemma_bits(eq_before, eq_here);
        lemma_bits(lt_before, (lt_here * eq_before) % modulus());
        assert(2 * c + k - 1 == 2 * c + j);
        assert(3 * c + k - 1 == 3 * c + j);
    }
}

/// The combination for signed "less than" is one where the left operand is
/// below the right one as a signed number, and zero elsewhere.
pub proof fn lemma_slt_lookup_is_signed_lt(x: u64, y: u64, c: nat, b: nat)
    requires
        b >= 1,
        c * b == 64,
    ensures
        slt_combine(lookup_values(x as nat, y as nat, c, b), c) == bit(signed(x) < signed(y)),
{
    let v = lookup_values(x as nat, y as nat, c, b);
    assert(c >= 1) by (nonlinear_arith)
        requires
            c * b == 64,
    ;
    lemma_accumulators(x, y, c, b, c);
    lemma_lookup_value(x as nat, y as nat, c, b, 0, 0);
    lemma_lookup_value(x as nat, y as nat, c, b, 1, 0);
    assert(bge_subtables()[0] == Subtable::GtMsb);
    assert(bge_subtables()[1] == Subtable::EqMsb);
    assert(0 * c + 0 == 0);
    assert(1 * c + 0 == c);
    lemma_first_chunk(x, c, b);
    lemma_first_chunk(y, c, b);
    lemma2_to64();
    lemma2_to64_rest();
    assert((c - c) * b == 0) by (nonlinear_arith);
    assert(prefix(x as nat, c, b, c) == x);
    assert(prefix(y as nat, c, b, c) == y);
    assert(stripped(x as nat, c, b, c) == x - top_bit(x as nat) * 0x8000_0000_0000_0000);
    assert(stripped(y as nat, c, b, c) == y - top_bit(y as nat) * 0x8000_0000_0000_0000);
    lemma_bits(v[c as int], lt_acc(v, c, c));
    lemma_bits(v[0], (v[c as int] * lt_acc(v, c, c)) % modulus());
}

/// The lookup reduction of "greater or equal" is right: the combined value is
/// one where the left operand is at least the right one as a signed number,
/// and zero elsewhere.
pub proof fn lemma_bge_lookup_is_signed_ge(x: u64, y: u64, c: nat, b: nat)
    requires
        b >= 1,
        c * b == 64,
    ensures
        bge_combine(lookup_values(x as nat, y as nat, c, b), c) == bit(signed(x) >= signed(y)),
{
    lemma_slt_lookup_is_signed_lt(x, y, c, b);
}

/// On equal operands the combined value is one.
pub proof fn lemma_bge_lookup_reflexive(x: u64, c: nat, b: nat)
    requires
        b >= 1,
        c * b == 64,
    ensures
        bge_combine(lookup_values(x as nat, x as nat, c, b), c) == 1,
{
    lemma_bge_lookup_is_signed_ge(x, x, c, b);
}

} // verus!
