//! Elements of the scalar field of Curve25519, held as four 64-bit limbs of
//! their canonical representative. Addition, subtraction and multiplication
//! are done by `ark_ff`; everything else is computed here.

use ark_ff::PrimeField;
use vstd::prelude::*;

verus! {

/// The order of the field: `2^252 + 27742317777372353535851937790883648493`.
pub open spec fn modulus() -> nat {
    7237005577332262213973186563042994240857116359379907606001950938285454250989nat
}

/// The number that four little-endian 64-bit limbs stand for.
pub open spec fn limbs_value(l0: u64, l1: u64, l2: u64, l3: u64) -> nat {
    (l0 as int + l1 as int * 0x1_0000_0000_0000_0000int
        + l2 as int * 0x1_0000_0000_0000_0000_0000_0000_0000_0000int
        + l3 as int * 0x1_0000_0000_0000_0000_0000_0000_0000_0000_0000_0000_0000_0000int) as nat
}

/// Two numbers that agree agree in their lowest 64-bit digit and in the
/// rest.
proof fn lemma_same_digits(x0: u64, xr: int, y0: u64, yr: int)
    requires
        x0 as int + xr * 0x1_0000_0000_0000_0000 == y0 as int + yr * 0x1_0000_0000_0000_0000,
    ensures
        x0 == y0,
        xr == yr,
{
}

/// The representatives of a sequence of elements.
pub open spec fn fe_values(s: Seq<Fe>) -> Seq<nat> {
    s.map_values(|f: Fe| f@)
}

/// A field element. Its view is the canonical representative, a natural
/// number below `modulus()`.
#[derive(Clone, Copy, Debug, PartialEq, Eq, Structural)]
pub struct Fe {
    l0: u64,
    l1: u64,
    l2: u64,
    l3: u64,
}

impl View for Fe {
    type V = nat;

    closed spec fn view(&self) -> nat {
        limbs_value(self.l0, self.l1, self.l2, self.l3)
    }
}

impl Fe {
    /// Every element that executable code holds is reduced.
    #[verifier::type_invariant]
    pub open spec fn wf(self) -> bool {
        self@ < modulus()
    }

    /// Two elements with the same representative are the same element.
    pub proof fn lemma_view_injective(a: Fe, b: Fe)
        ensures
            (a@ == b@) <==> (a == b),
    {
        if a@ == b@ {
            let a2 = a.l2 as int + a.l3 as int * 0x1_0000_0000_0000_0000;
            let b2 = b.l2 as int + b.l3 as int * 0x1_0000_0000_0000_0000;
            let a1 = a.l1 as int + a2 * 0x1_0000_0000_0000_0000;
            let b1 = b.l1 as int + b2 * 0x1_0000_0000_0000_0000;
            assert(a@ == a.l0 as int + a1 * 0x1_0000_0000_0000_0000);
            assert(b@ == b.l0 as int + b1 * 0x1_0000_0000_0000_0000);
            lemma_same_digits(a.l0, a1, b.l0, b1);
            lemma_same_digits(a.l1, a2, b.l1, b2);
            lemma_same_digits(a.l2, a.l3 as int, b.l2, b.l3 as int);
        }
    }

    pub fn zero() -> (r: Fe)
        ensures
            r@ == 0,
            r.wf(),
    {
        Fe { l0: 0, l1: 0, l2: 0, l3: 0 }
    }

    pub fn one() -> (r: Fe)
        ensures
            r@ == 1,
            r.wf(),
    {
        Fe { l0: 1, l1: 0, l2: 0, l3: 0 }
    }

    /// The element that a 64-bit number stands for; the field is larger than
    /// `2^64`, so nothing is reduced.
    pub fn from_u64(v: u64) -> (r: Fe)
        ensures
            r@ == v as nat,
            r.wf(),
    {
        Fe { l0: v, l1: 0, l2: 0, l3: 0 }
    }

    /// The element that a signed 64-bit number stands for: a negative number
    /// counts down from the modulus.
    pub fn from_i64(v: i64) -> (r: Fe)
        ensures
            r@ == (v as int) % (modulus() as int),
            r.wf(),
    {
        if v >= 0 {
            Fe::from_u64(v as u64)
        } else {
            let magnitude: u64 = (-(v + 1)) as u64 + 1;
            Fe::zero().minus(Fe::from_u64(magnitude))
        }
    }

    /// The element with the given limbs, least significant first, where they
    /// stand for a number below the modulus.
    pub fn from_limbs(limbs: [u64; 4]) -> (r: Option<Fe>)
        ensures
            r.is_some() <==> limbs_value(limbs[0], limbs[1], limbs[2], limbs[3]) < modulus(),
            r.is_some() ==> r.unwrap()@ == limbs_value(limbs[0], limbs[1], limbs[2], limbs[3])
                && r.unwrap().wf(),
    {
        let l0: u64 = limbs[0];
        let l1: u64 = limbs[1];
        let l2: u64 = limbs[2];
        let l3: u64 = limbs[3];
        let below = l3 < 0x1000_0000_0000_0000 || (l3 == 0x1000_0000_0000_0000 && l2 == 0 && (l1
            < 0x14de_f9de_a2f7_9cd6 || (l1 == 0x14de_f9de_a2f7_9cd6 && l0
            < 0x5812_631a_5cf5_d3ed)));
        if below {
            Some(Fe { l0, l1, l2, l3 })
        } else {
            None
        }
    }

    /// The limbs of the canonical representative, least significant first.
    pub fn to_limbs(&self) -> (r: [u64; 4])
        ensures
            limbs_value(r[0], r[1], r[2], r[3]) == self@,
    {
        [self.l0, self.l1, self.l2, self.l3]
    }

    pub fn is_zero(&self) -> (r: bool)
        ensures
            r <==> self@ == 0,
    {
        self.l0 == 0 && self.l1 == 0 && self.l2 == 0 && self.l3 == 0
    }

    /// The sum in the field.
    pub fn plus(self, rhs: Fe) -> (r: Fe)
        ensures
            r@ == (self@ + rhs@) % modulus(),
            r.wf(),
    {
        proof {
            use_type_invariant(&self);
            use_type_invariant(&rhs);
        }
        let r = ark_sum(self, rhs);
        proof {
            use_type_invariant(&r);
        }
        r
    }

    /// The difference in the field.
    pub fn minus(self, rhs: Fe) -> (r: Fe)
        ensures
            r@ == (self@ as int - rhs@ as int) % (modulus() as int),
            r.wf(),
    {
        proof {
            use_type_invariant(&self);
            use_type_invariant(&rhs);
        }
        let r = ark_difference(self, rhs);
        proof {
            use_type_invariant(&r);
        }
        r
    }

    /// The product in the field.
    pub fn times(self, rhs: Fe) -> (r: Fe)
        ensures
            r@ == (self@ * rhs@) % modulus(),
            r.wf(),
    {
        proof {
            use_type_invariant(&self);
            use_type_invariant(&rhs);
        }
        let r = ark_product(self, rhs);
        proof {
            use_type_invariant(&r);
        }
        r
    }
}

impl Default for Fe {
    fn default() -> (r: Fe)
        ensures
            r@ == 0,
    {
        Fe::zero()
    }
}

/// `+` of `ark_curve25519::Fr`. Both arguments are turned into `Fr` by
/// `PrimeField::from_bigint`, which accepts exactly the integers below the
/// modulus, and the sum is read back by `PrimeField::into_bigint`, which gives
/// the representative in that range. The contract claims that `+` adds modulo
/// the field's order.
#[verifier::external_body]
fn ark_sum(a: Fe, b: Fe) -> (r: Fe)
    requires
        a.wf(),
        b.wf(),
    ensures
        r@ == (a@ + b@) % modulus(),
{
    let x = ark_curve25519::Fr::from_bigint(ark_ff::BigInt::new([a.l0, a.l1, a.l2, a.l3])).unwrap();
    let y = ark_curve25519::Fr::from_bigint(ark_ff::BigInt::new([b.l0, b.l1, b.l2, b.l3])).unwrap();
    let z = (x + y).into_bigint().0;
    Fe { l0: z[0], l1: z[1], l2: z[2], l3: z[3] }
}

/// `-` of `ark_curve25519::Fr`, with the arguments and the result converted
/// as in `ark_sum`. The contract claims that `-` subtracts modulo the field's
/// order, the result being the representative between zero and the modulus.
#[verifier::external_body]
fn ark_difference(a: Fe, b: Fe) -> (r: Fe)
    requires
        a.wf(),
        b.wf(),
    ensures
        r@ == (a@ as int - b@ as int) % (modulus() as int),
{
    let x = ark_curve25519::Fr::from_bigint(ark_ff::BigInt::new([a.l0, a.l1, a.l2, a.l3])).unwrap();
    let y = ark_curve25519::Fr::from_bigint(ark_ff::BigInt::new([b.l0, b.l1, b.l2, b.l3])).unwrap();
    let z = (x - y).into_bigint().0;
    Fe { l0: z[0], l1: z[1], l2: z[2], l3: z[3] }
}

/// `*` of `ark_curve25519::Fr`, with the arguments and the result converted
/// as in `ark_sum`. The contract claims that `*` multiplies modulo the field's
/// order.
#[verifier::external_body]
fn ark_product(a: Fe, b: Fe) -> (r: Fe)
    requires
        a.wf(),
        b.wf(),
    ensures
        r@ == (a@ * b@) % modulus(),
{
    let x = ark_curve25519::Fr::from_bigint(ark_ff::BigInt::new([a.l0, a.l1, a.l2, a.l3])).unwrap();
    let y = ark_curve25519::Fr::from_bigint(ark_ff::BigInt::new([b.l0, b.l1, b.l2, b.l3])).unwrap();
    let z = (x * y).into_bigint().0;
    Fe { l0: z[0], l1: z[1], l2: z[2], l3: z[3] }
}

} // verus!
