//! The capability set that a matrix element offers to the solver, and an exact
//! prime field that provides it.
use vstd::arithmetic::div_mod::{lemma_mul_mod_noop_general, lemma_small_mod};
use vstd::arithmetic::power::{
    lemma_pow0, lemma_pow1, lemma_pow_adds, lemma_pow_mod_noop, lemma_pow_multiplies,
    lemma_square_is_pow2, pow,
};
use vstd::prelude::*;

verus! {

/// Arithmetic and pivot-ranking operations needed by Gaussian elimination.
///
/// Each executable operation is tied to a spec-level counterpart, so that
/// algorithms over a generic element can be specified exactly.
pub trait Scalar: Copy + Sized {
    /// The additive identity.
    spec fn spec_zero() -> Self;

    spec fn spec_add(a: Self, b: Self) -> Self;

    spec fn spec_sub(a: Self, b: Self) -> Self;

    spec fn spec_mul(a: Self, b: Self) -> Self;

    spec fn spec_div(a: Self, b: Self) -> Self;

    /// `a` is a strictly better pivot than `b` (larger magnitude).
    spec fn spec_outweighs(a: Self, b: Self) -> bool;

    /// `a` is too close to zero to serve as a pivot.
    spec fn spec_negligible(a: Self) -> bool;

    proof fn lemma_zero_negligible()
        ensures
            Self::spec_negligible(Self::spec_zero()),
    ;

    proof fn lemma_zero_div(p: Self)
        ensures
            Self::spec_div(Self::spec_zero(), p) == Self::spec_zero(),
    ;

    proof fn lemma_zero_mul(x: Self)
        ensures
            Self::spec_mul(Self::spec_zero(), x) == Self::spec_zero(),
    ;

    proof fn lemma_zero_sub_zero()
        ensures
            Self::spec_sub(Self::spec_zero(), Self::spec_zero()) == Self::spec_zero(),
    ;

    fn zero() -> (r: Self)
        ensures
            r == Self::spec_zero(),
    ;

    fn add(&self, other: &Self) -> (r: Self)
        ensures
            r == Self::spec_add(*self, *other),
    ;

    fn sub(&self, other: &Self) -> (r: Self)
        ensures
            r == Self::spec_sub(*self, *other),
    ;

    fn mul(&self, other: &Self) -> (r: Self)
        ensures
            r == Self::spec_mul(*self, *other),
    ;

    fn div(&self, other: &Self) -> (r: Self)
        ensures
            r == Self::spec_div(*self, *other),
    ;

    fn outweighs(&self, other: &Self) -> (r: bool)
        ensures
            r == Self::spec_outweighs(*self, *other),
    ;

    fn is_negligible(&self) -> (r: bool)
        ensures
            r == Self::spec_negligible(*self),
    ;
}

/// The modulus of `Fp`: the Mersenne prime 2^31 - 1.
pub const MODULUS: u64 = 2147483647;

/// An element of the prime field of integers modulo `MODULUS`.
///
/// Arithmetic is exact, so the only near-zero pivot is zero itself, and every
/// non-zero element is an equally good pivot.
#[derive(Clone, Copy, Debug, PartialEq, Eq, Structural)]
pub struct Fp {
    v: u64,
}

impl Fp {
    #[verifier::type_invariant]
    spec fn inv(self) -> bool {
        self.v < MODULUS
    }

    /// The canonical representative, in `0..MODULUS`.
    pub closed spec fn value(self) -> int {
        self.v as int
    }

    pub closed spec fn spec_new(x: int) -> Fp {
        Fp { v: (x % (MODULUS as int)) as u64 }
    }

    /// The residue of `x` modulo `MODULUS`.
    pub fn new(x: u64) -> (r: Fp)
        ensures
            r == Fp::spec_new(x as int),
            r.value() == x % MODULUS,
    {
        Fp { v: x % MODULUS }
    }

    /// The canonical representative, in `0..MODULUS`.
    pub fn to_u64(&self) -> (r: u64)
        ensures
            r == self.value(),
            r < MODULUS,
    {
        proof {
            use_type_invariant(self);
        }
        self.v
    }
}

/// `base` raised to `exp`, reduced modulo `MODULUS`, by repeated squaring.
fn pow_mod(base: u64, exp: u64) -> (r: u64)
    requires
        base < MODULUS,
    ensures
        r == pow(base as int, exp as nat) % (MODULUS as int),
{
    let ghost m: int = MODULUS as int;
    let mut acc: u64 = 1;
    let mut b: u64 = base;
    let mut e: u64 = exp;
    while e > 0
        invariant
            m == MODULUS,
            acc < MODULUS,
            b < MODULUS,
            (acc * pow(b as int, e as nat)) % m == pow(base as int, exp as nat) % m,
        decreases e,
    {
        let ghost (acc0, b0, e0) = (acc as int, b as int, e as nat);
        let t: u64 = e % 2;
        let q: u64 = e / 2;
        proof {
            assert(acc * b < MODULUS * MODULUS) by (nonlinear_arith)
                requires
                    acc < MODULUS,
                    b < MODULUS,
            ;
            assert(b * b < MODULUS * MODULUS) by (nonlinear_arith)
                requires
                    b < MODULUS,
            ;
        }
        if t == 1 {
            acc = (acc * b) % MODULUS;
        }
        b = (b * b) % MODULUS;
        e = q;
        proof {
            let bt = pow(b0, t as nat);
            let bq = pow(b0 * b0, q as nat);
            lemma_pow_adds(b0, t as nat, (2 * q) as nat);
            lemma_pow_multiplies(b0, 2, q as nat);
            lemma_square_is_pow2(b0);
            assert(pow(b0, e0) == bt * bq);
            lemma_pow_mod_noop(b0 * b0, q as nat, m);
            // the new accumulator is acc0 * bt reduced
            if t == 1 {
                lemma_pow1(b0);
            } else {
                lemma_pow0(b0);
            }
            assert(acc as int == (acc0 * bt) % m);
            assert(pow(b as int, e as nat) % m == bq % m);
            lemma_mul_mod_noop_general(acc0 * bt, bq, m);
            lemma_mul_mod_noop_general(acc as int, pow(b as int, e as nat), m);
            assert((acc0 * bt) * bq == acc0 * (bt * bq)) by (nonlinear_arith);
        }
    }
    proof {
        lemma_pow0(b as int);
        lemma_small_mod(acc as nat, m as nat);
    }
    acc
}

impl Scalar for Fp {
    closed spec fn spec_zero() -> Fp {
        Fp { v: 0 }
    }

    closed spec fn spec_add(a: Fp, b: Fp) -> Fp {
        Fp::spec_new(a.v + b.v)
    }

    closed spec fn spec_sub(a: Fp, b: Fp) -> Fp {
        Fp::spec_new(a.v + MODULUS - b.v)
    }

    closed spec fn spec_mul(a: Fp, b: Fp) -> Fp {
        Fp::spec_new(a.v * b.v)
    }

    /// Multiplication by the inverse `b^(MODULUS - 2)`.
    closed spec fn spec_div(a: Fp, b: Fp) -> Fp {
        Fp::spec_new(a.v * (pow(b.v as int, (MODULUS - 2) as nat) % (MODULUS as int)))
    }

    closed spec fn spec_outweighs(a: Fp, b: Fp) -> bool {
        a.v != 0 && b.v == 0
    }

    closed spec fn spec_negligible(a: Fp) -> bool {
        a.v == 0
    }

    proof fn lemma_zero_negligible() {
    }

    proof fn lemma_zero_div(p: Fp) {
    }

    proof fn lemma_zero_mul(x: Fp) {
    }

    proof fn lemma_zero_sub_zero() {
    }

    fn zero() -> (r: Fp) {
        Fp { v: 0 }
    }

    fn add(&self, other: &Fp) -> (r: Fp) {
        proof {
            use_type_invariant(self);
            use_type_invariant(other);
        }
        Fp { v: (self.v + other.v) % MODULUS }
    }

    fn sub(&self, other: &Fp) -> (r: Fp) {
        proof {
            use_type_invariant(self);
            use_type_invariant(other);
        }
        Fp { v: (self.v + MODULUS - other.v) % MODULUS }
    }

    fn mul(&self, other: &Fp) -> (r: Fp) {
        proof {
            use_type_invariant(self);
            use_type_invariant(other);
            assert(self.v * other.v < MODULUS * MODULUS) by (nonlinear_arith)
                requires
                    self.v < MODULUS,
                    other.v < MODULUS,
            ;
        }
        Fp { v: (self.v * other.v) % MODULUS }
    }

    fn div(&self, other: &Fp) -> (r: Fp) {
        proof {
            use_type_invariant(self);
            use_type_invariant(other);
        }
        let inv = pow_mod(other.v, MODULUS - 2);
        proof {
            assert(self.v * inv < MODULUS * MODULUS) by (nonlinear_arith)
                requires
                    self.v < MODULUS,
                    inv < MODULUS,
            ;
        }
        Fp { v: (self.v * inv) % MODULUS }
    }

    fn outweighs(&self, other: &Fp) -> (r: bool) {
        self.v != 0 && other.v == 0
    }

    fn is_negligible(&self) -> (r: bool) {
        self.v == 0
    }
}

} // verus!
