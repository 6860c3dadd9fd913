use alloy_primitives::U256;
use vstd::prelude::*;

verus! {

/// The base of one 64-bit limb.
pub open spec fn limb_base() -> nat {
    0x1_0000_0000_0000_0000nat
}

/// 2^256: every amount is taken modulo this.
pub open spec fn modulus() -> nat {
    limb_base() * limb_base() * limb_base() * limb_base()
}

/// An unsigned 256-bit amount, held as four 64-bit limbs, least significant first.
#[derive(Clone, Copy, Debug)]
pub struct Amount {
    pub limbs: [u64; 4],
}

impl Amount {
    /// The number this amount stands for.
    pub open spec fn value(self) -> nat {
        self.limbs[0] as nat + limb_base() * (self.limbs[1] as nat + limb_base() * (
        self.limbs[2] as nat + limb_base() * (self.limbs[3] as nat)))
    }

    pub proof fn lemma_value_bounded(self)
        ensures
            self.value() < modulus(),
    {
        let b = limb_base() as int;
        let l0 = self.limbs[0] as int;
        let l1 = self.limbs[1] as int;
        let l2 = self.limbs[2] as int;
        let l3 = self.limbs[3] as int;
        assert(l3 <= b - 1);
        assert(l2 + b * l3 <= b * b - 1) by (nonlinear_arith)
            requires
                0 <= l2 <= b - 1,
                0 <= l3 <= b - 1,
        ;
        assert(l1 + b * (l2 + b * l3) <= b * b * b - 1) by (nonlinear_arith)
            requires
                0 <= l1 <= b - 1,
                0 <= l2 + b * l3 <= b * b - 1,
                b > 0,
        ;
        assert(l0 + b * (l1 + b * (l2 + b * l3)) <= b * b * b * b - 1) by (nonlinear_arith)
            requires
                0 <= l0 <= b - 1,
                0 <= l1 + b * (l2 + b * l3) <= b * b * b - 1,
                b > 0,
        ;
    }

    pub fn zero() -> (r: Amount)
        ensures
            r.value() == 0,
    {
        Amount { limbs: [0u64, 0u64, 0u64, 0u64] }
    }

    pub fn from_u64(v: u64) -> (r: Amount)
        ensures
            r.value() == v as nat,
    {
        Amount { limbs: [v, 0u64, 0u64, 0u64] }
    }

    pub fn is_zero(&self) -> (r: bool)
        ensures
            r == (self.value() == 0),
    {
        let b = Ghost(limb_base() as int);
        proof {
            let l0 = self.limbs[0] as int;
            let l1 = self.limbs[1] as int;
            let l2 = self.limbs[2] as int;
            let l3 = self.limbs[3] as int;
            assert(b@ * l3 >= 0 && l2 + b@ * l3 >= 0) by (nonlinear_arith)
                requires
                    b@ > 0,
                    l2 >= 0,
                    l3 >= 0,
            ;
            assert(b@ * (l2 + b@ * l3) >= 0 && l1 + b@ * (l2 + b@ * l3) >= 0) by (nonlinear_arith)
                requires
                    b@ > 0,
                    l1 >= 0,
                    l2 + b@ * l3 >= 0,
            ;
            assert(b@ * (l1 + b@ * (l2 + b@ * l3)) >= 0) by (nonlinear_arith)
                requires
                    b@ > 0,
                    l1 + b@ * (l2 + b@ * l3) >= 0,
            ;
            assert((b@ * l3 == 0) == (l3 == 0)) by (nonlinear_arith)
                requires
                    b@ > 0,
            ;
            assert((b@ * (l2 + b@ * l3) == 0) == (l2 + b@ * l3 == 0)) by (nonlinear_arith)
                requires
                    b@ > 0,
            ;
            assert((b@ * (l1 + b@ * (l2 + b@ * l3)) == 0) == (l1 + b@ * (l2 + b@ * l3) == 0))
                by (nonlinear_arith)
                requires
                    b@ > 0,
            ;
        }
        self.limbs[0] == 0 && self.limbs[1] == 0 && self.limbs[2] == 0 && self.limbs[3] == 0
    }

    /// Relies on ruint's `Ord` for `Uint` (the `<` of `U256`): it compares the numbers.
    #[verifier::external_body]
    pub(crate) fn lt(&self, other: &Amount) -> (r: bool)
        ensures
            r == (self.value() < other.value()),
    {
        U256::from_limbs(self.limbs) < U256::from_limbs(other.limbs)
    }

    /// Relies on ruint's `Uint::overflowing_mul`: the product modulo 2^256, and whether
    /// the exact product reached 2^256.
    #[verifier::external_body]
    pub(crate) fn overflowing_mul(&self, other: &Amount) -> (r: (Amount, bool))
        ensures
            r.0.value() == (self.value() * other.value()) % modulus(),
            r.1 == (self.value() * other.value() >= modulus()),
    {
        let (p, o) = U256::from_limbs(self.limbs).overflowing_mul(U256::from_limbs(other.limbs));
        (Amount { limbs: p.into_limbs() }, o)
    }

    /// Relies on ruint's `Uint::wrapping_sub` (the `-` of `U256`): the difference modulo 2^256.
    #[verifier::external_body]
    pub(crate) fn wrapping_sub(&self, other: &Amount) -> (r: Amount)
        ensures
            r.value() == (self.value() - other.value()) % (modulus() as int),
    {
        Amount { limbs: U256::from_limbs(self.limbs).wrapping_sub(U256::from_limbs(other.limbs)).into_limbs() }
    }

    /// Relies on ruint's `Uint::wrapping_div` (the `/` of `U256`): the floor of the quotient;
    /// it panics on a zero divisor.
    #[verifier::external_body]
    pub(crate) fn div(&self, other: &Amount) -> (r: Amount)
        requires
            other.value() != 0,
        ensures
            r.value() == self.value() / other.value(),
    {
        Amount { limbs: U256::from_limbs(self.limbs).wrapping_div(U256::from_limbs(other.limbs)).into_limbs() }
    }
}

} // verus!
