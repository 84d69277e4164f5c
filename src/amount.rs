use vstd::prelude::*;

verus! {

/// The raw value of one unit: amounts carry 32 fractional bits.
pub const ONE_BITS: i64 = 4294967296;

/// Clamps an integer into the range of `i64`.
pub open spec fn saturate(x: int) -> int {
    if x > i64::MAX {
        i64::MAX as int
    } else if x < i64::MIN {
        i64::MIN as int
    } else {
        x
    }
}

/// A signed fixed-point number: `bits / 2^32`, with saturating arithmetic.
#[derive(Clone, Copy, Debug, PartialEq, Eq, Structural)]
pub struct Amount {
    pub bits: i64,
}

/// The amount zero.
pub open spec fn zero_amount() -> Amount {
    Amount { bits: 0 }
}

/// Saturating sum of two amounts.
pub open spec fn sum_of(a: Amount, b: Amount) -> Amount {
    Amount { bits: saturate(a.bits + b.bits) as i64 }
}

/// Saturating difference of two amounts.
pub open spec fn difference_of(a: Amount, b: Amount) -> Amount {
    Amount { bits: saturate(a.bits - b.bits) as i64 }
}

/// Saturating product of two amounts, rounded toward negative infinity.
pub open spec fn product_of(a: Amount, b: Amount) -> Amount {
    Amount { bits: saturate((a.bits * b.bits) / (ONE_BITS as int)) as i64 }
}

/// Zero absorbs multiplication on either side.
pub proof fn lemma_product_zero(a: Amount)
    ensures
        product_of(a, zero_amount()) == zero_amount(),
        product_of(zero_amount(), a) == zero_amount(),
{
    assert(a.bits * 0 == 0);
    assert(0 * a.bits == 0);
}

/// Adding or subtracting zero leaves an amount unchanged.
pub proof fn lemma_sum_zero(a: Amount)
    ensures
        sum_of(a, zero_amount()) == a,
        sum_of(zero_amount(), a) == a,
        difference_of(a, zero_amount()) == a,
{
}

impl Amount {
    /// The amount zero.
    pub fn zero() -> (r: Amount)
        ensures
            r == zero_amount(),
    {
        Amount { bits: 0 }
    }

    /// The amount with the given raw representation.
    pub fn from_bits(bits: i64) -> (r: Amount)
        ensures
            r.bits == bits,
    {
        Amount { bits }
    }

    /// The raw representation of this amount.
    pub fn to_bits(self) -> (r: i64)
        ensures
            r == self.bits,
    {
        self.bits
    }

    /// The whole number `n` as an amount.
    pub fn from_num(n: i32) -> (r: Amount)
        ensures
            r.bits == n * ONE_BITS,
    {
        assert(i32::MIN * ONE_BITS <= n * ONE_BITS <= i32::MAX * ONE_BITS) by (nonlinear_arith)
            requires
                i32::MIN <= n <= i32::MAX,
        ;
        Amount { bits: (n as i64) * ONE_BITS }
    }

    /// Whether this amount is strictly below `other`.
    pub fn is_less(self, other: Amount) -> (r: bool)
        ensures
            r == (self.bits < other.bits),
    {
        self.bits < other.bits
    }

    fn clamp_wide(x: i128) -> (r: Amount)
        ensures
            r.bits == saturate(x as int),
    {
        if x > i64::MAX as i128 {
            Amount { bits: i64::MAX }
        } else if x < i64::MIN as i128 {
            Amount { bits: i64::MIN }
        } else {
            Amount { bits: x as i64 }
        }
    }

    /// Saturating addition.
    pub fn plus(self, other: Amount) -> (r: Amount)
        ensures
            r == sum_of(self, other),
    {
        Self::clamp_wide(self.bits as i128 + other.bits as i128)
    }

    /// Saturating subtraction.
    pub fn minus(self, other: Amount) -> (r: Amount)
        ensures
            r == difference_of(self, other),
    {
        Self::clamp_wide(self.bits as i128 - other.bits as i128)
    }

    /// Saturating multiplication, rounded toward negative infinity.
    pub fn times(self, other: Amount) -> (r: Amount)
        ensures
            r == product_of(self, other),
    {
        let a: i128 = self.bits as i128;
        let b: i128 = other.bits as i128;
        assert(-0x4000_0000_0000_0000_0000_0000_0000_0000 <= a * b
            <= 0x4000_0000_0000_0000_0000_0000_0000_0000) by (nonlinear_arith)
            requires
                -0x8000_0000_0000_0000 <= a <= 0x7fff_ffff_ffff_ffff,
                -0x8000_0000_0000_0000 <= b <= 0x7fff_ffff_ffff_ffff,
        ;
        let p: i128 = a * b;
        let d: u128 = 4294967296;
        let q: i128 = if p >= 0 {
            let n: u128 = p as u128;
            let q0: u128 = n / d;
            proof {
                vstd::arithmetic::div_mod::lemma_fundamental_div_mod(n as int, d as int);
                vstd::arithmetic::div_mod::lemma_fundamental_div_mod_converse(
                    p as int,
                    d as int,
                    q0 as int,
                    (n % d) as int,
                );
            }
            q0 as i128
        } else {
            let n: u128 = (-p) as u128;
            let m: u128 = (n + 4294967295) / d;
            proof {
                let t: int = n + 4294967295;
                vstd::arithmetic::div_mod::lemma_fundamental_div_mod(t, d as int);
                let r: int = t % (d as int);
                assert(p == d * (-(m as int)) + (d - 1 - r));
                vstd::arithmetic::div_mod::lemma_fundamental_div_mod_converse(
                    p as int,
                    d as int,
                    -(m as int),
                    d - 1 - r,
                );
            }
            -(m as i128)
        };
        Self::clamp_wide(q)
    }
}

} // verus!
