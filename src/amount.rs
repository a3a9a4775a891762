//! Money amounts as exact fixed-point decimals.
//!
//! An [`Amount`] counts ten-thousandths of a currency unit, with a sign of its own so that a
//! negative zero, which a decimal can carry, is told apart from zero. Balances are plain `i128`
//! counts of the same unit. Conversion from and to `rust_decimal::Decimal` is exact or refused.

use rust_decimal::Decimal;
use vstd::arithmetic::div_mod::lemma_mod_multiples_basic;
use vstd::arithmetic::mul::lemma_mul_equality_converse;
use vstd::arithmetic::power::*;
use vstd::prelude::*;

verus! {

/// The number of decimal digits kept after the point.
pub const FRACTION_DIGITS: u32 = 4;

/// The number of units in one whole currency unit (`10^FRACTION_DIGITS`).
pub const UNITS_PER_WHOLE: u64 = 10_000;

/// The largest magnitude of a `Decimal` mantissa (`2^96 - 1`).
pub const MAX_DECIMAL_MANTISSA: i128 = 0xFFFF_FFFF_FFFF_FFFF_FFFF_FFFF;

/// An amount of money handed to a deposit or a withdrawal, in units of `1 / UNITS_PER_WHOLE`.
#[derive(Debug, Clone, Copy, PartialEq, Eq, Structural)]
pub struct Amount {
    /// The sign bit; set on negative amounts and on a negative zero.
    pub negative: bool,
    /// The magnitude, in ten-thousandths.
    pub units: u64,
}

/// `units` ten-thousandths are exactly `magnitude / 10^scale`.
pub open spec fn same_quantity(units: int, magnitude: int, scale: nat) -> bool {
    units * pow(10, scale) == magnitude * pow(10, FRACTION_DIGITS as nat)
}

/// The amount with sign bit `negative` that equals `magnitude / 10^scale`, if that quantity is a
/// whole number of ten-thousandths that fits in a `u64`.
pub open spec fn amount_of(negative: bool, magnitude: int, scale: nat) -> Option<Amount> {
    if exists|u: int| 0 <= u <= u64::MAX && #[trigger] same_quantity(u, magnitude, scale) {
        let u = choose|u: int| 0 <= u <= u64::MAX && #[trigger] same_quantity(u, magnitude, scale);
        Some(Amount { negative, units: u as u64 })
    } else {
        None
    }
}

/// At most one count of ten-thousandths equals a given decimal.
pub proof fn lemma_amount_of(negative: bool, magnitude: int, scale: nat, units: u64)
    requires
        same_quantity(units as int, magnitude, scale),
    ensures
        amount_of(negative, magnitude, scale) == Some(Amount { negative, units }),
{
    let u = choose|u: int| 0 <= u <= u64::MAX && #[trigger] same_quantity(u, magnitude, scale);
    let p = pow(10, scale);
    lemma_pow_positive(10, scale);
    assert(p * u == p * units) by (nonlinear_arith)
        requires
            u * p == magnitude * pow(10, FRACTION_DIGITS as nat),
            units * p == magnitude * pow(10, FRACTION_DIGITS as nat),
    ;
    lemma_mul_equality_converse(p, u, units as int);
}

impl Amount {
    /// An amount is valid for a transaction when its sign is not negative: zero or positive.
    pub open spec fn is_valid(self) -> bool {
        !self.negative
    }

    /// The signed value, in ten-thousandths (a negative zero is zero).
    pub open spec fn value(self) -> int {
        if self.negative {
            -(self.units as int)
        } else {
            self.units as int
        }
    }

    pub fn new(negative: bool, units: u64) -> (r: Self)
        ensures
            r == (Amount { negative, units }),
    {
        Amount { negative, units }
    }

    /// A non-negative amount of `units` ten-thousandths.
    pub fn from_units(units: u64) -> (r: Self)
        ensures
            r == (Amount { negative: false, units }),
    {
        Amount { negative: false, units }
    }

    /// Whether the sign bit is set, as on a negative amount or a negative zero.
    pub fn is_sign_negative(&self) -> (r: bool)
        ensures
            r == self.negative,
            r == !self.is_valid(),
    {
        self.negative
    }

    pub fn units(&self) -> (r: u64)
        ensures
            r == self.units,
    {
        self.units
    }

    /// The amount equal to the decimal `magnitude / 10^scale` with the given sign bit, when that
    /// quantity is a whole number of ten-thousandths that fits in a `u64`.
    pub fn from_parts(negative: bool, magnitude: u128, scale: u32) -> (r: Option<Self>)
        ensures
            r matches Some(a) ==> a.negative == negative && same_quantity(
                a.units as int,
                magnitude as int,
                scale as nat,
            ),
            r is None ==> forall|u: int|
                0 <= u <= u64::MAX ==> !#[trigger] same_quantity(u, magnitude as int, scale as nat),
            r == amount_of(negative, magnitude as int, scale as nat),
    {
        proof {
            lemma_pow_positive(10, scale as nat);
            lemma_pow_positive(10, FRACTION_DIGITS as nat);
            lemma_pow0(10);
        }
        if scale <= FRACTION_DIGITS {
            let k: u32 = FRACTION_DIGITS - scale;
            let mut factor: u128 = 1;
            let mut i: u32 = 0;
            while i < k
                invariant
                    i <= k,
                    k <= FRACTION_DIGITS,
                    factor == pow(10, i as nat),
                decreases k - i,
            {
                proof {
                    lemma_pow_adds(10, i as nat, 1);
                    lemma_pow1(10);
                    lemma_pow_positive(10, i as nat);
                    assert(pow(10, i as nat) <= 1000) by {
                        lemma_pow_increases_to(i as nat);
                    }
                }
                factor = factor * 10;
                i = i + 1;
            }
            proof {
                lemma_pow_adds(10, k as nat, scale as nat);
                assert(k as nat + scale as nat == FRACTION_DIGITS as nat);
            }
            let whole = magnitude.checked_mul(factor);
            match whole {
                Some(w) if w <= u64::MAX as u128 => {
                    let units = w as u64;
                    proof {
                        let ghost m = magnitude as int;
                        let ghost f = pow(10, k as nat);
                        let ghost p = pow(10, scale as nat);
                        assert((m * f) * p == m * (f * p)) by (nonlinear_arith);
                        lemma_amount_of(negative, m, scale as nat, units);
                    }
                    Some(Amount { negative, units })
                },
                _ => {
                    proof {
                        let ghost m = magnitude as int;
                        let ghost f = pow(10, k as nat);
                        let ghost p = pow(10, scale as nat);
                        assert((m * f) * p == m * (f * p)) by (nonlinear_arith);
                        assert(m * f > u64::MAX);
                        assert forall|u: int|
                            0 <= u <= u64::MAX implies !#[trigger] same_quantity(
                                u,
                                m,
                                scale as nat,
                            ) by {
                            if same_quantity(u, m, scale as nat) {
                                assert(p * u == p * (m * f)) by (nonlinear_arith)
                                    requires
                                        u * p == (m * f) * p,
                                ;
                                lemma_mul_equality_converse(p, u, m * f);
                            }
                        }
                    }
                    None
                },
            }
        } else {
            let k: u32 = scale - FRACTION_DIGITS;
            let mut rest: u128 = magnitude;
            let mut i: u32 = 0;
            while i < k && rest != 0
                invariant
                    i <= k,
                    k == scale - FRACTION_DIGITS,
                    magnitude as int == rest as int * pow(10, i as nat),
                decreases k - i,
            {
                if rest % 10 != 0 {
                    proof {
                        lemma_not_whole(magnitude as int, rest as int, i as nat, scale as nat);
                    }
                    return None;
                }
                proof {
                    lemma_pow_adds(10, i as nat, 1);
                    lemma_pow1(10);
                    let ghost q = rest as int / 10;
                    assert(rest as int == q * 10);
                    assert(q * 10 * pow(10, i as nat) == q * (pow(10, i as nat) * 10))
                        by (nonlinear_arith);
                }
                rest = rest / 10;
                i = i + 1;
            }
            if rest > u64::MAX as u128 {
                proof {
                    lemma_too_large(magnitude as int, rest as int, scale as nat);
                }
                return None;
            }
            proof {
                if rest == 0 {
                    assert(same_quantity(0, magnitude as int, scale as nat)) by {
                        assert(magnitude == 0) by (nonlinear_arith)
                            requires
                                magnitude as int == rest as int * pow(10, i as nat),
                                rest == 0,
                        ;
                        let ghost p = pow(10, scale as nat);
                        let ghost d = pow(10, FRACTION_DIGITS as nat);
                        assert(0 * p == 0 * d) by (nonlinear_arith);
                    }
                } else {
                    lemma_pow_adds(10, k as nat, FRACTION_DIGITS as nat);
                    let ghost r = rest as int;
                    let ghost f = pow(10, k as nat);
                    let ghost d = pow(10, FRACTION_DIGITS as nat);
                    assert(r * (f * d) == (r * f) * d) by (nonlinear_arith);
                }
                lemma_amount_of(negative, magnitude as int, scale as nat, rest as u64);
            }
            Some(Amount { negative, units: rest as u64 })
        }
    }
}

proof fn lemma_pow_increases_to(i: nat)
    requires
        i < FRACTION_DIGITS,
    ensures
        pow(10, i) <= 1000,
{
    reveal_with_fuel(pow, 4);
}

/// A magnitude that leaves a remainder after fewer than `scale - FRACTION_DIGITS` divisions by
/// ten is no whole number of ten-thousandths.
proof fn lemma_not_whole(magnitude: int, rest: int, i: nat, scale: nat)
    requires
        FRACTION_DIGITS < scale,
        i < scale - FRACTION_DIGITS,
        rest >= 0,
        magnitude == rest * pow(10, i),
        rest % 10 != 0,
    ensures
        forall|u: int| 0 <= u <= u64::MAX ==> !#[trigger] same_quantity(u, magnitude, scale),
{
    let j = (scale - FRACTION_DIGITS - i - 1) as nat;
    let d = FRACTION_DIGITS as nat;
    assert(scale == j + 1 + i + d);
    lemma_pow_adds(10, j + 1, i + d);
    lemma_pow_adds(10, i, d);
    lemma_pow_adds(10, j, 1);
    lemma_pow1(10);
    lemma_pow_positive(10, i + d);
    assert forall|u: int| 0 <= u <= u64::MAX implies !#[trigger] same_quantity(u, magnitude, scale) by {
        if same_quantity(u, magnitude, scale) {
            let pj = pow(10, j);
            let pid = pow(10, i + d);
            assert(u * (pj * 10 * pid) == rest * pid) by (nonlinear_arith)
                requires
                    u * pow(10, scale) == magnitude * pow(10, d),
                    pow(10, scale) == pow(10, j + 1) * pid,
                    pow(10, j + 1) == pj * 10,
                    magnitude == rest * pow(10, i),
                    pid == pow(10, i) * pow(10, d),
            ;
            assert(pid * (u * pj * 10) == pid * rest) by (nonlinear_arith)
                requires
                    u * (pj * 10 * pid) == rest * pid,
            ;
            lemma_mul_equality_converse(pid, u * pj * 10, rest);
            lemma_mod_multiples_basic(u * pj, 10);
        }
    }
}

/// A magnitude that is a whole number of ten-thousandths too large for a `u64` has no `u64`
/// count of ten-thousandths.
proof fn lemma_too_large(magnitude: int, rest: int, scale: nat)
    requires
        FRACTION_DIGITS < scale,
        rest > u64::MAX,
        magnitude == rest * pow(10, (scale - FRACTION_DIGITS) as nat),
    ensures
        forall|u: int| 0 <= u <= u64::MAX ==> !#[trigger] same_quantity(u, magnitude, scale),
{
    let k = (scale - FRACTION_DIGITS) as nat;
    let d = FRACTION_DIGITS as nat;
    lemma_pow_adds(10, k, d);
    lemma_pow_positive(10, scale);
    assert forall|u: int| 0 <= u <= u64::MAX implies !#[trigger] same_quantity(u, magnitude, scale) by {
        if same_quantity(u, magnitude, scale) {
            let p = pow(10, scale);
            assert(p * u == p * rest) by (nonlinear_arith)
                requires
                    u * p == magnitude * pow(10, d),
                    p == pow(10, k) * pow(10, d),
                    magnitude == rest * pow(10, k),
            ;
            lemma_mul_equality_converse(p, u, rest);
        }
    }
}

} // verus!
