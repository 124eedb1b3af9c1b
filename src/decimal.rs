//! Fixed-point decimal numbers: a signed 96-bit integer scaled by a power of
//! ten, compared by the number they denote.
use vstd::arithmetic::div_mod::{lemma_fundamental_div_mod_converse, lemma_mul_mod_noop_general};
use vstd::arithmetic::mul::lemma_mul_equality_converse;
use vstd::prelude::*;

use crate::hashing::word;

verus! {

/// The largest magnitude of a mantissa: 2^96 - 1.
pub const MAX_MANTISSA: i128 = 0xFFFF_FFFF_FFFF_FFFF_FFFF_FFFF;

/// The largest scale: 28 decimal places.
pub const MAX_SCALE: u32 = 28;

pub open spec fn pow10(n: nat) -> int
    decreases n,
{
    if n == 0 {
        1
    } else {
        10 * pow10((n - 1) as nat)
    }
}

/// Whether `m / 10^s` and `n / 10^t` are the same number.
pub open spec fn same_number(m: int, s: nat, n: int, t: nat) -> bool {
    m * pow10(t) == n * pow10(s)
}

/// Ten to the power `a + b` is the product of the two powers.
pub proof fn lemma_pow10_add(a: nat, b: nat)
    ensures
        pow10(a + b) == pow10(a) * pow10(b),
    decreases a,
{
    if a > 0 {
        lemma_pow10_add((a - 1) as nat, b);
        assert(pow10(a + b) == 10 * pow10((a - 1 + b) as nat));
        assert(10 * (pow10((a - 1) as nat) * pow10(b)) == (10 * pow10((a - 1) as nat)) * pow10(b))
            by (nonlinear_arith);
    }
}

pub proof fn lemma_pow10_positive(a: nat)
    ensures
        pow10(a) > 0,
    decreases a,
{
    if a > 0 {
        lemma_pow10_positive((a - 1) as nat);
    }
}

/// The hash of `m / 10^s`: the number scaled to 28 places, modulo 2^64.
pub open spec fn decimal_hash(m: int, s: nat) -> u64 {
    ((m * pow10((28 - s) as nat)) % word()) as u64
}

/// Numbers that are the same hash the same, whatever their scales.
pub proof fn lemma_decimal_hash_consistent(m: int, s: nat, n: int, t: nat)
    requires
        s <= 28,
        t <= 28,
        same_number(m, s, n, t),
    ensures
        decimal_hash(m, s) == decimal_hash(n, t),
{
    let x = m * pow10((28 - s) as nat);
    let y = n * pow10((28 - t) as nat);
    lemma_pow10_add((28 - s) as nat, s);
    lemma_pow10_add((28 - t) as nat, t);
    let big = pow10(28);
    let ps = pow10(s);
    let pt = pow10(t);
    assert(((28 - s) as nat + s) as nat == 28);
    assert(((28 - t) as nat + t) as nat == 28);
    assert(x * ps == m * big) by (nonlinear_arith)
        requires
            x == m * pow10((28 - s) as nat),
            big == pow10((28 - s) as nat) * ps,
    ;
    assert(y * pt == n * big) by (nonlinear_arith)
        requires
            y == n * pow10((28 - t) as nat),
            big == pow10((28 - t) as nat) * pt,
    ;
    assert(x * (ps * pt) == y * (ps * pt)) by (nonlinear_arith)
        requires
            x * ps == m * big,
            y * pt == n * big,
            m * pt == n * ps,
    ;
    lemma_pow10_positive(s);
    lemma_pow10_positive(t);
    assert(ps * pt > 0) by (nonlinear_arith)
        requires
            ps > 0,
            pt > 0,
    ;
    lemma_mul_equality_converse(ps * pt, x, y);
}

/// Relies on `rust_decimal::Decimal::from_i128_with_scale`, which builds
/// `m / 10^s` for a mantissa and scale in range, and on the `PartialEq` of
/// `rust_decimal::Decimal`, which compares the numbers, not their scales.
#[verifier::external_body]
fn rust_decimal_eq(m: i128, s: u32, n: i128, t: u32) -> (r: bool)
    requires
        -MAX_MANTISSA <= m <= MAX_MANTISSA,
        -MAX_MANTISSA <= n <= MAX_MANTISSA,
        s <= MAX_SCALE,
        t <= MAX_SCALE,
    ensures
        r == same_number(m as int, s as nat, n as int, t as nat),
{
    rust_decimal::Decimal::from_i128_with_scale(m, s) == rust_decimal::Decimal::from_i128_with_scale(
        n,
        t,
    )
}

/// The number `mantissa / 10^scale`.
#[derive(Debug, Clone, Copy)]
pub struct Decimal {
    mantissa: i128,
    scale: u32,
}

impl Decimal {
    pub closed spec fn spec_mantissa(&self) -> int {
        self.mantissa as int
    }

    pub closed spec fn spec_scale(&self) -> nat {
        self.scale as nat
    }

    /// The mantissa fits in 96 bits and the scale is at most 28.
    #[verifier::type_invariant]
    pub closed spec fn wf(&self) -> bool {
        -MAX_MANTISSA <= self.mantissa <= MAX_MANTISSA && self.scale <= MAX_SCALE
    }

    /// The number `num / 10^scale`.
    pub fn new(num: i64, scale: u32) -> (r: Decimal)
        requires
            scale <= MAX_SCALE,
        ensures
            r.spec_mantissa() == num as int,
            r.spec_scale() == scale as nat,
    {
        Decimal { mantissa: num as i128, scale }
    }

    /// The number `num / 10^scale`, if the mantissa fits in 96 bits and the
    /// scale is at most 28.
    pub fn try_from_i128_with_scale(num: i128, scale: u32) -> (r: Option<Decimal>)
        ensures
            r is Some <==> (-MAX_MANTISSA <= num <= MAX_MANTISSA && scale <= MAX_SCALE),
            r is Some ==> r->Some_0.spec_mantissa() == num as int
                && r->Some_0.spec_scale() == scale as nat,
    {
        if scale > MAX_SCALE || num > MAX_MANTISSA || num < -MAX_MANTISSA {
            None
        } else {
            Some(Decimal { mantissa: num, scale })
        }
    }

    pub fn mantissa(&self) -> (r: i128)
        ensures
            r as int == self.spec_mantissa(),
    {
        self.mantissa
    }

    pub fn scale(&self) -> (r: u32)
        ensures
            r as nat == self.spec_scale(),
            r <= MAX_SCALE,
    {
        proof {
            use_type_invariant(self);
        }
        self.scale
    }

    /// A hash that decimals denoting the same number share.
    pub fn hash_code(&self) -> (r: u64)
        ensures
            r == decimal_hash(self.spec_mantissa(), self.spec_scale()),
    {
        proof {
            use_type_invariant(self);
        }
        let w: u128 = 0x1_0000_0000_0000_0000u128;
        let steps: u32 = MAX_SCALE - self.scale;
        let mut p: u128 = 1;
        let mut k: u32 = 0;
        while k < steps
            invariant
                k <= steps,
                w == word(),
                p == pow10(k as nat) % word(),
            decreases steps - k,
        {
            proof {
                lemma_mul_mod_noop_general(pow10(k as nat), 10, word());
                assert(pow10((k + 1) as nat) == pow10(k as nat) * 10);
            }
            p = (p * 10) % w;
            k = k + 1;
        }
        let m = self.mantissa;
        let mm: u128 = if m >= 0 {
            (m as u128) % w
        } else {
            let a: u128 = ((-m) as u128) % w;
            proof {
                let q = (-m) as int / word();
                lemma_fundamental_div_mod_converse(-m as int, word(), q, a as int);
                if a > 0 {
                    assert(m as int == (-q - 1) * word() + (word() - a)) by (nonlinear_arith)
                        requires
                            -m as int == q * word() + a,
                    ;
                    lemma_fundamental_div_mod_converse(m as int, word(), -q - 1, word() - a);
                } else {
                    assert(m as int == (-q) * word() + 0) by (nonlinear_arith)
                        requires
                            -m as int == q * word() + a,
                            a == 0,
                    ;
                    lemma_fundamental_div_mod_converse(m as int, word(), -q, 0);
                }
            }
            if a == 0 {
                0
            } else {
                w - a
            }
        };
        assert(mm == (m as int) % word());
        proof {
            lemma_mul_mod_noop_general(m as int, pow10(steps as nat), word());
            assert(mm * p < 0x1_0000_0000_0000_0000_0000_0000_0000_0000) by (nonlinear_arith)
                requires
                    mm < 0x1_0000_0000_0000_0000,
                    p < 0x1_0000_0000_0000_0000,
            ;
        }
        ((mm * p) % w) as u64
    }

    /// Whether the two denote the same number, whatever their scales.
    pub fn equals(&self, other: &Decimal) -> (r: bool)
        ensures
            r == same_number(
                self.spec_mantissa(),
                self.spec_scale(),
                other.spec_mantissa(),
                other.spec_scale(),
            ),
    {
        proof {
            use_type_invariant(self);
            use_type_invariant(other);
        }
        rust_decimal_eq(self.mantissa, self.scale, other.mantissa, other.scale)
    }
}

} // verus!
