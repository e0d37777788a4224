//! A two's-complement fixed-point number with 32 fractional bits.
use vstd::prelude::*;
use crate::scalar::{add_is_associative, zero_is_left_identity, Scalar};

verus! {

/// The raw value that stands for the number one.
pub const ONE_RAW: i64 = 0x1_0000_0000;

/// A signed fixed-point number: `raw / 2^32`.
///
/// Arithmetic is modular: a result that leaves the 64-bit range wraps
/// around, as two's-complement integers do. Products are rounded down to
/// the next representable value before they wrap.
#[derive(Clone, Copy, Debug)]
pub struct Fixed {
    pub raw: i64,
}

/// The 64-bit two's-complement value congruent to `x` modulo `2^64`.
pub open spec fn wrap(x: int) -> i64 {
    let u = x % 0x1_0000_0000_0000_0000;
    if u >= 0x8000_0000_0000_0000 {
        (u - 0x1_0000_0000_0000_0000) as i64
    } else {
        u as i64
    }
}

fn wrap_wide(x: i128) -> (r: i64)
    requires
        -0x1_0000_0000_0000_0000_0000_0000 <= x <= 0x1_0000_0000_0000_0000_0000_0000,
    ensures
        r == wrap(x as int),
{
    let lifted: i128 = x + 0x1_0000_0000_0000_0000_0000_0000;
    let low: i128 = lifted % 0x1_0000_0000_0000_0000;
    if low >= 0x8000_0000_0000_0000 {
        (low - 0x1_0000_0000_0000_0000) as i64
    } else {
        low as i64
    }
}

impl Fixed {
    /// The number `value / 2^32`.
    pub fn from_raw(value: i64) -> (r: Fixed)
        ensures
            r.raw == value,
    {
        Fixed { raw: value }
    }

    /// The whole number `value`.
    pub fn from_int(value: i32) -> (r: Fixed)
        ensures
            r.raw == value * ONE_RAW,
    {
        Fixed { raw: (value as i64) * ONE_RAW }
    }
}

impl Scalar for Fixed {
    open spec fn zero_spec() -> Self {
        Fixed { raw: 0 }
    }

    open spec fn one_spec() -> Self {
        Fixed { raw: ONE_RAW }
    }

    open spec fn add_spec(self, rhs: Self) -> Self {
        Fixed { raw: wrap(self.raw + rhs.raw) }
    }

    open spec fn sub_spec(self, rhs: Self) -> Self {
        Fixed { raw: wrap(self.raw - rhs.raw) }
    }

    open spec fn mul_spec(self, rhs: Self) -> Self {
        Fixed { raw: wrap((self.raw * rhs.raw) / 0x1_0000_0000int) }
    }

    open spec fn is_positive_spec(self) -> bool {
        self.raw > 0
    }

    open spec fn reciprocal_spec(count: usize) -> Self {
        Fixed { raw: (0x1_0000_0000int / (count as int)) as i64 }
    }

    open spec fn unit_spec(word: u32) -> Self {
        Fixed { raw: word as i64 }
    }

    open spec fn in_unit_interval(self) -> bool {
        0 <= self.raw < ONE_RAW
    }

    fn zero() -> (r: Self) {
        Fixed { raw: 0 }
    }

    fn one() -> (r: Self) {
        Fixed { raw: ONE_RAW }
    }

    fn add(self, rhs: Self) -> (r: Self) {
        Fixed { raw: wrap_wide(self.raw as i128 + rhs.raw as i128) }
    }

    fn sub(self, rhs: Self) -> (r: Self) {
        Fixed { raw: wrap_wide(self.raw as i128 - rhs.raw as i128) }
    }

    fn mul(self, rhs: Self) -> (r: Self) {
        let a: i128 = self.raw as i128;
        let b: i128 = rhs.raw as i128;
        assert(-0x4000_0000_0000_0000_0000_0000_0000_0000 <= a * b
            <= 0x4000_0000_0000_0000_0000_0000_0000_0000) by (nonlinear_arith)
            requires
                -0x8000_0000_0000_0000 <= a <= 0x7fff_ffff_ffff_ffff,
                -0x8000_0000_0000_0000 <= b <= 0x7fff_ffff_ffff_ffff,
        ;
        let product: i128 = a * b;
        let quotient: i128 = if product >= 0 {
            product / 0x1_0000_0000
        } else {
            -((-product + 0xffff_ffff) / 0x1_0000_0000)
        };
        Fixed { raw: wrap_wide(quotient) }
    }

    fn is_positive(self) -> (b: bool) {
        self.raw > 0
    }

    fn reciprocal(count: usize) -> (r: Self) {
        Fixed { raw: (0x1_0000_0000u64 / (count as u64)) as i64 }
    }

    fn unit(word: u32) -> (r: Self) {
        Fixed { raw: word as i64 }
    }
}

/// Wrapping takes away a multiple of `2^64`, which the result names.
proof fn lemma_wrap_offset(x: int) -> (k: int)
    ensures
        wrap(x) == x + 0x1_0000_0000_0000_0000 * k,
{
    vstd::arithmetic::div_mod::lemma_fundamental_div_mod(x, 0x1_0000_0000_0000_0000);
    let q = x / 0x1_0000_0000_0000_0000;
    if x % 0x1_0000_0000_0000_0000 >= 0x8000_0000_0000_0000 {
        -q - 1
    } else {
        -q
    }
}

/// Wrapping does not see a multiple of `2^64`.
proof fn lemma_wrap_shift(x: int, k: int)
    ensures
        wrap(x + 0x1_0000_0000_0000_0000 * k) == wrap(x),
{
    vstd::arithmetic::div_mod::lemma_mod_multiples_vanish(k, x, 0x1_0000_0000_0000_0000);
    assert(0x1_0000_0000_0000_0000 * k + x == x + 0x1_0000_0000_0000_0000 * k);
}

/// Modular addition can be regrouped, and adding to zero changes nothing:
/// sums of fixed-point numbers do not depend on how they are bracketed.
pub proof fn lemma_fixed_sums_regroup()
    ensures
        add_is_associative::<Fixed>(),
        zero_is_left_identity::<Fixed>(),
{
    assert forall|a: Fixed, b: Fixed, c: Fixed| #[trigger]
        a.add_spec(b).add_spec(c) == a.add_spec(b.add_spec(c)) by {
        let whole = a.raw + b.raw + c.raw;
        let k1 = lemma_wrap_offset(a.raw + b.raw);
        lemma_wrap_shift(whole, k1);
        assert(wrap(a.raw + b.raw) + c.raw == whole + 0x1_0000_0000_0000_0000 * k1);
        let k2 = lemma_wrap_offset(b.raw + c.raw);
        lemma_wrap_shift(whole, k2);
        assert(a.raw + wrap(b.raw + c.raw) == whole + 0x1_0000_0000_0000_0000 * k2);
    }
    assert forall|a: Fixed| #[trigger] Fixed::zero_spec().add_spec(a) == a by {
        assert(wrap(0 + a.raw) == a.raw);
    }
}

} // verus!
