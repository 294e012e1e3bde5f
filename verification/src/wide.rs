//! Exact unsigned integers of up to 192 bits, for comparing cross-multiplied scores.
use vstd::prelude::*;

verus! {

/// `2^64`.
pub open spec fn limb() -> int {
    0x1_0000_0000_0000_0000
}

/// The number `hi * 2^64 + lo`.
#[derive(Clone, Copy)]
pub struct Wide {
    pub hi: u128,
    pub lo: u64,
}

impl Wide {
    pub open spec fn value(self) -> int {
        self.hi * limb() + self.lo
    }
}

/// The exact product `a * b`.
pub fn mul_wide(a: u128, b: u64) -> (res: Wide)
    ensures
        res.value() == a * b,
{
    let a1: u128 = a / 0x1_0000_0000_0000_0000u128;
    let a0: u128 = a % 0x1_0000_0000_0000_0000u128;
    assert(a0 < limb() && a1 < limb());
    assert(a0 * b < limb() * limb()) by (nonlinear_arith)
        requires
            a0 < limb(),
            b < limb(),
            0 <= a0,
    ;
    assert(a1 * b <= (limb() - 1) * (limb() - 1)) by (nonlinear_arith)
        requires
            a1 < limb(),
            b < limb(),
            0 <= a1,
    ;
    let p0: u128 = a0 * (b as u128);
    let p1: u128 = a1 * (b as u128);
    let carry: u128 = p0 / 0x1_0000_0000_0000_0000u128;
    let lo: u64 = (p0 % 0x1_0000_0000_0000_0000u128) as u64;
    assert(carry < limb());
    let hi: u128 = p1 + carry;
    let res = Wide { hi, lo };
    assert(res.value() == a * b) by (nonlinear_arith)
        requires
            a == a1 * limb() + a0,
            p0 == a0 * b,
            p1 == a1 * b,
            p0 == carry * limb() + lo,
            hi == p1 + carry,
            res.value() == hi * limb() + lo,
    ;
    res
}

/// The exact sum `x + y`, which must be below `2^192`.
pub fn add_wide(x: Wide, y: Wide) -> (res: Wide)
    requires
        x.value() + y.value() < limb() * limb() * limb(),
    ensures
        res.value() == x.value() + y.value(),
{
    let s: u128 = x.lo as u128 + y.lo as u128;
    let carry: u128 = s / 0x1_0000_0000_0000_0000u128;
    let lo: u64 = (s % 0x1_0000_0000_0000_0000u128) as u64;
    assert(x.hi + y.hi + carry < limb() * limb()) by (nonlinear_arith)
        requires
            x.value() + y.value() < limb() * limb() * limb(),
            x.value() == x.hi * limb() + x.lo,
            y.value() == y.hi * limb() + y.lo,
            s == x.lo + y.lo,
            s == carry * limb() + lo,
            0 <= lo < limb(),
            0 <= x.lo,
            0 <= y.lo,
    ;
    let hi: u128 = x.hi + y.hi + carry;
    Wide { hi, lo }
}

/// Whether `x <= y`.
pub fn le_wide(x: Wide, y: Wide) -> (res: bool)
    ensures
        res == (x.value() <= y.value()),
{
    assert(x.hi < y.hi ==> x.value() < y.value()) by (nonlinear_arith)
        requires
            x.value() == x.hi * limb() + x.lo,
            y.value() == y.hi * limb() + y.lo,
            x.lo < limb(),
            0 <= y.lo,
    ;
    assert(y.hi < x.hi ==> y.value() < x.value()) by (nonlinear_arith)
        requires
            x.value() == x.hi * limb() + x.lo,
            y.value() == y.hi * limb() + y.lo,
            y.lo < limb(),
            0 <= x.lo,
    ;
    x.hi < y.hi || (x.hi == y.hi && x.lo <= y.lo)
}

} // verus!
