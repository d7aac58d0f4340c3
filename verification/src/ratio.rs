//! Shares of a whole, compared exactly.

use vstd::prelude::*;

verus! {

/// A share: `num` parts of `den`.
#[derive(Debug, Clone, Copy, PartialEq, Eq, Structural)]
pub struct Ratio {
    pub num: i64,
    pub den: i64,
}

/// Whether `num / den` is at least `other_num / other_den`.
pub open spec fn quotient_at_least(num: int, den: int, other_num: int, other_den: int) -> bool {
    if (den > 0) == (other_den > 0) {
        num * other_den >= other_num * den
    } else {
        num * other_den <= other_num * den
    }
}

impl Ratio {
    /// Whether there is a whole to have a share of.
    pub open spec fn wf(self) -> bool {
        self.den != 0
    }

    /// Whether this share is at least `other`.
    pub open spec fn at_least_spec(self, other: Ratio) -> bool {
        quotient_at_least(self.num as int, self.den as int, other.num as int, other.den as int)
    }

    /// Whether this share is at least `other`.
    pub fn at_least(self, other: Ratio) -> (r: bool)
        ensures
            r == self.at_least_spec(other),
    {
        let (a, b, c, d) = (self.num as i128, self.den as i128, other.num as i128, other.den as i128);
        assert(-0x4000_0000_0000_0000_0000_0000_0000_0000 <= a * d
            <= 0x4000_0000_0000_0000_0000_0000_0000_0000) by (nonlinear_arith)
            requires
                -0x8000_0000_0000_0000 <= a <= 0x8000_0000_0000_0000,
                -0x8000_0000_0000_0000 <= d <= 0x8000_0000_0000_0000,
        ;
        assert(-0x4000_0000_0000_0000_0000_0000_0000_0000 <= c * b
            <= 0x4000_0000_0000_0000_0000_0000_0000_0000) by (nonlinear_arith)
            requires
                -0x8000_0000_0000_0000 <= c <= 0x8000_0000_0000_0000,
                -0x8000_0000_0000_0000 <= b <= 0x8000_0000_0000_0000,
        ;
        let left: i128 = a * d;
        let right: i128 = c * b;
        if (self.den > 0) == (other.den > 0) {
            left >= right
        } else {
            left <= right
        }
    }

    /// Whether `part` of `whole` is at least this share.
    pub fn reached_by(self, part: usize, whole: usize) -> (r: bool)
        requires
            self.wf(),
            whole > 0,
        ensures
            r == quotient_at_least(part as int, whole as int, self.num as int, self.den as int),
    {
        let (a, b, c, d) = (part as i128, whole as i128, self.num as i128, self.den as i128);
        assert(-0x7fff_ffff_ffff_ffff_8000_0000_0000_0000 <= a * d
            <= 0x7fff_ffff_ffff_ffff_8000_0000_0000_0000) by (nonlinear_arith)
            requires
                0 <= a <= 0xffff_ffff_ffff_ffff,
                -0x8000_0000_0000_0000 <= d <= 0x8000_0000_0000_0000,
        ;
        assert(-0x7fff_ffff_ffff_ffff_8000_0000_0000_0000 <= c * b
            <= 0x7fff_ffff_ffff_ffff_8000_0000_0000_0000) by (nonlinear_arith)
            requires
                0 <= b <= 0xffff_ffff_ffff_ffff,
                -0x8000_0000_0000_0000 <= c <= 0x8000_0000_0000_0000,
        ;
        let left: i128 = a * d;
        let right: i128 = c * b;
        if self.den > 0 {
            left >= right
        } else {
            left <= right
        }
    }
}

/// Of two shares, one is at least the other.
pub proof fn shares_are_comparable(a: Ratio, b: Ratio)
    requires
        a.wf(),
        b.wf(),
    ensures
        a.at_least_spec(b) || b.at_least_spec(a),
{
}

/// A share that is at least another is at least all that the other is at least.
pub proof fn at_least_is_transitive(a: Ratio, b: Ratio, c: Ratio)
    requires
        a.den > 0,
        b.den > 0,
        c.den > 0,
        a.at_least_spec(b),
        b.at_least_spec(c),
    ensures
        a.at_least_spec(c),
{
    let (an, ad, bn, bd, cn, cd) = (
        a.num as int,
        a.den as int,
        b.num as int,
        b.den as int,
        c.num as int,
        c.den as int,
    );
    assert(an * cd >= cn * ad) by (nonlinear_arith)
        requires
            ad > 0,
            bd > 0,
            cd > 0,
            an * bd >= bn * ad,
            bn * cd >= cn * bd,
    {
        assert(an * bd * cd >= bn * ad * cd);
        assert(bn * cd * ad >= cn * bd * ad);
        assert((an * cd) * bd >= (cn * ad) * bd);
    }
}

} // verus!
