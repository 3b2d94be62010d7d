use vstd::prelude::*;

verus! {

/// A percentage held exactly: `part` out of `whole`, read as
/// `part / whole * 100`, and as zero when `whole` is zero.
#[derive(Clone, Copy, Debug, PartialEq, Eq, Structural)]
pub struct Share {
    pub part: u64,
    pub whole: u64,
}

/// Numerator of the share as a fraction of one.
pub open spec fn share_num(s: Share) -> int {
    if s.whole == 0 {
        0
    } else {
        s.part as int
    }
}

/// Denominator of the share as a fraction of one (never zero).
pub open spec fn share_den(s: Share) -> int {
    if s.whole == 0 {
        1
    } else {
        s.whole as int
    }
}

/// `a` stands for a strictly smaller percentage than `b`.
pub open spec fn share_lt(a: Share, b: Share) -> bool {
    share_num(a) * share_den(b) < share_num(b) * share_den(a)
}

/// The percentage is exactly zero.
pub open spec fn share_is_zero(s: Share) -> bool {
    share_num(s) == 0
}

/// The percentage rounded to hundredths of a percent, halves away from zero.
pub open spec fn hundredths_of(s: Share) -> int {
    (share_num(s) * 20000 + share_den(s)) / (2 * share_den(s))
}

impl Share {
    /// The zero percentage.
    pub fn zero() -> (r: Share)
        ensures
            r.part == 0,
            r.whole == 0,
            share_is_zero(r),
    {
        Share { part: 0, whole: 0 }
    }

    /// Whether `self` stands for a strictly smaller percentage than `other`.
    pub fn is_less_than(&self, other: &Share) -> (r: bool)
        ensures
            r == share_lt(*self, *other),
    {
        let an: u128 = if self.whole == 0 { 0 } else { self.part as u128 };
        let ad: u128 = if self.whole == 0 { 1 } else { self.whole as u128 };
        let bn: u128 = if other.whole == 0 { 0 } else { other.part as u128 };
        let bd: u128 = if other.whole == 0 { 1 } else { other.whole as u128 };
        proof {
            assert(an * bd <= 0xffff_ffff_ffff_ffff * 0xffff_ffff_ffff_ffff) by (nonlinear_arith)
                requires
                    an <= 0xffff_ffff_ffff_ffff,
                    bd <= 0xffff_ffff_ffff_ffff,
            ;
            assert(bn * ad <= 0xffff_ffff_ffff_ffff * 0xffff_ffff_ffff_ffff) by (nonlinear_arith)
                requires
                    bn <= 0xffff_ffff_ffff_ffff,
                    ad <= 0xffff_ffff_ffff_ffff,
            ;
        }
        an * bd < bn * ad
    }

    /// The percentage in hundredths of a percent, rounded half up:
    /// `Share { part: 1, whole: 3 }` gives 3333.
    pub fn hundredths(&self) -> (r: u128)
        ensures
            r as int == hundredths_of(*self),
    {
        let n: u128 = if self.whole == 0 { 0 } else { self.part as u128 };
        let d: u128 = if self.whole == 0 { 1 } else { self.whole as u128 };
        proof {
            assert(n * 20000 <= 0xffff_ffff_ffff_ffff * 20000) by (nonlinear_arith)
                requires
                    n <= 0xffff_ffff_ffff_ffff,
            ;
        }
        (n * 20000 + d) / (2 * d)
    }
}

} // verus!
