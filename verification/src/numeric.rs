//! Small verified numeric utilities: truncating division with remainder,
//! movable points, and a boxed value.

use vstd::prelude::*;
use vstd::string::StringExecFns;
use crate::publisher::trunc_div;

verus! {

/// Quotient and remainder of truncating division: the remainder carries
/// the dividend's sign and is smaller in magnitude than the divisor, which
/// pins both results uniquely.
pub fn divide_with_remainder(dividend: i32, divisor: i32) -> (r: (i32, i32))
    requires
        divisor != 0,
        !(dividend == i32::MIN && divisor == -1),
    ensures
        dividend == divisor * r.0 + r.1,
        if divisor >= 0 {
            -divisor < r.1 < divisor
        } else {
            divisor < r.1 < -divisor
        },
        r.1 != 0 ==> ((r.1 > 0) == (dividend > 0)),
{
    let d64: i64 = dividend as i64;
    let e64: i64 = divisor as i64;
    let dm: u64 = if d64 < 0 {
        (-d64) as u64
    } else {
        d64 as u64
    };
    let em: u64 = if e64 < 0 {
        (-e64) as u64
    } else {
        e64 as u64
    };
    let qm: u64 = dm / em;
    let rm: u64 = dm % em;
    proof {
        vstd::arithmetic::div_mod::lemma_fundamental_div_mod(dm as int, em as int);
        vstd::arithmetic::div_mod::lemma_mod_bound(dm as int, em as int);
        assert(qm <= dm) by (nonlinear_arith)
            requires
                qm == dm / em,
                em >= 1,
        ;
        if qm == dm && dm > 0 {
            assert(em == 1) by (nonlinear_arith)
                requires
                    dm == em * qm + rm,
                    qm == dm,
                    dm > 0,
                    0 <= rm < em,
            ;
        }
    }
    let flip: bool = (d64 < 0) != (e64 < 0);
    proof {
        if qm == 0x8000_0000u64 {
            // only i32::MIN divided by one reaches this magnitude
            assert(em == 1 && dm == 0x8000_0000u64) by (nonlinear_arith)
                requires
                    dm == em * qm + rm,
                    qm == 0x8000_0000u64,
                    dm <= 0x8000_0000u64,
                    0 <= rm < em,
                    em >= 1,
            ;
        }
    }
    let q64: i64 = if flip {
        -(qm as i64)
    } else {
        qm as i64
    };
    let r64: i64 = if d64 < 0 {
        -(rm as i64)
    } else {
        rm as i64
    };
    proof {
        assert(d64 == e64 * q64 + r64) by (nonlinear_arith)
            requires
                dm == em * qm + rm,
                dm == (if d64 < 0 { -(d64 as int) } else { d64 as int }),
                em == (if e64 < 0 { -(e64 as int) } else { e64 as int }),
                q64 == (if (d64 < 0) != (e64 < 0) { -(qm as int) } else { qm as int }),
                r64 == (if d64 < 0 { -(rm as int) } else { rm as int }),
        ;
    }
    let q: i32 = q64 as i32;
    let rem: i32 = r64 as i32;
    proof {
        assert(dividend == divisor * q + rem) by (nonlinear_arith)
            requires
                d64 == e64 * q64 + r64,
                d64 == dividend as int,
                e64 == divisor as int,
                q == q64 as int,
                rem == r64 as int,
        ;
    }
    (q, rem)
}

/// A point in the plane.
pub struct Point<T> {
    pub x: T,
    pub y: T,
}

impl Point<i64> {
    /// Moves the point by an offset.
    pub fn move_point(&mut self, x: i64, y: i64)
        requires
            i64::MIN <= old(self).x + x <= i64::MAX,
            i64::MIN <= old(self).y + y <= i64::MAX,
        ensures
            final(self).x == old(self).x + x,
            final(self).y == old(self).y + y,
    {
        self.x = self.x + x;
        self.y = self.y + y;
    }
}

impl Point<String> {
    /// Moves the point by appending coordinate text.
    pub fn move_point_str(&mut self, x: &str, y: &str)
        ensures
            final(self).x@ == old(self).x@ + x@,
            final(self).y@ == old(self).y@ + y@,
    {
        self.x.append(x);
        self.y.append(y);
    }
}

/// A position in three dimensions.
pub struct Position(pub i32, pub i32, pub i32);

impl Position {
    /// A copy with every coordinate doubled.
    pub fn twice(&self) -> (r: Position)
        requires
            i32::MIN <= 2 * self.0 <= i32::MAX,
            i32::MIN <= 2 * self.1 <= i32::MAX,
            i32::MIN <= 2 * self.2 <= i32::MAX,
        ensures
            r.0 == 2 * self.0,
            r.1 == 2 * self.1,
            r.2 == 2 * self.2,
    {
        Position(self.0 * 2, self.1 * 2, self.2 * 2)
    }

    /// Doubles every coordinate in place.
    pub fn make_twice(&mut self)
        requires
            i32::MIN <= 2 * old(self).0 <= i32::MAX,
            i32::MIN <= 2 * old(self).1 <= i32::MAX,
            i32::MIN <= 2 * old(self).2 <= i32::MAX,
        ensures
            final(self).0 == 2 * old(self).0,
            final(self).1 == 2 * old(self).1,
            final(self).2 == 2 * old(self).2,
    {
        self.0 = self.0 * 2;
        self.1 = self.1 * 2;
        self.2 = self.2 * 2;
    }

    /// The origin.
    pub fn zero() -> (r: Position)
        ensures
            r.0 == 0 && r.1 == 0 && r.2 == 0,
    {
        Position(0, 0, 0)
    }
}

/// A single owned value behind a name.
pub struct BoxedValue<T> {
    pub value: T,
}

impl<T> BoxedValue<T> {
    /// Wraps a value.
    pub fn new(value: T) -> (r: BoxedValue<T>)
        ensures
            r.value == value,
    {
        BoxedValue { value }
    }
}

} // verus!
