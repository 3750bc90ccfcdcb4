//! The arithmetic of the machine, computed without overflow.

use vstd::prelude::*;
use vstd::arithmetic::div_mod::lemma_fundamental_div_mod;
use crate::interpreter::machine::{quotient, remainder, unsigned64, wide, wrap64};

verus! {

/// Computes [`wrap64`].
pub fn wrap(x: i128) -> (r: i64)
    ensures
        r == wrap64(x as int),
{
    let m: i128 = if x >= 0 {
        x % 0x1_0000_0000_0000_0000
    } else {
        let n: i128 = -(x + 1);
        0xFFFF_FFFF_FFFF_FFFF - n % 0x1_0000_0000_0000_0000
    };
    assert(m == (x as int) % 0x1_0000_0000_0000_0000);
    if m >= 0x8000_0000_0000_0000 {
        (m - 0x1_0000_0000_0000_0000) as i64
    } else {
        m as i64
    }
}

/// The sum of two numbers of 64 bits, as a number of 64 bits.
pub fn wrap_add(a: i64, b: i64) -> (r: i64)
    ensures
        r == wrap64(a + b),
{
    wrap(a as i128 + b as i128)
}

/// The difference of two numbers of 64 bits, as a number of 64 bits.
pub fn wrap_sub(a: i64, b: i64) -> (r: i64)
    ensures
        r == wrap64(a - b),
{
    wrap(a as i128 - b as i128)
}

/// Computes [`unsigned64`].
pub fn to_unsigned(x: i64) -> (r: u64)
    ensures
        r == unsigned64(x),
{
    if x < 0 {
        (x as i128 + 0x1_0000_0000_0000_0000) as u64
    } else {
        x as u64
    }
}

/// The two halves of the product of two numbers of 64 bits: the lower
/// half, and what the product divided by 2^64 rounds down to.
pub fn wide_mul(a: i64, b: i64) -> (r: (i64, i64))
    ensures
        r.0 == wrap64(a * b),
        r.1 == wrap64((a * b) / 0x1_0000_0000_0000_0000),
{
    assert(-0x4000_0000_0000_0000_0000_0000_0000_0000 <= a * b
        <= 0x4000_0000_0000_0000_0000_0000_0000_0000) by (nonlinear_arith)
        requires
            -0x8000_0000_0000_0000 <= a <= 0x7FFF_FFFF_FFFF_FFFF,
            -0x8000_0000_0000_0000 <= b <= 0x7FFF_FFFF_FFFF_FFFF,
    ;
    let product: i128 = a as i128 * b as i128;
    let high: i128 = if product >= 0 {
        product / 0x1_0000_0000_0000_0000
    } else {
        -((-product - 1) / 0x1_0000_0000_0000_0000) - 1
    };
    assert(high == (product as int) / 0x1_0000_0000_0000_0000);
    (wrap(product), wrap(high))
}

/// Computes [`wide`].
pub fn widen(rdx: i64, rax: i64) -> (r: i128)
    ensures
        r == wide(rdx, rax),
{
    if rax >= 0 {
        rdx as i128 * 0x1_0000_0000_0000_0000 + rax as i128
    } else {
        rax as i128
    }
}

/// The size of `x` without its sign.
fn magnitude(x: i128) -> (r: u128)
    ensures
        r == if x >= 0 {
            x as int
        } else {
            -x
        },
{
    if x >= 0 {
        x as u128
    } else {
        (-(x + 1)) as u128 + 1
    }
}

/// Quotient and remainder of a division that rounds towards zero, each as
/// a number of 64 bits; `None` where the processor would not divide.
pub fn divide(dividend: i128, divisor: i64) -> (r: Option<(i64, i64)>)
    ensures
        match r {
            None => divisor == 0 || (dividend == -0x8000_0000_0000_0000_0000_0000_0000_0000
                && divisor == -1),
            Some((q, rem)) => divisor != 0 && !(dividend
                == -0x8000_0000_0000_0000_0000_0000_0000_0000 && divisor == -1) && q == wrap64(
                quotient(dividend as int, divisor as int),
            ) && rem == wrap64(remainder(dividend as int, divisor as int)),
        },
{
    if divisor == 0 {
        return None;
    }
    if dividend == i128::MIN && divisor == -1 {
        return None;
    }
    let a: u128 = magnitude(dividend);
    let b: u128 = magnitude(divisor as i128);
    let q: u128 = a / b;
    let rem: u128 = a % b;
    proof {
        lemma_fundamental_div_mod(a as int, b as int);
        assert(q <= a) by (nonlinear_arith)
            requires
                a == b * q + rem,
                b >= 1,
                rem >= 0,
                q >= 0,
        ;
    }
    assert(q == 0x8000_0000_0000_0000_0000_0000_0000_0000 ==> b == 1 && a
        == 0x8000_0000_0000_0000_0000_0000_0000_0000) by (nonlinear_arith)
        requires
            a == b * q + rem,
            b >= 1,
            rem >= 0,
            a <= 0x8000_0000_0000_0000_0000_0000_0000_0000,
    ;
    let negative = (dividend < 0) != (divisor < 0);
    let ghost exact = quotient(dividend as int, divisor as int);
    assert(exact == if negative {
        -(q as int)
    } else {
        q as int
    });
    assert(remainder(dividend as int, divisor as int) == if dividend < 0 {
        -(rem as int)
    } else {
        rem as int
    }) by (nonlinear_arith)
        requires
            a == b * q + rem,
            a == if dividend >= 0 {
                dividend as int
            } else {
                -dividend
            },
            b == if divisor >= 0 {
                divisor as int
            } else {
                -divisor
            },
            exact == if negative {
                -(q as int)
            } else {
                q as int
            },
            negative == ((dividend < 0) != (divisor < 0)),
            remainder(dividend as int, divisor as int) == dividend - divisor * exact,
    ;
    let signed_q: i128 = if negative {
        if q == 0x8000_0000_0000_0000_0000_0000_0000_0000 {
            i128::MIN
        } else {
            -(q as i128)
        }
    } else {
        q as i128
    };
    let signed_rem: i128 = if dividend < 0 {
        -(rem as i128)
    } else {
        rem as i128
    };
    Some((wrap(signed_q), wrap(signed_rem)))
}

/// The number `x` with its lowest byte replaced by `bit`.
pub fn with_low_byte(x: i64, bit: bool) -> (r: i64)
    ensures
        r == x - x % 256 + if bit {
            1int
        } else {
            0int
        },
{
    let low: i64 = if x >= 0 {
        x % 256
    } else {
        255 - (-(x + 1)) % 256
    };
    assert(low == (x as int) % 256);
    x - low + if bit {
        1
    } else {
        0
    }
}

/// The lowest byte of `x`.
pub fn low_byte(x: i64) -> (r: u8)
    ensures
        r == (x as int) % 256,
{
    let low: i64 = if x >= 0 {
        x % 256
    } else {
        255 - (-(x + 1)) % 256
    };
    assert(low == (x as int) % 256);
    low as u8
}

} // verus!
