//! Machine arithmetic used by the storage calculations: wrapping 64-bit
//! offsets and division that truncates toward zero.
use vstd::prelude::*;

verus! {

/// Two to the power 64, the number of distinct offsets.
pub open spec fn pow64() -> int {
    0x1_0000_0000_0000_0000
}

/// Quotient of `a` by a positive `b`, rounded toward zero.
pub open spec fn tdiv(a: int, b: int) -> int {
    if a >= 0 {
        a / b
    } else {
        -((-a) / b)
    }
}

/// Remainder of `a` by a positive `b`, with the sign of `a`.
pub open spec fn tmod(a: int, b: int) -> int {
    if a >= 0 {
        a % b
    } else {
        -((-a) % b)
    }
}

/// `off + n`, wrapped to the 64-bit range; `n` is at most one turn away.
pub open spec fn wadd(off: u64, n: int) -> u64 {
    if off + n >= pow64() {
        (off + n - pow64()) as u64
    } else if off + n < 0 {
        (off + n + pow64()) as u64
    } else {
        (off + n) as u64
    }
}

/// Offset of the last byte of the `sz` bytes that start at `off`.
pub open spec fn last_byte(off: u64, sz: int) -> u64 {
    wadd(off, sz - 1)
}

pub fn trunc_div(a: i64, b: i64) -> (r: i64)
    requires
        b > 0,
        a > i64::MIN,
    ensures
        r == tdiv(a as int, b as int),
{
    if a >= 0 {
        a / b
    } else {
        proof {
            vstd::arithmetic::div_mod::lemma_div_pos_is_pos((-a) as int, b as int);
            vstd::arithmetic::div_mod::lemma_div_is_ordered_by_denominator(
                (-a) as int,
                1,
                b as int,
            );
        }
        -((-a) / b)
    }
}

pub fn trunc_mod(a: i64, b: i64) -> (r: i64)
    requires
        b > 0,
        a > i64::MIN,
    ensures
        r == tmod(a as int, b as int),
{
    if a >= 0 {
        a % b
    } else {
        -((-a) % b)
    }
}

pub fn wrapping_offset(off: u64, n: i64) -> (r: u64)
    ensures
        r == wadd(off, n as int),
{
    off.wrapping_add_signed(n)
}

pub fn last_byte_of(off: u64, sz: i32) -> (r: u64)
    ensures
        r == last_byte(off, sz as int),
{
    wrapping_offset(off, sz as i64 - 1)
}

/// A negative dividend's Euclidean remainder in terms of its magnitude.
pub(crate) proof fn lemma_mod_of_negative(s: int, m: int)
    requires
        s < 0,
        m > 0,
    ensures
        s % m == (if (-s) % m == 0 {
            0
        } else {
            m - (-s) % m
        }),
{
    let q = (-s) / m;
    let r = (-s) % m;
    vstd::arithmetic::div_mod::lemma_fundamental_div_mod(-s, m);
    if r == 0 {
        assert(s == (-q) * m + 0) by (nonlinear_arith)
            requires
                -s == m * q + r,
                r == 0,
        ;
        vstd::arithmetic::div_mod::lemma_fundamental_div_mod_converse(s, m, -q, 0);
    } else {
        assert(s == (-q - 1) * m + (m - r)) by (nonlinear_arith)
            requires
                -s == m * q + r,
        ;
        vstd::arithmetic::div_mod::lemma_fundamental_div_mod_converse(s, m, -q - 1, m - r);
    }
}

/// Bytes of the object that `mask(size)` covers: the largest offset that an
/// address of `size` bytes can hold.
pub open spec fn byte_mask(size: u32) -> u64 {
    if size == 0 {
        0
    } else if size == 1 {
        0xff
    } else if size == 2 {
        0xffff
    } else if size == 3 {
        0xff_ffff
    } else if size == 4 {
        0xffff_ffff
    } else if size == 5 {
        0xff_ffff_ffff
    } else if size == 6 {
        0xffff_ffff_ffff
    } else if size == 7 {
        0xff_ffff_ffff_ffff
    } else {
        0xffff_ffff_ffff_ffff
    }
}

pub fn calc_mask(size: u32) -> (r: u64)
    ensures
        r == byte_mask(size),
{
    if size == 0 {
        0
    } else if size == 1 {
        0xff
    } else if size == 2 {
        0xffff
    } else if size == 3 {
        0xff_ffff
    } else if size == 4 {
        0xffff_ffff
    } else if size == 5 {
        0xff_ffff_ffff
    } else if size == 6 {
        0xffff_ffff_ffff
    } else if size == 7 {
        0xff_ffff_ffff_ffff
    } else {
        0xffff_ffff_ffff_ffff
    }
}

/// Does the flag word `f` have one of the bits of `m`.
pub open spec fn bit(f: u32, m: u32) -> bool {
    f & m != 0
}

pub fn has_bit(f: u32, m: u32) -> (r: bool)
    ensures
        r == bit(f, m),
{
    (f & m) != 0
}

/// Setting the bits of `m` turns them on and leaves the bits of any disjoint
/// `n` alone.
pub(crate) proof fn lemma_set_bits(f: u32, m: u32, n: u32)
    ensures
        m != 0 ==> bit(f | m, m),
        m & n == 0 ==> bit(f | m, n) == bit(f, n),
{
    assert(m != 0 ==> (f | m) & m != 0) by (bit_vector);
    assert(m & n == 0 ==> ((f | m) & n) == (f & n)) by (bit_vector);
}

/// Clearing the bits of `m` turns them off and leaves the bits of any disjoint
/// `n` alone.
pub(crate) proof fn lemma_clear_bits(f: u32, m: u32, n: u32)
    ensures
        !bit(f & !m, m),
        m & n == 0 ==> bit(f & !m, n) == bit(f, n),
{
    assert((f & !m) & m == 0) by (bit_vector);
    assert(m & n == 0 ==> ((f & !m) & n) == (f & n)) by (bit_vector);
}

} // verus!
