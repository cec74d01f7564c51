//! Binary property values of a PLY body: their types, their little-endian
//! decoding, and the integer that a value becomes when it is read as `f32`
//! and then cast to `usize` or `i32` (as list counts and vertex indices are).

use vstd::prelude::*;
use vstd::arithmetic::power2::*;
use vstd::arithmetic::div_mod::*;
use vstd::arithmetic::mul::*;

verus! {

/// The scalar types that a PLY property may have.
#[derive(Clone, Copy, Debug, PartialEq, Eq, Structural)]
pub enum PropType {
    Float,
    Double,
    Uchar,
    Int,
    UInt,
    Short,
    UShort,
}

/// One property value as it is stored in a binary little-endian PLY body.
/// `Float` and `Double` hold the IEEE-754 bit patterns.
#[derive(Clone, Copy, Debug, PartialEq, Eq, Structural)]
pub enum Scalar {
    Float(u32),
    Double(u64),
    Uchar(u8),
    Int(i32),
    UInt(u32),
    Short(i16),
    UShort(u16),
}

/// The number of bytes that a value of type `t` takes.
pub open spec fn type_size(t: PropType) -> nat {
    match t {
        PropType::Float => 4,
        PropType::Double => 8,
        PropType::Uchar => 1,
        PropType::Int => 4,
        PropType::UInt => 4,
        PropType::Short => 2,
        PropType::UShort => 2,
    }
}

/// The byte count of a value of type `t`.
pub fn size_of_type(t: PropType) -> (n: usize)
    ensures
        n == type_size(t),
{
    match t {
        PropType::Float => 4,
        PropType::Double => 8,
        PropType::Uchar => 1,
        PropType::Int => 4,
        PropType::UInt => 4,
        PropType::Short => 2,
        PropType::UShort => 2,
    }
}

/// Little-endian `u16` at byte offset `p`.
pub open spec fn le_u16(b: Seq<u8>, p: int) -> u16 {
    (b[p] + 256 * b[p + 1]) as u16
}

/// Little-endian `u32` at byte offset `p`.
pub open spec fn le_u32(b: Seq<u8>, p: int) -> u32 {
    (b[p] + 0x100 * b[p + 1] + 0x1_0000 * b[p + 2] + 0x100_0000 * b[p + 3]) as u32
}

/// Little-endian `u64` at byte offset `p`.
pub open spec fn le_u64(b: Seq<u8>, p: int) -> u64 {
    (le_u32(b, p) + 0x1_0000_0000 * le_u32(b, p + 4)) as u64
}

/// Two's-complement reading of a `u16`.
pub open spec fn i16_of(u: u16) -> i16 {
    if u < 0x8000 {
        u as i16
    } else {
        (u - 0x1_0000) as i16
    }
}

/// Two's-complement reading of a `u32`.
pub open spec fn i32_of(u: u32) -> i32 {
    if u < 0x8000_0000 {
        u as i32
    } else {
        (u - 0x1_0000_0000) as i32
    }
}

/// The value of type `t` stored at byte offset `p`.
pub open spec fn scalar_at(b: Seq<u8>, p: int, t: PropType) -> Scalar {
    match t {
        PropType::Float => Scalar::Float(le_u32(b, p)),
        PropType::Double => Scalar::Double(le_u64(b, p)),
        PropType::Uchar => Scalar::Uchar(b[p]),
        PropType::Int => Scalar::Int(i32_of(le_u32(b, p))),
        PropType::UInt => Scalar::UInt(le_u32(b, p)),
        PropType::Short => Scalar::Short(i16_of(le_u16(b, p))),
        PropType::UShort => Scalar::UShort(le_u16(b, p)),
    }
}

pub fn read_u16(b: &[u8], p: usize) -> (v: u16)
    requires
        p + 2 <= b@.len(),
    ensures
        v == le_u16(b@, p as int),
{
    b[p] as u16 + (b[p + 1] as u16) * 256
}

pub fn read_u32(b: &[u8], p: usize) -> (v: u32)
    requires
        p + 4 <= b@.len(),
    ensures
        v == le_u32(b@, p as int),
{
    b[p] as u32 + (b[p + 1] as u32) * 0x100 + (b[p + 2] as u32) * 0x1_0000 + (b[p + 3] as u32)
        * 0x100_0000
}

pub fn read_u64(b: &[u8], p: usize) -> (v: u64)
    requires
        p + 8 <= b@.len(),
    ensures
        v == le_u64(b@, p as int),
{
    let _len = b.len();
    let lo = read_u32(b, p);
    let hi = read_u32(b, p + 4);
    lo as u64 + (hi as u64) * 0x1_0000_0000
}

fn to_i16(u: u16) -> (v: i16)
    ensures
        v == i16_of(u),
{
    if u < 0x8000 {
        u as i16
    } else {
        ((u - 0x8000) as i16) - 0x7fff - 1
    }
}

fn to_i32(u: u32) -> (v: i32)
    ensures
        v == i32_of(u),
{
    if u < 0x8000_0000 {
        u as i32
    } else {
        ((u - 0x8000_0000) as i32) - 0x7fff_ffff - 1
    }
}

/// Reads the value of type `t` whose `type_size(t)` little-endian bytes
/// start at byte offset `pos`.
pub fn read_scalar(b: &[u8], pos: usize, t: PropType) -> (r: Scalar)
    requires
        pos + type_size(t) <= b@.len(),
    ensures
        r == scalar_at(b@, pos as int, t),
{
    match t {
        PropType::Float => Scalar::Float(read_u32(b, pos)),
        PropType::Double => Scalar::Double(read_u64(b, pos)),
        PropType::Uchar => Scalar::Uchar(b[pos]),
        PropType::Int => Scalar::Int(to_i32(read_u32(b, pos))),
        PropType::UInt => Scalar::UInt(read_u32(b, pos)),
        PropType::Short => Scalar::Short(to_i16(read_u16(b, pos))),
        PropType::UShort => Scalar::UShort(read_u16(b, pos)),
    }
}

/// Rounds `m` to a multiple of `u`, halfway cases to the even multiple:
/// the rounding that IEEE-754 conversions use.
pub open spec fn round_half_even(m: nat, u: nat) -> nat {
    let q = m / u;
    let r = m % u;
    if 2 * r > u || (2 * r == u && q % 2 == 1) {
        ((q + 1) * u) as nat
    } else {
        (q * u) as nat
    }
}

/// The spacing of `f32` values around an integer of magnitude `m < 2^32`:
/// `f32` holds 24 significant bits.
pub open spec fn int_ulp(m: nat) -> nat {
    if m < 0x100_0000 {
        1
    } else if m < 0x200_0000 {
        2
    } else if m < 0x400_0000 {
        4
    } else if m < 0x800_0000 {
        8
    } else if m < 0x1000_0000 {
        16
    } else if m < 0x2000_0000 {
        32
    } else if m < 0x4000_0000 {
        64
    } else if m < 0x8000_0000 {
        128
    } else {
        256
    }
}

/// The `f32` nearest to the integer `v` (`v as f32`), which is itself an integer.
pub open spec fn int_as_f32(v: int) -> int {
    if v < 0 {
        -(round_half_even((-v) as nat, int_ulp((-v) as nat)) as int)
    } else {
        round_half_even(v as nat, int_ulp(v as nat)) as int
    }
}

/// A magnitude beyond every integer type; it stands for an infinite `f32`,
/// since the saturating casts treat both alike.
pub open spec fn beyond() -> int {
    pow2(128) as int
}

/// The `f32` with bit pattern `b`, truncated toward zero; `None` for NaN.
pub open spec fn f32_bits_trunc(b: u32) -> Option<int> {
    let neg = b >= 0x8000_0000;
    let e = ((b / 0x80_0000) % 0x100) as nat;
    let m = (b % 0x80_0000) as nat;
    let full: nat = if e == 0 { m } else { m + 0x80_0000 };
    let ex: nat = if e == 0 { 1 } else { e };
    let mag: int = if e == 0xff {
        beyond()
    } else if ex >= 150 {
        (full * pow2((ex - 150) as nat)) as int
    } else {
        (full / pow2((150 - ex) as nat)) as int
    };
    if e == 0xff && m != 0 {
        None
    } else if neg {
        Some(-mag)
    } else {
        Some(mag)
    }
}

/// The `f64` with bit pattern `b`, rounded to `f32` (`as f32`) and then
/// truncated toward zero; `None` for NaN.
pub open spec fn f64_bits_trunc(b: u64) -> Option<int> {
    let neg = b >= 0x8000_0000_0000_0000;
    let e = ((b / 0x10_0000_0000_0000) % 0x800) as nat;
    let m = (b % 0x10_0000_0000_0000) as nat;
    let r = round_half_even(m + 0x10_0000_0000_0000, 0x2000_0000);
    let mag: int = if e == 0x7ff {
        beyond()
    } else if e == 0 {
        0
    } else if e >= 1075 {
        (r * pow2((e - 1075) as nat)) as int
    } else {
        (r / pow2((1075 - e) as nat)) as int
    };
    if e == 0x7ff && m != 0 {
        None
    } else if neg {
        Some(-mag)
    } else {
        Some(mag)
    }
}

/// The value read as `f32` and truncated toward zero; `None` for NaN.
pub open spec fn f32_trunc(s: Scalar) -> Option<int> {
    match s {
        Scalar::Float(b) => f32_bits_trunc(b),
        Scalar::Double(b) => f64_bits_trunc(b),
        Scalar::Uchar(v) => Some(v as int),
        Scalar::Int(v) => Some(int_as_f32(v as int)),
        Scalar::UInt(v) => Some(int_as_f32(v as int)),
        Scalar::Short(v) => Some(v as int),
        Scalar::UShort(v) => Some(v as int),
    }
}

/// The value read as `f32` and cast to `usize` (NaN gives 0, casts saturate).
pub open spec fn count_of(s: Scalar) -> usize {
    match f32_trunc(s) {
        None => 0,
        Some(v) => if v <= 0 {
            0
        } else if v >= usize::MAX {
            usize::MAX
        } else {
            v as usize
        },
    }
}

/// The value read as `f32` and cast to `i32` (NaN gives 0, casts saturate).
pub open spec fn index_of(s: Scalar) -> i32 {
    match f32_trunc(s) {
        None => 0,
        Some(v) => if v <= i32::MIN {
            i32::MIN
        } else if v >= i32::MAX {
            i32::MAX
        } else {
            v as i32
        },
    }
}

/// `|v|`, saturated at `u64::MAX`.
pub open spec fn sat_mag(v: int) -> u64 {
    let a = if v < 0 { -v } else { v };
    if a >= u64::MAX {
        u64::MAX
    } else {
        a as u64
    }
}

fn pow2_u128(n: u32) -> (p: u128)
    requires
        n <= 64,
    ensures
        p == pow2(n as nat),
        p > 0,
{
    let mut p: u128 = 1;
    let mut i: u32 = 0;
    proof {
        lemma2_to64();
    }
    while i < n
        invariant
            i <= n <= 64,
            p == pow2(i as nat),
            pow2(64) == 0x1_0000_0000_0000_0000,
        decreases n - i,
    {
        proof {
            lemma_pow2_unfold((i + 1) as nat);
            if i + 1 < 64 {
                lemma_pow2_strictly_increases((i + 1) as nat, 64);
            }
        }
        p = p * 2;
        i = i + 1;
    }
    proof {
        lemma_pow2_pos(n as nat);
    }
    p
}

fn round_half_even_u64(m: u64, u: u64) -> (r: u64)
    requires
        0 < u <= 0x4000_0000_0000_0000,
        m + u <= u64::MAX,
    ensures
        r == round_half_even(m as nat, u as nat),
        r <= m + u,
{
    let q = m / u;
    let rem = m % u;
    proof {
        lemma_fundamental_div_mod(m as int, u as int);
        assert(q * u <= m) by (nonlinear_arith)
            requires
                m == u * q + rem,
                rem >= 0,
        ;
        assert((q + 1) * u == q * u + u) by (nonlinear_arith);
    }
    if 2 * rem > u || (2 * rem == u && q % 2 == 1) {
        (q + 1) * u
    } else {
        q * u
    }
}

fn int_ulp_u64(m: u64) -> (u: u64)
    requires
        m < 0x1_0000_0000,
    ensures
        u == int_ulp(m as nat),
        1 <= u <= 256,
{
    if m < 0x100_0000 {
        1
    } else if m < 0x200_0000 {
        2
    } else if m < 0x400_0000 {
        4
    } else if m < 0x800_0000 {
        8
    } else if m < 0x1000_0000 {
        16
    } else if m < 0x2000_0000 {
        32
    } else if m < 0x4000_0000 {
        64
    } else if m < 0x8000_0000 {
        128
    } else {
        256
    }
}

/// Sign and saturated magnitude of `int_as_f32` for `|v| < 2^32`.
fn int_trunc(neg: bool, m: u64) -> (r: (bool, bool, u64))
    requires
        m < 0x1_0000_0000,
    ensures
        !r.0,
        r.1 == neg,
        r.2 == sat_mag(int_as_f32(if neg { -(m as int) } else { m as int })),
{
    let u = int_ulp_u64(m);
    let v = round_half_even_u64(m, u);
    proof {
        let x: int = if neg { -(m as int) } else { m as int };
        assert(int_as_f32(x) == if neg { -(v as int) } else { v as int });
    }
    (false, neg, v)
}

fn clamp_u128(v: u128) -> (r: u64)
    ensures
        r == if v >= u64::MAX { u64::MAX } else { v as u64 },
{
    if v >= u64::MAX as u128 {
        u64::MAX
    } else {
        v as u64
    }
}

/// NaN flag, sign and magnitude (saturated at `u64::MAX`) of the value read
/// as `f32` and truncated toward zero.
fn trunc_parts(s: Scalar) -> (r: (bool, bool, u64))
    ensures
        match f32_trunc(s) {
            None => r.0,
            Some(v) => !r.0 && r.2 == sat_mag(v) && (r.1 ==> v <= 0) && (!r.1 ==> v >= 0),
        },
{
    match s {
        Scalar::Uchar(v) => (false, false, v as u64),
        Scalar::UShort(v) => (false, false, v as u64),
        Scalar::Short(v) => {
            if v < 0 {
                (false, true, (-(v as i32)) as u64)
            } else {
                (false, false, v as u64)
            }
        },
        Scalar::Int(v) => {
            if v < 0 {
                let r = int_trunc(true, (-(v as i64)) as u64);
                proof {
                    assert(round_half_even((-v) as nat, int_ulp((-v) as nat)) >= 0);
                }
                r
            } else {
                int_trunc(false, v as u64)
            }
        },
        Scalar::UInt(v) => int_trunc(false, v as u64),
        Scalar::Float(b) => float_trunc(b),
        Scalar::Double(b) => double_trunc(b),
    }
}

fn float_trunc(b: u32) -> (r: (bool, bool, u64))
    ensures
        match f32_bits_trunc(b) {
            None => r.0,
            Some(v) => !r.0 && r.2 == sat_mag(v) && (r.1 ==> v <= 0) && (!r.1 ==> v >= 0),
        },
{
    let neg = b >= 0x8000_0000;
    let e = (b / 0x80_0000) % 0x100;
    let m = b % 0x80_0000;
    proof {
        lemma_pow2_pos(128);
        lemma2_to64();
        lemma_pow2_strictly_increases(64, 128);
    }
    if e == 0xff {
        if m != 0 {
            return (true, false, 0);
        }
        return (false, neg, u64::MAX);
    }
    let full: u64 = if e == 0 { m as u64 } else { m as u64 + 0x80_0000 };
    let ex: u32 = if e == 0 { 1 } else { e };
    let mag: u64 = if ex >= 150 {
        let sh = ex - 150;
        if sh >= 41 {
            proof {
                lemma2_to64_rest();
                if sh > 41 {
                    lemma_pow2_strictly_increases(41, sh as nat);
                }
                assert(full * pow2(sh as nat) >= 0x80_0000 * 0x200_0000_0000) by (nonlinear_arith)
                    requires
                        full >= 0x80_0000,
                        pow2(sh as nat) >= 0x200_0000_0000,
                ;
            }
            u64::MAX
        } else {
            let p = pow2_u128(sh);
            proof {
                lemma2_to64_rest();
                if sh < 40 {
                    lemma_pow2_strictly_increases(sh as nat, 40);
                }
                assert(full * p <= 0x100_0000 * 0x100_0000_0000) by (nonlinear_arith)
                    requires
                        full < 0x100_0000,
                        p <= 0x100_0000_0000,
                ;
            }
            clamp_u128(full as u128 * p)
        }
    } else {
        let d = 150 - ex;
        if d >= 64 {
            proof {
                if d > 64 {
                    lemma_pow2_strictly_increases(64, d as nat);
                }
                lemma_basic_div(full as int, pow2(d as nat) as int);
            }
            0
        } else {
            let p = pow2_u128(d);
            ((full as u128) / p) as u64
        }
    };
    (false, neg, mag)
}

fn double_trunc(b: u64) -> (r: (bool, bool, u64))
    ensures
        match f64_bits_trunc(b) {
            None => r.0,
            Some(v) => !r.0 && r.2 == sat_mag(v) && (r.1 ==> v <= 0) && (!r.1 ==> v >= 0),
        },
{
    let neg = b >= 0x8000_0000_0000_0000;
    let e = (b / 0x10_0000_0000_0000) % 0x800;
    let m = b % 0x10_0000_0000_0000;
    proof {
        lemma_pow2_pos(128);
        lemma2_to64();
        lemma_pow2_strictly_increases(64, 128);
    }
    if e == 0x7ff {
        if m != 0 {
            return (true, false, 0);
        }
        return (false, neg, u64::MAX);
    }
    if e == 0 {
        return (false, neg, 0);
    }
    let r = round_half_even_u64(m + 0x10_0000_0000_0000, 0x2000_0000);
    proof {
        let q = (m + 0x10_0000_0000_0000) / 0x2000_0000;
        assert(r >= 0x10_0000_0000_0000) by {
            lemma_fundamental_div_mod((m + 0x10_0000_0000_0000) as int, 0x2000_0000);
        }
    }
    let mag: u64 = if e >= 1075 {
        let sh = (e - 1075) as u32;
        if sh >= 12 {
            proof {
                if sh > 12 {
                    lemma_pow2_strictly_increases(12, sh as nat);
                }
                assert(r * pow2(sh as nat) >= 0x10_0000_0000_0000 * 0x1000) by (nonlinear_arith)
                    requires
                        r >= 0x10_0000_0000_0000,
                        pow2(sh as nat) >= 0x1000,
                ;
            }
            u64::MAX
        } else {
            let p = pow2_u128(sh);
            proof {
                if sh < 11 {
                    lemma_pow2_strictly_increases(sh as nat, 11);
                }
                assert(r * p <= 0x40_0000_0000_0000 * 0x800) by (nonlinear_arith)
                    requires
                        r <= 0x40_0000_0000_0000,
                        p <= 0x800,
                ;
            }
            clamp_u128(r as u128 * p)
        }
    } else {
        let d = (1075 - e) as u32;
        if d >= 64 {
            proof {
                if d > 64 {
                    lemma_pow2_strictly_increases(64, d as nat);
                }
                lemma_basic_div(r as int, pow2(d as nat) as int);
            }
            0
        } else {
            let p = pow2_u128(d);
            ((r as u128) / p) as u64
        }
    };
    (false, neg, mag)
}

/// Integers of at most 24 significant bits are read exactly: the `f32`
/// holds them without rounding.
pub proof fn law_small_integers_exact(v: int)
    requires
        -0x100_0000 < v < 0x100_0000,
    ensures
        int_as_f32(v) == v,
{
    let m: nat = if v < 0 { (-v) as nat } else { v as nat };
    assert(int_ulp(m) == 1);
    assert(m / 1 == m && m % 1 == 0) by (nonlinear_arith);
    assert(round_half_even(m, 1) == m);
}

impl Scalar {
    /// The value read as `f32` and cast to `usize`, as a list count is.
    pub fn as_count(&self) -> (n: usize)
        ensures
            n == count_of(*self),
    {
        let (nan, neg, mag) = trunc_parts(*self);
        if nan || neg {
            0
        } else if mag as u128 >= usize::MAX as u128 {
            usize::MAX
        } else {
            mag as usize
        }
    }

    /// The value read as `f32` and cast to `i32`, as a vertex index is.
    pub fn as_index(&self) -> (i: i32)
        ensures
            i == index_of(*self),
    {
        let (nan, neg, mag) = trunc_parts(*self);
        if nan {
            0
        } else if neg {
            if mag >= 0x8000_0000 {
                i32::MIN
            } else {
                -(mag as i32)
            }
        } else if mag >= 0x7fff_ffff {
            i32::MAX
        } else {
            mag as i32
        }
    }
}

} // verus!
