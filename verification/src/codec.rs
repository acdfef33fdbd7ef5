use vstd::prelude::*;
use vstd::arithmetic::div_mod::lemma_fundamental_div_mod;

verus! {

// Little-endian integer decoding, and the meters-to-feet sample conversion.

/// The unsigned 16-bit value stored little-endian at byte offset `i`.
pub open spec fn le16(b: Seq<u8>, i: int) -> int {
    b[i] + 0x100 * b[i + 1]
}

/// The unsigned 32-bit value stored little-endian at byte offset `i`.
pub open spec fn le32(b: Seq<u8>, i: int) -> int {
    b[i] + 0x100 * b[i + 1] + 0x1_0000 * b[i + 2] + 0x100_0000 * b[i + 3]
}

/// Two's-complement reading of an 8-bit value.
pub open spec fn signed8(u: int) -> int {
    if u < 0x80 {
        u
    } else {
        u - 0x100
    }
}

/// Two's-complement reading of a 16-bit value.
pub open spec fn signed16(u: int) -> int {
    if u < 0x8000 {
        u
    } else {
        u - 0x1_0000
    }
}

/// The 16-bit pattern that stores a signed sample.
pub open spec fn unsigned16(m: int) -> int {
    if m >= 0 {
        m
    } else {
        m + 0x1_0000
    }
}

pub fn read_u16_le(bytes: &Vec<u8>, i: usize) -> (r: u16)
    requires
        i + 2 <= bytes@.len(),
    ensures
        r == le16(bytes@, i as int),
{
    let n: usize = bytes.len();
    assert(i + 2 <= n);
    let lo = bytes[i];
    let hi = bytes[i + 1];
    lo as u16 + (hi as u16) * 0x100
}

pub fn read_i16_le(bytes: &Vec<u8>, i: usize) -> (r: i16)
    requires
        i + 2 <= bytes@.len(),
    ensures
        r == signed16(le16(bytes@, i as int)),
{
    let u = read_u16_le(bytes, i);
    let v: i32 = u as i32;
    let s: i32 = if v >= 0x8000 {
        v - 0x1_0000
    } else {
        v
    };
    s as i16
}

pub fn read_i8(bytes: &Vec<u8>, i: usize) -> (r: i8)
    requires
        i < bytes@.len(),
    ensures
        r == signed8(bytes@[i as int] as int),
{
    let v: i32 = bytes[i] as i32;
    let s: i32 = if v >= 0x80 {
        v - 0x100
    } else {
        v
    };
    s as i8
}

pub fn read_u32_le(bytes: &Vec<u8>, i: usize) -> (r: u32)
    requires
        i + 4 <= bytes@.len(),
    ensures
        r == le32(bytes@, i as int),
{
    let n: usize = bytes.len();
    assert(i + 4 <= n);
    let b0 = bytes[i] as u32;
    let b1 = bytes[i + 1] as u32;
    let b2 = bytes[i + 2] as u32;
    let b3 = bytes[i + 3] as u32;
    b0 + b1 * 0x100 + b2 * 0x1_0000 + b3 * 0x100_0000
}

/// The sample at position `k` of a decompressed payload: a signed
/// little-endian 16-bit integer, in meters.
pub open spec fn sample_at(d: Seq<u8>, k: int) -> int {
    signed16(le16(d, 2 * k))
}

/// Meters to feet: `round(m * 3.28084)`, rounding to the nearest integer
/// (halves away from zero), saturated to the `i16` range. The no-data
/// sentinel `-1` passes through unchanged.
pub open spec fn to_feet(m: int) -> int {
    if m == -1 {
        -1
    } else {
        let f = if m >= 0 {
            (m * 328084 + 50000) / 100000
        } else {
            -(((-m) * 328084 + 50000) / 100000)
        };
        if f > 0x7fff {
            0x7fff
        } else if f < -0x8000 {
            -0x8000
        } else {
            f
        }
    }
}

/// Converts one stored sample from meters to feet, leaving the no-data
/// sentinel unchanged.
pub fn convert_sample(s: i16) -> (r: i16)
    ensures
        r == to_feet(s as int),
{
    if s == -1 {
        return -1;
    }
    if s >= 0 {
        let v: u64 = (s as u64) * 328084;
        let f: u64 = (v + 50000) / 100000;
        if f > 0x7fff {
            0x7fff
        } else {
            f as i16
        }
    } else {
        let a: u64 = (-(s as i64)) as u64;
        let v: u64 = a * 328084;
        let f: u64 = (v + 50000) / 100000;
        if f > 0x8000 {
            -0x8000
        } else {
            (-(f as i64)) as i16
        }
    }
}

/// A stored sample of `-1` is never converted; it remains `-1`.
pub proof fn lemma_sentinel_preserved()
    ensures
        to_feet(-1) == -1,
{
}

/// The raster obtained from a decompressed payload of `n` samples,
/// row-major, each converted from meters to feet.
pub open spec fn converted_samples(d: Seq<u8>, n: int) -> Seq<i16> {
    Seq::new(n as nat, |k: int| to_feet(sample_at(d, k)) as i16)
}

/// The little-endian byte encoding of a raster of meter samples.
pub open spec fn sample_bytes(s: Seq<i16>) -> Seq<u8> {
    Seq::new((2 * s.len()) as nat,
        |i: int|
            if i % 2 == 0 {
                (unsigned16(s[i / 2] as int) % 0x100) as u8
            } else {
                (unsigned16(s[i / 2] as int) / 0x100) as u8
            },
    )
}

/// Decoding the little-endian encoding of a raster reproduces the raster,
/// sample for sample, after meters-to-feet conversion (sentinel samples
/// unchanged).
pub proof fn lemma_raster_round_trip(s: Seq<i16>)
    ensures
        converted_samples(sample_bytes(s), s.len() as int) == Seq::new(
            s.len(),
            |k: int| to_feet(s[k] as int) as i16,
        ),
{
    let b = sample_bytes(s);
    assert forall|k: int| 0 <= k < s.len() implies sample_at(b, k) == s[k] by {
        let u = unsigned16(s[k] as int);
        assert((2 * k) % 2 == 0 && (2 * k) / 2 == k);
        assert((2 * k + 1) % 2 == 1 && (2 * k + 1) / 2 == k);
        assert(b[2 * k] == (u % 0x100) as u8);
        assert(b[2 * k + 1] == (u / 0x100) as u8);
        lemma_fundamental_div_mod(u, 0x100);
        assert(le16(b, 2 * k) == u);
    }
    assert(converted_samples(b, s.len() as int) =~= Seq::new(
        s.len(),
        |k: int| to_feet(s[k] as int) as i16,
    ));
}

} // verus!
