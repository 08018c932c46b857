//! Wire-format primitives: varints, zigzag, little-endian fixed-width
//! values, tags, and the lemmas that tie parsing back to encoding.

use vstd::prelude::*;
use vstd::arithmetic::power2::{pow2, lemma2_to64, lemma_pow2_strictly_increases, lemma_pow2_adds, lemma_pow2_pos};
use crate::Error;

verus! {

/// The four live wire types, plus the two group markers the engine rejects.
#[derive(Clone, Copy, Debug, PartialEq, Eq, Structural)]
pub enum WireType {
    Varint,
    Fixed64,
    LengthDelimited,
    StartGroup,
    EndGroup,
    Fixed32,
}

/// The three-bit code a wire type travels as inside a tag.
pub open spec fn wire_type_code(wt: WireType) -> u64 {
    match wt {
        WireType::Varint => 0,
        WireType::Fixed64 => 1,
        WireType::LengthDelimited => 2,
        WireType::StartGroup => 3,
        WireType::EndGroup => 4,
        WireType::Fixed32 => 5,
    }
}

/// The base-128 little-endian encoding of `v`, with the continuation bit set
/// on every byte but the last.
pub open spec fn varint_encode(v: u64) -> Seq<u8>
    decreases v,
{
    if v < 0x80 {
        seq![v as u8]
    } else {
        seq![((v % 0x80) + 0x80) as u8] + varint_encode(v / 0x80)
    }
}

/// Every `u64` fits in one to ten varint bytes.
pub proof fn lemma_varint_encode_len(v: u64)
    ensures
        1 <= varint_encode(v).len() <= 10,
    decreases v,
{
    lemma2_to64();
    lemma_pow2_strictly_increases(64, 70);
    lemma_varint_len_bounded(v, 10);
}

proof fn lemma_varint_len_bounded(v: u64, k: int)
    requires
        1 <= k,
        v < pow2((7 * k) as nat),
    ensures
        1 <= varint_encode(v).len() <= k,
    decreases k,
{
    if v < 0x80 {
    } else {
        lemma2_to64();
        assert(pow2(7) == 0x80);
        if k == 1 {
            assert(false);
        } else {
            lemma_pow2_adds((7 * (k - 1)) as nat, 7);
            lemma_pow2_pos((7 * (k - 1)) as nat);
            assert(pow2((7 * k) as nat) == pow2((7 * (k - 1)) as nat) * 0x80);
            lemma_div_by_multiple_bound(v as int, pow2((7 * (k - 1)) as nat) as int);
            assert(v / 0x80 < pow2((7 * (k - 1)) as nat));
            lemma_varint_len_bounded(v / 0x80, k - 1);
        }
    }
}

proof fn lemma_div_by_multiple_bound(v: int, b: int)
    requires
        0 <= v,
        0 < b,
        v < b * 0x80,
    ensures
        v / 0x80 < b,
{
    assert(v / 0x80 < b) by (nonlinear_arith)
        requires
            0 <= v,
            0 < b,
            v < b * 0x80,
    ;
}

/// Reads one varint from `data[pos..end]`, carrying the mathematical value;
/// `fuel` caps the byte count at the protobuf maximum of ten.
pub open spec fn varint_parse_rec(data: Seq<u8>, pos: int, end: int, fuel: nat) -> Result<
    (nat, int),
    Error,
>
    decreases fuel,
{
    if pos < 0 || pos >= end || end > data.len() {
        Err(Error::Truncated)
    } else if fuel == 0 {
        Err(Error::Malformed)
    } else {
        let b = data[pos];
        if b < 0x80 {
            Ok(((b as nat), pos + 1))
        } else {
            match varint_parse_rec(data, pos + 1, end, (fuel - 1) as nat) {
                Err(e) => Err(e),
                Ok((v, p)) => Ok((((b - 0x80) + 0x80 * v) as nat, p)),
            }
        }
    }
}

/// Reads one varint as a `u64`: at most ten bytes, and the value must fit.
pub open spec fn varint_parse(data: Seq<u8>, pos: int, end: int) -> Result<(u64, int), Error> {
    match varint_parse_rec(data, pos, end, 10) {
        Err(e) => Err(e),
        Ok((v, p)) => if v <= u64::MAX {
            Ok((v as u64, p))
        } else {
            Err(Error::Malformed)
        },
    }
}

/// A successful parse consumes at least one byte and stays inside the bounds.
pub proof fn lemma_varint_parse_advances(data: Seq<u8>, pos: int, end: int)
    requires
        varint_parse(data, pos, end) is Ok,
    ensures
        0 <= pos < varint_parse(data, pos, end)->Ok_0.1 <= end <= data.len(),
{
    lemma_varint_parse_rec_advances(data, pos, end, 10);
}

proof fn lemma_varint_parse_rec_advances(data: Seq<u8>, pos: int, end: int, fuel: nat)
    requires
        varint_parse_rec(data, pos, end, fuel) is Ok,
    ensures
        0 <= pos < varint_parse_rec(data, pos, end, fuel)->Ok_0.1 <= end <= data.len(),
    decreases fuel,
{
    let b = data[pos];
    if b < 0x80 {
    } else {
        lemma_varint_parse_rec_advances(data, pos + 1, end, (fuel - 1) as nat);
    }
}

/// Parsing reads back exactly what encoding wrote.
pub proof fn lemma_varint_round_trip(data: Seq<u8>, pos: int, end: int, v: u64)
    requires
        0 <= pos,
        pos + varint_encode(v).len() <= end,
        end <= data.len(),
        data.subrange(pos, pos + varint_encode(v).len()) == varint_encode(v),
    ensures
        varint_parse(data, pos, end) == Ok::<(u64, int), Error>((v, pos + varint_encode(v).len())),
{
    lemma_varint_encode_len(v);
    lemma_varint_parse_rec_of_encode(data, pos, end, v, 10);
}

proof fn lemma_varint_parse_rec_of_encode(data: Seq<u8>, pos: int, end: int, v: u64, fuel: nat)
    requires
        0 <= pos,
        pos + varint_encode(v).len() <= end,
        end <= data.len(),
        varint_encode(v).len() <= fuel,
        data.subrange(pos, pos + varint_encode(v).len()) == varint_encode(v),
    ensures
        varint_parse_rec(data, pos, end, fuel) == Ok::<(nat, int), Error>(
            (v as nat, pos + varint_encode(v).len()),
        ),
    decreases v,
{
    let enc = varint_encode(v);
    assert(data[pos] == enc[0]);
    if v < 0x80 {
    } else {
        let tail = varint_encode(v / 0x80);
        assert(enc == seq![((v % 0x80) + 0x80) as u8] + tail);
        assert(data[pos] == ((v % 0x80) + 0x80) as u8);
        assert(data.subrange(pos + 1, pos + 1 + tail.len()) =~= tail) by {
            assert forall|i: int| 0 <= i < tail.len() implies data.subrange(
                pos + 1,
                pos + 1 + tail.len(),
            )[i] == tail[i] by {
                assert(data.subrange(pos, pos + enc.len())[i + 1] == enc[i + 1]);
            }
        }
        lemma_varint_parse_rec_of_encode(data, pos + 1, end, v / 0x80, (fuel - 1) as nat);
        assert((data[pos] - 0x80) + 0x80 * ((v / 0x80) as nat) == v as nat);
    }
}

/// Appends the varint encoding of `v` to `out`.
pub fn write_raw_varint64(out: &mut Vec<u8>, v: u64)
    ensures
        final(out)@ == old(out)@ + varint_encode(v),
{
    let ghost base = out@;
    let mut x = v;
    while x >= 0x80
        invariant
            base + varint_encode(v) == out@ + varint_encode(x),
        decreases x,
    {
        out.push(((x % 0x80) + 0x80) as u8);
        x = x / 0x80;
    }
    out.push(x as u8);
    assert(varint_encode(x) =~= seq![x as u8]);
    assert(out@ =~= base + varint_encode(v));
}

/// The number of bytes the varint encoding of `v` occupies.
pub fn raw_varint64_len(v: u64) -> (r: u32)
    ensures
        r as int == varint_encode(v).len(),
        1 <= r <= 10,
{
    proof {
        lemma_varint_encode_len(v);
    }
    let mut x = v;
    let mut n: u32 = 1;
    while x >= 0x80
        invariant
            1 <= n,
            varint_encode(v).len() == (n - 1) + varint_encode(x).len(),
        decreases x,
    {
        proof {
            lemma_varint_encode_len(v);
            lemma_varint_encode_len(x / 0x80);
        }
        x = x / 0x80;
        n = n + 1;
    }
    proof {
        lemma_varint_encode_len(v);
    }
    n
}

/// Reads one varint from `data[pos..end]`; exactly the spec-level parse.
pub fn read_raw_varint64(data: &Vec<u8>, pos: usize, end: usize) -> (r: Result<(u64, usize), Error>)
    requires
        end <= data@.len(),
    ensures
        match varint_parse(data@, pos as int, end as int) {
            Ok((v, p)) => r == Ok::<(u64, usize), Error>((v, p as usize)),
            Err(e) => r == Err::<(u64, usize), Error>(e),
        },
    decreases 10int,
{
    read_raw_varint64_rec(data, pos, end, 10)
}

fn read_raw_varint64_rec(data: &Vec<u8>, pos: usize, end: usize, fuel: u32) -> (r: Result<
    (u64, usize),
    Error,
>)
    requires
        end <= data@.len(),
        fuel <= 10,
    ensures
        match varint_parse_rec(data@, pos as int, end as int, fuel as nat) {
            Ok((v, p)) => if v <= u64::MAX {
                r == Ok::<(u64, usize), Error>((v as u64, p as usize))
            } else {
                r == Err::<(u64, usize), Error>(Error::Malformed)
            },
            Err(e) => r == Err::<(u64, usize), Error>(e),
        },
    decreases fuel,
{
    if pos >= end {
        return Err(Error::Truncated);
    }
    if fuel == 0 {
        return Err(Error::Malformed);
    }
    let b = data[pos];
    if b < 0x80 {
        Ok((b as u64, pos + 1))
    } else {
        match read_raw_varint64_rec(data, pos + 1, end, fuel - 1) {
            Err(e) => Err(e),
            Ok((rest, p)) => {
                let lo = (b - 0x80) as u64;
                if rest > (u64::MAX - lo) / 0x80 {
                    proof {
                        let spec_rest = varint_parse_rec(
                            data@,
                            pos + 1,
                            end as int,
                            (fuel - 1) as nat,
                        )->Ok_0.0;
                        assert(lo + 0x80 * spec_rest > u64::MAX);
                    }
                    Err(Error::Malformed)
                } else {
                    Ok((lo + 0x80 * rest, p))
                }
            },
        }
    }
}

// ----------------------------------------------------------------------------
// Little-endian fixed-width values
// ----------------------------------------------------------------------------

/// The four little-endian bytes of `v`.
pub open spec fn le32_encode(v: u32) -> Seq<u8> {
    seq![
        (v % 0x100) as u8,
        ((v / 0x100) % 0x100) as u8,
        ((v / 0x10000) % 0x100) as u8,
        ((v / 0x1000000) % 0x100) as u8,
    ]
}

/// Reads four little-endian bytes from `data[pos..end]`.
pub open spec fn le32_parse(data: Seq<u8>, pos: int, end: int) -> Result<(u32, int), Error> {
    if 0 <= pos && pos + 4 <= end && end <= data.len() {
        Ok(
            (
                (data[pos] + 0x100 * data[pos + 1] + 0x10000 * data[pos + 2] + 0x1000000 * data[pos
                    + 3]) as u32,
                pos + 4,
            ),
        )
    } else {
        Err(Error::Truncated)
    }
}

/// The eight little-endian bytes of `v`.
pub open spec fn le64_encode(v: u64) -> Seq<u8> {
    le32_encode((v % 0x1_0000_0000) as u32) + le32_encode((v / 0x1_0000_0000) as u32)
}

/// Reads eight little-endian bytes from `data[pos..end]`.
pub open spec fn le64_parse(data: Seq<u8>, pos: int, end: int) -> Result<(u64, int), Error> {
    if 0 <= pos && pos + 8 <= end && end <= data.len() {
        match (le32_parse(data, pos, end), le32_parse(data, pos + 4, end)) {
            (Ok((lo, _)), Ok((hi, _))) => Ok(((lo + 0x1_0000_0000 * hi) as u64, pos + 8)),
            _ => Err(Error::Truncated),
        }
    } else {
        Err(Error::Truncated)
    }
}

/// Parsing four little-endian bytes recovers the encoded word.
pub proof fn lemma_le32_round_trip(data: Seq<u8>, pos: int, end: int, v: u32)
    requires
        0 <= pos,
        pos + 4 <= end,
        end <= data.len(),
        data.subrange(pos, pos + 4) == le32_encode(v),
    ensures
        le32_parse(data, pos, end) == Ok::<(u32, int), Error>((v, pos + 4)),
{
    let enc = le32_encode(v);
    assert(data[pos] == enc[0] && data[pos + 1] == enc[1] && data[pos + 2] == enc[2] && data[pos
        + 3] == enc[3]) by {
        assert(data.subrange(pos, pos + 4)[0] == enc[0]);
        assert(data.subrange(pos, pos + 4)[1] == enc[1]);
        assert(data.subrange(pos, pos + 4)[2] == enc[2]);
        assert(data.subrange(pos, pos + 4)[3] == enc[3]);
    }
    assert(v % 0x100 + 0x100 * ((v / 0x100) % 0x100) + 0x10000 * ((v / 0x10000) % 0x100) + 0x1000000
        * ((v / 0x1000000) % 0x100) == v) by (nonlinear_arith);
}

/// Parsing eight little-endian bytes recovers the encoded word.
pub proof fn lemma_le64_round_trip(data: Seq<u8>, pos: int, end: int, v: u64)
    requires
        0 <= pos,
        pos + 8 <= end,
        end <= data.len(),
        data.subrange(pos, pos + 8) == le64_encode(v),
    ensures
        le64_parse(data, pos, end) == Ok::<(u64, int), Error>((v, pos + 8)),
{
    let lo = (v % 0x1_0000_0000) as u32;
    let hi = (v / 0x1_0000_0000) as u32;
    assert(data.subrange(pos, pos + 4) =~= le32_encode(lo)) by {
        assert forall|i: int| 0 <= i < 4 implies data.subrange(pos, pos + 4)[i] == le32_encode(
            lo,
        )[i] by {
            assert(data.subrange(pos, pos + 8)[i] == le64_encode(v)[i]);
        }
    }
    assert(data.subrange(pos + 4, pos + 8) =~= le32_encode(hi)) by {
        assert forall|i: int| 0 <= i < 4 implies data.subrange(pos + 4, pos + 8)[i] == le32_encode(
            hi,
        )[i] by {
            assert(data.subrange(pos, pos + 8)[i + 4] == le64_encode(v)[i + 4]);
        }
    }
    lemma_le32_round_trip(data, pos, end, lo);
    lemma_le32_round_trip(data, pos + 4, end, hi);
    assert(v % 0x1_0000_0000 + 0x1_0000_0000 * (v / 0x1_0000_0000) == v);
}

/// Appends the four little-endian bytes of `v` to `out`.
pub fn write_raw_le32(out: &mut Vec<u8>, v: u32)
    ensures
        final(out)@ == old(out)@ + le32_encode(v),
{
    out.push((v % 0x100) as u8);
    out.push(((v / 0x100) % 0x100) as u8);
    out.push(((v / 0x10000) % 0x100) as u8);
    out.push(((v / 0x1000000) % 0x100) as u8);
    assert(out@ =~= old(out)@ + le32_encode(v));
}

/// Appends the eight little-endian bytes of `v` to `out`.
pub fn write_raw_le64(out: &mut Vec<u8>, v: u64)
    ensures
        final(out)@ == old(out)@ + le64_encode(v),
{
    write_raw_le32(out, (v % 0x1_0000_0000) as u32);
    write_raw_le32(out, (v / 0x1_0000_0000) as u32);
    assert(out@ =~= old(out)@ + le64_encode(v));
}

/// Reads four little-endian bytes; exactly the spec-level parse.
pub fn read_raw_le32(data: &Vec<u8>, pos: usize, end: usize) -> (r: Result<(u32, usize), Error>)
    requires
        end <= data@.len(),
    ensures
        match le32_parse(data@, pos as int, end as int) {
            Ok((v, p)) => r == Ok::<(u32, usize), Error>((v, p as usize)),
            Err(e) => r == Err::<(u32, usize), Error>(e),
        },
{
    if pos >= end || end - pos < 4 {
        return Err(Error::Truncated);
    }
    let b0 = data[pos] as u32;
    let b1 = data[pos + 1] as u32;
    let b2 = data[pos + 2] as u32;
    let b3 = data[pos + 3] as u32;
    Ok((b0 + 0x100 * b1 + 0x10000 * b2 + 0x1000000 * b3, pos + 4))
}

/// Reads eight little-endian bytes; exactly the spec-level parse.
pub fn read_raw_le64(data: &Vec<u8>, pos: usize, end: usize) -> (r: Result<(u64, usize), Error>)
    requires
        end <= data@.len(),
    ensures
        match le64_parse(data@, pos as int, end as int) {
            Ok((v, p)) => r == Ok::<(u64, usize), Error>((v, p as usize)),
            Err(e) => r == Err::<(u64, usize), Error>(e),
        },
{
    if pos >= end || end - pos < 8 {
        return Err(Error::Truncated);
    }
    let lo = match read_raw_le32(data, pos, end) {
        Ok((v, _)) => v,
        Err(e) => {
            return Err(e);
        },
    };
    let hi = match read_raw_le32(data, pos + 4, end) {
        Ok((v, _)) => v,
        Err(e) => {
            return Err(e);
        },
    };
    Ok((lo as u64 + 0x1_0000_0000 * (hi as u64), pos + 8))
}

// ----------------------------------------------------------------------------
// Two's-complement reinterpretation and zigzag
// ----------------------------------------------------------------------------

/// The `u64` whose two's-complement bit pattern is `v`.
pub open spec fn u64_from_i64(v: i64) -> u64 {
    if v >= 0 {
        v as u64
    } else {
        (v + 0x1_0000_0000_0000_0000) as u64
    }
}

/// The `i64` whose two's-complement bit pattern is `v`.
pub open spec fn i64_from_u64(v: u64) -> i64 {
    if v < 0x8000_0000_0000_0000 {
        v as i64
    } else {
        (v - 0x1_0000_0000_0000_0000) as i64
    }
}

/// The `i32` named by the low 32 bits of `v`, two's complement.
pub open spec fn i32_from_u64(v: u64) -> i32 {
    let m = v % 0x1_0000_0000;
    if m < 0x8000_0000 {
        m as i32
    } else {
        (m - 0x1_0000_0000) as i32
    }
}

/// The low 32 bits of `v`.
pub open spec fn u32_from_u64(v: u64) -> u32 {
    (v % 0x1_0000_0000) as u32
}

/// The `u32` whose two's-complement bit pattern is `v`.
pub open spec fn u32_from_i32(v: i32) -> u32 {
    if v >= 0 {
        v as u32
    } else {
        (v + 0x1_0000_0000) as u32
    }
}

pub fn exec_u64_from_i64(v: i64) -> (r: u64)
    ensures
        r == u64_from_i64(v),
{
    if v >= 0 {
        v as u64
    } else {
        let neg = (-(v + 1)) as u64;
        u64::MAX - neg
    }
}

pub fn exec_i64_from_u64(v: u64) -> (r: i64)
    ensures
        r == i64_from_u64(v),
{
    if v < 0x8000_0000_0000_0000 {
        v as i64
    } else {
        let neg = (u64::MAX - v) as i64;
        -neg - 1
    }
}

pub fn exec_i32_from_u64(v: u64) -> (r: i32)
    ensures
        r == i32_from_u64(v),
{
    let m = v % 0x1_0000_0000;
    if m < 0x8000_0000 {
        m as i32
    } else {
        let neg = (0xFFFF_FFFF - m) as i32;
        -neg - 1
    }
}

pub fn exec_u32_from_u64(v: u64) -> (r: u32)
    ensures
        r == u32_from_u64(v),
{
    (v % 0x1_0000_0000) as u32
}

pub fn exec_u32_from_i32(v: i32) -> (r: u32)
    ensures
        r == u32_from_i32(v),
{
    if v >= 0 {
        v as u32
    } else {
        let neg = (-(v + 1)) as u32;
        u32::MAX - neg
    }
}

/// Reinterpreting an `i64` as bits and back is the identity.
pub proof fn lemma_i64_bits_round_trip(v: i64)
    ensures
        i64_from_u64(u64_from_i64(v)) == v,
{
}

/// Sign-extending an `i32` to 64 bits and truncating back is the identity.
pub proof fn lemma_i32_sign_extend_round_trip(v: i32)
    ensures
        i32_from_u64(u64_from_i64(v as i64)) == v,
{
    if v >= 0 {
        assert((v as int) % 0x1_0000_0000 == v);
    } else {
        let u = (v + 0x1_0000_0000_0000_0000) as u64;
        assert(u as int == (v as int) + 0x1_0000_0000 * 0x1_0000_0000);
        assert(u as int % 0x1_0000_0000 == ((v as int) + 0x1_0000_0000) % 0x1_0000_0000) by (nonlinear_arith)
            requires
                u as int == (v as int) + 0x1_0000_0000 * 0x1_0000_0000,
        ;
        assert(((v as int) + 0x1_0000_0000) % 0x1_0000_0000 == (v as int) + 0x1_0000_0000);
    }
}

/// The zigzag image of a signed 32-bit value.
pub open spec fn zigzag32(v: i32) -> u32 {
    if v >= 0 {
        (2 * v) as u32
    } else {
        (-2 * (v as int) - 1) as u32
    }
}

/// The signed value a zigzag image stands for.
pub open spec fn unzigzag32(z: u32) -> i32 {
    if z % 2 == 0 {
        (z / 2) as i32
    } else {
        (-((z as int + 1) / 2)) as i32
    }
}

/// The zigzag image of a signed 64-bit value.
pub open spec fn zigzag64(v: i64) -> u64 {
    if v >= 0 {
        (2 * v) as u64
    } else {
        (-2 * (v as int) - 1) as u64
    }
}

/// The signed value a zigzag image stands for.
pub open spec fn unzigzag64(z: u64) -> i64 {
    if z % 2 == 0 {
        (z / 2) as i64
    } else {
        (-((z as int + 1) / 2)) as i64
    }
}

pub proof fn lemma_zigzag32_round_trip(v: i32)
    ensures
        unzigzag32(zigzag32(v)) == v,
{
}

pub proof fn lemma_zigzag64_round_trip(v: i64)
    ensures
        unzigzag64(zigzag64(v)) == v,
{
}

pub fn exec_zigzag32(v: i32) -> (r: u32)
    ensures
        r == zigzag32(v),
{
    if v >= 0 {
        2 * (v as u32)
    } else {
        let neg = (-(v + 1)) as u32;
        2 * neg + 1
    }
}

pub fn exec_unzigzag32(z: u32) -> (r: i32)
    ensures
        r == unzigzag32(z),
{
    if z % 2 == 0 {
        (z / 2) as i32
    } else {
        -((z / 2) as i32) - 1
    }
}

pub fn exec_zigzag64(v: i64) -> (r: u64)
    ensures
        r == zigzag64(v),
{
    if v >= 0 {
        2 * (v as u64)
    } else {
        let neg = (-(v + 1)) as u64;
        2 * neg + 1
    }
}

pub fn exec_unzigzag64(z: u64) -> (r: i64)
    ensures
        r == unzigzag64(z),
{
    if z % 2 == 0 {
        (z / 2) as i64
    } else {
        -((z / 2) as i64) - 1
    }
}

// ----------------------------------------------------------------------------
// Tags
// ----------------------------------------------------------------------------

/// The largest legal protobuf field number, `2^29 - 1`.
pub const MAX_FIELD_NUMBER: u32 = 0x1FFF_FFFF;

/// The varint a `(field number, wire type)` pair travels as.
pub open spec fn tag_encode(num: u32, wt: WireType) -> Seq<u8> {
    varint_encode((8 * (num as u64) + wire_type_code(wt)) as u64)
}

/// The number of bytes the tag of field `num` occupies; every wire type
/// yields the same count because the low three bits never cross a varint
/// byte-group boundary.
pub open spec fn tag_size(num: u32) -> int {
    varint_encode((8 * (num as u64)) as u64).len() as int
}

/// Appends the tag of `(num, wt)` to `out`.
pub fn write_tag(out: &mut Vec<u8>, num: u32, wt: WireType)
    requires
        1 <= num <= MAX_FIELD_NUMBER,
    ensures
        final(out)@ == old(out)@ + tag_encode(num, wt),
{
    let code: u64 = match wt {
        WireType::Varint => 0,
        WireType::Fixed64 => 1,
        WireType::LengthDelimited => 2,
        WireType::StartGroup => 3,
        WireType::EndGroup => 4,
        WireType::Fixed32 => 5,
    };
    write_raw_varint64(out, 8 * (num as u64) + code);
}

/// Tag sizes ignore the wire type: the tag of `(num, wt)` is as long as the
/// varint of `8 * num` alone.
pub proof fn lemma_tag_len(num: u32, wt: WireType)
    requires
        1 <= num,
    ensures
        tag_encode(num, wt).len() == tag_size(num),
{
    lemma_varint_len_same_group((8 * (num as u64)) as u64, wire_type_code(wt));
}

proof fn lemma_varint_len_same_group(v: u64, c: u64)
    requires
        v % 8 == 0,
        v >= 8,
        c < 8,
    ensures
        varint_encode((v + c) as u64).len() == varint_encode(v).len(),
{
    let w = (v + c) as u64;
    if v < 0x80 {
        assert(w < 0x80);
    } else {
        assert(w / 0x80 == v / 0x80) by (nonlinear_arith)
            requires
                v % 8 == 0,
                c < 8,
                w == v + c,
                v >= 0x80,
        ;
        assert(varint_encode(w).len() == 1 + varint_encode(w / 0x80).len());
        assert(varint_encode(v).len() == 1 + varint_encode(v / 0x80).len());
    }
}

} // verus!
