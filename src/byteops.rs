//! Big-endian reads over a byte buffer with an advancing offset.
use vstd::prelude::*;
use vstd::utf8::{decode_utf8, valid_utf8};

use crate::error::DecodeError;

verus! {

/// The unsigned 16-bit big-endian value at `i`.
pub open spec fn be_u16(s: Seq<u8>, i: int) -> int {
    s[i] as int * 256 + s[i + 1] as int
}

/// The unsigned 32-bit big-endian value at `i`.
pub open spec fn be_u32(s: Seq<u8>, i: int) -> int {
    be_u16(s, i) * 65536 + be_u16(s, i + 2)
}

/// A 16-bit and a 32-bit big-endian value fit their widths.
pub proof fn lemma_be_range(s: Seq<u8>, i: int)
    requires
        0 <= i,
        i + 2 <= s.len(),
    ensures
        0 <= be_u16(s, i) <= 0xFFFF,
        i + 4 <= s.len() ==> 0 <= be_u32(s, i) <= 0xFFFF_FFFF,
{
    if i + 4 <= s.len() {
        let a = be_u16(s, i);
        let b = be_u16(s, i + 2);
        assert(0 <= a * 65536 + b <= 0xFFFF_FFFF) by (nonlinear_arith)
            requires
                0 <= a <= 0xFFFF,
                0 <= b <= 0xFFFF,
        ;
    }
}

/// Two's complement reading of a 16-bit value.
pub open spec fn signed16(v: int) -> int {
    if v >= 0x8000 { v - 0x10000 } else { v }
}

/// Two's complement reading of a 32-bit value.
pub open spec fn signed32(v: int) -> int {
    if v >= 0x8000_0000 { v - 0x1_0000_0000 } else { v }
}

/// `e` is the position of the first NUL byte at or after `start`.
pub open spec fn cstr_end(s: Seq<u8>, start: int, e: int) -> bool {
    &&& 0 <= start <= e < s.len()
    &&& s[e] == 0
    &&& forall|i: int| start <= i < e ==> s[i] != 0
}

/// Relies on `String::from_utf8`: it accepts exactly the well-formed UTF-8
/// byte strings and returns the text they encode.
#[verifier::external_body]
pub(crate) fn utf8_to_string(bytes: Vec<u8>) -> (r: Option<String>)
    ensures
        r is Some <==> valid_utf8(bytes@),
        r is Some ==> r->Some_0@ == decode_utf8(bytes@),
{
    String::from_utf8(bytes).ok()
}

/// A copy of `len` bytes of `data` from `start`.
pub fn copy_bytes(data: &Vec<u8>, start: usize, len: usize) -> (r: Vec<u8>)
    requires
        start + len <= data.len(),
    ensures
        r@ == data@.subrange(start as int, start + len),
{
    let mut out: Vec<u8> = Vec::with_capacity(len);
    let mut i: usize = 0;
    while i < len
        invariant
            i <= len,
            start + len <= data.len(),
            out@ == data@.subrange(start as int, start + i),
        decreases len - i,
    {
        out.push(data[start + i]);
        i = i + 1;
        assert(out@ == data@.subrange(start as int, start + i));
    }
    out
}

/// Reads one byte.
pub fn read_u8(data: &Vec<u8>, offset: &mut usize) -> (r: Result<u8, DecodeError>)
    ensures
        *old(offset) < data.len() ==> r == Ok::<u8, DecodeError>(data@[*old(offset) as int])
            && *final(offset) == *old(offset) + 1,
        *old(offset) >= data.len() ==> r == Err::<u8, DecodeError>(DecodeError::Truncated)
            && *final(offset) == *old(offset),
{
    if *offset >= data.len() {
        return Err(DecodeError::Truncated);
    }
    let v = data[*offset];
    *offset = *offset + 1;
    Ok(v)
}

/// Reads an unsigned big-endian 16-bit value.
pub fn read_u16(data: &Vec<u8>, offset: &mut usize) -> (r: Result<u16, DecodeError>)
    ensures
        *old(offset) + 2 <= data.len() ==> r == Ok::<u16, DecodeError>(
            be_u16(data@, *old(offset) as int) as u16,
        ) && *final(offset) == *old(offset) + 2,
        *old(offset) + 2 > data.len() ==> r == Err::<u16, DecodeError>(DecodeError::Truncated)
            && *final(offset) == *old(offset),
{
    if data.len() < 2 || *offset > data.len() - 2 {
        return Err(DecodeError::Truncated);
    }
    let o = *offset;
    let v = (data[o] as u16) * 256 + (data[o + 1] as u16);
    *offset = o + 2;
    Ok(v)
}

/// Reads a signed big-endian 16-bit value.
pub fn read_i16(data: &Vec<u8>, offset: &mut usize) -> (r: Result<i16, DecodeError>)
    ensures
        *old(offset) + 2 <= data.len() ==> r == Ok::<i16, DecodeError>(
            signed16(be_u16(data@, *old(offset) as int)) as i16,
        ) && *final(offset) == *old(offset) + 2,
        *old(offset) + 2 > data.len() ==> r == Err::<i16, DecodeError>(DecodeError::Truncated)
            && *final(offset) == *old(offset),
{
    let u = read_u16(data, offset)?;
    if u >= 0x8000 {
        Ok((u as i32 - 0x10000) as i16)
    } else {
        Ok(u as i16)
    }
}

/// Reads an unsigned big-endian 32-bit value.
pub fn read_u32(data: &Vec<u8>, offset: &mut usize) -> (r: Result<u32, DecodeError>)
    ensures
        *old(offset) + 4 <= data.len() ==> r == Ok::<u32, DecodeError>(
            be_u32(data@, *old(offset) as int) as u32,
        ) && *final(offset) == *old(offset) + 4,
        *old(offset) + 4 > data.len() ==> r == Err::<u32, DecodeError>(DecodeError::Truncated)
            && *final(offset) == *old(offset),
{
    if data.len() < 4 || *offset > data.len() - 4 {
        return Err(DecodeError::Truncated);
    }
    let o = *offset;
    let hi = (data[o] as u32) * 256 + (data[o + 1] as u32);
    let lo = (data[o + 2] as u32) * 256 + (data[o + 3] as u32);
    *offset = o + 4;
    Ok(hi * 65536 + lo)
}

/// Reads a signed big-endian 32-bit value.
pub fn read_i32(data: &Vec<u8>, offset: &mut usize) -> (r: Result<i32, DecodeError>)
    ensures
        *old(offset) + 4 <= data.len() ==> r == Ok::<i32, DecodeError>(
            signed32(be_u32(data@, *old(offset) as int)) as i32,
        ) && *final(offset) == *old(offset) + 4,
        *old(offset) + 4 > data.len() ==> r == Err::<i32, DecodeError>(DecodeError::Truncated)
            && *final(offset) == *old(offset),
{
    let u = read_u32(data, offset)?;
    if u >= 0x8000_0000 {
        Ok((u as i64 - 0x1_0000_0000) as i32)
    } else {
        Ok(u as i32)
    }
}

/// Reads the text from `offset` up to the first NUL byte. The offset moves
/// to that NUL byte and no further: padding after the text is the caller's.
pub fn read_string(data: &Vec<u8>, offset: &mut usize) -> (r: Result<String, DecodeError>)
    ensures
        forall|e: int|
            #![trigger cstr_end(data@, *old(offset) as int, e)]
            cstr_end(data@, *old(offset) as int, e) ==> if valid_utf8(
                data@.subrange(*old(offset) as int, e),
            ) {
                &&& r is Ok
                &&& r->Ok_0@ == decode_utf8(data@.subrange(*old(offset) as int, e))
                &&& *final(offset) == e
            } else {
                r == Err::<String, DecodeError>(DecodeError::MalformedHeader)
            },
        (forall|e: int| !cstr_end(data@, *old(offset) as int, e)) ==> r == Err::<
            String,
            DecodeError,
        >(DecodeError::Truncated),
        r is Err ==> *final(offset) == *old(offset),
{
    let start = *offset;
    if start >= data.len() {
        return Err(DecodeError::Truncated);
    }
    let mut bytes: Vec<u8> = Vec::new();
    let mut i: usize = start;
    while i < data.len() && data[i] != 0
        invariant
            start <= i,
            i <= data.len(),
            *offset == start,
            bytes@ == data@.subrange(start as int, i as int),
            forall|k: int| start <= k < i ==> data@[k] != 0,
        decreases data.len() - i,
    {
        bytes.push(data[i]);
        i = i + 1;
        assert(bytes@ == data@.subrange(start as int, i as int));
    }
    if i >= data.len() {
        assert forall|e: int| !cstr_end(data@, start as int, e) by {
            if cstr_end(data@, start as int, e) {
                assert(data@[e] != 0);
            }
        }
        return Err(DecodeError::Truncated);
    }
    assert(cstr_end(data@, start as int, i as int));
    assert forall|e: int| cstr_end(data@, start as int, e) implies e == i by {
        if e < i {
            assert(data@[e] != 0);
        } else if e > i {
            assert(data@[i as int] != 0);
        }
    }
    match utf8_to_string(bytes) {
        Some(s) => {
            *offset = i;
            Ok(s)
        },
        None => Err(DecodeError::MalformedHeader),
    }
}

} // verus!
