//! Small helpers shared by the file layouts: padding to even lengths,
//! range checks of lengths and offsets, and the byte form of names.
use vstd::prelude::*;
use crate::text::{has_nul, string_bytes, contains_nul, text_bytes};
use crate::write::SPBFWriterError;

verus! {

/// A length rounded up to the next even number.
pub open spec fn aligned_len(len: int) -> int {
    len + len % 2
}

/// The zero bytes that pad a block of `len` bytes to an even length.
pub open spec fn padding(len: int) -> Seq<u8> {
    if len % 2 == 1 {
        seq![0u8]
    } else {
        seq![]
    }
}

/// Rounds a length up to the next even number.
pub fn align_len_small(len: usize) -> (r: usize)
    requires
        len < usize::MAX,
    ensures
        r == aligned_len(len as int),
{
    assert(len & 1 == len % 2) by (bit_vector);
    len + (len & 1)
}

/// `value` as a 32-bit offset, or `err` when it does not fit below `u32::MAX`.
pub fn usize_to_u32(value: usize, err: SPBFWriterError) -> (r: Result<u32, SPBFWriterError>)
    ensures
        r == (if value >= u32::MAX { Err::<u32, SPBFWriterError>(err) } else { Ok(value as u32) }),
{
    if value >= u32::MAX as usize {
        Err(err)
    } else {
        Ok(value as u32)
    }
}

/// `value` as a 16-bit length, or `err` when it does not fit below `u16::MAX`.
pub fn usize_to_u16(value: usize, err: SPBFWriterError) -> (r: Result<u16, SPBFWriterError>)
    ensures
        r == (if value >= u16::MAX { Err::<u16, SPBFWriterError>(err) } else { Ok(value as u16) }),
{
    if value >= u16::MAX as usize {
        Err(err)
    } else {
        Ok(value as u16)
    }
}

/// How many padding bytes follow `bytes` in an aligned file.
pub fn bytes_align_small(bytes: &[u8]) -> (r: usize)
    ensures
        r == bytes@.len() % 2,
        r as int == aligned_len(bytes@.len() as int) - bytes@.len(),
{
    bytes.len() % 2
}

/// The bytes of a string and how many padding bytes follow them in an
/// aligned file.
pub fn str_to_bytes_align_small(str: &String) -> (r: (&[u8], usize))
    ensures
        r.0@ == text_bytes(str@),
        r.1 == text_bytes(str@).len() % 2,
{
    let bytes = string_bytes(str);
    let pad = bytes_align_small(bytes);
    (bytes, pad)
}

/// The bytes of a string followed by a terminating zero, as an unaligned
/// file stores it; refused when the string itself holds a zero byte.
pub fn str_to_bytes_unaligned_small(str: String) -> (r: Result<Vec<u8>, ()>)
    ensures
        has_nul(text_bytes(str@)) ==> r is Err,
        !has_nul(text_bytes(str@)) ==> (r matches Ok(v) && v@ == text_bytes(str@).push(0u8)),
{
    let bytes = string_bytes(&str);
    if contains_nul(bytes) {
        Err(())
    } else {
        let mut v = vstd::slice::slice_to_vec(bytes);
        v.push(0u8);
        Ok(v)
    }
}

} // verus!
