//! The fixed part of the header: the magic bytes, the file type and the
//! format version.
use vstd::prelude::*;
use crate::{type_of_byte, version_of, SPBFType, SPBFVersion};

verus! {

/// The magic bytes that open every SPBF file: ".SPBF" and a zero byte.
pub open spec fn magic() -> Seq<u8> {
    seq![0x2Eu8, 0x53u8, 0x50u8, 0x42u8, 0x46u8, 0x00u8]
}

/// The length of the fixed part of the header.
pub open spec fn header_len() -> int {
    8
}

/// The file is long enough to hold the fixed part of the header.
pub fn check_header_len(bytes: &[u8]) -> (r: bool)
    ensures
        r == (bytes@.len() >= header_len()),
{
    bytes.len() >= 8
}

/// The file starts with the magic bytes.
pub fn check_magic(bytes: &[u8]) -> (r: bool)
    ensures
        r == (bytes@.len() >= 6 && bytes@.subrange(0, 6) == magic()),
{
    if bytes.len() < 6 {
        return false;
    }
    let r = bytes[0] == 0x2E && bytes[1] == 0x53 && bytes[2] == 0x50 && bytes[3] == 0x42 && bytes[4]
        == 0x46 && bytes[5] == 0x00;
    assert(r == (bytes@.subrange(0, 6) =~= magic()));
    r
}

/// The file type named by the header.
pub fn read_type(bytes: &[u8]) -> (r: Result<SPBFType, ()>)
    requires
        bytes@.len() >= 7,
    ensures
        match type_of_byte(bytes@[6]) {
            Some(t) => r == Ok::<SPBFType, ()>(t),
            None => r is Err,
        },
{
    match SPBFType::from_raw(bytes[6]) {
        Some(t) => Ok(t),
        None => Err(()),
    }
}

/// The format version named by the header.
pub fn read_version(bytes: &[u8]) -> (r: SPBFVersion)
    requires
        bytes@.len() >= 8,
    ensures
        r == version_of(bytes@[7]),
{
    SPBFVersion::new(bytes[7])
}

} // verus!
