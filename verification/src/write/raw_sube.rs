//! Writing an unaligned big-endian files.
use vstd::prelude::*;
use crate::write::{writes_as, SPBFWriter, SPBFWriterError};
use crate::write::unaligned::{unaligned_file, write_unaligned};

verus! {

/// The writer of an unaligned big-endian files.
pub struct RawWriterSmallUnalignedBigEndian;

impl RawWriterSmallUnalignedBigEndian {
    /// Lays the writer's contents out as an unaligned big-endian file.
    pub fn write(writer: &mut SPBFWriter) -> (r: Result<Vec<u8>, SPBFWriterError>)
        ensures
            final(writer)@ == old(writer)@,
            writes_as(r, unaligned_file(old(writer)@, 1u8, true)),
    {
        write_unaligned(writer, 1u8, true)
    }
}

} // verus!
