//! Writing an unaligned little-endian files.
use vstd::prelude::*;
use crate::write::{writes_as, SPBFWriter, SPBFWriterError};
use crate::write::unaligned::{unaligned_file, write_unaligned};

verus! {

/// The writer of an unaligned little-endian files.
pub struct RawWriterSmallUnalignedLittleEndian;

impl RawWriterSmallUnalignedLittleEndian {
    /// Lays the writer's contents out as an unaligned little-endian file.
    pub fn write(writer: &mut SPBFWriter) -> (r: Result<Vec<u8>, SPBFWriterError>)
        ensures
            final(writer)@ == old(writer)@,
            writes_as(r, unaligned_file(old(writer)@, 0u8, false)),
    {
        write_unaligned(writer, 0u8, false)
    }
}

} // verus!
