//! Writing an aligned little-endian files.
use vstd::prelude::*;
use crate::write::{writes_as, SPBFWriter, SPBFWriterError};
use crate::write::aligned::{aligned_file, write_aligned};

verus! {

/// The writer of an aligned little-endian files.
pub struct RawWriterSmallAlignedLittleEndian;

impl RawWriterSmallAlignedLittleEndian {
    /// Lays the writer's contents out as an aligned little-endian file.
    pub fn write(writer: &mut SPBFWriter) -> (r: Result<Vec<u8>, SPBFWriterError>)
        ensures
            final(writer)@ == old(writer)@,
            writes_as(r, aligned_file(old(writer)@, 2u8, false)),
    {
        write_aligned(writer, 2u8, false)
    }
}

} // verus!
