//! Writing an aligned big-endian files.
use vstd::prelude::*;
use crate::write::{writes_as, SPBFWriter, SPBFWriterError};
use crate::write::aligned::{aligned_file, write_aligned};

verus! {

/// The writer of an aligned big-endian files.
pub struct RawWriterSmallAlignedBigEndian;

impl RawWriterSmallAlignedBigEndian {
    /// Lays the writer's contents out as an aligned big-endian file.
    pub fn write(writer: &mut SPBFWriter) -> (r: Result<Vec<u8>, SPBFWriterError>)
        ensures
            final(writer)@ == old(writer)@,
            writes_as(r, aligned_file(old(writer)@, 3u8, true)),
    {
        write_aligned(writer, 3u8, true)
    }
}

} // verus!
