//! Reading aligned big-endian files.
use vstd::prelude::*;
use crate::read::{reads_as, parsed_as, SPBFReadResult, SPBFReader, SPBFReaderError};
use crate::read::aligned::{aligned_body, read_aligned_body};
use crate::{SPBFType, SPBFVersion};

verus! {

/// The reader of aligned big-endian files.
pub struct RawReaderSmallAlignedBigEndian;

impl RawReaderSmallAlignedBigEndian {
    /// Parses the body of the reader's file as aligned big-endian and joins it with
    /// the given type and version.
    pub fn read<'a>(reader: &'a SPBFReader, file_type: SPBFType, file_version: SPBFVersion) -> (r: Result<
        SPBFReadResult<'a>,
        SPBFReaderError,
    >)
        ensures
            reads_as(r, aligned_body(reader@.source, true), file_type, file_version),
    {
        let body = match read_aligned_body(reader.source(), true) {
            Ok(b) => b,
            Err(e) => {
                return Err(e);
            },
        };
        Ok(
            SPBFReadResult::from_parts(
                file_type,
                file_version,
                body.build_name,
                body.build_version,
                body.formats,
                body.data,
            ),
        )
    }
}

} // verus!
