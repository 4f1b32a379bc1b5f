//! Reading unaligned little-endian files.
use vstd::prelude::*;
use crate::read::{reads_as, parsed_as, SPBFReadResult, SPBFReader, SPBFReaderError};
use crate::read::unaligned::{unaligned_body, read_unaligned_body};
use crate::{SPBFType, SPBFVersion};

verus! {

/// The reader of unaligned little-endian files.
pub struct RawReaderSmallUnalignedLittleEndian;

impl RawReaderSmallUnalignedLittleEndian {
    /// Parses the body of the reader's file as unaligned little-endian and joins it with
    /// the given type and version.
    pub fn read<'a>(reader: &'a SPBFReader, file_type: SPBFType, file_version: SPBFVersion) -> (r: Result<
        SPBFReadResult<'a>,
        SPBFReaderError,
    >)
        ensures
            reads_as(r, unaligned_body(reader@.source, false), file_type, file_version),
    {
        let body = match read_unaligned_body(reader.source(), false) {
            Ok(b) => b,
            Err(e) => {
                return Err(e);
            },
        };
        Ok(
            SPBFReadResult::from_parts(
                file_type,
                file_version,
                body.build_name,
                body.build_version,
                body.formats,
                body.data,
            ),
        )
    }
}

} // verus!
