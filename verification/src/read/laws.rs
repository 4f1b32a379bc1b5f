//! Laws about the errors with which reading refuses a file.
use vstd::prelude::*;
use crate::read::aligned::{aligned_body, aligned_data, aligned_formats};
use crate::read::unaligned::{unaligned_body, unaligned_data, unaligned_formats};
use crate::read::{
    body_for, read_file, FormatRecord, ReaderView, SPBFReaderError, SPBFReaderHeaderReadError,
};

verus! {

/// The error that refuses a file whose version cannot be read.
pub open spec fn unsupported_version_error() -> SPBFReaderError {
    SPBFReaderError::Header(SPBFReaderHeaderReadError::UnsupportedVersion)
}

proof fn lemma_aligned_formats_errors(src: Seq<u8>, big: bool, off: int, fuel: nat)
    ensures
        aligned_formats(src, big, off, fuel) matches Err(e) ==> e !is Header,
    decreases fuel,
{
    if fuel > 0 {
        let next = crate::endian::u32_at(src, off, big);
        lemma_aligned_formats_errors(src, big, next as int, (fuel - 1) as nat);
    }
}

proof fn lemma_aligned_data_errors(src: Seq<u8>, big: bool, off: int, fs: Seq<FormatRecord>, fuel: nat)
    ensures
        aligned_data(src, big, off, fs, fuel) matches Err(e) ==> e !is Header,
    decreases fuel,
{
    if fuel > 0 {
        let next = crate::endian::u32_at(src, off, big);
        lemma_aligned_data_errors(src, big, next as int, fs, (fuel - 1) as nat);
    }
}

proof fn lemma_unaligned_formats_errors(src: Seq<u8>, big: bool, off: int, fuel: nat)
    ensures
        unaligned_formats(src, big, off, fuel) matches Err(e) ==> e !is Header,
    decreases fuel,
{
    if fuel > 0 {
        let next = crate::endian::u32_at(src, off, big);
        lemma_unaligned_formats_errors(src, big, next as int, (fuel - 1) as nat);
    }
}

proof fn lemma_unaligned_data_errors(src: Seq<u8>, big: bool, off: int, fs: Seq<FormatRecord>, fuel: nat)
    ensures
        unaligned_data(src, big, off, fs, fuel) matches Err(e) ==> e !is Header,
    decreases fuel,
{
    if fuel > 0 {
        let next = crate::endian::u32_at(src, off, big);
        lemma_unaligned_data_errors(src, big, next as int, fs, (fuel - 1) as nat);
    }
}

/// Parsing the body of a file never gives the version error: that error
/// comes from the header alone.
pub proof fn lemma_body_never_refuses_version(src: Seq<u8>, t: crate::SPBFType)
    ensures
        body_for(src, t) != Err::<crate::read::Body, SPBFReaderError>(unsupported_version_error()),
{
    let big = t == crate::SPBFType::SmallUnalignedBigEndian || t == crate::SPBFType::SmallAlignedBigEndian;
    let fuel = src.len() as nat;
    let fo = crate::endian::u32_at(src, 0x8, big) as int;
    let dof = crate::endian::u32_at(src, 0xC, big) as int;
    lemma_aligned_formats_errors(src, big, fo, fuel);
    lemma_unaligned_formats_errors(src, big, fo, fuel);
    if let Ok(fs) = aligned_formats(src, big, fo, fuel) {
        lemma_aligned_data_errors(src, big, dof, fs, fuel);
    }
    if let Ok(fs) = unaligned_formats(src, big, fo, fuel) {
        lemma_unaligned_data_errors(src, big, dof, fs, fuel);
    }
}

/// Reading refuses a file with the version error exactly when the reader
/// cannot read the file's version, and then whatever the rest of the file
/// holds; a file that reads has a supported version.
pub proof fn law_read_refuses_version_exactly_when_unsupported(r: ReaderView)
    ensures
        (read_file(r.source, r.file_type, r.file_version) == Err::<crate::read::Body, SPBFReaderError>(
            unsupported_version_error(),
        )) <==> !r.file_version.spec_is_supported(),
        read_file(r.source, r.file_type, r.file_version) is Ok ==> r.file_version.spec_is_supported(),
{
    lemma_body_never_refuses_version(r.source, r.file_type);
}

} // verus!
