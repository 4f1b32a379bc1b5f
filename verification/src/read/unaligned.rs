//! The body of an unaligned file. After the fixed header come the 32-bit
//! offsets of the first format entry and of the first data entry (zero when
//! there is none), then the build name and version, each ended by a zero
//! byte.
//!
//! A format entry holds the offset of the next one, the format id and the
//! zero-ended name. A data entry holds the offset of the next one, the
//! length of the bytes, the format id, the zero-ended name and the bytes.
use vstd::prelude::*;
use crate::endian::{read_u16, read_u32, u16_at, u32_at};
use crate::read::{
    format_position, format_records, data_records, lemma_prepend_step, parsed_as, positions_valid, prepend_ok,
    find_format_position, Body, DataRecord, FormatRecord, ParsedBody, SPBFDataForRead, SPBFDataFormatForRead,
    SPBFReaderDataReadError, SPBFReaderError, SPBFReaderFormatReadError, SPBFReaderHeaderReadError,
};
use crate::text::{decode_lossy, find_nul, lossy_text, scan_nul};

verus! {

/// The format entries of the chain that starts at `off`; `fuel` bounds the
/// entries visited, so that a chain that runs in a circle is refused.
pub open spec fn unaligned_formats(src: Seq<u8>, big: bool, off: int, fuel: nat) -> Result<
    Seq<FormatRecord>,
    SPBFReaderError,
>
    decreases fuel,
{
    if off == 0 {
        Ok(seq![])
    } else if fuel == 0 || src.len() < off {
        Err(SPBFReaderError::DataFormat(SPBFReaderFormatReadError::InvalidOffset))
    } else if src.len() < off + 6 {
        Err(SPBFReaderError::InvalidFileLength)
    } else {
        let next = u32_at(src, off, big);
        let id = u16_at(src, off + 4, big);
        match find_nul(src, off + 6) {
            None => Err(SPBFReaderError::DataFormat(SPBFReaderFormatReadError::InvalidNameString)),
            Some(end) => prepend_ok(
                seq![FormatRecord { data_id: id, name: lossy_text(src.subrange(off + 6, end)) }],
                unaligned_formats(src, big, next as int, (fuel - 1) as nat),
            ),
        }
    }
}

/// The data entries of the chain that starts at `off`, each tied to the
/// first of `fs` with its id.
pub open spec fn unaligned_data(
    src: Seq<u8>,
    big: bool,
    off: int,
    fs: Seq<FormatRecord>,
    fuel: nat,
) -> Result<Seq<DataRecord>, SPBFReaderError>
    decreases fuel,
{
    if off == 0 {
        Ok(seq![])
    } else if fuel == 0 || src.len() < off {
        Err(SPBFReaderError::Data(SPBFReaderDataReadError::InvalidOffset))
    } else if src.len() < off + 8 {
        Err(SPBFReaderError::InvalidFileLength)
    } else {
        let next = u32_at(src, off, big);
        let dlen = u16_at(src, off + 4, big) as int;
        let id = u16_at(src, off + 6, big);
        match format_position(fs, id) {
            None => Err(SPBFReaderError::Data(SPBFReaderDataReadError::InvalidDataId)),
            Some(pos) => if src.len() < off + 8 + dlen {
                Err(SPBFReaderError::Data(SPBFReaderDataReadError::InvalidDataLength))
            } else {
                match find_nul(src, off + 8) {
                    None => Err(SPBFReaderError::Data(SPBFReaderDataReadError::InvalidNameString)),
                    Some(end) => if src.len() < end + 1 + dlen {
                        Err(SPBFReaderError::Data(SPBFReaderDataReadError::InvalidDataLength))
                    } else {
                        prepend_ok(
                            seq![
                                DataRecord {
                                    name: lossy_text(src.subrange(off + 8, end)),
                                    bytes: src.subrange(end + 1, end + 1 + dlen),
                                    data_id: id,
                                    format_position: pos,
                                },
                            ],
                            unaligned_data(src, big, next as int, fs, (fuel - 1) as nat),
                        )
                    },
                }
            },
        }
    }
}

/// The body of an unaligned file, most significant byte first when `big`.
pub open spec fn unaligned_body(src: Seq<u8>, big: bool) -> Result<Body, SPBFReaderError> {
    if src.len() < 0x10 {
        Err(SPBFReaderError::InvalidFileLength)
    } else {
        match find_nul(src, 0x10) {
            None => Err(SPBFReaderError::Header(SPBFReaderHeaderReadError::InvalidBuildNameLength)),
            Some(name_end) => match find_nul(src, name_end + 1) {
                None => Err(SPBFReaderError::Header(SPBFReaderHeaderReadError::InvalidBuildVersionLength)),
                Some(version_end) => {
                    let fuel = src.len() as nat;
                    match unaligned_formats(src, big, u32_at(src, 0x8, big) as int, fuel) {
                        Err(e) => Err(e),
                        Ok(formats) => match unaligned_data(
                            src,
                            big,
                            u32_at(src, 0xC, big) as int,
                            formats,
                            fuel,
                        ) {
                            Err(e) => Err(e),
                            Ok(data) => Ok(
                                Body {
                                    build_name: lossy_text(src.subrange(0x10, name_end)),
                                    build_version: lossy_text(src.subrange(name_end + 1, version_end)),
                                    formats,
                                    data,
                                },
                            ),
                        },
                    }
                },
            },
        }
    }
}

/// Reads the chain of format entries that starts at `start`.
fn read_unaligned_formats(src: &[u8], big: bool, start: usize) -> (r: Result<
    Vec<SPBFDataFormatForRead>,
    SPBFReaderError,
>)
    ensures
        match unaligned_formats(src@, big, start as int, src@.len() as nat) {
            Ok(fs) => r matches Ok(v) && format_records(v@) == fs,
            Err(e) => r == Err::<Vec<SPBFDataFormatForRead>, SPBFReaderError>(e),
        },
{
    let ghost total = unaligned_formats(src@, big, start as int, src@.len() as nat);
    let mut list: Vec<SPBFDataFormatForRead> = Vec::new();
    let mut off = start;
    let mut fuel = src.len();
    assert(format_records(list@) =~= seq![]);
    assert(prepend_ok(seq![], unaligned_formats(src@, big, off as int, fuel as nat)) =~= total) by {
        if let Ok(s) = total {
            assert(Seq::<FormatRecord>::empty() + s =~= s);
        }
    }
    loop
        invariant
            total == unaligned_formats(src@, big, start as int, src@.len() as nat),
            total == prepend_ok(format_records(list@), unaligned_formats(src@, big, off as int, fuel as nat)),
        decreases fuel,
    {
        let ghost old_list = format_records(list@);
        if off == 0 {
            assert(old_list + seq![] =~= old_list);
            return Ok(list);
        }
        if fuel == 0 || src.len() < off {
            return Err(SPBFReaderError::DataFormat(SPBFReaderFormatReadError::InvalidOffset));
        }
        if src.len() - off < 6 {
            return Err(SPBFReaderError::InvalidFileLength);
        }
        let next = read_u32(src, off, big) as usize;
        let id = read_u16(src, off + 4, big);
        let end = match scan_nul(src, off + 6) {
            Some(e) => e,
            None => {
                return Err(SPBFReaderError::DataFormat(SPBFReaderFormatReadError::InvalidNameString));
            },
        };
        proof {
            crate::text::lemma_find_nul(src@, off + 6);
        }
        let name = decode_lossy(src, off + 6, end);
        let rec = SPBFDataFormatForRead::new(id, name);
        let ghost rv = rec@;
        list.push(rec);
        proof {
            assert(format_records(list@) =~= old_list.push(rv));
            lemma_prepend_step(old_list, rv, unaligned_formats(src@, big, next as int, (fuel - 1) as nat));
        }
        off = next;
        fuel = fuel - 1;
    }
}

/// Reads the chain of data entries that starts at `start`.
fn read_unaligned_data<'a>(
    src: &'a [u8],
    big: bool,
    start: usize,
    formats: &Vec<SPBFDataFormatForRead>,
) -> (r: Result<Vec<SPBFDataForRead<'a>>, SPBFReaderError>)
    ensures
        match unaligned_data(src@, big, start as int, format_records(formats@), src@.len() as nat) {
            Ok(ds) => r matches Ok(v) && data_records(v@) == ds && positions_valid(
                format_records(formats@),
                ds,
            ),
            Err(e) => r == Err::<Vec<SPBFDataForRead<'a>>, SPBFReaderError>(e),
        },
{
    let ghost fs = format_records(formats@);
    let ghost total = unaligned_data(src@, big, start as int, fs, src@.len() as nat);
    let mut list: Vec<SPBFDataForRead<'a>> = Vec::new();
    let mut off = start;
    let mut fuel = src.len();
    assert(data_records(list@) =~= seq![]);
    assert(prepend_ok(seq![], unaligned_data(src@, big, off as int, fs, fuel as nat)) =~= total) by {
        if let Ok(s) = total {
            assert(Seq::<DataRecord>::empty() + s =~= s);
        }
    }
    loop
        invariant
            fs == format_records(formats@),
            total == unaligned_data(src@, big, start as int, fs, src@.len() as nat),
            total == prepend_ok(data_records(list@), unaligned_data(src@, big, off as int, fs, fuel as nat)),
            positions_valid(fs, data_records(list@)),
        decreases fuel,
    {
        let ghost old_list = data_records(list@);
        if off == 0 {
            assert(old_list + seq![] =~= old_list);
            return Ok(list);
        }
        if fuel == 0 || src.len() < off {
            return Err(SPBFReaderError::Data(SPBFReaderDataReadError::InvalidOffset));
        }
        if src.len() - off < 8 {
            return Err(SPBFReaderError::InvalidFileLength);
        }
        let next = read_u32(src, off, big) as usize;
        let dlen = read_u16(src, off + 4, big) as usize;
        let id = read_u16(src, off + 6, big);
        let pos = match find_format_position(formats, id) {
            Some(p) => p,
            None => {
                return Err(SPBFReaderError::Data(SPBFReaderDataReadError::InvalidDataId));
            },
        };
        if src.len() - off - 8 < dlen {
            return Err(SPBFReaderError::Data(SPBFReaderDataReadError::InvalidDataLength));
        }
        let end = match scan_nul(src, off + 8) {
            Some(e) => e,
            None => {
                return Err(SPBFReaderError::Data(SPBFReaderDataReadError::InvalidNameString));
            },
        };
        proof {
            crate::text::lemma_find_nul(src@, off + 8);
        }
        if src.len() - end - 1 < dlen {
            return Err(SPBFReaderError::Data(SPBFReaderDataReadError::InvalidDataLength));
        }
        let name = decode_lossy(src, off + 8, end);
        let bytes = vstd::slice::slice_subrange(src, end + 1, end + 1 + dlen);
        let rec = SPBFDataForRead::new(name, bytes, id, pos);
        let ghost rv = rec@;
        list.push(rec);
        proof {
            assert(data_records(list@) =~= old_list.push(rv));
            lemma_prepend_step(old_list, rv, unaligned_data(src@, big, next as int, fs, (fuel - 1) as nat));
            assert forall|k: int| 0 <= k < data_records(list@).len() implies format_position(
                fs,
                #[trigger] data_records(list@)[k].data_id,
            ) == Some(data_records(list@)[k].format_position) by {
                if k < old_list.len() {
                    assert(data_records(list@)[k] == old_list[k]);
                }
            }
        }
        off = next;
        fuel = fuel - 1;
    }
}

/// Parses the body of an unaligned file.
pub fn read_unaligned_body<'a>(src: &'a [u8], big: bool) -> (r: Result<ParsedBody<'a>, SPBFReaderError>)
    ensures
        match unaligned_body(src@, big) {
            Ok(b) => r matches Ok(p) && parsed_as(p, b),
            Err(e) => r matches Err(e2) && e2 == e,
        },
{
    if src.len() < 0x10 {
        return Err(SPBFReaderError::InvalidFileLength);
    }
    let name_end = match scan_nul(src, 0x10) {
        Some(e) => e,
        None => {
            return Err(SPBFReaderError::Header(SPBFReaderHeaderReadError::InvalidBuildNameLength));
        },
    };
    proof {
        crate::text::lemma_find_nul(src@, 0x10);
    }
    let version_end = match scan_nul(src, name_end + 1) {
        Some(e) => e,
        None => {
            return Err(SPBFReaderError::Header(SPBFReaderHeaderReadError::InvalidBuildVersionLength));
        },
    };
    proof {
        crate::text::lemma_find_nul(src@, name_end + 1);
    }
    let build_name = decode_lossy(src, 0x10, name_end);
    let build_version = decode_lossy(src, name_end + 1, version_end);
    let formats = match read_unaligned_formats(src, big, read_u32(src, 0x8, big) as usize) {
        Ok(f) => f,
        Err(e) => {
            return Err(e);
        },
    };
    let data = match read_unaligned_data(src, big, read_u32(src, 0xC, big) as usize, &formats) {
        Ok(d) => d,
        Err(e) => {
            return Err(e);
        },
    };
    Ok(ParsedBody { build_name, build_version, formats, data })
}

} // verus!
