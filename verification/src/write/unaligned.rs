//! Laying out an unaligned file (see the reader of unaligned files for the
//! layout): strings are ended by a zero byte, so none may hold one; data
//! lengths are 16-bit fields and must stay below `u16::MAX`; every entry
//! offset must stay below `u32::MAX`.
use vstd::prelude::*;
use crate::endian::{push_u16, push_u32, u16_bytes, u32_bytes};
use crate::text::{contains_nul, has_nul, string_bytes, text_bytes};
use crate::write::{
    formats_view, data_view, lemma_prefix_step, prefix_ok, push_bytes, push_fixed_header, DataEntry,
    FormatEntry, SPBFDataForWrite, SPBFDataFormatForWrite, SPBFWriter, SPBFWriterError, SPBFWriterWriteError,
    WriterView,
};

verus! {

/// One format entry: the offset of the next entry, the format id and the
/// zero-ended name.
pub open spec fn unaligned_format_entry(next: u32, nb: Seq<u8>, id: u16, big: bool) -> Seq<u8> {
    u32_bytes(next, big) + u16_bytes(id, big) + nb + seq![0u8]
}

/// One data entry: the offset of the next entry, the length of the bytes,
/// the format id, the zero-ended name and the bytes.
pub open spec fn unaligned_data_entry(next: u32, nb: Seq<u8>, id: u16, db: Seq<u8>, big: bool) -> Seq<u8> {
    u32_bytes(next, big) + u16_bytes(db.len() as u16, big) + u16_bytes(id, big) + nb + seq![0u8] + db
}

/// The format entries, the first starting at offset `start`, each pointing
/// at the next and the last at zero.
pub open spec fn unaligned_format_entries(fs: Seq<FormatEntry>, start: int, big: bool) -> Result<
    Seq<u8>,
    SPBFWriterError,
>
    decreases fs.len(),
{
    if fs.len() == 0 {
        Ok(seq![])
    } else if start >= u32::MAX {
        Err(SPBFWriterError::Write(SPBFWriterWriteError::InvalidOffset))
    } else {
        let nb = text_bytes(fs[0].name);
        if has_nul(nb) {
            Err(SPBFWriterError::Write(SPBFWriterWriteError::InvalidDataFormatNameString))
        } else {
            let len = 6 + nb.len() + 1;
            let next = if fs.len() == 1 {
                0
            } else {
                start + len
            };
            prefix_ok(
                unaligned_format_entry(next as u32, nb, fs[0].data_id, big),
                unaligned_format_entries(fs.drop_first(), start + len, big),
            )
        }
    }
}

/// The data entries, the first starting at offset `start`, each pointing at
/// the next and the last at zero.
pub open spec fn unaligned_data_entries(ds: Seq<DataEntry>, start: int, big: bool) -> Result<
    Seq<u8>,
    SPBFWriterError,
>
    decreases ds.len(),
{
    if ds.len() == 0 {
        Ok(seq![])
    } else if start >= u32::MAX {
        Err(SPBFWriterError::Write(SPBFWriterWriteError::InvalidOffset))
    } else if ds[0].bytes.len() >= u16::MAX {
        Err(SPBFWriterError::Write(SPBFWriterWriteError::InvalidDataLength))
    } else {
        let nb = text_bytes(ds[0].name);
        let db = ds[0].bytes;
        if has_nul(nb) {
            Err(SPBFWriterError::Write(SPBFWriterWriteError::InvalidDataNameString))
        } else {
            let len = 8 + nb.len() + 1 + db.len();
            let next = if ds.len() == 1 {
                0
            } else {
                start + len
            };
            prefix_ok(
                unaligned_data_entry(next as u32, nb, ds[0].data_id, db, big),
                unaligned_data_entries(ds.drop_first(), start + len, big),
            )
        }
    }
}

/// The length of the header of an unaligned file.
pub open spec fn unaligned_header_len(w: WriterView) -> int {
    0x10 + text_bytes(w.build_name).len() as int + 1 + text_bytes(w.build_version).len() as int + 1
}

/// The header of an unaligned file: the magic bytes, the type byte, the
/// version byte, the offsets of the first format and data entries, and the
/// zero-ended build name and version.
pub open spec fn unaligned_header(type_byte: u8, fe: u32, de: u32, nb: Seq<u8>, vb: Seq<u8>, big: bool) -> Seq<
    u8,
> {
    crate::read::raw::magic() + seq![type_byte, 1u8] + u32_bytes(fe, big) + u32_bytes(de, big) + nb + seq![0u8]
        + vb + seq![0u8]
}

/// The unaligned file that holds the writer's contents, with the given type
/// byte; refused when a string holds a zero byte, or a length or an offset
/// does not fit its field.
pub open spec fn unaligned_file(w: WriterView, type_byte: u8, big: bool) -> Result<Seq<u8>, SPBFWriterError> {
    let nb = text_bytes(w.build_name);
    let vb = text_bytes(w.build_version);
    if has_nul(nb) {
        Err(SPBFWriterError::Write(SPBFWriterWriteError::InvalidNameString))
    } else if has_nul(vb) {
        Err(SPBFWriterError::Write(SPBFWriterWriteError::InvalidVersionString))
    } else {
        let hlen = unaligned_header_len(w);
        match unaligned_format_entries(w.formats, hlen, big) {
            Err(e) => Err(e),
            Ok(fb) => {
                let dstart = hlen + fb.len();
                match unaligned_data_entries(w.data, dstart, big) {
                    Err(e) => Err(e),
                    Ok(db) => {
                        let fe = if w.formats.len() == 0 {
                            0
                        } else {
                            hlen
                        };
                        let de = if w.data.len() == 0 {
                            0
                        } else {
                            dstart
                        };
                        Ok(unaligned_header(type_byte, fe as u32, de as u32, nb, vb, big) + fb + db)
                    },
                }
            },
        }
    }
}

/// Appends one format entry.
fn push_format_entry(out: &mut Vec<u8>, next: u32, name: &[u8], id: u16, big: bool)
    ensures
        final(out)@ == old(out)@ + unaligned_format_entry(next, name@, id, big),
{
    push_u32(out, next, big);
    push_u16(out, id, big);
    push_bytes(out, name);
    out.push(0u8);
    assert(final(out)@ =~= old(out)@ + unaligned_format_entry(next, name@, id, big));
}

/// Appends one data entry.
fn push_data_entry(out: &mut Vec<u8>, next: u32, name: &[u8], id: u16, bytes: &[u8], big: bool)
    requires
        bytes@.len() < u16::MAX,
    ensures
        final(out)@ == old(out)@ + unaligned_data_entry(next, name@, id, bytes@, big),
{
    push_u32(out, next, big);
    push_u16(out, bytes.len() as u16, big);
    push_u16(out, id, big);
    push_bytes(out, name);
    out.push(0u8);
    push_bytes(out, bytes);
    assert(final(out)@ =~= old(out)@ + unaligned_data_entry(next, name@, id, bytes@, big));
}

/// Lays out the format entries, the first at offset `start`.
fn write_unaligned_formats(formats: &Vec<SPBFDataFormatForWrite>, start: u128, big: bool) -> (r: Result<
    Vec<u8>,
    SPBFWriterError,
>)
    requires
        start <= 0x12 + 2 * (usize::MAX as int),
    ensures
        match unaligned_format_entries(formats_view(formats@), start as int, big) {
            Ok(b) => r matches Ok(v) && v@ == b,
            Err(e) => r == Err::<Vec<u8>, SPBFWriterError>(e),
        },
{
    let ghost fs = formats_view(formats@);
    let ghost total = unaligned_format_entries(fs, start as int, big);
    let n = formats.len();
    let mut out: Vec<u8> = Vec::new();
    let mut off = start;
    let mut i: usize = 0;
    assert(fs.subrange(0, n as int) =~= fs);
    assert(prefix_ok(out@, total) =~= total) by {
        if let Ok(s) = total {
            assert(Seq::<u8>::empty() + s =~= s);
        }
    }
    while i < n
        invariant
            n == formats@.len(),
            fs == formats_view(formats@),
            i <= n,
            off <= 0x12 + 2 * (usize::MAX as int) || off < u32::MAX + usize::MAX + 8,
            total == unaligned_format_entries(fs, start as int, big),
            total == prefix_ok(out@, unaligned_format_entries(fs.subrange(i as int, n as int), off as int, big)),
        decreases n - i,
    {
        let ghost rest = fs.subrange(i as int, n as int);
        assert(rest[0] == formats@[i as int]@);
        assert(rest.drop_first() =~= fs.subrange(i + 1, n as int));
        if off >= u32::MAX as u128 {
            return Err(SPBFWriterError::Write(SPBFWriterWriteError::InvalidOffset));
        }
        let f = &formats[i];
        let name = string_bytes(f.name());
        if contains_nul(name) {
            return Err(SPBFWriterError::Write(SPBFWriterWriteError::InvalidDataFormatNameString));
        }
        let len: u128 = 7 + name.len() as u128;
        let next: u128 = if i + 1 == n {
            0
        } else {
            off + len
        };
        let ghost before = out@;
        push_format_entry(&mut out, next as u32, name, f.data_id(), big);
        proof {
            let entry = unaligned_format_entry(next as u32, name@, rest[0].data_id, big);
            lemma_prefix_step(before, entry, unaligned_format_entries(rest.drop_first(), off + len, big));
        }
        off = off + len;
        i = i + 1;
    }
    assert(fs.subrange(n as int, n as int) =~= Seq::<FormatEntry>::empty());
    assert(out@ + seq![] =~= out@);
    Ok(out)
}

/// Lays out the data entries, the first at offset `start`.
fn write_unaligned_data(data: &Vec<SPBFDataForWrite>, start: u128, big: bool) -> (r: Result<
    Vec<u8>,
    SPBFWriterError,
>)
    requires
        start <= 0x12 + 3 * (usize::MAX as int),
    ensures
        match unaligned_data_entries(data_view(data@), start as int, big) {
            Ok(b) => r matches Ok(v) && v@ == b,
            Err(e) => r == Err::<Vec<u8>, SPBFWriterError>(e),
        },
{
    let ghost ds = data_view(data@);
    let ghost total = unaligned_data_entries(ds, start as int, big);
    let n = data.len();
    let mut out: Vec<u8> = Vec::new();
    let mut off = start;
    let mut i: usize = 0;
    assert(ds.subrange(0, n as int) =~= ds);
    assert(prefix_ok(out@, total) =~= total) by {
        if let Ok(s) = total {
            assert(Seq::<u8>::empty() + s =~= s);
        }
    }
    while i < n
        invariant
            n == data@.len(),
            ds == data_view(data@),
            i <= n,
            off <= 0x12 + 3 * (usize::MAX as int) || off < u32::MAX + usize::MAX + 0x10010,
            total == unaligned_data_entries(ds, start as int, big),
            total == prefix_ok(out@, unaligned_data_entries(ds.subrange(i as int, n as int), off as int, big)),
        decreases n - i,
    {
        let ghost rest = ds.subrange(i as int, n as int);
        assert(rest[0] == data@[i as int]@);
        assert(rest.drop_first() =~= ds.subrange(i + 1, n as int));
        if off >= u32::MAX as u128 {
            return Err(SPBFWriterError::Write(SPBFWriterWriteError::InvalidOffset));
        }
        let d = &data[i];
        let bytes = d.data();
        if bytes.len() >= u16::MAX as usize {
            return Err(SPBFWriterError::Write(SPBFWriterWriteError::InvalidDataLength));
        }
        let name = string_bytes(d.name());
        if contains_nul(name) {
            return Err(SPBFWriterError::Write(SPBFWriterWriteError::InvalidDataNameString));
        }
        let len: u128 = 9 + name.len() as u128 + bytes.len() as u128;
        let next: u128 = if i + 1 == n {
            0
        } else {
            off + len
        };
        let ghost before = out@;
        push_data_entry(&mut out, next as u32, name, d.data_id(), bytes, big);
        proof {
            let entry = unaligned_data_entry(next as u32, name@, rest[0].data_id, bytes@, big);
            lemma_prefix_step(before, entry, unaligned_data_entries(rest.drop_first(), off + len, big));
        }
        off = off + len;
        i = i + 1;
    }
    assert(ds.subrange(n as int, n as int) =~= Seq::<DataEntry>::empty());
    assert(out@ + seq![] =~= out@);
    Ok(out)
}

/// Appends the header of an unaligned file.
fn push_header(out: &mut Vec<u8>, type_byte: u8, fe: u32, de: u32, name: &[u8], version: &[u8], big: bool)
    ensures
        final(out)@ == old(out)@ + unaligned_header(type_byte, fe, de, name@, version@, big),
{
    push_fixed_header(out, type_byte);
    push_u32(out, fe, big);
    push_u32(out, de, big);
    push_bytes(out, name);
    out.push(0u8);
    push_bytes(out, version);
    out.push(0u8);
    assert(final(out)@ =~= old(out)@ + unaligned_header(type_byte, fe, de, name@, version@, big));
}

/// Lays out the writer's contents as an unaligned file with the given type
/// byte.
pub fn write_unaligned(writer: &SPBFWriter, type_byte: u8, big: bool) -> (r: Result<Vec<u8>, SPBFWriterError>)
    ensures
        match unaligned_file(writer@, type_byte, big) {
            Ok(b) => r matches Ok(v) && v@ == b,
            Err(e) => r == Err::<Vec<u8>, SPBFWriterError>(e),
        },
{
    let name = string_bytes(&writer.build_name);
    let version = string_bytes(&writer.build_version);
    assert(writer@.build_name == writer.build_name@);
    if contains_nul(name) {
        return Err(SPBFWriterError::Write(SPBFWriterWriteError::InvalidNameString));
    }
    if contains_nul(version) {
        return Err(SPBFWriterError::Write(SPBFWriterWriteError::InvalidVersionString));
    }
    let hlen: u128 = 0x12 + name.len() as u128 + version.len() as u128;
    let formats = writer.data_formats();
    let data = writer.data();
    let fbytes = match write_unaligned_formats(formats, hlen, big) {
        Ok(b) => b,
        Err(e) => {
            return Err(e);
        },
    };
    let fe: u128 = if formats.len() == 0 {
        0
    } else {
        hlen
    };
    let dstart: u128 = hlen + fbytes.len() as u128;
    let dbytes = match write_unaligned_data(data, dstart, big) {
        Ok(b) => b,
        Err(e) => {
            return Err(e);
        },
    };
    let de: u128 = if data.len() == 0 {
        0
    } else {
        dstart
    };
    let mut out: Vec<u8> = Vec::new();
    push_header(&mut out, type_byte, fe as u32, de as u32, name, version, big);
    let mut fbytes = fbytes;
    let mut dbytes = dbytes;
    out.append(&mut fbytes);
    out.append(&mut dbytes);
    Ok(out)
}

} // verus!
