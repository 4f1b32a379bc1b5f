//! Laying out an aligned file (see the reader of aligned files for the
//! layout): strings and data blocks are padded to even lengths and their
//! lengths are stored as 16-bit fields, so each must stay below `u16::MAX`;
//! every entry offset must stay below `u32::MAX`.
use vstd::prelude::*;
use crate::endian::{push_u16, push_u32, u16_bytes, u32_bytes};
use crate::raw::{aligned_len, padding, str_to_bytes_align_small};
use crate::text::text_bytes;
use crate::write::{
    formats_view, data_view, lemma_prefix_step, prefix_ok, push_bytes, push_fixed_header, push_padding,
    DataEntry, FormatEntry, SPBFDataForWrite, SPBFDataFormatForWrite, SPBFWriter, SPBFWriterError,
    SPBFWriterWriteError, WriterView,
};

verus! {

/// One format entry: the offset of the next entry, the name's length, the
/// format id and the padded name.
pub open spec fn aligned_format_entry(next: u32, nb: Seq<u8>, id: u16, big: bool) -> Seq<u8> {
    u32_bytes(next, big) + u16_bytes(nb.len() as u16, big) + u16_bytes(id, big) + nb + padding(nb.len() as int)
}

/// One data entry: the offset of the next entry, the length of the bytes,
/// the format id, the name's length, the padded name and the padded bytes.
pub open spec fn aligned_data_entry(next: u32, nb: Seq<u8>, id: u16, db: Seq<u8>, big: bool) -> Seq<u8> {
    u32_bytes(next, big) + u16_bytes(db.len() as u16, big) + u16_bytes(id, big) + u16_bytes(nb.len() as u16, big)
        + nb + padding(nb.len() as int) + db + padding(db.len() as int)
}

/// The format entries, the first starting at offset `start`, each pointing
/// at the next and the last at zero.
pub open spec fn aligned_format_entries(fs: Seq<FormatEntry>, start: int, big: bool) -> Result<
    Seq<u8>,
    SPBFWriterError,
>
    decreases fs.len(),
{
    if fs.len() == 0 {
        Ok(seq![])
    } else if start >= u32::MAX {
        Err(SPBFWriterError::Write(SPBFWriterWriteError::InvalidOffset))
    } else {
        let nb = text_bytes(fs[0].name);
        if nb.len() >= u16::MAX {
            Err(SPBFWriterError::Write(SPBFWriterWriteError::InvalidDataFormatNameLength))
        } else {
            let len = 8 + aligned_len(nb.len() as int);
            let next = if fs.len() == 1 {
                0
            } else {
                start + len
            };
            prefix_ok(
                aligned_format_entry(next as u32, nb, fs[0].data_id, big),
                aligned_format_entries(fs.drop_first(), start + len, big),
            )
        }
    }
}

/// The data entries, the first starting at offset `start`, each pointing at
/// the next and the last at zero.
pub open spec fn aligned_data_entries(ds: Seq<DataEntry>, start: int, big: bool) -> Result<
    Seq<u8>,
    SPBFWriterError,
>
    decreases ds.len(),
{
    if ds.len() == 0 {
        Ok(seq![])
    } else if start >= u32::MAX {
        Err(SPBFWriterError::Write(SPBFWriterWriteError::InvalidOffset))
    } else if ds[0].bytes.len() >= u16::MAX {
        Err(SPBFWriterError::Write(SPBFWriterWriteError::InvalidDataLength))
    } else {
        let nb = text_bytes(ds[0].name);
        let db = ds[0].bytes;
        if nb.len() >= u16::MAX {
            Err(SPBFWriterError::Write(SPBFWriterWriteError::InvalidDataNameLength))
        } else {
            let len = 0xA + aligned_len(nb.len() as int) + aligned_len(db.len() as int);
            let next = if ds.len() == 1 {
                0
            } else {
                start + len
            };
            prefix_ok(
                aligned_data_entry(next as u32, nb, ds[0].data_id, db, big),
                aligned_data_entries(ds.drop_first(), start + len, big),
            )
        }
    }
}

/// The format entries end below offset `u32::MAX + 0x20000`.
pub proof fn lemma_aligned_format_entries_end(fs: Seq<FormatEntry>, start: int, big: bool)
    requires
        0 <= start < u32::MAX + 0x20000,
    ensures
        aligned_format_entries(fs, start, big) matches Ok(b) ==> start + b.len() < u32::MAX + 0x20000,
    decreases fs.len(),
{
    if fs.len() > 0 && start < u32::MAX {
        let nb = text_bytes(fs[0].name);
        let len = 8 + aligned_len(nb.len() as int);
        if nb.len() < u16::MAX {
            lemma_aligned_format_entries_end(fs.drop_first(), start + len, big);
        }
    }
}

/// The length of the header of an aligned file.
pub open spec fn aligned_header_len(w: WriterView) -> int {
    0x14 + aligned_len(text_bytes(w.build_name).len() as int) + aligned_len(
        text_bytes(w.build_version).len() as int,
    )
}

/// The header of an aligned file: the magic bytes, the type byte, the
/// version byte, the offsets of the first format and data entries, the
/// lengths of the build name and version, and the two padded strings.
pub open spec fn aligned_header(type_byte: u8, fe: u32, de: u32, nb: Seq<u8>, vb: Seq<u8>, big: bool) -> Seq<u8> {
    crate::read::raw::magic() + seq![type_byte, 1u8] + u32_bytes(fe, big) + u32_bytes(de, big) + u16_bytes(
        nb.len() as u16,
        big,
    ) + u16_bytes(vb.len() as u16, big) + nb + padding(nb.len() as int) + vb + padding(vb.len() as int)
}

/// The aligned file that holds the writer's contents, with the given type
/// byte; refused when a length or an offset does not fit its field.
pub open spec fn aligned_file(w: WriterView, type_byte: u8, big: bool) -> Result<Seq<u8>, SPBFWriterError> {
    let nb = text_bytes(w.build_name);
    let vb = text_bytes(w.build_version);
    if nb.len() >= u16::MAX {
        Err(SPBFWriterError::Write(SPBFWriterWriteError::InvalidNameLength))
    } else if vb.len() >= u16::MAX {
        Err(SPBFWriterError::Write(SPBFWriterWriteError::InvalidBuildVersionLength))
    } else {
        let hlen = aligned_header_len(w);
        match aligned_format_entries(w.formats, hlen, big) {
            Err(e) => Err(e),
            Ok(fb) => {
                let dstart = hlen + fb.len();
                match aligned_data_entries(w.data, dstart, big) {
                    Err(e) => Err(e),
                    Ok(db) => {
                        let fe = if w.formats.len() == 0 {
                            0
                        } else {
                            hlen
                        };
                        let de = if w.data.len() == 0 {
                            0
                        } else {
                            dstart
                        };
                        Ok(aligned_header(type_byte, fe as u32, de as u32, nb, vb, big) + fb + db)
                    },
                }
            },
        }
    }
}

/// Appends one format entry.
fn push_format_entry(out: &mut Vec<u8>, next: u32, name: &[u8], id: u16, big: bool)
    requires
        name@.len() < u16::MAX,
    ensures
        final(out)@ == old(out)@ + aligned_format_entry(next, name@, id, big),
{
    push_u32(out, next, big);
    push_u16(out, name.len() as u16, big);
    push_u16(out, id, big);
    push_bytes(out, name);
    push_padding(out, name.len());
    assert(final(out)@ =~= old(out)@ + aligned_format_entry(next, name@, id, big));
}

/// Appends one data entry.
fn push_data_entry(out: &mut Vec<u8>, next: u32, name: &[u8], id: u16, bytes: &[u8], big: bool)
    requires
        name@.len() < u16::MAX,
        bytes@.len() < u16::MAX,
    ensures
        final(out)@ == old(out)@ + aligned_data_entry(next, name@, id, bytes@, big),
{
    push_u32(out, next, big);
    push_u16(out, bytes.len() as u16, big);
    push_u16(out, id, big);
    push_u16(out, name.len() as u16, big);
    push_bytes(out, name);
    push_padding(out, name.len());
    push_bytes(out, bytes);
    push_padding(out, bytes.len());
    assert(final(out)@ =~= old(out)@ + aligned_data_entry(next, name@, id, bytes@, big));
}

/// Lays out the format entries, the first at offset `start`.
fn write_aligned_formats(formats: &Vec<SPBFDataFormatForWrite>, start: u64, big: bool) -> (r: Result<
    Vec<u8>,
    SPBFWriterError,
>)
    requires
        start < u32::MAX + 0x20000,
    ensures
        match aligned_format_entries(formats_view(formats@), start as int, big) {
            Ok(b) => r matches Ok(v) && v@ == b,
            Err(e) => r == Err::<Vec<u8>, SPBFWriterError>(e),
        },
{
    let ghost fs = formats_view(formats@);
    let ghost total = aligned_format_entries(fs, start as int, big);
    let n = formats.len();
    let mut out: Vec<u8> = Vec::new();
    let mut off = start;
    let mut i: usize = 0;
    assert(fs.subrange(0, n as int) =~= fs);
    assert(prefix_ok(out@, total) =~= total) by {
        if let Ok(s) = total {
            assert(Seq::<u8>::empty() + s =~= s);
        }
    }
    while i < n
        invariant
            n == formats@.len(),
            fs == formats_view(formats@),
            i <= n,
            off < u32::MAX + 0x20000,
            total == aligned_format_entries(fs, start as int, big),
            total == prefix_ok(out@, aligned_format_entries(fs.subrange(i as int, n as int), off as int, big)),
        decreases n - i,
    {
        let ghost rest = fs.subrange(i as int, n as int);
        assert(rest[0] == formats@[i as int]@);
        assert(rest.drop_first() =~= fs.subrange(i + 1, n as int));
        if off >= u32::MAX as u64 {
            return Err(SPBFWriterError::Write(SPBFWriterWriteError::InvalidOffset));
        }
        let f = &formats[i];
        let (name, pad) = str_to_bytes_align_small(f.name());
        if name.len() >= u16::MAX as usize {
            return Err(SPBFWriterError::Write(SPBFWriterWriteError::InvalidDataFormatNameLength));
        }
        let len = 8 + (name.len() + pad) as u64;
        let next: u64 = if i + 1 == n {
            0
        } else {
            off + len
        };
        let ghost before = out@;
        push_format_entry(&mut out, next as u32, name, f.data_id(), big);
        proof {
            let entry = aligned_format_entry(next as u32, name@, rest[0].data_id, big);
            lemma_prefix_step(before, entry, aligned_format_entries(rest.drop_first(), off + len, big));
        }
        off = off + len;
        i = i + 1;
    }
    assert(fs.subrange(n as int, n as int) =~= Seq::<FormatEntry>::empty());
    assert(out@ + seq![] =~= out@);
    Ok(out)
}

/// Lays out the data entries, the first at offset `start`.
fn write_aligned_data(data: &Vec<SPBFDataForWrite>, start: u64, big: bool) -> (r: Result<
    Vec<u8>,
    SPBFWriterError,
>)
    requires
        start < u32::MAX + 0x40000,
    ensures
        match aligned_data_entries(data_view(data@), start as int, big) {
            Ok(b) => r matches Ok(v) && v@ == b,
            Err(e) => r == Err::<Vec<u8>, SPBFWriterError>(e),
        },
{
    let ghost ds = data_view(data@);
    let ghost total = aligned_data_entries(ds, start as int, big);
    let n = data.len();
    let mut out: Vec<u8> = Vec::new();
    let mut off = start;
    let mut i: usize = 0;
    assert(ds.subrange(0, n as int) =~= ds);
    assert(prefix_ok(out@, total) =~= total) by {
        if let Ok(s) = total {
            assert(Seq::<u8>::empty() + s =~= s);
        }
    }
    while i < n
        invariant
            n == data@.len(),
            ds == data_view(data@),
            i <= n,
            off < u32::MAX + 0x40000,
            total == aligned_data_entries(ds, start as int, big),
            total == prefix_ok(out@, aligned_data_entries(ds.subrange(i as int, n as int), off as int, big)),
        decreases n - i,
    {
        let ghost rest = ds.subrange(i as int, n as int);
        assert(rest[0] == data@[i as int]@);
        assert(rest.drop_first() =~= ds.subrange(i + 1, n as int));
        if off >= u32::MAX as u64 {
            return Err(SPBFWriterError::Write(SPBFWriterWriteError::InvalidOffset));
        }
        let d = &data[i];
        let bytes = d.data();
        if bytes.len() >= u16::MAX as usize {
            return Err(SPBFWriterError::Write(SPBFWriterWriteError::InvalidDataLength));
        }
        let (name, pad) = str_to_bytes_align_small(d.name());
        if name.len() >= u16::MAX as usize {
            return Err(SPBFWriterError::Write(SPBFWriterWriteError::InvalidDataNameLength));
        }
        let len = 0xA + (name.len() + pad) as u64 + (bytes.len() + bytes.len() % 2) as u64;
        let next: u64 = if i + 1 == n {
            0
        } else {
            off + len
        };
        let ghost before = out@;
        push_data_entry(&mut out, next as u32, name, d.data_id(), bytes, big);
        proof {
            let entry = aligned_data_entry(next as u32, name@, rest[0].data_id, bytes@, big);
            lemma_prefix_step(before, entry, aligned_data_entries(rest.drop_first(), off + len, big));
        }
        off = off + len;
        i = i + 1;
    }
    assert(ds.subrange(n as int, n as int) =~= Seq::<DataEntry>::empty());
    assert(out@ + seq![] =~= out@);
    Ok(out)
}

/// Appends the header of an aligned file.
fn push_header(out: &mut Vec<u8>, type_byte: u8, fe: u32, de: u32, name: &[u8], version: &[u8], big: bool)
    requires
        name@.len() < u16::MAX,
        version@.len() < u16::MAX,
    ensures
        final(out)@ == old(out)@ + aligned_header(type_byte, fe, de, name@, version@, big),
{
    push_fixed_header(out, type_byte);
    push_u32(out, fe, big);
    push_u32(out, de, big);
    push_u16(out, name.len() as u16, big);
    push_u16(out, version.len() as u16, big);
    push_bytes(out, name);
    push_padding(out, name.len());
    push_bytes(out, version);
    push_padding(out, version.len());
    assert(final(out)@ =~= old(out)@ + aligned_header(type_byte, fe, de, name@, version@, big));
}

/// Lays out the writer's contents as an aligned file with the given type
/// byte.
pub fn write_aligned(writer: &SPBFWriter, type_byte: u8, big: bool) -> (r: Result<Vec<u8>, SPBFWriterError>)
    ensures
        match aligned_file(writer@, type_byte, big) {
            Ok(b) => r matches Ok(v) && v@ == b,
            Err(e) => r == Err::<Vec<u8>, SPBFWriterError>(e),
        },
{
    let (name, name_pad) = str_to_bytes_align_small(&writer.build_name);
    let (version, version_pad) = str_to_bytes_align_small(&writer.build_version);
    assert(writer@.build_name == writer.build_name@);
    if name.len() >= u16::MAX as usize {
        return Err(SPBFWriterError::Write(SPBFWriterWriteError::InvalidNameLength));
    }
    if version.len() >= u16::MAX as usize {
        return Err(SPBFWriterError::Write(SPBFWriterWriteError::InvalidBuildVersionLength));
    }
    let hlen: u64 = 0x14 + (name.len() + name_pad) as u64 + (version.len() + version_pad) as u64;
    let formats = writer.data_formats();
    let data = writer.data();
    let fbytes = match write_aligned_formats(formats, hlen, big) {
        Ok(b) => b,
        Err(e) => {
            return Err(e);
        },
    };
    let fe: u64 = if formats.len() == 0 {
        0
    } else {
        hlen
    };
    proof {
        lemma_aligned_format_entries_end(formats_view(formats@), hlen as int, big);
    }
    let dstart: u64 = hlen + fbytes.len() as u64;
    let dbytes = match write_aligned_data(data, dstart, big) {
        Ok(b) => b,
        Err(e) => {
            return Err(e);
        },
    };
    let de: u64 = if data.len() == 0 {
        0
    } else {
        dstart
    };
    let mut out: Vec<u8> = Vec::new();
    push_header(&mut out, type_byte, fe as u32, de as u32, name, version, big);
    let mut fbytes = fbytes;
    let mut dbytes = dbytes;
    out.append(&mut fbytes);
    out.append(&mut dbytes);
    Ok(out)
}

} // verus!
