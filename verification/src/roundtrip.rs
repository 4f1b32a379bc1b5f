//! What a read gives back of a write: a file laid out by the writer, in any
//! of the four file types, reads back as the writer's build name and
//! version, its formats and its data blocks, in order.
use vstd::prelude::*;
use crate::endian::{lemma_u16_roundtrip, lemma_u32_roundtrip, u16_bytes, u32_bytes};
use crate::raw::{aligned_len, padding};
use crate::read::aligned::{aligned_body, aligned_data, aligned_formats};
use crate::read::unaligned::{unaligned_body, unaligned_data, unaligned_formats};
use crate::write::unaligned::{
    unaligned_data_entries, unaligned_data_entry, unaligned_file, unaligned_format_entries, unaligned_format_entry,
    unaligned_header,
};
use crate::read::{format_position, record_id_is, Body, DataRecord, FormatRecord};
use crate::search::{lemma_first_index, lemma_first_index_none};
use crate::text::{find_nul, has_nul, lemma_find_nul_at, lemma_text_roundtrip, lossy_text, strict_text, text_bytes};
use crate::write::aligned::{
    aligned_header, aligned_data_entries, aligned_data_entry, aligned_file, aligned_format_entries, aligned_format_entry,
};
use crate::write::{has_format_id, write_file, DataEntry, FormatEntry, WriterView};
use crate::write::cover::blocks_have_formats;
use crate::read::{open_header, read_file, SPBFReaderError};
use crate::{lemma_version_of, type_byte, SPBFType, SPBFVersion};

verus! {

/// The format records that a writer's formats read back as.
pub open spec fn format_records_of(fs: Seq<FormatEntry>) -> Seq<FormatRecord> {
    fs.map_values(|f: FormatEntry| FormatRecord { data_id: f.data_id, name: f.name })
}

/// The data record that a writer's block reads back as, given the format
/// records of the file.
pub open spec fn data_record_of(d: DataEntry, frs: Seq<FormatRecord>) -> DataRecord {
    DataRecord {
        name: d.name,
        bytes: d.bytes,
        data_id: d.data_id,
        format_position: format_position(frs, d.data_id)->Some_0,
    }
}

/// The data records that a writer's blocks read back as.
pub open spec fn data_records_of(ds: Seq<DataEntry>, frs: Seq<FormatRecord>) -> Seq<DataRecord> {
    ds.map_values(|d: DataEntry| data_record_of(d, frs))
}

/// The body that a writer's contents read back as.
pub open spec fn body_of_writer(w: WriterView) -> Body {
    let frs = format_records_of(w.formats);
    Body {
        build_name: w.build_name,
        build_version: w.build_version,
        formats: frs,
        data: data_records_of(w.data, frs),
    }
}

/// A block whose id some format has finds the first such format among the
/// records.
pub proof fn lemma_position_exists(fs: Seq<FormatEntry>, id: u16)
    requires
        has_format_id(fs, id),
    ensures
        format_position(format_records_of(fs), id) is Some,
{
    let frs = format_records_of(fs);
    let j = choose|j: int| 0 <= j < fs.len() && #[trigger] fs[j].data_id == id;
    lemma_first_index(frs, record_id_is(id));
    if format_position(frs, id) is None {
        assert(!record_id_is(id)(frs[j]));
    }
}

/// A block of an aligned file ends where the next one starts.
pub proof fn lemma_aligned_format_entries_len(fs: Seq<FormatEntry>, start: int, big: bool)
    ensures
        aligned_format_entries(fs, start, big) matches Ok(b) ==> b.len() >= fs.len(),
    decreases fs.len(),
{
    if fs.len() > 0 && start < u32::MAX {
        let nb = text_bytes(fs[0].name);
        if nb.len() < u16::MAX {
            lemma_aligned_format_entries_len(fs.drop_first(), start + 8 + aligned_len(nb.len() as int), big);
        }
    }
}

/// The data entries of an aligned file are at least one byte each.
pub proof fn lemma_aligned_data_entries_len(ds: Seq<DataEntry>, start: int, big: bool)
    ensures
        aligned_data_entries(ds, start, big) matches Ok(b) ==> b.len() >= ds.len(),
    decreases ds.len(),
{
    if ds.len() > 0 && start < u32::MAX && ds[0].bytes.len() < u16::MAX {
        let nb = text_bytes(ds[0].name);
        if nb.len() < u16::MAX {
            lemma_aligned_data_entries_len(
                ds.drop_first(),
                start + 0xA + aligned_len(nb.len() as int) + aligned_len(ds[0].bytes.len() as int),
                big,
            );
        }
    }
}

/// The bytes between the end of `pre` and the start of `post` are `mid`.
pub proof fn lemma_window(pre: Seq<u8>, mid: Seq<u8>, post: Seq<u8>)
    ensures
        (pre + mid + post).subrange(pre.len() as int, pre.len() + mid.len() as int) == mid,
{
    assert((pre + mid + post).subrange(pre.len() as int, pre.len() + mid.len() as int) =~= mid);
}

/// A window that holds `x` followed by `y` holds `x` and then `y`.
pub proof fn lemma_split_window(b: Seq<u8>, start: int, x: Seq<u8>, y: Seq<u8>)
    requires
        0 <= start,
        start + x.len() + y.len() <= b.len(),
        b.subrange(start, start + x.len() + y.len()) == x + y,
    ensures
        b.subrange(start, start + x.len()) == x,
        b.subrange(start + x.len(), start + x.len() + y.len()) == y,
{
    let w = b.subrange(start, start + x.len() + y.len());
    assert(b.subrange(start, start + x.len()) =~= w.subrange(0, x.len() as int));
    assert(w.subrange(0, x.len() as int) =~= x);
    assert(b.subrange(start + x.len(), start + x.len() + y.len()) =~= w.subrange(
        x.len() as int,
        x.len() + y.len() as int,
    ));
    assert(w.subrange(x.len() as int, x.len() + y.len() as int) =~= y);
}

/// The fields of an aligned format entry found at `start`.
#[verifier::rlimit(50)]
pub proof fn lemma_format_entry_fields(b: Seq<u8>, start: int, next: u32, nb: Seq<u8>, id: u16, big: bool)
    requires
        0 <= start,
        start + aligned_format_entry(next, nb, id, big).len() <= b.len(),
        b.subrange(start, start + aligned_format_entry(next, nb, id, big).len()) == aligned_format_entry(
            next,
            nb,
            id,
            big,
        ),
    ensures
        aligned_format_entry(next, nb, id, big).len() == 8 + aligned_len(nb.len() as int),
        crate::endian::u32_at(b, start, big) == next,
        crate::endian::u16_at(b, start + 4, big) == nb.len() as u16,
        crate::endian::u16_at(b, start + 6, big) == id,
        b.subrange(start + 8, start + 8 + nb.len()) == nb,
{
    let e = aligned_format_entry(next, nb, id, big);
    let w = b.subrange(start, start + e.len());
    assert(b.subrange(start, start + 4) =~= w.subrange(0, 4));
    assert(w.subrange(0, 4) =~= u32_bytes(next, big));
    assert(b.subrange(start + 4, start + 6) =~= w.subrange(4, 6));
    assert(w.subrange(4, 6) =~= u16_bytes(nb.len() as u16, big));
    assert(b.subrange(start + 6, start + 8) =~= w.subrange(6, 8));
    assert(w.subrange(6, 8) =~= u16_bytes(id, big));
    assert(b.subrange(start + 8, start + 8 + nb.len()) =~= w.subrange(8, 8 + nb.len() as int));
    assert(w.subrange(8, 8 + nb.len() as int) =~= nb);
    lemma_u32_roundtrip(b, start, next, big);
    lemma_u16_roundtrip(b, start + 4, nb.len() as u16, big);
    lemma_u16_roundtrip(b, start + 6, id, big);
}

/// The format entries laid out at offset `start` of a file read back as the
/// formats.
#[verifier::rlimit(100)]
pub proof fn lemma_aligned_formats_roundtrip(
    fs: Seq<FormatEntry>,
    start: int,
    big: bool,
    b: Seq<u8>,
    fuel: nat,
)
    requires
        fs.len() > 0,
        start > 0,
        fuel >= fs.len(),
        aligned_format_entries(fs, start, big) is Ok,
        start + aligned_format_entries(fs, start, big)->Ok_0.len() <= b.len(),
        b.subrange(start, start + aligned_format_entries(fs, start, big)->Ok_0.len()) == aligned_format_entries(fs, start, big)->Ok_0,
    ensures
        aligned_formats(b, big, start, fuel) == Ok::<
            Seq<FormatRecord>,
            crate::read::SPBFReaderError,
        >(format_records_of(fs)),
    decreases fs.len(),
{
    let fb = aligned_format_entries(fs, start, big)->Ok_0;
    let nb = text_bytes(fs[0].name);
    let n = nb.len() as int;
    let len = 8 + aligned_len(n);
    let next = if fs.len() == 1 {
        0
    } else {
        start + len
    };
    let e = aligned_format_entry(next as u32, nb, fs[0].data_id, big);
    let rest = aligned_format_entries(fs.drop_first(), start + len, big);
    let rb = rest->Ok_0;
    assert(fb == e + rb);
    lemma_split_window(b, start, e, rb);
    lemma_format_entry_fields(b, start, next as u32, nb, fs[0].data_id, big);
    lemma_text_roundtrip(fs[0].name);
    let rec = FormatRecord { data_id: fs[0].data_id, name: fs[0].name };
    assert(b.len() >= start + len);
    assert(strict_text(b.subrange(start + 8, start + 8 + n)) == Some(fs[0].name));
    if fs.len() == 1 {
        assert(aligned_formats(b, big, next, (fuel - 1) as nat) == Ok::<Seq<FormatRecord>, crate::read::SPBFReaderError>(seq![]));
        assert(format_records_of(fs) =~= seq![rec]);
        assert(seq![rec] + Seq::<FormatRecord>::empty() =~= seq![rec]);
    } else {
        assert(start + len < u32::MAX);
        assert(next as u32 as int == next);
        lemma_aligned_formats_roundtrip(fs.drop_first(), start + len, big, b, (fuel - 1) as nat);
        assert(format_records_of(fs) =~= seq![rec] + format_records_of(fs.drop_first()));
    }
}

/// The fields of an aligned data entry found at `start`.
#[verifier::rlimit(50)]
pub proof fn lemma_data_entry_fields(
    b: Seq<u8>,
    start: int,
    next: u32,
    nb: Seq<u8>,
    id: u16,
    db: Seq<u8>,
    big: bool,
)
    requires
        0 <= start,
        start + aligned_data_entry(next, nb, id, db, big).len() <= b.len(),
        b.subrange(start, start + aligned_data_entry(next, nb, id, db, big).len()) == aligned_data_entry(
            next,
            nb,
            id,
            db,
            big,
        ),
    ensures
        aligned_data_entry(next, nb, id, db, big).len() == 0xA + aligned_len(nb.len() as int) + aligned_len(
            db.len() as int,
        ),
        crate::endian::u32_at(b, start, big) == next,
        crate::endian::u16_at(b, start + 4, big) == db.len() as u16,
        crate::endian::u16_at(b, start + 6, big) == id,
        crate::endian::u16_at(b, start + 8, big) == nb.len() as u16,
        b.subrange(start + 0xA, start + 0xA + nb.len()) == nb,
        b.subrange(start + 0xA + aligned_len(nb.len() as int), start + 0xA + aligned_len(nb.len() as int)
            + db.len()) == db,
{
    let e = aligned_data_entry(next, nb, id, db, big);
    let w = b.subrange(start, start + e.len());
    let an = aligned_len(nb.len() as int);
    assert(b.subrange(start, start + 4) =~= w.subrange(0, 4));
    assert(w.subrange(0, 4) =~= u32_bytes(next, big));
    assert(b.subrange(start + 4, start + 6) =~= w.subrange(4, 6));
    assert(w.subrange(4, 6) =~= u16_bytes(db.len() as u16, big));
    assert(b.subrange(start + 6, start + 8) =~= w.subrange(6, 8));
    assert(w.subrange(6, 8) =~= u16_bytes(id, big));
    assert(b.subrange(start + 8, start + 10) =~= w.subrange(8, 10));
    assert(w.subrange(8, 10) =~= u16_bytes(nb.len() as u16, big));
    assert(b.subrange(start + 0xA, start + 0xA + nb.len()) =~= w.subrange(0xA, 0xA + nb.len() as int));
    assert(w.subrange(0xA, 0xA + nb.len() as int) =~= nb);
    assert(b.subrange(start + 0xA + an, start + 0xA + an + db.len()) =~= w.subrange(
        0xA + an,
        0xA + an + db.len() as int,
    ));
    assert(w.subrange(0xA + an, 0xA + an + db.len() as int) =~= db);
    lemma_u32_roundtrip(b, start, next, big);
    lemma_u16_roundtrip(b, start + 4, db.len() as u16, big);
    lemma_u16_roundtrip(b, start + 6, id, big);
    lemma_u16_roundtrip(b, start + 8, nb.len() as u16, big);
}

/// One step of reading aligned data entries: an entry whose fields hold a
/// block reads as that block followed by what the next entry reads as.
pub proof fn lemma_aligned_data_step(
    b: Seq<u8>,
    big: bool,
    start: int,
    frs: Seq<FormatRecord>,
    fuel: nat,
    d: DataEntry,
    next: u32,
)
    requires
        start > 0,
        fuel > 0,
        start + 0xA + aligned_len(text_bytes(d.name).len() as int) + aligned_len(d.bytes.len() as int) <= b.len(),
        text_bytes(d.name).len() < u16::MAX,
        d.bytes.len() < u16::MAX,
        crate::endian::u32_at(b, start, big) == next,
        crate::endian::u16_at(b, start + 4, big) == d.bytes.len() as u16,
        crate::endian::u16_at(b, start + 6, big) == d.data_id,
        crate::endian::u16_at(b, start + 8, big) == text_bytes(d.name).len() as u16,
        b.subrange(start + 0xA, start + 0xA + text_bytes(d.name).len()) == text_bytes(d.name),
        b.subrange(
            start + 0xA + aligned_len(text_bytes(d.name).len() as int),
            start + 0xA + aligned_len(text_bytes(d.name).len() as int) + d.bytes.len(),
        ) == d.bytes,
        format_position(frs, d.data_id) is Some,
    ensures
        aligned_data(b, big, start, frs, fuel) == crate::read::prepend_ok(
            seq![data_record_of(d, frs)],
            aligned_data(b, big, next as int, frs, (fuel - 1) as nat),
        ),
{
    lemma_text_roundtrip(d.name);
}

/// The data entries laid out at offset `start` of a file read back as the
/// blocks, each tied to the first format of its id.
#[verifier::rlimit(100)]
pub proof fn lemma_aligned_data_roundtrip(
    ds: Seq<DataEntry>,
    frs: Seq<FormatRecord>,
    start: int,
    big: bool,
    b: Seq<u8>,
    fuel: nat,
)
    requires
        ds.len() > 0,
        start > 0,
        fuel >= ds.len(),
        aligned_data_entries(ds, start, big) is Ok,
        start + aligned_data_entries(ds, start, big)->Ok_0.len() <= b.len(),
        b.subrange(start, start + aligned_data_entries(ds, start, big)->Ok_0.len()) == aligned_data_entries(ds, start, big)->Ok_0,
        forall|k: int| 0 <= k < ds.len() ==> format_position(frs, #[trigger] ds[k].data_id) is Some,
    ensures
        aligned_data(b, big, start, frs, fuel) == Ok::<
            Seq<DataRecord>,
            crate::read::SPBFReaderError,
        >(data_records_of(ds, frs)),
    decreases ds.len(),
{
    let dbs = aligned_data_entries(ds, start, big)->Ok_0;
    let d = ds[0];
    let nb = text_bytes(d.name);
    let n = nb.len() as int;
    let len = 0xA + aligned_len(n) + aligned_len(d.bytes.len() as int);
    let next = if ds.len() == 1 {
        0
    } else {
        start + len
    };
    let e = aligned_data_entry(next as u32, nb, d.data_id, d.bytes, big);
    let rest = aligned_data_entries(ds.drop_first(), start + len, big);
    let rb = rest->Ok_0;
    assert(dbs == e + rb);
    lemma_split_window(b, start, e, rb);
    lemma_data_entry_fields(b, start, next as u32, nb, d.data_id, d.bytes, big);
    assert(format_position(frs, ds[0].data_id) is Some);
    lemma_aligned_data_step(b, big, start, frs, fuel, d, next as u32);
    let rec = data_record_of(d, frs);
    if ds.len() == 1 {
        assert(aligned_data(b, big, next, frs, (fuel - 1) as nat) == Ok::<Seq<DataRecord>, crate::read::SPBFReaderError>(seq![]));
        assert(data_records_of(ds, frs) =~= seq![rec]);
        assert(seq![rec] + Seq::<DataRecord>::empty() =~= seq![rec]);
    } else {
        assert(start + len < u32::MAX);
        assert(next as u32 as int == next);
        assert forall|k: int| 0 <= k < ds.drop_first().len() implies format_position(
            frs,
            #[trigger] ds.drop_first()[k].data_id,
        ) is Some by {
            assert(ds.drop_first()[k] == ds[k + 1]);
        }
        lemma_aligned_data_roundtrip(ds.drop_first(), frs, start + len, big, b, (fuel - 1) as nat);
        assert(data_records_of(ds, frs) =~= seq![rec] + data_records_of(ds.drop_first(), frs));
    }
}

/// The fields of an aligned header at the start of a file.
pub proof fn lemma_aligned_header_fields(b: Seq<u8>, type_byte: u8, fe: u32, de: u32, nb: Seq<u8>, vb: Seq<u8>, big: bool)
    requires
        nb.len() < u16::MAX,
        vb.len() < u16::MAX,
        aligned_header(type_byte, fe, de, nb, vb, big).len() <= b.len(),
        b.subrange(0, aligned_header(type_byte, fe, de, nb, vb, big).len() as int) == aligned_header(
            type_byte,
            fe,
            de,
            nb,
            vb,
            big,
        ),
    ensures
        aligned_header(type_byte, fe, de, nb, vb, big).len() == 0x14 + aligned_len(nb.len() as int)
            + aligned_len(vb.len() as int),
        b.subrange(0, 6) == crate::read::raw::magic(),
        b[6] == type_byte,
        b[7] == 1,
        crate::endian::u32_at(b, 8, big) == fe,
        crate::endian::u32_at(b, 12, big) == de,
        crate::endian::u16_at(b, 16, big) == nb.len() as u16,
        crate::endian::u16_at(b, 18, big) == vb.len() as u16,
        b.subrange(0x14, 0x14 + nb.len() as int) == nb,
        b.subrange(0x14 + aligned_len(nb.len() as int), 0x14 + aligned_len(nb.len() as int) + vb.len()) == vb,
{
    let h = aligned_header(type_byte, fe, de, nb, vb, big);
    let n = nb.len() as int;
    let v = vb.len() as int;
    let fixed = crate::read::raw::magic() + seq![type_byte, 1u8] + u32_bytes(fe, big) + u32_bytes(de, big)
        + u16_bytes(n as u16, big) + u16_bytes(v as u16, big);
    assert(fixed.len() == 20);
    assert(h == fixed + nb + padding(n) + vb + padding(v));
    assert(b.subrange(0, 20) == fixed) by {
        assert(b.subrange(0, 20) =~= h.subrange(0, 20));
        assert(h.subrange(0, 20) =~= fixed);
    }
    assert(b.subrange(0x14, 0x14 + n) == nb) by {
        assert(b.subrange(0x14, 0x14 + n) =~= h.subrange(0x14, 0x14 + n));
        assert(h.subrange(0x14, 0x14 + n) =~= nb);
    }
    assert(b.subrange(0x14 + aligned_len(n), 0x14 + aligned_len(n) + v) == vb) by {
        assert(b.subrange(0x14 + aligned_len(n), 0x14 + aligned_len(n) + v) =~= h.subrange(
            0x14 + aligned_len(n),
            0x14 + aligned_len(n) + v,
        ));
        assert(h.subrange(0x14 + aligned_len(n), 0x14 + aligned_len(n) + v) =~= vb);
    }
    lemma_fixed_header_fields(b, type_byte, fe, de, n as u16, v as u16, big);
}

/// The fields of the first 20 bytes of an aligned header.
pub proof fn lemma_fixed_header_fields(b: Seq<u8>, type_byte: u8, fe: u32, de: u32, n: u16, v: u16, big: bool)
    requires
        b.len() >= 20,
        b.subrange(0, 20) == crate::read::raw::magic() + seq![type_byte, 1u8] + u32_bytes(fe, big) + u32_bytes(
            de,
            big,
        ) + u16_bytes(n, big) + u16_bytes(v, big),
    ensures
        b.subrange(0, 6) == crate::read::raw::magic(),
        b[6] == type_byte,
        b[7] == 1,
        crate::endian::u32_at(b, 8, big) == fe,
        crate::endian::u32_at(b, 12, big) == de,
        crate::endian::u16_at(b, 16, big) == n,
        crate::endian::u16_at(b, 18, big) == v,
{
    let w = b.subrange(0, 20);
    assert(b.subrange(0, 6) =~= w.subrange(0, 6));
    assert(w.subrange(0, 6) =~= crate::read::raw::magic());
    assert(b[6] == w[6]);
    assert(b[7] == w[7]);
    assert(b.subrange(8, 12) =~= w.subrange(8, 12));
    assert(w.subrange(8, 12) =~= u32_bytes(fe, big));
    assert(b.subrange(12, 16) =~= w.subrange(12, 16));
    assert(w.subrange(12, 16) =~= u32_bytes(de, big));
    assert(b.subrange(16, 18) =~= w.subrange(16, 18));
    assert(w.subrange(16, 18) =~= u16_bytes(n, big));
    assert(b.subrange(18, 20) =~= w.subrange(18, 20));
    assert(w.subrange(18, 20) =~= u16_bytes(v, big));
    lemma_u32_roundtrip(b, 8, fe, big);
    lemma_u32_roundtrip(b, 12, de, big);
    lemma_u16_roundtrip(b, 16, n, big);
    lemma_u16_roundtrip(b, 18, v, big);
}

/// An aligned file laid out by the writer has the magic bytes, the type
/// byte and the supported version in its header, and its body reads back as
/// the writer's contents.
#[verifier::rlimit(100)]
pub proof fn lemma_aligned_file_roundtrip(w: WriterView, type_byte: u8, big: bool)
    requires
        aligned_file(w, type_byte, big) is Ok,
        blocks_have_formats(w),
    ensures
        ({
            let b = aligned_file(w, type_byte, big)->Ok_0;
            &&& b.len() >= 8
            &&& b.subrange(0, 6) == crate::read::raw::magic()
            &&& b[6] == type_byte
            &&& b[7] == 1
            &&& aligned_body(b, big) == Ok::<Body, crate::read::SPBFReaderError>(body_of_writer(w))
        }),
{
    let b = aligned_file(w, type_byte, big)->Ok_0;
    let nb = text_bytes(w.build_name);
    let vb = text_bytes(w.build_version);
    let n = nb.len() as int;
    let v = vb.len() as int;
    let hlen = crate::write::aligned::aligned_header_len(w);
    let fb = aligned_format_entries(w.formats, hlen, big)->Ok_0;
    let dstart = hlen + fb.len();
    let db = aligned_data_entries(w.data, dstart, big)->Ok_0;
    let fe = if w.formats.len() == 0 {
        0
    } else {
        hlen
    };
    let de = if w.data.len() == 0 {
        0
    } else {
        dstart
    };
    let h = aligned_header(type_byte, fe as u32, de as u32, nb, vb, big);
    assert(b == h + fb + db);
    assert(b.subrange(0, h.len() as int) =~= h);
    lemma_aligned_header_fields(b, type_byte, fe as u32, de as u32, nb, vb, big);
    lemma_text_roundtrip(w.build_name);
    lemma_text_roundtrip(w.build_version);
    let fuel = b.len() as nat;
    let frs = format_records_of(w.formats);
    lemma_aligned_format_entries_len(w.formats, hlen, big);
    lemma_aligned_data_entries_len(w.data, dstart, big);
    if w.formats.len() == 0 {
        assert(frs =~= Seq::<FormatRecord>::empty());
        assert(aligned_formats(b, big, fe, fuel) == Ok::<Seq<FormatRecord>, crate::read::SPBFReaderError>(frs));
    } else {
        assert(hlen < u32::MAX);
        lemma_window(h, fb, db);
        lemma_aligned_formats_roundtrip(w.formats, hlen, big, b, fuel);
    }
    assert(aligned_formats(b, big, fe, fuel) == Ok::<Seq<FormatRecord>, crate::read::SPBFReaderError>(frs));
    if w.data.len() == 0 {
        assert(data_records_of(w.data, frs) =~= Seq::<DataRecord>::empty());
    } else {
        assert(dstart < u32::MAX);
        assert forall|k: int| 0 <= k < w.data.len() implies format_position(frs, #[trigger] w.data[k].data_id)
            is Some by {
            lemma_position_exists(w.formats, w.data[k].data_id);
        }
        assert(b =~= (h + fb) + db + Seq::<u8>::empty());
        lemma_window(h + fb, db, Seq::<u8>::empty());
        lemma_aligned_data_roundtrip(w.data, frs, dstart, big, b, fuel);
    }
    assert(aligned_data(b, big, de, frs, fuel) == Ok::<Seq<DataRecord>, crate::read::SPBFReaderError>(
        data_records_of(w.data, frs),
    ));
}

/// A name without zero bytes followed by a zero byte ends at that zero.
pub proof fn lemma_nul_after(b: Seq<u8>, from: int, nb: Seq<u8>)
    requires
        0 <= from,
        from + nb.len() < b.len(),
        b.subrange(from, from + nb.len()) == nb,
        !has_nul(nb),
        b[from + nb.len()] == 0,
    ensures
        find_nul(b, from) == Some(from + nb.len()),
{
    assert forall|k: int| from <= k < from + nb.len() implies b[k] != 0 by {
        assert(b[k] == nb[k - from]);
    }
    lemma_find_nul_at(b, from, from + nb.len());
}

/// The unaligned entries laid out by the writer are at least one byte each.
pub proof fn lemma_unaligned_entries_len(fs: Seq<FormatEntry>, ds: Seq<DataEntry>, fstart: int, dstart: int, big: bool)
    ensures
        unaligned_format_entries(fs, fstart, big) matches Ok(b) ==> b.len() >= fs.len(),
        unaligned_data_entries(ds, dstart, big) matches Ok(b) ==> b.len() >= ds.len(),
    decreases fs.len() + ds.len(),
{
    if fs.len() > 0 {
        let nb = text_bytes(fs[0].name);
        lemma_unaligned_entries_len(fs.drop_first(), ds, fstart + 7 + nb.len(), dstart, big);
    }
    if ds.len() > 0 {
        let nb = text_bytes(ds[0].name);
        lemma_unaligned_entries_len(fs, ds.drop_first(), fstart, dstart + 9 + nb.len() + ds[0].bytes.len(), big);
    }
}

/// The unaligned format entries laid out at offset `start` of a file read
/// back as the formats.
#[verifier::rlimit(100)]
pub proof fn lemma_unaligned_formats_roundtrip(
    fs: Seq<FormatEntry>,
    start: int,
    big: bool,
    b: Seq<u8>,
    fuel: nat,
)
    requires
        fs.len() > 0,
        start > 0,
        fuel >= fs.len(),
        unaligned_format_entries(fs, start, big) is Ok,
        start + unaligned_format_entries(fs, start, big)->Ok_0.len() <= b.len(),
        b.subrange(start, start + unaligned_format_entries(fs, start, big)->Ok_0.len()) == unaligned_format_entries(fs, start, big)->Ok_0,
    ensures
        unaligned_formats(b, big, start, fuel) == Ok::<
            Seq<FormatRecord>,
            crate::read::SPBFReaderError,
        >(format_records_of(fs)),
    decreases fs.len(),
{
    let fb = unaligned_format_entries(fs, start, big)->Ok_0;
    let nb = text_bytes(fs[0].name);
    let n = nb.len() as int;
    let len = 7 + n;
    let next = if fs.len() == 1 {
        0
    } else {
        start + len
    };
    let e = unaligned_format_entry(next as u32, nb, fs[0].data_id, big);
    let rest = unaligned_format_entries(fs.drop_first(), start + len, big);
    let rb = rest->Ok_0;
    assert(fb == e + rb);
    assert(e.len() == len);
    lemma_split_window(b, start, e, rb);
    assert(b.subrange(start, start + len) == e);
    assert(b.subrange(start, start + 4) =~= u32_bytes(next as u32, big)) by {
        assert(b.subrange(start, start + 4) =~= e.subrange(0, 4));
    }
    assert(b.subrange(start + 4, start + 6) =~= u16_bytes(fs[0].data_id, big)) by {
        assert(b.subrange(start + 4, start + 6) =~= e.subrange(4, 6));
    }
    assert(b.subrange(start + 6, start + 6 + n) =~= nb) by {
        assert(b.subrange(start + 6, start + 6 + n) =~= e.subrange(6, 6 + n));
    }
    assert(b[start + 6 + n] == e[6 + n]);
    lemma_u32_roundtrip(b, start, next as u32, big);
    lemma_u16_roundtrip(b, start + 4, fs[0].data_id, big);
    lemma_nul_after(b, start + 6, nb);
    lemma_text_roundtrip(fs[0].name);
    let rec = FormatRecord { data_id: fs[0].data_id, name: fs[0].name };
    assert(lossy_text(b.subrange(start + 6, start + 6 + n)) == fs[0].name);
    if fs.len() == 1 {
        assert(unaligned_formats(b, big, next, (fuel - 1) as nat) == Ok::<Seq<FormatRecord>, crate::read::SPBFReaderError>(seq![]));
        assert(format_records_of(fs) =~= seq![rec]);
        assert(seq![rec] + Seq::<FormatRecord>::empty() =~= seq![rec]);
    } else {
        assert(start + len < u32::MAX);
        assert(next as u32 as int == next);
        lemma_unaligned_formats_roundtrip(fs.drop_first(), start + len, big, b, (fuel - 1) as nat);
        assert(format_records_of(fs) =~= seq![rec] + format_records_of(fs.drop_first()));
    }
}

/// One step of reading unaligned data entries: an entry whose fields hold a
/// block reads as that block followed by what the next entry reads as.
pub proof fn lemma_unaligned_data_step(
    b: Seq<u8>,
    big: bool,
    start: int,
    frs: Seq<FormatRecord>,
    fuel: nat,
    d: DataEntry,
    next: u32,
)
    requires
        start > 0,
        fuel > 0,
        start + 9 + text_bytes(d.name).len() + d.bytes.len() <= b.len(),
        d.bytes.len() < u16::MAX,
        crate::endian::u32_at(b, start, big) == next,
        crate::endian::u16_at(b, start + 4, big) == d.bytes.len() as u16,
        crate::endian::u16_at(b, start + 6, big) == d.data_id,
        find_nul(b, start + 8) == Some(start + 8 + text_bytes(d.name).len()),
        b.subrange(start + 8, start + 8 + text_bytes(d.name).len()) == text_bytes(d.name),
        b.subrange(
            start + 9 + text_bytes(d.name).len(),
            start + 9 + text_bytes(d.name).len() + d.bytes.len(),
        ) == d.bytes,
        format_position(frs, d.data_id) is Some,
    ensures
        unaligned_data(b, big, start, frs, fuel) == crate::read::prepend_ok(
            seq![data_record_of(d, frs)],
            unaligned_data(b, big, next as int, frs, (fuel - 1) as nat),
        ),
{
    lemma_text_roundtrip(d.name);
}

/// The unaligned data entries laid out at offset `start` of a file read
/// back as the blocks, each tied to the first format of its id.
#[verifier::rlimit(100)]
pub proof fn lemma_unaligned_data_roundtrip(
    ds: Seq<DataEntry>,
    frs: Seq<FormatRecord>,
    start: int,
    big: bool,
    b: Seq<u8>,
    fuel: nat,
)
    requires
        ds.len() > 0,
        start > 0,
        fuel >= ds.len(),
        unaligned_data_entries(ds, start, big) is Ok,
        start + unaligned_data_entries(ds, start, big)->Ok_0.len() <= b.len(),
        b.subrange(start, start + unaligned_data_entries(ds, start, big)->Ok_0.len()) == unaligned_data_entries(ds, start, big)->Ok_0,
        forall|k: int| 0 <= k < ds.len() ==> format_position(frs, #[trigger] ds[k].data_id) is Some,
    ensures
        unaligned_data(b, big, start, frs, fuel) == Ok::<
            Seq<DataRecord>,
            crate::read::SPBFReaderError,
        >(data_records_of(ds, frs)),
    decreases ds.len(),
{
    let dbs = unaligned_data_entries(ds, start, big)->Ok_0;
    let d = ds[0];
    let nb = text_bytes(d.name);
    let n = nb.len() as int;
    let dl = d.bytes.len() as int;
    let len = 9 + n + dl;
    let next = if ds.len() == 1 {
        0
    } else {
        start + len
    };
    let e = unaligned_data_entry(next as u32, nb, d.data_id, d.bytes, big);
    let rest = unaligned_data_entries(ds.drop_first(), start + len, big);
    let rb = rest->Ok_0;
    assert(dbs == e + rb);
    assert(e.len() == len);
    lemma_split_window(b, start, e, rb);
    assert(b.subrange(start, start + len) == e);
    assert(b.subrange(start, start + 4) =~= u32_bytes(next as u32, big)) by {
        assert(b.subrange(start, start + 4) =~= e.subrange(0, 4));
    }
    assert(b.subrange(start + 4, start + 6) =~= u16_bytes(dl as u16, big)) by {
        assert(b.subrange(start + 4, start + 6) =~= e.subrange(4, 6));
    }
    assert(b.subrange(start + 6, start + 8) =~= u16_bytes(d.data_id, big)) by {
        assert(b.subrange(start + 6, start + 8) =~= e.subrange(6, 8));
    }
    assert(b.subrange(start + 8, start + 8 + n) =~= nb) by {
        assert(b.subrange(start + 8, start + 8 + n) =~= e.subrange(8, 8 + n));
    }
    assert(b.subrange(start + 9 + n, start + 9 + n + dl) =~= d.bytes) by {
        assert(b.subrange(start + 9 + n, start + 9 + n + dl) =~= e.subrange(9 + n, 9 + n + dl));
    }
    assert(b[start + 8 + n] == e[8 + n]);
    lemma_u32_roundtrip(b, start, next as u32, big);
    lemma_u16_roundtrip(b, start + 4, dl as u16, big);
    lemma_u16_roundtrip(b, start + 6, d.data_id, big);
    lemma_nul_after(b, start + 8, nb);
    assert(format_position(frs, ds[0].data_id) is Some);
    lemma_unaligned_data_step(b, big, start, frs, fuel, d, next as u32);
    let rec = data_record_of(d, frs);
    if ds.len() == 1 {
        assert(unaligned_data(b, big, next, frs, (fuel - 1) as nat) == Ok::<Seq<DataRecord>, crate::read::SPBFReaderError>(seq![]));
        assert(data_records_of(ds, frs) =~= seq![rec]);
        assert(seq![rec] + Seq::<DataRecord>::empty() =~= seq![rec]);
    } else {
        assert(start + len < u32::MAX);
        assert(next as u32 as int == next);
        assert forall|k: int| 0 <= k < ds.drop_first().len() implies format_position(
            frs,
            #[trigger] ds.drop_first()[k].data_id,
        ) is Some by {
            assert(ds.drop_first()[k] == ds[k + 1]);
        }
        lemma_unaligned_data_roundtrip(ds.drop_first(), frs, start + len, big, b, (fuel - 1) as nat);
        assert(data_records_of(ds, frs) =~= seq![rec] + data_records_of(ds.drop_first(), frs));
    }
}

/// The fields of an unaligned header at the start of a file.
#[verifier::rlimit(50)]
pub proof fn lemma_unaligned_header_fields(
    b: Seq<u8>,
    type_byte: u8,
    fe: u32,
    de: u32,
    nb: Seq<u8>,
    vb: Seq<u8>,
    big: bool,
)
    requires
        !has_nul(nb),
        !has_nul(vb),
        unaligned_header(type_byte, fe, de, nb, vb, big).len() <= b.len(),
        b.subrange(0, unaligned_header(type_byte, fe, de, nb, vb, big).len() as int) == unaligned_header(
            type_byte,
            fe,
            de,
            nb,
            vb,
            big,
        ),
    ensures
        unaligned_header(type_byte, fe, de, nb, vb, big).len() == 0x10 + nb.len() + 1 + vb.len() + 1,
        b.subrange(0, 6) == crate::read::raw::magic(),
        b[6] == type_byte,
        b[7] == 1,
        crate::endian::u32_at(b, 8, big) == fe,
        crate::endian::u32_at(b, 12, big) == de,
        find_nul(b, 0x10) == Some(0x10 + nb.len() as int),
        find_nul(b, 0x10 + nb.len() as int + 1) == Some(0x10 + nb.len() as int + 1 + vb.len() as int),
        b.subrange(0x10, 0x10 + nb.len() as int) == nb,
        b.subrange(0x10 + nb.len() as int + 1, 0x10 + nb.len() as int + 1 + vb.len() as int) == vb,
{
    let h = unaligned_header(type_byte, fe, de, nb, vb, big);
    let n = nb.len() as int;
    let v = vb.len() as int;
    let fixed = crate::read::raw::magic() + seq![type_byte, 1u8] + u32_bytes(fe, big) + u32_bytes(de, big);
    assert(fixed.len() == 16);
    assert(h == fixed + nb + seq![0u8] + vb + seq![0u8]);
    assert(b.subrange(0, 16) == fixed) by {
        assert(b.subrange(0, 16) =~= h.subrange(0, 16));
        assert(h.subrange(0, 16) =~= fixed);
    }
    assert(b.subrange(0x10, 0x10 + n) == nb) by {
        assert(b.subrange(0x10, 0x10 + n) =~= h.subrange(0x10, 0x10 + n));
        assert(h.subrange(0x10, 0x10 + n) =~= nb);
    }
    assert(b.subrange(0x10 + n + 1, 0x10 + n + 1 + v) == vb) by {
        assert(b.subrange(0x10 + n + 1, 0x10 + n + 1 + v) =~= h.subrange(0x10 + n + 1, 0x10 + n + 1 + v));
        assert(h.subrange(0x10 + n + 1, 0x10 + n + 1 + v) =~= vb);
    }
    assert(b[0x10 + n] == h[0x10 + n]);
    assert(b[0x10 + n + 1 + v] == h[0x10 + n + 1 + v]);
    lemma_nul_after(b, 0x10, nb);
    lemma_nul_after(b, 0x10 + n + 1, vb);
    let w = b.subrange(0, 16);
    assert(b.subrange(0, 6) =~= w.subrange(0, 6));
    assert(w.subrange(0, 6) =~= crate::read::raw::magic());
    assert(b[6] == w[6]);
    assert(b[7] == w[7]);
    assert(b.subrange(8, 12) =~= w.subrange(8, 12));
    assert(w.subrange(8, 12) =~= u32_bytes(fe, big));
    assert(b.subrange(12, 16) =~= w.subrange(12, 16));
    assert(w.subrange(12, 16) =~= u32_bytes(de, big));
    lemma_u32_roundtrip(b, 8, fe, big);
    lemma_u32_roundtrip(b, 12, de, big);
}

/// An unaligned file laid out by the writer has the magic bytes, the type
/// byte and the supported version in its header, and its body reads back as
/// the writer's contents.
#[verifier::rlimit(100)]
pub proof fn lemma_unaligned_file_roundtrip(w: WriterView, type_byte: u8, big: bool)
    requires
        unaligned_file(w, type_byte, big) is Ok,
        blocks_have_formats(w),
    ensures
        ({
            let b = unaligned_file(w, type_byte, big)->Ok_0;
            &&& b.len() >= 8
            &&& b.subrange(0, 6) == crate::read::raw::magic()
            &&& b[6] == type_byte
            &&& b[7] == 1
            &&& unaligned_body(b, big) == Ok::<Body, crate::read::SPBFReaderError>(body_of_writer(w))
        }),
{
    let b = unaligned_file(w, type_byte, big)->Ok_0;
    let nb = text_bytes(w.build_name);
    let vb = text_bytes(w.build_version);
    let n = nb.len() as int;
    let v = vb.len() as int;
    let hlen = crate::write::unaligned::unaligned_header_len(w);
    let fb = unaligned_format_entries(w.formats, hlen, big)->Ok_0;
    let dstart = hlen + fb.len();
    let db = unaligned_data_entries(w.data, dstart, big)->Ok_0;
    let fe = if w.formats.len() == 0 {
        0
    } else {
        hlen
    };
    let de = if w.data.len() == 0 {
        0
    } else {
        dstart
    };
    let h = unaligned_header(type_byte, fe as u32, de as u32, nb, vb, big);
    assert(b == h + fb + db);
    assert(b.subrange(0, h.len() as int) =~= h);
    lemma_unaligned_header_fields(b, type_byte, fe as u32, de as u32, nb, vb, big);
    lemma_text_roundtrip(w.build_name);
    lemma_text_roundtrip(w.build_version);
    let fuel = b.len() as nat;
    let frs = format_records_of(w.formats);
    lemma_unaligned_entries_len(w.formats, w.data, hlen, dstart, big);
    if w.formats.len() == 0 {
        assert(frs =~= Seq::<FormatRecord>::empty());
    } else {
        assert(hlen < u32::MAX);
        lemma_window(h, fb, db);
        lemma_unaligned_formats_roundtrip(w.formats, hlen, big, b, fuel);
    }
    assert(unaligned_formats(b, big, fe, fuel) == Ok::<Seq<FormatRecord>, crate::read::SPBFReaderError>(frs));
    if w.data.len() == 0 {
        assert(data_records_of(w.data, frs) =~= Seq::<DataRecord>::empty());
    } else {
        assert(dstart < u32::MAX);
        assert forall|k: int| 0 <= k < w.data.len() implies format_position(frs, #[trigger] w.data[k].data_id)
            is Some by {
            lemma_position_exists(w.formats, w.data[k].data_id);
        }
        assert(b =~= (h + fb) + db + Seq::<u8>::empty());
        lemma_window(h + fb, db, Seq::<u8>::empty());
        lemma_unaligned_data_roundtrip(w.data, frs, dstart, big, b, fuel);
    }
    assert(unaligned_data(b, big, de, frs, fuel) == Ok::<Seq<DataRecord>, crate::read::SPBFReaderError>(
        data_records_of(w.data, frs),
    ));
}

/// What a read gives back of a write. A file that the writer lays out in
/// any of the four file types (the version being the supported one) opens
/// with that type and the supported version, and reads back as the writer's
/// build name and version, its formats (id and name) and its data blocks
/// (name, bytes and id, each tied to the first format of its id), in order,
/// provided every block names an existing format. Every writer made by
/// `SPBFWriter::new` or `SPBFWriter::try_from` and changed only by its
/// methods meets this: they keep `refs_cover_blocks`, which implies it
/// (`lemma_cover_blocks_have_formats`).
pub proof fn law_write_then_read(w: WriterView, t: SPBFType, v: SPBFVersion)
    requires
        blocks_have_formats(w),
        write_file(w, t, v) is Ok,
    ensures
        open_header(write_file(w, t, v)->Ok_0) == Ok::<(SPBFType, SPBFVersion), SPBFReaderError>(
            (t, SPBFVersion::One),
        ),
        read_file(write_file(w, t, v)->Ok_0, t, SPBFVersion::One) == Ok::<Body, SPBFReaderError>(
            body_of_writer(w),
        ),
{
    let tb = type_byte(t);
    match t {
        SPBFType::SmallUnalignedLittleEndian => lemma_unaligned_file_roundtrip(w, tb, false),
        SPBFType::SmallUnalignedBigEndian => lemma_unaligned_file_roundtrip(w, tb, true),
        SPBFType::SmallAlignedLittleEndian => lemma_aligned_file_roundtrip(w, tb, false),
        SPBFType::SmallAlignedBigEndian => lemma_aligned_file_roundtrip(w, tb, true),
    }
    lemma_version_of(1u8);
    let b = write_file(w, t, v)->Ok_0;
    assert(b[7] == 1u8);
}

/// The format entries depend on the formats' ids and names only.
pub proof fn lemma_format_entries_depend_on_ids_and_names(
    fs1: Seq<FormatEntry>,
    fs2: Seq<FormatEntry>,
    start: int,
    big: bool,
)
    requires
        fs1.len() == fs2.len(),
        forall|k: int|
            #![trigger fs1[k]]
            0 <= k < fs1.len() ==> fs1[k].data_id == fs2[k].data_id && fs1[k].name == fs2[k].name,
    ensures
        aligned_format_entries(fs1, start, big) == aligned_format_entries(fs2, start, big),
        unaligned_format_entries(fs1, start, big) == unaligned_format_entries(fs2, start, big),
    decreases fs1.len(),
{
    if fs1.len() > 0 {
        assert(fs1[0].data_id == fs2[0].data_id && fs1[0].name == fs2[0].name);
        let t1 = fs1.drop_first();
        let t2 = fs2.drop_first();
        assert forall|k: int|
            #![trigger t1[k]]
            0 <= k < t1.len() implies t1[k].data_id == t2[k].data_id && t1[k].name == t2[k].name by {
            assert(t1[k] == fs1[k + 1]);
            assert(t2[k] == fs2[k + 1]);
            assert(fs1[k + 1].data_id == fs2[k + 1].data_id && fs1[k + 1].name == fs2[k + 1].name);
        }
        let n = text_bytes(fs1[0].name).len() as int;
        lemma_format_entries_depend_on_ids_and_names(t1, t2, start + 8 + aligned_len(n), big);
        lemma_format_entries_depend_on_ids_and_names(t1, t2, start + 7 + n, big);
    }
}

/// Rewriting what was read gives the same file. A file that the writer lays
/// out, read back and turned into a writer again, is laid out byte for byte
/// as before in the same file type, provided every block names an existing
/// format (as in every writer that keeps `refs_cover_blocks`).
pub proof fn law_read_then_rewrite(w: WriterView, t: SPBFType, v: SPBFVersion)
    requires
        blocks_have_formats(w),
        write_file(w, t, v) is Ok,
    ensures
        write_file(
            crate::write::writer_from_read(crate::read::with_header(body_of_writer(w), t, SPBFVersion::One)),
            t,
            v,
        ) == write_file(w, t, v),
{
    let r = crate::read::with_header(body_of_writer(w), t, SPBFVersion::One);
    let w2 = crate::write::writer_from_read(r);
    let frs = format_records_of(w.formats);
    assert forall|k: int| 0 <= k < w.data.len() implies format_position(frs, #[trigger] w.data[k].data_id)
        is Some by {
        lemma_position_exists(w.formats, w.data[k].data_id);
    }
    assert(w2.data =~= w.data) by {
        assert forall|k: int| 0 <= k < w.data.len() implies #[trigger] w2.data[k] == w.data[k] by {
            assert(format_position(frs, w.data[k].data_id) is Some);
        }
    }
    assert forall|k: int|
        #![trigger w2.formats[k]]
        0 <= k < w2.formats.len() implies w2.formats[k].data_id == w.formats[k].data_id && w2.formats[k].name
            == w.formats[k].name by {}
    let nb = text_bytes(w.build_name);
    let vb = text_bytes(w.build_version);
    lemma_format_entries_depend_on_ids_and_names(
        w2.formats,
        w.formats,
        crate::write::aligned::aligned_header_len(w),
        false,
    );
    lemma_format_entries_depend_on_ids_and_names(
        w2.formats,
        w.formats,
        crate::write::aligned::aligned_header_len(w),
        true,
    );
    lemma_format_entries_depend_on_ids_and_names(
        w2.formats,
        w.formats,
        crate::write::unaligned::unaligned_header_len(w),
        false,
    );
    lemma_format_entries_depend_on_ids_and_names(
        w2.formats,
        w.formats,
        crate::write::unaligned::unaligned_header_len(w),
        true,
    );
}

} // verus!
