//! The writer that a read file turns into: the same names, formats and
//! data blocks, each format counting the blocks that point at it.
use vstd::prelude::*;
use crate::read::{format_position, positions_valid, DataRecord, FormatRecord, ReadView};
use crate::write::state::{format_id_is, format_with_id, has_format_id, id_count, initial_last_id, DataEntry, FormatEntry, WriterView};

verus! {

/// How many of the read blocks point at the format at index `i`.
pub open spec fn position_count(ds: Seq<DataRecord>, i: int) -> nat
    decreases ds.len(),
{
    if ds.len() == 0 {
        0
    } else {
        position_count(ds.drop_last(), i) + if ds.last().format_position == i {
            1nat
        } else {
            0nat
        }
    }
}

/// The largest format id, or `0xFF` when all are smaller.
pub open spec fn largest_id(fs: Seq<FormatRecord>) -> u16
    decreases fs.len(),
{
    if fs.len() == 0 {
        initial_last_id()
    } else {
        let m = largest_id(fs.drop_last());
        if m < fs.last().data_id {
            fs.last().data_id
        } else {
            m
        }
    }
}

/// A writer entry for a read data block.
pub open spec fn entry_of_record(d: DataRecord) -> DataEntry {
    DataEntry { data_id: d.data_id, name: d.name, bytes: d.bytes }
}

/// The formats of a read file as writer entries, each counting the blocks
/// that point at it.
pub open spec fn formats_from_read(r: ReadView) -> Seq<FormatEntry> {
    Seq::new(
        r.formats.len(),
        |i: int| FormatEntry { data_id: r.formats[i].data_id, name: r.formats[i].name, refs: position_count(r.data, i) as u32 },
    )
}

/// The writer that holds what was read: the same names, formats and
/// blocks, the counter at the largest id and no freed ids.
pub open spec fn writer_from_read(r: ReadView) -> WriterView {
    WriterView {
        build_name: r.build_name,
        build_version: r.build_version,
        last_id: largest_id(r.formats),
        free_ids: seq![],
        formats: formats_from_read(r),
        data: r.data.map_values(|d: DataRecord| entry_of_record(d)),
    }
}

/// The format ids of a read file are distinct.
pub open spec fn distinct_format_ids(fs: Seq<FormatRecord>) -> bool {
    forall|i: int, j: int| 0 <= i < j < fs.len() ==> #[trigger] fs[i].data_id != #[trigger] fs[j].data_id
}

/// No block points beyond what has been counted.
pub proof fn lemma_position_count_le(ds: Seq<DataRecord>, i: int)
    ensures
        position_count(ds, i) <= ds.len(),
    decreases ds.len(),
{
    if ds.len() > 0 {
        lemma_position_count_le(ds.drop_last(), i);
    }
}

/// The largest id is at least `0xFF` and every format id.
pub proof fn lemma_largest_id(fs: Seq<FormatRecord>)
    ensures
        largest_id(fs) >= initial_last_id(),
        forall|k: int| 0 <= k < fs.len() ==> #[trigger] fs[k].data_id <= largest_id(fs),
    decreases fs.len(),
{
    if fs.len() > 0 {
        lemma_largest_id(fs.drop_last());
        assert forall|k: int| 0 <= k < fs.len() implies #[trigger] fs[k].data_id <= largest_id(fs) by {
            if k < fs.len() - 1 {
                assert(fs[k] == fs.drop_last()[k]);
            }
        }
    }
}

/// With distinct ids, the blocks pointing at a format are those of its id.
pub proof fn lemma_position_count_is_id_count(fs: Seq<FormatRecord>, ds: Seq<DataRecord>, i: int)
    requires
        0 <= i < fs.len(),
        distinct_format_ids(fs),
        positions_valid(fs, ds),
    ensures
        position_count(ds, i) == id_count(ds.map_values(|d: DataRecord| entry_of_record(d)), fs[i].data_id),
    decreases ds.len(),
{
    if ds.len() > 0 {
        let dl = ds.drop_last();
        assert forall|k: int| 0 <= k < dl.len() implies format_position(fs, #[trigger] dl[k].data_id) == Some(
            dl[k].format_position,
        ) by {
            assert(dl[k] == ds[k]);
        }
        lemma_position_count_is_id_count(fs, dl, i);
        assert(ds.map_values(|d: DataRecord| entry_of_record(d)).drop_last() =~= dl.map_values(
            |d: DataRecord| entry_of_record(d),
        ));
        let last = ds.last();
        assert(format_position(fs, ds[ds.len() - 1].data_id) == Some(ds[ds.len() - 1].format_position));
        crate::search::lemma_first_index(fs, crate::read::record_id_is(last.data_id));
        let p = last.format_position;
        if p != i && last.data_id == fs[i].data_id {
            if p < i {
                assert(fs[p].data_id != fs[i].data_id);
            } else {
                assert(fs[i].data_id != fs[p].data_id);
            }
        }
    }
}

/// A writer made from a read file with distinct format ids keeps the
/// bookkeeping.
pub proof fn lemma_writer_from_read_wf(r: ReadView)
    requires
        r.data.len() < u32::MAX,
        distinct_format_ids(r.formats),
        positions_valid(r.formats, r.data),
    ensures
        writer_from_read(r).wf_strict(),
{
    let w = writer_from_read(r);
    lemma_largest_id(r.formats);
    assert forall|j: int| 0 <= j < w.formats.len() implies id_count(w.data, #[trigger] w.formats[j].data_id)
        <= w.formats[j].refs by {
        lemma_position_count_is_id_count(r.formats, r.data, j);
        lemma_position_count_le(r.data, j);
    }
    assert forall|k: int| 0 <= k < w.data.len() implies has_format_id(w.formats, #[trigger] w.data[k].data_id) by {
        assert(format_position(r.formats, r.data[k].data_id) == Some(r.data[k].format_position));
        crate::search::lemma_first_index(r.formats, crate::read::record_id_is(r.data[k].data_id));
        let p = r.data[k].format_position;
        assert(w.formats[p].data_id == w.data[k].data_id);
    }
    assert forall|i: int, j: int| 0 <= i < j < w.formats.len() implies #[trigger] w.formats[i].data_id
        != #[trigger] w.formats[j].data_id by {
        assert(r.formats[i].data_id != r.formats[j].data_id);
    }
    assert forall|j: int| 0 <= j < w.formats.len() implies #[trigger] w.formats[j].data_id <= w.last_id by {
        assert(r.formats[j].data_id <= largest_id(r.formats));
    }
}

/// A block points at the format at index `i` exactly when it carries the id
/// of that format, when `i` is the first format with its id.
pub proof fn lemma_position_count_first(fs: Seq<FormatRecord>, ds: Seq<DataRecord>, i: int)
    requires
        0 <= i < fs.len(),
        format_position(fs, fs[i].data_id) == Some(i),
        positions_valid(fs, ds),
    ensures
        position_count(ds, i) == id_count(ds.map_values(|d: DataRecord| entry_of_record(d)), fs[i].data_id),
    decreases ds.len(),
{
    if ds.len() > 0 {
        let dl = ds.drop_last();
        assert forall|k: int| 0 <= k < dl.len() implies format_position(fs, #[trigger] dl[k].data_id) == Some(
            dl[k].format_position,
        ) by {
            assert(dl[k] == ds[k]);
        }
        lemma_position_count_first(fs, dl, i);
        assert(ds.map_values(|d: DataRecord| entry_of_record(d)).drop_last() =~= dl.map_values(
            |d: DataRecord| entry_of_record(d),
        ));
        let last = ds.last();
        assert(format_position(fs, ds[ds.len() - 1].data_id) == Some(ds[ds.len() - 1].format_position));
        crate::search::lemma_first_index(fs, crate::read::record_id_is(last.data_id));
    }
}

/// Every writer made from a read file keeps the general bookkeeping, even
/// when the file repeats a format id.
pub proof fn lemma_writer_from_read_keeps_wf(r: ReadView)
    requires
        r.data.len() < u32::MAX,
        positions_valid(r.formats, r.data),
    ensures
        writer_from_read(r).wf(),
{
    let w = writer_from_read(r);
    assert forall|k: int| 0 <= k < w.data.len() implies (format_with_id(w.formats, #[trigger] w.data[k].data_id) matches Some(j)
        && id_count(w.data, w.data[k].data_id) <= w.formats[j].refs) by {
        let x = w.data[k].data_id;
        assert(format_position(r.formats, r.data[k].data_id) == Some(r.data[k].format_position));
        crate::search::lemma_first_index_same(
            r.formats,
            w.formats,
            crate::read::record_id_is(x),
            format_id_is(x),
        );
        let p = r.data[k].format_position;
        crate::search::lemma_first_index(r.formats, crate::read::record_id_is(x));
        lemma_position_count_first(r.formats, r.data, p);
        lemma_position_count_le(r.data, p);
    }
}

} // verus!
