//! Laws that relate the writer's operations to one another.
use vstd::prelude::*;
use crate::search::{lemma_first_index, lemma_first_index_at, lemma_first_index_same};
use crate::write::{
    data_name_is, data_named, format_id_is, format_name_is, format_named, format_with_id, id_count, lemma_register_wf,
    DataEntry, FormatEntry, SPBFWriterDataAddError, SPBFWriterError, WriterView,
};

verus! {

/// Adding a block under a format that exists adds no format: that format
/// counts one more reference and the block is appended.
pub proof fn law_add_under_existing_format(w: WriterView, name: Seq<char>, format: Seq<char>, bytes: Seq<u8>)
    requires
        w.wf_strict(),
        w.can_register(format),
        data_named(w.data, name) is None,
        format_named(w.formats, format) is Some,
    ensures
        ({
            let i = format_named(w.formats, format)->Some_0;
            let r = w.add_data_result(name, format, bytes);
            &&& r is Ok
            &&& r->Ok_0.formats.len() == w.formats.len()
            &&& r->Ok_0.formats[i].refs == w.formats[i].refs + 1
            &&& r->Ok_0.data == w.data.push(DataEntry { data_id: w.formats[i].data_id, name, bytes })
        }),
{
    lemma_first_index(w.formats, format_name_is(format));
}

/// Removing the block just added restores the formats and the blocks. When
/// a block with a new name is added under a format not yet registered and
/// then removed, the writer holds the same formats and blocks as before
/// (the format's id is left free for reuse).
pub proof fn law_remove_undoes_add(w: WriterView, name: Seq<char>, format: Seq<char>, bytes: Seq<u8>)
    requires
        w.wf_strict(),
        data_named(w.data, name) is None,
        format_named(w.formats, format) is None,
        w.add_data_result(name, format, bytes) is Ok,
    ensures
        ({
            let (w3, removed) = w.add_data_result(name, format, bytes)->Ok_0.remove_data_result(name);
            &&& removed
            &&& w3.formats == w.formats
            &&& w3.data == w.data
        }),
{
    let (w1, id) = w.register_format(format)->Ok_0;
    lemma_register_wf(w, format);
    let w2 = w.add_data_result(name, format, bytes)->Ok_0;
    let n = w.data.len() as int;
    let m = w.formats.len() as int;
    lemma_first_index(w.data, data_name_is(name));
    assert forall|k: int| 0 <= k < n implies !data_name_is(name)(#[trigger] w2.data[k]) by {
        assert(w2.data[k] == w.data[k]);
    }
    lemma_first_index_at(w2.data, data_name_is(name), n);
    assert(w2.formats[m].data_id == id);
    assert forall|k: int| 0 <= k < m implies !format_id_is(id)(#[trigger] w2.formats[k]) by {
        assert(w1.formats[k].data_id != w1.formats[m].data_id);
    }
    lemma_first_index_at(w2.formats, format_id_is(id), m);
    assert(w2.data.remove(n) =~= w.data);
    assert(w2.formats.remove(m) =~= w.formats);
}

/// A freed id is the next one handed out. When removing a block takes the
/// last reference of its format, the format's id is the one that the next
/// new format receives.
pub proof fn law_freed_id_is_reused(w: WriterView, name: Seq<char>, format: Seq<char>)
    requires
        w.wf_strict(),
        data_named(w.data, name) is Some,
        format_with_id(w.formats, w.data[data_named(w.data, name)->Some_0].data_id) matches Some(j)
            && w.formats[j].refs == 1,
        format_named(w.remove_data_result(name).0.formats, format) is None,
    ensures
        w.remove_data_result(name).0.register_format(format) matches Ok((_, id)) && id
            == w.data[data_named(w.data, name)->Some_0].data_id,
{
    let i = data_named(w.data, name)->Some_0;
    let j = format_with_id(w.formats, w.data[i].data_id)->Some_0;
    lemma_first_index(w.formats, format_id_is(w.data[i].data_id));
    let w2 = w.remove_data_result(name).0;
    assert(w2.free_ids.last() == w.formats[j].data_id);
}

/// Registering a format succeeds exactly when the format exists, a freed id
/// is waiting, or the counter has room; only the exhausted counter refuses.
pub proof fn law_registration_succeeds(w: WriterView, format: Seq<char>)
    ensures
        w.register_format(format) is Ok <==> (format_named(w.formats, format) is Some || w.free_ids.len() > 0
            || w.last_id < u16::MAX),
        w.register_format(format) matches Err(e) ==> e == SPBFWriterError::DataAdd(
            SPBFWriterDataAddError::FormatCounterOverflow,
        ),
{
}

/// Adding a block is refused with `DataAlreadyDefined` exactly when a block
/// of that name exists, and otherwise only with `FormatCounterOverflow`,
/// exactly when the format is new and no id is left to hand out.
pub proof fn law_add_data_errors(w: WriterView, name: Seq<char>, format: Seq<char>, bytes: Seq<u8>)
    ensures
        (w.add_data_result(name, format, bytes) == Err::<WriterView, SPBFWriterError>(
            SPBFWriterError::DataAdd(SPBFWriterDataAddError::DataAlreadyDefined),
        )) <==> data_named(w.data, name) is Some,
        (w.add_data_result(name, format, bytes) == Err::<WriterView, SPBFWriterError>(
            SPBFWriterError::DataAdd(SPBFWriterDataAddError::FormatCounterOverflow),
        )) <==> (data_named(w.data, name) is None && format_named(w.formats, format) is None
            && w.free_ids.len() == 0 && w.last_id == u16::MAX),
        w.add_data_result(name, format, bytes) matches Err(e) ==> (e == SPBFWriterError::DataAdd(
            SPBFWriterDataAddError::DataAlreadyDefined,
        ) || e == SPBFWriterError::DataAdd(SPBFWriterDataAddError::FormatCounterOverflow)),
{
}

/// After adding or overwriting succeeds, the first block named `name` holds
/// exactly `bytes` under the id of the format named `format`, whether or
/// not a block of that name existed, and whatever id it carried. A block of
/// that name is appended only when there was none; the other blocks keep
/// their place, and all keep their names.
pub proof fn law_overwrite_holds_new_bytes(w: WriterView, name: Seq<char>, format: Seq<char>, bytes: Seq<u8>)
    ensures
        w.add_or_overwrite_result(name, format, bytes) matches Ok(w3) ==> {
            &&& data_named(w3.data, name) is Some
            &&& format_named(w3.formats, format) is Some
            &&& w3.data[data_named(w3.data, name)->Some_0].bytes == bytes
            &&& w3.data[data_named(w3.data, name)->Some_0].data_id == w3.formats[format_named(
                w3.formats,
                format,
            )->Some_0].data_id
            &&& w3.data.len() == w.data.len() + if data_named(w.data, name) is Some {
                0int
            } else {
                1int
            }
            &&& forall|k: int| 0 <= k < w.data.len() ==> #[trigger] w3.data[k].name == w.data[k].name
            &&& forall|k: int|
                0 <= k < w.data.len() && data_named(w.data, name) != Some(k) ==> #[trigger] w3.data[k] == w.data[k]
        },
{
    if let Ok((w2, id)) = w.register_format(format) {
        lemma_first_index(w.formats, format_name_is(format));
        lemma_first_index(w.data, data_name_is(name));
        // The format named `format` is where registration put it.
        match format_named(w.formats, format) {
            Some(j) => {
                lemma_first_index_same(w2.formats, w.formats, format_name_is(format), format_name_is(format));
                assert(w2.formats[j].data_id == id);
            },
            None => {
                let m = w.formats.len() as int;
                assert forall|k: int| 0 <= k < m implies !format_name_is(format)(#[trigger] w2.formats[k]) by {
                    assert(w2.formats[k] == w.formats[k]);
                }
                lemma_first_index_at(w2.formats, format_name_is(format), m);
                assert(w2.formats[m].data_id == id);
            },
        }
        let w3 = w.add_or_overwrite_result(name, format, bytes)->Ok_0;
        assert(w2.data == w.data);
        match data_named(w.data, name) {
            Some(i) => {
                lemma_first_index_same(w3.data, w.data, data_name_is(name), data_name_is(name));
            },
            None => {
                let n = w.data.len() as int;
                assert forall|k: int| 0 <= k < n implies !data_name_is(name)(#[trigger] w3.data[k]) by {
                    assert(w3.data[k] == w.data[k]);
                }
                lemma_first_index_at(w3.data, data_name_is(name), n);
            },
        }
    }
}

/// Removing a block changes no format's name or id. When a block named
/// `name` exists, the first one is removed and the first format with its id
/// loses one reference, all others keeping theirs; a format left with none
/// is removed and its id freed. When there is none, nothing changes.
pub proof fn law_remove_keeps_format_names(w: WriterView, name: Seq<char>)
    requires
        w.removable(name),
    ensures
        ({
            let (w2, removed) = w.remove_data_result(name);
            &&& removed <==> data_named(w.data, name) is Some
            &&& !removed ==> w2 == w
            &&& removed ==> {
                let i = data_named(w.data, name)->Some_0;
                let j0 = format_with_id(w.formats, w.data[i].data_id)->Some_0;
                &&& w2.data == w.data.remove(i)
                &&& w2.build_name == w.build_name && w2.build_version == w.build_version
                &&& w2.last_id == w.last_id
                &&& w.formats[j0].data_id == w.data[i].data_id
                &&& {
                    ||| w.formats[j0].refs > 1 && w2.free_ids == w.free_ids && w2.formats.len()
                        == w.formats.len() && forall|j: int|
                        0 <= j < w.formats.len() ==> #[trigger] w2.formats[j].data_id == w.formats[j].data_id
                            && w2.formats[j].name == w.formats[j].name && w2.formats[j].refs + (if j == j0 {
                            1int
                        } else {
                            0int
                        }) == w.formats[j].refs
                    ||| w.formats[j0].refs == 1 && w2.free_ids == w.free_ids.push(w.formats[j0].data_id)
                        && w2.formats == w.formats.remove(j0)
                }
            }
        }),
{
    lemma_first_index(w.data, data_name_is(name));
    if let Some(i) = data_named(w.data, name) {
        lemma_first_index(w.formats, format_id_is(w.data[i].data_id));
    }
}

/// What registering a format that cannot overflow its count does. The
/// format named `format` then carries
/// the id handed back. An existing format of that name counts one more
/// reference, every format keeping its id and name. Otherwise a new format
/// of that name with one reference is appended, taking the most recently
/// freed id, or else the id one above the counter; nothing else changes.
pub proof fn law_registration_effect(w: WriterView, format: Seq<char>)
    requires
        w.can_register(format),
    ensures
        w.register_format(format) matches Ok((w2, id)) ==> {
            &&& format_named(w2.formats, format) is Some
            &&& w2.formats[format_named(w2.formats, format)->Some_0].data_id == id
            &&& w2.data == w.data && w2.build_name == w.build_name && w2.build_version == w.build_version
            &&& format_named(w.formats, format) is Some ==> {
                let i = format_named(w.formats, format)->Some_0;
                &&& format_named(w2.formats, format) == Some(i)
                &&& w2.free_ids == w.free_ids && w2.last_id == w.last_id
                &&& w2.formats.len() == w.formats.len()
                &&& forall|k: int|
                    0 <= k < w.formats.len() ==> #[trigger] w2.formats[k].data_id == w.formats[k].data_id
                        && w2.formats[k].name == w.formats[k].name && w2.formats[k].refs == w.formats[k].refs
                        + if k == i {
                        1int
                    } else {
                        0int
                    }
            }
            &&& format_named(w.formats, format) is None ==> {
                &&& w2.formats == w.formats.push(FormatEntry { data_id: id, name: format, refs: 1 })
                &&& w.free_ids.len() > 0 ==> id == w.free_ids.last() && w2.free_ids == w.free_ids.drop_last()
                    && w2.last_id == w.last_id
                &&& w.free_ids.len() == 0 ==> id == w.last_id + 1 && w2.last_id == id && w2.free_ids
                    == w.free_ids
            }
        },
{
    if let Ok((w2, id)) = w.register_format(format) {
        lemma_first_index(w.formats, format_name_is(format));
        match format_named(w.formats, format) {
            Some(j) => {
                lemma_first_index_same(w2.formats, w.formats, format_name_is(format), format_name_is(format));
            },
            None => {
                let m = w.formats.len() as int;
                assert forall|k: int| 0 <= k < m implies !format_name_is(format)(#[trigger] w2.formats[k]) by {
                    assert(w2.formats[k] == w.formats[k]);
                }
                lemma_first_index_at(w2.formats, format_name_is(format), m);
            },
        }
    }
}

/// Adding a block with a new name appends exactly that block, under the id
/// of the format named `format` after registration; an existing block name
/// refuses the request and changes nothing.
pub proof fn law_add_data_appends(w: WriterView, name: Seq<char>, format: Seq<char>, bytes: Seq<u8>)
    requires
        w.can_register(format),
    ensures
        data_named(w.data, name) is Some ==> w.add_data_result(name, format, bytes) is Err,
        w.add_data_result(name, format, bytes) matches Ok(w3) ==> {
            &&& data_named(w.data, name) is None
            &&& w.register_format(format) is Ok
            &&& w3.formats == w.register_format(format)->Ok_0.0.formats
            &&& format_named(w3.formats, format) is Some
            &&& w3.data == w.data.push(
                DataEntry { data_id: w3.formats[format_named(w3.formats, format)->Some_0].data_id, name, bytes },
            )
        },
{
    law_registration_effect(w, format);
}

/// The writer made from a read file: the same names, formats (id and name,
/// in order) and blocks; the first format with an id counts every block
/// that carries the id, and a later format with the same id counts none;
/// the counter is the largest id, or `0xFF` when all ids are smaller, and
/// no id is freed.
pub proof fn law_writer_from_read(r: crate::read::ReadView)
    requires
        crate::read::positions_valid(r.formats, r.data),
        r.data.len() < u32::MAX,
    ensures
        ({
            let w = crate::write::writer_from_read(r);
            &&& w.build_name == r.build_name && w.build_version == r.build_version
            &&& w.free_ids.len() == 0
            &&& w.formats.len() == r.formats.len()
            &&& w.data.len() == r.data.len()
            &&& forall|k: int|
                0 <= k < r.data.len() ==> #[trigger] w.data[k] == (DataEntry {
                    data_id: r.data[k].data_id,
                    name: r.data[k].name,
                    bytes: r.data[k].bytes,
                })
            &&& forall|j: int|
                0 <= j < r.formats.len() ==> #[trigger] w.formats[j].data_id == r.formats[j].data_id
                    && w.formats[j].name == r.formats[j].name
            &&& forall|j: int|
                0 <= j < r.formats.len() ==> (#[trigger] format_with_id(w.formats, w.formats[j].data_id) == Some(j)
                    ==> w.formats[j].refs == id_count(w.data, w.formats[j].data_id))
            &&& forall|j: int|
                0 <= j < r.formats.len() ==> (#[trigger] format_with_id(w.formats, w.formats[j].data_id) != Some(j)
                    ==> w.formats[j].refs == 0)
            &&& w.last_id >= 0xFF
            &&& forall|j: int| 0 <= j < r.formats.len() ==> #[trigger] r.formats[j].data_id <= w.last_id
            &&& w.last_id == 0xFF || exists|j: int| 0 <= j < r.formats.len() && #[trigger] r.formats[j].data_id == w.last_id
        }),
{
    let w = crate::write::writer_from_read(r);
    crate::write::lemma_largest_id(r.formats);
    lemma_largest_id_attained(r.formats);
    assert forall|j: int| 0 <= j < r.formats.len() implies (#[trigger] format_with_id(w.formats, w.formats[j].data_id)
        == Some(j) ==> w.formats[j].refs == id_count(w.data, w.formats[j].data_id)) by {
        let x = w.formats[j].data_id;
        crate::search::lemma_first_index_same(r.formats, w.formats, crate::read::record_id_is(x), format_id_is(x));
        if format_with_id(w.formats, x) == Some(j) {
            crate::write::from_read::lemma_position_count_first(r.formats, r.data, j);
            crate::write::lemma_position_count_le(r.data, j);
        }
    }
    assert forall|j: int| 0 <= j < r.formats.len() implies (#[trigger] format_with_id(w.formats, w.formats[j].data_id)
        != Some(j) ==> w.formats[j].refs == 0) by {
        let x = w.formats[j].data_id;
        crate::search::lemma_first_index_same(r.formats, w.formats, crate::read::record_id_is(x), format_id_is(x));
        crate::search::lemma_first_index(r.formats, crate::read::record_id_is(x));
        if format_with_id(w.formats, x) != Some(j) {
            lemma_no_block_points_at(r.formats, r.data, j);
        }
    }
}

/// The largest id is `0xFF` or one of the ids.
proof fn lemma_largest_id_attained(fs: Seq<crate::read::FormatRecord>)
    ensures
        crate::write::largest_id(fs) == 0xFF || exists|j: int|
            0 <= j < fs.len() && #[trigger] fs[j].data_id == crate::write::largest_id(fs),
    decreases fs.len(),
{
    if fs.len() > 0 {
        lemma_largest_id_attained(fs.drop_last());
        if crate::write::largest_id(fs) != fs.last().data_id && crate::write::largest_id(fs) != 0xFF {
            let j = choose|j: int|
                0 <= j < fs.drop_last().len() && #[trigger] fs.drop_last()[j].data_id == crate::write::largest_id(
                    fs.drop_last(),
                );
            assert(fs[j] == fs.drop_last()[j]);
        } else if crate::write::largest_id(fs) == fs.last().data_id {
            assert(fs[fs.len() - 1].data_id == crate::write::largest_id(fs));
        }
    }
}

/// No block points at a format that is not the first with its id.
proof fn lemma_no_block_points_at(
    fs: Seq<crate::read::FormatRecord>,
    ds: Seq<crate::read::DataRecord>,
    j: int,
)
    requires
        0 <= j < fs.len(),
        crate::read::format_position(fs, fs[j].data_id) != Some(j),
        crate::read::positions_valid(fs, ds),
    ensures
        crate::write::position_count(ds, j) == 0,
    decreases ds.len(),
{
    if ds.len() > 0 {
        let dl = ds.drop_last();
        assert forall|k: int| 0 <= k < dl.len() implies crate::read::format_position(fs, #[trigger] dl[k].data_id)
            == Some(dl[k].format_position) by {
            assert(dl[k] == ds[k]);
        }
        lemma_no_block_points_at(fs, dl, j);
        let last = ds.last();
        assert(crate::read::format_position(fs, ds[ds.len() - 1].data_id) == Some(ds[ds.len() - 1].format_position));
        crate::search::lemma_first_index(fs, crate::read::record_id_is(last.data_id));
        crate::search::lemma_first_index(fs, crate::read::record_id_is(fs[j].data_id));
    }
}

} // verus!
