//! The references of the formats cover the data blocks: for every id, the
//! formats with that id count together at least the blocks that carry it.
//! Every operation keeps this, also on a writer made from a file that
//! repeats a format id, so every block always has a format to be written
//! under.
use vstd::prelude::*;
use crate::search::lemma_first_index;
use crate::write::state::{
    data_name_is, data_named, format_id_is, format_name_is, format_named, format_with_id, has_format_id,
    id_count, lemma_id_count_push, lemma_id_count_remove, lemma_id_count_update, lemma_id_count_zero, DataEntry,
    FormatEntry, WriterView,
};

verus! {

/// The references that the formats with id `id` count together.
pub open spec fn refs_of(fs: Seq<FormatEntry>, id: u16) -> nat
    decreases fs.len(),
{
    if fs.len() == 0 {
        0
    } else {
        refs_of(fs.drop_last(), id) + if fs.last().data_id == id {
            fs.last().refs as nat
        } else {
            0nat
        }
    }
}

impl WriterView {
    /// For the id of every block, the formats with that id count together
    /// at least the blocks that carry it.
    pub open spec fn refs_cover_blocks(self) -> bool {
        forall|k: int|
            0 <= k < self.data.len() ==> id_count(self.data, #[trigger] self.data[k].data_id) <= refs_of(
                self.formats,
                self.data[k].data_id,
            )
    }
}

/// Every block's id belongs to a format.
pub open spec fn blocks_have_formats(w: WriterView) -> bool {
    forall|k: int| 0 <= k < w.data.len() ==> has_format_id(w.formats, #[trigger] w.data[k].data_id)
}

/// The sum after appending a format.
pub proof fn lemma_refs_of_push(fs: Seq<FormatEntry>, f: FormatEntry, id: u16)
    ensures
        refs_of(fs.push(f), id) == refs_of(fs, id) + if f.data_id == id {
            f.refs as nat
        } else {
            0nat
        },
{
    assert(fs.push(f).drop_last() =~= fs);
}

/// The sum after replacing a format.
pub proof fn lemma_refs_of_update(fs: Seq<FormatEntry>, j: int, f: FormatEntry, id: u16)
    requires
        0 <= j < fs.len(),
    ensures
        refs_of(fs.update(j, f), id) + (if fs[j].data_id == id {
            fs[j].refs as nat
        } else {
            0nat
        }) == refs_of(fs, id) + (if f.data_id == id {
            f.refs as nat
        } else {
            0nat
        }),
    decreases fs.len(),
{
    if j == fs.len() - 1 {
        assert(fs.update(j, f).drop_last() =~= fs.drop_last());
    } else {
        lemma_refs_of_update(fs.drop_last(), j, f, id);
        assert(fs.update(j, f).drop_last() =~= fs.drop_last().update(j, f));
    }
}

/// The sum after removing a format.
pub proof fn lemma_refs_of_remove(fs: Seq<FormatEntry>, j: int, id: u16)
    requires
        0 <= j < fs.len(),
    ensures
        refs_of(fs.remove(j), id) + (if fs[j].data_id == id {
            fs[j].refs as nat
        } else {
            0nat
        }) == refs_of(fs, id),
    decreases fs.len(),
{
    if j == fs.len() - 1 {
        assert(fs.remove(j) =~= fs.drop_last());
    } else {
        lemma_refs_of_remove(fs.drop_last(), j, id);
        assert(fs.remove(j).drop_last() =~= fs.drop_last().remove(j));
        assert(fs.remove(j).last() == fs.last());
    }
}

/// One format's count is part of the sum for its id.
pub proof fn lemma_refs_of_ge(fs: Seq<FormatEntry>, j: int)
    requires
        0 <= j < fs.len(),
    ensures
        fs[j].refs <= refs_of(fs, fs[j].data_id),
    decreases fs.len(),
{
    if j < fs.len() - 1 {
        lemma_refs_of_ge(fs.drop_last(), j);
        assert(fs.drop_last()[j] == fs[j]);
    }
}

/// A positive sum means some format has the id.
pub proof fn lemma_refs_of_pos(fs: Seq<FormatEntry>, id: u16)
    requires
        refs_of(fs, id) > 0,
    ensures
        has_format_id(fs, id),
    decreases fs.len(),
{
    if fs.last().data_id == id {
        assert(fs[fs.len() - 1].data_id == id);
    } else {
        lemma_refs_of_pos(fs.drop_last(), id);
        let j = choose|j: int| 0 <= j < fs.drop_last().len() && #[trigger] fs.drop_last()[j].data_id == id;
        assert(fs[j] == fs.drop_last()[j]);
    }
}

/// The cover holds for every id, carried by a block or not.
pub proof fn lemma_cover_any(w: WriterView, id: u16)
    requires
        w.refs_cover_blocks(),
    ensures
        id_count(w.data, id) <= refs_of(w.formats, id),
{
    lemma_id_count_zero(w.data, id);
    if id_count(w.data, id) > 0 {
        let k = choose|k: int| 0 <= k < w.data.len() && #[trigger] w.data[k].data_id == id;
    }
}

/// Under the cover every block's id belongs to a format.
pub proof fn lemma_cover_blocks_have_formats(w: WriterView)
    requires
        w.refs_cover_blocks(),
    ensures
        blocks_have_formats(w),
{
    assert forall|k: int| 0 <= k < w.data.len() implies has_format_id(w.formats, #[trigger] w.data[k].data_id) by {
        let x = w.data[k].data_id;
        lemma_id_count_zero(w.data, x);
        lemma_refs_of_pos(w.formats, x);
    }
}

/// The bookkeeping that makes every block removable implies the cover.
pub proof fn lemma_wf_covers(w: WriterView)
    requires
        w.wf(),
    ensures
        w.refs_cover_blocks(),
{
    assert forall|k: int| 0 <= k < w.data.len() implies id_count(w.data, #[trigger] w.data[k].data_id) <= refs_of(
        w.formats,
        w.data[k].data_id,
    ) by {
        let x = w.data[k].data_id;
        let j = format_with_id(w.formats, x)->Some_0;
        lemma_first_index(w.formats, format_id_is(x));
        lemma_refs_of_ge(w.formats, j);
    }
}

/// Registering a format adds one reference to its id and nothing else.
pub proof fn lemma_register_refs(w: WriterView, name: Seq<char>)
    requires
        w.can_register(name),
        w.register_format(name) is Ok,
    ensures
        ({
            let (w2, id) = w.register_format(name)->Ok_0;
            &&& w2.data == w.data
            &&& forall|y: u16| #[trigger] refs_of(w2.formats, y) == refs_of(w.formats, y) + if y == id {
                1nat
            } else {
                0nat
            }
        }),
{
    let (w2, id) = w.register_format(name)->Ok_0;
    lemma_first_index(w.formats, format_name_is(name));
    match format_named(w.formats, name) {
        Some(i) => {
            let f = w.formats[i];
            let nf = FormatEntry { data_id: f.data_id, name: f.name, refs: (f.refs + 1) as u32 };
            assert forall|y: u16| #[trigger] refs_of(w2.formats, y) == refs_of(w.formats, y) + if y == id {
                1nat
            } else {
                0nat
            } by {
                lemma_refs_of_update(w.formats, i, nf, y);
            }
        },
        None => {
            let nf = FormatEntry { data_id: id, name, refs: 1 };
            assert forall|y: u16| #[trigger] refs_of(w2.formats, y) == refs_of(w.formats, y) + if y == id {
                1nat
            } else {
                0nat
            } by {
                lemma_refs_of_push(w.formats, nf, y);
            }
        },
    }
}

/// Adding a block keeps the cover.
pub proof fn lemma_append_covers(w: WriterView, name: Seq<char>, format: Seq<char>, bytes: Seq<u8>)
    requires
        w.refs_cover_blocks(),
        w.can_register(format),
    ensures
        w.append_data(name, format, bytes) matches Ok(w3) ==> w3.refs_cover_blocks(),
        w.add_data_result(name, format, bytes) matches Ok(w3) ==> w3.refs_cover_blocks(),
{
    if w.register_format(format) is Ok {
        lemma_register_refs(w, format);
        let (w2, id) = w.register_format(format)->Ok_0;
        let d = DataEntry { data_id: id, name, bytes };
        let ds = w.data.push(d);
        assert forall|k: int| 0 <= k < ds.len() implies id_count(ds, #[trigger] ds[k].data_id) <= refs_of(
            w2.formats,
            ds[k].data_id,
        ) by {
            let y = ds[k].data_id;
            lemma_id_count_push(w.data, d, y);
            lemma_cover_any(w, y);
            assert(refs_of(w2.formats, y) == refs_of(w.formats, y) + if y == id {
                1nat
            } else {
                0nat
            });
        }
    }
}

/// Adding or replacing a block keeps the cover.
pub proof fn lemma_overwrite_covers(w: WriterView, name: Seq<char>, format: Seq<char>, bytes: Seq<u8>)
    requires
        w.refs_cover_blocks(),
        w.can_register(format),
    ensures
        w.add_or_overwrite_result(name, format, bytes) matches Ok(w3) ==> w3.refs_cover_blocks(),
{
    if w.register_format(format) is Ok {
        lemma_append_covers(w, name, format, bytes);
        lemma_register_refs(w, format);
        let (w2, id) = w.register_format(format)->Ok_0;
        lemma_first_index(w2.data, data_name_is(name));
        if let Some(i) = data_named(w2.data, name) {
            let d = DataEntry { data_id: id, name: w2.data[i].name, bytes };
            let ds = w.data.update(i, d);
            assert forall|k: int| 0 <= k < ds.len() implies id_count(ds, #[trigger] ds[k].data_id) <= refs_of(
                w2.formats,
                ds[k].data_id,
            ) by {
                let y = ds[k].data_id;
                lemma_id_count_update(w.data, i, d, y);
                lemma_cover_any(w, y);
                assert(refs_of(w2.formats, y) == refs_of(w.formats, y) + if y == id {
                    1nat
                } else {
                    0nat
                });
            }
        }
    }
}

/// Removing a block that may be removed keeps the cover.
pub proof fn lemma_remove_covers(w: WriterView, name: Seq<char>)
    requires
        w.refs_cover_blocks(),
        w.removable(name),
    ensures
        w.remove_data_result(name).0.refs_cover_blocks(),
{
    lemma_first_index(w.data, data_name_is(name));
    if let Some(i) = data_named(w.data, name) {
        let x = w.data[i].data_id;
        let ds = w.data.remove(i);
        let j = format_with_id(w.formats, x)->Some_0;
        lemma_first_index(w.formats, format_id_is(x));
        let f = w.formats[j];
        let w2 = w.remove_data_result(name).0;
        assert forall|y: u16| #[trigger] refs_of(w2.formats, y) + (if y == x {
            1nat
        } else {
            0nat
        }) == refs_of(w.formats, y) by {
            if f.refs == 1 {
                lemma_refs_of_remove(w.formats, j, y);
            } else {
                let nf = FormatEntry { data_id: f.data_id, name: f.name, refs: (f.refs - 1) as u32 };
                lemma_refs_of_update(w.formats, j, nf, y);
            }
        }
        assert forall|k: int| 0 <= k < ds.len() implies id_count(ds, #[trigger] ds[k].data_id) <= refs_of(
            w2.formats,
            ds[k].data_id,
        ) by {
            let y = ds[k].data_id;
            lemma_id_count_remove(w.data, i, y);
            lemma_cover_any(w, y);
            assert(refs_of(w2.formats, y) + (if y == x {
                1nat
            } else {
                0nat
            }) == refs_of(w.formats, y));
        }
    }
}

} // verus!
