//! The bookkeeping of a writer: its state as a mathematical value, what
//! each operation does to it, and the invariant that every operation keeps.
use vstd::prelude::*;
use crate::search::{first_index, lemma_first_index, lemma_first_index_remove, lemma_first_index_same};
use crate::write::{SPBFWriterDataAddError, SPBFWriterError};

verus! {

/// What the writer records of a data format: its id, its name and how many
/// data blocks have been registered under it.
pub struct FormatEntry {
    pub data_id: u16,
    pub name: Seq<char>,
    pub refs: u32,
}

/// What the writer records of a data block.
pub struct DataEntry {
    pub data_id: u16,
    pub name: Seq<char>,
    pub bytes: Seq<u8>,
}

/// The state of a writer: the build name and version, the id counter, the
/// ids freed for reuse (the last one is reused first), the formats and the
/// data blocks, both in insertion order.
pub struct WriterView {
    pub build_name: Seq<char>,
    pub build_version: Seq<char>,
    pub last_id: u16,
    pub free_ids: Seq<u16>,
    pub formats: Seq<FormatEntry>,
    pub data: Seq<DataEntry>,
}

/// The index of the first format named `name`.
pub open spec fn format_named(fs: Seq<FormatEntry>, name: Seq<char>) -> Option<int> {
    first_index(fs, format_name_is(name))
}

/// The predicate "a format named `name`".
pub open spec fn format_name_is(name: Seq<char>) -> spec_fn(FormatEntry) -> bool {
    |f: FormatEntry| f.name == name
}

/// The predicate "a format with id `id`".
pub open spec fn format_id_is(id: u16) -> spec_fn(FormatEntry) -> bool {
    |f: FormatEntry| f.data_id == id
}

/// The predicate "a data block named `name`".
pub open spec fn data_name_is(name: Seq<char>) -> spec_fn(DataEntry) -> bool {
    |d: DataEntry| d.name == name
}

/// The index of the first format with id `id`.
pub open spec fn format_with_id(fs: Seq<FormatEntry>, id: u16) -> Option<int> {
    first_index(fs, format_id_is(id))
}

/// The index of the first data block named `name`.
pub open spec fn data_named(ds: Seq<DataEntry>, name: Seq<char>) -> Option<int> {
    first_index(ds, data_name_is(name))
}

/// How many data blocks carry the id `id`.
pub open spec fn id_count(ds: Seq<DataEntry>, id: u16) -> nat
    decreases ds.len(),
{
    if ds.len() == 0 {
        0
    } else {
        id_count(ds.drop_last(), id) + if ds.last().data_id == id {
            1nat
        } else {
            0nat
        }
    }
}

/// Some format has the id `id`.
pub open spec fn has_format_id(fs: Seq<FormatEntry>, id: u16) -> bool {
    exists|j: int| 0 <= j < fs.len() && #[trigger] fs[j].data_id == id
}

/// The id of the first format a fresh writer hands out is one above this.
pub open spec fn initial_last_id() -> u16 {
    0xFF
}

impl WriterView {
    pub open spec fn with_formats(self, formats: Seq<FormatEntry>) -> WriterView {
        WriterView { formats, ..self }
    }

    pub open spec fn with_data(self, data: Seq<DataEntry>) -> WriterView {
        WriterView { data, ..self }
    }

    /// The bookkeeping that every writer keeps, whether it was made empty or
    /// from a read file: the id of each data block belongs to a format, and
    /// the first format with that id counts at least the blocks that carry
    /// it. Removing a block never finds that count exhausted.
    pub open spec fn wf(self) -> bool {
        forall|k: int|
            0 <= k < self.data.len() ==> (format_with_id(self.formats, #[trigger] self.data[k].data_id) matches Some(j)
                && id_count(self.data, self.data[k].data_id) <= self.formats[j].refs)
    }

    /// Removing the block named `name` is safe: there is none, or the first
    /// format with its id exists and still counts a reference.
    pub open spec fn removable(self, name: Seq<char>) -> bool {
        match data_named(self.data, name) {
            None => true,
            Some(i) => format_with_id(self.formats, self.data[i].data_id) matches Some(j) && self.formats[j].refs
                >= 1,
        }
    }

    /// The bookkeeping of a writer whose format ids are all distinct, which
    /// every operation keeps: format ids are distinct, every data block
    /// names an existing format, a format's reference count is at least the
    /// number of blocks that use it, and freed ids are distinct, unused and,
    /// like all format ids, not above the counter.
    pub open spec fn wf_strict(self) -> bool {
        &&& forall|i: int, j: int|
            0 <= i < j < self.formats.len() ==> #[trigger] self.formats[i].data_id
                != #[trigger] self.formats[j].data_id
        &&& forall|k: int|
            0 <= k < self.data.len() ==> has_format_id(self.formats, #[trigger] self.data[k].data_id)
        &&& forall|j: int|
            0 <= j < self.formats.len() ==> id_count(self.data, #[trigger] self.formats[j].data_id)
                <= self.formats[j].refs
        &&& forall|j: int| 0 <= j < self.formats.len() ==> #[trigger] self.formats[j].data_id <= self.last_id
        &&& forall|a: int| 0 <= a < self.free_ids.len() ==> #[trigger] self.free_ids[a] <= self.last_id
        &&& forall|a: int, b: int|
            0 <= a < b < self.free_ids.len() ==> #[trigger] self.free_ids[a] != #[trigger] self.free_ids[b]
        &&& forall|a: int, j: int|
            0 <= a < self.free_ids.len() && 0 <= j < self.formats.len() ==> #[trigger] self.free_ids[a]
                != #[trigger] self.formats[j].data_id
    }

    /// Registering one more use of format `name` cannot overflow its count.
    pub open spec fn can_register(self, name: Seq<char>) -> bool {
        match format_named(self.formats, name) {
            Some(i) => self.formats[i].refs < u32::MAX,
            None => true,
        }
    }

    /// Registering one more use of format `name`: an existing format of that
    /// name counts one more reference; otherwise a new format is appended
    /// with one reference, taking the most recently freed id, or else the id
    /// above the counter, which fails when the counter is exhausted.
    /// Gives the new state and the format's id.
    pub open spec fn register_format(self, name: Seq<char>) -> Result<(WriterView, u16), SPBFWriterError> {
        match format_named(self.formats, name) {
            Some(i) => {
                let f = self.formats[i];
                Ok(
                    (
                        self.with_formats(
                            self.formats.update(
                                i,
                                FormatEntry { data_id: f.data_id, name: f.name, refs: (f.refs + 1) as u32 },
                            ),
                        ),
                        f.data_id,
                    ),
                )
            },
            None => {
                if self.free_ids.len() > 0 {
                    let id = self.free_ids.last();
                    Ok(
                        (
                            WriterView {
                                free_ids: self.free_ids.drop_last(),
                                formats: self.formats.push(FormatEntry { data_id: id, name, refs: 1 }),
                                ..self
                            },
                            id,
                        ),
                    )
                } else if self.last_id == u16::MAX {
                    Err(SPBFWriterError::DataAdd(SPBFWriterDataAddError::FormatCounterOverflow))
                } else {
                    let id = (self.last_id + 1) as u16;
                    Ok(
                        (
                            WriterView {
                                last_id: id,
                                formats: self.formats.push(FormatEntry { data_id: id, name, refs: 1 }),
                                ..self
                            },
                            id,
                        ),
                    )
                }
            },
        }
    }

    /// Adding a block with a fresh name: refused when a block of that name
    /// exists; otherwise the format is registered and the block appended.
    pub open spec fn add_data_result(self, name: Seq<char>, format: Seq<char>, bytes: Seq<u8>) -> Result<
        WriterView,
        SPBFWriterError,
    > {
        if data_named(self.data, name) is Some {
            Err(SPBFWriterError::DataAdd(SPBFWriterDataAddError::DataAlreadyDefined))
        } else {
            self.append_data(name, format, bytes)
        }
    }

    /// Registering the format and appending the block, whatever its name.
    pub open spec fn append_data(self, name: Seq<char>, format: Seq<char>, bytes: Seq<u8>) -> Result<
        WriterView,
        SPBFWriterError,
    > {
        match self.register_format(format) {
            Err(e) => Err(e),
            Ok((w, id)) => Ok(w.with_data(w.data.push(DataEntry { data_id: id, name, bytes }))),
        }
    }

    /// Adding a block or replacing the one of the same name: the format is
    /// registered, then the first block of that name gets the format's id and
    /// the new bytes, or a new block is appended when there is none.
    pub open spec fn add_or_overwrite_result(
        self,
        name: Seq<char>,
        format: Seq<char>,
        bytes: Seq<u8>,
    ) -> Result<WriterView, SPBFWriterError> {
        match self.register_format(format) {
            Err(e) => Err(e),
            Ok((w, id)) => match data_named(w.data, name) {
                Some(i) => Ok(
                    w.with_data(w.data.update(i, DataEntry { data_id: id, name: w.data[i].name, bytes })),
                ),
                None => Ok(w.with_data(w.data.push(DataEntry { data_id: id, name, bytes }))),
            },
        }
    }

    /// Removing the first block named `name`: its format counts one
    /// reference less, and a format left with none is removed and its id
    /// freed. Gives the new state and whether a block was removed.
    pub open spec fn remove_data_result(self, name: Seq<char>) -> (WriterView, bool) {
        match data_named(self.data, name) {
            None => (self, false),
            Some(i) => {
                let d = self.data[i];
                let w = self.with_data(self.data.remove(i));
                match format_with_id(self.formats, d.data_id) {
                    None => (w, true),
                    Some(j) => {
                        let f = self.formats[j];
                        if f.refs == 1 {
                            (
                                WriterView {
                                    free_ids: w.free_ids.push(f.data_id),
                                    formats: w.formats.remove(j),
                                    ..w
                                },
                                true,
                            )
                        } else {
                            (
                                w.with_formats(
                                    w.formats.update(
                                        j,
                                        FormatEntry { data_id: f.data_id, name: f.name, refs: (f.refs - 1) as u32 },
                                    ),
                                ),
                                true,
                            )
                        }
                    },
                }
            },
        }
    }
}

/// Counting after appending a block.
pub proof fn lemma_id_count_push(ds: Seq<DataEntry>, d: DataEntry, id: u16)
    ensures
        id_count(ds.push(d), id) == id_count(ds, id) + if d.data_id == id {
            1nat
        } else {
            0nat
        },
{
    assert(ds.push(d).drop_last() =~= ds);
}

/// Counting after removing a block.
pub proof fn lemma_id_count_remove(ds: Seq<DataEntry>, i: int, id: u16)
    requires
        0 <= i < ds.len(),
    ensures
        id_count(ds.remove(i), id) + (if ds[i].data_id == id {
            1nat
        } else {
            0nat
        }) == id_count(ds, id),
    decreases ds.len(),
{
    if i == ds.len() - 1 {
        assert(ds.remove(i) =~= ds.drop_last());
    } else {
        lemma_id_count_remove(ds.drop_last(), i, id);
        assert(ds.remove(i).drop_last() =~= ds.drop_last().remove(i));
        assert(ds.remove(i).last() == ds.last());
    }
}

/// Counting after replacing a block.
pub proof fn lemma_id_count_update(ds: Seq<DataEntry>, i: int, d: DataEntry, id: u16)
    requires
        0 <= i < ds.len(),
    ensures
        id_count(ds.update(i, d), id) + (if ds[i].data_id == id {
            1nat
        } else {
            0nat
        }) == id_count(ds, id) + (if d.data_id == id {
            1nat
        } else {
            0nat
        }),
    decreases ds.len(),
{
    if i == ds.len() - 1 {
        assert(ds.update(i, d).drop_last() =~= ds.drop_last());
    } else {
        lemma_id_count_update(ds.drop_last(), i, d, id);
        assert(ds.update(i, d).drop_last() =~= ds.drop_last().update(i, d));
    }
}

/// No block carries an id exactly when the count is zero.
pub proof fn lemma_id_count_zero(ds: Seq<DataEntry>, id: u16)
    ensures
        id_count(ds, id) == 0 <==> forall|k: int| 0 <= k < ds.len() ==> #[trigger] ds[k].data_id != id,
    decreases ds.len(),
{
    if ds.len() > 0 {
        lemma_id_count_zero(ds.drop_last(), id);
        if id_count(ds, id) == 0 {
            assert forall|k: int| 0 <= k < ds.len() implies #[trigger] ds[k].data_id != id by {
                if k < ds.len() - 1 {
                    assert(ds.drop_last()[k] == ds[k]);
                }
            }
        } else {
            if ds.last().data_id != id {
                let k = choose|k: int| 0 <= k < ds.drop_last().len() && #[trigger] ds.drop_last()[k].data_id == id;
                assert(ds[k] == ds.drop_last()[k]);
            }
        }
    }
}

/// The format of id `id` can take one more block: it exists and its count
/// of references exceeds the blocks that use it.
pub open spec fn has_room_for(w: WriterView, id: u16) -> bool {
    exists|j: int|
        0 <= j < w.formats.len() && #[trigger] w.formats[j].data_id == id && id_count(w.data, id)
            < w.formats[j].refs
}

/// Registering a format keeps the bookkeeping and leaves room for one more
/// block under the returned id.
pub proof fn lemma_register_wf(w: WriterView, name: Seq<char>)
    requires
        w.wf_strict(),
        w.can_register(name),
        w.register_format(name) is Ok,
    ensures
        ({
            let (w2, id) = w.register_format(name)->Ok_0;
            &&& w2.wf_strict()
            &&& w2.data == w.data
            &&& w2.build_name == w.build_name
            &&& w2.build_version == w.build_version
            &&& has_room_for(w2, id)
        }),
{
    let (w2, id) = w.register_format(name)->Ok_0;
    lemma_first_index(w.formats, format_name_is(name));
    match format_named(w.formats, name) {
        Some(i) => {
            assert(w2.formats[i].data_id == id);
            assert forall|j: int| 0 <= j < w2.formats.len() implies id_count(
                w2.data,
                #[trigger] w2.formats[j].data_id,
            ) <= w2.formats[j].refs by {
                assert(w.formats[j].data_id == w2.formats[j].data_id);
            }
            assert forall|k: int| 0 <= k < w2.data.len() implies has_format_id(w2.formats, #[trigger] w2.data[k].data_id) by {
                let j = choose|j: int|
                    0 <= j < w.formats.len() && #[trigger] w.formats[j].data_id == w.data[k].data_id;
                assert(w2.formats[j].data_id == w.formats[j].data_id);
            }
            assert forall|a: int, j: int|
                0 <= a < w2.free_ids.len() && 0 <= j < w2.formats.len() implies #[trigger] w2.free_ids[a]
                != #[trigger] w2.formats[j].data_id by {
                assert(w2.formats[j].data_id == w.formats[j].data_id);
            }
            assert forall|a: int, b: int|
                0 <= a < b < w2.formats.len() implies #[trigger] w2.formats[a].data_id
                != #[trigger] w2.formats[b].data_id by {
                assert(w2.formats[a].data_id == w.formats[a].data_id);
                assert(w2.formats[b].data_id == w.formats[b].data_id);
            }
            assert forall|j: int| 0 <= j < w2.formats.len() implies #[trigger] w2.formats[j].data_id
                <= w2.last_id by {
                assert(w2.formats[j].data_id == w.formats[j].data_id);
            }
        },
        None => {
            let n = w.formats.len() as int;
            lemma_id_count_zero(w.data, id);
            if w.free_ids.len() > 0 {
                let a0 = w.free_ids.len() - 1;
                assert(w.free_ids[a0] == id);
                assert forall|k: int| 0 <= k < w.data.len() implies #[trigger] w.data[k].data_id != id by {
                    let j = choose|j: int|
                        0 <= j < w.formats.len() && #[trigger] w.formats[j].data_id == w.data[k].data_id;
                    assert(has_format_id(w.formats, w.data[k].data_id));
                    assert(w.free_ids[a0] != w.formats[j].data_id);
                }
                assert(w2.formats[n].data_id == id);
                assert forall|j: int| 0 <= j < w2.formats.len() implies id_count(
                    w2.data,
                    #[trigger] w2.formats[j].data_id,
                ) <= w2.formats[j].refs by {
                    if j < n {
                        assert(w2.formats[j] == w.formats[j]);
                    }
                }
                assert forall|k: int| 0 <= k < w2.data.len() implies has_format_id(w2.formats, #[trigger] w2.data[k].data_id) by {
                    let j = choose|j: int|
                        0 <= j < w.formats.len() && #[trigger] w.formats[j].data_id == w.data[k].data_id;
                    assert(has_format_id(w.formats, w.data[k].data_id));
                    assert(w2.formats[j] == w.formats[j]);
                }
                assert forall|a: int, j: int|
                    0 <= a < w2.free_ids.len() && 0 <= j < w2.formats.len() implies #[trigger] w2.free_ids[a]
                    != #[trigger] w2.formats[j].data_id by {
                    assert(w2.free_ids[a] == w.free_ids[a]);
                    if j < n {
                        assert(w2.formats[j] == w.formats[j]);
                    } else {
                        assert(w.free_ids[a] != w.free_ids[a0]);
                    }
                }
                assert forall|a: int, b: int|
                    0 <= a < b < w2.formats.len() implies #[trigger] w2.formats[a].data_id
                    != #[trigger] w2.formats[b].data_id by {
                    assert(w2.formats[a] == w.formats[a]);
                    if b < n {
                        assert(w2.formats[b] == w.formats[b]);
                    } else {
                        assert(w.free_ids[a0] != w.formats[a].data_id);
                    }
                }
                assert forall|j: int| 0 <= j < w2.formats.len() implies #[trigger] w2.formats[j].data_id
                    <= w2.last_id by {
                    if j < n {
                        assert(w2.formats[j] == w.formats[j]);
                    }
                }
                assert forall|a: int| 0 <= a < w2.free_ids.len() implies #[trigger] w2.free_ids[a] <= w2.last_id by {
                    assert(w2.free_ids[a] == w.free_ids[a]);
                }
                assert forall|a: int, b: int|
                    0 <= a < b < w2.free_ids.len() implies #[trigger] w2.free_ids[a]
                    != #[trigger] w2.free_ids[b] by {
                    assert(w2.free_ids[a] == w.free_ids[a]);
                    assert(w2.free_ids[b] == w.free_ids[b]);
                }
                assert(has_room_for(w2, id)) by {
                    assert(w2.formats[n].data_id == id);
                }
            } else {
                assert forall|k: int| 0 <= k < w.data.len() implies #[trigger] w.data[k].data_id != id by {
                    let j = choose|j: int|
                        0 <= j < w.formats.len() && #[trigger] w.formats[j].data_id == w.data[k].data_id;
                    assert(has_format_id(w.formats, w.data[k].data_id));
                    assert(w.formats[j].data_id <= w.last_id);
                }
                assert(w2.formats[n].data_id == id);
                assert forall|j: int| 0 <= j < w2.formats.len() implies id_count(
                    w2.data,
                    #[trigger] w2.formats[j].data_id,
                ) <= w2.formats[j].refs by {
                    if j < n {
                        assert(w2.formats[j] == w.formats[j]);
                    }
                }
                assert forall|k: int| 0 <= k < w2.data.len() implies has_format_id(w2.formats, #[trigger] w2.data[k].data_id) by {
                    let j = choose|j: int|
                        0 <= j < w.formats.len() && #[trigger] w.formats[j].data_id == w.data[k].data_id;
                    assert(has_format_id(w.formats, w.data[k].data_id));
                    assert(w2.formats[j] == w.formats[j]);
                }
                assert forall|a: int, b: int|
                    0 <= a < b < w2.formats.len() implies #[trigger] w2.formats[a].data_id
                    != #[trigger] w2.formats[b].data_id by {
                    assert(w2.formats[a] == w.formats[a]);
                    assert(w.formats[a].data_id <= w.last_id);
                    if b < n {
                        assert(w2.formats[b] == w.formats[b]);
                    }
                }
                assert forall|j: int| 0 <= j < w2.formats.len() implies #[trigger] w2.formats[j].data_id
                    <= w2.last_id by {
                    if j < n {
                        assert(w2.formats[j] == w.formats[j]);
                    }
                }
                assert(has_room_for(w2, id)) by {
                    assert(w2.formats[n].data_id == id);
                }
            }
        },
    }
}

/// Appending a block under a format that has room keeps the bookkeeping.
pub proof fn lemma_push_data_wf(w: WriterView, d: DataEntry)
    requires
        w.wf_strict(),
        has_room_for(w, d.data_id),
    ensures
        w.with_data(w.data.push(d)).wf_strict(),
{
    let w2 = w.with_data(w.data.push(d));
    let id = d.data_id;
    let j0 = choose|j: int|
        0 <= j < w.formats.len() && #[trigger] w.formats[j].data_id == id && id_count(w.data, id)
            < w.formats[j].refs;
    assert forall|j: int| 0 <= j < w2.formats.len() implies id_count(
        w2.data,
        #[trigger] w2.formats[j].data_id,
    ) <= w2.formats[j].refs by {
        lemma_id_count_push(w.data, d, w.formats[j].data_id);
        if j != j0 {
            if j < j0 {
                assert(w.formats[j].data_id != w.formats[j0].data_id);
            } else {
                assert(w.formats[j0].data_id != w.formats[j].data_id);
            }
        }
    }
    assert forall|k: int| 0 <= k < w2.data.len() implies has_format_id(w2.formats, #[trigger] w2.data[k].data_id) by {
        if k < w.data.len() {
            assert(w2.data[k] == w.data[k]);
            let j = choose|j: int|
                0 <= j < w.formats.len() && #[trigger] w.formats[j].data_id == w.data[k].data_id;
            assert(w2.formats[j].data_id == w2.data[k].data_id);
        } else {
            assert(w2.formats[j0].data_id == w2.data[k].data_id);
        }
    }
}

/// Replacing a block by one under a format that has room keeps the
/// bookkeeping.
pub proof fn lemma_update_data_wf(w: WriterView, i: int, d: DataEntry)
    requires
        w.wf_strict(),
        0 <= i < w.data.len(),
        has_room_for(w, d.data_id),
    ensures
        w.with_data(w.data.update(i, d)).wf_strict(),
{
    let w2 = w.with_data(w.data.update(i, d));
    let id = d.data_id;
    let j0 = choose|j: int|
        0 <= j < w.formats.len() && #[trigger] w.formats[j].data_id == id && id_count(w.data, id)
            < w.formats[j].refs;
    assert forall|j: int| 0 <= j < w2.formats.len() implies id_count(
        w2.data,
        #[trigger] w2.formats[j].data_id,
    ) <= w2.formats[j].refs by {
        lemma_id_count_update(w.data, i, d, w.formats[j].data_id);
        if j != j0 {
            if j < j0 {
                assert(w.formats[j].data_id != w.formats[j0].data_id);
            } else {
                assert(w.formats[j0].data_id != w.formats[j].data_id);
            }
        }
    }
    assert forall|k: int| 0 <= k < w2.data.len() implies has_format_id(w2.formats, #[trigger] w2.data[k].data_id) by {
        if k != i {
            assert(w2.data[k] == w.data[k]);
            let j = choose|j: int|
                0 <= j < w.formats.len() && #[trigger] w.formats[j].data_id == w.data[k].data_id;
            assert(w2.formats[j].data_id == w2.data[k].data_id);
        } else {
            assert(w2.formats[j0].data_id == w2.data[k].data_id);
        }
    }
}

/// Removing a block keeps the bookkeeping.
pub proof fn lemma_remove_wf(w: WriterView, name: Seq<char>)
    requires
        w.wf_strict(),
    ensures
        w.remove_data_result(name).0.wf_strict(),
        data_named(w.data, name) is Some ==> (format_with_id(
            w.formats,
            w.data[data_named(w.data, name)->Some_0].data_id,
        ) matches Some(j) && w.formats[j].refs >= 1),
{
    lemma_first_index(w.data, data_name_is(name));
    if let Some(i) = data_named(w.data, name) {
        let d = w.data[i];
        let x = d.data_id;
        let ds = w.data.remove(i);
        lemma_id_count_remove(w.data, i, x);
        let jw = choose|j: int| 0 <= j < w.formats.len() && #[trigger] w.formats[j].data_id == w.data[i].data_id;
        lemma_first_index(w.formats, format_id_is(x));
        let j = format_with_id(w.formats, x)->Some_0;
        assert(j == jw) by {
            if j < jw {
                assert(w.formats[j].data_id != w.formats[jw].data_id);
            } else if jw < j {
                assert(!format_id_is(x)(w.formats[jw]));
            }
        }
        let f = w.formats[j];
        assert(id_count(w.data, x) >= 1);
        let w2 = w.remove_data_result(name).0;
        assert forall|y: u16| y != x implies id_count(ds, y) == id_count(w.data, y) by {
            lemma_id_count_remove(w.data, i, y);
        }
        assert forall|k: int| 0 <= k < ds.len() && ds[k].data_id != x implies exists|jj: int|
            0 <= jj < w.formats.len() && jj != j && #[trigger] w.formats[jj].data_id == ds[k].data_id by {
            if k < i {
                assert(ds[k] == w.data[k]);
            } else {
                assert(ds[k] == w.data[k + 1]);
            }
            let jj = choose|jj: int|
                0 <= jj < w.formats.len() && #[trigger] w.formats[jj].data_id == ds[k].data_id;
        }
        if f.refs == 1 {
            let fs = w.formats.remove(j);
            lemma_id_count_zero(ds, x);
            assert forall|k: int| 0 <= k < w2.data.len() implies has_format_id(w2.formats, #[trigger] w2.data[k].data_id) by {
                assert(ds[k].data_id != x);
                let jj = choose|jj: int|
                    0 <= jj < w.formats.len() && jj != j && #[trigger] w.formats[jj].data_id == ds[k].data_id;
                if jj < j {
                    assert(fs[jj] == w.formats[jj]);
                } else {
                    assert(fs[jj - 1] == w.formats[jj]);
                }
            }
            assert forall|a: int, b: int|
                0 <= a < b < fs.len() implies #[trigger] fs[a].data_id != #[trigger] fs[b].data_id by {
                let a1 = if a < j { a } else { a + 1 };
                let b1 = if b < j { b } else { b + 1 };
                assert(fs[a] == w.formats[a1]);
                assert(fs[b] == w.formats[b1]);
            }
            assert forall|jj: int| 0 <= jj < fs.len() implies id_count(ds, #[trigger] fs[jj].data_id)
                <= fs[jj].refs by {
                let j1 = if jj < j { jj } else { jj + 1 };
                assert(fs[jj] == w.formats[j1]);
                if j1 < j {
                    assert(w.formats[j1].data_id != w.formats[j].data_id);
                } else {
                    assert(w.formats[j].data_id != w.formats[j1].data_id);
                }
            }
            assert forall|jj: int| 0 <= jj < fs.len() implies #[trigger] fs[jj].data_id <= w2.last_id by {
                let j1 = if jj < j { jj } else { jj + 1 };
                assert(fs[jj] == w.formats[j1]);
            }
            let n = w.free_ids.len() as int;
            assert forall|a: int| 0 <= a < w2.free_ids.len() implies #[trigger] w2.free_ids[a] <= w2.last_id by {
                if a < n {
                    assert(w2.free_ids[a] == w.free_ids[a]);
                }
            }
            assert forall|a: int, b: int|
                0 <= a < b < w2.free_ids.len() implies #[trigger] w2.free_ids[a] != #[trigger] w2.free_ids[b] by {
                assert(w2.free_ids[a] == w.free_ids[a]);
                if b < n {
                    assert(w2.free_ids[b] == w.free_ids[b]);
                } else {
                    assert(w.free_ids[a] != w.formats[j].data_id);
                }
            }
            assert forall|a: int, jj: int|
                0 <= a < w2.free_ids.len() && 0 <= jj < fs.len() implies #[trigger] w2.free_ids[a]
                != #[trigger] fs[jj].data_id by {
                let j1 = if jj < j { jj } else { jj + 1 };
                assert(fs[jj] == w.formats[j1]);
                if a < n {
                    assert(w2.free_ids[a] == w.free_ids[a]);
                } else {
                    if j1 < j {
                        assert(w.formats[j1].data_id != w.formats[j].data_id);
                    } else {
                        assert(w.formats[j].data_id != w.formats[j1].data_id);
                    }
                }
            }
        } else {
            let fs = w2.formats;
            assert forall|k: int| 0 <= k < w2.data.len() implies has_format_id(w2.formats, #[trigger] w2.data[k].data_id) by {
                if k < i {
                    assert(ds[k] == w.data[k]);
                } else {
                    assert(ds[k] == w.data[k + 1]);
                }
                let jj = choose|jj: int|
                    0 <= jj < w.formats.len() && #[trigger] w.formats[jj].data_id == ds[k].data_id;
                assert(fs[jj].data_id == w.formats[jj].data_id);
                assert(w2.data[k] == ds[k]);
                assert(w2.formats[jj].data_id == w2.data[k].data_id);
            }
            assert forall|jj: int| 0 <= jj < fs.len() implies id_count(ds, #[trigger] fs[jj].data_id)
                <= fs[jj].refs by {
                assert(fs[jj].data_id == w.formats[jj].data_id);
                if jj != j {
                    if jj < j {
                        assert(w.formats[jj].data_id != w.formats[j].data_id);
                    } else {
                        assert(w.formats[j].data_id != w.formats[jj].data_id);
                    }
                }
            }
            assert forall|a: int, b: int|
                0 <= a < b < fs.len() implies #[trigger] fs[a].data_id != #[trigger] fs[b].data_id by {
                assert(fs[a].data_id == w.formats[a].data_id);
                assert(fs[b].data_id == w.formats[b].data_id);
            }
            assert forall|jj: int| 0 <= jj < fs.len() implies #[trigger] fs[jj].data_id <= w2.last_id by {
                assert(fs[jj].data_id == w.formats[jj].data_id);
            }
            assert forall|a: int, jj: int|
                0 <= a < w2.free_ids.len() && 0 <= jj < fs.len() implies #[trigger] w2.free_ids[a]
                != #[trigger] fs[jj].data_id by {
                assert(fs[jj].data_id == w.formats[jj].data_id);
            }
        }
    }
}

/// The strict bookkeeping implies the general one.
pub proof fn lemma_strict_wf(w: WriterView)
    requires
        w.wf_strict(),
    ensures
        w.wf(),
{
    assert forall|k: int| 0 <= k < w.data.len() implies (format_with_id(w.formats, #[trigger] w.data[k].data_id) matches Some(j)
        && id_count(w.data, w.data[k].data_id) <= w.formats[j].refs) by {
        let x = w.data[k].data_id;
        let jw = choose|j: int| 0 <= j < w.formats.len() && #[trigger] w.formats[j].data_id == x;
        lemma_first_index(w.formats, format_id_is(x));
        assert(format_id_is(x)(w.formats[jw]));
    }
}

/// Under the bookkeeping every block can be removed.
pub proof fn lemma_wf_removable(w: WriterView, name: Seq<char>)
    requires
        w.wf(),
    ensures
        w.removable(name),
{
    lemma_first_index(w.data, data_name_is(name));
    if let Some(i) = data_named(w.data, name) {
        let x = w.data[i].data_id;
        lemma_id_count_zero(w.data, x);
        assert(w.data[i].data_id == x);
    }
}

/// Removing a block keeps the general bookkeeping.
pub proof fn lemma_remove_keeps_wf(w: WriterView, name: Seq<char>)
    requires
        w.wf(),
    ensures
        w.remove_data_result(name).0.wf(),
{
    lemma_first_index(w.data, data_name_is(name));
    if let Some(i) = data_named(w.data, name) {
        let x = w.data[i].data_id;
        let ds = w.data.remove(i);
        let j = format_with_id(w.formats, x)->Some_0;
        lemma_first_index(w.formats, format_id_is(x));
        lemma_id_count_zero(w.data, x);
        assert(w.data[i].data_id == x);
        lemma_id_count_remove(w.data, i, x);
        let f = w.formats[j];
        let w2 = w.remove_data_result(name).0;
        assert(w2.data == ds);
        assert forall|k: int| 0 <= k < ds.len() implies (format_with_id(w2.formats, #[trigger] ds[k].data_id) matches Some(j2)
            && id_count(ds, ds[k].data_id) <= w2.formats[j2].refs) by {
            let k0 = if k < i { k } else { k + 1 };
            assert(ds[k] == w.data[k0]);
            let y = ds[k].data_id;
            lemma_id_count_remove(w.data, i, y);
            let jy = format_with_id(w.formats, y)->Some_0;
            assert(w.data[k0].data_id == y);
            lemma_first_index(w.formats, format_id_is(y));
            if f.refs == 1 {
                lemma_id_count_zero(ds, x);
                assert(y != x);
                lemma_first_index_remove(w.formats, format_id_is(y), j);
                let jy2 = if jy < j { jy } else { jy - 1 };
                assert(w2.formats[jy2] == w.formats[jy]);
            } else {
                lemma_first_index_same(w2.formats, w.formats, format_id_is(y), format_id_is(y));
                if y != x {
                    assert(jy != j);
                }
            }
        }
    }
}

} // verus!
