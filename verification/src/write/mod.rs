//! Building an SPBF file: a writer that collects named data blocks, each
//! tagged with a data format, and lays them out in one of the file types.
use vstd::prelude::*;
pub mod aligned;
pub mod unaligned;
pub mod raw_sabe;
pub mod raw_sale;
pub mod raw_sube;
pub mod raw_sule;
pub mod laws;
pub mod limits;
pub mod cover;
pub mod layout_laws;
pub mod state;
pub mod from_read;
pub mod emit;

use crate::read::{DataRecord, FormatRecord, ReadView, SPBFReadResult, SPBFReaderError, positions_valid, format_position};
use crate::write::aligned::aligned_file;
use crate::write::unaligned::unaligned_file;
use crate::write::raw_sabe::RawWriterSmallAlignedBigEndian;
use crate::write::raw_sale::RawWriterSmallAlignedLittleEndian;
use crate::write::raw_sube::RawWriterSmallUnalignedBigEndian;
use crate::write::raw_sule::RawWriterSmallUnalignedLittleEndian;
use crate::{type_byte, SPBFType, SPBFVersion};
use crate::search::{first_index, lemma_first_index, lemma_first_index_at, lemma_first_index_none};
pub use crate::write::state::{
    DataEntry, FormatEntry, WriterView, data_name_is, data_named, format_id_is, format_name_is, format_named, format_with_id, has_format_id, has_room_for, id_count, initial_last_id, lemma_id_count_push, lemma_id_count_remove, lemma_id_count_update, lemma_id_count_zero, lemma_push_data_wf, lemma_register_wf, lemma_remove_keeps_wf, lemma_remove_wf, lemma_strict_wf, lemma_update_data_wf, lemma_wf_removable,
};
pub use crate::write::from_read::{
    distinct_format_ids, entry_of_record, formats_from_read, largest_id, lemma_largest_id, lemma_position_count_is_id_count, lemma_position_count_le, lemma_writer_from_read_keeps_wf, lemma_writer_from_read_wf, position_count, writer_from_read,
};
pub use crate::write::emit::{
    lemma_prefix_step, prefix_ok, push_bytes, push_fixed_header, push_padding,
};

verus! {

/// Why the writer refused a request.
#[derive(Debug, Clone, Copy, PartialEq, Eq, Structural)]
pub enum SPBFWriterError {
    DataAdd(SPBFWriterDataAddError),
    Write(SPBFWriterWriteError),
}

/// Why a data block could not be added.
#[derive(Debug, Clone, Copy, PartialEq, Eq, Structural)]
pub enum SPBFWriterDataAddError {
    DataAlreadyDefined,
    FormatCounterOverflow,
}

/// Why the file could not be laid out.
#[derive(Debug, Clone, Copy, PartialEq, Eq, Structural)]
pub enum SPBFWriterWriteError {
    UnsupportedVersion,
    InvalidNameLength,
    InvalidNameString,
    InvalidBuildVersionLength,
    InvalidVersionString,
    InvalidDataFormatNameLength,
    InvalidDataFormatNameString,
    InvalidDataNameLength,
    InvalidDataNameString,
    InvalidDataLength,
    InvalidOffset,
}

/// The file that holds the writer's contents in the layout of type `t`.
pub open spec fn file_for(w: WriterView, t: SPBFType) -> Result<Seq<u8>, SPBFWriterError> {
    match t {
        SPBFType::SmallUnalignedLittleEndian => unaligned_file(w, type_byte(t), false),
        SPBFType::SmallUnalignedBigEndian => unaligned_file(w, type_byte(t), true),
        SPBFType::SmallAlignedLittleEndian => aligned_file(w, type_byte(t), false),
        SPBFType::SmallAlignedBigEndian => aligned_file(w, type_byte(t), true),
    }
}

/// What writing gives: refused unless the version is supported, else the
/// file of the requested type (which always names the supported version).
pub open spec fn write_file(w: WriterView, t: SPBFType, v: SPBFVersion) -> Result<Seq<u8>, SPBFWriterError> {
    if !v.spec_is_supported() {
        Err(SPBFWriterError::Write(SPBFWriterWriteError::UnsupportedVersion))
    } else {
        file_for(w, t)
    }
}

/// `r` holds the bytes of `file`, or the error with which it was refused.
pub open spec fn writes_as(r: Result<Vec<u8>, SPBFWriterError>, file: Result<Seq<u8>, SPBFWriterError>) -> bool {
    match file {
        Ok(b) => r matches Ok(v) && v@ == b,
        Err(e) => r matches Err(e2) && e2 == e,
    }
}

/// A data format registered with a writer.
#[derive(Debug, Clone)]
pub struct SPBFDataFormatForWrite {
    data_id: u16,
    name: String,
    refs: u32,
}

impl View for SPBFDataFormatForWrite {
    type V = FormatEntry;

    closed spec fn view(&self) -> FormatEntry {
        FormatEntry { data_id: self.data_id, name: self.name@, refs: self.refs }
    }
}

impl SPBFDataFormatForWrite {
    pub fn new(data_id: u16, name: String, refs: u32) -> (r: Self)
        ensures
            r@ == (FormatEntry { data_id, name: name@, refs }),
    {
        SPBFDataFormatForWrite { data_id, name, refs }
    }

    pub fn data_id(&self) -> (r: u16)
        ensures
            r == self@.data_id,
    {
        self.data_id
    }

    pub fn name(&self) -> (r: &String)
        ensures
            r@ == self@.name,
    {
        &self.name
    }

    pub fn refs(&self) -> (r: u32)
        ensures
            r == self@.refs,
    {
        self.refs
    }
}

/// A data block held by a writer.
#[derive(Debug)]
pub struct SPBFDataForWrite {
    data_id: u16,
    name: String,
    data: Box<[u8]>,
}

impl View for SPBFDataForWrite {
    type V = DataEntry;

    closed spec fn view(&self) -> DataEntry {
        DataEntry { data_id: self.data_id, name: self.name@, bytes: self.data@ }
    }
}

impl Clone for SPBFDataForWrite {
    /// A copy with the same id, name and bytes.
    fn clone(&self) -> (r: Self)
        ensures
            r@ == self@,
    {
        let bytes = vstd::slice::slice_to_vec(&self.data);
        SPBFDataForWrite { data_id: self.data_id, name: self.name.clone(), data: boxed_bytes(bytes) }
    }
}

impl SPBFDataForWrite {
    pub fn new(data_id: u16, name: String, data: Box<[u8]>) -> (r: Self)
        ensures
            r@ == (DataEntry { data_id, name: name@, bytes: data@ }),
    {
        SPBFDataForWrite { data_id, name, data }
    }

    pub fn data_id(&self) -> (r: u16)
        ensures
            r == self@.data_id,
    {
        self.data_id
    }

    pub fn name(&self) -> (r: &String)
        ensures
            r@ == self@.name,
    {
        &self.name
    }

    pub fn data(&self) -> (r: &[u8])
        ensures
            r@ == self@.bytes,
    {
        &self.data
    }
}

/// Collects data blocks, each under a named data format, for writing out
/// as an SPBF file.
#[derive(Debug)]
pub struct SPBFWriter {
    pub build_name: String,
    pub build_version: String,
    pub contents: SPBFWriterContents,
}

/// What a writer holds besides its build name and version: the id counter,
/// the ids freed for reuse, the formats and the data blocks. Only the
/// writer's methods change it.
#[derive(Debug)]
pub struct SPBFWriterContents {
    data_format_id_last: u16,
    data_format_id_pool: Vec<u16>,
    data_formats: Vec<SPBFDataFormatForWrite>,
    data: Vec<SPBFDataForWrite>,
}

impl SPBFWriterContents {
    /// The counter below which every format id lies.
    pub closed spec fn last_id(&self) -> u16 {
        self.data_format_id_last
    }

    /// The ids freed for reuse, the last to be reused first.
    pub closed spec fn free_ids(&self) -> Seq<u16> {
        self.data_format_id_pool@
    }

    /// The formats, in the order they were registered.
    pub closed spec fn formats(&self) -> Seq<FormatEntry> {
        formats_view(self.data_formats@)
    }

    /// The data blocks, in the order they were added.
    pub closed spec fn data(&self) -> Seq<DataEntry> {
        data_view(self.data@)
    }
}

/// The views of a list of formats.
pub open spec fn formats_view(v: Seq<SPBFDataFormatForWrite>) -> Seq<FormatEntry> {
    v.map_values(|f: SPBFDataFormatForWrite| f@)
}

/// The views of a list of data blocks.
pub open spec fn data_view(v: Seq<SPBFDataForWrite>) -> Seq<DataEntry> {
    v.map_values(|d: SPBFDataForWrite| d@)
}

impl View for SPBFWriter {
    type V = WriterView;

    open spec fn view(&self) -> WriterView {
        WriterView {
            build_name: self.build_name@,
            build_version: self.build_version@,
            last_id: self.contents.last_id(),
            free_ids: self.contents.free_ids(),
            formats: self.contents.formats(),
            data: self.contents.data(),
        }
    }
}

impl SPBFWriter {
    /// Whether `remove_data(name)` may be called: there is no block named
    /// `name`, or the first format with that block's id still counts a
    /// reference. Every writer made by `new` or `try_from` and changed only
    /// by removals passes for every name.
    pub fn can_remove(&self, name: &String) -> (r: bool)
        ensures
            r == self@.removable(name@),
    {
        match self.find_data_named(name) {
            None => true,
            Some(i) => match self.find_format_with_id(self.contents.data[i].data_id) {
                None => false,
                Some(j) => self.contents.data_formats[j].refs >= 1,
            },
        }
    }

    /// A writer with the given build name and version and no data.
    pub fn new(build_name: String, build_version: String) -> (r: Self)
        ensures
            r@ == (WriterView {
                build_name: build_name@,
                build_version: build_version@,
                last_id: initial_last_id(),
                free_ids: seq![],
                formats: seq![],
                data: seq![],
            }),
            r@.wf(),
            r@.wf_strict(),
            r@.refs_cover_blocks(),
            r.build_name@ == build_name@,
            r.build_version@ == build_version@,
    {
        let r = SPBFWriter {
            build_name,
            build_version,
            contents: SPBFWriterContents {
                data_format_id_last: 0xFF,
                data_format_id_pool: Vec::new(),
                data_formats: Vec::new(),
                data: Vec::new(),
            },
        };
        assert(formats_view(r.contents.data_formats@) =~= seq![]);
        assert(data_view(r.contents.data@) =~= seq![]);
        r
    }

    /// Registers one more use of format `name` and gives its id.
    fn find_or_add_format(&mut self, name: &String) -> (r: Result<u16, SPBFWriterError>)
        requires
            old(self)@.can_register(name@),
        ensures
            match old(self)@.register_format(name@) {
                Ok((w, id)) => r == Ok::<u16, SPBFWriterError>(id) && final(self)@ == w,
                Err(e) => r == Err::<u16, SPBFWriterError>(e) && final(self)@ == old(self)@,
            },
    {
        if let Some(i) = self.find_format_named(name) {
            let nf = {
                let f = &self.contents.data_formats[i];
                SPBFDataFormatForWrite { data_id: f.data_id, name: f.name.clone(), refs: f.refs + 1 }
            };
            let id = nf.data_id;
            let ghost nv = nf@;
            self.contents.data_formats.set(i, nf);
            assert(formats_view(self.contents.data_formats@) =~= formats_view(old(self).contents.data_formats@).update(
                i as int,
                nv,
            ));
            return Ok(id);
        }
        if let Some(id) = self.contents.data_format_id_pool.pop() {
            let nf = SPBFDataFormatForWrite { data_id: id, name: name.clone(), refs: 1 };
            let ghost nv = nf@;
            self.contents.data_formats.push(nf);
            assert(formats_view(self.contents.data_formats@) =~= formats_view(old(self).contents.data_formats@).push(nv));
            assert(self.contents.data_format_id_pool@ =~= old(self).contents.data_format_id_pool@.drop_last());
            return Ok(id);
        }
        if self.contents.data_format_id_last == u16::MAX {
            return Err(SPBFWriterError::DataAdd(SPBFWriterDataAddError::FormatCounterOverflow));
        }
        self.contents.data_format_id_last = self.contents.data_format_id_last + 1;
        let id = self.contents.data_format_id_last;
        let nf = SPBFDataFormatForWrite { data_id: id, name: name.clone(), refs: 1 };
        let ghost nv = nf@;
        self.contents.data_formats.push(nf);
        assert(formats_view(self.contents.data_formats@) =~= formats_view(old(self).contents.data_formats@).push(nv));
        Ok(id)
    }

    /// Registers one more use of format `name` when a free id or the counter
    /// is known to be available, and gives its id.
    fn find_or_add_format_unchecked(&mut self, name: &String) -> (r: u16)
        requires
            old(self)@.can_register(name@),
            old(self)@.register_format(name@) is Ok,
        ensures
            old(self)@.register_format(name@) == Ok::<(WriterView, u16), SPBFWriterError>((final(self)@, r)),
    {
        if let Some(i) = self.find_format_named(name) {
            let nf = {
                let f = &self.contents.data_formats[i];
                SPBFDataFormatForWrite { data_id: f.data_id, name: f.name.clone(), refs: f.refs + 1 }
            };
            let id = nf.data_id;
            let ghost nv = nf@;
            self.contents.data_formats.set(i, nf);
            assert(formats_view(self.contents.data_formats@) =~= formats_view(old(self).contents.data_formats@).update(
                i as int,
                nv,
            ));
            return id;
        }
        if let Some(id) = self.contents.data_format_id_pool.pop() {
            let nf = SPBFDataFormatForWrite { data_id: id, name: name.clone(), refs: 1 };
            let ghost nv = nf@;
            self.contents.data_formats.push(nf);
            assert(formats_view(self.contents.data_formats@) =~= formats_view(old(self).contents.data_formats@).push(nv));
            assert(self.contents.data_format_id_pool@ =~= old(self).contents.data_format_id_pool@.drop_last());
            return id;
        }
        self.contents.data_format_id_last = self.contents.data_format_id_last + 1;
        let id = self.contents.data_format_id_last;
        let nf = SPBFDataFormatForWrite { data_id: id, name: name.clone(), refs: 1 };
        let ghost nv = nf@;
        self.contents.data_formats.push(nf);
        assert(formats_view(self.contents.data_formats@) =~= formats_view(old(self).contents.data_formats@).push(nv));
        id
    }

    /// The formats in the order they were registered.
    pub fn data_formats(&self) -> (r: &Vec<SPBFDataFormatForWrite>)
        ensures
            formats_view(r@) == self@.formats,
    {
        &self.contents.data_formats
    }

    /// The data blocks in the order they were added.
    pub fn data(&self) -> (r: &Vec<SPBFDataForWrite>)
        ensures
            data_view(r@) == self@.data,
    {
        &self.contents.data
    }

    /// Adds a data block under a name not used yet, registering its format.
    /// A name already in use is refused with `DataAlreadyDefined`; running
    /// out of format ids with `FormatCounterOverflow`.
    pub fn add_data(&mut self, name: String, format: &String, bytes: Box<[u8]>) -> (r: Result<
        (),
        SPBFWriterError,
    >)
        requires
            old(self)@.can_register(format@),
        ensures
            old(self)@.wf_strict() ==> final(self)@.wf_strict() && final(self)@.wf(),
            old(self)@.refs_cover_blocks() ==> final(self)@.refs_cover_blocks(),
            match old(self)@.add_data_result(name@, format@, bytes@) {
                Ok(w) => r is Ok && final(self)@ == w,
                Err(e) => r == Err::<(), SPBFWriterError>(e) && final(self)@ == old(self)@,
            },
    {
        proof {
            if old(self)@.refs_cover_blocks() {
                crate::write::cover::lemma_append_covers(old(self)@, name@, format@, bytes@);
            }
        }
        proof {
            if old(self)@.wf_strict() {
                lemma_strict_wf(old(self)@);
            }
        }
        if let Some(_) = self.find_data_named(&name) {
            return Err(SPBFWriterError::DataAdd(SPBFWriterDataAddError::DataAlreadyDefined));
        }
        proof {
            if old(self)@.wf_strict() {
                lemma_strict_wf(old(self)@);
                if old(self)@.register_format(format@) is Ok {
                    lemma_register_wf(old(self)@, format@);
                }
            }
        }
        let data_id = self.find_or_add_format(format)?;
        let ghost mid = self@;
        let d = SPBFDataForWrite::new(data_id, name, bytes);
        let ghost dv = d@;
        self.contents.data.push(d);
        assert(data_view(self.contents.data@) =~= mid.data.push(dv));
        proof {
            if old(self)@.wf_strict() {
                lemma_push_data_wf(mid, dv);
                lemma_strict_wf(self@);
            }
        }
        Ok(())
    }

    /// Appends a data block without looking for one of the same name,
    /// registering its format; the caller knows that a format id is
    /// available.
    pub fn add_data_unchecked(&mut self, name: String, format: &String, bytes: Box<[u8]>)
        requires
            old(self)@.can_register(format@),
            old(self)@.register_format(format@) is Ok,
        ensures
            old(self)@.wf_strict() ==> final(self)@.wf_strict() && final(self)@.wf(),
            old(self)@.refs_cover_blocks() ==> final(self)@.refs_cover_blocks(),
            old(self)@.append_data(name@, format@, bytes@) == Ok::<WriterView, SPBFWriterError>(final(self)@),
    {
        proof {
            if old(self)@.refs_cover_blocks() {
                crate::write::cover::lemma_append_covers(old(self)@, name@, format@, bytes@);
            }
        }
        proof {
            if old(self)@.wf_strict() {
                lemma_register_wf(old(self)@, format@);
            }
        }
        let data_id = self.find_or_add_format_unchecked(format);
        let ghost mid = self@;
        let d = SPBFDataForWrite::new(data_id, name, bytes);
        let ghost dv = d@;
        self.contents.data.push(d);
        assert(data_view(self.contents.data@) =~= mid.data.push(dv));
        proof {
            if old(self)@.wf_strict() {
                lemma_push_data_wf(mid, dv);
                lemma_strict_wf(self@);
            }
        }
    }

    /// Registers the format, then gives the first block named `name` the
    /// format's id and the new bytes, or appends a block when there is none.
    pub fn add_or_overwrite_data(&mut self, name: &String, format: &String, bytes: Box<[u8]>) -> (r:
        Result<(), SPBFWriterError>)
        requires
            old(self)@.can_register(format@),
        ensures
            old(self)@.wf_strict() ==> final(self)@.wf_strict() && final(self)@.wf(),
            old(self)@.refs_cover_blocks() ==> final(self)@.refs_cover_blocks(),
            match old(self)@.add_or_overwrite_result(name@, format@, bytes@) {
                Ok(w) => r is Ok && final(self)@ == w,
                Err(e) => r == Err::<(), SPBFWriterError>(e) && final(self)@ == old(self)@,
            },
    {
        proof {
            if old(self)@.refs_cover_blocks() {
                crate::write::cover::lemma_overwrite_covers(old(self)@, name@, format@, bytes@);
            }
        }
        proof {
            if old(self)@.wf_strict() {
                lemma_strict_wf(old(self)@);
                if old(self)@.register_format(format@) is Ok {
                    lemma_register_wf(old(self)@, format@);
                }
            }
        }
        let data_id = self.find_or_add_format(format)?;
        let ghost mid = self@;
        if let Some(i) = self.find_data_named(name) {
            let nd = {
                let old_d = &self.contents.data[i];
                SPBFDataForWrite { data_id, name: old_d.name.clone(), data: bytes }
            };
            let ghost dv = nd@;
            self.contents.data.set(i, nd);
            assert(data_view(self.contents.data@) =~= mid.data.update(i as int, dv));
            proof {
                if old(self)@.wf_strict() {
                    lemma_update_data_wf(mid, i as int, dv);
                    lemma_strict_wf(self@);
                }
            }
            Ok(())
        } else {
            let d = SPBFDataForWrite::new(data_id, name.clone(), bytes);
            let ghost dv = d@;
            self.contents.data.push(d);
            assert(data_view(self.contents.data@) =~= mid.data.push(dv));
            proof {
                if old(self)@.wf_strict() {
                    lemma_push_data_wf(mid, dv);
                    lemma_strict_wf(self@);
                }
            }
            Ok(())
        }
    }

    /// Removes the first block named `name` and says whether there was one;
    /// the first format with the block's id loses a reference and, when none
    /// is left, is removed and its id freed for reuse. That format must
    /// still count a reference (see `can_remove`); it always does in a
    /// writer that keeps `wf`, as writers made by `new` or `try_from` do.
    pub fn remove_data(&mut self, name: &String) -> (r: bool)
        requires
            old(self)@.removable(name@),
        ensures
            (final(self)@, r) == old(self)@.remove_data_result(name@),
            old(self)@.wf() ==> final(self)@.wf(),
            old(self)@.wf_strict() ==> final(self)@.wf_strict(),
            old(self)@.refs_cover_blocks() ==> final(self)@.refs_cover_blocks(),
    {
        proof {
            lemma_first_index(old(self)@.data, data_name_is(name@));
            if old(self)@.wf() {
                lemma_remove_keeps_wf(old(self)@, name@);
            }
            if old(self)@.wf_strict() {
                lemma_remove_wf(old(self)@, name@);
            }
            if old(self)@.refs_cover_blocks() {
                crate::write::cover::lemma_remove_covers(old(self)@, name@);
            }
        }
        if let Some(idx) = self.find_data_named(name) {
            let data = self.contents.data.remove(idx);
            assert(data_view(self.contents.data@) =~= old(self)@.data.remove(idx as int));
            assert(data@ == old(self)@.data[idx as int]);
            if let Some(format_idx) = self.find_format_with_id(data.data_id) {
                let f = &self.contents.data_formats[format_idx];
                assert(f@ == old(self)@.formats[format_idx as int]);
                let refs = f.refs - 1;
                if refs == 0 {
                    let id = f.data_id;
                    self.contents.data_format_id_pool.push(id);
                    self.contents.data_formats.remove(format_idx);
                    assert(formats_view(self.contents.data_formats@) =~= old(self)@.formats.remove(
                        format_idx as int,
                    ));
                } else {
                    let nf = SPBFDataFormatForWrite { data_id: f.data_id, name: f.name.clone(), refs };
                    let ghost nv = nf@;
                    self.contents.data_formats.set(format_idx, nf);
                    assert(formats_view(self.contents.data_formats@) =~= old(self)@.formats.update(
                        format_idx as int,
                        nv,
                    ));
                }
            }
            true
        } else {
            false
        }
    }

    /// Lays the writer's contents out as a file of the given type; only the
    /// supported version can be written.
    pub fn write(&mut self, file_type: SPBFType, version: SPBFVersion) -> (r: Result<Vec<u8>, SPBFWriterError>)
        ensures
            final(self)@ == old(self)@,
            writes_as(r, write_file(old(self)@, file_type, version)),
    {
        if !version.is_supported() {
            return Err(SPBFWriterError::Write(SPBFWriterWriteError::UnsupportedVersion));
        }
        match file_type {
            SPBFType::SmallUnalignedLittleEndian => RawWriterSmallUnalignedLittleEndian::write(self),
            SPBFType::SmallUnalignedBigEndian => RawWriterSmallUnalignedBigEndian::write(self),
            SPBFType::SmallAlignedLittleEndian => RawWriterSmallAlignedLittleEndian::write(self),
            SPBFType::SmallAlignedBigEndian => RawWriterSmallAlignedBigEndian::write(self),
        }
    }

    /// A writer holding what was read: the build name and version, the
    /// formats with as many references as blocks point at them, the blocks,
    /// and the id counter at the largest format id.
    pub fn try_from(value: &SPBFReadResult) -> (r: Result<Self, SPBFReaderError>)
        requires
            value@.data.len() < u32::MAX,
        ensures
            r matches Ok(w) && w@ == writer_from_read(value@),
            r matches Ok(w) && w@.wf() && w@.refs_cover_blocks(),
            r matches Ok(w) && w.build_name@ == value@.build_name && w.build_version@ == value@.build_version,
            r matches Ok(w) && (distinct_format_ids(value@.formats) ==> w@.wf_strict()),
    {
        value.positions_are_valid();
        let ghost rv = value@;
        let read_formats = value.data_formats();
        let read_data = value.data();
        let mut data_format_id_last: u16 = 0xFF;
        let mut data_formats: Vec<SPBFDataFormatForWrite> = Vec::new();
        let mut i: usize = 0;
        while i < read_formats.len()
            invariant
                i <= read_formats@.len(),
                crate::read::format_records(read_formats@) == rv.formats,
                data_format_id_last == largest_id(rv.formats.take(i as int)),
                formats_view(data_formats@) == Seq::new(
                    i as nat,
                    |k: int| FormatEntry { data_id: rv.formats[k].data_id, name: rv.formats[k].name, refs: 0 },
                ),
            decreases read_formats@.len() - i,
        {
            let f = &read_formats[i];
            assert(rv.formats[i as int] == f@);
            let id = f.data_id();
            assert(rv.formats.take(i + 1).drop_last() =~= rv.formats.take(i as int));
            if data_format_id_last < id {
                data_format_id_last = id;
            }
            let nf = SPBFDataFormatForWrite::new(id, f.name().clone(), 0);
            let ghost old_view = formats_view(data_formats@);
            data_formats.push(nf);
            assert(formats_view(data_formats@) =~= old_view.push(nf@));
            assert(formats_view(data_formats@) =~= Seq::new(
                (i + 1) as nat,
                |k: int| FormatEntry { data_id: rv.formats[k].data_id, name: rv.formats[k].name, refs: 0 },
            ));
            i = i + 1;
        }
        assert(rv.formats.take(read_formats@.len() as int) =~= rv.formats);
        let mut data: Vec<SPBFDataForWrite> = Vec::new();
        let mut j: usize = 0;
        let ghost n = read_formats@.len() as int;
        while j < read_data.len()
            invariant
                j <= read_data@.len(),
                read_data@.len() < u32::MAX,
                n == rv.formats.len(),
                crate::read::data_records(read_data@) == rv.data,
                positions_valid(rv.formats, rv.data),
                formats_view(data_formats@) == Seq::new(
                    n as nat,
                    |k: int| FormatEntry {
                        data_id: rv.formats[k].data_id,
                        name: rv.formats[k].name,
                        refs: position_count(rv.data.take(j as int), k) as u32,
                    },
                ),
                forall|k: int| 0 <= k < n ==> #[trigger] position_count(rv.data.take(j as int), k) <= j,
                data_view(data@) == rv.data.take(j as int).map_values(|d: DataRecord| entry_of_record(d)),
            decreases read_data@.len() - j,
        {
            let d = &read_data[j];
            assert(rv.data[j as int] == d@);
            let ghost pos = rv.data[j as int].format_position;
            assert(format_position(rv.formats, rv.data[j as int].data_id) == Some(pos));
            proof {
                crate::search::lemma_first_index(rv.formats, crate::read::record_id_is(d@.data_id));
            }
            let id = d.data_id();
            proof {
                let fv = formats_view(data_formats@);
                assert forall|k: int| 0 <= k < pos implies !format_id_is(id)(#[trigger] fv[k]) by {
                    assert(fv[k].data_id == rv.formats[k].data_id);
                    assert(!crate::read::record_id_is(id)(rv.formats[k]));
                }
                assert(fv[pos].data_id == id);
                lemma_first_index_at(fv, format_id_is(id), pos);
            }
            let fidx = find_id(&data_formats, id);
            let old_f = &data_formats[fidx];
            assert(old_f@ == formats_view(data_formats@)[pos]);
            proof {
                assert(position_count(rv.data.take(j as int), pos) <= j);
            }
            let nf = SPBFDataFormatForWrite::new(old_f.data_id, old_f.name.clone(), old_f.refs + 1);
            let ghost old_fv = formats_view(data_formats@);
            data_formats.set(fidx, nf);
            proof {
                assert(rv.data.take(j + 1).drop_last() =~= rv.data.take(j as int));
                assert(rv.data.take(j + 1).last() == rv.data[j as int]);
                assert forall|k: int| 0 <= k < n implies #[trigger] position_count(rv.data.take(j + 1), k)
                    == position_count(rv.data.take(j as int), k) + if k == pos {
                    1nat
                } else {
                    0nat
                } by {
                    assert(position_count(rv.data.take(j as int), k) <= j);
                }
                assert forall|k: int| 0 <= k < n implies #[trigger] position_count(rv.data.take(j + 1), k) <= j + 1 by {
                    assert(position_count(rv.data.take(j as int), k) <= j);
                }
                let target = Seq::new(
                    n as nat,
                    |k: int| FormatEntry {
                        data_id: rv.formats[k].data_id,
                        name: rv.formats[k].name,
                        refs: position_count(rv.data.take(j + 1), k) as u32,
                    },
                );
                assert forall|k: int| 0 <= k < n implies #[trigger] formats_view(data_formats@)[k] == target[k] by {
                    if k != pos {
                        assert(formats_view(data_formats@)[k] == old_fv[k]);
                    }
                }
                assert(formats_view(data_formats@) =~= target);
            }
            let bytes = boxed_bytes(vstd::slice::slice_to_vec(d.data()));
            let nd = SPBFDataForWrite::new(id, d.name().clone(), bytes);
            let ghost old_dv = data_view(data@);
            data.push(nd);
            proof {
                assert(data_view(data@) =~= old_dv.push(nd@));
                assert(rv.data.take(j + 1).map_values(|d: DataRecord| entry_of_record(d)) =~= rv.data.take(
                    j as int,
                ).map_values(|d: DataRecord| entry_of_record(d)).push(entry_of_record(rv.data[j as int])));
            }
            j = j + 1;
        }
        assert(rv.data.take(read_data@.len() as int) =~= rv.data);
        let w = SPBFWriter {
            build_name: value.build_name().clone(),
            build_version: value.build_version().clone(),
            contents: SPBFWriterContents {
                data_format_id_last,
                data_format_id_pool: Vec::new(),
                data_formats,
                data,
            },
        };
        proof {
            assert(w@.formats =~= formats_from_read(rv));
            assert(w@.free_ids =~= Seq::<u16>::empty());
            lemma_writer_from_read_keeps_wf(rv);
            crate::write::cover::lemma_wf_covers(w@);
            if distinct_format_ids(rv.formats) {
                lemma_writer_from_read_wf(rv);
            }
        }
        Ok(w)
    }

    fn find_format_named(&self, name: &String) -> (r: Option<usize>)
        ensures
            match r {
                Some(i) => format_named(self@.formats, name@) == Some(i as int) && i
                    < self.contents.data_formats@.len(),
                None => format_named(self@.formats, name@) is None,
            },
    {
        let ghost p = format_name_is(name@);
        let mut i: usize = 0;
        while i < self.contents.data_formats.len()
            invariant
                i <= self.contents.data_formats@.len(),
                p == format_name_is(name@),
                forall|k: int| 0 <= k < i ==> !p(#[trigger] self@.formats[k]),
            decreases self.contents.data_formats@.len() - i,
        {
            assert(self@.formats[i as int] == self.contents.data_formats@[i as int]@);
            if self.contents.data_formats[i].name == *name {
                proof {
                    lemma_first_index_at(self@.formats, p, i as int);
                }
                return Some(i);
            }
            i = i + 1;
        }
        proof {
            lemma_first_index_none(self@.formats, p);
        }
        None
    }

    fn find_format_with_id(&self, id: u16) -> (r: Option<usize>)
        ensures
            match r {
                Some(i) => format_with_id(self@.formats, id) == Some(i as int) && i
                    < self.contents.data_formats@.len(),
                None => format_with_id(self@.formats, id) is None,
            },
    {
        let ghost p = format_id_is(id);
        let mut i: usize = 0;
        while i < self.contents.data_formats.len()
            invariant
                i <= self.contents.data_formats@.len(),
                p == format_id_is(id),
                forall|k: int| 0 <= k < i ==> !p(#[trigger] self@.formats[k]),
            decreases self.contents.data_formats@.len() - i,
        {
            assert(self@.formats[i as int] == self.contents.data_formats@[i as int]@);
            if self.contents.data_formats[i].data_id == id {
                proof {
                    lemma_first_index_at(self@.formats, p, i as int);
                }
                return Some(i);
            }
            i = i + 1;
        }
        proof {
            lemma_first_index_none(self@.formats, p);
        }
        None
    }

    fn find_data_named(&self, name: &String) -> (r: Option<usize>)
        ensures
            match r {
                Some(i) => data_named(self@.data, name@) == Some(i as int) && i < self.contents.data@.len(),
                None => data_named(self@.data, name@) is None,
            },
    {
        let ghost p = data_name_is(name@);
        let mut i: usize = 0;
        while i < self.contents.data.len()
            invariant
                i <= self.contents.data@.len(),
                p == data_name_is(name@),
                forall|k: int| 0 <= k < i ==> !p(#[trigger] self@.data[k]),
            decreases self.contents.data@.len() - i,
        {
            assert(self@.data[i as int] == self.contents.data@[i as int]@);
            if self.contents.data[i].name == *name {
                proof {
                    lemma_first_index_at(self@.data, p, i as int);
                }
                return Some(i);
            }
            i = i + 1;
        }
        proof {
            lemma_first_index_none(self@.data, p);
        }
        None
    }
}

/// The index of the first format with id `id`.
fn find_id(formats: &Vec<SPBFDataFormatForWrite>, id: u16) -> (r: usize)
    requires
        format_with_id(formats_view(formats@), id) is Some,
    ensures
        format_with_id(formats_view(formats@), id) == Some(r as int),
        r < formats@.len(),
{
    let ghost p = format_id_is(id);
    let ghost fs = formats_view(formats@);
    let mut i: usize = 0;
    proof {
        crate::search::lemma_first_index(fs, p);
    }
    while i < formats.len()
        invariant
            i <= formats@.len(),
            p == format_id_is(id),
            fs == formats_view(formats@),
            first_index(fs, p) is Some,
            forall|k: int| 0 <= k < i ==> !p(#[trigger] fs[k]),
        decreases formats@.len() - i,
    {
        assert(fs[i as int] == formats@[i as int]@);
        if formats[i].data_id == id {
            proof {
                lemma_first_index_at(fs, p, i as int);
            }
            return i;
        }
        i = i + 1;
    }
    proof {
        lemma_first_index_none(fs, p);
    }
    0
}

/// Calls `Vec::into_boxed_slice`, which keeps the elements in order.
#[verifier::external_body]
fn boxed_bytes(v: Vec<u8>) -> (r: Box<[u8]>)
    ensures
        r@ == v@,
{
    v.into_boxed_slice()
}

impl From<SPBFWriterDataAddError> for SPBFWriterError {
    fn from(e: SPBFWriterDataAddError) -> (r: SPBFWriterError) {
        SPBFWriterError::DataAdd(e)
    }
}

impl vstd::std_specs::convert::FromSpecImpl<SPBFWriterDataAddError> for SPBFWriterError {
    open spec fn obeys_from_spec() -> bool {
        true
    }

    open spec fn from_spec(e: SPBFWriterDataAddError) -> SPBFWriterError {
        SPBFWriterError::DataAdd(e)
    }
}

impl From<SPBFWriterWriteError> for SPBFWriterError {
    fn from(e: SPBFWriterWriteError) -> (r: SPBFWriterError) {
        SPBFWriterError::Write(e)
    }
}

impl vstd::std_specs::convert::FromSpecImpl<SPBFWriterWriteError> for SPBFWriterError {
    open spec fn obeys_from_spec() -> bool {
        true
    }

    open spec fn from_spec(e: SPBFWriterWriteError) -> SPBFWriterError {
        SPBFWriterError::Write(e)
    }
}

} // verus!
