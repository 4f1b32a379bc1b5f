//! Reading an SPBF file: the header is checked when a reader is made, and
//! the body is parsed on request into the build name and version, the data
//! formats and the data blocks, which borrow their bytes from the file.
use vstd::prelude::*;
use crate::search::first_index;
use crate::{type_of_byte, version_of, SPBFType, SPBFVersion};
use crate::read::aligned::aligned_body;
use crate::read::unaligned::unaligned_body;
use crate::read::raw::{check_header_len, check_magic, magic, read_type, read_version};
use crate::read::raw_sabe::RawReaderSmallAlignedBigEndian;
use crate::read::raw_sale::RawReaderSmallAlignedLittleEndian;
use crate::read::raw_sube::RawReaderSmallUnalignedBigEndian;
use crate::read::raw_sule::RawReaderSmallUnalignedLittleEndian;

pub mod raw;
pub mod aligned;
pub mod unaligned;
pub mod raw_sabe;
pub mod raw_sale;
pub mod raw_sube;
pub mod raw_sule;
pub mod laws;

verus! {

/// Why a file could not be read.
#[derive(Debug, Clone, Copy, PartialEq, Eq, Structural)]
pub enum SPBFReaderError {
    InvalidFileLength,
    Header(SPBFReaderHeaderReadError),
    DataFormat(SPBFReaderFormatReadError),
    Data(SPBFReaderDataReadError),
}

/// What is wrong with the header.
#[derive(Debug, Clone, Copy, PartialEq, Eq, Structural)]
pub enum SPBFReaderHeaderReadError {
    InvalidMagic,
    InvalidType,
    UnsupportedVersion,
    InvalidBuildNameLength,
    InvalidBuildNameString,
    InvalidBuildVersionLength,
    InvalidBuildVersionString,
}

/// What is wrong with a data format entry.
#[derive(Debug, Clone, Copy, PartialEq, Eq, Structural)]
pub enum SPBFReaderFormatReadError {
    InvalidOffset,
    InvalidNameLength,
    InvalidNameString,
}

/// Another name for the errors of data format entries.
pub type SPBFReaderDataFormatReadError = SPBFReaderFormatReadError;

/// What is wrong with a data entry.
#[derive(Debug, Clone, Copy, PartialEq, Eq, Structural)]
pub enum SPBFReaderDataReadError {
    InvalidOffset,
    InvalidNameLength,
    InvalidNameString,
    InvalidDataLength,
    InvalidDataId,
}

impl From<SPBFReaderHeaderReadError> for SPBFReaderError {
    fn from(e: SPBFReaderHeaderReadError) -> (r: SPBFReaderError) {
        SPBFReaderError::Header(e)
    }
}

impl vstd::std_specs::convert::FromSpecImpl<SPBFReaderHeaderReadError> for SPBFReaderError {
    open spec fn obeys_from_spec() -> bool {
        true
    }

    open spec fn from_spec(e: SPBFReaderHeaderReadError) -> SPBFReaderError {
        SPBFReaderError::Header(e)
    }
}

impl From<SPBFReaderFormatReadError> for SPBFReaderError {
    fn from(e: SPBFReaderFormatReadError) -> (r: SPBFReaderError) {
        SPBFReaderError::DataFormat(e)
    }
}

impl vstd::std_specs::convert::FromSpecImpl<SPBFReaderFormatReadError> for SPBFReaderError {
    open spec fn obeys_from_spec() -> bool {
        true
    }

    open spec fn from_spec(e: SPBFReaderFormatReadError) -> SPBFReaderError {
        SPBFReaderError::DataFormat(e)
    }
}

impl From<SPBFReaderDataReadError> for SPBFReaderError {
    fn from(e: SPBFReaderDataReadError) -> (r: SPBFReaderError) {
        SPBFReaderError::Data(e)
    }
}

impl vstd::std_specs::convert::FromSpecImpl<SPBFReaderDataReadError> for SPBFReaderError {
    open spec fn obeys_from_spec() -> bool {
        true
    }

    open spec fn from_spec(e: SPBFReaderDataReadError) -> SPBFReaderError {
        SPBFReaderError::Data(e)
    }
}

/// A data format as read from a file.
pub struct FormatRecord {
    pub data_id: u16,
    pub name: Seq<char>,
}

/// A data block as read from a file, with the index of the first format
/// of its id.
pub struct DataRecord {
    pub name: Seq<char>,
    pub bytes: Seq<u8>,
    pub data_id: u16,
    pub format_position: int,
}

/// The contents of a file body.
pub struct Body {
    pub build_name: Seq<char>,
    pub build_version: Seq<char>,
    pub formats: Seq<FormatRecord>,
    pub data: Seq<DataRecord>,
}

/// The predicate "a format record with id `id`".
pub open spec fn record_id_is(id: u16) -> spec_fn(FormatRecord) -> bool {
    |f: FormatRecord| f.data_id == id
}

/// The index of the first format record with id `id`.
pub open spec fn format_position(fs: Seq<FormatRecord>, id: u16) -> Option<int> {
    first_index(fs, record_id_is(id))
}

/// Every data record points at the first format of its id.
pub open spec fn positions_valid(fs: Seq<FormatRecord>, ds: Seq<DataRecord>) -> bool {
    forall|k: int|
        0 <= k < ds.len() ==> format_position(fs, #[trigger] ds[k].data_id) == Some(ds[k].format_position)
}

/// `r`, with `prefix` put in front of what it holds when it is `Ok`.
pub open spec fn prepend_ok<A>(prefix: Seq<A>, r: Result<Seq<A>, SPBFReaderError>) -> Result<
    Seq<A>,
    SPBFReaderError,
> {
    match r {
        Ok(s) => Ok(prefix + s),
        Err(e) => Err(e),
    }
}

/// A data format read from a file.
#[derive(Debug, Clone)]
pub struct SPBFDataFormatForRead {
    data_id: u16,
    name: String,
}

impl View for SPBFDataFormatForRead {
    type V = FormatRecord;

    closed spec fn view(&self) -> FormatRecord {
        FormatRecord { data_id: self.data_id, name: self.name@ }
    }
}

impl SPBFDataFormatForRead {
    pub fn new(data_id: u16, name: String) -> (r: Self)
        ensures
            r@ == (FormatRecord { data_id, name: name@ }),
    {
        SPBFDataFormatForRead { data_id, name }
    }

    pub fn name(&self) -> (r: &String)
        ensures
            r@ == self@.name,
    {
        &self.name
    }

    pub fn data_id(&self) -> (r: u16)
        ensures
            r == self@.data_id,
    {
        self.data_id
    }
}

/// A data block read from a file; its bytes are borrowed from the file.
#[derive(Debug, Clone)]
pub struct SPBFDataForRead<'a> {
    name: String,
    data: &'a [u8],
    data_id: u16,
    format_position: usize,
}

impl<'a> View for SPBFDataForRead<'a> {
    type V = DataRecord;

    closed spec fn view(&self) -> DataRecord {
        DataRecord {
            name: self.name@,
            bytes: self.data@,
            data_id: self.data_id,
            format_position: self.format_position as int,
        }
    }
}

impl<'a> SPBFDataForRead<'a> {
    pub fn new(name: String, data: &'a [u8], data_id: u16, format_position: usize) -> (r: Self)
        ensures
            r@ == (DataRecord { name: name@, bytes: data@, data_id, format_position: format_position as int }),
    {
        SPBFDataForRead { name, data, data_id, format_position }
    }

    pub fn name(&self) -> (r: &String)
        ensures
            r@ == self@.name,
    {
        &self.name
    }

    pub fn data(&self) -> (r: &[u8])
        ensures
            r@ == self@.bytes,
    {
        self.data
    }

    pub fn data_id(&self) -> (r: u16)
        ensures
            r == self@.data_id,
    {
        self.data_id
    }

    /// The format of this block, for a block of the read result `read`.
    pub fn format<'b>(&self, read: &'b SPBFReadResult) -> (r: &'b SPBFDataFormatForRead)
        requires
            exists|k: int| 0 <= k < read@.data.len() && read@.data[k] == self@,
        ensures
            r@ == read@.formats[self@.format_position],
            r@.data_id == self@.data_id,
            format_position(read@.formats, self@.data_id) == Some(self@.format_position),
    {
        proof {
            use_type_invariant(read);
            let k = choose|k: int| 0 <= k < read@.data.len() && read@.data[k] == self@;
            assert(read@.data[k].data_id == self@.data_id);
            crate::search::lemma_first_index(read@.formats, record_id_is(self@.data_id));
        }
        &read.data_formats[self.format_position]
    }
}

/// The views of a list of format records.
pub open spec fn format_records(v: Seq<SPBFDataFormatForRead>) -> Seq<FormatRecord> {
    v.map_values(|f: SPBFDataFormatForRead| f@)
}

/// The views of a list of data records.
pub open spec fn data_records<'a>(v: Seq<SPBFDataForRead<'a>>) -> Seq<DataRecord> {
    v.map_values(|d: SPBFDataForRead<'a>| d@)
}

/// A parsed file body, before it is joined with the header's type and
/// version.
pub struct ParsedBody<'a> {
    pub build_name: String,
    pub build_version: String,
    pub formats: Vec<SPBFDataFormatForRead>,
    pub data: Vec<SPBFDataForRead<'a>>,
}

/// The contents a parsed body holds.
pub open spec fn body_of<'a>(p: ParsedBody<'a>) -> Body {
    Body {
        build_name: p.build_name@,
        build_version: p.build_version@,
        formats: format_records(p.formats@),
        data: data_records(p.data@),
    }
}

/// A parsed body holds exactly `b`, with every block pointing at the first
/// format of its id.
pub open spec fn parsed_as<'a>(p: ParsedBody<'a>, b: Body) -> bool {
    &&& body_of(p) == b
    &&& positions_valid(format_records(p.formats@), data_records(p.data@))
}

/// Putting a prefix in front of a one-element prefix is putting the longer
/// prefix in front.
pub proof fn lemma_prepend_step<A>(a: Seq<A>, x: A, r: Result<Seq<A>, SPBFReaderError>)
    ensures
        prepend_ok(a, prepend_ok(seq![x], r)) == prepend_ok(a.push(x), r),
{
    if let Ok(s) = r {
        assert(a + (seq![x] + s) =~= a.push(x) + s);
    }
}

/// The index of the first format with id `id`.
pub fn find_format_position(formats: &Vec<SPBFDataFormatForRead>, id: u16) -> (r: Option<usize>)
    ensures
        match r {
            Some(i) => format_position(format_records(formats@), id) == Some(i as int) && i
                < formats@.len(),
            None => format_position(format_records(formats@), id) is None,
        },
{
    let ghost p = record_id_is(id);
    let ghost fs = format_records(formats@);
    let mut i: usize = 0;
    while i < formats.len()
        invariant
            i <= formats@.len(),
            p == record_id_is(id),
            fs == format_records(formats@),
            forall|k: int| 0 <= k < i ==> !p(#[trigger] fs[k]),
        decreases formats@.len() - i,
    {
        assert(fs[i as int] == formats@[i as int]@);
        if formats[i].data_id == id {
            proof {
                crate::search::lemma_first_index_at(fs, p, i as int);
            }
            return Some(i);
        }
        i = i + 1;
    }
    proof {
        crate::search::lemma_first_index_none(fs, p);
    }
    None
}

/// What a read gives: the file type and version from the header and the
/// contents of the body.
pub struct ReadView {
    pub file_type: SPBFType,
    pub file_version: SPBFVersion,
    pub build_name: Seq<char>,
    pub build_version: Seq<char>,
    pub formats: Seq<FormatRecord>,
    pub data: Seq<DataRecord>,
}

/// The result of reading a file.
#[derive(Debug)]
pub struct SPBFReadResult<'a> {
    file_type: SPBFType,
    file_version: SPBFVersion,
    build_name: String,
    build_version: String,
    data_formats: Vec<SPBFDataFormatForRead>,
    data: Vec<SPBFDataForRead<'a>>,
}

impl<'a> View for SPBFReadResult<'a> {
    type V = ReadView;

    closed spec fn view(&self) -> ReadView {
        ReadView {
            file_type: self.file_type,
            file_version: self.file_version,
            build_name: self.build_name@,
            build_version: self.build_version@,
            formats: format_records(self.data_formats@),
            data: data_records(self.data@),
        }
    }
}

impl<'a> SPBFReadResult<'a> {
    #[verifier::type_invariant]
    spec fn inv(self) -> bool {
        positions_valid(format_records(self.data_formats@), data_records(self.data@))
    }

    /// Every data block of a read result points at the first format of its id.
    pub fn positions_are_valid(&self)
        ensures
            positions_valid(self@.formats, self@.data),
    {
        proof {
            use_type_invariant(self);
        }
    }

    /// Assembles a read result from a file type, a version and a parsed body.
    pub fn from_parts(
        file_type: SPBFType,
        file_version: SPBFVersion,
        build_name: String,
        build_version: String,
        data_formats: Vec<SPBFDataFormatForRead>,
        data: Vec<SPBFDataForRead<'a>>,
    ) -> (r: Self)
        requires
            positions_valid(format_records(data_formats@), data_records(data@)),
        ensures
            r@ == (ReadView {
                file_type,
                file_version,
                build_name: build_name@,
                build_version: build_version@,
                formats: format_records(data_formats@),
                data: data_records(data@),
            }),
    {
        SPBFReadResult { file_type, file_version, build_name, build_version, data_formats, data }
    }

    pub fn file_type(&self) -> (r: SPBFType)
        ensures
            r == self@.file_type,
    {
        self.file_type
    }

    pub fn file_version(&self) -> (r: SPBFVersion)
        ensures
            r == self@.file_version,
    {
        self.file_version
    }

    pub fn build_name(&self) -> (r: &String)
        ensures
            r@ == self@.build_name,
    {
        &self.build_name
    }

    pub fn build_version(&self) -> (r: &String)
        ensures
            r@ == self@.build_version,
    {
        &self.build_version
    }

    pub fn data_formats(&self) -> (r: &Vec<SPBFDataFormatForRead>)
        ensures
            format_records(r@) == self@.formats,
    {
        &self.data_formats
    }

    pub fn data(&self) -> (r: &Vec<SPBFDataForRead<'a>>)
        ensures
            data_records(r@) == self@.data,
    {
        &self.data
    }
}

/// A read result holding the body `b` under the header's type and version.
pub open spec fn with_header(b: Body, file_type: SPBFType, file_version: SPBFVersion) -> ReadView {
    ReadView {
        file_type,
        file_version,
        build_name: b.build_name,
        build_version: b.build_version,
        formats: b.formats,
        data: b.data,
    }
}

/// `r` is the read result of the body `body` under the given header, or
/// the error with which the body was refused.
pub open spec fn reads_as<'a>(
    r: Result<SPBFReadResult<'a>, SPBFReaderError>,
    body: Result<Body, SPBFReaderError>,
    file_type: SPBFType,
    file_version: SPBFVersion,
) -> bool {
    match body {
        Ok(b) => r matches Ok(res) && res@ == with_header(b, file_type, file_version),
        Err(e) => r matches Err(e2) && e2 == e,
    }
}

/// The type and version that the header of `bytes` names, or why it is
/// refused: too short for the fixed header, wrong magic bytes, or an
/// unknown file type.
pub open spec fn open_header(bytes: Seq<u8>) -> Result<(SPBFType, SPBFVersion), SPBFReaderError> {
    if bytes.len() < 8 {
        Err(SPBFReaderError::InvalidFileLength)
    } else if bytes.subrange(0, 6) != magic() {
        Err(SPBFReaderError::Header(SPBFReaderHeaderReadError::InvalidMagic))
    } else {
        match type_of_byte(bytes[6]) {
            None => Err(SPBFReaderError::Header(SPBFReaderHeaderReadError::InvalidType)),
            Some(t) => Ok((t, version_of(bytes[7]))),
        }
    }
}

/// The body of a file of type `t`.
pub open spec fn body_for(src: Seq<u8>, t: SPBFType) -> Result<Body, SPBFReaderError> {
    match t {
        SPBFType::SmallUnalignedLittleEndian => unaligned_body(src, false),
        SPBFType::SmallUnalignedBigEndian => unaligned_body(src, true),
        SPBFType::SmallAlignedLittleEndian => aligned_body(src, false),
        SPBFType::SmallAlignedBigEndian => aligned_body(src, true),
    }
}

/// What reading a file with the given header gives: refused unless the
/// version is supported, else the body for the file type.
pub open spec fn read_file(src: Seq<u8>, t: SPBFType, v: SPBFVersion) -> Result<Body, SPBFReaderError> {
    if !v.spec_is_supported() {
        Err(SPBFReaderError::Header(SPBFReaderHeaderReadError::UnsupportedVersion))
    } else {
        body_for(src, t)
    }
}

/// What a reader holds: the file and the type and version of its header.
pub struct ReaderView {
    pub source: Seq<u8>,
    pub file_type: SPBFType,
    pub file_version: SPBFVersion,
}

/// A file whose header has been checked, ready to be read.
#[derive(Debug)]
pub struct SPBFReader<'a> {
    source: &'a [u8],
    file_type: SPBFType,
    file_version: SPBFVersion,
}

impl<'a> View for SPBFReader<'a> {
    type V = ReaderView;

    closed spec fn view(&self) -> ReaderView {
        ReaderView { source: self.source@, file_type: self.file_type, file_version: self.file_version }
    }
}

impl<'a> SPBFReader<'a> {
    /// Checks the header of `bytes`.
    pub fn new(bytes: &'a [u8]) -> (r: Result<Self, SPBFReaderError>)
        ensures
            match open_header(bytes@) {
                Ok((t, v)) => r matches Ok(rd) && rd@ == (ReaderView {
                    source: bytes@,
                    file_type: t,
                    file_version: v,
                }),
                Err(e) => r matches Err(e2) && e2 == e,
            },
    {
        if !check_header_len(bytes) {
            return Err(SPBFReaderError::InvalidFileLength);
        }
        if !check_magic(bytes) {
            return Err(SPBFReaderError::Header(SPBFReaderHeaderReadError::InvalidMagic));
        }
        let file_type = match read_type(bytes) {
            Ok(t) => t,
            Err(()) => {
                return Err(SPBFReaderError::Header(SPBFReaderHeaderReadError::InvalidType));
            },
        };
        let file_version = read_version(bytes);
        Ok(SPBFReader { source: bytes, file_type, file_version })
    }

    /// The file being read.
    pub fn source(&self) -> (r: &'a [u8])
        ensures
            r@ == self@.source,
    {
        self.source
    }

    pub fn file_type(&self) -> (r: SPBFType)
        ensures
            r == self@.file_type,
    {
        self.file_type
    }

    pub fn file_version(&self) -> (r: SPBFVersion)
        ensures
            r == self@.file_version,
    {
        self.file_version
    }

    /// Whether this reader can read the file's version.
    pub fn is_read_supported(&self) -> (r: bool)
        ensures
            r == self@.file_version.spec_is_supported(),
    {
        self.file_version.is_supported()
    }

    /// Parses the body of the file.
    pub fn read(&self) -> (r: Result<SPBFReadResult<'_>, SPBFReaderError>)
        ensures
            reads_as(r, read_file(self@.source, self@.file_type, self@.file_version), self@.file_type, self@.file_version),
    {
        if !self.is_read_supported() {
            return Err(SPBFReaderError::Header(SPBFReaderHeaderReadError::UnsupportedVersion));
        }
        match self.file_type {
            SPBFType::SmallUnalignedLittleEndian => RawReaderSmallUnalignedLittleEndian::read(
                &self,
                self.file_type,
                self.file_version,
            ),
            SPBFType::SmallUnalignedBigEndian => RawReaderSmallUnalignedBigEndian::read(
                &self,
                self.file_type,
                self.file_version,
            ),
            SPBFType::SmallAlignedLittleEndian => RawReaderSmallAlignedLittleEndian::read(
                &self,
                self.file_type,
                self.file_version,
            ),
            SPBFType::SmallAlignedBigEndian => RawReaderSmallAlignedBigEndian::read(
                &self,
                self.file_type,
                self.file_version,
            ),
        }
    }
}

} // verus!
