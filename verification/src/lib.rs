use vstd::prelude::*;

pub mod endian;
pub mod search;
pub mod text;
pub mod raw;
pub mod read;
pub mod write;
pub mod roundtrip;

verus! {

/// The layout flavour of an SPBF file: whether entries are padded to even
/// lengths ("aligned") or NUL-terminated ("unaligned"), and the byte order
/// of the integer fields.
#[derive(Debug, Clone, Copy, PartialEq, Eq, Structural)]
pub enum SPBFType {
    SmallUnalignedLittleEndian,
    SmallUnalignedBigEndian,
    SmallAlignedLittleEndian,
    SmallAlignedBigEndian,
}

/// The raw byte that identifies a file type in the header.
pub open spec fn type_byte(t: SPBFType) -> u8 {
    match t {
        SPBFType::SmallUnalignedLittleEndian => 0x0,
        SPBFType::SmallUnalignedBigEndian => 0x1,
        SPBFType::SmallAlignedLittleEndian => 0x2,
        SPBFType::SmallAlignedBigEndian => 0x3,
    }
}

/// The file type a header byte denotes, if any.
pub open spec fn type_of_byte(b: u8) -> Option<SPBFType> {
    if b == 0x0 {
        Some(SPBFType::SmallUnalignedLittleEndian)
    } else if b == 0x1 {
        Some(SPBFType::SmallUnalignedBigEndian)
    } else if b == 0x2 {
        Some(SPBFType::SmallAlignedLittleEndian)
    } else if b == 0x3 {
        Some(SPBFType::SmallAlignedBigEndian)
    } else {
        None
    }
}

impl SPBFType {
    pub fn as_raw(self) -> (r: u8)
        ensures
            r == type_byte(self),
    {
        match self {
            SPBFType::SmallUnalignedLittleEndian => 0x0,
            SPBFType::SmallUnalignedBigEndian => 0x1,
            SPBFType::SmallAlignedLittleEndian => 0x2,
            SPBFType::SmallAlignedBigEndian => 0x3,
        }
    }

    pub fn from_raw(value: u8) -> (r: Option<SPBFType>)
        ensures
            r == type_of_byte(value),
    {
        if value == 0x0 {
            Some(SPBFType::SmallUnalignedLittleEndian)
        } else if value == 0x1 {
            Some(SPBFType::SmallUnalignedBigEndian)
        } else if value == 0x2 {
            Some(SPBFType::SmallAlignedLittleEndian)
        } else if value == 0x3 {
            Some(SPBFType::SmallAlignedBigEndian)
        } else {
            None
        }
    }
}

impl TryFrom<u8> for SPBFType {
    type Error = ();

    fn try_from(value: u8) -> (r: Result<SPBFType, ()>) {
        match SPBFType::from_raw(value) {
            Some(t) => Ok(t),
            None => Err(()),
        }
    }
}

impl vstd::std_specs::convert::TryFromSpecImpl<u8> for SPBFType {
    open spec fn obeys_try_from_spec() -> bool {
        true
    }

    open spec fn try_from_spec(v: u8) -> Result<SPBFType, ()> {
        match type_of_byte(v) {
            Some(t) => Ok(t),
            None => Err(()),
        }
    }
}

impl From<SPBFType> for u8 {
    fn from(t: SPBFType) -> (r: u8) {
        t.as_raw()
    }
}

impl vstd::std_specs::convert::FromSpecImpl<SPBFType> for u8 {
    open spec fn obeys_from_spec() -> bool {
        true
    }

    open spec fn from_spec(t: SPBFType) -> u8 {
        type_byte(t)
    }
}

/// The byte that a version number other than the two named ones holds.
/// Such a byte is at least 2, so each version has exactly one value.
#[derive(Debug, Clone, Copy, PartialEq, Eq, Structural)]
pub struct OtherVersion {
    byte: u8,
}

impl OtherVersion {
    #[verifier::type_invariant]
    spec fn inv(self) -> bool {
        self.byte >= 2
    }

    pub closed spec fn spec_byte(self) -> u8 {
        self.byte
    }

    pub fn byte(self) -> (r: u8)
        ensures
            r == self.spec_byte(),
            r >= 2,
    {
        proof {
            use_type_invariant(self);
        }
        self.byte
    }
}

/// A format version number as stored in the header.
#[derive(Debug, Clone, Copy, PartialEq, Eq, Structural)]
pub enum SPBFVersion {
    Zero,
    One,
    Other(OtherVersion),
}

/// The version that a header byte denotes.
pub closed spec fn version_of(b: u8) -> SPBFVersion {
    if b == 0 {
        SPBFVersion::Zero
    } else if b == 1 {
        SPBFVersion::One
    } else {
        SPBFVersion::Other(OtherVersion { byte: b })
    }
}

/// The version of a byte has that byte, and the bytes 0 and 1 denote the
/// two named versions.
pub proof fn lemma_version_of(b: u8)
    ensures
        version_byte(version_of(b)) == b,
        b == 0 ==> version_of(b) == SPBFVersion::Zero,
        b == 1 ==> version_of(b) == SPBFVersion::One,
        version_of(b).spec_is_supported() <==> b == 1,
{
}

/// The header byte of a version.
pub open spec fn version_byte(v: SPBFVersion) -> u8 {
    match v {
        SPBFVersion::Zero => 0,
        SPBFVersion::One => 1,
        SPBFVersion::Other(o) => o.spec_byte(),
    }
}

impl SPBFVersion {
    pub const V0: SPBFVersion = SPBFVersion::Zero;
    pub const V1: SPBFVersion = SPBFVersion::One;
    pub const LAST_SUPPORTED: SPBFVersion = SPBFVersion::One;

    pub fn new(value: u8) -> (r: Self)
        ensures
            r == version_of(value),
            version_byte(r) == value,
    {
        if value == 0 {
            SPBFVersion::Zero
        } else if value == 1 {
            SPBFVersion::One
        } else {
            SPBFVersion::Other(OtherVersion { byte: value })
        }
    }

    pub open spec fn spec_is_supported(self) -> bool {
        self == SPBFVersion::One
    }

    pub fn is_supported(self) -> (r: bool)
        ensures
            r == self.spec_is_supported(),
            r == (version_byte(self) == 1),
    {
        proof {
            if let SPBFVersion::Other(o) = self {
                use_type_invariant(o);
            }
        }
        self.as_raw() == Self::LAST_SUPPORTED.as_raw()
    }

    pub fn as_raw(self) -> (r: u8)
        ensures
            r == version_byte(self),
    {
        match self {
            SPBFVersion::Zero => 0,
            SPBFVersion::One => 1,
            SPBFVersion::Other(o) => o.byte(),
        }
    }
}

impl From<SPBFVersion> for u8 {
    fn from(v: SPBFVersion) -> (r: u8) {
        v.as_raw()
    }
}

impl vstd::std_specs::convert::FromSpecImpl<SPBFVersion> for u8 {
    open spec fn obeys_from_spec() -> bool {
        true
    }

    open spec fn from_spec(v: SPBFVersion) -> u8 {
        version_byte(v)
    }
}

} // verus!
