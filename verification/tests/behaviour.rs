use spbf::raw::{align_len_small, bytes_align_small, str_to_bytes_align_small, str_to_bytes_unaligned_small, usize_to_u16, usize_to_u32};
use spbf::read::{
    SPBFReader, SPBFReaderDataReadError, SPBFReaderError, SPBFReaderFormatReadError, SPBFReaderHeaderReadError,
};
use spbf::write::{SPBFWriter, SPBFWriterDataAddError, SPBFWriterError, SPBFWriterWriteError};
use spbf::{SPBFType, SPBFVersion};

const ALL_TYPES: [SPBFType; 4] = [
    SPBFType::SmallUnalignedLittleEndian,
    SPBFType::SmallUnalignedBigEndian,
    SPBFType::SmallAlignedLittleEndian,
    SPBFType::SmallAlignedBigEndian,
];

fn small_writer() -> SPBFWriter {
    let mut w = SPBFWriter::new("n".to_string(), "v".to_string());
    w.add_data("d".to_string(), &"f".to_string(), vec![0xAB].into_boxed_slice()).unwrap();
    w
}

fn read_err(bytes: &[u8]) -> SPBFReaderError {
    let reader = SPBFReader::new(bytes).unwrap();
    reader.read().unwrap_err()
}

fn write_err(w: &mut SPBFWriter, ty: SPBFType) -> SPBFWriterError {
    w.write(ty, SPBFVersion::LAST_SUPPORTED).unwrap_err()
}

#[test]
fn exact_bytes_aligned_little_endian() {
    let bytes = small_writer().write(SPBFType::SmallAlignedLittleEndian, SPBFVersion::LAST_SUPPORTED).unwrap();
    let expected: Vec<u8> = vec![
        0x2E, 0x53, 0x50, 0x42, 0x46, 0x00, 0x02, 0x01, // magic, type, version
        0x18, 0x00, 0x00, 0x00, 0x22, 0x00, 0x00, 0x00, // first format, first data
        0x01, 0x00, 0x01, 0x00, b'n', 0x00, b'v', 0x00, // lengths and padded strings
        0x00, 0x00, 0x00, 0x00, 0x01, 0x00, 0x00, 0x01, b'f', 0x00, // format entry
        0x00, 0x00, 0x00, 0x00, 0x01, 0x00, 0x00, 0x01, 0x01, 0x00, b'd', 0x00, 0xAB, 0x00, // data entry
    ];
    assert_eq!(bytes, expected);
}

#[test]
fn exact_bytes_aligned_big_endian() {
    let bytes = small_writer().write(SPBFType::SmallAlignedBigEndian, SPBFVersion::LAST_SUPPORTED).unwrap();
    let expected: Vec<u8> = vec![
        0x2E, 0x53, 0x50, 0x42, 0x46, 0x00, 0x03, 0x01,
        0x00, 0x00, 0x00, 0x18, 0x00, 0x00, 0x00, 0x22,
        0x00, 0x01, 0x00, 0x01, b'n', 0x00, b'v', 0x00,
        0x00, 0x00, 0x00, 0x00, 0x00, 0x01, 0x01, 0x00, b'f', 0x00,
        0x00, 0x00, 0x00, 0x00, 0x00, 0x01, 0x01, 0x00, 0x00, 0x01, b'd', 0x00, 0xAB, 0x00,
    ];
    assert_eq!(bytes, expected);
}

#[test]
fn exact_bytes_unaligned_big_endian() {
    let bytes = small_writer().write(SPBFType::SmallUnalignedBigEndian, SPBFVersion::LAST_SUPPORTED).unwrap();
    let expected: Vec<u8> = vec![
        0x2E, 0x53, 0x50, 0x42, 0x46, 0x00, 0x01, 0x01,
        0x00, 0x00, 0x00, 0x14, 0x00, 0x00, 0x00, 0x1C,
        b'n', 0x00, b'v', 0x00,
        0x00, 0x00, 0x00, 0x00, 0x01, 0x00, b'f', 0x00,
        0x00, 0x00, 0x00, 0x00, 0x00, 0x01, 0x01, 0x00, b'd', 0x00, 0xAB,
    ];
    assert_eq!(bytes, expected);
}

#[test]
fn exact_bytes_unaligned_little_endian() {
    let bytes = small_writer().write(SPBFType::SmallUnalignedLittleEndian, SPBFVersion::LAST_SUPPORTED).unwrap();
    let expected: Vec<u8> = vec![
        0x2E, 0x53, 0x50, 0x42, 0x46, 0x00, 0x00, 0x01,
        0x14, 0x00, 0x00, 0x00, 0x1C, 0x00, 0x00, 0x00,
        b'n', 0x00, b'v', 0x00,
        0x00, 0x00, 0x00, 0x00, 0x00, 0x01, b'f', 0x00,
        0x00, 0x00, 0x00, 0x00, 0x01, 0x00, 0x00, 0x01, b'd', 0x00, 0xAB,
    ];
    assert_eq!(bytes, expected);
}

#[test]
fn write_then_read_gives_back_everything() {
    for ty in ALL_TYPES {
        let mut w = SPBFWriter::new("build ü".to_string(), "0.9.1".to_string());
        w.add_data("b".to_string(), &"y".to_string(), vec![1, 2, 3].into_boxed_slice()).unwrap();
        w.add_data("a".to_string(), &"x".to_string(), vec![].into_boxed_slice()).unwrap();
        w.add_data("c".to_string(), &"y".to_string(), vec![9; 7].into_boxed_slice()).unwrap();
        let bytes = w.write(ty, SPBFVersion::LAST_SUPPORTED).unwrap();
        let reader = SPBFReader::new(&bytes).unwrap();
        assert_eq!(reader.file_type(), ty);
        assert_eq!(reader.file_version(), SPBFVersion::LAST_SUPPORTED);
        assert!(reader.is_read_supported());
        let r = reader.read().unwrap();
        assert_eq!(r.file_version(), SPBFVersion::V1);
        assert_eq!(r.build_name(), "build ü");
        assert_eq!(r.build_version(), "0.9.1");
        let formats: Vec<(u16, String)> = r.data_formats().iter().map(|f| (f.data_id(), f.name().clone())).collect();
        assert_eq!(formats, vec![(0x100, "y".to_string()), (0x101, "x".to_string())]);
        let data: Vec<(String, Vec<u8>, u16)> =
            r.data().iter().map(|d| (d.name().clone(), d.data().to_vec(), d.data_id())).collect();
        assert_eq!(
            data,
            vec![
                ("b".to_string(), vec![1, 2, 3], 0x100),
                ("a".to_string(), vec![], 0x101),
                ("c".to_string(), vec![9; 7], 0x100),
            ]
        );
        assert_eq!(r.data()[1].format(&r).name(), "x");
        assert_eq!(r.data()[2].format(&r).data_id(), 0x100);
    }
}

#[test]
fn rewrite_after_read_is_identical_in_every_type() {
    for ty in ALL_TYPES {
        let mut w = SPBFWriter::new("conv".to_string(), "3".to_string());
        w.add_data("p".to_string(), &"one".to_string(), vec![5, 6].into_boxed_slice()).unwrap();
        w.add_data("q".to_string(), &"two".to_string(), vec![7].into_boxed_slice()).unwrap();
        w.add_data("r".to_string(), &"one".to_string(), vec![].into_boxed_slice()).unwrap();
        let bytes = w.write(ty, SPBFVersion::LAST_SUPPORTED).unwrap();
        let reader = SPBFReader::new(&bytes).unwrap();
        let r = reader.read().unwrap();
        let mut w2 = SPBFWriter::try_from(&r).unwrap();
        assert_eq!(w2.data_formats()[0].refs(), 2);
        assert_eq!(w2.data_formats()[1].refs(), 1);
        let bytes2 = w2.write(ty, SPBFVersion::LAST_SUPPORTED).unwrap();
        assert_eq!(bytes, bytes2);
        // The converted writer hands out the id after the largest one.
        w2.add_data("s".to_string(), &"three".to_string(), vec![].into_boxed_slice()).unwrap();
        assert_eq!(w2.data_formats()[2].data_id(), 0x102);
    }
}

#[test]
fn remove_undoes_add() {
    let mut w = small_writer();
    let formats_before: Vec<(u16, String, u32)> =
        w.data_formats().iter().map(|f| (f.data_id(), f.name().clone(), f.refs())).collect();
    w.add_data("e".to_string(), &"g".to_string(), vec![1].into_boxed_slice()).unwrap();
    assert_eq!(w.data_formats().len(), 2);
    assert!(w.remove_data(&"e".to_string()));
    let formats_after: Vec<(u16, String, u32)> =
        w.data_formats().iter().map(|f| (f.data_id(), f.name().clone(), f.refs())).collect();
    assert_eq!(formats_before, formats_after);
    assert_eq!(w.data().len(), 1);
    assert_eq!(w.data()[0].name(), "d");
}

#[test]
fn freed_id_goes_to_next_new_format() {
    let mut w = SPBFWriter::new("t".to_string(), "1".to_string());
    w.add_data("a".to_string(), &"fa".to_string(), vec![].into_boxed_slice()).unwrap();
    w.add_data("b".to_string(), &"fb".to_string(), vec![].into_boxed_slice()).unwrap();
    assert_eq!(w.data_formats()[0].data_id(), 0x100);
    assert_eq!(w.data_formats()[1].data_id(), 0x101);
    assert!(w.remove_data(&"a".to_string()));
    assert_eq!(w.data_formats().len(), 1);
    w.add_data("c".to_string(), &"fc".to_string(), vec![].into_boxed_slice()).unwrap();
    assert_eq!(w.data_formats()[1].name(), "fc");
    assert_eq!(w.data_formats()[1].data_id(), 0x100);
    w.add_data("d".to_string(), &"fd".to_string(), vec![].into_boxed_slice()).unwrap();
    assert_eq!(w.data_formats()[2].data_id(), 0x102);
}

#[test]
fn overwrite_keeps_the_old_reference() {
    let mut w = SPBFWriter::new("t".to_string(), "1".to_string());
    w.add_or_overwrite_data(&"a".to_string(), &"f1".to_string(), vec![1].into_boxed_slice()).unwrap();
    w.add_or_overwrite_data(&"a".to_string(), &"f2".to_string(), vec![2].into_boxed_slice()).unwrap();
    assert_eq!(w.data().len(), 1);
    assert_eq!(w.data()[0].data_id(), 0x101);
    assert_eq!(w.data_formats().len(), 2);
    assert_eq!(w.data_formats()[0].refs(), 1);
    assert_eq!(w.data_formats()[1].refs(), 1);
}

#[test]
fn add_data_unchecked_allows_a_repeated_name() {
    let mut w = SPBFWriter::new("t".to_string(), "1".to_string());
    w.add_data_unchecked("a".to_string(), &"f".to_string(), vec![1].into_boxed_slice());
    w.add_data_unchecked("a".to_string(), &"f".to_string(), vec![2].into_boxed_slice());
    assert_eq!(w.data().len(), 2);
    assert_eq!(w.data_formats().len(), 1);
    assert_eq!(w.data_formats()[0].refs(), 2);
    assert_eq!(w.data()[1].data(), &[2u8][..]);
}

#[test]
fn writer_refuses_unsupported_version() {
    let mut w = small_writer();
    for ty in ALL_TYPES {
        match w.write(ty, SPBFVersion::V0).unwrap_err() {
            SPBFWriterError::Write(SPBFWriterWriteError::UnsupportedVersion) => (),
            e => panic!("unexpected {:?}", e),
        }
        match w.write(ty, SPBFVersion::new(7)).unwrap_err() {
            SPBFWriterError::Write(SPBFWriterWriteError::UnsupportedVersion) => (),
            e => panic!("unexpected {:?}", e),
        }
    }
}

#[test]
fn aligned_writer_length_errors() {
    let long = "x".repeat(u16::MAX as usize);
    let mut w = SPBFWriter::new("n".to_string(), long.clone());
    assert!(matches!(
        write_err(&mut w, SPBFType::SmallAlignedBigEndian),
        SPBFWriterError::Write(SPBFWriterWriteError::InvalidBuildVersionLength)
    ));
    let mut w = SPBFWriter::new("n".to_string(), "v".to_string());
    w.add_data("d".to_string(), &long, vec![].into_boxed_slice()).unwrap();
    assert!(matches!(
        write_err(&mut w, SPBFType::SmallAlignedLittleEndian),
        SPBFWriterError::Write(SPBFWriterWriteError::InvalidDataFormatNameLength)
    ));
    let mut w = SPBFWriter::new("n".to_string(), "v".to_string());
    w.add_data(long.clone(), &"f".to_string(), vec![].into_boxed_slice()).unwrap();
    assert!(matches!(
        write_err(&mut w, SPBFType::SmallAlignedLittleEndian),
        SPBFWriterError::Write(SPBFWriterWriteError::InvalidDataNameLength)
    ));
    let mut w = SPBFWriter::new("n".to_string(), "v".to_string());
    w.add_data("d".to_string(), &"f".to_string(), vec![0; u16::MAX as usize].into_boxed_slice()).unwrap();
    for ty in ALL_TYPES {
        assert!(matches!(write_err(&mut w, ty), SPBFWriterError::Write(SPBFWriterWriteError::InvalidDataLength)));
    }
    // One byte less fits.
    let mut w = SPBFWriter::new("n".to_string(), "v".to_string());
    w.add_data("d".to_string(), &"f".to_string(), vec![0; u16::MAX as usize - 1].into_boxed_slice()).unwrap();
    for ty in ALL_TYPES {
        let bytes = w.write(ty, SPBFVersion::LAST_SUPPORTED).unwrap();
        let reader = SPBFReader::new(&bytes).unwrap();
        assert_eq!(reader.read().unwrap().data()[0].data().len(), u16::MAX as usize - 1);
    }
}

#[test]
fn unaligned_writer_refuses_zero_bytes_in_strings() {
    let ty = SPBFType::SmallUnalignedLittleEndian;
    let mut w = SPBFWriter::new("a\0b".to_string(), "v".to_string());
    assert!(matches!(write_err(&mut w, ty), SPBFWriterError::Write(SPBFWriterWriteError::InvalidNameString)));
    let mut w = SPBFWriter::new("n".to_string(), "\0".to_string());
    assert!(matches!(write_err(&mut w, ty), SPBFWriterError::Write(SPBFWriterWriteError::InvalidVersionString)));
    let mut w = SPBFWriter::new("n".to_string(), "v".to_string());
    w.add_data("d".to_string(), &"f\0".to_string(), vec![].into_boxed_slice()).unwrap();
    assert!(matches!(
        write_err(&mut w, SPBFType::SmallUnalignedBigEndian),
        SPBFWriterError::Write(SPBFWriterWriteError::InvalidDataFormatNameString)
    ));
    let mut w = SPBFWriter::new("n".to_string(), "v".to_string());
    w.add_data("\0d".to_string(), &"f".to_string(), vec![].into_boxed_slice()).unwrap();
    assert!(matches!(write_err(&mut w, ty), SPBFWriterError::Write(SPBFWriterWriteError::InvalidDataNameString)));
    // The aligned layouts store lengths, so a zero byte is fine there.
    let mut w = SPBFWriter::new("a\0b".to_string(), "v".to_string());
    let bytes = w.write(SPBFType::SmallAlignedLittleEndian, SPBFVersion::LAST_SUPPORTED).unwrap();
    let reader = SPBFReader::new(&bytes).unwrap();
    assert_eq!(reader.read().unwrap().build_name(), "a\0b");
}

fn aligned_file_with_format_id(id: u16) -> Vec<u8> {
    let mut bytes = small_writer().write(SPBFType::SmallAlignedLittleEndian, SPBFVersion::LAST_SUPPORTED).unwrap();
    // Format entry at 0x18: id at +6; data entry at 0x22: id at +6.
    bytes[0x1E..0x20].copy_from_slice(&id.to_le_bytes());
    bytes[0x28..0x2A].copy_from_slice(&id.to_le_bytes());
    bytes
}

#[test]
fn format_counter_overflow() {
    let bytes = aligned_file_with_format_id(u16::MAX);
    let reader = SPBFReader::new(&bytes).unwrap();
    let r = reader.read().unwrap();
    let mut w = SPBFWriter::try_from(&r).unwrap();
    // A format of that name exists: no new id needed.
    w.add_data("x".to_string(), &"f".to_string(), vec![].into_boxed_slice()).unwrap();
    let err = w.add_data("y".to_string(), &"new".to_string(), vec![].into_boxed_slice()).unwrap_err();
    assert!(matches!(err, SPBFWriterError::DataAdd(SPBFWriterDataAddError::FormatCounterOverflow)));
    assert_eq!(w.data().len(), 2);
    let err = w.add_or_overwrite_data(&"x".to_string(), &"new".to_string(), vec![].into_boxed_slice()).unwrap_err();
    assert!(matches!(err, SPBFWriterError::DataAdd(SPBFWriterDataAddError::FormatCounterOverflow)));
}

#[test]
fn reader_header_errors() {
    assert!(matches!(SPBFReader::new(b"").unwrap_err(), SPBFReaderError::InvalidFileLength));
    assert!(matches!(SPBFReader::new(b".SPBF\0\x02").unwrap_err(), SPBFReaderError::InvalidFileLength));
    assert!(matches!(
        SPBFReader::new(b".SPBF\x01\x02\x01").unwrap_err(),
        SPBFReaderError::Header(SPBFReaderHeaderReadError::InvalidMagic)
    ));
    assert!(matches!(
        SPBFReader::new(b".SPBF\0\x04\x01").unwrap_err(),
        SPBFReaderError::Header(SPBFReaderHeaderReadError::InvalidType)
    ));
    let r = SPBFReader::new(b".SPBF\0\x03\x00").unwrap();
    assert_eq!(r.file_type(), SPBFType::SmallAlignedBigEndian);
    assert_eq!(r.file_version(), SPBFVersion::V0);
    assert!(!r.is_read_supported());
    // A supported header on a file too short for its body.
    for ty in 0u8..4 {
        let bytes = [0x2E, 0x53, 0x50, 0x42, 0x46, 0x00, ty, 0x01, 0, 0];
        assert!(matches!(read_err(&bytes), SPBFReaderError::InvalidFileLength));
    }
}

#[test]
fn aligned_reader_header_string_errors() {
    let mut bytes = small_writer().write(SPBFType::SmallAlignedLittleEndian, SPBFVersion::LAST_SUPPORTED).unwrap();
    bytes[0x14] = 0xFF; // the build name is no longer UTF-8
    assert!(matches!(read_err(&bytes), SPBFReaderError::Header(SPBFReaderHeaderReadError::InvalidBuildNameString)));
    let mut bytes = small_writer().write(SPBFType::SmallAlignedLittleEndian, SPBFVersion::LAST_SUPPORTED).unwrap();
    bytes[0x16] = 0xC3; // a cut-off two-byte sequence in the version
    assert!(matches!(read_err(&bytes), SPBFReaderError::Header(SPBFReaderHeaderReadError::InvalidBuildNameString)));
    let mut bytes = small_writer().write(SPBFType::SmallAlignedLittleEndian, SPBFVersion::LAST_SUPPORTED).unwrap();
    bytes[0x12] = 0xFF; // the version claims more bytes than the file has
    bytes[0x13] = 0xFF;
    assert!(matches!(
        read_err(&bytes),
        SPBFReaderError::Header(SPBFReaderHeaderReadError::InvalidBuildVersionLength)
    ));
}

#[test]
fn aligned_reader_entry_errors() {
    let base = small_writer().write(SPBFType::SmallAlignedLittleEndian, SPBFVersion::LAST_SUPPORTED).unwrap();
    let mut bytes = base.clone();
    bytes[0x1C] = 0x40; // format name length far beyond the end
    assert!(matches!(read_err(&bytes), SPBFReaderError::DataFormat(SPBFReaderFormatReadError::InvalidNameLength)));
    let mut bytes = base.clone();
    bytes[0x20] = 0xFE; // format name not UTF-8
    assert!(matches!(read_err(&bytes), SPBFReaderError::DataFormat(SPBFReaderFormatReadError::InvalidNameString)));
    let mut bytes = base.clone();
    bytes[0x28] = 0x07; // data names a format id that no format has
    assert!(matches!(read_err(&bytes), SPBFReaderError::Data(SPBFReaderDataReadError::InvalidDataId)));
    let mut bytes = base.clone();
    bytes[0x2A] = 0x40; // data name length far beyond the end
    assert!(matches!(read_err(&bytes), SPBFReaderError::Data(SPBFReaderDataReadError::InvalidNameLength)));
    let mut bytes = base.clone();
    bytes[0x26] = 0x40; // data length far beyond the end
    assert!(matches!(read_err(&bytes), SPBFReaderError::Data(SPBFReaderDataReadError::InvalidDataLength)));
    let mut bytes = base.clone();
    bytes[0x2C] = 0x80; // data name not UTF-8
    assert!(matches!(read_err(&bytes), SPBFReaderError::Data(SPBFReaderDataReadError::InvalidNameString)));
    let mut bytes = base.clone();
    bytes[0xC] = 0x40; // first data entry beyond the end
    assert!(matches!(read_err(&bytes), SPBFReaderError::Data(SPBFReaderDataReadError::InvalidOffset)));
    let mut bytes = base.clone();
    bytes[0xC] = 46; // first data entry exactly at the end: no room for its fields
    assert!(matches!(read_err(&bytes), SPBFReaderError::InvalidFileLength));
}

#[test]
fn a_chain_that_runs_in_a_circle_is_refused() {
    let mut bytes = small_writer().write(SPBFType::SmallAlignedLittleEndian, SPBFVersion::LAST_SUPPORTED).unwrap();
    bytes[0x18..0x1C].copy_from_slice(&0x18u32.to_le_bytes()); // the format entry points at itself
    assert!(matches!(read_err(&bytes), SPBFReaderError::DataFormat(SPBFReaderFormatReadError::InvalidOffset)));
    let mut bytes = small_writer().write(SPBFType::SmallUnalignedLittleEndian, SPBFVersion::LAST_SUPPORTED).unwrap();
    bytes[0x1C..0x20].copy_from_slice(&0x1Cu32.to_le_bytes()); // the data entry points at itself
    assert!(matches!(read_err(&bytes), SPBFReaderError::Data(SPBFReaderDataReadError::InvalidOffset)));
}

#[test]
fn unaligned_reader_errors() {
    let base = small_writer().write(SPBFType::SmallUnalignedLittleEndian, SPBFVersion::LAST_SUPPORTED).unwrap();
    let bytes = &base[..0x11]; // the build name is not ended
    assert!(matches!(read_err(bytes), SPBFReaderError::Header(SPBFReaderHeaderReadError::InvalidBuildNameLength)));
    let bytes = &base[..0x13]; // the version is not ended
    assert!(matches!(
        read_err(bytes),
        SPBFReaderError::Header(SPBFReaderHeaderReadError::InvalidBuildVersionLength)
    ));
    let bytes = &base[..0x1B]; // the format name is not ended
    assert!(matches!(read_err(bytes), SPBFReaderError::DataFormat(SPBFReaderFormatReadError::InvalidNameString)));
    let mut bytes = base.clone();
    bytes[0x20] = 0x20; // data length beyond the end
    assert!(matches!(read_err(&bytes), SPBFReaderError::Data(SPBFReaderDataReadError::InvalidDataLength)));
    let mut bytes = base[..0x25].to_vec(); // the data name is not ended
    bytes[0x20] = 0;
    assert!(matches!(read_err(&bytes), SPBFReaderError::Data(SPBFReaderDataReadError::InvalidNameString)));
    let mut bytes = base.clone();
    bytes[0x25] = b'e'; // a longer name leaves too few bytes for the data
    bytes.push(0);
    assert!(matches!(read_err(&bytes), SPBFReaderError::Data(SPBFReaderDataReadError::InvalidDataLength)));
}

#[test]
fn unaligned_reader_decodes_lossily() {
    let mut bytes = small_writer().write(SPBFType::SmallUnalignedLittleEndian, SPBFVersion::LAST_SUPPORTED).unwrap();
    bytes[0x10] = 0xFF; // the build name is not UTF-8
    let reader = SPBFReader::new(&bytes).unwrap();
    let r = reader.read().unwrap();
    assert_eq!(r.build_name(), "\u{FFFD}");
    assert_eq!(r.build_version(), "v");
}

#[test]
fn helpers() {
    assert_eq!(align_len_small(0), 0);
    assert_eq!(align_len_small(5), 6);
    assert_eq!(align_len_small(6), 6);
    assert_eq!(bytes_align_small(b"abc"), 1);
    assert_eq!(bytes_align_small(b"ab"), 0);
    let s = "héllo".to_string();
    let (b, pad) = str_to_bytes_align_small(&s);
    assert_eq!(b, "héllo".as_bytes());
    assert_eq!(pad, 0);
    assert_eq!(str_to_bytes_unaligned_small("ab".to_string()).unwrap(), vec![b'a', b'b', 0]);
    assert!(str_to_bytes_unaligned_small("a\0b".to_string()).is_err());
    let err = SPBFWriterError::Write(SPBFWriterWriteError::InvalidOffset);
    assert!(matches!(usize_to_u32(u32::MAX as usize, err), Err(_)));
    assert_eq!(usize_to_u32(u32::MAX as usize - 1, err).unwrap(), u32::MAX - 1);
    assert!(matches!(usize_to_u16(u16::MAX as usize, err), Err(_)));
    assert_eq!(usize_to_u16(7, err).unwrap(), 7);
}

#[test]
fn type_and_version_bytes() {
    for (ty, b) in ALL_TYPES.iter().zip(0u8..) {
        assert_eq!(u8::from(*ty), b);
        assert_eq!(SPBFType::try_from(b), Ok(*ty));
    }
    assert_eq!(SPBFType::try_from(4u8), Err(()));
    assert_eq!(SPBFVersion::new(1), SPBFVersion::LAST_SUPPORTED);
    assert_eq!(SPBFVersion::new(0), SPBFVersion::V0);
    assert_eq!(SPBFVersion::new(200).as_raw(), 200);
    assert!(SPBFVersion::V1.is_supported());
    assert!(!SPBFVersion::V0.is_supported());
    assert!(!SPBFVersion::new(2).is_supported());
    let raw: u8 = SPBFVersion::new(9).into();
    assert_eq!(raw, 9);
}

/// An aligned file whose two formats carry the same id, each block using it.
fn aligned_file_with_repeated_format_id() -> Vec<u8> {
    let mut w = SPBFWriter::new("n".to_string(), "v".to_string());
    w.add_data("d1".to_string(), &"f".to_string(), vec![0xAB].into_boxed_slice()).unwrap();
    w.add_data("d2".to_string(), &"g".to_string(), vec![0xCD].into_boxed_slice()).unwrap();
    let mut bytes = w.write(SPBFType::SmallAlignedLittleEndian, SPBFVersion::LAST_SUPPORTED).unwrap();
    // Header 0x18 bytes, format entries at 0x18 and 0x22, data entries at 0x2C and 0x3A.
    assert_eq!(&bytes[0x1E..0x20], &[0x00, 0x01]);
    assert_eq!(&bytes[0x28..0x2A], &[0x01, 0x01]);
    assert_eq!(&bytes[0x40..0x42], &[0x01, 0x01]);
    bytes[0x28..0x2A].copy_from_slice(&[0x00, 0x01]);
    bytes[0x40..0x42].copy_from_slice(&[0x00, 0x01]);
    bytes
}

#[test]
fn writer_from_file_with_repeated_format_id_can_remove_every_block() {
    let bytes = aligned_file_with_repeated_format_id();
    let reader = SPBFReader::new(&bytes).unwrap();
    let r = reader.read().unwrap();
    assert_eq!(r.data_formats().len(), 2);
    assert_eq!(r.data_formats()[1].data_id(), 0x100);
    let mut w = SPBFWriter::try_from(&r).unwrap();
    assert_eq!(w.data_formats()[0].refs(), 2);
    assert_eq!(w.data_formats()[1].refs(), 0);
    assert!(w.can_remove(&"d1".to_string()));
    assert!(w.can_remove(&"d2".to_string()));
    assert!(w.can_remove(&"none".to_string()));
    assert!(w.remove_data(&"d1".to_string()));
    assert_eq!(w.data_formats()[0].refs(), 1);
    assert!(w.can_remove(&"d2".to_string()));
    assert!(w.remove_data(&"d2".to_string()));
    // The first format is gone; its twin, counting nothing, remains.
    assert_eq!(w.data_formats().len(), 1);
    assert_eq!(w.data_formats()[0].name(), "g");
    assert!(w.data().is_empty());
    assert!(!w.remove_data(&"d2".to_string()));
}

#[test]
fn removal_that_would_exhaust_a_count_is_detected() {
    let bytes = aligned_file_with_repeated_format_id();
    let reader = SPBFReader::new(&bytes).unwrap();
    let r = reader.read().unwrap();
    let mut w = SPBFWriter::try_from(&r).unwrap();
    assert!(w.remove_data(&"d1".to_string()));
    assert!(w.remove_data(&"d2".to_string()));
    // The freed id goes to the new format, behind the twin that counts nothing.
    w.add_data("y".to_string(), &"h".to_string(), vec![].into_boxed_slice()).unwrap();
    assert_eq!(w.data()[0].data_id(), 0x100);
    assert!(!w.can_remove(&"y".to_string()));
}

#[test]
fn version_errors_come_only_from_the_version() {
    for ty in ALL_TYPES {
        let mut w = small_writer();
        for v in [SPBFVersion::V0, SPBFVersion::new(0xFF)] {
            assert!(matches!(
                w.write(ty, v).unwrap_err(),
                SPBFWriterError::Write(SPBFWriterWriteError::UnsupportedVersion)
            ));
        }
        let mut bytes = w.write(ty, SPBFVersion::LAST_SUPPORTED).unwrap();
        bytes[7] = 0;
        let reader = SPBFReader::new(&bytes).unwrap();
        assert!(!reader.is_read_supported());
        assert!(matches!(
            reader.read().unwrap_err(),
            SPBFReaderError::Header(SPBFReaderHeaderReadError::UnsupportedVersion)
        ));
        bytes[7] = 1;
        let reader = SPBFReader::new(&bytes).unwrap();
        let r = reader.read().unwrap();
        assert_eq!(r.file_type(), ty);
        assert_eq!(r.file_version(), SPBFVersion::LAST_SUPPORTED);
    }
}

#[test]
fn add_data_refuses_only_repeated_names_and_exhausted_ids() {
    let mut w = small_writer();
    let err = w.add_data("d".to_string(), &"other".to_string(), vec![1].into_boxed_slice()).unwrap_err();
    assert!(matches!(err, SPBFWriterError::DataAdd(SPBFWriterDataAddError::DataAlreadyDefined)));
    assert_eq!(w.data().len(), 1);
    assert_eq!(w.data_formats().len(), 1);
    assert_eq!(w.data_formats()[0].refs(), 1);
    w.add_data("e".to_string(), &"other".to_string(), vec![1].into_boxed_slice()).unwrap();
    assert_eq!(w.data_formats()[1].data_id(), 0x101);
}

#[test]
fn writer_name_fields_hold_what_was_given_or_read() {
    let w = SPBFWriter::new("build".to_string(), "1.0".to_string());
    assert_eq!(w.build_name, "build");
    assert_eq!(w.build_version, "1.0");
    let mut w = small_writer();
    let bytes = w.write(SPBFType::SmallUnalignedBigEndian, SPBFVersion::LAST_SUPPORTED).unwrap();
    let reader = SPBFReader::new(&bytes).unwrap();
    let r = reader.read().unwrap();
    let w2 = SPBFWriter::try_from(&r).unwrap();
    assert_eq!(w2.build_name, "n");
    assert_eq!(w2.build_version, "v");
}

#[test]
fn aligned_writer_reports_the_first_failing_check() {
    let long = "x".repeat(u16::MAX as usize);
    // Both strings too long: the build name is checked first.
    let mut w = SPBFWriter::new(long.clone(), long.clone());
    assert!(matches!(
        write_err(&mut w, SPBFType::SmallAlignedLittleEndian),
        SPBFWriterError::Write(SPBFWriterWriteError::InvalidNameLength)
    ));
    // A data block with both its bytes and its name too long: the bytes first.
    let mut w = SPBFWriter::new("n".to_string(), "v".to_string());
    w.add_data(long.clone(), &"f".to_string(), vec![0; u16::MAX as usize].into_boxed_slice()).unwrap();
    assert!(matches!(
        write_err(&mut w, SPBFType::SmallAlignedBigEndian),
        SPBFWriterError::Write(SPBFWriterWriteError::InvalidDataLength)
    ));
    // A long format name is reported before any data entry is looked at.
    w.add_data("d2".to_string(), &long, vec![].into_boxed_slice()).unwrap();
    assert!(matches!(
        write_err(&mut w, SPBFType::SmallAlignedBigEndian),
        SPBFWriterError::Write(SPBFWriterWriteError::InvalidDataFormatNameLength)
    ));
}

#[test]
fn data_blocks_to_write_can_be_cloned() {
    let w = small_writer();
    let d = w.data()[0].clone();
    assert_eq!(d.name(), "d");
    assert_eq!(d.data(), &[0xAB]);
    assert_eq!(d.data_id(), w.data()[0].data_id());
}
