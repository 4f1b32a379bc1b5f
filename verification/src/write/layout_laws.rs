//! What the header of a written file holds, stated by byte position and
//! independently of the reader.
use vstd::prelude::*;
use crate::endian::{u16_at, u32_at};
use crate::raw::aligned_len;
use crate::text::text_bytes;
use crate::write::aligned::{aligned_data_entries, aligned_file, aligned_format_entries, aligned_header};
use crate::write::limits::{aligned_formats_size, lemma_aligned_formats_fit, lemma_unaligned_formats_fit, unaligned_formats_size};
use crate::write::unaligned::{unaligned_data_entries, unaligned_file, unaligned_format_entries, unaligned_header};
use crate::write::WriterView;

verus! {

/// The header of an aligned file: the bytes `.SPBF` and a zero, the type
/// byte, the version byte 1, the offset of the first format entry (zero
/// when there is none; otherwise right after the header), the offset of the
/// first data entry (zero when there is none; otherwise right after the
/// format entries), the lengths of the build name and version, and the two
/// strings from offset 0x14 on, each padded to an even length.
pub proof fn law_aligned_header_layout(w: WriterView, type_byte: u8, big: bool)
    requires
        aligned_file(w, type_byte, big) is Ok,
    ensures
        ({
            let b = aligned_file(w, type_byte, big)->Ok_0;
            let nb = text_bytes(w.build_name);
            let vb = text_bytes(w.build_version);
            let hlen = 0x14 + aligned_len(nb.len() as int) + aligned_len(vb.len() as int);
            &&& b.subrange(0, 6) == seq![0x2Eu8, 0x53u8, 0x50u8, 0x42u8, 0x46u8, 0x00u8]
            &&& b[6] == type_byte
            &&& b[7] == 1
            &&& u32_at(b, 8, big) == if w.formats.len() == 0 {
                0
            } else {
                hlen
            }
            &&& u32_at(b, 12, big) == if w.data.len() == 0 {
                0
            } else {
                hlen + aligned_formats_size(w.formats)
            }
            &&& u16_at(b, 16, big) == nb.len()
            &&& u16_at(b, 18, big) == vb.len()
            &&& b.subrange(0x14, 0x14 + nb.len() as int) == nb
            &&& b.subrange(0x14 + aligned_len(nb.len() as int), 0x14 + aligned_len(nb.len() as int) + vb.len())
                == vb
        }),
{
    let b = aligned_file(w, type_byte, big)->Ok_0;
    let nb = text_bytes(w.build_name);
    let vb = text_bytes(w.build_version);
    let hlen = crate::write::aligned::aligned_header_len(w);
    lemma_aligned_formats_fit(w.formats, hlen, big);
    let fb = aligned_format_entries(w.formats, hlen, big)->Ok_0;
    let dstart = hlen + fb.len();
    let db = aligned_data_entries(w.data, dstart, big)->Ok_0;
    let fe: int = if w.formats.len() == 0 {
        0
    } else {
        hlen
    };
    let de: int = if w.data.len() == 0 {
        0
    } else {
        dstart
    };
    let h = aligned_header(type_byte, fe as u32, de as u32, nb, vb, big);
    assert(b == h + fb + db);
    assert(b.subrange(0, h.len() as int) =~= h);
    crate::roundtrip::lemma_aligned_header_fields(b, type_byte, fe as u32, de as u32, nb, vb, big);
    crate::write::aligned::lemma_aligned_format_entries_end(w.formats, hlen, big);
}

/// The header of an unaligned file: the bytes `.SPBF` and a zero, the type
/// byte, the version byte 1, the offset of the first format entry (zero
/// when there is none; otherwise right after the header), the offset of the
/// first data entry (zero when there is none; otherwise right after the
/// format entries), then from offset 0x10 the build name and the build
/// version, each followed by a zero byte.
pub proof fn law_unaligned_header_layout(w: WriterView, type_byte: u8, big: bool)
    requires
        unaligned_file(w, type_byte, big) is Ok,
    ensures
        ({
            let b = unaligned_file(w, type_byte, big)->Ok_0;
            let nb = text_bytes(w.build_name);
            let vb = text_bytes(w.build_version);
            let hlen = 0x12 + nb.len() + vb.len();
            &&& b.subrange(0, 6) == seq![0x2Eu8, 0x53u8, 0x50u8, 0x42u8, 0x46u8, 0x00u8]
            &&& b[6] == type_byte
            &&& b[7] == 1
            &&& u32_at(b, 8, big) == if w.formats.len() == 0 {
                0
            } else {
                hlen
            }
            &&& u32_at(b, 12, big) == if w.data.len() == 0 {
                0
            } else {
                hlen + unaligned_formats_size(w.formats)
            }
            &&& b.subrange(0x10, 0x10 + nb.len() as int) == nb
            &&& b[0x10 + nb.len() as int] == 0
            &&& b.subrange(0x11 + nb.len() as int, 0x11 + nb.len() as int + vb.len() as int) == vb
            &&& b[0x11 + nb.len() as int + vb.len() as int] == 0
        }),
{
    let b = unaligned_file(w, type_byte, big)->Ok_0;
    let nb = text_bytes(w.build_name);
    let vb = text_bytes(w.build_version);
    let hlen = crate::write::unaligned::unaligned_header_len(w);
    lemma_unaligned_formats_fit(w.formats, hlen, big);
    let fb = unaligned_format_entries(w.formats, hlen, big)->Ok_0;
    let dstart = hlen + fb.len();
    let db = unaligned_data_entries(w.data, dstart, big)->Ok_0;
    let fe: int = if w.formats.len() == 0 {
        0
    } else {
        hlen
    };
    let de: int = if w.data.len() == 0 {
        0
    } else {
        dstart
    };
    let h = unaligned_header(type_byte, fe as u32, de as u32, nb, vb, big);
    assert(b == h + fb + db);
    assert(b.subrange(0, h.len() as int) =~= h);
    crate::roundtrip::lemma_unaligned_header_fields(b, type_byte, fe as u32, de as u32, nb, vb, big);
    crate::text::lemma_find_nul(b, 0x10);
    crate::text::lemma_find_nul(b, 0x10 + nb.len() as int + 1);
}

} // verus!
