//! When writing is refused: the version check comes first and gives the
//! only version error; the layouts refuse only for a length or an offset
//! that does not fit its field, or a string that cannot be ended by a zero
//! byte.
use vstd::prelude::*;
use crate::raw::aligned_len;
use crate::text::text_bytes;
use crate::write::aligned::{aligned_data_entries, aligned_file, aligned_format_entries, aligned_header_len};
use crate::write::unaligned::{unaligned_data_entries, unaligned_file, unaligned_format_entries};
use crate::write::{
    file_for, write_file, DataEntry, FormatEntry, SPBFWriterError, SPBFWriterWriteError, WriterView,
};
use crate::{SPBFType, SPBFVersion};

verus! {

/// An error of a layout: a write error other than the version error.
pub open spec fn is_layout_error(e: SPBFWriterError) -> bool {
    e matches SPBFWriterError::Write(x) && x != SPBFWriterWriteError::UnsupportedVersion
}

proof fn lemma_aligned_formats_errors(fs: Seq<FormatEntry>, start: int, big: bool)
    ensures
        aligned_format_entries(fs, start, big) matches Err(e) ==> is_layout_error(e),
    decreases fs.len(),
{
    if fs.len() > 0 {
        let len = 8 + aligned_len(text_bytes(fs[0].name).len() as int);
        lemma_aligned_formats_errors(fs.drop_first(), start + len, big);
    }
}

proof fn lemma_aligned_data_errors(ds: Seq<DataEntry>, start: int, big: bool)
    ensures
        aligned_data_entries(ds, start, big) matches Err(e) ==> is_layout_error(e),
    decreases ds.len(),
{
    if ds.len() > 0 {
        let len = 0xA + aligned_len(text_bytes(ds[0].name).len() as int) + aligned_len(ds[0].bytes.len() as int);
        lemma_aligned_data_errors(ds.drop_first(), start + len, big);
    }
}

proof fn lemma_unaligned_formats_errors(fs: Seq<FormatEntry>, start: int, big: bool)
    ensures
        unaligned_format_entries(fs, start, big) matches Err(e) ==> is_layout_error(e),
    decreases fs.len(),
{
    if fs.len() > 0 {
        let len = 6 + text_bytes(fs[0].name).len() + 1;
        lemma_unaligned_formats_errors(fs.drop_first(), start + len, big);
    }
}

proof fn lemma_unaligned_data_errors(ds: Seq<DataEntry>, start: int, big: bool)
    ensures
        unaligned_data_entries(ds, start, big) matches Err(e) ==> is_layout_error(e),
    decreases ds.len(),
{
    if ds.len() > 0 {
        let len = 8 + text_bytes(ds[0].name).len() + 1 + ds[0].bytes.len();
        lemma_unaligned_data_errors(ds.drop_first(), start + len, big);
    }
}

/// Every layout refuses only with a layout error.
pub proof fn lemma_file_errors(w: WriterView, t: SPBFType)
    ensures
        file_for(w, t) matches Err(e) ==> is_layout_error(e),
{
    let big = t == SPBFType::SmallUnalignedBigEndian || t == SPBFType::SmallAlignedBigEndian;
    let ah = aligned_header_len(w);
    let uh = crate::write::unaligned::unaligned_header_len(w);
    lemma_aligned_formats_errors(w.formats, ah, big);
    lemma_unaligned_formats_errors(w.formats, uh, big);
    if let Ok(fb) = aligned_format_entries(w.formats, ah, big) {
        lemma_aligned_data_errors(w.data, ah + fb.len(), big);
    }
    if let Ok(fb) = unaligned_format_entries(w.formats, uh, big) {
        lemma_unaligned_data_errors(w.data, uh + fb.len(), big);
    }
}

/// Writing refuses with the version error exactly when the version is not
/// the supported one, whatever the writer holds; with the supported version
/// any refusal is a layout error.
pub proof fn law_write_refuses_version_exactly_when_unsupported(w: WriterView, t: SPBFType, v: SPBFVersion)
    ensures
        (write_file(w, t, v) == Err::<Seq<u8>, SPBFWriterError>(
            SPBFWriterError::Write(SPBFWriterWriteError::UnsupportedVersion),
        )) <==> !v.spec_is_supported(),
        v.spec_is_supported() ==> (write_file(w, t, v) matches Err(e) ==> is_layout_error(e)),
{
    lemma_file_errors(w, t);
}

/// The space one format entry of an aligned file takes.
pub open spec fn aligned_format_size(f: FormatEntry) -> int {
    8 + aligned_len(text_bytes(f.name).len() as int)
}

/// The space one data entry of an aligned file takes.
pub open spec fn aligned_data_size(d: DataEntry) -> int {
    0xA + aligned_len(text_bytes(d.name).len() as int) + aligned_len(d.bytes.len() as int)
}

/// The space the format entries of an aligned file take.
pub open spec fn aligned_formats_size(fs: Seq<FormatEntry>) -> int
    decreases fs.len(),
{
    if fs.len() == 0 {
        0
    } else {
        aligned_format_size(fs[0]) + aligned_formats_size(fs.drop_first())
    }
}

/// The space the data entries of an aligned file take.
pub open spec fn aligned_data_sizes(ds: Seq<DataEntry>) -> int
    decreases ds.len(),
{
    if ds.len() == 0 {
        0
    } else {
        aligned_data_size(ds[0]) + aligned_data_sizes(ds.drop_first())
    }
}

/// Each format name fits its 16-bit length field, and each format entry,
/// the first at `start`, begins below `u32::MAX`.
pub open spec fn aligned_formats_fit(fs: Seq<FormatEntry>, start: int) -> bool {
    forall|k: int|
        0 <= k < fs.len() ==> text_bytes(#[trigger] fs[k].name).len() < u16::MAX && start + aligned_formats_size(
            fs.take(k),
        ) < u32::MAX
}

/// Each data name and each block of bytes fits its 16-bit length field,
/// and each data entry, the first at `start`, begins below `u32::MAX`.
pub open spec fn aligned_data_fit(ds: Seq<DataEntry>, start: int) -> bool {
    forall|k: int|
        0 <= k < ds.len() ==> text_bytes(#[trigger] ds[k].name).len() < u16::MAX && ds[k].bytes.len() < u16::MAX
            && start + aligned_data_sizes(ds.take(k)) < u32::MAX
}

proof fn lemma_formats_size_take(fs: Seq<FormatEntry>, k: int)
    requires
        1 <= k <= fs.len(),
    ensures
        aligned_formats_size(fs.take(k)) == aligned_format_size(fs[0]) + aligned_formats_size(
            fs.drop_first().take(k - 1),
        ),
{
    assert(fs.take(k).drop_first() =~= fs.drop_first().take(k - 1));
    assert(fs.take(k)[0] == fs[0]);
}

proof fn lemma_data_sizes_take(ds: Seq<DataEntry>, k: int)
    requires
        1 <= k <= ds.len(),
    ensures
        aligned_data_sizes(ds.take(k)) == aligned_data_size(ds[0]) + aligned_data_sizes(ds.drop_first().take(k - 1)),
{
    assert(ds.take(k).drop_first() =~= ds.drop_first().take(k - 1));
    assert(ds.take(k)[0] == ds[0]);
}

/// The format entries are laid out exactly when they fit, and then take
/// their size.
#[verifier::spinoff_prover]
#[verifier::rlimit(40)]
pub proof fn lemma_aligned_formats_fit(fs: Seq<FormatEntry>, start: int, big: bool)
    ensures
        aligned_format_entries(fs, start, big) is Ok <==> aligned_formats_fit(fs, start),
        aligned_format_entries(fs, start, big) matches Ok(b) ==> b.len() == aligned_formats_size(fs),
    decreases fs.len(),
{
    if fs.len() > 0 {
        let f0 = fs[0];
        let len = aligned_format_size(f0);
        let rest = fs.drop_first();
        lemma_aligned_formats_fit(rest, start + len, big);
        assert(fs.take(0) =~= Seq::<FormatEntry>::empty());
        if aligned_formats_fit(fs, start) {
            assert forall|k: int| 0 <= k < rest.len() implies text_bytes(#[trigger] rest[k].name).len() < u16::MAX
                && start + len + aligned_formats_size(rest.take(k)) < u32::MAX by {
                assert(rest[k] == fs[k + 1]);
                lemma_formats_size_take(fs, k + 1);
                assert(text_bytes(fs[k + 1].name).len() < u16::MAX);
            }
            assert(text_bytes(fs[0].name).len() < u16::MAX);
        }
        if aligned_format_entries(fs, start, big) is Ok {
            assert forall|k: int| 0 <= k < fs.len() implies text_bytes(#[trigger] fs[k].name).len() < u16::MAX
                && start + aligned_formats_size(fs.take(k)) < u32::MAX by {
                if k > 0 {
                    assert(rest[k - 1] == fs[k]);
                    lemma_formats_size_take(fs, k);
                    assert(text_bytes(rest[k - 1].name).len() < u16::MAX);
                }
            }
        }
        let nb = text_bytes(f0.name);
        if let Ok(b) = aligned_format_entries(fs, start, big) {
            assert(nb.len() < u16::MAX);
            let next: int = if fs.len() == 1 { 0 } else { start + len };
            let e = crate::write::aligned::aligned_format_entry(next as u32, nb, f0.data_id, big);
            assert(crate::raw::padding(nb.len() as int).len() == nb.len() % 2);
            assert(e.len() == len);
        }
    }
}

/// The data entries are laid out exactly when they fit.
#[verifier::spinoff_prover]
#[verifier::rlimit(40)]
pub proof fn lemma_aligned_data_fit(ds: Seq<DataEntry>, start: int, big: bool)
    ensures
        aligned_data_entries(ds, start, big) is Ok <==> aligned_data_fit(ds, start),
    decreases ds.len(),
{
    if ds.len() > 0 {
        let len = aligned_data_size(ds[0]);
        let rest = ds.drop_first();
        lemma_aligned_data_fit(rest, start + len, big);
        assert(ds.take(0) =~= Seq::<DataEntry>::empty());
        if aligned_data_fit(ds, start) {
            assert forall|k: int| 0 <= k < rest.len() implies text_bytes(#[trigger] rest[k].name).len() < u16::MAX
                && rest[k].bytes.len() < u16::MAX && start + len + aligned_data_sizes(rest.take(k)) < u32::MAX by {
                assert(rest[k] == ds[k + 1]);
                lemma_data_sizes_take(ds, k + 1);
                assert(text_bytes(ds[k + 1].name).len() < u16::MAX);
            }
            assert(text_bytes(ds[0].name).len() < u16::MAX);
        }
        if aligned_data_entries(ds, start, big) is Ok {
            assert forall|k: int| 0 <= k < ds.len() implies text_bytes(#[trigger] ds[k].name).len() < u16::MAX
                && ds[k].bytes.len() < u16::MAX && start + aligned_data_sizes(ds.take(k)) < u32::MAX by {
                if k > 0 {
                    assert(rest[k - 1] == ds[k]);
                    lemma_data_sizes_take(ds, k);
                    assert(text_bytes(rest[k - 1].name).len() < u16::MAX);
                }
            }
        }
    }
}

/// An aligned file is refused exactly when a length does not fit its
/// 16-bit field or an entry would begin at or beyond `u32::MAX`. The build
/// name is checked first, then the version, then the format entries in
/// order and then the data entries in order; within an entry the offset
/// comes first, and in a data entry the bytes' length before the name's.
pub proof fn law_aligned_file_fits(w: WriterView, type_byte: u8, big: bool)
    ensures
        ({
            let nb = text_bytes(w.build_name);
            let vb = text_bytes(w.build_version);
            let hlen = aligned_header_len(w);
            &&& aligned_file(w, type_byte, big) is Ok <==> nb.len() < u16::MAX && vb.len() < u16::MAX
                && aligned_formats_fit(w.formats, hlen) && aligned_data_fit(
                w.data,
                hlen + aligned_formats_size(w.formats),
            )
            &&& nb.len() >= u16::MAX ==> aligned_file(w, type_byte, big) == Err::<Seq<u8>, SPBFWriterError>(
                SPBFWriterError::Write(SPBFWriterWriteError::InvalidNameLength),
            )
            &&& nb.len() < u16::MAX && vb.len() >= u16::MAX ==> aligned_file(w, type_byte, big) == Err::<
                Seq<u8>,
                SPBFWriterError,
            >(SPBFWriterError::Write(SPBFWriterWriteError::InvalidBuildVersionLength))
            &&& aligned_file(w, type_byte, big) matches Err(e) ==> is_layout_error(e)
        }),
{
    let hlen = aligned_header_len(w);
    lemma_aligned_formats_fit(w.formats, hlen, big);
    lemma_aligned_formats_errors(w.formats, hlen, big);
    lemma_aligned_data_fit(w.data, hlen + aligned_formats_size(w.formats), big);
    if let Ok(fb) = aligned_format_entries(w.formats, hlen, big) {
        lemma_aligned_data_errors(w.data, hlen + fb.len(), big);
    }
}

/// The check that refuses a format entry beginning at `off`, if any: the
/// offset first, then the name's length.
pub open spec fn aligned_format_check(f: FormatEntry, off: int) -> Option<SPBFWriterError> {
    if off >= u32::MAX {
        Some(SPBFWriterError::Write(SPBFWriterWriteError::InvalidOffset))
    } else if text_bytes(f.name).len() >= u16::MAX {
        Some(SPBFWriterError::Write(SPBFWriterWriteError::InvalidDataFormatNameLength))
    } else {
        None
    }
}

/// The check that refuses a data entry beginning at `off`, if any: the
/// offset first, then the bytes' length, then the name's length.
pub open spec fn aligned_data_check(d: DataEntry, off: int) -> Option<SPBFWriterError> {
    if off >= u32::MAX {
        Some(SPBFWriterError::Write(SPBFWriterWriteError::InvalidOffset))
    } else if d.bytes.len() >= u16::MAX {
        Some(SPBFWriterError::Write(SPBFWriterWriteError::InvalidDataLength))
    } else if text_bytes(d.name).len() >= u16::MAX {
        Some(SPBFWriterError::Write(SPBFWriterWriteError::InvalidDataNameLength))
    } else {
        None
    }
}

/// The format entry at index `k` is the first to fail, with error `e`.
pub open spec fn aligned_format_fails_first(fs: Seq<FormatEntry>, start: int, k: int, e: SPBFWriterError) -> bool {
    &&& 0 <= k < fs.len()
    &&& forall|m: int| 0 <= m < k ==> aligned_format_check(#[trigger] fs[m], start + aligned_formats_size(fs.take(m))) is None
    &&& aligned_format_check(fs[k], start + aligned_formats_size(fs.take(k))) == Some(e)
}

/// The data entry at index `k` is the first to fail, with error `e`.
pub open spec fn aligned_data_fails_first(ds: Seq<DataEntry>, start: int, k: int, e: SPBFWriterError) -> bool {
    &&& 0 <= k < ds.len()
    &&& forall|m: int| 0 <= m < k ==> aligned_data_check(#[trigger] ds[m], start + aligned_data_sizes(ds.take(m))) is None
    &&& aligned_data_check(ds[k], start + aligned_data_sizes(ds.take(k))) == Some(e)
}

/// The format entries are refused with the error of the first entry that
/// fails its checks.
pub proof fn lemma_aligned_formats_first_error(fs: Seq<FormatEntry>, start: int, big: bool)
    ensures
        aligned_format_entries(fs, start, big) matches Err(e) ==> exists|k: int| #[trigger] aligned_format_fails_first(fs, start, k, e),
    decreases fs.len(),
{
    if fs.len() > 0 {
        let len = aligned_format_size(fs[0]);
        let rest = fs.drop_first();
        let s2 = start + len;
        lemma_aligned_formats_first_error(rest, s2, big);
        assert(fs.take(0) =~= Seq::<FormatEntry>::empty());
        if let Err(e) = aligned_format_entries(fs, start, big) {
            if aligned_format_check(fs[0], start) is Some {
                assert(aligned_format_fails_first(fs, start, 0, e));
            } else {
                let k = choose|k: int| #[trigger] aligned_format_fails_first(rest, s2, k, e);
                assert forall|m: int| 0 <= m < k + 1 implies aligned_format_check(
                    #[trigger] fs[m],
                    start + aligned_formats_size(fs.take(m)),
                ) is None by {
                    if m > 0 {
                        assert(rest[m - 1] == fs[m]);
                        lemma_formats_size_take(fs, m);
                    }
                }
                assert(rest[k] == fs[k + 1]);
                lemma_formats_size_take(fs, k + 1);
                assert(aligned_format_fails_first(fs, start, k + 1, e));
            }
        }
    }
}

/// The data entries are refused with the error of the first entry that
/// fails its checks.
pub proof fn lemma_aligned_data_first_error(ds: Seq<DataEntry>, start: int, big: bool)
    ensures
        aligned_data_entries(ds, start, big) matches Err(e) ==> exists|k: int| #[trigger] aligned_data_fails_first(ds, start, k, e),
    decreases ds.len(),
{
    if ds.len() > 0 {
        let len = aligned_data_size(ds[0]);
        let rest = ds.drop_first();
        let s2 = start + len;
        lemma_aligned_data_first_error(rest, s2, big);
        assert(ds.take(0) =~= Seq::<DataEntry>::empty());
        if let Err(e) = aligned_data_entries(ds, start, big) {
            if aligned_data_check(ds[0], start) is Some {
                assert(aligned_data_fails_first(ds, start, 0, e));
            } else {
                let k = choose|k: int| #[trigger] aligned_data_fails_first(rest, s2, k, e);
                assert forall|m: int| 0 <= m < k + 1 implies aligned_data_check(
                    #[trigger] ds[m],
                    start + aligned_data_sizes(ds.take(m)),
                ) is None by {
                    if m > 0 {
                        assert(rest[m - 1] == ds[m]);
                        lemma_data_sizes_take(ds, m);
                    }
                }
                assert(rest[k] == ds[k + 1]);
                lemma_data_sizes_take(ds, k + 1);
                assert(aligned_data_fails_first(ds, start, k + 1, e));
            }
        }
    }
}

/// An aligned file is refused with the first check that fails in writing
/// order: the build name's length, the build version's length, then each
/// format entry in turn (its offset, its name's length), then each data
/// entry in turn (its offset, its bytes' length, its name's length).
pub proof fn law_aligned_file_first_error(w: WriterView, type_byte: u8, big: bool)
    ensures
        ({
            let nb = text_bytes(w.build_name);
            let vb = text_bytes(w.build_version);
            let hlen = aligned_header_len(w);
            let dstart = hlen + aligned_formats_size(w.formats);
            aligned_file(w, type_byte, big) matches Err(e) ==> {
                ||| nb.len() >= u16::MAX && e == SPBFWriterError::Write(SPBFWriterWriteError::InvalidNameLength)
                ||| nb.len() < u16::MAX && vb.len() >= u16::MAX && e == SPBFWriterError::Write(
                    SPBFWriterWriteError::InvalidBuildVersionLength,
                )
                ||| nb.len() < u16::MAX && vb.len() < u16::MAX && exists|k: int|
                    #[trigger] aligned_format_fails_first(w.formats, hlen, k, e)
                ||| nb.len() < u16::MAX && vb.len() < u16::MAX && aligned_formats_fit(w.formats, hlen)
                    && exists|k: int| #[trigger] aligned_data_fails_first(w.data, dstart, k, e)
            }
        }),
{
    let hlen = aligned_header_len(w);
    lemma_aligned_formats_fit(w.formats, hlen, big);
    lemma_aligned_formats_first_error(w.formats, hlen, big);
    lemma_aligned_data_first_error(w.data, hlen + aligned_formats_size(w.formats), big);
}

/// The space one format entry of an unaligned file takes.
pub open spec fn unaligned_format_size(f: FormatEntry) -> int {
    7 + text_bytes(f.name).len() as int
}

/// The space one data entry of an unaligned file takes.
pub open spec fn unaligned_data_size(d: DataEntry) -> int {
    9 + text_bytes(d.name).len() as int + d.bytes.len() as int
}

/// The space the format entries of an unaligned file take.
pub open spec fn unaligned_formats_size(fs: Seq<FormatEntry>) -> int
    decreases fs.len(),
{
    if fs.len() == 0 {
        0
    } else {
        unaligned_format_size(fs[0]) + unaligned_formats_size(fs.drop_first())
    }
}

/// The space the data entries of an unaligned file take.
pub open spec fn unaligned_data_sizes(ds: Seq<DataEntry>) -> int
    decreases ds.len(),
{
    if ds.len() == 0 {
        0
    } else {
        unaligned_data_size(ds[0]) + unaligned_data_sizes(ds.drop_first())
    }
}

/// No format name holds a zero byte, and each format entry, the first at
/// `start`, begins below `u32::MAX`.
pub open spec fn unaligned_formats_fit(fs: Seq<FormatEntry>, start: int) -> bool {
    forall|k: int|
        0 <= k < fs.len() ==> !crate::text::has_nul(text_bytes(#[trigger] fs[k].name)) && start
            + unaligned_formats_size(fs.take(k)) < u32::MAX
}

/// No data name holds a zero byte, each block of bytes fits its 16-bit
/// length field, and each data entry, the first at `start`, begins below
/// `u32::MAX`.
pub open spec fn unaligned_data_fit(ds: Seq<DataEntry>, start: int) -> bool {
    forall|k: int|
        0 <= k < ds.len() ==> !crate::text::has_nul(text_bytes(#[trigger] ds[k].name)) && ds[k].bytes.len()
            < u16::MAX && start + unaligned_data_sizes(ds.take(k)) < u32::MAX
}

proof fn lemma_unaligned_formats_size_take(fs: Seq<FormatEntry>, k: int)
    requires
        1 <= k <= fs.len(),
    ensures
        unaligned_formats_size(fs.take(k)) == unaligned_format_size(fs[0]) + unaligned_formats_size(
            fs.drop_first().take(k - 1),
        ),
{
    assert(fs.take(k).drop_first() =~= fs.drop_first().take(k - 1));
    assert(fs.take(k)[0] == fs[0]);
}

proof fn lemma_unaligned_data_sizes_take(ds: Seq<DataEntry>, k: int)
    requires
        1 <= k <= ds.len(),
    ensures
        unaligned_data_sizes(ds.take(k)) == unaligned_data_size(ds[0]) + unaligned_data_sizes(
            ds.drop_first().take(k - 1),
        ),
{
    assert(ds.take(k).drop_first() =~= ds.drop_first().take(k - 1));
    assert(ds.take(k)[0] == ds[0]);
}

/// The unaligned format entries are laid out exactly when they fit, and
/// then take their size.
#[verifier::spinoff_prover]
#[verifier::rlimit(40)]
pub proof fn lemma_unaligned_formats_fit(fs: Seq<FormatEntry>, start: int, big: bool)
    ensures
        unaligned_format_entries(fs, start, big) is Ok <==> unaligned_formats_fit(fs, start),
        unaligned_format_entries(fs, start, big) matches Ok(b) ==> b.len() == unaligned_formats_size(fs),
    decreases fs.len(),
{
    if fs.len() > 0 {
        let f0 = fs[0];
        let len = unaligned_format_size(f0);
        let rest = fs.drop_first();
        lemma_unaligned_formats_fit(rest, start + len, big);
        assert(fs.take(0) =~= Seq::<FormatEntry>::empty());
        if unaligned_formats_fit(fs, start) {
            assert forall|k: int| 0 <= k < rest.len() implies !crate::text::has_nul(text_bytes(#[trigger] rest[k].name))
                && start + len + unaligned_formats_size(rest.take(k)) < u32::MAX by {
                assert(rest[k] == fs[k + 1]);
                lemma_unaligned_formats_size_take(fs, k + 1);
                assert(!crate::text::has_nul(text_bytes(fs[k + 1].name)));
            }
            assert(!crate::text::has_nul(text_bytes(fs[0].name)));
        }
        if unaligned_format_entries(fs, start, big) is Ok {
            assert forall|k: int| 0 <= k < fs.len() implies !crate::text::has_nul(text_bytes(#[trigger] fs[k].name))
                && start + unaligned_formats_size(fs.take(k)) < u32::MAX by {
                if k > 0 {
                    assert(rest[k - 1] == fs[k]);
                    lemma_unaligned_formats_size_take(fs, k);
                    assert(!crate::text::has_nul(text_bytes(rest[k - 1].name)));
                }
            }
        }
        let nb = text_bytes(f0.name);
        if let Ok(b) = unaligned_format_entries(fs, start, big) {
            let next: int = if fs.len() == 1 { 0 } else { start + len };
            let e = crate::write::unaligned::unaligned_format_entry(next as u32, nb, f0.data_id, big);
            assert(e.len() == len);
        }
    }
}

/// The unaligned data entries are laid out exactly when they fit.
#[verifier::spinoff_prover]
#[verifier::rlimit(40)]
pub proof fn lemma_unaligned_data_fit(ds: Seq<DataEntry>, start: int, big: bool)
    ensures
        unaligned_data_entries(ds, start, big) is Ok <==> unaligned_data_fit(ds, start),
    decreases ds.len(),
{
    if ds.len() > 0 {
        let len = unaligned_data_size(ds[0]);
        let rest = ds.drop_first();
        assert(len == 8 + text_bytes(ds[0].name).len() + 1 + ds[0].bytes.len());
        lemma_unaligned_data_fit(rest, start + len, big);
        assert(ds.take(0) =~= Seq::<DataEntry>::empty());
        if unaligned_data_fit(ds, start) {
            assert forall|k: int| 0 <= k < rest.len() implies !crate::text::has_nul(text_bytes(#[trigger] rest[k].name))
                && rest[k].bytes.len() < u16::MAX && start + len + unaligned_data_sizes(rest.take(k)) < u32::MAX by {
                assert(rest[k] == ds[k + 1]);
                lemma_unaligned_data_sizes_take(ds, k + 1);
                assert(!crate::text::has_nul(text_bytes(ds[k + 1].name)));
            }
            assert(!crate::text::has_nul(text_bytes(ds[0].name)));
        }
        if unaligned_data_entries(ds, start, big) is Ok {
            assert forall|k: int| 0 <= k < ds.len() implies !crate::text::has_nul(text_bytes(#[trigger] ds[k].name))
                && ds[k].bytes.len() < u16::MAX && start + unaligned_data_sizes(ds.take(k)) < u32::MAX by {
                if k > 0 {
                    assert(rest[k - 1] == ds[k]);
                    lemma_unaligned_data_sizes_take(ds, k);
                    assert(!crate::text::has_nul(text_bytes(rest[k - 1].name)));
                }
            }
        }
    }
}

/// An unaligned file is refused exactly when the build name, the build
/// version, a format name or a data name holds a zero byte, a block of
/// bytes does not fit its 16-bit length field, or an entry would begin at
/// or beyond `u32::MAX`. A zero byte in the build name is reported first,
/// then one in the version.
pub proof fn law_unaligned_file_fits(w: WriterView, type_byte: u8, big: bool)
    ensures
        ({
            let nb = text_bytes(w.build_name);
            let vb = text_bytes(w.build_version);
            let hlen = crate::write::unaligned::unaligned_header_len(w);
            &&& unaligned_file(w, type_byte, big) is Ok <==> !crate::text::has_nul(nb) && !crate::text::has_nul(vb)
                && unaligned_formats_fit(w.formats, hlen) && unaligned_data_fit(
                w.data,
                hlen + unaligned_formats_size(w.formats),
            )
            &&& crate::text::has_nul(nb) ==> unaligned_file(w, type_byte, big) == Err::<Seq<u8>, SPBFWriterError>(
                SPBFWriterError::Write(SPBFWriterWriteError::InvalidNameString),
            )
            &&& !crate::text::has_nul(nb) && crate::text::has_nul(vb) ==> unaligned_file(w, type_byte, big) == Err::<
                Seq<u8>,
                SPBFWriterError,
            >(SPBFWriterError::Write(SPBFWriterWriteError::InvalidVersionString))
            &&& hlen == 0x12 + nb.len() + vb.len()
        }),
{
    let hlen = crate::write::unaligned::unaligned_header_len(w);
    lemma_unaligned_formats_fit(w.formats, hlen, big);
    lemma_unaligned_data_fit(w.data, hlen + unaligned_formats_size(w.formats), big);
}

} // verus!
