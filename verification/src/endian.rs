//! Fixed-width unsigned integers as they are laid out in an SPBF file, in
//! either byte order.
use vstd::prelude::*;

verus! {

/// The two bytes of `v`, most significant first when `big`.
pub open spec fn u16_bytes(v: u16, big: bool) -> Seq<u8> {
    let lo = (v % 256) as u8;
    let hi = (v / 256) as u8;
    if big {
        seq![hi, lo]
    } else {
        seq![lo, hi]
    }
}

/// The four bytes of `v`, most significant first when `big`.
pub open spec fn u32_bytes(v: u32, big: bool) -> Seq<u8> {
    let b0 = (v % 256) as u8;
    let b1 = ((v / 256) % 256) as u8;
    let b2 = ((v / 65536) % 256) as u8;
    let b3 = (v / 16777216) as u8;
    if big {
        seq![b3, b2, b1, b0]
    } else {
        seq![b0, b1, b2, b3]
    }
}

/// The 16-bit integer whose bytes start at index `at` of `s`.
pub open spec fn u16_at(s: Seq<u8>, at: int, big: bool) -> u16 {
    if big {
        (s[at] * 256 + s[at + 1]) as u16
    } else {
        (s[at + 1] * 256 + s[at]) as u16
    }
}

/// The 32-bit integer whose bytes start at index `at` of `s`.
pub open spec fn u32_at(s: Seq<u8>, at: int, big: bool) -> u32 {
    if big {
        (s[at] * 16777216 + s[at + 1] * 65536 + s[at + 2] * 256 + s[at + 3]) as u32
    } else {
        (s[at + 3] * 16777216 + s[at + 2] * 65536 + s[at + 1] * 256 + s[at]) as u32
    }
}

/// Reading back the bytes of a 16-bit integer gives the integer.
pub proof fn lemma_u16_roundtrip(s: Seq<u8>, at: int, v: u16, big: bool)
    requires
        0 <= at,
        at + 2 <= s.len(),
        s.subrange(at, at + 2) == u16_bytes(v, big),
    ensures
        u16_at(s, at, big) == v,
{
    assert(s[at] == s.subrange(at, at + 2)[0]);
    assert(s[at + 1] == s.subrange(at, at + 2)[1]);
}

/// Reading back the bytes of a 32-bit integer gives the integer.
pub proof fn lemma_u32_roundtrip(s: Seq<u8>, at: int, v: u32, big: bool)
    requires
        0 <= at,
        at + 4 <= s.len(),
        s.subrange(at, at + 4) == u32_bytes(v, big),
    ensures
        u32_at(s, at, big) == v,
{
    assert(s[at] == s.subrange(at, at + 4)[0]);
    assert(s[at + 1] == s.subrange(at, at + 4)[1]);
    assert(s[at + 2] == s.subrange(at, at + 4)[2]);
    assert(s[at + 3] == s.subrange(at, at + 4)[3]);
}

/// The 16-bit integer stored at `at`.
pub fn read_u16(s: &[u8], at: usize, big: bool) -> (r: u16)
    requires
        at + 2 <= s.len(),
    ensures
        r == u16_at(s@, at as int, big),
{
    let (hi, lo) = if big {
        (s[at], s[at + 1])
    } else {
        (s[at + 1], s[at])
    };
    (hi as u16) * 256 + (lo as u16)
}

/// The 32-bit integer stored at `at`.
pub fn read_u32(s: &[u8], at: usize, big: bool) -> (r: u32)
    requires
        at + 4 <= s.len(),
    ensures
        r == u32_at(s@, at as int, big),
{
    let (b3, b2, b1, b0) = if big {
        (s[at], s[at + 1], s[at + 2], s[at + 3])
    } else {
        (s[at + 3], s[at + 2], s[at + 1], s[at])
    };
    (b3 as u32) * 16777216 + (b2 as u32) * 65536 + (b1 as u32) * 256 + (b0 as u32)
}

/// Appends the bytes of `v`.
pub fn push_u16(out: &mut Vec<u8>, v: u16, big: bool)
    ensures
        final(out)@ == old(out)@ + u16_bytes(v, big),
{
    let lo = (v % 256) as u8;
    let hi = (v / 256) as u8;
    if big {
        out.push(hi);
        out.push(lo);
    } else {
        out.push(lo);
        out.push(hi);
    }
    assert(final(out)@ =~= old(out)@ + u16_bytes(v, big));
}

/// Appends the bytes of `v`.
pub fn push_u32(out: &mut Vec<u8>, v: u32, big: bool)
    ensures
        final(out)@ == old(out)@ + u32_bytes(v, big),
{
    let b0 = (v % 256) as u8;
    let b1 = ((v / 256) % 256) as u8;
    let b2 = ((v / 65536) % 256) as u8;
    let b3 = (v / 16777216) as u8;
    if big {
        out.push(b3);
        out.push(b2);
        out.push(b1);
        out.push(b0);
    } else {
        out.push(b0);
        out.push(b1);
        out.push(b2);
        out.push(b3);
    }
    assert(final(out)@ =~= old(out)@ + u32_bytes(v, big));
}

/// The bytes written for a 16-bit integer: low byte first unless `big`,
/// so that the bytes weighted by their place give the integer back.
pub proof fn law_u16_bytes_value(v: u16, big: bool)
    ensures
        u16_bytes(v, big).len() == 2,
        !big ==> u16_bytes(v, big)[0] + 256 * u16_bytes(v, big)[1] == v,
        big ==> u16_bytes(v, big)[1] + 256 * u16_bytes(v, big)[0] == v,
{
}

/// The bytes written for a 32-bit integer: least significant first unless
/// `big`, most significant first when `big`; weighted by their place they
/// give the integer back.
pub proof fn law_u32_bytes_value(v: u32, big: bool)
    ensures
        u32_bytes(v, big).len() == 4,
        !big ==> u32_bytes(v, big)[0] + 256 * u32_bytes(v, big)[1] + 65536 * u32_bytes(v, big)[2] + 16777216
            * u32_bytes(v, big)[3] == v,
        big ==> u32_bytes(v, big)[3] + 256 * u32_bytes(v, big)[2] + 65536 * u32_bytes(v, big)[1] + 16777216
            * u32_bytes(v, big)[0] == v,
{
}

/// The 16-bit field read at `at`: the byte at `at` is the high byte when
/// `big`, the low byte otherwise.
pub proof fn law_u16_at_value(s: Seq<u8>, at: int, big: bool)
    requires
        0 <= at,
        at + 2 <= s.len(),
    ensures
        big ==> u16_at(s, at, big) == s[at] * 256 + s[at + 1],
        !big ==> u16_at(s, at, big) == s[at + 1] * 256 + s[at],
{
}

/// The 32-bit field read at `at`: the bytes from `at` on are taken most
/// significant first when `big`, least significant first otherwise.
pub proof fn law_u32_at_value(s: Seq<u8>, at: int, big: bool)
    requires
        0 <= at,
        at + 4 <= s.len(),
    ensures
        big ==> u32_at(s, at, big) == s[at] * 16777216 + s[at + 1] * 65536 + s[at + 2] * 256 + s[at + 3],
        !big ==> u32_at(s, at, big) == s[at + 3] * 16777216 + s[at + 2] * 65536 + s[at + 1] * 256 + s[at],
{
}

} // verus!
