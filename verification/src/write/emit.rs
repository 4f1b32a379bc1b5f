//! Appending the pieces of a file to an output buffer.
use vstd::prelude::*;
use crate::write::SPBFWriterError;

verus! {

/// `r`, with `prefix` put in front of the bytes it holds when it is `Ok`.
pub open spec fn prefix_ok(prefix: Seq<u8>, r: Result<Seq<u8>, SPBFWriterError>) -> Result<
    Seq<u8>,
    SPBFWriterError,
> {
    match r {
        Ok(s) => Ok(prefix + s),
        Err(e) => Err(e),
    }
}

/// Putting two prefixes in front in turn is putting their concatenation.
pub proof fn lemma_prefix_step(a: Seq<u8>, b: Seq<u8>, r: Result<Seq<u8>, SPBFWriterError>)
    ensures
        prefix_ok(a, prefix_ok(b, r)) == prefix_ok(a + b, r),
{
    if let Ok(s) = r {
        assert(a + (b + s) =~= (a + b) + s);
    }
}

/// Appends the bytes of a slice.
pub fn push_bytes(out: &mut Vec<u8>, bytes: &[u8])
    ensures
        final(out)@ == old(out)@ + bytes@,
{
    let mut v = vstd::slice::slice_to_vec(bytes);
    out.append(&mut v);
}

/// Appends the zero byte that pads `len` bytes to an even length, if any.
pub fn push_padding(out: &mut Vec<u8>, len: usize)
    ensures
        final(out)@ == old(out)@ + crate::raw::padding(len as int),
{
    if len % 2 == 1 {
        out.push(0u8);
        assert(final(out)@ =~= old(out)@ + crate::raw::padding(len as int));
    } else {
        assert(final(out)@ =~= old(out)@ + crate::raw::padding(len as int));
    }
}

/// Appends the magic bytes, the type byte and the version byte.
pub fn push_fixed_header(out: &mut Vec<u8>, type_byte: u8)
    ensures
        final(out)@ == old(out)@ + crate::read::raw::magic() + seq![type_byte, 1u8],
{
    out.push(0x2Eu8);
    out.push(0x53u8);
    out.push(0x50u8);
    out.push(0x42u8);
    out.push(0x46u8);
    out.push(0x00u8);
    out.push(type_byte);
    out.push(1u8);
    assert(final(out)@ =~= old(out)@ + crate::read::raw::magic() + seq![type_byte, 1u8]);
}

} // verus!
