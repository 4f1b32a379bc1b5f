//! Text as it is stored in an SPBF file: the UTF-8 bytes of a `String`,
//! and the decoding of bytes back into text.
use vstd::prelude::*;
use vstd::utf8::{decode_utf8, encode_utf8, valid_utf8};

verus! {

/// What `String::from_utf8_lossy` makes of bytes that are not valid UTF-8
/// (each maximal invalid sequence replaced by U+FFFD).
pub uninterp spec fn utf8_lossy(bytes: Seq<u8>) -> Seq<char>;

/// The text that lossy decoding gives for `bytes`: the decoded characters
/// when the bytes are valid UTF-8.
pub open spec fn lossy_text(bytes: Seq<u8>) -> Seq<char> {
    if valid_utf8(bytes) {
        decode_utf8(bytes)
    } else {
        utf8_lossy(bytes)
    }
}

/// Strict decoding: the text of `bytes`, or nothing when they are not UTF-8.
pub open spec fn strict_text(bytes: Seq<u8>) -> Option<Seq<char>> {
    if valid_utf8(bytes) {
        Some(decode_utf8(bytes))
    } else {
        None
    }
}

/// The bytes that stand for the text `s` in a file.
pub open spec fn text_bytes(s: Seq<char>) -> Seq<u8> {
    encode_utf8(s)
}

/// Calls `String::from_utf8`: it accepts exactly the valid UTF-8 byte
/// sequences and then holds the characters they encode.
#[verifier::external_body]
fn string_from_utf8(bytes: Vec<u8>) -> (r: Option<String>)
    ensures
        r is Some <==> valid_utf8(bytes@),
        r matches Some(s) ==> s@ == decode_utf8(bytes@),
{
    String::from_utf8(bytes).ok()
}

/// Calls `String::from_utf8_lossy` and takes the owned string: on valid
/// UTF-8 the result holds exactly the encoded characters; on other input it
/// is `utf8_lossy` of the bytes.
#[verifier::external_body]
fn string_from_utf8_lossy(bytes: &[u8]) -> (r: String)
    ensures
        valid_utf8(bytes@) ==> r@ == decode_utf8(bytes@),
        !valid_utf8(bytes@) ==> r@ == utf8_lossy(bytes@),
{
    String::from_utf8_lossy(bytes).into_owned()
}

/// The text of the bytes `s[start..end]`, or `None` when they are not UTF-8.
pub fn decode_strict(s: &[u8], start: usize, end: usize) -> (r: Option<String>)
    requires
        start <= end <= s@.len(),
    ensures
        r is Some <==> strict_text(s@.subrange(start as int, end as int)) is Some,
        r matches Some(t) ==> Some(t@) == strict_text(s@.subrange(start as int, end as int)),
{
    let part = vstd::slice::slice_subrange(s, start, end);
    let owned = vstd::slice::slice_to_vec(part);
    string_from_utf8(owned)
}

/// The lossily decoded text of the bytes `s[start..end]`.
pub fn decode_lossy(s: &[u8], start: usize, end: usize) -> (r: String)
    requires
        start <= end <= s@.len(),
    ensures
        r@ == lossy_text(s@.subrange(start as int, end as int)),
{
    let part = vstd::slice::slice_subrange(s, start, end);
    string_from_utf8_lossy(part)
}

/// The bytes of a string.
pub fn string_bytes(s: &String) -> (r: &[u8])
    ensures
        r@ == text_bytes(s@),
{
    s.as_str().as_bytes()
}

/// Encoded text decodes back to itself, strictly and lossily.
pub proof fn lemma_text_roundtrip(s: Seq<char>)
    ensures
        strict_text(text_bytes(s)) == Some(s),
        lossy_text(text_bytes(s)) == s,
{
    vstd::utf8::encode_utf8_valid_utf8(s);
    vstd::utf8::encode_utf8_decode_utf8(s);
}

/// The first index at or after `from` that holds a zero byte.
pub open spec fn find_nul(s: Seq<u8>, from: int) -> Option<int>
    decreases s.len() - from,
{
    if from < 0 || from >= s.len() {
        None
    } else if s[from] == 0 {
        Some(from)
    } else {
        find_nul(s, from + 1)
    }
}

/// `find_nul` finds the first zero and nothing before it.
pub proof fn lemma_find_nul(s: Seq<u8>, from: int)
    requires
        0 <= from,
    ensures
        find_nul(s, from) matches Some(j) ==> from <= j < s.len() && s[j] == 0 && forall|k: int|
            from <= k < j ==> s[k] != 0,
        find_nul(s, from) is None ==> forall|k: int| from <= k < s.len() ==> s[k] != 0,
    decreases s.len() - from,
{
    if from < s.len() && s[from] != 0 {
        lemma_find_nul(s, from + 1);
    }
}

/// A zero at `j` with none from `from` up to it is what `find_nul` finds.
pub proof fn lemma_find_nul_at(s: Seq<u8>, from: int, j: int)
    requires
        0 <= from <= j < s.len(),
        s[j] == 0,
        forall|k: int| from <= k < j ==> s[k] != 0,
    ensures
        find_nul(s, from) == Some(j),
    decreases j - from,
{
    if from < j {
        lemma_find_nul_at(s, from + 1, j);
    }
}

/// The position of the first zero byte in `s` at or after `from`.
pub fn scan_nul(s: &[u8], from: usize) -> (r: Option<usize>)
    ensures
        match r {
            Some(j) => find_nul(s@, from as int) == Some(j as int),
            None => find_nul(s@, from as int) is None,
        },
{
    let mut i = from;
    while i < s.len()
        invariant
            from <= i,
            forall|k: int| from <= k < i ==> s@[k] != 0,
        decreases s.len() - i,
    {
        if s[i] == 0 {
            proof {
                lemma_find_nul_at(s@, from as int, i as int);
            }
            return Some(i);
        }
        i = i + 1;
    }
    proof {
        lemma_find_nul(s@, from as int);
        if let Some(j) = find_nul(s@, from as int) {
            assert(s@[j] != 0);
        }
    }
    None
}

/// Whether `s` holds a zero byte.
pub open spec fn has_nul(s: Seq<u8>) -> bool {
    exists|k: int| 0 <= k < s.len() && s[k] == 0
}

/// Whether the slice holds a zero byte.
pub fn contains_nul(s: &[u8]) -> (r: bool)
    ensures
        r == has_nul(s@),
{
    match scan_nul(s, 0) {
        Some(j) => {
            proof {
                lemma_find_nul(s@, 0);
            }
            true
        },
        None => {
            proof {
                lemma_find_nul(s@, 0);
            }
            false
        },
    }
}

} // verus!
