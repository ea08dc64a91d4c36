//! Framing of the store header file.
//!
//! Layout: `MAGIC || dict_len (u64, little-endian) || dict || digest`, where
//! the digest is BLAKE2b-512 over everything before it.
use crate::bytes_util::{append_bytes, bytes_equal};
use blake2::Digest;
use vstd::bytes::*;
use vstd::prelude::*;
use vstd::slice::slice_subrange;

verus! {

/// Bytes in the magic marker.
pub const MAGIC_LEN: usize = 6;

/// Bytes in the header digest.
pub const DIGEST_LEN: usize = 64;

/// The magic marker that opens a store header: `IHOP1` and a zero byte.
pub open spec fn store_magic() -> Seq<u8> {
    seq![73u8, 72u8, 79u8, 80u8, 49u8, 0u8]
}

/// The BLAKE2b-512 digest of `data`.
pub uninterp spec fn blake2b_of(data: Seq<u8>) -> Seq<u8>;

/// Relies on blake2's `Blake2b512::digest`: the 64-byte BLAKE2b digest of the data.
#[verifier::external_body]
pub(crate) fn blake2b512(data: &[u8]) -> (r: Vec<u8>)
    ensures
        r@ == blake2b_of(data@),
        r@.len() == DIGEST_LEN,
{
    blake2::Blake2b512::digest(data).to_vec()
}

/// The 64 digest bytes of `data`, as stored in a header.
pub open spec fn digest64(data: Seq<u8>) -> Seq<u8> {
    Seq::new(64, |i: int| blake2b_of(data)[i])
}

#[derive(PartialEq, Eq, Structural, Debug, Clone, Copy)]
pub enum HeaderError {
    /// The file does not start with the store magic.
    BadMagic,
    /// The file ends before the declared dictionary and digest.
    Truncated,
    /// The stored digest differs from the digest of the bytes read.
    ChecksumMismatch,
}

/// The digested part of a header: magic, length and dictionary.
pub open spec fn framed(dict: Seq<u8>) -> Seq<u8> {
    store_magic() + spec_u64_to_le_bytes(dict.len() as u64) + dict
}

/// The whole header file for a dictionary.
pub open spec fn header_spec(dict: Seq<u8>) -> Seq<u8> {
    framed(dict) + digest64(framed(dict))
}

/// What reading a header file yields: its dictionary bytes, or the error.
pub open spec fn parse_header_spec(s: Seq<u8>) -> Result<Seq<u8>, HeaderError> {
    if s.len() < MAGIC_LEN || s.subrange(0, 6) != store_magic() {
        Err(HeaderError::BadMagic)
    } else if s.len() < 14 {
        Err(HeaderError::Truncated)
    } else {
        let n = spec_u64_from_le_bytes(s.subrange(6, 14)) as int;
        if s.len() < 14 + n + 64 {
            Err(HeaderError::Truncated)
        } else if s.subrange(14 + n, 14 + n + 64) != digest64(s.subrange(0, 14 + n)) {
            Err(HeaderError::ChecksumMismatch)
        } else {
            Ok(s.subrange(14, 14 + n))
        }
    }
}

/// The store magic as bytes.
pub fn store_magic_bytes() -> (r: Vec<u8>)
    ensures
        r@ == store_magic(),
{
    let r: Vec<u8> = vec![73u8, 72u8, 79u8, 80u8, 49u8, 0u8];
    assert(r@ =~= store_magic());
    r
}

/// Whether `prefix` starts with the store magic; a file that does is read
/// as a store header, any other as a plain file.
pub fn is_store_header(prefix: &[u8]) -> (r: bool)
    ensures
        r == (prefix@.len() >= MAGIC_LEN && prefix@.subrange(0, 6) == store_magic()),
{
    if prefix.len() < MAGIC_LEN {
        return false;
    }
    let magic = store_magic_bytes();
    bytes_equal(slice_subrange(prefix, 0, MAGIC_LEN), magic.as_slice())
}

/// Frames an encoded store dictionary as a header file.
pub fn build_store_header(dictionary: &[u8]) -> (r: Vec<u8>)
    ensures
        r@ == header_spec(dictionary@),
{
    let mut header = store_magic_bytes();
    let len = u64_to_le_bytes(dictionary.len() as u64);
    append_bytes(&mut header, len.as_slice());
    append_bytes(&mut header, dictionary);
    assert(header@ =~= framed(dictionary@));
    let digest = blake2b512(header.as_slice());
    assert(digest@ =~= digest64(header@));
    append_bytes(&mut header, digest.as_slice());
    header
}

/// Reads a header file and returns its dictionary bytes once the digest
/// has been checked. Bytes after the digest are not read.
pub fn parse_store_header(file: &[u8]) -> (r: Result<Vec<u8>, HeaderError>)
    ensures
        match r {
            Ok(d) => parse_header_spec(file@) == Ok::<Seq<u8>, HeaderError>(d@),
            Err(e) => parse_header_spec(file@) == Err::<Seq<u8>, HeaderError>(e),
        },
{
    if !is_store_header(file) {
        return Err(HeaderError::BadMagic);
    }
    let total = file.len();
    if total < 14 {
        return Err(HeaderError::Truncated);
    }
    let n = u64_from_le_bytes(slice_subrange(file, 6, 14));
    if (total as u64) < 78 || n > (total as u64) - 78 {
        return Err(HeaderError::Truncated);
    }
    let n = n as usize;
    let dict_end = 14 + n;
    let digest = blake2b512(slice_subrange(file, 0, dict_end));
    assert(digest@ =~= digest64(file@.subrange(0, dict_end as int)));
    if !bytes_equal(slice_subrange(file, dict_end, dict_end + 64), digest.as_slice()) {
        return Err(HeaderError::ChecksumMismatch);
    }
    let mut d: Vec<u8> = Vec::new();
    append_bytes(&mut d, slice_subrange(file, 14, dict_end));
    Ok(d)
}

/// Reading back a framed dictionary yields the same dictionary bytes.
pub proof fn lemma_header_round_trip(dict: Seq<u8>)
    requires
        dict.len() <= u64::MAX,
    ensures
        parse_header_spec(header_spec(dict)) == Ok::<Seq<u8>, HeaderError>(dict),
{
    lemma_auto_spec_u64_to_from_le_bytes();
    let h = header_spec(dict);
    let n = dict.len() as int;
    let le = spec_u64_to_le_bytes(dict.len() as u64);
    assert(h.subrange(0, 6) =~= store_magic());
    assert(h.subrange(6, 14) =~= le);
    assert(h.subrange(0, 14 + n) =~= framed(dict));
    assert(h.subrange(14 + n, 14 + n + 64) =~= digest64(framed(dict)));
    assert(h.subrange(14, 14 + n) =~= dict);
}

/// Changing one byte of the dictionary section of a header leaves its
/// stored digest as it was, so the file is read back only when the digest of
/// the changed bytes equals that of the unchanged ones; otherwise reading it
/// fails with a checksum mismatch.
pub proof fn lemma_header_byte_flip(dict: Seq<u8>, i: int, b: u8)
    requires
        dict.len() <= u64::MAX,
        0 <= i < dict.len(),
        dict[i] != b,
    ensures
        parse_header_spec(header_spec(dict).update(14 + i, b)) == if digest64(framed(dict.update(i, b))) == digest64(
            framed(dict),
        ) {
            Ok::<Seq<u8>, HeaderError>(dict.update(i, b))
        } else {
            Err::<Seq<u8>, HeaderError>(HeaderError::ChecksumMismatch)
        },
{
    lemma_auto_spec_u64_to_from_le_bytes();
    let d2 = dict.update(i, b);
    let h = header_spec(dict).update(14 + i, b);
    let n = dict.len() as int;
    let le = spec_u64_to_le_bytes(dict.len() as u64);
    assert(h.subrange(0, 6) =~= store_magic());
    assert(h.subrange(6, 14) =~= le);
    assert(h.subrange(0, 14 + n) =~= framed(d2));
    assert(h.subrange(14 + n, 14 + n + 64) =~= digest64(framed(dict)));
    assert(h.subrange(14, 14 + n) =~= d2);
}

} // verus!
