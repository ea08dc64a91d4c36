//! Chunk identity, store layout and the rules that decide which chunks of an
//! archive still have to be fetched.
use crate::header::{blake2b512, blake2b_of};
use vstd::prelude::*;
use vstd::slice::slice_subrange;

verus! {

/// Bytes of a chunk's hash that name its subdirectory.
pub const SUBDIR_BYTES: usize = 2;

/// What the store holds for one chunk of an archive.
#[derive(Debug, Clone)]
pub struct ChunkDescriptor {
    pub checksum: Vec<u8>,
    pub source_size: u64,
}

/// What was found at a chunk's path in the store.
#[derive(Debug, Clone)]
pub enum ChunkProbe {
    /// No file could be opened there.
    Absent,
    /// A file is there; its bytes were not read.
    Present,
    /// A file is there but reading it failed.
    Unreadable,
    /// A file is there with these bytes.
    Contents(Vec<u8>),
}

/// The lowercase hexadecimal digit for a value below 16, as ASCII.
pub open spec fn hex_digit(n: u8) -> u8 {
    if n < 10 {
        (48 + n) as u8
    } else {
        (87 + n) as u8
    }
}

/// Two lowercase hexadecimal digits per byte, as ASCII.
pub open spec fn hex_of(s: Seq<u8>) -> Seq<u8>
    decreases s.len(),
{
    if s.len() == 0 {
        Seq::empty()
    } else {
        hex_of(s.drop_last()) + seq![hex_digit(s.last() / 16), hex_digit(s.last() % 16)]
    }
}

/// The characters of an ASCII byte sequence.
pub open spec fn ascii_chars(s: Seq<u8>) -> Seq<char> {
    Seq::new(s.len(), |i: int| s[i] as char)
}

/// `chunks/<hex of the first two hash bytes>/<hex of the hash>.chunk`, as ASCII.
pub open spec fn chunk_path_bytes(hash: Seq<u8>) -> Seq<u8> {
    seq![99u8, 104u8, 117u8, 110u8, 107u8, 115u8, 47u8] + hex_of(hash.subrange(0, 2)) + seq![47u8]
        + hex_of(hash) + seq![46u8, 99u8, 104u8, 117u8, 110u8, 107u8]
}

/// Relies on `String::from_utf8`: bytes below 128 are valid UTF-8, one
/// character per byte.
#[verifier::external_body]
pub(crate) fn ascii_to_string(bytes: Vec<u8>) -> (r: Option<String>)
    ensures
        (forall|i: int| 0 <= i < bytes@.len() ==> bytes@[i] < 128) ==> r is Some,
        (forall|i: int| 0 <= i < bytes@.len() ==> bytes@[i] < 128) ==> r->Some_0@ == ascii_chars(bytes@),
{
    String::from_utf8(bytes).ok()
}

fn push_hex(out: &mut Vec<u8>, b: &[u8])
    ensures
        final(out)@ == old(out)@ + hex_of(b@),
{
    let ghost start = out@;
    let mut i: usize = 0;
    while i < b.len()
        invariant
            0 <= i <= b@.len(),
            out@ == start + hex_of(b@.subrange(0, i as int)),
        decreases b@.len() - i,
    {
        let hi = b[i] / 16;
        let lo = b[i] % 16;
        out.push(if hi < 10 { 48 + hi } else { 87 + hi });
        out.push(if lo < 10 { 48 + lo } else { 87 + lo });
        proof {
            let p = b@.subrange(0, i + 1);
            assert(p.drop_last() =~= b@.subrange(0, i as int));
        }
        i = i + 1;
        assert(out@ =~= start + hex_of(b@.subrange(0, i as int)));
    }
    assert(b@.subrange(0, b@.len() as int) =~= b@);
}

proof fn lemma_hex_ascii(s: Seq<u8>)
    ensures
        forall|i: int| 0 <= i < hex_of(s).len() ==> #[trigger] hex_of(s)[i] < 128,
        hex_of(s).len() == 2 * s.len(),
    decreases s.len(),
{
    if s.len() > 0 {
        lemma_hex_ascii(s.drop_last());
        let p = hex_of(s.drop_last());
        assert forall|i: int| 0 <= i < hex_of(s).len() implies #[trigger] hex_of(s)[i] < 128 by {
            if i >= p.len() {
            } else {
                assert(hex_of(s)[i] == p[i]);
            }
        }
    }
}

/// The store-relative path of the chunk with this hash.
pub fn chunk_path_from_hash(hash: &[u8]) -> (r: String)
    requires
        hash@.len() >= SUBDIR_BYTES,
    ensures
        r@ == ascii_chars(chunk_path_bytes(hash@)),
{
    let mut out: Vec<u8> = vec![99u8, 104u8, 117u8, 110u8, 107u8, 115u8, 47u8];
    push_hex(&mut out, slice_subrange(hash, 0, SUBDIR_BYTES));
    out.push(47u8);
    push_hex(&mut out, hash);
    out.push(46u8);
    out.push(99u8);
    out.push(104u8);
    out.push(117u8);
    out.push(110u8);
    out.push(107u8);
    assert(out@ =~= chunk_path_bytes(hash@));
    proof {
        lemma_hex_ascii(hash@.subrange(0, 2));
        lemma_hex_ascii(hash@);
        let a = hash@.subrange(0, 2);
        assert forall|i: int| 0 <= i < out@.len() implies out@[i] < 128 by {
            if 7 <= i < 7 + hex_of(a).len() {
                assert(out@[i] == hex_of(a)[i - 7]);
            } else if 8 + hex_of(a).len() <= i < 8 + hex_of(a).len() + hex_of(hash@).len() {
                assert(out@[i] == hex_of(hash@)[i - 8 - hex_of(a).len()]);
            }
        }
    }
    match ascii_to_string(out) {
        Some(s) => s,
        None => String::new(),
    }
}

/// The bytes hash to `hash`: the BLAKE2b digest, cut to the hash's length,
/// equals it.
pub open spec fn digest_matches(contents: Seq<u8>, hash: Seq<u8>) -> bool {
    hash.len() <= 64 && blake2b_of(contents).subrange(0, hash.len() as int) == hash
}

/// A chunk counts as present in the store: its file is there and, when
/// verifying, its bytes hash to its checksum.
pub open spec fn chunk_valid(hash: Seq<u8>, probe: ChunkProbe, verify: bool) -> bool {
    match probe {
        ChunkProbe::Absent => false,
        ChunkProbe::Contents(c) => !verify || digest_matches(c@, hash),
        _ => !verify,
    }
}

/// Whether the chunk found by `probe` can be kept as it is.
pub fn exists_and_valid(hash: &[u8], probe: &ChunkProbe, verify: bool) -> (r: bool)
    ensures
        r == chunk_valid(hash@, *probe, verify),
{
    match probe {
        ChunkProbe::Absent => false,
        ChunkProbe::Contents(c) => {
            if !verify {
                return true;
            }
            if hash.len() > 64 {
                return false;
            }
            let digest = blake2b512(c.as_slice());
            crate::bytes_util::bytes_equal(slice_subrange(digest.as_slice(), 0, hash.len()), hash)
        },
        _ => !verify,
    }
}

/// Positions of the descriptors whose chunks have to be fetched, in order.
pub open spec fn fetch_set(descs: Seq<ChunkDescriptor>, probes: Seq<ChunkProbe>, verify: bool) -> Seq<int>
    decreases descs.len(),
{
    if descs.len() == 0 {
        Seq::empty()
    } else {
        let rest = fetch_set(descs.drop_last(), probes, verify);
        let i = descs.len() - 1;
        if chunk_valid(descs[i].checksum@, probes[i], verify) {
            rest
        } else {
            rest.push(i)
        }
    }
}

/// The positions of `descriptors` whose chunk is absent or, when verifying,
/// corrupt; `probes[i]` is what was found for `descriptors[i]`.
pub fn filter_missing(descriptors: &[ChunkDescriptor], probes: &[ChunkProbe], verify: bool) -> (r: Vec<usize>)
    requires
        descriptors@.len() == probes@.len(),
    ensures
        r@.map_values(|i: usize| i as int) == fetch_set(descriptors@, probes@, verify),
{
    let mut out: Vec<usize> = Vec::new();
    let mut i: usize = 0;
    while i < descriptors.len()
        invariant
            descriptors@.len() == probes@.len(),
            0 <= i <= descriptors@.len(),
            out@.map_values(|k: usize| k as int) == fetch_set(descriptors@.subrange(0, i as int), probes@, verify),
        decreases descriptors@.len() - i,
    {
        let keep = exists_and_valid(descriptors[i].checksum.as_slice(), &probes[i], verify);
        proof {
            let p = descriptors@.subrange(0, i + 1);
            assert(p.drop_last() =~= descriptors@.subrange(0, i as int));
            assert(p[i as int] == descriptors@[i as int]);
        }
        if !keep {
            out.push(i);
        }
        i = i + 1;
        assert(out@.map_values(|k: usize| k as int) =~= fetch_set(descriptors@.subrange(0, i as int), probes@, verify));
    }
    assert(descriptors@.subrange(0, descriptors@.len() as int) =~= descriptors@);
    out
}

/// Every position in the fetch set is a descriptor whose chunk is not valid,
/// and every such descriptor is in it.
pub proof fn lemma_fetch_set_members(descs: Seq<ChunkDescriptor>, probes: Seq<ChunkProbe>, verify: bool)
    requires
        descs.len() == probes.len(),
    ensures
        forall|i: int|
            0 <= i < descs.len() ==> (fetch_set(descs, probes, verify).contains(i) <==> !chunk_valid(
                #[trigger] descs[i].checksum@,
                probes[i],
                verify,
            )),
{
    lemma_fetch_set_members_prefix(descs, probes, verify);
}

proof fn lemma_fetch_set_members_prefix(descs: Seq<ChunkDescriptor>, probes: Seq<ChunkProbe>, verify: bool)
    requires
        descs.len() <= probes.len(),
    ensures
        forall|i: int|
            0 <= i < descs.len() ==> (fetch_set(descs, probes, verify).contains(i) <==> !chunk_valid(
                #[trigger] descs[i].checksum@,
                probes[i],
                verify,
            )),
    decreases descs.len(),
{
    if descs.len() > 0 {
        let d = descs.drop_last();
        lemma_fetch_set_members_prefix(d, probes, verify);
        lemma_fetch_set_bounded(d, probes, verify);
        let n = descs.len() - 1;
        assert forall|i: int| 0 <= i < descs.len() implies (fetch_set(descs, probes, verify).contains(i)
            <==> !chunk_valid(#[trigger] descs[i].checksum@, probes[i], verify)) by {
            let rest = fetch_set(d, probes, verify);
            if i < n {
                assert(d[i] == descs[i]);
                if !chunk_valid(descs[n].checksum@, probes[n], verify) {
                    if rest.push(n).contains(i) {
                        let k = choose|k: int| 0 <= k < rest.push(n).len() && rest.push(n)[k] == i;
                        if k < rest.len() {
                            assert(rest[k] == i);
                        }
                    }
                    if rest.contains(i) {
                        let k = choose|k: int| 0 <= k < rest.len() && rest[k] == i;
                        assert(rest.push(n)[k] == i);
                    }
                }
            } else {
                if !chunk_valid(descs[n].checksum@, probes[n], verify) {
                    assert(rest.push(n)[rest.len() as int] == n);
                } else {
                    if rest.contains(n) {
                        let k = choose|k: int| 0 <= k < rest.len() && rest[k] == n;
                    }
                }
            }
        }
    }
}

proof fn lemma_fetch_set_bounded(descs: Seq<ChunkDescriptor>, probes: Seq<ChunkProbe>, verify: bool)
    ensures
        forall|k: int|
            0 <= k < fetch_set(descs, probes, verify).len() ==> 0 <= #[trigger] fetch_set(
                descs,
                probes,
                verify,
            )[k] < descs.len(),
    decreases descs.len(),
{
    if descs.len() > 0 {
        let d = descs.drop_last();
        lemma_fetch_set_bounded(d, probes, verify);
        let rest = fetch_set(d, probes, verify);
        let n = descs.len() - 1;
        assert forall|k: int| 0 <= k < fetch_set(descs, probes, verify).len() implies 0
            <= #[trigger] fetch_set(descs, probes, verify)[k] < descs.len() by {
            if k < rest.len() {
                assert(rest[k] < d.len());
            }
        }
    }
}

/// A store in which every chunk file holds bytes that hash to its checksum
/// (as a completed run leaves it) yields an empty fetch set when verifying,
/// so running ingestion again transfers nothing.
pub proof fn lemma_complete_store_fetches_nothing(descs: Seq<ChunkDescriptor>, probes: Seq<ChunkProbe>)
    requires
        descs.len() == probes.len(),
        forall|i: int|
            0 <= i < descs.len() ==> (#[trigger] probes[i] matches ChunkProbe::Contents(c)
                && digest_matches(c@, descs[i].checksum@)),
    ensures
        fetch_set(descs, probes, true).len() == 0,
{
    lemma_fetch_set_members(descs, probes, true);
    lemma_fetch_set_bounded(descs, probes, true);
    let f = fetch_set(descs, probes, true);
    if f.len() > 0 {
        let i = f[0];
        assert(f.contains(i));
        assert(chunk_valid(descs[i].checksum@, probes[i], true));
    }
}

/// A chunk file whose bytes no longer hash to the chunk's checksum (cut
/// short or with a flipped bit) is in the fetch set when verifying, and is
/// kept, unnoticed, when not verifying.
pub proof fn lemma_corrupt_chunk_refetched(
    descs: Seq<ChunkDescriptor>,
    probes: Seq<ChunkProbe>,
    i: int,
    contents: Seq<u8>,
)
    requires
        descs.len() == probes.len(),
        0 <= i < descs.len(),
        probes[i] matches ChunkProbe::Contents(c) && c@ == contents,
        !digest_matches(contents, descs[i].checksum@),
    ensures
        fetch_set(descs, probes, true).contains(i),
        !fetch_set(descs, probes, false).contains(i),
{
    lemma_fetch_set_members(descs, probes, true);
    lemma_fetch_set_members(descs, probes, false);
    assert(!chunk_valid(descs[i].checksum@, probes[i], true));
    assert(chunk_valid(descs[i].checksum@, probes[i], false));
}

} // verus!
