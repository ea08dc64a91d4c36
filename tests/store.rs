use blake2::{Blake2b512, Digest};
use ihop::store::{chunk_path_from_hash, exists_and_valid, filter_missing, ChunkDescriptor, ChunkProbe};

fn hash_of(data: &[u8], len: usize) -> Vec<u8> {
    Blake2b512::digest(data)[..len].to_vec()
}

#[test]
fn chunk_path_layout() {
    let hash = vec![0xabu8, 0x01, 0xff, 0x10];
    assert_eq!(chunk_path_from_hash(&hash), "chunks/ab01/ab01ff10.chunk");
}

#[test]
fn valid_chunk_is_kept() {
    let data = b"some chunk bytes".to_vec();
    let h = hash_of(&data, 32);
    assert!(exists_and_valid(&h, &ChunkProbe::Contents(data.clone()), true));
    assert!(exists_and_valid(&h, &ChunkProbe::Contents(data), false));
}

#[test]
fn absent_chunk_is_fetched() {
    let h = vec![1u8; 32];
    assert!(!exists_and_valid(&h, &ChunkProbe::Absent, true));
    assert!(!exists_and_valid(&h, &ChunkProbe::Absent, false));
}

#[test]
fn corrupt_chunk_detected_only_when_verifying() {
    let data = b"chunk payload 0123456789".to_vec();
    let h = hash_of(&data, 64);
    let mut flipped = data.clone();
    flipped[3] ^= 0x80;
    let truncated = data[..data.len() - 1].to_vec();
    assert!(!exists_and_valid(&h, &ChunkProbe::Contents(flipped.clone()), true));
    assert!(!exists_and_valid(&h, &ChunkProbe::Contents(truncated), true));
    assert!(exists_and_valid(&h, &ChunkProbe::Contents(flipped), false));
    assert!(!exists_and_valid(&h, &ChunkProbe::Unreadable, true));
    assert!(exists_and_valid(&h, &ChunkProbe::Present, false));
}

#[test]
fn fetch_set_lists_missing_and_corrupt() {
    let a = b"aaaa".to_vec();
    let b = b"bbbbbb".to_vec();
    let c = b"cc".to_vec();
    let descs = vec![
        ChunkDescriptor { checksum: hash_of(&a, 16), source_size: 4 },
        ChunkDescriptor { checksum: hash_of(&b, 16), source_size: 6 },
        ChunkDescriptor { checksum: hash_of(&c, 16), source_size: 2 },
    ];
    let probes = vec![
        ChunkProbe::Contents(a.clone()),
        ChunkProbe::Absent,
        ChunkProbe::Contents(b"cX".to_vec()),
    ];
    assert_eq!(filter_missing(&descs, &probes, true), vec![1, 2]);
    assert_eq!(filter_missing(&descs, &probes, false), vec![1]);
}

#[test]
fn second_run_fetches_nothing() {
    let chunks: Vec<Vec<u8>> = vec![b"one".to_vec(), b"two".to_vec(), b"three".to_vec()];
    let descs: Vec<ChunkDescriptor> = chunks
        .iter()
        .map(|c| ChunkDescriptor { checksum: hash_of(c, 32), source_size: c.len() as u64 })
        .collect();
    let first: Vec<ChunkProbe> = chunks.iter().map(|_| ChunkProbe::Absent).collect();
    assert_eq!(filter_missing(&descs, &first, true), vec![0, 1, 2]);
    let second: Vec<ChunkProbe> = chunks.iter().map(|c| ChunkProbe::Contents(c.clone())).collect();
    assert!(filter_missing(&descs, &second, true).is_empty());
}
