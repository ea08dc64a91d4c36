use ihop::device::{zero_fill_tail, BlockDevice, ChunkedStoreDevice, DeviceError, FileBackedDevice};
use ihop::dict::{make_device, StoreDictionary};
use ihop::store::{chunk_path_from_hash, ChunkDescriptor};

fn h1() -> Vec<u8> {
    vec![0x11; 8]
}

fn h2() -> Vec<u8> {
    vec![0x22; 8]
}

fn sample() -> ChunkedStoreDevice {
    let descs = vec![
        ChunkDescriptor { checksum: h1(), source_size: 4 },
        ChunkDescriptor { checksum: h2(), source_size: 6 },
    ];
    ChunkedStoreDevice::new(&[0, 1, 0], &descs, 14, 2).unwrap()
}

/// Serves a read from in-memory chunk contents keyed by path.
fn read(dev: &ChunkedStoreDevice, offset: u64, len: usize) -> Result<Vec<u8>, DeviceError> {
    let a: Vec<u8> = b"AAAA".to_vec();
    let b: Vec<u8> = b"bcdefg".to_vec();
    let pa = chunk_path_from_hash(&h1());
    let mut out = Vec::new();
    for seg in dev.plan_read(offset, len)? {
        let data = if seg.path == pa { &a } else { &b };
        let start = seg.chunk_offset as usize;
        out.extend_from_slice(&data[start..start + seg.len]);
    }
    Ok(out)
}

#[test]
fn device_geometry() {
    let dev = sample();
    assert_eq!(dev.block_size(), 2);
    assert_eq!(dev.block_count(), 7);
}

#[test]
fn block_count_truncates_remainder() {
    let descs = vec![ChunkDescriptor { checksum: h1(), source_size: 4 }];
    let dev = ChunkedStoreDevice::new(&[0, 0, 0], &descs, 12, 5).unwrap();
    assert_eq!(dev.block_count(), 2);
}

#[test]
fn read_spanning_two_chunks() {
    let dev = sample();
    let segs = dev.plan_read(2, 6).unwrap();
    assert_eq!(segs.len(), 2);
    assert_eq!(segs[0].path, chunk_path_from_hash(&h1()));
    assert_eq!((segs[0].chunk_offset, segs[0].len), (2, 2));
    assert_eq!(segs[1].path, chunk_path_from_hash(&h2()));
    assert_eq!((segs[1].chunk_offset, segs[1].len), (0, 4));
    assert_eq!(read(&dev, 2, 6).unwrap(), b"AAbcde".to_vec());
}

#[test]
fn read_whole_device() {
    let dev = sample();
    assert_eq!(read(&dev, 0, 14).unwrap(), b"AAAAbcdefgAAAA".to_vec());
    assert_eq!(read(&dev, 10, 4).unwrap(), b"AAAA".to_vec());
    assert_eq!(read(&dev, 0, 0).unwrap(), Vec::<u8>::new());
}

#[test]
fn read_past_covered_range_fails() {
    let dev = sample();
    assert_eq!(dev.plan_read(12, 4).unwrap_err(), DeviceError::Uncovered);
    assert_eq!(dev.plan_read(14, 1).unwrap_err(), DeviceError::Uncovered);
}

#[test]
fn writes_are_unsupported() {
    let dev = sample();
    assert_eq!(dev.write(0, &[1, 2]), Err(DeviceError::Unsupported));
    let f = FileBackedDevice::new(512, 1000);
    assert_eq!(f.write(0, &[1]), Err(DeviceError::Unsupported));
}

#[test]
fn bad_headers_are_rejected() {
    let descs = vec![ChunkDescriptor { checksum: h1(), source_size: 4 }];
    assert_eq!(ChunkedStoreDevice::new(&[0, 1], &descs, 8, 1).err(), Some(DeviceError::BadChunkIndex));
    let short = vec![ChunkDescriptor { checksum: vec![1], source_size: 4 }];
    assert_eq!(ChunkedStoreDevice::new(&[0], &short, 4, 1).err(), Some(DeviceError::ShortChecksum));
    let huge = vec![ChunkDescriptor { checksum: h1(), source_size: u64::MAX }];
    assert_eq!(ChunkedStoreDevice::new(&[0, 0], &huge, 4, 1).err(), Some(DeviceError::AddressOverflow));
}

#[test]
fn empty_chunks_cover_nothing() {
    let descs = vec![
        ChunkDescriptor { checksum: h1(), source_size: 4 },
        ChunkDescriptor { checksum: h2(), source_size: 0 },
    ];
    let dev = ChunkedStoreDevice::new(&[1, 0, 1, 1, 0], &descs, 8, 1).unwrap();
    let segs = dev.plan_read(2, 4).unwrap();
    assert_eq!(segs.len(), 2);
    assert_eq!((segs[0].chunk_offset, segs[0].len), (2, 2));
    assert_eq!((segs[1].chunk_offset, segs[1].len), (0, 2));
}

#[test]
fn device_from_dictionary() {
    let dict = StoreDictionary {
        application_version: "0.1.0".to_string(),
        chunker_params: None,
        source_checksum: vec![9; 64],
        source_total_size: 14,
        source_order: vec![0, 1, 0],
        chunk_descriptors: vec![
            ChunkDescriptor { checksum: h1(), source_size: 4 },
            ChunkDescriptor { checksum: h2(), source_size: 6 },
        ],
    };
    let dev = make_device(&dict, 512).unwrap();
    assert_eq!(dev.block_count(), 0);
    assert_eq!(read(&dev, 2, 6).unwrap(), b"AAbcde".to_vec());
}

#[test]
fn file_device_rounds_block_count_up() {
    assert_eq!(FileBackedDevice::new(512, 1000).block_count(), 2);
    assert_eq!(FileBackedDevice::new(512, 1024).block_count(), 2);
    assert_eq!(FileBackedDevice::new(512, 0).block_count(), 0);
    assert_eq!(FileBackedDevice::new(1, u64::MAX).block_count(), u64::MAX);
    assert_eq!(FileBackedDevice::new(2, u64::MAX).block_count(), u64::MAX / 2 + 1);
    assert_eq!(FileBackedDevice::new(512, 1).block_size(), 512);
}

#[test]
fn zero_fill_past_end_of_file() {
    let mut buf = vec![7u8, 7, 7, 7, 7];
    zero_fill_tail(&mut buf, 2);
    assert_eq!(buf, vec![7, 7, 0, 0, 0]);
    let mut full = vec![1u8, 2];
    zero_fill_tail(&mut full, 2);
    assert_eq!(full, vec![1, 2]);
}
