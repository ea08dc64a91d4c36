use ihop::chunk_map::{ChunkMap, ChunkOffsetSize};

fn build(intervals: &[(u64, usize)]) -> ChunkMap<u32> {
    let mut map = ChunkMap::new();
    for (i, (o, s)) in intervals.iter().enumerate() {
        map.insert(ChunkOffsetSize::new(*o, *s), i as u32);
    }
    map
}

fn hits(map: &ChunkMap<u32>, offset: u64, size: usize) -> Vec<(u64, usize, u32)> {
    map.iter_overlapping(ChunkOffsetSize::new(offset, size))
        .into_iter()
        .map(|(k, v)| (k.offset, k.size, *v))
        .collect()
}

fn brute(intervals: &[(u64, usize)], offset: u64, size: usize) -> Vec<u32> {
    let qend = offset + size as u64;
    let mut r: Vec<u32> = intervals
        .iter()
        .enumerate()
        .filter(|(_, (o, s))| *o < qend && offset < *o + *s as u64)
        .map(|(i, _)| i as u32)
        .collect();
    r.sort();
    r
}

#[test]
fn end_is_offset_plus_size() {
    assert_eq!(ChunkOffsetSize::new(10, 6).end(), 16);
    assert_eq!(ChunkOffsetSize::new(0, 0).end(), 0);
}

#[test]
fn empty_index_has_no_overlaps() {
    let map: ChunkMap<u32> = ChunkMap::new();
    assert!(hits(&map, 0, 100).is_empty());
}

#[test]
fn query_inside_one_interval() {
    let map = build(&[(0, 4), (4, 6), (10, 4)]);
    assert_eq!(hits(&map, 5, 2), vec![(4, 6, 1)]);
}

#[test]
fn query_spanning_all_intervals_latest_first() {
    let map = build(&[(0, 4), (4, 6), (10, 4)]);
    assert_eq!(hits(&map, 0, 14), vec![(10, 4, 2), (4, 6, 1), (0, 4, 0)]);
}

#[test]
fn query_touching_boundaries_only() {
    let map = build(&[(0, 4), (4, 6), (10, 4)]);
    // [4, 10) touches the ends of its neighbours but overlaps only the middle one.
    assert_eq!(hits(&map, 4, 6), vec![(4, 6, 1)]);
    // Partially covering two intervals.
    assert_eq!(hits(&map, 2, 6), vec![(4, 6, 1), (0, 4, 0)]);
    // Entirely past the end.
    assert!(hits(&map, 14, 4).is_empty());
}

#[test]
fn query_with_gaps_between_intervals() {
    let intervals = [(0u64, 3usize), (5, 2), (9, 7), (20, 1), (21, 30)];
    let map = build(&intervals);
    for offset in 0..60u64 {
        for size in 0..20usize {
            let mut got: Vec<u32> = hits(&map, offset, size).into_iter().map(|(_, _, v)| v).collect();
            got.sort();
            assert_eq!(got, brute(&intervals, offset, size), "query {} {}", offset, size);
        }
    }
}

#[test]
fn insert_out_of_order_keeps_order() {
    let map = build(&[(10, 4), (0, 4), (4, 6)]);
    assert_eq!(hits(&map, 0, 14), vec![(10, 4, 0), (4, 6, 2), (0, 4, 1)]);
}

#[test]
fn insert_equal_key_replaces_value() {
    let mut map = ChunkMap::new();
    map.insert(ChunkOffsetSize::new(0, 4), 1u32);
    map.insert(ChunkOffsetSize::new(0, 4), 7u32);
    assert_eq!(hits(&map, 0, 4), vec![(0, 4, 7)]);
}
