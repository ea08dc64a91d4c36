//! The block devices: the chunked store device, which resolves reads through
//! the interval index, and the plain-file device.
use crate::chunk_map::{
    end_fits,
    end_of,
    key_lt,
    non_overlapping_keys,
    overlaps,
    sorted_keys,
    ChunkMap,
    ChunkOffsetSize,
};
use crate::store::{ascii_chars, chunk_path_bytes, chunk_path_from_hash, ChunkDescriptor};
use vstd::prelude::*;

verus! {

/// What a block device reports of its geometry.
pub trait BlockDevice {
    /// The block size the device reports.
    spec fn reported_block_size(&self) -> u32;

    /// The number of blocks the device reports.
    spec fn reported_block_count(&self) -> u64;

    fn block_size(&self) -> (r: u32)
        ensures
            r == self.reported_block_size(),
    ;

    fn block_count(&self) -> (r: u64)
        ensures
            r == self.reported_block_count(),
    ;
}

#[derive(PartialEq, Eq, Structural, Debug, Clone, Copy)]
pub enum DeviceError {
    /// `source_order` names a chunk descriptor that does not exist.
    BadChunkIndex,
    /// A referenced chunk's checksum is too short to name its file.
    ShortChecksum,
    /// The chunks reach past the largest representable address.
    AddressOverflow,
    /// Part of a requested range is covered by no chunk: the store and its
    /// header do not match.
    Uncovered,
    /// The device is read-only.
    Unsupported,
}

/// One piece of a read: `len` bytes of the chunk file at `path`, starting
/// `chunk_offset` bytes into it.
#[derive(Debug, Clone)]
pub struct ReadSegment {
    pub path: String,
    pub chunk_offset: u64,
    pub len: usize,
}

/// Where the `k`-th chunk of `order` starts in the reconstructed source.
pub open spec fn chunk_start(order: Seq<u32>, descs: Seq<ChunkDescriptor>, k: int) -> int
    decreases k,
{
    if k <= 0 {
        0
    } else {
        chunk_start(order, descs, k - 1) + descs[order[k - 1] as int].source_size
    }
}

/// The first `k` entries of `order` name existing descriptors whose
/// checksums can name a file, and stay within the address range.
pub open spec fn layout_ok(order: Seq<u32>, descs: Seq<ChunkDescriptor>, k: int) -> bool {
    &&& forall|j: int| 0 <= j < k ==> (#[trigger] order[j] as int) < descs.len()
    &&& forall|j: int| 0 <= j < k ==> (#[trigger] descs[order[j] as int]).checksum@.len() >= 2
    &&& forall|j: int| 0 <= j < k ==> #[trigger] chunk_start(order, descs, j + 1) <= u64::MAX
    &&& forall|j: int| 0 <= j < k ==> (#[trigger] descs[order[j] as int]).source_size <= usize::MAX
}

/// The intervals of the first `k` chunks of `order`; empty chunks cover no
/// address and have none.
pub open spec fn layout_keys(order: Seq<u32>, descs: Seq<ChunkDescriptor>, k: int) -> Seq<ChunkOffsetSize>
    decreases k,
{
    if k <= 0 {
        Seq::empty()
    } else {
        let prev = layout_keys(order, descs, k - 1);
        let size = descs[order[k - 1] as int].source_size;
        if size == 0 {
            prev
        } else {
            prev.push(
                ChunkOffsetSize {
                    offset: chunk_start(order, descs, k - 1) as u64,
                    size: size as usize,
                },
            )
        }
    }
}

/// The chunk paths of the first `k` chunks of `order`, one per interval of
/// `layout_keys`.
pub open spec fn layout_paths(order: Seq<u32>, descs: Seq<ChunkDescriptor>, k: int) -> Seq<Seq<char>>
    decreases k,
{
    if k <= 0 {
        Seq::empty()
    } else {
        let prev = layout_paths(order, descs, k - 1);
        let d = descs[order[k - 1] as int];
        if d.source_size == 0 {
            prev
        } else {
            prev.push(ascii_chars(chunk_path_bytes(d.checksum@)))
        }
    }
}

/// An address is inside some stored interval.
pub open spec fn covered(keys: Seq<ChunkOffsetSize>, a: int) -> bool {
    exists|e: int| 0 <= e < keys.len() && (#[trigger] keys[e]).offset <= a < end_of(keys[e])
}

/// The total length of the first `k` segments.
pub open spec fn seg_total(segs: Seq<ReadSegment>, k: int) -> int
    decreases k,
{
    if k <= 0 {
        0
    } else {
        seg_total(segs, k - 1) + segs[k - 1].len
    }
}

/// A device that serves the source reconstructed from a chunk store.
pub struct ChunkedStoreDevice {
    block_size: u32,
    block_count: u64,
    chunk_location_map: ChunkMap<String>,
}

impl ChunkedStoreDevice {
    /// The index from intervals of the address space to chunk paths.
    pub closed spec fn map(&self) -> ChunkMap<String> {
        self.chunk_location_map
    }

    pub closed spec fn spec_block_size(&self) -> u32 {
        self.block_size
    }

    pub closed spec fn spec_block_count(&self) -> u64 {
        self.block_count
    }

    pub open spec fn wf(&self) -> bool {
        self.map().wf() && self.map().non_overlapping()
    }

    /// Segment `seg`, which serves address `pos` onward, lies inside entry `e`.
    pub open spec fn seg_in_entry(&self, seg: ReadSegment, pos: int, e: int) -> bool {
        &&& 0 <= e < self.map().key_seq().len()
        &&& self.map().key_seq()[e].offset + seg.chunk_offset == pos
        &&& seg.chunk_offset + seg.len <= self.map().key_seq()[e].size
        &&& seg.path@ == self.map().value_seq()[e]@
    }

    /// Builds the device of a store header: each chunk of `source_order`, at
    /// its cumulative offset, maps to its chunk file.
    pub fn new(
        source_order: &[u32],
        descriptors: &[ChunkDescriptor],
        source_total_size: u64,
        block_size: u32,
    ) -> (r: Result<ChunkedStoreDevice, DeviceError>)
        requires
            block_size > 0,
        ensures
            r is Ok <==> layout_ok(source_order@, descriptors@, source_order@.len() as int),
            r matches Ok(d) ==> {
                &&& d.wf()
                &&& d.map().key_seq() == layout_keys(source_order@, descriptors@, source_order@.len() as int)
                &&& d.map().value_seq().map_values(|s: String| s@) == layout_paths(
                    source_order@,
                    descriptors@,
                    source_order@.len() as int,
                )
                &&& d.spec_block_size() == block_size
                &&& d.spec_block_count() == source_total_size / (block_size as u64)
            },
    {
        let mut offset: u64 = 0;
        let mut map: ChunkMap<String> = ChunkMap::new();
        let n = source_order.len();
        let mut i: usize = 0;
        while i < n
            invariant
                n == source_order@.len(),
                0 <= i <= n,
                layout_ok(source_order@, descriptors@, i as int),
                offset as int == chunk_start(source_order@, descriptors@, i as int),
                map.wf(),
                map.non_overlapping(),
                map.key_seq() == layout_keys(source_order@, descriptors@, i as int),
                map.value_seq().map_values(|s: String| s@) == layout_paths(source_order@, descriptors@, i as int),
                forall|e: int| 0 <= e < map.key_seq().len() ==> end_of(#[trigger] map.key_seq()[e]) <= offset,
            decreases n - i,
        {
            let index = source_order[i] as usize;
            if index >= descriptors.len() {
                return Err(DeviceError::BadChunkIndex);
            }
            let cd = &descriptors[index];
            if cd.checksum.len() < 2 {
                return Err(DeviceError::ShortChecksum);
            }
            if cd.source_size > u64::MAX - offset {
                assert(chunk_start(source_order@, descriptors@, i + 1) > u64::MAX);
                return Err(DeviceError::AddressOverflow);
            }
            if cd.source_size > usize::MAX as u64 {
                assert(descriptors@[source_order@[i as int] as int].source_size > usize::MAX);
                return Err(DeviceError::AddressOverflow);
            }
            if cd.source_size > 0 {
                let path = chunk_path_from_hash(cd.checksum.as_slice());
                let loc = ChunkOffsetSize::new(offset, cd.source_size as usize);
                let ghost prev = map;
                map.insert(loc, path);
                proof {
                    let ks = prev.key_seq();
                    assert forall|e: int| 0 <= e < ks.len() implies key_lt(#[trigger] ks[e], loc) by {
                        assert(end_of(ks[e]) <= offset);
                    }
                    let pos = choose|pos: int| #[trigger] map.inserted_from(prev, pos, loc, path);
                    if pos < ks.len() {
                        assert(key_lt(ks[pos], loc));
                        if map.key_seq() == ks.insert(pos, loc) {
                            assert(map.key_seq()[pos] == loc);
                            assert(map.key_seq()[pos + 1] == ks[pos]);
                            assert(key_lt(map.key_seq()[pos], map.key_seq()[pos + 1]));
                        }
                    }
                    assert(pos == ks.len());
                    assert(map.key_seq() =~= ks.push(loc));
                    assert(map.value_seq() =~= prev.value_seq().push(path));
                    assert(map.value_seq().map_values(|s: String| s@) =~= prev.value_seq().map_values(
                        |s: String| s@,
                    ).push(path@));
                    assert(non_overlapping_keys(map.key_seq())) by {
                        assert forall|a: int, b: int| 0 <= a < b < map.key_seq().len() implies end_of(
                            #[trigger] map.key_seq()[a],
                        ) <= (#[trigger] map.key_seq()[b]).offset by {
                            if b < ks.len() {
                                assert(map.key_seq()[a] == ks[a]);
                                assert(map.key_seq()[b] == ks[b]);
                            } else {
                                assert(map.key_seq()[a] == ks[a]);
                            }
                        }
                    }
                }
            }
            offset = offset + cd.source_size;
            i = i + 1;
            proof {
                assert(layout_ok(source_order@, descriptors@, i as int));
            }
        }
        let block_count = source_total_size / (block_size as u64);
        Ok(ChunkedStoreDevice { block_size, block_count, chunk_location_map: map })
    }

    /// Resolves a read of `len` bytes at `offset` into chunk segments that,
    /// taken in order, fill the buffer from its start to its end.
    pub fn plan_read(&self, offset: u64, len: usize) -> (r: Result<Vec<ReadSegment>, DeviceError>)
        requires
            self.wf(),
            offset as int + len as int <= u64::MAX,
        ensures
            r matches Ok(segs) ==> {
                &&& seg_total(segs@, segs@.len() as int) == len
                &&& forall|k: int|
                    0 <= k < segs@.len() ==> (#[trigger] segs@[k]).len > 0 && exists|e: int|
                        #[trigger] self.seg_in_entry(segs@[k], offset + seg_total(segs@, k), e)
            },
            r matches Err(e) ==> e == DeviceError::Uncovered && exists|a: int|
                offset <= a < offset + len && !#[trigger] covered(self.map().key_seq(), a),
    {
        let q = ChunkOffsetSize::new(offset, len);
        let matches = self.chunk_location_map.iter_overlapping(q);
        let ghost keys = self.map().key_seq();
        let ghost vals = self.map().value_seq();
        let ghost (lo, hi) = choose|lo: int, hi: int| #[trigger] self.map().is_window(matches@, lo, hi, q);
        let mut segs: Vec<ReadSegment> = Vec::new();
        let mut cur: u64 = offset;
        let mut remaining: usize = len;
        let mut j: usize = matches.len();
        while j > 0 && remaining > 0
            invariant
                self.wf(),
                keys == self.map().key_seq(),
                vals == self.map().value_seq(),
                self.map().is_window(matches@, lo, hi, q),
                q.offset == offset && q.size == len,
                0 <= j <= matches@.len(),
                cur as int + remaining as int == offset as int + len as int,
                cur as int == offset + seg_total(segs@, segs@.len() as int),
                offset <= cur,
                remaining > 0 ==> forall|e: int| lo <= e < lo + (matches@.len() - j) ==> end_of(#[trigger] keys[e]) <= cur,
                forall|k: int|
                    0 <= k < segs@.len() ==> (#[trigger] segs@[k]).len > 0 && exists|e: int|
                        #[trigger] self.seg_in_entry(segs@[k], offset + seg_total(segs@, k), e),
            decreases j,
        {
            let (loc, path) = matches[j - 1];
            let ghost e = hi - 1 - (j - 1);
            assert(loc == keys[e] && *path == vals[e]);
            if loc.offset > cur {
                proof {
                    self.lemma_gap_uncovered(lo, hi, e, cur as int, q);
                }
                return Err(DeviceError::Uncovered);
            }
            if loc.end() > cur {
                let in_chunk = cur - loc.offset;
                let avail = loc.size - in_chunk as usize;
                let take = if remaining < avail { remaining } else { avail };
                let seg = ReadSegment { path: path.clone(), chunk_offset: in_chunk, len: take };
                let ghost old_segs = segs@;
                segs.push(seg);
                proof {
                    assert(self.seg_in_entry(seg, cur as int, e));
                    assert forall|k: int| 0 <= k < old_segs.len() implies seg_total(segs@, k) == seg_total(old_segs, k) by {
                        self.lemma_seg_total_prefix(segs@, old_segs, k);
                    }
                    self.lemma_seg_total_prefix(segs@, old_segs, old_segs.len() as int);
                    assert forall|k: int| 0 <= k < segs@.len() implies (#[trigger] segs@[k]).len > 0 && exists|e2: int|
                        #[trigger] self.seg_in_entry(segs@[k], offset + seg_total(segs@, k), e2) by {
                        if k < old_segs.len() {
                            assert(segs@[k] == old_segs[k]);
                        } else {
                            assert(self.seg_in_entry(segs@[k], offset + seg_total(segs@, k), e));
                        }
                    }
                }
                cur = cur + take as u64;
                remaining = remaining - take;
            }
            j = j - 1;
        }
        if remaining > 0 {
            proof {
                self.lemma_tail_uncovered(lo, hi, cur as int, q);
            }
            return Err(DeviceError::Uncovered);
        }
        Ok(segs)
    }

    proof fn lemma_seg_total_prefix(&self, segs: Seq<ReadSegment>, prefix: Seq<ReadSegment>, k: int)
        requires
            prefix.len() <= segs.len(),
            0 <= k <= prefix.len(),
            forall|i: int| 0 <= i < prefix.len() ==> segs[i] == prefix[i],
        ensures
            seg_total(segs, k) == seg_total(prefix, k),
        decreases k,
    {
        if k > 0 {
            self.lemma_seg_total_prefix(segs, prefix, k - 1);
        }
    }

    /// A stored interval that starts after `a`, with everything before it
    /// ending at or before `a`, leaves `a` uncovered.
    proof fn lemma_gap_uncovered(&self, lo: int, hi: int, e: int, a: int, q: ChunkOffsetSize)
        requires
            self.wf(),
            lo <= e < hi,
            0 <= lo,
            hi <= self.map().key_seq().len(),
            q.offset <= a < end_of(q),
            self.map().key_seq()[e].offset > a,
            forall|x: int| lo <= x < e ==> end_of(#[trigger] self.map().key_seq()[x]) <= a,
            forall|i: int|
                0 <= i < self.map().key_seq().len() && overlaps(#[trigger] self.map().key_seq()[i], q)
                    ==> lo <= i < hi,
        ensures
            !covered(self.map().key_seq(), a),
    {
        let keys = self.map().key_seq();
        if covered(keys, a) {
            let x = choose|x: int| 0 <= x < keys.len() && (#[trigger] keys[x]).offset <= a < end_of(keys[x]);
            assert(overlaps(keys[x], q));
            if x > e {
                assert(end_of(keys[e]) <= keys[x].offset);
            }
        }
    }

    /// When every interval that may overlap the query ends at or before `a`,
    /// `a` is uncovered.
    proof fn lemma_tail_uncovered(&self, lo: int, hi: int, a: int, q: ChunkOffsetSize)
        requires
            self.wf(),
            0 <= lo <= hi <= self.map().key_seq().len(),
            q.offset <= a < end_of(q),
            forall|x: int| lo <= x < hi ==> end_of(#[trigger] self.map().key_seq()[x]) <= a,
            forall|i: int|
                0 <= i < self.map().key_seq().len() && overlaps(#[trigger] self.map().key_seq()[i], q)
                    ==> lo <= i < hi,
        ensures
            !covered(self.map().key_seq(), a),
    {
        let keys = self.map().key_seq();
        if covered(keys, a) {
            let x = choose|x: int| 0 <= x < keys.len() && (#[trigger] keys[x]).offset <= a < end_of(keys[x]);
            assert(overlaps(keys[x], q));
        }
    }

    /// The device cannot be written to.
    pub fn write(&self, _offset: u64, _buf: &[u8]) -> (r: Result<(), DeviceError>)
        ensures
            r == Err::<(), DeviceError>(DeviceError::Unsupported),
    {
        Err(DeviceError::Unsupported)
    }
}

impl BlockDevice for ChunkedStoreDevice {
    open spec fn reported_block_size(&self) -> u32 {
        self.spec_block_size()
    }

    open spec fn reported_block_count(&self) -> u64 {
        self.spec_block_count()
    }

    fn block_size(&self) -> (r: u32) {
        self.block_size
    }

    fn block_count(&self) -> (r: u64) {
        self.block_count
    }
}

proof fn lemma_chunk_start_monotone(order: Seq<u32>, descs: Seq<ChunkDescriptor>, j: int, k: int)
    requires
        0 <= j <= k,
    ensures
        chunk_start(order, descs, j) <= chunk_start(order, descs, k),
    decreases k - j,
{
    if j < k {
        lemma_chunk_start_monotone(order, descs, j, k - 1);
    }
}

/// The intervals of a valid layout cover exactly the addresses below the
/// size of the reconstructed source: every such address lies in one of them,
/// and none reaches past it. A device built from a valid header therefore
/// fails a read only when the range reaches past the source.
pub proof fn lemma_layout_covers(order: Seq<u32>, descs: Seq<ChunkDescriptor>, k: int)
    requires
        0 <= k <= order.len(),
        layout_ok(order, descs, k),
    ensures
        forall|a: int|
            0 <= a < chunk_start(order, descs, k) ==> #[trigger] covered(layout_keys(order, descs, k), a),
        forall|e: int|
            0 <= e < layout_keys(order, descs, k).len() ==> end_of(#[trigger] layout_keys(order, descs, k)[e])
                <= chunk_start(order, descs, k),
    decreases k,
{
    if k > 0 {
        assert(layout_ok(order, descs, k - 1));
        lemma_layout_covers(order, descs, k - 1);
        lemma_chunk_start_monotone(order, descs, k - 1, k);
        lemma_chunk_start_monotone(order, descs, 0, k - 1);
        let prev = layout_keys(order, descs, k - 1);
        let cur = layout_keys(order, descs, k);
        let start = chunk_start(order, descs, k - 1);
        let size = descs[order[k - 1] as int].source_size;
        let j = k - 1;
        assert(chunk_start(order, descs, j + 1) <= u64::MAX);
        assert(j + 1 == k);
        assert(descs[order[j] as int].source_size <= usize::MAX);
        assert(size <= usize::MAX);
        assert(0 <= start <= u64::MAX);
        let key = ChunkOffsetSize { offset: start as u64, size: size as usize };
        assert(size > 0 ==> cur == prev.push(key));
        assert(size == 0 ==> cur == prev);
        assert(end_of(key) == chunk_start(order, descs, k));
        assert forall|a: int| 0 <= a < chunk_start(order, descs, k) implies #[trigger] covered(cur, a) by {
            if a < start {
                assert(covered(prev, a));
                let e = choose|e: int| 0 <= e < prev.len() && (#[trigger] prev[e]).offset <= a < end_of(prev[e]);
                assert(cur[e] == prev[e]);
            } else {
                assert(size > 0);
                let e = prev.len() as int;
                assert(cur[e].offset == start);
                assert(cur[e].offset <= a < end_of(cur[e]));
            }
        }
        assert forall|e: int| 0 <= e < cur.len() implies end_of(#[trigger] cur[e]) <= chunk_start(order, descs, k) by {
            if e < prev.len() {
                assert(cur[e] == prev[e]);
            }
        }
    }
}

/// A device that serves a plain file; reads past its end give zeros.
pub struct FileBackedDevice {
    block_size: u32,
    block_count: u64,
}

/// The number of blocks that hold `len` bytes, the last one possibly partial.
pub open spec fn blocks_for(len: u64, block_size: u32) -> int {
    (len as int + block_size as int - 1) / (block_size as int)
}

impl FileBackedDevice {
    pub closed spec fn spec_block_size(&self) -> u32 {
        self.block_size
    }

    pub closed spec fn spec_block_count(&self) -> u64 {
        self.block_count
    }

    /// The device of a file of `file_len` bytes.
    pub fn new(block_size: u32, file_len: u64) -> (r: Self)
        requires
            block_size > 0,
        ensures
            r.spec_block_size() == block_size,
            r.spec_block_count() as int == blocks_for(file_len, block_size),
    {
        let bs = block_size as u64;
        let full = file_len / bs;
        if file_len % bs != 0 {
            assert(full < u64::MAX) by (nonlinear_arith)
                requires
                    bs > 1 || file_len % bs == 0,
                    file_len % bs != 0,
                    full == file_len / bs,
                    bs > 0,
            ;
        }
        let block_count = if file_len % bs == 0 { full } else { full + 1 };
        proof {
            let l = file_len as int;
            let b = bs as int;
            assert(block_count as int == (l + b - 1) / b) by (nonlinear_arith)
                requires
                    b > 0,
                    l >= 0,
                    full as int == l / b,
                    block_count as int == if l % b == 0 { l / b } else { l / b + 1 },
            ;
        }
        FileBackedDevice { block_size, block_count }
    }

    /// The device cannot be written to.
    pub fn write(&self, _offset: u64, _buf: &[u8]) -> (r: Result<(), DeviceError>)
        ensures
            r == Err::<(), DeviceError>(DeviceError::Unsupported),
    {
        Err(DeviceError::Unsupported)
    }
}

impl BlockDevice for FileBackedDevice {
    open spec fn reported_block_size(&self) -> u32 {
        self.spec_block_size()
    }

    open spec fn reported_block_count(&self) -> u64 {
        self.spec_block_count()
    }

    fn block_size(&self) -> (r: u32) {
        self.block_size
    }

    fn block_count(&self) -> (r: u64) {
        self.block_count
    }
}

/// Keeps the first `filled` bytes of `buf` and sets the rest to zero: the
/// part of a read that lies past the end of the file.
pub fn zero_fill_tail(buf: &mut Vec<u8>, filled: usize)
    requires
        filled <= old(buf)@.len(),
    ensures
        final(buf)@ == old(buf)@.subrange(0, filled as int) + Seq::new(
            (old(buf)@.len() - filled) as nat,
            |i: int| 0u8,
        ),
{
    let n = buf.len();
    buf.truncate(filled);
    let mut i: usize = filled;
    while i < n
        invariant
            filled <= i <= n,
            n == old(buf)@.len(),
            buf@ == old(buf)@.subrange(0, filled as int) + Seq::new((i - filled) as nat, |k: int| 0u8),
        decreases n - i,
    {
        buf.push(0u8);
        i = i + 1;
        assert(buf@ =~= old(buf)@.subrange(0, filled as int) + Seq::new((i - filled) as nat, |k: int| 0u8));
    }
}

} // verus!
