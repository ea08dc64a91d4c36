//! An ordered index of `(offset, size)` intervals with overlap queries.
use vstd::prelude::*;

verus! {

/// A byte range `[offset, offset + size)` of the linear address space.
#[derive(PartialEq, Eq, Structural, Debug, Clone, Copy)]
pub struct ChunkOffsetSize {
    pub offset: u64,
    pub size: usize,
}

/// The exclusive end of an interval, as an unbounded integer.
pub open spec fn end_of(c: ChunkOffsetSize) -> int {
    c.offset as int + c.size as int
}

/// The end of the interval is representable as a `u64`.
pub open spec fn end_fits(c: ChunkOffsetSize) -> bool {
    end_of(c) <= u64::MAX as int
}

/// The total order on intervals: by offset, ties broken by size.
pub open spec fn key_lt(a: ChunkOffsetSize, b: ChunkOffsetSize) -> bool {
    a.offset < b.offset || (a.offset == b.offset && a.size < b.size)
}

/// True range overlap of a stored interval `c` with a query `q`.
pub open spec fn overlaps(c: ChunkOffsetSize, q: ChunkOffsetSize) -> bool {
    (c.offset as int) < end_of(q) && (q.offset as int) < end_of(c)
}

/// The keys are strictly ascending in the interval order.
pub open spec fn sorted_keys(keys: Seq<ChunkOffsetSize>) -> bool {
    forall|i: int, j: int| 0 <= i < j < keys.len() ==> #[trigger] key_lt(keys[i], keys[j])
}

/// No stored interval reaches into a later one.
pub open spec fn non_overlapping_keys(keys: Seq<ChunkOffsetSize>) -> bool {
    forall|i: int, j: int| 0 <= i < j < keys.len() ==> end_of(#[trigger] keys[i]) <= (#[trigger] keys[j]).offset
}

impl ChunkOffsetSize {
    pub fn new(offset: u64, size: usize) -> (r: Self)
        ensures
            r.offset == offset,
            r.size == size,
    {
        Self { offset, size }
    }

    pub fn end(&self) -> (r: u64)
        requires
            end_fits(*self),
        ensures
            r as int == end_of(*self),
    {
        self.offset + self.size as u64
    }
}

/// An ordered map from intervals to values.
///
/// Entries are kept in ascending interval order; a key appears at most once.
/// Non-overlap of the stored intervals is not enforced here: it is what the
/// caller establishes when it builds the index.
pub struct ChunkMap<V> {
    keys: Vec<ChunkOffsetSize>,
    values: Vec<V>,
}

impl<V> ChunkMap<V> {
    /// The stored intervals, in ascending order.
    pub closed spec fn key_seq(&self) -> Seq<ChunkOffsetSize> {
        self.keys@
    }

    /// The stored values, position for position with `key_seq`.
    pub closed spec fn value_seq(&self) -> Seq<V> {
        self.values@
    }

    pub open spec fn wf(&self) -> bool {
        &&& self.key_seq().len() == self.value_seq().len()
        &&& sorted_keys(self.key_seq())
        &&& forall|i: int| 0 <= i < self.key_seq().len() ==> end_fits(#[trigger] self.key_seq()[i])
    }

    /// The stored intervals are pairwise non-overlapping.
    pub open spec fn non_overlapping(&self) -> bool {
        non_overlapping_keys(self.key_seq())
    }

    /// `r` lists the stored entries at positions `hi - 1` down to `lo`, and
    /// when the stored intervals do not overlap, that window holds every
    /// entry overlapping `q`.
    pub open spec fn is_window(&self, r: Seq<(ChunkOffsetSize, &V)>, lo: int, hi: int, q: ChunkOffsetSize) -> bool {
        &&& 0 <= lo <= hi <= self.key_seq().len()
        &&& r.len() == hi - lo
        &&& forall|k: int| 0 <= k < r.len() ==> (#[trigger] r[k]).0 == self.key_seq()[hi - 1 - k]
            && *r[k].1 == self.value_seq()[hi - 1 - k]
        &&& self.non_overlapping() ==> forall|i: int|
            0 <= i < self.key_seq().len() && overlaps(#[trigger] self.key_seq()[i], q) ==> lo <= i < hi
    }

    /// `self` is `prev` with `value` stored under `location` at position
    /// `pos`: in place of the old value when the key was present, else as a
    /// new entry.
    pub open spec fn inserted_from(&self, prev: Self, pos: int, location: ChunkOffsetSize, value: V) -> bool {
        &&& 0 <= pos <= prev.key_seq().len()
        &&& {
            ||| (pos < prev.key_seq().len() && prev.key_seq()[pos] == location
                && self.key_seq() == prev.key_seq()
                && self.value_seq() == prev.value_seq().update(pos, value))
            ||| ((forall|i: int| 0 <= i < prev.key_seq().len() ==> prev.key_seq()[i] != location)
                && self.key_seq() == prev.key_seq().insert(pos, location)
                && self.value_seq() == prev.value_seq().insert(pos, value))
        }
    }

    pub fn new() -> (r: Self)
        ensures
            r.wf(),
            r.key_seq().len() == 0,
    {
        Self { keys: Vec::new(), values: Vec::new() }
    }

    /// Inserts `value` under `location`, replacing the value of an equal key.
    pub fn insert(&mut self, location: ChunkOffsetSize, value: V)
        requires
            old(self).wf(),
            end_fits(location),
        ensures
            final(self).wf(),
            exists|pos: int| #[trigger] final(self).inserted_from(*old(self), pos, location, value),
    {
        // First position whose key is not below `location`.
        let n = self.keys.len();
        let mut lo: usize = 0;
        let mut hi: usize = n;
        while lo < hi
            invariant
                self.wf(),
                n == self.keys@.len(),
                0 <= lo <= hi <= n,
                forall|i: int| 0 <= i < lo ==> key_lt(#[trigger] self.keys@[i], location),
                forall|i: int| hi <= i < n ==> !key_lt(#[trigger] self.keys@[i], location),
            decreases hi - lo,
        {
            let mid = lo + (hi - lo) / 2;
            let k = self.keys[mid];
            if k.offset < location.offset || (k.offset == location.offset && k.size < location.size) {
                assert forall|i: int| 0 <= i < mid implies key_lt(#[trigger] self.keys@[i], location) by {
                    assert(key_lt(self.keys@[i], self.keys@[mid as int]));
                }
                lo = mid + 1;
            } else {
                assert forall|i: int| mid < i < n implies !key_lt(#[trigger] self.keys@[i], location) by {
                    assert(key_lt(self.keys@[mid as int], self.keys@[i]));
                }
                hi = mid;
            }
        }
        let ghost prev = *self;
        if lo < n && self.keys[lo] == location {
            let ghost old_values = self.values@;
            let _ = self.values.remove(lo);
            self.values.insert(lo, value);
            proof {
                assert(self.values@ == old_values.update(lo as int, value));
                assert(self.inserted_from(prev, lo as int, location, value));
            }
        } else {
            let ghost old_keys = self.keys@;
            self.keys.insert(lo, location);
            self.values.insert(lo, value);
            proof {
                assert forall|i: int| 0 <= i < old_keys.len() implies old_keys[i] != location by {
                    if i > lo {
                        assert(key_lt(old_keys[lo as int], old_keys[i]));
                    }
                }
                assert forall|i: int, j: int| 0 <= i < j < self.keys@.len() implies #[trigger] key_lt(self.keys@[i], self.keys@[j]) by {
                    if i < lo && j > lo {
                        assert(key_lt(location, old_keys[j - 1]) || location == old_keys[j - 1]);
                    }
                }
                assert(self.inserted_from(prev, lo as int, location, value));
            }
        }
    }

    /// Every stored entry that overlaps `location`, latest interval first.
    ///
    /// Each returned entry overlaps `location`; when the stored intervals are
    /// pairwise non-overlapping, every stored entry that overlaps it is returned.
    pub fn iter_overlapping(&self, location: ChunkOffsetSize) -> (r: Vec<(ChunkOffsetSize, &V)>)
        requires
            self.wf(),
            end_fits(location),
        ensures
            exists|lo: int, hi: int| #[trigger] self.is_window(r@, lo, hi, location),
            forall|k: int| 0 <= k < r@.len() ==> overlaps((#[trigger] r@[k]).0, location),
    {
        let qend = location.end();
        let n = self.keys.len();
        // Number of stored intervals that start before the query ends.
        let mut lo: usize = 0;
        let mut hi: usize = n;
        while lo < hi
            invariant
                self.wf(),
                n == self.keys@.len(),
                qend as int == end_of(location),
                0 <= lo <= hi <= n,
                forall|i: int| 0 <= i < lo ==> (#[trigger] self.keys@[i]).offset < qend,
                forall|i: int| hi <= i < n ==> (#[trigger] self.keys@[i]).offset >= qend,
            decreases hi - lo,
        {
            let mid = lo + (hi - lo) / 2;
            if self.keys[mid].offset < qend {
                assert forall|i: int| 0 <= i < mid implies #[trigger] self.keys@[i].offset < qend by {
                    assert(key_lt(self.keys@[i], self.keys@[mid as int]));
                }
                lo = mid + 1;
            } else {
                assert forall|i: int| mid < i < n implies #[trigger] self.keys@[i].offset >= qend by {
                    assert(key_lt(self.keys@[mid as int], self.keys@[i]));
                }
                hi = mid;
            }
        }
        let upper = lo;
        let mut out: Vec<(ChunkOffsetSize, &V)> = Vec::new();
        let mut i: usize = upper;
        while i > 0 && self.keys[i - 1].end() > location.offset
            invariant
                self.wf(),
                n == self.keys@.len(),
                qend as int == end_of(location),
                0 <= i <= upper <= n,
                forall|j: int| 0 <= j < upper ==> (#[trigger] self.keys@[j]).offset < qend,
                forall|j: int| upper <= j < n ==> (#[trigger] self.keys@[j]).offset >= qend,
                out@.len() == upper - i,
                forall|k: int|
                    0 <= k < out@.len() ==> (#[trigger] out@[k]).0 == self.keys@[upper - 1 - k]
                        && *out@[k].1 == self.values@[upper - 1 - k] && overlaps(out@[k].0, location),
            decreases i,
        {
            let k = self.keys[i - 1];
            out.push((k, &self.values[i - 1]));
            i = i - 1;
        }
        proof {
            // When the scan stopped early, everything below it ends before the query starts.
            if i > 0 && self.non_overlapping() {
                assert forall|j: int| 0 <= j < i implies end_of(#[trigger] self.keys@[j]) <= location.offset by {
                    if j < i - 1 {
                        assert(end_of(self.keys@[j]) <= self.keys@[i - 1].offset);
                    }
                }
            }
            assert(self.is_window(out@, i as int, upper as int, location));
        }
        out
    }
}

} // verus!
