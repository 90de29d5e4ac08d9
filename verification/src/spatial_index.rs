//! Sparse uniform-grid spatial index over `u32` object IDs.
//!
//! Each object is stored under the integer cell range its world-space AABB
//! covers. The grid is a sparse `FxHashMap<(i32, i32, i32), Vec<u32>>`, so
//! empty space costs nothing. Inserts, removes and updates touch only the
//! cells of the object; a query visits the occupied cells of the queried
//! range and yields every object found there exactly once.
//!
//! The world-to-cell conversion (division by the cell size and `floor`) is
//! floating-point work done by the caller; this module works on cell
//! coordinates only.
use vstd::prelude::*;
use rustc_hash::FxHashMap;
use crate::fx_map::{fx_clear, fx_get, fx_insert, fx_keys, fx_len, fx_new, fx_remove};

verus! {

/// Integer coordinates of one grid cell.
pub type CellKey = (i32, i32, i32);

/// Inclusive range of grid cells covered by an object or a query.
#[derive(Debug, Clone, Copy, PartialEq, Eq)]
pub struct CellRange {
    /// Lowest cell on each axis.
    pub min: (i32, i32, i32),
    /// Highest cell on each axis.
    pub max: (i32, i32, i32),
}

/// `r` covers cell `k` on all three axes.
pub open spec fn covers(r: CellRange, k: CellKey) -> bool {
    &&& r.min.0 <= k.0 <= r.max.0
    &&& r.min.1 <= k.1 <= r.max.1
    &&& r.min.2 <= k.2 <= r.max.2
}

/// The larger of `a` and `b`.
pub open spec fn imax(a: int, b: int) -> int {
    if a >= b { a } else { b }
}

/// The smaller of `a` and `b`.
pub open spec fn imin(a: int, b: int) -> int {
    if a <= b { a } else { b }
}

/// Two cell ranges share at least one cell.
pub open spec fn ranges_overlap(a: CellRange, b: CellRange) -> bool {
    &&& imax(a.min.0 as int, b.min.0 as int) <= imin(a.max.0 as int, b.max.0 as int)
    &&& imax(a.min.1 as int, b.min.1 as int) <= imin(a.max.1 as int, b.max.1 as int)
    &&& imax(a.min.2 as int, b.min.2 as int) <= imin(a.max.2 as int, b.max.2 as int)
}

/// The cells covered by at least one stored range.
pub open spec fn covered_cells(ranges: Map<u32, CellRange>) -> Set<CellKey> {
    Set::new(|k: CellKey| exists|id: u32| ranges.contains_key(id) && covers(#[trigger] ranges[id], k))
}

/// The occupied cells that a query range covers.
pub open spec fn queried_cells(ranges: Map<u32, CellRange>, q: CellRange) -> Set<CellKey> {
    covered_cells(ranges).filter(|k: CellKey| covers(q, k))
}

/// The objects a query over `q` must report.
pub open spec fn query_result(ranges: Map<u32, CellRange>, q: CellRange) -> Set<u32> {
    Set::new(|id: u32| ranges.contains_key(id) && ranges_overlap(ranges[id], q))
}

/// The number of cells a range spans, as the cost estimate used to pick
/// the query strategy.
pub open spec fn axis_span(lo: i32, hi: i32) -> int {
    if hi as int - lo as int + 1 >= 0 { hi as int - lo as int + 1 } else { 0 }
}

// ---------------------------------------------------------------------------
// The index
// ---------------------------------------------------------------------------

/// Sparse uniform-grid spatial index over `u32` object IDs.
pub struct SpatialIndex {
    cells: FxHashMap<CellKey, Vec<u32>>,
    object_ranges: FxHashMap<u32, CellRange>,
    /// Per-object visit stamp for query dedup, indexed by object ID.
    query_stamp: Vec<u64>,
    next_stamp: u64,
    last_query_visited_cells: u32,
    last_query_visited_candidates: u32,
}

/// Bucket contents that the grid holds for `ranges`: every bucket lists
/// exactly the objects whose range covers its cell, without repeats.
pub open spec fn buckets_match(cells: Map<CellKey, Vec<u32>>, ranges: Map<u32, CellRange>) -> bool {
    &&& forall|k: CellKey| #[trigger] cells.contains_key(k) ==> {
        &&& cells[k]@.len() > 0
        &&& cells[k]@.no_duplicates()
    }
    &&& forall|k: CellKey, id: u32|
        #![trigger cells[k]@.contains(id)]
        cells.contains_key(k) && cells[k]@.contains(id) ==> ranges.contains_key(id) && covers(ranges[id], k)
    &&& forall|k: CellKey, id: u32|
        #![trigger covers(ranges[id], k)]
        ranges.contains_key(id) && covers(ranges[id], k) ==> cells.contains_key(k) && cells[k]@.contains(id)
}

impl SpatialIndex {
    /// The cell range stored for each object.
    pub closed spec fn ranges(&self) -> Map<u32, CellRange> {
        self.object_ranges@
    }

    /// Cells visited by the most recent query.
    pub closed spec fn spec_last_cells(&self) -> u32 {
        self.last_query_visited_cells
    }

    /// Candidates reported by the most recent query.
    pub closed spec fn spec_last_candidates(&self) -> u32 {
        self.last_query_visited_candidates
    }

    /// The query stamp counter: the last stamp a query used.
    pub closed spec fn spec_next_stamp(&self) -> u64 {
        self.next_stamp
    }

    /// The per-ID stamp table that deduplicates query reports.
    pub closed spec fn spec_stamps(&self) -> Seq<u64> {
        self.query_stamp@
    }

    /// Internal consistency of the grid with the stored ranges.
    pub closed spec fn wf(&self) -> bool {
        &&& self.cells@.dom().finite()
        &&& self.object_ranges@.dom().finite()
        &&& buckets_match(self.cells@, self.object_ranges@)
        &&& self.query_stamp@.len() <= u32::MAX + 1
        &&& forall|i: int| 0 <= i < self.query_stamp@.len() ==> self.query_stamp@[i] <= self.next_stamp
    }

    /// Construct a new empty index.
    pub fn new() -> (r: Self)
        ensures
            r.wf(),
            r.ranges() == Map::<u32, CellRange>::empty(),
            r.spec_last_cells() == 0,
            r.spec_last_candidates() == 0,
    {
        SpatialIndex {
            cells: fx_new(),
            object_ranges: fx_new(),
            query_stamp: Vec::new(),
            next_stamp: 0,
            last_query_visited_cells: 0,
            last_query_visited_candidates: 0,
        }
    }

    /// Number of occupied grid cells.
    pub fn cell_count(&self) -> (r: usize)
        requires
            self.wf(),
        ensures
            r == covered_cells(self.ranges()).len(),
    {
        proof {
            self.lemma_cells_are_covered();
        }
        fx_len(&self.cells)
    }

    /// Number of tracked objects.
    pub fn object_count(&self) -> (r: usize)
        ensures
            r == self.ranges().len(),
    {
        fx_len(&self.object_ranges)
    }

    /// Cell count visited by the most recent query.
    pub fn last_query_visited_cells(&self) -> (r: u32)
        ensures
            r == self.spec_last_cells(),
    {
        self.last_query_visited_cells
    }

    /// Candidate object count reported by the most recent query.
    pub fn last_query_visited_candidates(&self) -> (r: u32)
        ensures
            r == self.spec_last_candidates(),
    {
        self.last_query_visited_candidates
    }

    /// The occupied cells are exactly the cells some stored range covers.
    proof fn lemma_cells_are_covered(&self)
        requires
            self.wf(),
        ensures
            self.cells@.dom() == covered_cells(self.object_ranges@),
    {
        let ranges = self.object_ranges@;
        assert forall|k: CellKey| #[trigger] self.cells@.dom().contains(k) implies covered_cells(ranges).contains(k) by {
            let id = self.cells@[k]@[0];
            assert(self.cells@[k]@.contains(id));
        }
        assert forall|k: CellKey| #[trigger] covered_cells(ranges).contains(k) implies self.cells@.dom().contains(k) by {
            let id = choose|id: u32| ranges.contains_key(id) && covers(#[trigger] ranges[id], k);
            assert(covers(ranges[id], k));
        }
        assert(self.cells@.dom() =~= covered_cells(ranges));
    }

    /// Drop every entry.
    pub fn clear(&mut self)
        requires
            old(self).wf(),
        ensures
            final(self).wf(),
            final(self).ranges() == Map::<u32, CellRange>::empty(),
            final(self).spec_last_cells() == 0,
            final(self).spec_last_candidates() == 0,
    {
        fx_clear(&mut self.cells);
        fx_clear(&mut self.object_ranges);
        self.last_query_visited_cells = 0;
        self.last_query_visited_candidates = 0;
    }
}


// ---------------------------------------------------------------------------
// Bucket maintenance
// ---------------------------------------------------------------------------

/// `k` is covered by `r` and comes before cell `(x, y, z)` in the order the
/// cell loops walk a range (x outermost, z innermost).
pub open spec fn walked(r: CellRange, k: CellKey, x: int, y: int, z: int) -> bool {
    &&& covers(r, k)
    &&& (k.0 < x || (k.0 == x && (k.1 < y || (k.1 == y && k.2 < z))))
}

/// The bucket under `k`, or the empty sequence when the cell is empty.
pub open spec fn bucket_of(m: Map<CellKey, Vec<u32>>, k: CellKey) -> Seq<u32> {
    if m.contains_key(k) { m[k]@ } else { Seq::empty() }
}

/// `cur` is `old` with `id` appended to the bucket of every cell walked so far.
pub open spec fn added_so_far(
    old: Map<CellKey, Vec<u32>>,
    cur: Map<CellKey, Vec<u32>>,
    id: u32,
    r: CellRange,
    x: int,
    y: int,
    z: int,
) -> bool {
    &&& cur.dom().finite()
    &&& forall|k: CellKey| #[trigger] cur.contains_key(k) <==> old.contains_key(k) || walked(r, k, x, y, z)
    &&& forall|k: CellKey| #[trigger] cur.contains_key(k) && !walked(r, k, x, y, z) ==> cur[k] == old[k]
    &&& forall|k: CellKey| #[trigger] walked(r, k, x, y, z) ==> cur[k]@ == bucket_of(old, k).push(id)
}

/// `cur` is `old` with `id` taken out of the bucket of every cell walked so
/// far, and with the cells whose bucket became empty dropped.
pub open spec fn removed_so_far(
    old: Map<CellKey, Vec<u32>>,
    cur: Map<CellKey, Vec<u32>>,
    id: u32,
    r: CellRange,
    x: int,
    y: int,
    z: int,
) -> bool {
    &&& cur.dom().finite()
    &&& forall|k: CellKey| #[trigger] cur.contains_key(k) ==> old.contains_key(k)
    &&& forall|k: CellKey| #[trigger] cur.contains_key(k) ==> cur[k]@.len() > 0 && cur[k]@.no_duplicates()
    &&& forall|k: CellKey| #[trigger] old.contains_key(k) && !walked(r, k, x, y, z) ==> cur.contains_key(k) && cur[k] == old[k]
    &&& forall|k: CellKey, v: u32|
        #![trigger cur[k]@.contains(v)]
        walked(r, k, x, y, z) && cur.contains_key(k) && cur[k]@.contains(v) ==> old[k]@.contains(v) && v != id
    &&& forall|k: CellKey, v: u32|
        #![trigger old[k]@.contains(v), walked(r, k, x, y, z)]
        walked(r, k, x, y, z) && old.contains_key(k) && old[k]@.contains(v) && v != id ==> cur.contains_key(k) && cur[k]@.contains(v)
}

/// Removing the element at position `p` by swapping in the last element
/// removes exactly that value from a sequence without repeats.
pub(crate) proof fn lemma_swap_remove(s: Seq<u32>, p: int)
    requires
        s.no_duplicates(),
        0 <= p < s.len(),
    ensures
        s.update(p, s.last()).drop_last().no_duplicates(),
        s.update(p, s.last()).drop_last().len() == s.len() - 1,
        forall|v: u32| #[trigger] s.update(p, s.last()).drop_last().contains(v) <==> s.contains(v) && v != s[p],
{
    let t = s.update(p, s.last()).drop_last();
    let n = s.len();
    assert forall|i: int, j: int| 0 <= i < t.len() && 0 <= j < t.len() && i != j implies t[i] != t[j] by {
        let si = if i == p { n - 1 } else { i };
        let sj = if j == p { n - 1 } else { j };
        assert(t[i] == s[si]);
        assert(t[j] == s[sj]);
    }
    assert forall|v: u32| #[trigger] t.contains(v) <==> s.contains(v) && v != s[p] by {
        if t.contains(v) {
            let i = choose|i: int| 0 <= i < t.len() && t[i] == v;
            let si = if i == p { n - 1 } else { i };
            assert(s[si] == v);
            assert(si != p);
        }
        if s.contains(v) && v != s[p] {
            let i = choose|i: int| 0 <= i < s.len() && s[i] == v;
            assert(i != p);
            if i == n - 1 {
                assert(t[p] == v);
            } else {
                assert(t[i] == v);
            }
        }
    }
}

/// Position of `id` in `v`, if it occurs.
fn position_of(v: &Vec<u32>, id: u32) -> (r: Option<usize>)
    ensures
        match r {
            Some(p) => p < v@.len() && v@[p as int] == id,
            None => !v@.contains(id),
        },
{
    let mut i: usize = 0;
    while i < v.len()
        invariant
            i <= v@.len(),
            forall|j: int| 0 <= j < i ==> v@[j] != id,
        decreases v@.len() - i,
    {
        if v[i] == id {
            return Some(i);
        }
        i = i + 1;
    }
    None
}

fn same_range(a: &CellRange, b: &CellRange) -> (r: bool)
    ensures
        r <==> *a == *b,
{
    a.min.0 == b.min.0 && a.min.1 == b.min.1 && a.min.2 == b.min.2 && a.max.0 == b.max.0
        && a.max.1 == b.max.1 && a.max.2 == b.max.2
}

impl SpatialIndex {
    /// Append `id` to the bucket of every cell `range` covers.
    fn add_to_cells(&mut self, id: u32, range: CellRange)
        requires
            old(self).cells@.dom().finite(),
            forall|k: CellKey| covers(range, k) && #[trigger] old(self).cells@.contains_key(k) ==> !old(self).cells@[k]@.contains(id),
        ensures
            added_so_far(old(self).cells@, final(self).cells@, id, range, range.max.0 + 1, range.min.1 as int, range.min.2 as int),
            forall|k: CellKey| walked(range, k, range.max.0 + 1, range.min.1 as int, range.min.2 as int) <==> #[trigger] covers(range, k),
            final(self).object_ranges == old(self).object_ranges,
            final(self).query_stamp == old(self).query_stamp,
            final(self).next_stamp == old(self).next_stamp,
            final(self).last_query_visited_cells == old(self).last_query_visited_cells,
            final(self).last_query_visited_candidates == old(self).last_query_visited_candidates,
    {
        let ghost old_cells = self.cells@;
        let ghost lo0 = range.min.0 as int;
        let ghost lo1 = range.min.1 as int;
        let ghost lo2 = range.min.2 as int;
        let ghost hi0 = range.max.0 as int;
        let ghost hi1 = range.max.1 as int;
        let ghost hi2 = range.max.2 as int;
        let mut x: i64 = range.min.0 as i64;
        while x <= range.max.0 as i64
            invariant
                lo0 == range.min.0 as int && lo1 == range.min.1 as int && lo2 == range.min.2 as int,
                hi0 == range.max.0 as int && hi1 == range.max.1 as int && hi2 == range.max.2 as int,
                lo0 <= x <= hi0 + 1 || x == lo0,
                added_so_far(old_cells, self.cells@, id, range, x as int, lo1, lo2),
                forall|k: CellKey| covers(range, k) && #[trigger] old_cells.contains_key(k) ==> !old_cells[k]@.contains(id),
                self.object_ranges == old(self).object_ranges,
                self.query_stamp == old(self).query_stamp,
                self.next_stamp == old(self).next_stamp,
                self.last_query_visited_cells == old(self).last_query_visited_cells,
                self.last_query_visited_candidates == old(self).last_query_visited_candidates,
            decreases hi0 + 1 - x,
        {
            let mut y: i64 = range.min.1 as i64;
            while y <= range.max.1 as i64
                invariant
                    lo0 == range.min.0 as int && lo1 == range.min.1 as int && lo2 == range.min.2 as int,
                    hi0 == range.max.0 as int && hi1 == range.max.1 as int && hi2 == range.max.2 as int,
                    lo0 <= x <= hi0,
                    lo1 <= y <= hi1 + 1 || y == lo1,
                    added_so_far(old_cells, self.cells@, id, range, x as int, y as int, lo2),
                    forall|k: CellKey| covers(range, k) && #[trigger] old_cells.contains_key(k) ==> !old_cells[k]@.contains(id),
                    self.object_ranges == old(self).object_ranges,
                    self.query_stamp == old(self).query_stamp,
                    self.next_stamp == old(self).next_stamp,
                    self.last_query_visited_cells == old(self).last_query_visited_cells,
                    self.last_query_visited_candidates == old(self).last_query_visited_candidates,
                decreases hi1 + 1 - y,
            {
                let mut z: i64 = range.min.2 as i64;
                while z <= range.max.2 as i64
                    invariant
                        lo0 == range.min.0 as int && lo1 == range.min.1 as int && lo2 == range.min.2 as int,
                        hi0 == range.max.0 as int && hi1 == range.max.1 as int && hi2 == range.max.2 as int,
                        lo0 <= x <= hi0,
                        lo1 <= y <= hi1,
                        lo2 <= z <= hi2 + 1 || z == lo2,
                        added_so_far(old_cells, self.cells@, id, range, x as int, y as int, z as int),
                        forall|k: CellKey| covers(range, k) && #[trigger] old_cells.contains_key(k) ==> !old_cells[k]@.contains(id),
                        self.object_ranges == old(self).object_ranges,
                        self.query_stamp == old(self).query_stamp,
                        self.next_stamp == old(self).next_stamp,
                        self.last_query_visited_cells == old(self).last_query_visited_cells,
                        self.last_query_visited_candidates == old(self).last_query_visited_candidates,
                    decreases hi2 + 1 - z,
                {
                    let key: CellKey = (x as i32, y as i32, z as i32);
                    let ghost before = self.cells@;
                    let mut bucket = match fx_remove(&mut self.cells, key) {
                        Some(b) => b,
                        None => Vec::new(),
                    };
                    proof {
                        assert(!walked(range, key, x as int, y as int, z as int));
                        assert(bucket@ == bucket_of(old_cells, key)) by {
                            if before.contains_key(key) {
                                assert(before[key] == old_cells[key]);
                            }
                        }
                    }
                    bucket.push(id);
                    fx_insert(&mut self.cells, key, bucket);
                    proof {
                        let cur = self.cells@;
                        assert forall|k: CellKey| walked(range, k, x as int, y as int, z + 1) <==> (walked(range, k, x as int, y as int, z as int) || k == key) by {}
                        assert forall|k: CellKey| #[trigger] cur.contains_key(k) <==> old_cells.contains_key(k) || walked(range, k, x as int, y as int, z + 1) by {
                            assert(walked(range, k, x as int, y as int, z + 1) <==> (walked(range, k, x as int, y as int, z as int) || k == key));
                        }
                        assert forall|k: CellKey| #[trigger] walked(range, k, x as int, y as int, z + 1) implies cur[k]@ == bucket_of(old_cells, k).push(id) by {
                            if k != key {
                                assert(walked(range, k, x as int, y as int, z as int));
                            }
                        }
                        assert forall|k: CellKey| #[trigger] cur.contains_key(k) && !walked(range, k, x as int, y as int, z + 1) implies cur[k] == old_cells[k] by {
                            assert(k != key);
                            assert(!walked(range, k, x as int, y as int, z as int));
                        }
                    }
                    z = z + 1;
                }
                proof {
                    assert forall|k: CellKey| walked(range, k, x as int, y as int, z as int) <==> walked(range, k, x as int, y + 1, lo2) by {}
                    assert forall|k: CellKey| #[trigger] self.cells@.contains_key(k) <==> old_cells.contains_key(k) || walked(range, k, x as int, y + 1, lo2) by {
                        assert(walked(range, k, x as int, y as int, z as int) <==> walked(range, k, x as int, y + 1, lo2));
                    }
                    assert forall|k: CellKey| #[trigger] self.cells@.contains_key(k) && !walked(range, k, x as int, y + 1, lo2) implies self.cells@[k] == old_cells[k] by {
                        assert(walked(range, k, x as int, y as int, z as int) <==> walked(range, k, x as int, y + 1, lo2));
                    }
                    assert forall|k: CellKey| #[trigger] walked(range, k, x as int, y + 1, lo2) implies self.cells@[k]@ == bucket_of(old_cells, k).push(id) by {
                        assert(walked(range, k, x as int, y as int, z as int));
                    }
                }
                y = y + 1;
            }
            proof {
                assert forall|k: CellKey| walked(range, k, x as int, y as int, lo2) <==> walked(range, k, x + 1, lo1, lo2) by {}
                assert forall|k: CellKey| #[trigger] self.cells@.contains_key(k) <==> old_cells.contains_key(k) || walked(range, k, x + 1, lo1, lo2) by {
                    assert(walked(range, k, x as int, y as int, lo2) <==> walked(range, k, x + 1, lo1, lo2));
                }
                assert forall|k: CellKey| #[trigger] self.cells@.contains_key(k) && !walked(range, k, x + 1, lo1, lo2) implies self.cells@[k] == old_cells[k] by {
                    assert(walked(range, k, x as int, y as int, lo2) <==> walked(range, k, x + 1, lo1, lo2));
                }
                assert forall|k: CellKey| #[trigger] walked(range, k, x + 1, lo1, lo2) implies self.cells@[k]@ == bucket_of(old_cells, k).push(id) by {
                    assert(walked(range, k, x as int, y as int, lo2));
                }
            }
            x = x + 1;
        }
        proof {
            assert forall|k: CellKey| walked(range, k, x as int, lo1, lo2) <==> walked(range, k, hi0 + 1, lo1, lo2) by {}
            assert forall|k: CellKey| #[trigger] self.cells@.contains_key(k) <==> old_cells.contains_key(k) || walked(range, k, hi0 + 1, lo1, lo2) by {
                assert(walked(range, k, x as int, lo1, lo2) <==> walked(range, k, hi0 + 1, lo1, lo2));
            }
            assert forall|k: CellKey| #[trigger] self.cells@.contains_key(k) && !walked(range, k, hi0 + 1, lo1, lo2) implies self.cells@[k] == old_cells[k] by {
                assert(walked(range, k, x as int, lo1, lo2) <==> walked(range, k, hi0 + 1, lo1, lo2));
            }
            assert forall|k: CellKey| #[trigger] walked(range, k, hi0 + 1, lo1, lo2) implies self.cells@[k]@ == bucket_of(old_cells, k).push(id) by {
                assert(walked(range, k, x as int, lo1, lo2));
            }
        }
    }

    /// Take `id` out of the bucket of every cell `range` covers, dropping
    /// cells whose bucket becomes empty.
    fn remove_from_cells(&mut self, id: u32, range: CellRange)
        requires
            old(self).cells@.dom().finite(),
            forall|k: CellKey| #[trigger] old(self).cells@.contains_key(k) ==> old(self).cells@[k]@.len() > 0 && old(self).cells@[k]@.no_duplicates(),
        ensures
            removed_so_far(old(self).cells@, final(self).cells@, id, range, range.max.0 + 1, range.min.1 as int, range.min.2 as int),
            forall|k: CellKey| walked(range, k, range.max.0 + 1, range.min.1 as int, range.min.2 as int) <==> #[trigger] covers(range, k),
            final(self).object_ranges == old(self).object_ranges,
            final(self).query_stamp == old(self).query_stamp,
            final(self).next_stamp == old(self).next_stamp,
            final(self).last_query_visited_cells == old(self).last_query_visited_cells,
            final(self).last_query_visited_candidates == old(self).last_query_visited_candidates,
    {
        let ghost old_cells = self.cells@;
        let ghost lo0 = range.min.0 as int;
        let ghost lo1 = range.min.1 as int;
        let ghost lo2 = range.min.2 as int;
        let ghost hi0 = range.max.0 as int;
        let ghost hi1 = range.max.1 as int;
        let ghost hi2 = range.max.2 as int;
        let mut x: i64 = range.min.0 as i64;
        while x <= range.max.0 as i64
            invariant
                lo0 == range.min.0 as int && lo1 == range.min.1 as int && lo2 == range.min.2 as int,
                hi0 == range.max.0 as int && hi1 == range.max.1 as int && hi2 == range.max.2 as int,
                lo0 <= x <= hi0 + 1 || x == lo0,
                removed_so_far(old_cells, self.cells@, id, range, x as int, lo1, lo2),
                forall|k: CellKey| #[trigger] old_cells.contains_key(k) ==> old_cells[k]@.len() > 0 && old_cells[k]@.no_duplicates(),
                self.object_ranges == old(self).object_ranges,
                self.query_stamp == old(self).query_stamp,
                self.next_stamp == old(self).next_stamp,
                self.last_query_visited_cells == old(self).last_query_visited_cells,
                self.last_query_visited_candidates == old(self).last_query_visited_candidates,
            decreases hi0 + 1 - x,
        {
            let mut y: i64 = range.min.1 as i64;
            while y <= range.max.1 as i64
                invariant
                    lo0 == range.min.0 as int && lo1 == range.min.1 as int && lo2 == range.min.2 as int,
                    hi0 == range.max.0 as int && hi1 == range.max.1 as int && hi2 == range.max.2 as int,
                    lo0 <= x <= hi0,
                    lo1 <= y <= hi1 + 1 || y == lo1,
                    removed_so_far(old_cells, self.cells@, id, range, x as int, y as int, lo2),
                    forall|k: CellKey| #[trigger] old_cells.contains_key(k) ==> old_cells[k]@.len() > 0 && old_cells[k]@.no_duplicates(),
                    self.object_ranges == old(self).object_ranges,
                    self.query_stamp == old(self).query_stamp,
                    self.next_stamp == old(self).next_stamp,
                    self.last_query_visited_cells == old(self).last_query_visited_cells,
                    self.last_query_visited_candidates == old(self).last_query_visited_candidates,
                decreases hi1 + 1 - y,
            {
                let mut z: i64 = range.min.2 as i64;
                while z <= range.max.2 as i64
                    invariant
                        lo0 == range.min.0 as int && lo1 == range.min.1 as int && lo2 == range.min.2 as int,
                        hi0 == range.max.0 as int && hi1 == range.max.1 as int && hi2 == range.max.2 as int,
                        lo0 <= x <= hi0,
                        lo1 <= y <= hi1,
                        lo2 <= z <= hi2 + 1 || z == lo2,
                        removed_so_far(old_cells, self.cells@, id, range, x as int, y as int, z as int),
                        forall|k: CellKey| #[trigger] old_cells.contains_key(k) ==> old_cells[k]@.len() > 0 && old_cells[k]@.no_duplicates(),
                        self.object_ranges == old(self).object_ranges,
                        self.query_stamp == old(self).query_stamp,
                        self.next_stamp == old(self).next_stamp,
                        self.last_query_visited_cells == old(self).last_query_visited_cells,
                        self.last_query_visited_candidates == old(self).last_query_visited_candidates,
                    decreases hi2 + 1 - z,
                {
                    let key: CellKey = (x as i32, y as i32, z as i32);
                    let ghost before = self.cells@;
                    let ghost xi = x as int;
                    let ghost yi = y as int;
                    let ghost zi = z as int;
                    proof {
                        assert(!walked(range, key, xi, yi, zi));
                        assert(walked(range, key, xi, yi, zi + 1));
                        assert(forall|k: CellKey| walked(range, k, xi, yi, zi + 1) <==> (walked(range, k, xi, yi, zi) || k == key));
                    }
                    match fx_remove(&mut self.cells, key) {
                        Some(mut bucket) => {
                            proof {
                                assert(old_cells.contains_key(key));
                                assert(bucket == old_cells[key]);
                            }
                            let ghost b0 = bucket@;
                            match position_of(&bucket, id) {
                                Some(p) => {
                                    proof {
                                        lemma_swap_remove(b0, p as int);
                                    }
                                    bucket.swap_remove(p);
                                },
                                None => {},
                            }
                            proof {
                                assert(bucket@.no_duplicates());
                                assert(forall|v: u32| #[trigger] bucket@.contains(v) <==> b0.contains(v) && v != id);
                            }
                            if bucket.len() > 0 {
                                fx_insert(&mut self.cells, key, bucket);
                            }
                        },
                        None => {
                            proof {
                                assert(!old_cells.contains_key(key));
                            }
                        },
                    }
                    proof {
                        let cur = self.cells@;
                        assert forall|k: CellKey| #[trigger] cur.contains_key(k) implies old_cells.contains_key(k) by {
                            if k != key {
                                assert(before.contains_key(k));
                            }
                        }
                        assert forall|k: CellKey| #[trigger] cur.contains_key(k) implies cur[k]@.len() > 0 && cur[k]@.no_duplicates() by {
                            if k != key {
                                assert(before.contains_key(k));
                            }
                        }
                        assert forall|k: CellKey| #[trigger] old_cells.contains_key(k) && !walked(range, k, xi, yi, zi + 1) implies cur.contains_key(k) && cur[k] == old_cells[k] by {
                            assert(k != key);
                            assert(!walked(range, k, xi, yi, zi));
                        }
                        assert forall|k: CellKey, v: u32|
                            walked(range, k, xi, yi, zi + 1) && cur.contains_key(k) && #[trigger] cur[k]@.contains(v) implies old_cells[k]@.contains(v) && v != id by {
                            if k != key {
                                assert(walked(range, k, xi, yi, zi));
                                assert(before.contains_key(k));
                                assert(cur[k] == before[k]);
                            }
                        }
                        assert forall|k: CellKey, v: u32|
                            walked(range, k, xi, yi, zi + 1) && old_cells.contains_key(k) && #[trigger] old_cells[k]@.contains(v) && v != id implies cur.contains_key(k) && cur[k]@.contains(v) by {
                            if k != key {
                                assert(walked(range, k, xi, yi, zi));
                                assert(before.contains_key(k) && before[k]@.contains(v));
                            }
                        }
                    }
                    z = z + 1;
                }
                proof {
                    let xi = x as int;
                    let yi = y as int;
                    assert(forall|k: CellKey| walked(range, k, xi, yi, z as int) <==> walked(range, k, xi, yi + 1, lo2));
                }
                y = y + 1;
            }
            proof {
                let xi = x as int;
                assert(forall|k: CellKey| walked(range, k, xi, y as int, lo2) <==> walked(range, k, xi + 1, lo1, lo2));
            }
            x = x + 1;
        }
        proof {
            assert(forall|k: CellKey| walked(range, k, x as int, lo1, lo2) <==> walked(range, k, hi0 + 1, lo1, lo2));
        }
    }
}


/// Taking `id` out of every cell of its stored range leaves a grid that
/// matches the stored ranges without `id`.
proof fn lemma_grid_after_remove(
    old_cells: Map<CellKey, Vec<u32>>,
    cur: Map<CellKey, Vec<u32>>,
    ranges: Map<u32, CellRange>,
    id: u32,
    r: CellRange,
)
    requires
        buckets_match(old_cells, ranges),
        ranges.contains_key(id) ==> ranges[id] == r,
        removed_so_far(old_cells, cur, id, r, r.max.0 + 1, r.min.1 as int, r.min.2 as int),
        forall|k: CellKey| walked(r, k, r.max.0 + 1, r.min.1 as int, r.min.2 as int) <==> #[trigger] covers(r, k),
    ensures
        buckets_match(cur, ranges.remove(id)),
{
    let x = r.max.0 + 1;
    let y = r.min.1 as int;
    let z = r.min.2 as int;
    let nr = ranges.remove(id);
    assert forall|k: CellKey, v: u32|
        #![trigger cur[k]@.contains(v)]
        cur.contains_key(k) && cur[k]@.contains(v) implies nr.contains_key(v) && covers(nr[v], k) by {
        assert(old_cells.contains_key(k));
        if walked(r, k, x, y, z) {
            assert(old_cells[k]@.contains(v) && v != id);
        } else {
            assert(cur[k] == old_cells[k]);
            if v == id {
                assert(covers(ranges[id], k));
                assert(covers(r, k));
            }
        }
    }
    assert forall|k: CellKey, v: u32|
        #![trigger covers(nr[v], k)]
        nr.contains_key(v) && covers(nr[v], k) implies cur.contains_key(k) && cur[k]@.contains(v) by {
        assert(covers(ranges[v], k));
        assert(old_cells.contains_key(k) && old_cells[k]@.contains(v));
        if !walked(r, k, x, y, z) {
            assert(cur.contains_key(k) && cur[k] == old_cells[k]);
        }
    }
}

/// Adding `id`, which the grid does not hold yet, to every cell of `r`
/// gives a grid that matches the stored ranges with `id` mapped to `r`.
proof fn lemma_grid_after_add(
    old_cells: Map<CellKey, Vec<u32>>,
    cur: Map<CellKey, Vec<u32>>,
    ranges: Map<u32, CellRange>,
    id: u32,
    r: CellRange,
)
    requires
        buckets_match(old_cells, ranges),
        !ranges.contains_key(id),
        added_so_far(old_cells, cur, id, r, r.max.0 + 1, r.min.1 as int, r.min.2 as int),
        forall|k: CellKey| walked(r, k, r.max.0 + 1, r.min.1 as int, r.min.2 as int) <==> #[trigger] covers(r, k),
    ensures
        buckets_match(cur, ranges.insert(id, r)),
{
    let x = r.max.0 + 1;
    let y = r.min.1 as int;
    let z = r.min.2 as int;
    let nr = ranges.insert(id, r);
    assert forall|k: CellKey| #[trigger] cur.contains_key(k) implies cur[k]@.len() > 0 && cur[k]@.no_duplicates() by {
        if walked(r, k, x, y, z) {
            let b = bucket_of(old_cells, k);
            assert(!b.contains(id)) by {
                if b.contains(id) {
                    assert(old_cells.contains_key(k));
                    assert(old_cells[k]@.contains(id));
                }
            }
            assert(cur[k]@ == b.push(id));
            assert forall|i: int, j: int| 0 <= i < cur[k]@.len() && 0 <= j < cur[k]@.len() && i != j implies cur[k]@[i] != cur[k]@[j] by {
                if i < b.len() && j < b.len() {
                } else if i < b.len() {
                    assert(b.contains(b[i]));
                } else if j < b.len() {
                    assert(b.contains(b[j]));
                }
            }
        }
    }
    assert forall|k: CellKey, v: u32|
        #![trigger cur[k]@.contains(v)]
        cur.contains_key(k) && cur[k]@.contains(v) implies nr.contains_key(v) && covers(nr[v], k) by {
        if walked(r, k, x, y, z) {
            let b = bucket_of(old_cells, k);
            assert(cur[k]@ == b.push(id));
            if v != id {
                let i = choose|i: int| 0 <= i < cur[k]@.len() && cur[k]@[i] == v;
                assert(i < b.len());
                assert(b.contains(v));
                assert(old_cells.contains_key(k));
                assert(old_cells[k]@.contains(v));
            }
        } else {
            assert(cur[k] == old_cells[k]);
            assert(old_cells.contains_key(k));
            assert(old_cells[k]@.contains(v));
        }
    }
    assert forall|k: CellKey, v: u32|
        #![trigger covers(nr[v], k)]
        nr.contains_key(v) && covers(nr[v], k) implies cur.contains_key(k) && cur[k]@.contains(v) by {
        if v == id {
            assert(covers(r, k));
            assert(walked(r, k, x, y, z));
            assert(cur[k]@ == bucket_of(old_cells, k).push(id));
            assert(cur[k]@[cur[k]@.len() - 1] == id);
        } else {
            assert(covers(ranges[v], k));
            assert(old_cells.contains_key(k) && old_cells[k]@.contains(v));
            if walked(r, k, x, y, z) {
                let b = bucket_of(old_cells, k);
                assert(cur[k]@ == b.push(id));
                let i = choose|i: int| 0 <= i < b.len() && b[i] == v;
                assert(cur[k]@[i] == v);
            } else {
                assert(cur.contains_key(k));
                assert(cur[k] == old_cells[k]);
            }
        }
    }
}

impl SpatialIndex {
    /// Insert (or re-insert) `id` covering the cell range `range`. If the
    /// object was already present under another range, its old entries are
    /// removed first; re-inserting the same range changes nothing.
    pub fn insert(&mut self, id: u32, range: CellRange)
        requires
            old(self).wf(),
        ensures
            final(self).wf(),
            final(self).ranges() == old(self).ranges().insert(id, range),
            final(self).spec_last_cells() == old(self).spec_last_cells(),
            final(self).spec_last_candidates() == old(self).spec_last_candidates(),
    {
        let ghost ranges0 = self.object_ranges@;
        let ghost cells0 = self.cells@;
        let prev = fx_insert(&mut self.object_ranges, id, range);
        match prev {
            Some(old_range) => {
                if same_range(&old_range, &range) {
                    assert(self.object_ranges@ =~= ranges0);
                    return;
                }
                self.remove_from_cells(id, old_range);
                proof {
                    lemma_grid_after_remove(cells0, self.cells@, ranges0, id, old_range);
                }
            },
            None => {
                assert(ranges0.remove(id) =~= ranges0);
            },
        }
        let ghost cells1 = self.cells@;
        proof {
            let r1 = ranges0.remove(id);
            assert forall|k: CellKey| covers(range, k) && #[trigger] cells1.contains_key(k) implies !cells1[k]@.contains(id) by {
                if cells1[k]@.contains(id) {
                    assert(r1.contains_key(id));
                }
            }
        }
        self.add_to_cells(id, range);
        proof {
            lemma_grid_after_add(cells1, self.cells@, ranges0.remove(id), id, range);
            assert(ranges0.remove(id).insert(id, range) =~= ranges0.insert(id, range));
        }
    }

    /// Move `id` to the cell range `range`; an untracked `id` is inserted.
    pub fn update(&mut self, id: u32, range: CellRange)
        requires
            old(self).wf(),
        ensures
            final(self).wf(),
            final(self).ranges() == old(self).ranges().insert(id, range),
            final(self).spec_last_cells() == old(self).spec_last_cells(),
            final(self).spec_last_candidates() == old(self).spec_last_candidates(),
    {
        self.insert(id, range);
    }

    /// Remove `id` and all of its cell entries. Returns `true` when the
    /// entry existed.
    pub fn remove(&mut self, id: u32) -> (r: bool)
        requires
            old(self).wf(),
        ensures
            final(self).wf(),
            r == old(self).ranges().contains_key(id),
            final(self).ranges() == old(self).ranges().remove(id),
            final(self).spec_last_cells() == old(self).spec_last_cells(),
            final(self).spec_last_candidates() == old(self).spec_last_candidates(),
    {
        let ghost ranges0 = self.object_ranges@;
        let ghost cells0 = self.cells@;
        match fx_remove(&mut self.object_ranges, id) {
            Some(range) => {
                self.remove_from_cells(id, range);
                proof {
                    lemma_grid_after_remove(cells0, self.cells@, ranges0, id, range);
                }
                true
            },
            None => {
                assert(ranges0.remove(id) =~= ranges0);
                false
            },
        }
    }
}


// ---------------------------------------------------------------------------
// Queries
// ---------------------------------------------------------------------------

/// `n` clamped to the `u32` range, as saturating counters report it.
pub open spec fn sat_u32(n: int) -> u32 {
    if n >= u32::MAX { u32::MAX } else { n as u32 }
}

/// The objects listed in the buckets of the cells in `seen`.
pub open spec fn ids_in(cells: Map<CellKey, Vec<u32>>, seen: Set<CellKey>) -> Set<u32> {
    Set::new(|id: u32| exists|k: CellKey| seen.contains(k) && cells.contains_key(k) && #[trigger] cells[k]@.contains(id))
}

/// The stamp table marks exactly the IDs reported so far with `stamp`, and
/// every reported ID that has a slot in the table is marked.
pub open spec fn stamps_track(qs: Seq<u64>, stamp: u64, result: Seq<u32>) -> bool {
    &&& qs.len() <= u32::MAX + 1
    &&& forall|i: int| 0 <= i < qs.len() ==> #[trigger] qs[i] <= stamp
    &&& forall|i: int| 0 <= i < qs.len() ==> (#[trigger] qs[i] == stamp <==> result.contains(i as u32))
    &&& forall|id: u32| #[trigger] result.contains(id) ==> id < qs.len() || id + 1 > usize::MAX
}

/// Two ranges overlap exactly when some cell lies in both.
proof fn lemma_overlap_witness(a: CellRange, q: CellRange)
    ensures
        ranges_overlap(a, q) <==> exists|k: CellKey| covers(a, k) && #[trigger] covers(q, k),
{
    if ranges_overlap(a, q) {
        let k: CellKey = (
            if a.min.0 >= q.min.0 { a.min.0 } else { q.min.0 },
            if a.min.1 >= q.min.1 { a.min.1 } else { q.min.1 },
            if a.min.2 >= q.min.2 { a.min.2 } else { q.min.2 },
        );
        assert(covers(a, k) && covers(q, k));
    }
}

/// Visiting exactly the occupied cells inside `q` reports exactly the
/// objects whose range overlaps `q`.
proof fn lemma_query_sets(cells: Map<CellKey, Vec<u32>>, ranges: Map<u32, CellRange>, q: CellRange, seen: Set<CellKey>)
    requires
        buckets_match(cells, ranges),
        cells.dom() == covered_cells(ranges),
        forall|k: CellKey| #[trigger] seen.contains(k) <==> cells.contains_key(k) && covers(q, k),
    ensures
        seen == queried_cells(ranges, q),
        ids_in(cells, seen) == query_result(ranges, q),
{
    assert(seen =~= queried_cells(ranges, q));
    assert forall|id: u32| #[trigger] ids_in(cells, seen).contains(id) <==> query_result(ranges, q).contains(id) by {
        lemma_overlap_witness(ranges[id], q);
        if ids_in(cells, seen).contains(id) {
            let k = choose|k: CellKey| seen.contains(k) && cells.contains_key(k) && #[trigger] cells[k]@.contains(id);
            assert(covers(ranges[id], k));
        }
        if query_result(ranges, q).contains(id) {
            let k = choose|k: CellKey| covers(ranges[id], k) && #[trigger] covers(q, k);
            assert(cells.contains_key(k) && cells[k]@.contains(id));
            assert(seen.contains(k));
        }
    }
    assert(ids_in(cells, seen) =~= query_result(ranges, q));
}

/// Adding one occupied cell to the visited set adds its bucket to the
/// reported objects.
proof fn lemma_ids_in_insert(cells: Map<CellKey, Vec<u32>>, seen: Set<CellKey>, key: CellKey)
    requires
        cells.contains_key(key),
    ensures
        forall|id: u32| #[trigger] ids_in(cells, seen.insert(key)).contains(id) <==> ids_in(cells, seen).contains(id) || cells[key]@.contains(id),
{
    assert forall|id: u32| #[trigger] ids_in(cells, seen.insert(key)).contains(id) <==> ids_in(cells, seen).contains(id) || cells[key]@.contains(id) by {
        if ids_in(cells, seen.insert(key)).contains(id) {
            let k = choose|k: CellKey| seen.insert(key).contains(k) && cells.contains_key(k) && #[trigger] cells[k]@.contains(id);
            if k != key {
                assert(seen.contains(k));
            }
        }
        if cells[key]@.contains(id) {
            assert(seen.insert(key).contains(key));
        }
        if ids_in(cells, seen).contains(id) {
            let k = choose|k: CellKey| seen.contains(k) && cells.contains_key(k) && #[trigger] cells[k]@.contains(id);
            assert(seen.insert(key).contains(k));
        }
    }
}

/// Report every ID of `bucket` not reported yet in this query.
fn visit_bucket(bucket: &Vec<u32>, stamp: u64, query_stamp: &mut Vec<u64>, visited_candidates: &mut u32, result: &mut Vec<u32>)
    requires
        stamp > 0,
        stamps_track(old(query_stamp)@, stamp, old(result)@),
        old(result)@.no_duplicates(),
        *old(visited_candidates) == sat_u32(old(result)@.len() as int),
    ensures
        stamps_track(final(query_stamp)@, stamp, final(result)@),
        final(result)@.no_duplicates(),
        forall|id: u32| #[trigger] final(result)@.contains(id) <==> old(result)@.contains(id) || bucket@.contains(id),
        *final(visited_candidates) == sat_u32(final(result)@.len() as int),
{
    let ghost result0 = result@;
    let mut j: usize = 0;
    while j < bucket.len()
        invariant
            stamp > 0,
            j <= bucket.len(),
            stamps_track(query_stamp@, stamp, result@),
            result@.no_duplicates(),
            forall|id: u32| #[trigger] result@.contains(id) <==> result0.contains(id) || bucket@.subrange(0, j as int).contains(id),
            *visited_candidates == sat_u32(result@.len() as int),
        decreases bucket.len() - j,
    {
        let id = bucket[j];
        let idx = id as usize;
        let ghost qs0 = query_stamp@;
        let ghost r0 = result@;
        if idx >= query_stamp.len() {
            match idx.checked_add(1) {
                Some(n) => {
                    query_stamp.resize(n, 0);
                    proof {
                        assert forall|i: int| qs0.len() <= i < n implies #[trigger] query_stamp@[i] == 0 by {
                            assert(cloned::<u64>(0, query_stamp@[i]));
                        }
                        assert forall|i: int| 0 <= i < qs0.len() implies #[trigger] query_stamp@[i] == qs0[i] by {
                            assert(query_stamp@.subrange(0, qs0.len() as int)[i] == qs0[i]);
                        }
                        assert forall|i: int| 0 <= i < query_stamp@.len() implies (#[trigger] query_stamp@[i] == stamp <==> result@.contains(i as u32)) by {
                            if i >= qs0.len() {
                                assert(query_stamp@[i] == 0);
                                if result@.contains(i as u32) {
                                    assert((i as u32) < qs0.len() || (i as u32) + 1 > usize::MAX);
                                }
                            }
                        }
                    }
                },
                None => {},
            }
        }
        let fresh = if idx < query_stamp.len() {
            query_stamp[idx] != stamp
        } else {
            position_of(result, id).is_none()
        };
        let ghost qs1 = query_stamp@;
        proof {
            assert(stamps_track(qs1, stamp, r0));
            if idx < qs1.len() {
                assert((idx as int) as u32 == id);
            }
            assert(fresh <==> !r0.contains(id));
        }
        if fresh {
            if idx < query_stamp.len() {
                query_stamp.set(idx, stamp);
            }
            result.push(id);
            if *visited_candidates < u32::MAX {
                *visited_candidates = *visited_candidates + 1;
            }
            proof {
                assert forall|v: u32| #[trigger] result@.contains(v) <==> r0.contains(v) || v == id by {
                    if result@.contains(v) {
                        let i = choose|i: int| 0 <= i < result@.len() && result@[i] == v;
                        if i < r0.len() {
                            assert(r0.contains(v));
                        }
                    }
                    if r0.contains(v) {
                        let i = choose|i: int| 0 <= i < r0.len() && r0[i] == v;
                        assert(result@[i] == v);
                    }
                    if v == id {
                        assert(result@[r0.len() as int] == id);
                    }
                }
                assert forall|i: int, k: int| 0 <= i < result@.len() && 0 <= k < result@.len() && i != k implies result@[i] != result@[k] by {
                    if i < r0.len() && k < r0.len() {
                    } else if i < r0.len() {
                        assert(r0.contains(r0[i]));
                    } else if k < r0.len() {
                        assert(r0.contains(r0[k]));
                    }
                }
                assert forall|i: int| 0 <= i < query_stamp@.len() implies (#[trigger] query_stamp@[i] == stamp <==> result@.contains(i as u32)) by {
                    if i != idx as int {
                        assert(query_stamp@[i] == qs1[i]);
                        assert((i as u32) != id);
                    } else {
                        assert((i as u32) == id);
                    }
                }
                assert forall|i: int| 0 <= i < query_stamp@.len() implies #[trigger] query_stamp@[i] <= stamp by {
                    if i != idx as int {
                        assert(query_stamp@[i] == qs1[i]);
                    }
                }
            }
        }
        proof {
            let s0 = bucket@.subrange(0, j as int);
            let s1 = bucket@.subrange(0, j + 1);
            assert(s1 == s0.push(id));
            assert forall|v: u32| #[trigger] s1.contains(v) <==> s0.contains(v) || v == id by {
                if s1.contains(v) {
                    let i = choose|i: int| 0 <= i < s1.len() && s1[i] == v;
                    if i < j {
                        assert(s0[i] == v);
                    }
                }
                if s0.contains(v) {
                    let i = choose|i: int| 0 <= i < s0.len() && s0[i] == v;
                    assert(s1[i] == v);
                }
                if v == id {
                    assert(s1[j as int] == v);
                }
            }
        }
        j = j + 1;
    }
    proof {
        assert(bucket@.subrange(0, bucket@.len() as int) == bucket@);
    }
}


/// `k` lies inside `q` (the executable form of `covers`).
fn in_range(q: &CellRange, k: CellKey) -> (r: bool)
    ensures
        r == covers(*q, k),
{
    !(k.0 < q.min.0 || k.0 > q.max.0 || k.1 < q.min.1 || k.1 > q.max.1 || k.2 < q.min.2 || k.2 > q.max.2)
}

/// `a * b`, or `u64::MAX` when the product does not fit.
fn saturating_mul_u64(a: u64, b: u64) -> (r: u64)
    ensures
        r == (if a * b > u64::MAX { u64::MAX as int } else { a * b }),
{
    match a.checked_mul(b) {
        Some(v) => v,
        None => u64::MAX,
    }
}

/// Number of cells a range spans along one axis, `0` when the range is
/// empty on that axis.
fn axis_cells(lo: i32, hi: i32) -> (r: u64)
    ensures
        r == axis_span(lo, hi),
{
    let d: i64 = hi as i64 - lo as i64 + 1;
    if d >= 0 { d as u64 } else { 0 }
}

impl SpatialIndex {
    /// Report every object whose stored cell range overlaps the cell range
    /// `q`, each exactly once, in the order the grid is walked.
    ///
    /// Two iteration strategies are picked per call: a sweep over the cells
    /// of `q` when `q` spans at most twice as many cells as the grid holds,
    /// and a scan over the occupied cells otherwise. Either way the visited
    /// cell count and the reported object count are recorded.
    pub fn query_aabb(&mut self, q: CellRange) -> (result: Vec<u32>)
        requires
            old(self).wf(),
        ensures
            final(self).wf(),
            final(self).ranges() == old(self).ranges(),
            result@.no_duplicates(),
            result@.to_set() == query_result(old(self).ranges(), q),
            final(self).spec_last_cells() == sat_u32(queried_cells(old(self).ranges(), q).len() as int),
            final(self).spec_last_candidates() == sat_u32(result@.len() as int),
    {
        proof {
            self.lemma_cells_are_covered();
        }
        // A fresh stamp for every query; on wrap-around the stamp table is
        // cleared so old marks cannot collide with the new one.
        let ghost cells = self.cells@;
        let ghost ranges = self.object_ranges@;
        self.next_stamp = self.next_stamp.wrapping_add(1);
        if self.next_stamp == 0 {
            let mut i: usize = 0;
            while i < self.query_stamp.len()
                invariant
                    self.cells@ == cells,
                    self.object_ranges@ == ranges,
                    i <= self.query_stamp@.len() <= u32::MAX + 1,
                    forall|j: int| 0 <= j < i ==> #[trigger] self.query_stamp@[j] == 0,
                decreases self.query_stamp@.len() - i,
            {
                self.query_stamp.set(i, 0);
                i = i + 1;
            }
            self.next_stamp = 1;
        }
        let stamp = self.next_stamp;
        let mut result: Vec<u32> = Vec::new();
        let mut visited_cells: u32 = 0;
        let mut visited_candidates: u32 = 0;
        let ghost mut seen: Set<CellKey> = Set::empty();
        proof {
            assert forall|i: int| 0 <= i < self.query_stamp@.len() implies (#[trigger] self.query_stamp@[i] == stamp <==> result@.contains(i as u32)) by {
                assert(self.query_stamp@[i] < stamp);
            }
            assert(ids_in(cells, seen) =~= Set::<u32>::empty());
        }

        // Cost of sweeping the cells of `q`, saturating for giant queries.
        let dx = axis_cells(q.min.0, q.max.0);
        let dy = axis_cells(q.min.1, q.max.1);
        let dz = axis_cells(q.min.2, q.max.2);
        let sweep_cost = saturating_mul_u64(saturating_mul_u64(dx, dy), dz);
        let occupied = fx_len(&self.cells) as u64;

        if sweep_cost <= saturating_mul_u64(occupied, 2) {
            let mut x: i64 = q.min.0 as i64;
            while x <= q.max.0 as i64
                invariant
                    stamp > 0,
                    q.min.0 <= x <= q.max.0 + 1 || x == q.min.0,
                    self.cells@ == cells,
                    self.object_ranges@ == ranges,
                    self.next_stamp == stamp,
                    seen.finite(),
                    forall|k: CellKey| #[trigger] seen.contains(k) <==> cells.contains_key(k) && walked(q, k, x as int, q.min.1 as int, q.min.2 as int),
                    visited_cells == sat_u32(seen.len() as int),
                    forall|id: u32| #[trigger] result@.contains(id) <==> ids_in(cells, seen).contains(id),
                    stamps_track(self.query_stamp@, stamp, result@),
                    result@.no_duplicates(),
                    visited_candidates == sat_u32(result@.len() as int),
                decreases q.max.0 + 1 - x,
            {
                let mut y: i64 = q.min.1 as i64;
                while y <= q.max.1 as i64
                    invariant
                        stamp > 0,
                        q.min.0 <= x <= q.max.0,
                        q.min.1 <= y <= q.max.1 + 1 || y == q.min.1,
                        self.cells@ == cells,
                        self.object_ranges@ == ranges,
                        self.next_stamp == stamp,
                        seen.finite(),
                        forall|k: CellKey| #[trigger] seen.contains(k) <==> cells.contains_key(k) && walked(q, k, x as int, y as int, q.min.2 as int),
                        visited_cells == sat_u32(seen.len() as int),
                        forall|id: u32| #[trigger] result@.contains(id) <==> ids_in(cells, seen).contains(id),
                        stamps_track(self.query_stamp@, stamp, result@),
                        result@.no_duplicates(),
                        visited_candidates == sat_u32(result@.len() as int),
                    decreases q.max.1 + 1 - y,
                {
                    let mut z: i64 = q.min.2 as i64;
                    while z <= q.max.2 as i64
                        invariant
                            stamp > 0,
                            q.min.0 <= x <= q.max.0,
                            q.min.1 <= y <= q.max.1,
                            q.min.2 <= z <= q.max.2 + 1 || z == q.min.2,
                            self.cells@ == cells,
                            self.object_ranges@ == ranges,
                            self.next_stamp == stamp,
                            seen.finite(),
                            forall|k: CellKey| #[trigger] seen.contains(k) <==> cells.contains_key(k) && walked(q, k, x as int, y as int, z as int),
                            visited_cells == sat_u32(seen.len() as int),
                            forall|id: u32| #[trigger] result@.contains(id) <==> ids_in(cells, seen).contains(id),
                            stamps_track(self.query_stamp@, stamp, result@),
                            result@.no_duplicates(),
                            visited_candidates == sat_u32(result@.len() as int),
                        decreases q.max.2 + 1 - z,
                    {
                        let key: CellKey = (x as i32, y as i32, z as i32);
                        let ghost xi = x as int;
                        let ghost yi = y as int;
                        let ghost zi = z as int;
                        proof {
                            assert(!walked(q, key, xi, yi, zi));
                            assert(forall|k: CellKey| walked(q, k, xi, yi, zi + 1) <==> (walked(q, k, xi, yi, zi) || k == key));
                        }
                        match fx_get(&self.cells, key) {
                            Some(bucket) => {
                                let ghost r0 = result@;
                                visit_bucket(bucket, stamp, &mut self.query_stamp, &mut visited_candidates, &mut result);
                                if visited_cells < u32::MAX {
                                    visited_cells = visited_cells + 1;
                                }
                                proof {
                                    lemma_ids_in_insert(cells, seen, key);
                                    assert(!seen.contains(key));
                                    seen = seen.insert(key);
                                }
                            },
                            None => {},
                        }
                        z = z + 1;
                    }
                    proof {
                        assert(forall|k: CellKey| walked(q, k, x as int, y as int, z as int) <==> walked(q, k, x as int, y + 1, q.min.2 as int));
                    }
                    y = y + 1;
                }
                proof {
                    assert(forall|k: CellKey| walked(q, k, x as int, y as int, q.min.2 as int) <==> walked(q, k, x + 1, q.min.1 as int, q.min.2 as int));
                }
                x = x + 1;
            }
            proof {
                assert(forall|k: CellKey| walked(q, k, x as int, q.min.1 as int, q.min.2 as int) <==> #[trigger] covers(q, k));
            }
        } else {
            let keys = fx_keys(&self.cells);
            let mut i: usize = 0;
            while i < keys.len()
                invariant
                    stamp > 0,
                    i <= keys@.len(),
                    keys@.no_duplicates(),
                    keys@.to_set() == cells.dom(),
                    self.cells@ == cells,
                    self.object_ranges@ == ranges,
                    self.next_stamp == stamp,
                    seen.finite(),
                    forall|k: CellKey| #[trigger] seen.contains(k) <==> keys@.subrange(0, i as int).contains(k) && covers(q, k),
                    visited_cells == sat_u32(seen.len() as int),
                    forall|id: u32| #[trigger] result@.contains(id) <==> ids_in(cells, seen).contains(id),
                    stamps_track(self.query_stamp@, stamp, result@),
                    result@.no_duplicates(),
                    visited_candidates == sat_u32(result@.len() as int),
                decreases keys@.len() - i,
            {
                let key = keys[i];
                let ghost s0 = keys@.subrange(0, i as int);
                let ghost s1 = keys@.subrange(0, i + 1);
                proof {
                    assert(s1 == s0.push(key));
                    assert forall|k: CellKey| #[trigger] s1.contains(k) <==> s0.contains(k) || k == key by {
                        if s1.contains(k) {
                            let j = choose|j: int| 0 <= j < s1.len() && s1[j] == k;
                            if j < i {
                                assert(s0[j] == k);
                            }
                        }
                        if s0.contains(k) {
                            let j = choose|j: int| 0 <= j < s0.len() && s0[j] == k;
                            assert(s1[j] == k);
                        }
                        if k == key {
                            assert(s1[i as int] == k);
                        }
                    }
                    assert(!s0.contains(key)) by {
                        if s0.contains(key) {
                            let j = choose|j: int| 0 <= j < s0.len() && s0[j] == key;
                            assert(keys@[j] == keys@[i as int]);
                        }
                    }
                    assert(keys@.to_set().contains(key));
                }
                if in_range(&q, key) {
                    match fx_get(&self.cells, key) {
                        Some(bucket) => {
                            visit_bucket(bucket, stamp, &mut self.query_stamp, &mut visited_candidates, &mut result);
                            if visited_cells < u32::MAX {
                                visited_cells = visited_cells + 1;
                            }
                            proof {
                                lemma_ids_in_insert(cells, seen, key);
                                assert(!seen.contains(key));
                                seen = seen.insert(key);
                            }
                        },
                        None => {},
                    }
                }
                i = i + 1;
            }
            proof {
                assert(keys@.subrange(0, keys@.len() as int) == keys@);
                assert forall|k: CellKey| #[trigger] seen.contains(k) <==> cells.contains_key(k) && covers(q, k) by {
                    assert(keys@.to_set().contains(k) <==> keys@.contains(k));
                }
            }
        }
        proof {
            lemma_query_sets(cells, ranges, q, seen);
            assert(result@.to_set() =~= query_result(ranges, q));
        }
        self.last_query_visited_cells = visited_cells;
        self.last_query_visited_candidates = visited_candidates;
        result
    }
}


impl SpatialIndex {
    /// Restart the query stamp counter at `value`. The stamp table is
    /// cleared with it, so the next queries still report every object once.
    pub fn reset_query_stamp(&mut self, value: u64)
        requires
            old(self).wf(),
        ensures
            final(self).wf(),
            final(self).ranges() == old(self).ranges(),
            final(self).spec_last_cells() == old(self).spec_last_cells(),
            final(self).spec_last_candidates() == old(self).spec_last_candidates(),
            final(self).spec_next_stamp() == value,
            final(self).spec_stamps() == Seq::new(old(self).spec_stamps().len(), |i: int| 0u64),
    {
        let ghost cells = self.cells@;
        let ghost ranges = self.object_ranges@;
        let mut i: usize = 0;
        while i < self.query_stamp.len()
            invariant
                self.cells@ == cells,
                self.object_ranges@ == ranges,
                self.last_query_visited_cells == old(self).last_query_visited_cells,
                self.last_query_visited_candidates == old(self).last_query_visited_candidates,
                self.query_stamp@.len() == old(self).query_stamp@.len(),
                i <= self.query_stamp@.len() <= u32::MAX + 1,
                forall|j: int| 0 <= j < i ==> #[trigger] self.query_stamp@[j] == 0,
            decreases self.query_stamp@.len() - i,
        {
            self.query_stamp.set(i, 0);
            i = i + 1;
        }
        self.next_stamp = value;
        assert(self.query_stamp@ =~= Seq::new(old(self).query_stamp@.len(), |i: int| 0u64));
    }
}

// ---------------------------------------------------------------------------
// Laws
// ---------------------------------------------------------------------------

/// A query reports an object inserted under `r` exactly when `r` overlaps
/// the queried range.
pub proof fn law_query_finds_inserted(ranges: Map<u32, CellRange>, id: u32, r: CellRange, q: CellRange)
    ensures
        query_result(ranges.insert(id, r), q).contains(id) <==> ranges_overlap(r, q),
{
}

/// After `remove(id)` no query reports `id`.
pub proof fn law_query_misses_removed(ranges: Map<u32, CellRange>, id: u32, q: CellRange)
    ensures
        !query_result(ranges.remove(id), q).contains(id),
{
}

/// Inserting or removing one object does not change what a query reports
/// of any other object.
pub proof fn law_other_objects_unaffected(ranges: Map<u32, CellRange>, id: u32, r: CellRange, q: CellRange, other: u32)
    requires
        other != id,
    ensures
        query_result(ranges.insert(id, r), q).contains(other) == query_result(ranges, q).contains(other),
        query_result(ranges.remove(id), q).contains(other) == query_result(ranges, q).contains(other),
{
}

/// Re-inserting an object with the range it already has changes nothing.
pub proof fn law_reinsert_same_range_is_idempotent(ranges: Map<u32, CellRange>, id: u32, r: CellRange)
    ensures
        ranges.insert(id, r).insert(id, r) == ranges.insert(id, r),
{
    assert(ranges.insert(id, r).insert(id, r) =~= ranges.insert(id, r));
}

/// Moving an object leaves no trace of its old range: the index is as if
/// the object had been inserted under the new range only.
pub proof fn law_update_replaces_range(ranges: Map<u32, CellRange>, id: u32, r1: CellRange, r2: CellRange)
    ensures
        ranges.insert(id, r1).insert(id, r2) == ranges.insert(id, r2),
{
    assert(ranges.insert(id, r1).insert(id, r2) =~= ranges.insert(id, r2));
}

/// Inserting and then removing an object restores what the index held
/// without it.
pub proof fn law_remove_undoes_insert(ranges: Map<u32, CellRange>, id: u32, r: CellRange)
    ensures
        ranges.insert(id, r).remove(id) == ranges.remove(id),
{
    assert(ranges.insert(id, r).remove(id) =~= ranges.remove(id));
}

/// An empty index occupies no cells and every query on it reports nothing.
pub proof fn law_empty_index_reports_nothing(q: CellRange)
    ensures
        covered_cells(Map::<u32, CellRange>::empty()).len() == 0,
        queried_cells(Map::<u32, CellRange>::empty(), q).len() == 0,
        query_result(Map::<u32, CellRange>::empty(), q) == Set::<u32>::empty(),
{
    assert(covered_cells(Map::<u32, CellRange>::empty()) =~= Set::<CellKey>::empty());
    assert(queried_cells(Map::<u32, CellRange>::empty(), q) =~= Set::<CellKey>::empty());
    assert(query_result(Map::<u32, CellRange>::empty(), q) =~= Set::<u32>::empty());
}

/// A query only reports tracked objects.
pub proof fn law_query_reports_tracked_only(ranges: Map<u32, CellRange>, q: CellRange)
    ensures
        query_result(ranges, q).subset_of(ranges.dom()),
{
}

} // verus!
