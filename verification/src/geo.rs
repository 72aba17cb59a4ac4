//! Geographic data model: fixed-point positions, bucketed position sets, and
//! the global bounding-box computation shared by every rendered frame.

use vstd::prelude::*;

verus! {

/// Largest magnitude a fixed-point coordinate may have. Generous enough for
/// nanodegree scaling of latitudes and longitudes while keeping all grid
/// arithmetic inside `i64`.
pub const COORD_LIMIT: i64 = 0x100_0000_0000;

/// One observation: a (latitude, longitude) pair in fixed-point coordinates.
#[derive(Clone, Copy, PartialEq, Eq, Structural, Debug)]
pub struct Position {
    pub lat: i64,
    pub lon: i64,
}

impl Position {
    /// A position is well formed when both coordinates are within the
    /// fixed-point range the engine's arithmetic is proved for.
    pub open spec fn wf(self) -> bool {
        -COORD_LIMIT <= self.lat <= COORD_LIMIT && -COORD_LIMIT <= self.lon <= COORD_LIMIT
    }

    /// Builds a position, rejecting coordinates outside the fixed-point range.
    pub fn new(lat: i64, lon: i64) -> (r: Option<Position>)
        ensures
            r is Some <==> (-COORD_LIMIT <= lat <= COORD_LIMIT
                && -COORD_LIMIT <= lon <= COORD_LIMIT),
            r is Some ==> r->0 == (Position { lat, lon }) && r->0.wf(),
    {
        if -COORD_LIMIT <= lat && lat <= COORD_LIMIT && -COORD_LIMIT <= lon && lon <= COORD_LIMIT {
            Some(Position { lat, lon })
        } else {
            None
        }
    }
}

/// The global bounding box: every frame of a run is drawn against one value
/// of this type, so all frames share one spatial scale.
#[derive(Clone, Copy, PartialEq, Eq, Structural, Debug)]
pub struct GeoBounds {
    pub min_lat: i64,
    pub max_lat: i64,
    pub min_lon: i64,
    pub max_lon: i64,
}

impl GeoBounds {
    /// Bounds are well formed when ordered and within the fixed-point range.
    /// A zero-width range on either axis is allowed (degenerate input); the
    /// grid mapping sends such an axis to index 0 rather than dividing by it.
    pub open spec fn wf(self) -> bool {
        &&& -COORD_LIMIT <= self.min_lat <= self.max_lat <= COORD_LIMIT
        &&& -COORD_LIMIT <= self.min_lon <= self.max_lon <= COORD_LIMIT
    }

    /// The box contains a position on both axes.
    pub open spec fn contains(self, p: Position) -> bool {
        &&& self.min_lat <= p.lat <= self.max_lat
        &&& self.min_lon <= p.lon <= self.max_lon
    }

}

/// Error returned when a position set holds no observation at all: there is
/// no meaningful bounding box for an empty input.
#[derive(Clone, Copy, PartialEq, Eq, Structural, Debug)]
pub struct NoDataError;

/// The observations of one time bucket.
#[derive(Clone, PartialEq, Eq, Debug)]
pub struct BucketEntry {
    pub bucket: u32,
    pub positions: Vec<Position>,
}

/// An immutable mapping from time-bucket index to the positions observed in
/// that bucket, kept in strictly ascending bucket order with unique keys.
/// Built once from the external feed, read-only afterward.
#[derive(Clone, PartialEq, Eq, Debug)]
pub struct PositionSet {
    pub entries: Vec<BucketEntry>,
}

impl PositionSet {
    /// The bucket indices, in storage order.
    pub open spec fn buckets(self) -> Seq<u32> {
        self.entries@.map_values(|e: BucketEntry| e.bucket)
    }

    /// `(i, j)` addresses the `j`-th position of the `i`-th bucket entry.
    pub open spec fn valid_idx(self, i: int, j: int) -> bool {
        0 <= i < self.entries@.len() && 0 <= j < self.entries@[i].positions@.len()
    }

    /// The position addressed by `(i, j)`.
    pub open spec fn pos_at(self, i: int, j: int) -> Position {
        self.entries@[i].positions@[j]
    }

    /// There is at least one observation in at least one bucket.
    pub open spec fn has_positions(self) -> bool {
        exists|i: int, j: int| self.valid_idx(i, j)
    }

    /// Number of positions in the first `k` entries.
    pub open spec fn count_upto(self, k: int) -> nat
        decreases k,
    {
        if k <= 0 {
            0
        } else {
            self.count_upto(k - 1) + self.entries@[k - 1].positions@.len()
        }
    }

    /// Total number of positions over all buckets.
    pub open spec fn total_count(self) -> nat {
        self.count_upto(self.entries@.len() as int)
    }

    /// Bucket indices strictly increase (so keys are unique) and every stored
    /// position is well formed.
    pub open spec fn wf(self) -> bool {
        &&& forall|i: int, j: int|
            0 <= i < j < self.entries@.len()
                ==> (#[trigger] self.entries@[i].bucket) < (#[trigger] self.entries@[j].bucket)
        &&& forall|i: int, j: int| self.valid_idx(i, j) ==> (#[trigger] self.pos_at(i, j)).wf()
    }

    /// An empty position set.
    pub fn new() -> (r: PositionSet)
        ensures
            r.entries@.len() == 0,
            r.wf(),
            !r.has_positions(),
    {
        PositionSet { entries: Vec::new() }
    }

    /// Appends one bucket's observations. Succeeds exactly when the bucket
    /// index is larger than every index already present (the feed supplies
    /// buckets in ascending order with unique keys) and every position is
    /// within the fixed-point range; on failure the set is unchanged.
    pub fn push_bucket(&mut self, bucket: u32, positions: Vec<Position>) -> (r: bool)
        requires
            old(self).wf(),
        ensures
            final(self).wf(),
            r <==> ((old(self).entries@.len() == 0
                || old(self).entries@[old(self).entries@.len() - 1].bucket < bucket)
                && (forall|j: int|
                    0 <= j < positions@.len() ==> (#[trigger] positions@[j]).wf())),
            r ==> final(self).entries@ == old(self).entries@.push(
                BucketEntry { bucket, positions },
            ),
            !r ==> *final(self) == *old(self),
    {
        if self.entries.len() > 0 && self.entries[self.entries.len() - 1].bucket >= bucket {
            return false;
        }
        let mut j: usize = 0;
        while j < positions.len()
            invariant
                *self == *old(self),
                old(self).wf(),
                0 <= j <= positions@.len(),
                forall|j2: int| 0 <= j2 < j ==> (#[trigger] positions@[j2]).wf(),
            decreases positions@.len() - j,
        {
            let p = positions[j];
            if !(-COORD_LIMIT <= p.lat && p.lat <= COORD_LIMIT && -COORD_LIMIT <= p.lon
                && p.lon <= COORD_LIMIT) {
                return false;
            }
            j += 1;
        }
        let ghost pre = *self;
        let entry = BucketEntry { bucket, positions };
        self.entries.push(entry);
        proof {
            assert forall|i: int, j2: int| self.valid_idx(i, j2)
                implies (#[trigger] self.pos_at(i, j2)).wf() by {
                if i < pre.entries@.len() {
                    assert(pre.valid_idx(i, j2));
                    assert(pre.pos_at(i, j2).wf());
                }
            }
        }
        true
    }

    /// Scans every position in every bucket and returns the tight global
    /// bounding box: each coordinate lies within it, and each of its four
    /// edges is achieved by some observation. An empty set has no bounding
    /// box and yields `NoDataError`.
    pub fn compute_bounds(&self) -> (r: Result<GeoBounds, NoDataError>)
        requires
            self.wf(),
        ensures
            r is Ok <==> self.has_positions(),
            r is Ok ==> (r->Ok_0).wf(),
            r is Ok ==> forall|i: int, j: int|
                self.valid_idx(i, j) ==> (r->Ok_0).contains(#[trigger] self.pos_at(i, j)),
            r is Ok ==> exists|i: int, j: int|
                self.valid_idx(i, j) && (#[trigger] self.pos_at(i, j)).lat == (r->Ok_0).min_lat,
            r is Ok ==> exists|i: int, j: int|
                self.valid_idx(i, j) && (#[trigger] self.pos_at(i, j)).lat == (r->Ok_0).max_lat,
            r is Ok ==> exists|i: int, j: int|
                self.valid_idx(i, j) && (#[trigger] self.pos_at(i, j)).lon == (r->Ok_0).min_lon,
            r is Ok ==> exists|i: int, j: int|
                self.valid_idx(i, j) && (#[trigger] self.pos_at(i, j)).lon == (r->Ok_0).max_lon,
    {
        let mut found = false;
        let mut b = GeoBounds { min_lat: 0, max_lat: 0, min_lon: 0, max_lon: 0 };
        let mut i: usize = 0;
        while i < self.entries.len()
            invariant
                self.wf(),
                0 <= i <= self.entries@.len(),
                found <==> exists|i2: int, j2: int| i2 < i && self.valid_idx(i2, j2),
                found ==> b.wf(),
                found ==> forall|i2: int, j2: int|
                    i2 < i && self.valid_idx(i2, j2)
                        ==> b.contains(#[trigger] self.pos_at(i2, j2)),
                found ==> exists|i2: int, j2: int|
                    i2 < i && self.valid_idx(i2, j2)
                        && (#[trigger] self.pos_at(i2, j2)).lat == b.min_lat,
                found ==> exists|i2: int, j2: int|
                    i2 < i && self.valid_idx(i2, j2)
                        && (#[trigger] self.pos_at(i2, j2)).lat == b.max_lat,
                found ==> exists|i2: int, j2: int|
                    i2 < i && self.valid_idx(i2, j2)
                        && (#[trigger] self.pos_at(i2, j2)).lon == b.min_lon,
                found ==> exists|i2: int, j2: int|
                    i2 < i && self.valid_idx(i2, j2)
                        && (#[trigger] self.pos_at(i2, j2)).lon == b.max_lon,
            decreases self.entries@.len() - i,
        {
            let entry = &self.entries[i];
            let mut j: usize = 0;
            while j < entry.positions.len()
                invariant
                    self.wf(),
                    0 <= i < self.entries@.len(),
                    entry == &self.entries@[i as int],
                    0 <= j <= entry.positions@.len(),
                    found <==> exists|i2: int, j2: int|
                        (i2 < i || (i2 == i && j2 < j)) && self.valid_idx(i2, j2),
                    found ==> b.wf(),
                    found ==> forall|i2: int, j2: int|
                        (i2 < i || (i2 == i && j2 < j)) && self.valid_idx(i2, j2)
                            ==> b.contains(#[trigger] self.pos_at(i2, j2)),
                    found ==> exists|i2: int, j2: int|
                        (i2 < i || (i2 == i && j2 < j)) && self.valid_idx(i2, j2)
                            && (#[trigger] self.pos_at(i2, j2)).lat == b.min_lat,
                    found ==> exists|i2: int, j2: int|
                        (i2 < i || (i2 == i && j2 < j)) && self.valid_idx(i2, j2)
                            && (#[trigger] self.pos_at(i2, j2)).lat == b.max_lat,
                    found ==> exists|i2: int, j2: int|
                        (i2 < i || (i2 == i && j2 < j)) && self.valid_idx(i2, j2)
                            && (#[trigger] self.pos_at(i2, j2)).lon == b.min_lon,
                    found ==> exists|i2: int, j2: int|
                        (i2 < i || (i2 == i && j2 < j)) && self.valid_idx(i2, j2)
                            && (#[trigger] self.pos_at(i2, j2)).lon == b.max_lon,
                decreases entry.positions@.len() - j,
            {
                let p = entry.positions[j];
                proof {
                    assert(self.valid_idx(i as int, j as int));
                    assert(self.pos_at(i as int, j as int) == p);
                    assert(p.wf());
                }
                if !found {
                    b = GeoBounds { min_lat: p.lat, max_lat: p.lat, min_lon: p.lon, max_lon: p.lon };
                    found = true;
                } else {
                    if p.lat < b.min_lat {
                        b.min_lat = p.lat;
                    }
                    if p.lat > b.max_lat {
                        b.max_lat = p.lat;
                    }
                    if p.lon < b.min_lon {
                        b.min_lon = p.lon;
                    }
                    if p.lon > b.max_lon {
                        b.max_lon = p.lon;
                    }
                }
                j += 1;
            }
            i += 1;
        }
        if found {
            Ok(b)
        } else {
            Err(NoDataError)
        }
    }
}

} // verus!
