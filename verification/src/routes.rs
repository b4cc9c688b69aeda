use vstd::prelude::*;

verus! {

/// The most raw points one chunk of a flight route holds.
pub const ROUTE_CHUNK_POINTS: usize = 20;

/// The number of route steps (point-to-point segments) one chunk spans:
/// one less than the points it holds, and at least one.
pub open spec fn chunk_stride() -> int {
    if ROUTE_CHUNK_POINTS > 1 {
        ROUTE_CHUNK_POINTS - 1
    } else {
        1
    }
}

/// `ranges` are the chunks (first and last point index, inclusive) of a
/// route whose points are `0..=step_count`: chunk `k` starts at point
/// `k * chunk_stride()` and ends `chunk_stride()` points later or at the
/// last point, whichever comes first, and there are just enough chunks to
/// reach the last point (none for a route of a single point).
pub open spec fn is_route_chunking(ranges: Seq<(usize, usize)>, step_count: int) -> bool {
    &&& ranges.len() == (step_count + chunk_stride() - 1) / chunk_stride()
    &&& forall|k: int|
        0 <= k < ranges.len() ==> {
            &&& (#[trigger] ranges[k]).0 == k * chunk_stride()
            &&& ranges[k].1 == if (k + 1) * chunk_stride() <= step_count {
                (k + 1) * chunk_stride()
            } else {
                step_count
            }
        }
}

/// Splits a route of `point_count` evenly spaced points into the index
/// ranges of its chunks (see `is_route_chunking`).
pub fn chunk_route_ranges(point_count: usize) -> (r: Vec<(usize, usize)>)
    requires
        point_count >= 1,
    ensures
        is_route_chunking(r@, point_count - 1),
{
    let step_count = point_count - 1;
    let mut ranges: Vec<(usize, usize)> = Vec::new();
    if step_count == 0 {
        return ranges;
    }
    let stride: usize = if ROUTE_CHUNK_POINTS > 1 {
        ROUTE_CHUNK_POINTS - 1
    } else {
        1
    };
    let mut start: usize = 0;
    loop
        invariant_except_break
            start < step_count,
            start == ranges@.len() * chunk_stride(),
        invariant
            step_count > 0,
            stride == chunk_stride(),
            forall|k: int|
                0 <= k < ranges@.len() ==> {
                    &&& (#[trigger] ranges@[k]).0 == k * chunk_stride()
                    &&& ranges@[k].1 == if (k + 1) * chunk_stride() <= step_count {
                        (k + 1) * chunk_stride()
                    } else {
                        step_count as int
                    }
                },
        ensures
            ranges@.len() > 0,
            ranges@.last().1 == step_count,
            (ranges@.len() - 1) * chunk_stride() < step_count,
            forall|k: int|
                0 <= k < ranges@.len() ==> {
                    &&& (#[trigger] ranges@[k]).0 == k * chunk_stride()
                    &&& ranges@[k].1 == if (k + 1) * chunk_stride() <= step_count {
                        (k + 1) * chunk_stride()
                    } else {
                        step_count as int
                    }
                },
        decreases step_count - start,
    {
        let end = if step_count - start <= stride {
            step_count
        } else {
            start + stride
        };
        ranges.push((start, end));
        if end == step_count {
            break;
        }
        start = end;
    }
    proof {
        let n = ranges@.len() as int;
        let s = chunk_stride();
        assert(n * s >= step_count);
        assert((step_count + s - 1) / s == n);
    }
    ranges
}

/// Consecutive chunks of a route share one point (each starts where the
/// previous one ends, so the polyline stays continuous across the split),
/// every chunk spans at least one step and holds at most
/// `ROUTE_CHUNK_POINTS` points, and the chunks run from the first point to
/// the last.
pub proof fn lemma_route_chunks_cover_and_overlap(ranges: Seq<(usize, usize)>, step_count: int)
    requires
        step_count >= 0,
        is_route_chunking(ranges, step_count),
    ensures
        step_count == 0 <==> ranges.len() == 0,
        step_count > 0 ==> ranges[0].0 == 0 && ranges.last().1 == step_count,
        forall|k: int|
            0 <= k < ranges.len() ==> ranges[k].0 < ranges[k].1 && ranges[k].1 - ranges[k].0 + 1
                <= ROUTE_CHUNK_POINTS,
        forall|k: int| 0 <= k < ranges.len() - 1 ==> #[trigger] ranges[k].1 == ranges[k + 1].0,
{
    let s = chunk_stride();
    let n = ranges.len() as int;
    assert(n == (step_count + s - 1) / s);
    if step_count > 0 {
        assert(n >= 1);
        assert((n - 1) * s < step_count);
        assert(n * s >= step_count);
        assert(ranges[n - 1].1 == step_count);
        assert(ranges[0].0 == 0);
    }
    assert forall|k: int| 0 <= k < ranges.len() implies ranges[k].0 < ranges[k].1 && ranges[k].1
        - ranges[k].0 + 1 <= ROUTE_CHUNK_POINTS by {
        assert(k * s < step_count);
        assert(ranges[k].0 == k * s);
    }
    assert forall|k: int| 0 <= k < ranges.len() - 1 implies #[trigger] ranges[k].1 == ranges[k
        + 1].0 by {
        assert(ranges[k + 1].0 == (k + 1) * s);
        assert((k + 1) * s <= (n - 1) * s);
        assert((n - 1) * s < step_count);
    }
}

} // verus!
