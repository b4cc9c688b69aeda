use vstd::prelude::*;

use crate::tiles::TileCoordinate;

verus! {

/// The most waypoints one tile-local chain holds.
pub const MAX_WAYPOINTS: usize = 8;

/// A finished run of consecutive samples inside the target tile: its
/// points in order, and the unit-sphere position of its first point (where
/// known), from which the chain's "up" direction is derived.
pub struct ChainRun<P, U> {
    pub points: Vec<P>,
    pub first_unit: Option<U>,
}

/// Accumulates consecutive samples that fall inside one target tile into
/// runs of at most `MAX_WAYPOINTS` points, discarding samples outside it.
/// `P` is a sample's position and `U` its unit-sphere position.
pub struct ChainBuilder<P, U> {
    target: TileCoordinate,
    active: bool,
    points: Vec<P>,
    first_unit: Option<U>,
    last_unit: Option<U>,
}

impl<P: Copy, U: Copy> ChainBuilder<P, U> {
    /// The tile whose samples are collected.
    pub closed spec fn spec_target(&self) -> TileCoordinate {
        self.target
    }

    /// Whether the previous sample fell inside the target tile.
    pub closed spec fn spec_active(&self) -> bool {
        self.active
    }

    /// The points of the run in progress.
    pub closed spec fn spec_points(&self) -> Seq<P> {
        self.points@
    }

    /// The unit position of the first point of the run in progress.
    pub closed spec fn spec_first_unit(&self) -> Option<U> {
        self.first_unit
    }

    /// The unit position of the previous sample, while inside the target.
    pub closed spec fn spec_last_unit(&self) -> Option<U> {
        self.last_unit
    }

    /// The run in progress never exceeds `MAX_WAYPOINTS` points, has a first
    /// unit position exactly when it has points, has points only while
    /// inside the target, and the previous sample's unit position is known
    /// while inside the target.
    pub closed spec fn wf(&self) -> bool {
        &&& self.points@.len() <= MAX_WAYPOINTS
        &&& (self.points@.len() > 0) == (self.first_unit is Some)
        &&& self.points@.len() > 0 ==> self.active
        &&& self.active ==> self.last_unit is Some
    }

    /// A builder for `target` with no run in progress.
    pub fn new(target: TileCoordinate) -> (r: Self)
        ensures
            r.wf(),
            r.spec_target() == target,
            !r.spec_active(),
            r.spec_points().len() == 0,
            r.spec_last_unit() is None,
    {
        ChainBuilder { target, active: false, points: Vec::new(), first_unit: None, last_unit: None }
    }

    /// Ends the run in progress, handing it out if it has at least two
    /// points (a shorter run is dropped).
    pub fn flush(&mut self) -> (r: Option<ChainRun<P, U>>)
        requires
            old(self).wf(),
        ensures
            final(self).wf(),
            final(self).spec_target() == old(self).spec_target(),
            final(self).spec_active() == old(self).spec_active(),
            final(self).spec_last_unit() == old(self).spec_last_unit(),
            final(self).spec_points().len() == 0,
            old(self).spec_points().len() >= 2 ==> (r matches Some(run) && run.points@ == old(
                self,
            ).spec_points() && run.first_unit == old(self).spec_first_unit()),
            old(self).spec_points().len() < 2 ==> r is None,
            r matches Some(run) ==> 2 <= run.points@.len() <= MAX_WAYPOINTS,
    {
        let mut points: Vec<P> = Vec::new();
        std::mem::swap(&mut points, &mut self.points);
        let first_unit = self.first_unit;
        self.first_unit = None;
        if points.len() >= 2 {
            Some(ChainRun { points, first_unit })
        } else {
            None
        }
    }

    /// Adds a sample in `tile` at position `world` with unit position
    /// `unit`. A sample outside the target ends the run in progress (handed
    /// out if long enough) and is discarded. A sample inside it extends the
    /// run, first ending the run in progress if the previous sample was
    /// outside or the run is full; a full run's last point is carried over as
    /// the new run's first point, so adjacent runs meet.
    pub fn push(&mut self, tile: TileCoordinate, world: P, unit: U) -> (r: Option<ChainRun<P, U>>)
        requires
            old(self).wf(),
        ensures
            final(self).wf(),
            final(self).spec_target() == old(self).spec_target(),
            r matches Some(run) ==> 2 <= run.points@.len() <= MAX_WAYPOINTS,
            ({
                let old_points = old(self).spec_points();
                let in_target = tile == old(self).spec_target();
                let full = old_points.len() >= MAX_WAYPOINTS;
                let active = old(self).spec_active();
                let flushed = old_points.len() >= 2 ==> (r matches Some(run) && run.points@
                    == old_points && run.first_unit == old(self).spec_first_unit());
                let not_flushed = old_points.len() < 2 ==> r is None;
                if !in_target {
                    &&& flushed
                    &&& not_flushed
                    &&& !final(self).spec_active()
                    &&& final(self).spec_points().len() == 0
                    &&& final(self).spec_last_unit() is None
                } else if !active || full {
                    &&& flushed
                    &&& not_flushed
                    &&& final(self).spec_active()
                    &&& final(self).spec_last_unit() == Some(unit)
                    &&& if full && active {
                        &&& final(self).spec_points() == seq![old_points.last(), world]
                        &&& final(self).spec_first_unit() == old(self).spec_last_unit()
                    } else {
                        &&& final(self).spec_points() == seq![world]
                        &&& final(self).spec_first_unit() == Some(unit)
                    }
                } else {
                    &&& r is None
                    &&& final(self).spec_active()
                    &&& final(self).spec_last_unit() == Some(unit)
                    &&& final(self).spec_points() == old_points.push(world)
                    &&& final(self).spec_first_unit() == if old_points.len() == 0 {
                        Some(unit)
                    } else {
                        old(self).spec_first_unit()
                    }
                }
            }),
    {
        let in_target = tile == self.target;
        let full = self.points.len() >= MAX_WAYPOINTS;
        if !in_target {
            let r = self.flush();
            self.active = false;
            self.last_unit = None;
            return r;
        }
        let mut r: Option<ChainRun<P, U>> = None;
        if !self.active || full {
            let carry = if full && self.active {
                Some(self.points[self.points.len() - 1])
            } else {
                None
            };
            let carry_unit = if full && self.active {
                self.last_unit
            } else {
                None
            };
            r = self.flush();
            self.active = true;
            if let Some(point) = carry {
                self.points.push(point);
                self.first_unit = carry_unit;
            }
        }
        if self.points.len() == 0 {
            self.first_unit = Some(unit);
        }
        self.points.push(world);
        self.last_unit = Some(unit);
        proof {
            if in_target && (!old(self).spec_active() || full) && !(full && old(self).spec_active()) {
                assert(self.points@ =~= seq![world]);
            }
            if in_target && full && old(self).spec_active() {
                assert(self.points@ =~= seq![old(self).spec_points().last(), world]);
            }
        }
        r
    }
}


/// The candidate routes a tile's chains are built from, in order: those
/// whose index names a route (below the number of routes) with at least two
/// points.
pub open spec fn usable_candidates(candidates: Seq<u32>, point_counts: Seq<usize>) -> Seq<u32>
    decreases candidates.len(),
{
    if candidates.len() == 0 {
        Seq::empty()
    } else {
        let rest = usable_candidates(candidates.drop_last(), point_counts);
        let c = candidates.last();
        if c < point_counts.len() && point_counts[c as int] >= 2 {
            rest.push(c)
        } else {
            rest
        }
    }
}

/// Keeps, in order, the candidate routes a tile's chains can be built from:
/// `point_counts[i]` is the number of points of route `i`; a candidate that
/// names no route, or a route of fewer than two points, is skipped.
pub fn chain_candidates(candidates: &Vec<u32>, point_counts: &Vec<usize>) -> (r: Vec<u32>)
    ensures
        r@ == usable_candidates(candidates@, point_counts@),
{
    let mut out: Vec<u32> = Vec::new();
    let mut i: usize = 0;
    while i < candidates.len()
        invariant
            i <= candidates@.len(),
            out@ == usable_candidates(candidates@.take(i as int), point_counts@),
        decreases candidates@.len() - i,
    {
        assert(candidates@.take(i as int + 1).drop_last() =~= candidates@.take(i as int));
        let c = candidates[i];
        if (c as usize) < point_counts.len() && point_counts[c as usize] >= 2 {
            out.push(c);
        }
        i += 1;
    }
    assert(candidates@.take(i as int) =~= candidates@);
    out
}

} // verus!
