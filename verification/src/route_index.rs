use vstd::prelude::*;

use crate::batches::{
    distinct_tiles, entry_tiles, fresh_tiles, kept_entries, knows, lemma_batch_frame, released_entities,
    findings_report, reported, reported_all, KnownTiles, TileReport,
};
use crate::tiles::{ancestor_shift, coarse_ancestor, spec_coarse_ancestor, tile_listed_before, TileCoordinate};

verus! {

/// What the coarse index reads of one route: how many points it has, and
/// the coarse tiles that its points and the midpoints of its segments fall
/// in (in any order, repeats allowed).
pub struct RouteSamples {
    pub point_count: usize,
    pub tiles: Vec<TileCoordinate>,
}

/// Maps each coarse tile to the indices of the routes that pass near it, in
/// ascending order. Only tiles that some route touches have a bucket.
pub struct AirplaneRouteCoarseIndex {
    coarse_lod: u32,
    buckets: Vec<(TileCoordinate, Vec<u32>)>,
}

/// The buckets as plain values.
pub open spec fn bucket_view(buckets: Seq<(TileCoordinate, Vec<u32>)>) -> Seq<(TileCoordinate, Seq<u32>)> {
    buckets.map_values(|b: (TileCoordinate, Vec<u32>)| (b.0, b.1@))
}

/// The bucket of `tile`, if it has one.
pub open spec fn bucket_of(buckets: Seq<(TileCoordinate, Seq<u32>)>, tile: TileCoordinate) -> Option<
    Seq<u32>,
> {
    if exists|k: int| 0 <= k < buckets.len() && buckets[k].0 == tile {
        Some(buckets[choose|k: int| 0 <= k < buckets.len() && buckets[k].0 == tile].1)
    } else {
        None
    }
}

/// No tile has two buckets, and no bucket is empty.
pub open spec fn buckets_wf(buckets: Seq<(TileCoordinate, Seq<u32>)>) -> bool {
    &&& forall|i: int, j: int| 0 <= i < j < buckets.len() ==> buckets[i].0 != buckets[j].0
    &&& forall|i: int| 0 <= i < buckets.len() ==> #[trigger] buckets[i].1.len() > 0
}

/// The indices, ascending, of the routes among `routes` that have at least
/// two points and touch `tile`.
pub open spec fn routes_touching(routes: Seq<RouteSamples>, tile: TileCoordinate) -> Seq<u32>
    decreases routes.len(),
{
    if routes.len() == 0 {
        Seq::empty()
    } else {
        let rest = routes_touching(routes.drop_last(), tile);
        let last = routes.last();
        if last.point_count >= 2 && last.tiles@.contains(tile) {
            rest.push((routes.len() - 1) as u32)
        } else {
            rest
        }
    }
}

/// The bucket of `tile` once `route` is added over `touched`.
proof fn lemma_bucket_after_push(
    before: Seq<(TileCoordinate, Seq<u32>)>,
    after: Seq<(TileCoordinate, Seq<u32>)>,
    tile: TileCoordinate,
    route: u32,
)
    requires
        buckets_wf(before),
        bucket_of(before, tile) is None,
        after == before.push((tile, seq![route])),
    ensures
        buckets_wf(after),
        forall|t: TileCoordinate|
            #[trigger] bucket_of(after, t) == if t == tile {
                Some(seq![route])
            } else {
                bucket_of(before, t)
            },
{
    assert forall|t: TileCoordinate| #[trigger]
        bucket_of(after, t) == if t == tile {
            Some(seq![route])
        } else {
            bucket_of(before, t)
        } by {
        if t == tile {
            assert(after[before.len() as int].0 == t);
            let k = choose|k: int| 0 <= k < after.len() && after[k].0 == t;
            if k < before.len() {
                assert(before[k].0 == tile);
            }
        } else if exists|k: int| 0 <= k < before.len() && before[k].0 == t {
            let k = choose|k: int| 0 <= k < before.len() && before[k].0 == t;
            assert(after[k].0 == t);
            let j = choose|j: int| 0 <= j < after.len() && after[j].0 == t;
            if j != k {
                assert(before[j].0 == t);
            }
        } else {
            if exists|k: int| 0 <= k < after.len() && after[k].0 == t {
                let k = choose|k: int| 0 <= k < after.len() && after[k].0 == t;
                assert(before[k].0 == t);
            }
        }
    }
}

/// The bucket of `tile` once `route` is appended to its existing bucket at
/// `index`.
proof fn lemma_bucket_after_update(
    before: Seq<(TileCoordinate, Seq<u32>)>,
    after: Seq<(TileCoordinate, Seq<u32>)>,
    index: int,
    tile: TileCoordinate,
    route: u32,
)
    requires
        buckets_wf(before),
        0 <= index < before.len(),
        before[index].0 == tile,
        after == before.update(index, (tile, before[index].1.push(route))),
    ensures
        buckets_wf(after),
        bucket_of(before, tile) == Some(before[index].1),
        forall|t: TileCoordinate|
            #[trigger] bucket_of(after, t) == if t == tile {
                Some(before[index].1.push(route))
            } else {
                bucket_of(before, t)
            },
{
    let k0 = choose|k: int| 0 <= k < before.len() && before[k].0 == tile;
    assert(k0 == index);
    assert forall|i: int| 0 <= i < after.len() implies #[trigger] after[i].1.len() > 0 by {
        if i != index {
            assert(after[i] == before[i]);
        }
    }
    assert forall|i: int, j: int| 0 <= i < j < after.len() implies after[i].0 != after[j].0 by {
        assert(before[i].0 != before[j].0);
    }
    assert forall|t: TileCoordinate| #[trigger]
        bucket_of(after, t) == if t == tile {
            Some(before[index].1.push(route))
        } else {
            bucket_of(before, t)
        } by {
        if t == tile {
            assert(after[index].0 == t);
            let k = choose|k: int| 0 <= k < after.len() && after[k].0 == t;
            assert(k == index);
        } else if exists|k: int| 0 <= k < before.len() && before[k].0 == t {
            let k = choose|k: int| 0 <= k < before.len() && before[k].0 == t;
            assert(after[k] == before[k]);
            let j = choose|j: int| 0 <= j < after.len() && after[j].0 == t;
            if j != k {
                assert(before[j].0 == t);
            }
        } else {
            if exists|k: int| 0 <= k < after.len() && after[k].0 == t {
                let k = choose|k: int| 0 <= k < after.len() && after[k].0 == t;
                assert(before[k].0 == t);
            }
        }
    }
}

/// What a bucket lists: the routes with at least two points that touch the
/// tile, each once, in ascending order; and every such route is listed.
pub proof fn lemma_routes_touching(routes: Seq<RouteSamples>, tile: TileCoordinate)
    requires
        routes.len() <= 0x1_0000_0000,
    ensures
        forall|k: int|
            0 <= k < routes_touching(routes, tile).len() ==> {
                let r = #[trigger] routes_touching(routes, tile)[k];
                &&& r < routes.len()
                &&& routes[r as int].point_count >= 2
                &&& routes[r as int].tiles@.contains(tile)
            },
        forall|a: int, b: int|
            0 <= a < b < routes_touching(routes, tile).len() ==> #[trigger] routes_touching(
                routes,
                tile,
            )[a] < #[trigger] routes_touching(routes, tile)[b],
        forall|r: int|
            0 <= r < routes.len() && #[trigger] routes[r].point_count >= 2 && routes[r].tiles@.contains(
                tile,
            ) ==> routes_touching(routes, tile).contains(r as u32),
    decreases routes.len(),
{
    if routes.len() > 0 {
        let rest = routes.drop_last();
        lemma_routes_touching(rest, tile);
        let rr = routes_touching(rest, tile);
        let rt = routes_touching(routes, tile);
        let n = routes.len() - 1;
        assert forall|k: int| 0 <= k < rt.len() implies {
            let r = #[trigger] rt[k];
            &&& r < routes.len()
            &&& routes[r as int].point_count >= 2
            &&& routes[r as int].tiles@.contains(tile)
        } by {
            if k < rr.len() {
                assert(rt[k] == rr[k]);
                assert(routes[rr[k] as int] == rest[rr[k] as int]);
            }
        }
        assert forall|a: int, b: int| 0 <= a < b < rt.len() implies #[trigger] rt[a] < #[trigger] rt[b] by {
            if b < rr.len() {
                assert(rt[a] == rr[a] && rt[b] == rr[b]);
            } else {
                assert(rt[a] == rr[a]);
                assert(rr[a] < rest.len());
            }
        }
        assert forall|r: int|
            0 <= r < routes.len() && #[trigger] routes[r].point_count >= 2 && routes[r].tiles@.contains(
                tile,
            ) implies rt.contains(r as u32) by {
            if r < n {
                assert(rest[r] == routes[r]);
                assert(rr.contains(r as u32));
                let m = choose|m: int| 0 <= m < rr.len() && rr[m] == r as u32;
                assert(rt[m] == r as u32);
            } else {
                assert(rt[rt.len() - 1] == r as u32);
            }
        }
    }
}

impl AirplaneRouteCoarseIndex {
    /// The buckets as plain values.
    pub closed spec fn spec_buckets(&self) -> Seq<(TileCoordinate, Seq<u32>)> {
        bucket_view(self.buckets@)
    }

    /// The level the buckets are keyed at.
    pub closed spec fn spec_coarse_lod(&self) -> u32 {
        self.coarse_lod
    }

    /// The level the buckets are keyed at; lookups go through the ancestor at
    /// this level.
    pub fn coarse_lod(&self) -> (r: u32)
        ensures
            r == self.spec_coarse_lod(),
    {
        self.coarse_lod
    }

    /// The routes listed under `tile`, if it has a bucket.
    pub open spec fn spec_bucket(&self, tile: TileCoordinate) -> Option<Seq<u32>> {
        bucket_of(self.spec_buckets(), tile)
    }

    /// No tile has two buckets, and no bucket is empty.
    pub open spec fn wf(&self) -> bool {
        buckets_wf(self.spec_buckets())
    }

    /// The position of the bucket of `tile`, if it has one.
    fn find_bucket(&self, tile: TileCoordinate) -> (r: Option<usize>)
        ensures
            match r {
                Some(k) => k < self.buckets@.len() && self.buckets@[k as int].0 == tile,
                None => bucket_of(self.spec_buckets(), tile) is None,
            },
    {
        let mut k: usize = 0;
        while k < self.buckets.len()
            invariant
                k <= self.buckets@.len(),
                forall|j: int| 0 <= j < k ==> self.buckets@[j].0 != tile,
            decreases self.buckets@.len() - k,
        {
            if self.buckets[k].0 == tile {
                return Some(k);
            }
            k += 1;
        }
        proof {
            let b = self.spec_buckets();
            if exists|j: int| 0 <= j < b.len() && b[j].0 == tile {
                let j = choose|j: int| 0 <= j < b.len() && b[j].0 == tile;
                assert(self.buckets@[j].0 == tile);
            }
        }
        None
    }

    /// Adds route `route` to the bucket of each tile of `touched` (once per
    /// tile, however often it repeats there), making the bucket where the
    /// tile has none.
    fn add_route(&mut self, route: u32, touched: &Vec<TileCoordinate>)
        requires
            old(self).wf(),
        ensures
            final(self).wf(),
            final(self).spec_coarse_lod() == old(self).spec_coarse_lod(),
            forall|t: TileCoordinate| #[trigger]
                final(self).spec_bucket(t) == if touched@.contains(t) {
                    Some(
                        match old(self).spec_bucket(t) {
                            Some(b) => b,
                            None => Seq::empty(),
                        }.push(route),
                    )
                } else {
                    old(self).spec_bucket(t)
                },
    {
        let ghost orig = self.spec_buckets();
        let mut i: usize = 0;
        while i < touched.len()
            invariant
                i <= touched@.len(),
                self.wf(),
                self.coarse_lod == old(self).coarse_lod,
                orig == old(self).spec_buckets(),
                forall|t: TileCoordinate| #[trigger]
                    self.spec_bucket(t) == if touched@.take(i as int).contains(t) {
                        Some(
                            match bucket_of(orig, t) {
                                Some(b) => b,
                                None => Seq::empty(),
                            }.push(route),
                        )
                    } else {
                        bucket_of(orig, t)
                    },
            decreases touched@.len() - i,
        {
            let tile = touched[i];
            let ghost before = self.spec_buckets();
            let ghost prev = touched@.take(i as int);
            let ghost next = touched@.take(i as int + 1);
            assert(next =~= prev.push(tile));
            assert forall|t: TileCoordinate| #[trigger] next.contains(t) <==> (prev.contains(t) || t
                == tile) by {
                if next.contains(t) {
                    let m = choose|m: int| 0 <= m < next.len() && next[m] == t;
                    if m < prev.len() {
                        assert(prev[m] == t);
                    }
                }
                if prev.contains(t) {
                    let m = choose|m: int| 0 <= m < prev.len() && prev[m] == t;
                    assert(next[m] == t);
                }
                if t == tile {
                    assert(next[prev.len() as int] == t);
                }
            }
            assert forall|t: TileCoordinate| #[trigger] bucket_of(before, t) == if prev.contains(t) {
                Some(
                    match bucket_of(orig, t) {
                        Some(b) => b,
                        None => Seq::empty(),
                    }.push(route),
                )
            } else {
                bucket_of(orig, t)
            } by {
                assert(self.spec_bucket(t) == bucket_of(before, t));
            }
            let repeat = tile_listed_before(touched, i, tile);
            if !repeat {
                let found = self.find_bucket(tile);
                proof {
                    assert(before == self.spec_buckets());
                }
                if let Some(k) = found {
                    let (t, mut routes) = self.buckets.remove(k);
                    routes.push(route);
                    self.buckets.insert(k, (t, routes));
                    proof {
                        assert(self.spec_buckets() =~= before.update(
                            k as int,
                            (tile, before[k as int].1.push(route)),
                        ));
                        lemma_bucket_after_update(before, self.spec_buckets(), k as int, tile, route);
                    }
                } else {
                    let mut routes: Vec<u32> = Vec::new();
                    routes.push(route);
                    self.buckets.push((tile, routes));
                    proof {
                        assert(self.spec_buckets() =~= before.push((tile, seq![route])));
                        lemma_bucket_after_push(before, self.spec_buckets(), tile, route);
                    }
                }
            }
            assert forall|t: TileCoordinate| #[trigger] bucket_of(self.spec_buckets(), t) == if next.contains(t) {
                Some(
                    match bucket_of(orig, t) {
                        Some(b) => b,
                        None => Seq::empty(),
                    }.push(route),
                )
            } else {
                bucket_of(orig, t)
            } by {
                assert(bucket_of(before, t) == if prev.contains(t) {
                    Some(
                        match bucket_of(orig, t) {
                            Some(b) => b,
                            None => Seq::empty(),
                        }.push(route),
                    )
                } else {
                    bucket_of(orig, t)
                });
            }
            i += 1;
        }
        assert(touched@.take(i as int) =~= touched@);
    }

    /// First step of the airplane batching on a new tile: looks up the routes
    /// to try on it. Where its coarse ancestor has no bucket, the tile is
    /// settled in `known` with no entity, and nothing more is done for it (no
    /// height image is asked for); otherwise `known` is left as it is and the
    /// candidates come back, for the height image to be loaded and the chains
    /// built.
    pub fn start_route_tile<'a, E>(&'a self, known: &mut KnownTiles<E>, tile: TileCoordinate) -> (r:
        Option<&'a Vec<u32>>)
        requires
            self.wf(),
            old(known).wf(),
            ancestor_shift(tile, self.spec_coarse_lod()) < 32,
        ensures
            final(known).wf(),
            match r {
                Some(v) => self.spec_bucket(spec_coarse_ancestor(tile, self.spec_coarse_lod())) == Some(v@)
                    && final(known)@ == old(known)@,
                None => self.spec_bucket(spec_coarse_ancestor(tile, self.spec_coarse_lod())) is None
                    && final(known)@ == reported(old(known)@, tile, TileReport::Empty),
            },
    {
        let found = self.candidates(tile);
        if found.is_none() {
            known.settle_report(tile, TileReport::Empty);
        }
        found
    }

    /// The routes to try on `tile`: the bucket of its ancestor at the index's
    /// level, if that has one.
    pub fn candidates(&self, tile: TileCoordinate) -> (r: Option<&Vec<u32>>)
        requires
            self.wf(),
            ancestor_shift(tile, self.spec_coarse_lod()) < 32,
        ensures
            match r {
                Some(v) => self.spec_bucket(spec_coarse_ancestor(tile, self.spec_coarse_lod())) == Some(v@),
                None => self.spec_bucket(spec_coarse_ancestor(tile, self.spec_coarse_lod())) is None,
            },
    {
        let ancestor = coarse_ancestor(tile, self.coarse_lod);
        match self.find_bucket(ancestor) {
            Some(k) => {
                proof {
                    let b = self.spec_buckets();
                    assert(b[k as int].0 == ancestor);
                    let j = choose|j: int| 0 <= j < b.len() && b[j].0 == ancestor;
                    assert(j == k) by {
                        if j != k {
                            assert(b[j].0 != b[k as int].0);
                        }
                    }
                }
                Some(&self.buckets[k].1)
            },
            None => None,
        }
    }
}

/// What the airplane batching makes of a new tile: with no route bucket at
/// its coarse ancestor the tile is settled empty at once; otherwise it is
/// what the later steps (height image, chains, spawning) reported.
pub open spec fn route_tile_report<E>(bucket: Option<Seq<u32>>, later: TileReport<E>) -> TileReport<E> {
    if bucket is None {
        TileReport::Empty
    } else {
        later
    }
}

/// The airplane batching frame, whole: the tiles no longer active are
/// forgotten and their entities released; then each active tile not yet
/// settled (the `k`-th of `fresh_tiles`) goes through `start_route_tile`.
/// Where its coarse ancestor has a bucket, the frame then finds whether the
/// tile's height image has loaded (`height_loaded[k]`), how many instances
/// were generated on it (`instance_counts[k]`), and, where there were some,
/// the entity spawned for them (`entities[k]`); where there is no bucket,
/// none of these is looked at. Afterwards
/// - no tile is listed twice, and every settled tile is active;
/// - a settled tile that is still active keeps its entity;
/// - a new tile with no bucket at its coarse ancestor is settled with no
///   entity, whatever else holds of it;
/// - a new tile with a bucket whose height image is still loading stays
///   unsettled; one with no instances is settled with no entity; one with
///   instances is settled with the entity spawned for them;
/// - every active tile is settled but for those with a bucket that wait for
///   a height image;
/// - the released entities are exactly the entities of the forgotten tiles.
pub proof fn lemma_route_batch_frame<E>(
    index: AirplaneRouteCoarseIndex,
    entries: Seq<(TileCoordinate, Option<E>)>,
    active: Seq<TileCoordinate>,
    height_loaded: Seq<bool>,
    instance_counts: Seq<nat>,
    entities: Seq<E>,
)
    requires
        distinct_tiles(entries),
        height_loaded.len() == fresh_tiles(active, entry_tiles(kept_entries(entries, active))).len(),
        instance_counts.len() == height_loaded.len(),
        entities.len() == height_loaded.len(),
    ensures
        ({
            let kept = kept_entries(entries, active);
            let fresh = fresh_tiles(active, entry_tiles(kept));
            let bucket = |t: TileCoordinate| index.spec_bucket(spec_coarse_ancestor(t, index.spec_coarse_lod()));
            let reports = Seq::new(
                fresh.len(),
                |k: int|
                    route_tile_report(
                        bucket(fresh[k]),
                        findings_report(height_loaded[k], instance_counts[k], entities[k]),
                    ),
            );
            let after = reported_all(kept, fresh, reports);
            let released = released_entities(entries, active);
            &&& distinct_tiles(after)
            &&& forall|t: TileCoordinate| #[trigger] knows(after, t) ==> active.contains(t)
            &&& forall|k: int|
                0 <= k < entries.len() && active.contains(#[trigger] entries[k].0) ==> after.contains(
                    entries[k],
                )
            &&& forall|k: int|
                0 <= k < fresh.len() && bucket(#[trigger] fresh[k]) is None ==> after.contains((fresh[k], None))
            &&& forall|k: int|
                0 <= k < fresh.len() && bucket(#[trigger] fresh[k]) is Some && !height_loaded[k] ==> !knows(
                    after,
                    fresh[k],
                )
            &&& forall|k: int|
                0 <= k < fresh.len() && bucket(#[trigger] fresh[k]) is Some && height_loaded[k]
                    && instance_counts[k] == 0 ==> after.contains((fresh[k], None))
            &&& forall|k: int|
                0 <= k < fresh.len() && bucket(#[trigger] fresh[k]) is Some && height_loaded[k]
                    && instance_counts[k] > 0 ==> after.contains((fresh[k], Some(entities[k])))
            &&& forall|t: TileCoordinate|
                #[trigger] active.contains(t) ==> knows(after, t) || exists|k: int|
                    0 <= k < fresh.len() && #[trigger] fresh[k] == t && bucket(t) is Some && !height_loaded[k]
            &&& forall|k: int|
                0 <= k < entries.len() && !active.contains(entries[k].0) && (#[trigger] entries[k].1) is Some
                    ==> released.contains(entries[k].1->0)
            &&& forall|m: int|
                #![trigger released[m]]
                0 <= m < released.len() ==> exists|k: int|
                    0 <= k < entries.len() && !active.contains(entries[k].0) && #[trigger] entries[k].1
                        == Some(released[m])
        }),
{
    let kept = kept_entries(entries, active);
    let fresh = fresh_tiles(active, entry_tiles(kept));
    let bucket = |t: TileCoordinate| index.spec_bucket(spec_coarse_ancestor(t, index.spec_coarse_lod()));
    let reports = Seq::new(
        fresh.len(),
        |k: int|
            route_tile_report(
                bucket(fresh[k]),
                findings_report(height_loaded[k], instance_counts[k], entities[k]),
            ),
    );
    let after = reported_all(kept, fresh, reports);
    lemma_batch_frame(entries, active, reports);
    assert forall|k: int| 0 <= k < fresh.len() implies #[trigger] reports[k] == route_tile_report(
        bucket(fresh[k]),
        findings_report(height_loaded[k], instance_counts[k], entities[k]),
    ) by {}
    assert forall|t: TileCoordinate| #[trigger] active.contains(t) implies knows(after, t) || exists|k: int|
        0 <= k < fresh.len() && #[trigger] fresh[k] == t && bucket(t) is Some && !height_loaded[k] by {
        if !knows(after, t) {
            let k = choose|k: int| 0 <= k < fresh.len() && #[trigger] fresh[k] == t && reports[k] is HeightPending;
            assert(reports[k] == route_tile_report(bucket(fresh[k]), findings_report(height_loaded[k], instance_counts[k], entities[k])));
        }
    }
    assert forall|k: int| 0 <= k < fresh.len() && bucket(#[trigger] fresh[k]) is None implies after.contains(
        (fresh[k], None),
    ) by {
        assert(reports[k] == route_tile_report(bucket(fresh[k]), findings_report(height_loaded[k], instance_counts[k], entities[k])));
    }
    assert forall|k: int|
        0 <= k < fresh.len() && bucket(#[trigger] fresh[k]) is Some && !height_loaded[k] implies !knows(
        after,
        fresh[k],
    ) by {
        assert(reports[k] == route_tile_report(bucket(fresh[k]), findings_report(height_loaded[k], instance_counts[k], entities[k])));
    }
    assert forall|k: int|
        0 <= k < fresh.len() && bucket(#[trigger] fresh[k]) is Some && height_loaded[k] && instance_counts[k]
            == 0 implies after.contains((fresh[k], None)) by {
        assert(reports[k] == route_tile_report(bucket(fresh[k]), findings_report(height_loaded[k], instance_counts[k], entities[k])));
    }
    assert forall|k: int|
        0 <= k < fresh.len() && bucket(#[trigger] fresh[k]) is Some && height_loaded[k] && instance_counts[k]
            > 0 implies after.contains((fresh[k], Some(entities[k]))) by {
        assert(reports[k] == route_tile_report(bucket(fresh[k]), findings_report(height_loaded[k], instance_counts[k], entities[k])));
    }
}

/// The level to bucket routes at for a terrain whose finest active level is
/// `target_lod`: the level `desired_lod` whose tiles come closest to the
/// wanted bucket size, but never finer than `target_lod`.
pub open spec fn spec_pick_coarse_lod(desired_lod: u32, target_lod: u32) -> u32 {
    if desired_lod <= target_lod {
        desired_lod
    } else {
        target_lod
    }
}

/// Picks the level to bucket routes at (see `spec_pick_coarse_lod`): the
/// smaller of `desired_lod` and `target_lod`.
pub fn pick_coarse_lod(desired_lod: u32, target_lod: u32) -> (r: u32)
    ensures
        r == spec_pick_coarse_lod(desired_lod, target_lod),
        r <= target_lod,
        r <= desired_lod,
{
    if desired_lod <= target_lod {
        desired_lod
    } else {
        target_lod
    }
}

/// Builds the index from each route's samples, at the level
/// `pick_coarse_lod(desired_lod, target_lod)`, which the samples' tiles are
/// taken at: every route with at least two points is listed, by its position
/// in `routes`, under each coarse tile it touches.
pub fn build_coarse_index(desired_lod: u32, target_lod: u32, routes: &Vec<RouteSamples>) -> (r:
    AirplaneRouteCoarseIndex)
    requires
        routes@.len() <= 0x1_0000_0000,
    ensures
        r.wf(),
        r.spec_coarse_lod() == spec_pick_coarse_lod(desired_lod, target_lod),
        r.spec_coarse_lod() <= target_lod,
        forall|t: TileCoordinate| #[trigger]
            r.spec_bucket(t) == if routes_touching(routes@, t).len() > 0 {
                Some(routes_touching(routes@, t))
            } else {
                None
            },
{
    let coarse_lod = pick_coarse_lod(desired_lod, target_lod);
    let mut index = AirplaneRouteCoarseIndex { coarse_lod, buckets: Vec::new() };
    let mut i: usize = 0;
    while i < routes.len()
        invariant
            i <= routes@.len() <= 0x1_0000_0000,
            index.wf(),
            index.coarse_lod == coarse_lod,
            forall|t: TileCoordinate| #[trigger]
                index.spec_bucket(t) == if routes_touching(routes@.take(i as int), t).len() > 0 {
                    Some(routes_touching(routes@.take(i as int), t))
                } else {
                    None
                },
        decreases routes@.len() - i,
    {
        assert(routes@.take(i as int + 1).drop_last() =~= routes@.take(i as int));
        if routes[i].point_count >= 2 {
            let ghost before = index;
            index.add_route(i as u32, &routes[i].tiles);
            assert forall|t: TileCoordinate| #[trigger] index.spec_bucket(t) == if routes_touching(
                routes@.take(i as int + 1),
                t,
            ).len() > 0 {
                Some(routes_touching(routes@.take(i as int + 1), t))
            } else {
                None
            } by {
                assert(before.spec_bucket(t) == if routes_touching(routes@.take(i as int), t).len()
                    > 0 {
                    Some(routes_touching(routes@.take(i as int), t))
                } else {
                    None
                });
            }
        }
        i += 1;
    }
    assert(routes@.take(i as int) =~= routes@);
    index
}

} // verus!
