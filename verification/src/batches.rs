use vstd::prelude::*;

use crate::tiles::{tile_listed_before, TileCoordinate};

verus! {

/// What a per-tile batching system remembers from frame to frame: each tile
/// it has settled, in the order it settled them, with the entity it spawned
/// for that tile (`None` where the tile turned out to hold nothing).
pub struct KnownTiles<E> {
    entries: Vec<(TileCoordinate, Option<E>)>,
}

/// The tiles of `entries`, in their order.
pub open spec fn entry_tiles<E>(entries: Seq<(TileCoordinate, Option<E>)>) -> Seq<TileCoordinate> {
    entries.map_values(|e: (TileCoordinate, Option<E>)| e.0)
}

/// No tile is listed twice.
pub open spec fn distinct_tiles<E>(entries: Seq<(TileCoordinate, Option<E>)>) -> bool {
    forall|i: int, j: int| 0 <= i < j < entries.len() ==> entries[i].0 != entries[j].0
}

/// The entries whose tile is still active, in their order.
pub open spec fn kept_entries<E>(
    entries: Seq<(TileCoordinate, Option<E>)>,
    active: Seq<TileCoordinate>,
) -> Seq<(TileCoordinate, Option<E>)>
    decreases entries.len(),
{
    if entries.len() == 0 {
        entries
    } else {
        let rest = kept_entries(entries.drop_last(), active);
        if active.contains(entries.last().0) {
            rest.push(entries.last())
        } else {
            rest
        }
    }
}

/// The entities of the entries whose tile is no longer active, in their
/// order: what has to be despawned.
pub open spec fn released_entities<E>(
    entries: Seq<(TileCoordinate, Option<E>)>,
    active: Seq<TileCoordinate>,
) -> Seq<E>
    decreases entries.len(),
{
    if entries.len() == 0 {
        Seq::empty()
    } else {
        let rest = released_entities(entries.drop_last(), active);
        let last = entries.last();
        if !active.contains(last.0) && last.1 is Some {
            rest.push(last.1->0)
        } else {
            rest
        }
    }
}

/// The active tiles that are not known yet, each once, in the order of
/// `active`.
pub open spec fn fresh_tiles(active: Seq<TileCoordinate>, known: Seq<TileCoordinate>) -> Seq<
    TileCoordinate,
>
    decreases active.len(),
{
    if active.len() == 0 {
        active
    } else {
        let rest = fresh_tiles(active.drop_last(), known);
        let last = active.last();
        if !known.contains(last) && !active.drop_last().contains(last) {
            rest.push(last)
        } else {
            rest
        }
    }
}

/// `entries` after settling `tile` with `entity`: the entry of that tile
/// takes the new entity where there is one, and a new entry goes last
/// otherwise.
pub open spec fn settled<E>(
    entries: Seq<(TileCoordinate, Option<E>)>,
    tile: TileCoordinate,
    entity: Option<E>,
) -> Seq<(TileCoordinate, Option<E>)> {
    if entry_tiles(entries).contains(tile) {
        let i = choose|i: int| 0 <= i < entries.len() && entries[i].0 == tile;
        entries.update(i, (tile, entity))
    } else {
        entries.push((tile, entity))
    }
}

impl<E> View for KnownTiles<E> {
    type V = Seq<(TileCoordinate, Option<E>)>;

    closed spec fn view(&self) -> Seq<(TileCoordinate, Option<E>)> {
        self.entries@
    }
}

/// Whether `tile` is one of `tiles`.
fn tile_listed(tiles: &Vec<TileCoordinate>, tile: TileCoordinate) -> (r: bool)
    ensures
        r == tiles@.contains(tile),
{
    let mut k: usize = 0;
    while k < tiles.len()
        invariant
            k <= tiles@.len(),
            forall|m: int| 0 <= m < k ==> tiles@[m] != tile,
        decreases tiles@.len() - k,
    {
        if tiles[k] == tile {
            return true;
        }
        k += 1;
    }
    false
}

/// What `kept_entries` keeps is what was there and active, in order, and an
/// entry that was there and is active is kept.
proof fn lemma_kept_entries<E>(entries: Seq<(TileCoordinate, Option<E>)>, active: Seq<TileCoordinate>)
    ensures
        kept_entries(entries, active).len() <= entries.len(),
        forall|k: int|
            0 <= k < kept_entries(entries, active).len() ==> active.contains(
                #[trigger] kept_entries(entries, active)[k].0,
            ) && entries.contains(kept_entries(entries, active)[k]),
        forall|k: int|
            0 <= k < entries.len() && active.contains(#[trigger] entries[k].0) ==> kept_entries(
                entries,
                active,
            ).contains(entries[k]),
        distinct_tiles(entries) ==> distinct_tiles(kept_entries(entries, active)),
    decreases entries.len(),
{
    if entries.len() > 0 {
        let rest = entries.drop_last();
        lemma_kept_entries(rest, active);
        let kr = kept_entries(rest, active);
        let kept = kept_entries(entries, active);
        assert forall|k: int| 0 <= k < kept.len() implies active.contains(#[trigger] kept[k].0)
            && entries.contains(kept[k]) by {
            if k < kr.len() {
                assert(kept[k] == kr[k]);
                let m = choose|m: int| 0 <= m < rest.len() && rest[m] == kr[k];
                assert(entries[m] == kept[k]);
            } else {
                assert(entries[entries.len() - 1] == kept[k]);
            }
        }
        assert forall|k: int| 0 <= k < entries.len() && active.contains(#[trigger] entries[k].0)
            implies kept.contains(entries[k]) by {
            if k < entries.len() - 1 {
                assert(rest[k] == entries[k]);
                let m = choose|m: int| 0 <= m < kr.len() && kr[m] == rest[k];
                assert(kept[m] == entries[k]);
            } else {
                assert(kept[kept.len() - 1] == entries[k]);
            }
        }
        if distinct_tiles(entries) {
            assert(distinct_tiles(rest));
            assert forall|i: int, j: int| 0 <= i < j < kept.len() implies kept[i].0
                != kept[j].0 by {
                if j < kr.len() {
                    assert(kept[i] == kr[i] && kept[j] == kr[j]);
                } else {
                    // the last entry's tile is not the tile of any earlier one
                    assert(kept[j] == entries.last());
                    assert(kept[i] == kr[i]);
                    let m = choose|m: int| 0 <= m < rest.len() && rest[m] == kr[i];
                    assert(entries[m] == kept[i]);
                }
            }
        }
    }
}

/// `entries` after settling each of `tiles` in turn with the entity of the
/// same position in `entities`.
pub open spec fn settled_all<E>(
    entries: Seq<(TileCoordinate, Option<E>)>,
    tiles: Seq<TileCoordinate>,
    entities: Seq<Option<E>>,
) -> Seq<(TileCoordinate, Option<E>)>
    decreases tiles.len(),
{
    if tiles.len() == 0 {
        entries
    } else {
        settled(
            settled_all(entries, tiles.drop_last(), entities.drop_last()),
            tiles.last(),
            entities[tiles.len() - 1],
        )
    }
}

/// The fresh tiles are active, not known, and listed once each; and every
/// active tile that is not known is among them.
proof fn lemma_fresh_tiles(active: Seq<TileCoordinate>, known: Seq<TileCoordinate>)
    ensures
        forall|k: int|
            0 <= k < fresh_tiles(active, known).len() ==> active.contains(
                #[trigger] fresh_tiles(active, known)[k],
            ) && !known.contains(fresh_tiles(active, known)[k]),
        forall|t: TileCoordinate|
            active.contains(t) && !known.contains(t) ==> #[trigger] fresh_tiles(
                active,
                known,
            ).contains(t),
        fresh_tiles(active, known).no_duplicates(),
    decreases active.len(),
{
    if active.len() > 0 {
        let rest = active.drop_last();
        let last = active.last();
        lemma_fresh_tiles(rest, known);
        let fr = fresh_tiles(rest, known);
        let f = fresh_tiles(active, known);
        assert forall|k: int| 0 <= k < f.len() implies active.contains(#[trigger] f[k])
            && !known.contains(f[k]) by {
            if k < fr.len() {
                assert(f[k] == fr[k]);
                let m = choose|m: int| 0 <= m < rest.len() && rest[m] == fr[k];
                assert(active[m] == f[k]);
            } else {
                assert(active[active.len() - 1] == f[k]);
            }
        }
        assert forall|t: TileCoordinate| active.contains(t) && !known.contains(t) implies #[trigger] f.contains(t) by {
            if rest.contains(t) {
                assert(fr.contains(t));
                let m = choose|m: int| 0 <= m < fr.len() && fr[m] == t;
                assert(f[m] == t);
            } else {
                let m = choose|m: int| 0 <= m < active.len() && active[m] == t;
                if m < active.len() - 1 {
                    assert(rest[m] == t);
                }
                assert(t == last);
                assert(f[f.len() - 1] == t);
            }
        }
        assert forall|i: int, j: int| 0 <= i < f.len() && 0 <= j < f.len() && i != j implies f[i]
            != f[j] by {
            if i < fr.len() && j < fr.len() {
                assert(f[i] == fr[i] && f[j] == fr[j]);
            } else if i < fr.len() {
                assert(f[i] == fr[i]);
                let m = choose|m: int| 0 <= m < rest.len() && rest[m] == fr[i];
                assert(rest.contains(f[i]));
            } else {
                assert(f[j] == fr[j]);
                let m = choose|m: int| 0 <= m < rest.len() && rest[m] == fr[j];
                assert(rest.contains(f[j]));
            }
        }
    }
}

/// A sequence of entries lists no tile twice exactly when its tiles have no
/// duplicates.
proof fn lemma_distinct_tiles_no_duplicates<E>(entries: Seq<(TileCoordinate, Option<E>)>)
    ensures
        distinct_tiles(entries) <==> entry_tiles(entries).no_duplicates(),
{
    let t = entry_tiles(entries);
    if distinct_tiles(entries) {
        assert forall|i: int, j: int| 0 <= i < t.len() && 0 <= j < t.len() && i != j implies t[i]
            != t[j] by {
            if i < j {
                assert(entries[i].0 != entries[j].0);
            } else {
                assert(entries[j].0 != entries[i].0);
            }
        }
    }
    if t.no_duplicates() {
        assert forall|i: int, j: int| 0 <= i < j < entries.len() implies entries[i].0
            != entries[j].0 by {
            assert(t[i] != t[j]);
        }
    }
}

/// Settling tiles that are new to `entries` and listed once each adds them
/// last, in order.
proof fn lemma_settle_new_tiles<E>(
    entries: Seq<(TileCoordinate, Option<E>)>,
    tiles: Seq<TileCoordinate>,
    entities: Seq<Option<E>>,
)
    requires
        tiles.len() == entities.len(),
        tiles.no_duplicates(),
        forall|k: int| 0 <= k < tiles.len() ==> !entry_tiles(entries).contains(#[trigger] tiles[k]),
    ensures
        entry_tiles(settled_all(entries, tiles, entities)) == entry_tiles(entries) + tiles,
    decreases tiles.len(),
{
    if tiles.len() > 0 {
        let rest = tiles.drop_last();
        let last = tiles.last();
        assert forall|k: int| 0 <= k < rest.len() implies !entry_tiles(entries).contains(
            #[trigger] rest[k],
        ) by {
            assert(rest[k] == tiles[k]);
        }
        lemma_settle_new_tiles(entries, rest, entities.drop_last());
        let r = settled_all(entries, rest, entities.drop_last());
        assert(entry_tiles(r) == entry_tiles(entries) + rest);
        assert(!entry_tiles(r).contains(last)) by {
            if entry_tiles(r).contains(last) {
                let m = choose|m: int| 0 <= m < entry_tiles(r).len() && entry_tiles(r)[m] == last;
                if m < entry_tiles(entries).len() {
                    assert(entry_tiles(entries)[m] == last);
                    assert(!entry_tiles(entries).contains(tiles[tiles.len() - 1]));
                } else {
                    assert(rest[m - entry_tiles(entries).len()] == last);
                    assert(tiles[m - entry_tiles(entries).len()] == tiles[tiles.len() - 1]);
                }
            }
        }
        let x = entities[tiles.len() - 1];
        assert(settled(r, last, x) == r.push((last, x)));
        assert(entry_tiles(r.push((last, x))) =~= entry_tiles(r).push(last));
        assert(entry_tiles(entries) + tiles =~= (entry_tiles(entries) + rest).push(last));
    }
}

/// Once this frame's inactive tiles are forgotten and each new tile is
/// settled, the settled tiles are exactly the active ones, each listed once.
pub proof fn lemma_settled_tiles_match_active<E>(
    entries: Seq<(TileCoordinate, Option<E>)>,
    active: Seq<TileCoordinate>,
    entities: Seq<Option<E>>,
)
    requires
        distinct_tiles(entries),
        entities.len() == fresh_tiles(active, entry_tiles(kept_entries(entries, active))).len(),
    ensures
        ({
            let kept = kept_entries(entries, active);
            let after = settled_all(kept, fresh_tiles(active, entry_tiles(kept)), entities);
            &&& distinct_tiles(after)
            &&& forall|t: TileCoordinate| #[trigger]
                entry_tiles(after).contains(t) <==> active.contains(t)
        }),
{
    let kept = kept_entries(entries, active);
    let known = entry_tiles(kept);
    let fresh = fresh_tiles(active, known);
    let after = settled_all(kept, fresh, entities);
    lemma_kept_entries(entries, active);
    lemma_fresh_tiles(active, known);
    lemma_settle_new_tiles(kept, fresh, entities);
    lemma_distinct_tiles_no_duplicates(kept);
    lemma_distinct_tiles_no_duplicates(after);
    let all = entry_tiles(after);
    assert(all == known + fresh);
    assert forall|i: int, j: int| 0 <= i < all.len() && 0 <= j < all.len() && i != j implies all[i]
        != all[j] by {
        if i >= known.len() && j < known.len() {
            assert(!known.contains(fresh[i - known.len()]));
        } else if i < known.len() && j >= known.len() {
            assert(!known.contains(fresh[j - known.len()]));
        } else if i >= known.len() {
            assert(fresh[i - known.len()] != fresh[j - known.len()]);
        } else {
            assert(known[i] != known[j]);
        }
    }
    assert forall|t: TileCoordinate| #[trigger] all.contains(t) <==> active.contains(t) by {
        if all.contains(t) {
            let m = choose|m: int| 0 <= m < all.len() && all[m] == t;
            if m < known.len() {
                assert(known[m] == kept[m].0);
            } else {
                assert(fresh[m - known.len()] == t);
            }
        }
        if active.contains(t) {
            if known.contains(t) {
                let m = choose|m: int| 0 <= m < known.len() && known[m] == t;
                assert(all[m] == t);
            } else {
                assert(fresh.contains(t));
                let m = choose|m: int| 0 <= m < fresh.len() && fresh[m] == t;
                assert(all[known.len() + m] == t);
            }
        }
    }
}


/// What became of a new tile once the frame looked at it.
pub enum TileReport<E> {
    /// Its height image is still loading: it stays unsettled, to be tried
    /// again next frame.
    HeightPending,
    /// It holds nothing to draw: it is settled with no entity.
    Empty,
    /// An entity was spawned for its instances: it is settled with that
    /// entity.
    Spawned(E),
}

/// The entity a report settles its tile with (itself optional), or `None`
/// where the report leaves the tile unsettled.
pub open spec fn report_entity<E>(report: TileReport<E>) -> Option<Option<E>> {
    match report {
        TileReport::HeightPending => None,
        TileReport::Empty => Some(None),
        TileReport::Spawned(e) => Some(Some(e)),
    }
}

/// `entries` once `report` on `tile` is taken in.
pub open spec fn reported<E>(
    entries: Seq<(TileCoordinate, Option<E>)>,
    tile: TileCoordinate,
    report: TileReport<E>,
) -> Seq<(TileCoordinate, Option<E>)> {
    match report_entity(report) {
        Some(entity) => settled(entries, tile, entity),
        None => entries,
    }
}

/// `entries` once the report of the same position in `reports` is taken in
/// for each of `tiles`, in turn.
pub open spec fn reported_all<E>(
    entries: Seq<(TileCoordinate, Option<E>)>,
    tiles: Seq<TileCoordinate>,
    reports: Seq<TileReport<E>>,
) -> Seq<(TileCoordinate, Option<E>)>
    decreases tiles.len(),
{
    if tiles.len() == 0 {
        entries
    } else {
        reported(reported_all(entries, tiles.drop_last(), reports), tiles.last(), reports[tiles.len() - 1])
    }
}

/// `tile` is settled in `entries`.
pub open spec fn knows<E>(entries: Seq<(TileCoordinate, Option<E>)>, tile: TileCoordinate) -> bool {
    exists|i: int| 0 <= i < entries.len() && #[trigger] entries[i].0 == tile
}

/// A tile is settled exactly when it is among the tiles of the entries.
proof fn lemma_knows_entry_tiles<E>(entries: Seq<(TileCoordinate, Option<E>)>, tile: TileCoordinate)
    ensures
        knows(entries, tile) <==> entry_tiles(entries).contains(tile),
{
    if knows(entries, tile) {
        let i = choose|i: int| 0 <= i < entries.len() && #[trigger] entries[i].0 == tile;
        assert(entry_tiles(entries)[i] == tile);
    }
    if entry_tiles(entries).contains(tile) {
        let i = choose|i: int| 0 <= i < entries.len() && entry_tiles(entries)[i] == tile;
        assert(entries[i].0 == tile);
    }
}

/// Each released entity is the entity of an entry whose tile is no longer
/// active, and each such entity is released.
proof fn lemma_released_entities<E>(entries: Seq<(TileCoordinate, Option<E>)>, active: Seq<TileCoordinate>)
    ensures
        forall|m: int|
            #![trigger released_entities(entries, active)[m]]
            0 <= m < released_entities(entries, active).len() ==> exists|k: int|
                0 <= k < entries.len() && !active.contains(entries[k].0) && #[trigger] entries[k].1
                    == Some(released_entities(entries, active)[m]),
        forall|k: int|
            0 <= k < entries.len() && !active.contains(entries[k].0) && (#[trigger] entries[k].1) is Some
                ==> released_entities(entries, active).contains(entries[k].1->0),
    decreases entries.len(),
{
    if entries.len() > 0 {
        let rest = entries.drop_last();
        lemma_released_entities(rest, active);
        let rr = released_entities(rest, active);
        let rel = released_entities(entries, active);
        assert forall|m: int| #![trigger rel[m]] 0 <= m < rel.len() implies exists|k: int|
            0 <= k < entries.len() && !active.contains(entries[k].0) && #[trigger] entries[k].1
                == Some(rel[m]) by {
            if m < rr.len() {
                assert(rel[m] == rr[m]);
                let k = choose|k: int|
                    0 <= k < rest.len() && !active.contains(rest[k].0) && #[trigger] rest[k].1 == Some(rr[m]);
                assert(entries[k] == rest[k]);
            } else {
                assert(entries[entries.len() - 1].1 == Some(rel[m]));
            }
        }
        assert forall|k: int|
            0 <= k < entries.len() && !active.contains(entries[k].0) && (#[trigger] entries[k].1) is Some
                implies rel.contains(entries[k].1->0) by {
            if k < entries.len() - 1 {
                assert(rest[k] == entries[k]);
                assert(rest[k].1 is Some);
                assert(rr.contains(rest[k].1->0));
                let m = choose|m: int| 0 <= m < rr.len() && rr[m] == rest[k].1->0;
                assert(rel[m] == rr[m]);
            } else {
                assert(rel[rel.len() - 1] == entries[k].1->0);
            }
        }
    }
}

/// Taking in reports on tiles that are new to `entries`, listed once each,
/// keeps `entries` in front and appends one entry for each tile whose report
/// settles it, and none for the others.
proof fn lemma_report_new_tiles<E>(
    entries: Seq<(TileCoordinate, Option<E>)>,
    tiles: Seq<TileCoordinate>,
    reports: Seq<TileReport<E>>,
)
    requires
        reports.len() >= tiles.len(),
        tiles.no_duplicates(),
        distinct_tiles(entries),
        forall|k: int| 0 <= k < tiles.len() ==> !knows(entries, #[trigger] tiles[k]),
    ensures
        ({
            let after = reported_all(entries, tiles, reports);
            &&& distinct_tiles(after)
            &&& after.len() >= entries.len()
            &&& forall|i: int| 0 <= i < entries.len() ==> #[trigger] after[i] == entries[i]
            &&& forall|i: int|
                #![trigger after[i]]
                entries.len() <= i < after.len() ==> exists|k: int|
                    0 <= k < tiles.len() && #[trigger] tiles[k] == after[i].0 && report_entity(reports[k])
                        == Some(after[i].1)
            &&& forall|k: int|
                0 <= k < tiles.len() && (#[trigger] report_entity(reports[k])) is Some ==> after.contains(
                    (tiles[k], report_entity(reports[k])->0),
                )
            &&& forall|k: int|
                0 <= k < tiles.len() && (#[trigger] report_entity(reports[k])) is None ==> !knows(
                    after,
                    tiles[k],
                )
        }),
    decreases tiles.len(),
{
    if tiles.len() > 0 {
        let rest = tiles.drop_last();
        let n = tiles.len() - 1;
        let last = tiles[n];
        assert forall|k: int| 0 <= k < rest.len() implies !knows(entries, #[trigger] rest[k]) by {
            assert(rest[k] == tiles[k]);
        }
        lemma_report_new_tiles(entries, rest, reports);
        let prev = reported_all(entries, rest, reports);
        let after = reported_all(entries, tiles, reports);
        assert(!knows(prev, last)) by {
            if knows(prev, last) {
                let i = choose|i: int| 0 <= i < prev.len() && #[trigger] prev[i].0 == last;
                if i < entries.len() {
                    assert(entries[i].0 == last);
                    assert(!knows(entries, tiles[n]));
                } else {
                    let k = choose|k: int|
                        0 <= k < rest.len() && #[trigger] rest[k] == prev[i].0 && report_entity(reports[k])
                            == Some(prev[i].1);
                    assert(tiles[k] == tiles[n]);
                }
            }
        }
        lemma_knows_entry_tiles(prev, last);
        match report_entity(reports[n]) {
            None => {
                assert(after == prev);
                assert forall|i: int| #![trigger after[i]] entries.len() <= i < after.len() implies exists|k: int|
                    0 <= k < tiles.len() && #[trigger] tiles[k] == after[i].0 && report_entity(reports[k])
                        == Some(after[i].1) by {
                    let k = choose|k: int|
                        0 <= k < rest.len() && #[trigger] rest[k] == prev[i].0 && report_entity(reports[k])
                            == Some(prev[i].1);
                    assert(tiles[k] == rest[k]);
                }
                assert forall|k: int|
                    0 <= k < tiles.len() && (#[trigger] report_entity(reports[k])) is Some implies after.contains(
                        (tiles[k], report_entity(reports[k])->0),
                    ) by {
                    assert(k < n);
                    assert(tiles[k] == rest[k]);
                }
                assert forall|k: int|
                    0 <= k < tiles.len() && (#[trigger] report_entity(reports[k])) is None implies !knows(
                        after,
                        tiles[k],
                    ) by {
                    if k < n {
                        assert(tiles[k] == rest[k]);
                    }
                }
            },
            Some(v) => {
                assert(after == prev.push((last, v)));
                assert forall|i: int, j: int| 0 <= i < j < after.len() implies after[i].0 != after[j].0 by {
                    if j < prev.len() {
                        assert(prev[i].0 != prev[j].0);
                    } else {
                        assert(after[i] == prev[i]);
                        if prev[i].0 == last {
                            assert(knows(prev, last));
                        }
                    }
                }
                assert forall|i: int| #![trigger after[i]] entries.len() <= i < after.len() implies exists|k: int|
                    0 <= k < tiles.len() && #[trigger] tiles[k] == after[i].0 && report_entity(reports[k])
                        == Some(after[i].1) by {
                    if i < prev.len() {
                        let k = choose|k: int|
                            0 <= k < rest.len() && #[trigger] rest[k] == prev[i].0 && report_entity(reports[k])
                                == Some(prev[i].1);
                        assert(tiles[k] == rest[k]);
                    } else {
                        assert(tiles[n] == after[i].0);
                    }
                }
                assert forall|k: int|
                    0 <= k < tiles.len() && (#[trigger] report_entity(reports[k])) is Some implies after.contains(
                        (tiles[k], report_entity(reports[k])->0),
                    ) by {
                    if k < n {
                        assert(tiles[k] == rest[k]);
                        let m = choose|m: int| 0 <= m < prev.len() && prev[m] == (rest[k], report_entity(reports[k])->0);
                        assert(after[m] == prev[m]);
                    } else {
                        assert(after[prev.len() as int] == (last, v));
                    }
                }
                assert forall|k: int|
                    0 <= k < tiles.len() && (#[trigger] report_entity(reports[k])) is None implies !knows(
                        after,
                        tiles[k],
                    ) by {
                    assert(k < n);
                    assert(tiles[k] == rest[k]);
                    assert(tiles[k] != tiles[n]);
                    if knows(after, tiles[k]) {
                        let i = choose|i: int| 0 <= i < after.len() && #[trigger] after[i].0 == tiles[k];
                        assert(i < prev.len());
                        assert(prev[i].0 == rest[k]);
                    }
                }
            },
        }
    }
}

/// One frame of a per-tile batching system, whole: the tiles no longer
/// active are forgotten and their entities released; then each active tile
/// not yet settled gets a report, in the order of `fresh_tiles`. Afterwards
/// - no tile is listed twice, and every settled tile is active;
/// - every active tile is settled, unless it is a new tile whose height
///   image is still loading, and such a tile stays unsettled;
/// - a tile settled before that is still active keeps its entity;
/// - a new tile that holds nothing is settled with no entity, and one for
///   which an entity was spawned is settled with that entity;
/// - the released entities are exactly the entities of the forgotten tiles.
pub proof fn lemma_batch_frame<E>(
    entries: Seq<(TileCoordinate, Option<E>)>,
    active: Seq<TileCoordinate>,
    reports: Seq<TileReport<E>>,
)
    requires
        distinct_tiles(entries),
        reports.len() == fresh_tiles(active, entry_tiles(kept_entries(entries, active))).len(),
    ensures
        ({
            let kept = kept_entries(entries, active);
            let fresh = fresh_tiles(active, entry_tiles(kept));
            let after = reported_all(kept, fresh, reports);
            let released = released_entities(entries, active);
            &&& distinct_tiles(after)
            &&& forall|t: TileCoordinate| #[trigger] knows(after, t) ==> active.contains(t)
            &&& forall|t: TileCoordinate|
                #[trigger] active.contains(t) ==> knows(after, t) || exists|k: int|
                    0 <= k < fresh.len() && #[trigger] fresh[k] == t && reports[k] is HeightPending
            &&& forall|k: int|
                0 <= k < entries.len() && active.contains(#[trigger] entries[k].0) ==> after.contains(
                    entries[k],
                )
            &&& forall|k: int|
                0 <= k < fresh.len() && (#[trigger] reports[k]) is HeightPending ==> !knows(after, fresh[k])
            &&& forall|k: int|
                0 <= k < fresh.len() && (#[trigger] reports[k]) is Empty ==> after.contains((fresh[k], None))
            &&& forall|k: int|
                0 <= k < fresh.len() && (#[trigger] reports[k]) is Spawned ==> after.contains(
                    (fresh[k], Some(reports[k]->0)),
                )
            &&& forall|k: int|
                0 <= k < entries.len() && !active.contains(entries[k].0) && (#[trigger] entries[k].1) is Some
                    ==> released.contains(entries[k].1->0)
            &&& forall|m: int|
                #![trigger released[m]]
                0 <= m < released.len() ==> exists|k: int|
                    0 <= k < entries.len() && !active.contains(entries[k].0) && #[trigger] entries[k].1
                        == Some(released[m])
        }),
{
    let kept = kept_entries(entries, active);
    let known = entry_tiles(kept);
    let fresh = fresh_tiles(active, known);
    let after = reported_all(kept, fresh, reports);
    lemma_kept_entries(entries, active);
    lemma_fresh_tiles(active, known);
    lemma_released_entities(entries, active);
    assert forall|k: int| 0 <= k < fresh.len() implies !knows(kept, #[trigger] fresh[k]) by {
        lemma_knows_entry_tiles(kept, fresh[k]);
    }
    lemma_report_new_tiles(kept, fresh, reports);
    assert forall|t: TileCoordinate| #[trigger] knows(after, t) implies active.contains(t) by {
        let i = choose|i: int| 0 <= i < after.len() && #[trigger] after[i].0 == t;
        if i < kept.len() {
            assert(after[i] == kept[i]);
            assert(active.contains(kept[i].0));
        } else {
            let k = choose|k: int|
                0 <= k < fresh.len() && #[trigger] fresh[k] == after[i].0 && report_entity(reports[k])
                    == Some(after[i].1);
            assert(active.contains(fresh[k]));
        }
    }
    assert forall|t: TileCoordinate| #[trigger] active.contains(t) implies knows(after, t) || exists|k: int|
        0 <= k < fresh.len() && #[trigger] fresh[k] == t && reports[k] is HeightPending by {
        lemma_knows_entry_tiles(kept, t);
        if knows(kept, t) {
            let i = choose|i: int| 0 <= i < kept.len() && #[trigger] kept[i].0 == t;
            assert(after[i] == kept[i]);
            assert(after[i].0 == t);
        } else {
            assert(fresh.contains(t));
            let k = choose|k: int| 0 <= k < fresh.len() && fresh[k] == t;
            if !(reports[k] is HeightPending) {
                assert(report_entity(reports[k]) is Some);
                let v = report_entity(reports[k])->0;
                assert(after.contains((fresh[k], v)));
                let i = choose|i: int| 0 <= i < after.len() && after[i] == (fresh[k], v);
                assert(after[i].0 == t);
            }
        }
    }
    assert forall|k: int| 0 <= k < entries.len() && active.contains(#[trigger] entries[k].0) implies after.contains(
        entries[k],
    ) by {
        assert(kept.contains(entries[k]));
        let m = choose|m: int| 0 <= m < kept.len() && kept[m] == entries[k];
        assert(after[m] == kept[m]);
    }
    assert forall|k: int| 0 <= k < fresh.len() && (#[trigger] reports[k]) is HeightPending implies !knows(
        after,
        fresh[k],
    ) by {
        assert(report_entity(reports[k]) is None);
    }
    assert forall|k: int| 0 <= k < fresh.len() && (#[trigger] reports[k]) is Empty implies after.contains(
        (fresh[k], None),
    ) by {
        assert(report_entity(reports[k]) == Some(Option::<E>::None));
    }
    assert forall|k: int| 0 <= k < fresh.len() && (#[trigger] reports[k]) is Spawned implies after.contains(
        (fresh[k], Some(reports[k]->0)),
    ) by {
        assert(report_entity(reports[k]) == Some(Some(reports[k]->0)));
    }
}


/// The report a new tile gets from what the frame found: the tile waits
/// while its height image is loading; otherwise it holds nothing when no
/// instance was generated on it, and gets the entity spawned for its
/// instances when some were.
pub open spec fn findings_report<E>(height_loaded: bool, instance_count: nat, entity: E) -> TileReport<E> {
    if !height_loaded {
        TileReport::HeightPending
    } else if instance_count == 0 {
        TileReport::Empty
    } else {
        TileReport::Spawned(entity)
    }
}

/// What to do next with a new tile.
#[derive(Debug, PartialEq, Eq, Structural, Clone, Copy)]
pub enum TileStep {
    /// Its height image is still loading: leave it for a later frame.
    WaitForHeight,
    /// No instance was generated on it: settle it with no entity.
    SettleEmpty,
    /// Spawn an entity for its instances and settle it with that entity.
    Spawn,
}

/// Decides what to do with a new tile once its height image has loaded or
/// not, and, if it has, how many instances were generated on it.
pub fn next_tile_step(height_loaded: bool, instance_count: usize) -> (r: TileStep)
    ensures
        r == if !height_loaded {
            TileStep::WaitForHeight
        } else if instance_count == 0 {
            TileStep::SettleEmpty
        } else {
            TileStep::Spawn
        },
{
    if !height_loaded {
        TileStep::WaitForHeight
    } else if instance_count == 0 {
        TileStep::SettleEmpty
    } else {
        TileStep::Spawn
    }
}

/// The building batching frame, whole: the tiles no longer active are
/// forgotten and their entities released; then, for each active tile not
/// yet settled (the `k`-th of `fresh_tiles`), the frame finds whether its
/// height image has loaded (`height_loaded[k]`), how many instances were
/// generated on it (`instance_counts[k]`), and, where there were some, the
/// entity spawned for them (`entities[k]`). Afterwards
/// - no tile is listed twice, and every settled tile is active;
/// - a settled tile that is still active keeps its entity;
/// - a new tile whose height image is still loading stays unsettled;
/// - a new tile with no instances is settled with no entity, and one with
///   instances is settled with the entity spawned for them;
/// - every active tile is settled but for those that wait for a height
///   image;
/// - the released entities are exactly the entities of the forgotten tiles.
pub proof fn lemma_building_batch_frame<E>(
    entries: Seq<(TileCoordinate, Option<E>)>,
    active: Seq<TileCoordinate>,
    height_loaded: Seq<bool>,
    instance_counts: Seq<nat>,
    entities: Seq<E>,
)
    requires
        distinct_tiles(entries),
        height_loaded.len() == fresh_tiles(active, entry_tiles(kept_entries(entries, active))).len(),
        instance_counts.len() == height_loaded.len(),
        entities.len() == height_loaded.len(),
    ensures
        ({
            let kept = kept_entries(entries, active);
            let fresh = fresh_tiles(active, entry_tiles(kept));
            let reports = Seq::new(
                fresh.len(),
                |k: int| findings_report(height_loaded[k], instance_counts[k], entities[k]),
            );
            let after = reported_all(kept, fresh, reports);
            let released = released_entities(entries, active);
            &&& distinct_tiles(after)
            &&& forall|t: TileCoordinate| #[trigger] knows(after, t) ==> active.contains(t)
            &&& forall|k: int|
                0 <= k < entries.len() && active.contains(#[trigger] entries[k].0) ==> after.contains(
                    entries[k],
                )
            &&& forall|k: int|
                0 <= k < fresh.len() && !height_loaded[k] ==> !knows(after, #[trigger] fresh[k])
            &&& forall|k: int|
                0 <= k < fresh.len() && height_loaded[k] && instance_counts[k] == 0 ==> after.contains(
                    (#[trigger] fresh[k], None),
                )
            &&& forall|k: int|
                0 <= k < fresh.len() && height_loaded[k] && instance_counts[k] > 0 ==> after.contains(
                    (#[trigger] fresh[k], Some(entities[k])),
                )
            &&& forall|t: TileCoordinate|
                #[trigger] active.contains(t) ==> knows(after, t) || exists|k: int|
                    0 <= k < fresh.len() && #[trigger] fresh[k] == t && !height_loaded[k]
            &&& forall|k: int|
                0 <= k < entries.len() && !active.contains(entries[k].0) && (#[trigger] entries[k].1) is Some
                    ==> released.contains(entries[k].1->0)
            &&& forall|m: int|
                #![trigger released[m]]
                0 <= m < released.len() ==> exists|k: int|
                    0 <= k < entries.len() && !active.contains(entries[k].0) && #[trigger] entries[k].1
                        == Some(released[m])
        }),
{
    let kept = kept_entries(entries, active);
    let fresh = fresh_tiles(active, entry_tiles(kept));
    let reports = Seq::new(fresh.len(), |k: int| findings_report(height_loaded[k], instance_counts[k], entities[k]));
    let after = reported_all(kept, fresh, reports);
    lemma_batch_frame(entries, active, reports);
    assert forall|k: int| 0 <= k < fresh.len() implies #[trigger] reports[k] == findings_report(
        height_loaded[k],
        instance_counts[k],
        entities[k],
    ) by {}
    assert forall|t: TileCoordinate| #[trigger] active.contains(t) implies knows(after, t) || exists|k: int|
        0 <= k < fresh.len() && #[trigger] fresh[k] == t && !height_loaded[k] by {
        if !knows(after, t) {
            let k = choose|k: int| 0 <= k < fresh.len() && #[trigger] fresh[k] == t && reports[k] is HeightPending;
            assert(reports[k] == findings_report(height_loaded[k], instance_counts[k], entities[k]));
        }
    }
    assert forall|k: int| 0 <= k < fresh.len() && !height_loaded[k] implies !knows(after, #[trigger] fresh[k]) by {
        assert(reports[k] == findings_report(height_loaded[k], instance_counts[k], entities[k]));
    }
    assert forall|k: int| 0 <= k < fresh.len() && height_loaded[k] && instance_counts[k] == 0 implies after.contains(
        (#[trigger] fresh[k], None),
    ) by {
        assert(reports[k] == findings_report(height_loaded[k], instance_counts[k], entities[k]));
    }
    assert forall|k: int| 0 <= k < fresh.len() && height_loaded[k] && instance_counts[k] > 0 implies after.contains(
        (#[trigger] fresh[k], Some(entities[k])),
    ) by {
        assert(reports[k] == findings_report(height_loaded[k], instance_counts[k], entities[k]));
    }
}

impl<E> KnownTiles<E> {
    /// No tile repeats.
    pub open spec fn wf(&self) -> bool {
        distinct_tiles(self@)
    }

    /// Nothing settled yet.
    pub fn new() -> (r: Self)
        ensures
            r@ == Seq::<(TileCoordinate, Option<E>)>::empty(),
            r.wf(),
    {
        KnownTiles { entries: Vec::new() }
    }

    /// How many tiles are settled.
    pub fn len(&self) -> (r: usize)
        ensures
            r == self@.len(),
    {
        self.entries.len()
    }

    /// Whether `tile` is settled.
    pub fn contains(&self, tile: TileCoordinate) -> (r: bool)
        ensures
            r == entry_tiles(self@).contains(tile),
    {
        let mut k: usize = 0;
        while k < self.entries.len()
            invariant
                k <= self@.len(),
                self@ == self.entries@,
                forall|m: int| 0 <= m < k ==> self@[m].0 != tile,
            decreases self@.len() - k,
        {
            if self.entries[k].0 == tile {
                assert(entry_tiles(self@)[k as int] == tile);
                return true;
            }
            k += 1;
        }
        assert(!entry_tiles(self@).contains(tile)) by {
            if entry_tiles(self@).contains(tile) {
                let m = choose|m: int| 0 <= m < self@.len() && entry_tiles(self@)[m] == tile;
                assert(self@[m].0 == tile);
            }
        }
        false
    }

    /// Forgets every tile that is no longer active, keeping the order of the
    /// rest, and hands back the entities of the forgotten tiles, in order, for
    /// despawning.
    pub fn retain_active(&mut self, active: &Vec<TileCoordinate>) -> (released: Vec<E>)
        requires
            old(self).wf(),
        ensures
            final(self).wf(),
            final(self)@ == kept_entries(old(self)@, active@),
            released@ == released_entities(old(self)@, active@),
            forall|k: int| 0 <= k < final(self)@.len() ==> active@.contains(#[trigger] final(self)@[k].0),
            forall|k: int|
                0 <= k < old(self)@.len() && active@.contains(#[trigger] old(self)@[k].0)
                    ==> final(self)@.contains(old(self)@[k]),
    {
        let ghost orig = self.entries@;
        let mut rest: Vec<(TileCoordinate, Option<E>)> = Vec::new();
        std::mem::swap(&mut rest, &mut self.entries);
        let mut kept: Vec<(TileCoordinate, Option<E>)> = Vec::new();
        let mut released: Vec<E> = Vec::new();
        let ghost mut done: int = 0;
        while rest.len() > 0
            invariant
                0 <= done <= orig.len(),
                rest@ == orig.subrange(done, orig.len() as int),
                kept@ == kept_entries(orig.take(done), active@),
                released@ == released_entities(orig.take(done), active@),
            decreases rest@.len(),
        {
            let entry = rest.remove(0);
            assert(orig.take(done + 1).drop_last() =~= orig.take(done));
            assert(orig.take(done + 1).last() == entry);
            if tile_listed(active, entry.0) {
                kept.push(entry);
            } else {
                match entry.1 {
                    Some(e) => released.push(e),
                    None => {},
                }
            }
            proof {
                done = done + 1;
            }
            assert(rest@ =~= orig.subrange(done, orig.len() as int));
        }
        assert(orig.take(done) =~= orig);
        proof {
            lemma_kept_entries(orig, active@);
        }
        self.entries = kept;
        released
    }
    /// The active tiles that are not settled yet, each once, in the order of
    /// `active`: the tiles to work on this frame.
    pub fn new_tiles(&self, active: &Vec<TileCoordinate>) -> (r: Vec<TileCoordinate>)
        ensures
            r@ == fresh_tiles(active@, entry_tiles(self@)),
    {
        let mut fresh: Vec<TileCoordinate> = Vec::new();
        let mut i: usize = 0;
        while i < active.len()
            invariant
                i <= active@.len(),
                fresh@ == fresh_tiles(active@.take(i as int), entry_tiles(self@)),
            decreases active@.len() - i,
        {
            let tile = active[i];
            assert(active@.take(i as int + 1).drop_last() =~= active@.take(i as int));
            assert(active@.take(i as int + 1).last() == tile);
            if !self.contains(tile) && !tile_listed_before(active, i, tile) {
                fresh.push(tile);
            }
            i += 1;
        }
        assert(active@.take(i as int) =~= active@);
        fresh
    }

    /// Settles `tile` with `entity`: the tile's entry takes the new entity
    /// where it has one, and a new entry goes last otherwise.
    pub fn settle(&mut self, tile: TileCoordinate, entity: Option<E>)
        requires
            old(self).wf(),
        ensures
            final(self).wf(),
            final(self)@ == settled(old(self)@, tile, entity),
    {
        let ghost orig = self.entries@;
        let mut k: usize = 0;
        while k < self.entries.len()
            invariant
                k <= orig.len(),
                self.entries@ == orig,
                orig == old(self)@,
                distinct_tiles(orig),
                forall|m: int| 0 <= m < k ==> orig[m].0 != tile,
            decreases orig.len() - k,
        {
            if self.entries[k].0 == tile {
                proof {
                    assert(entry_tiles(orig)[k as int] == tile);
                    let i = choose|i: int| 0 <= i < orig.len() && orig[i].0 == tile;
                    assert(i == k);
                    assert(entry_tiles(orig).contains(tile));
                }
                self.entries.set(k, (tile, entity));
                assert(distinct_tiles(self.entries@)) by {
                    assert forall|i: int, j: int| 0 <= i < j < self.entries@.len() implies
                        self.entries@[i].0 != self.entries@[j].0 by {
                        assert(orig[i].0 != orig[j].0);
                    }
                }
                assert(self.entries@ == settled(orig, tile, entity));
                return;
            }
            k += 1;
        }
        assert(!entry_tiles(orig).contains(tile)) by {
            if entry_tiles(orig).contains(tile) {
                let m = choose|m: int| 0 <= m < orig.len() && entry_tiles(orig)[m] == tile;
                assert(orig[m].0 == tile);
            }
        }
        self.entries.push((tile, entity));
        assert(distinct_tiles(self.entries@)) by {
            assert forall|i: int, j: int| 0 <= i < j < self.entries@.len() implies
                self.entries@[i].0 != self.entries@[j].0 by {
                if j < orig.len() {
                    assert(orig[i].0 != orig[j].0);
                } else {
                    assert(orig[i].0 != tile);
                }
            }
        }
    }
    /// Takes in what became of `tile` this frame: a tile whose height image
    /// is still loading stays as it is, an empty one is settled with no
    /// entity, and one with a spawned entity is settled with it.
    pub fn settle_report(&mut self, tile: TileCoordinate, report: TileReport<E>)
        requires
            old(self).wf(),
        ensures
            final(self).wf(),
            final(self)@ == reported(old(self)@, tile, report),
    {
        match report {
            TileReport::HeightPending => {},
            TileReport::Empty => self.settle(tile, None),
            TileReport::Spawned(e) => self.settle(tile, Some(e)),
        }
    }
}

} // verus!
