use texture_processor::batches::{next_tile_step, KnownTiles, TileReport, TileStep};
use texture_processor::placement::{building_allowed, GRID_SIZE, MIN_DENSITY_BYTE};
use texture_processor::route_index::{build_coarse_index, pick_coarse_lod, RouteSamples};
use texture_processor::tiles::TileCoordinate;

fn tile(face: u32, lod: u32, x: i32, y: i32) -> TileCoordinate {
    TileCoordinate { face, lod, x, y }
}

#[test]
fn inactive_tiles_are_released_in_order() {
    let (a, b, c) = (tile(0, 5, 1, 1), tile(0, 5, 2, 1), tile(3, 5, 7, 9));
    let mut known: KnownTiles<u64> = KnownTiles::new();
    known.settle(a, Some(10));
    known.settle(b, None);
    known.settle(c, Some(30));
    assert_eq!(known.len(), 3);

    let released = known.retain_active(&vec![b, tile(1, 5, 0, 0)]);
    assert_eq!(released, vec![10, 30]);
    assert_eq!(known.len(), 1);
    assert!(known.contains(b));
    assert!(!known.contains(a));
    assert!(!known.contains(c));
}

#[test]
fn empty_tiles_release_nothing() {
    let mut known: KnownTiles<u64> = KnownTiles::new();
    known.settle(tile(2, 4, 3, 3), None);
    let released = known.retain_active(&vec![]);
    assert!(released.is_empty());
    assert_eq!(known.len(), 0);
}

#[test]
fn new_tiles_skip_known_and_repeated_ones() {
    let (a, b, c) = (tile(0, 6, 4, 4), tile(0, 6, 4, 5), tile(0, 6, 5, 5));
    let mut known: KnownTiles<u64> = KnownTiles::new();
    known.settle(b, Some(1));
    assert_eq!(known.new_tiles(&vec![a, b, a, c]), vec![a, c]);
    assert_eq!(known.new_tiles(&vec![b]), vec![]);
}

#[test]
fn settling_a_known_tile_replaces_its_entity() {
    let a = tile(4, 2, 1, 0);
    let mut known: KnownTiles<u64> = KnownTiles::new();
    known.settle(a, None);
    known.settle(a, Some(5));
    assert_eq!(known.len(), 1);
    assert_eq!(known.retain_active(&vec![]), vec![5]);
}

#[test]
fn settled_tiles_follow_the_active_set() {
    let (a, b, c, d) = (tile(1, 3, 0, 0), tile(1, 3, 0, 1), tile(1, 3, 1, 0), tile(1, 3, 1, 1));
    let mut known: KnownTiles<u64> = KnownTiles::new();
    known.settle(a, Some(1));
    known.settle(b, Some(2));
    let active = vec![b, c, d];
    assert_eq!(known.retain_active(&active), vec![1]);
    let fresh = known.new_tiles(&active);
    assert_eq!(fresh, vec![c, d]);
    for t in fresh {
        known.settle(t, None);
    }
    assert_eq!(known.len(), 3);
    for t in &active {
        assert!(known.contains(*t));
    }
    assert!(!known.contains(a));
    assert!(known.new_tiles(&active).is_empty());
}

#[test]
fn coarse_index_lists_routes_under_the_tiles_they_touch() {
    let (a, b, c) = (tile(0, 4, 3, 5), tile(0, 4, 4, 5), tile(2, 4, 0, 0));
    let routes = vec![
        RouteSamples { point_count: 3, tiles: vec![a, b, a] },
        RouteSamples { point_count: 1, tiles: vec![a] },
        RouteSamples { point_count: 2, tiles: vec![b, c] },
    ];
    let index = build_coarse_index(4, 9, &routes);
    assert_eq!(index.coarse_lod(), 4);
    assert_eq!(index.candidates(tile(0, 6, 13, 22)), Some(&vec![0]));
    assert_eq!(index.candidates(tile(0, 6, 17, 20)), Some(&vec![0, 2]));
    assert_eq!(index.candidates(c), Some(&vec![2]));
    assert_eq!(index.candidates(tile(1, 6, 13, 22)), None);
}

#[test]
fn coarse_index_of_no_routes_is_empty() {
    let index = build_coarse_index(6, 3, &vec![]);
    assert_eq!(index.candidates(tile(0, 3, 0, 0)), None);
}

#[test]
fn buildings_need_population_and_no_road() {
    let mut roads = vec![false; (GRID_SIZE * GRID_SIZE) as usize];
    roads[(2 * GRID_SIZE + 5) as usize] = true;
    assert!(building_allowed(MIN_DENSITY_BYTE, &roads, 4, 2));
    assert!(!building_allowed(MIN_DENSITY_BYTE - 1, &roads, 4, 2));
    assert!(!building_allowed(255, &roads, 5, 2));
    assert!(building_allowed(255, &roads, 2, 5));
    assert!(building_allowed(255, &roads, GRID_SIZE - 1, GRID_SIZE - 1));
}

#[test]
fn building_frame_settles_reported_tiles() {
    let (a, b, c, d) = (tile(0, 5, 0, 0), tile(0, 5, 0, 1), tile(0, 5, 1, 0), tile(0, 5, 1, 1));
    let mut known: KnownTiles<u64> = KnownTiles::new();
    known.settle(a, Some(1));
    known.settle(b, Some(2));
    let active = vec![b, c, d, tile(0, 5, 2, 2)];
    assert_eq!(known.retain_active(&active), vec![1]);
    let fresh = known.new_tiles(&active);
    assert_eq!(fresh, vec![c, d, tile(0, 5, 2, 2)]);
    known.settle_report(c, TileReport::Spawned(7));
    known.settle_report(d, TileReport::Empty);
    known.settle_report(tile(0, 5, 2, 2), TileReport::HeightPending);
    assert_eq!(known.len(), 3);
    assert!(known.contains(c) && known.contains(d));
    assert!(!known.contains(tile(0, 5, 2, 2)));
    // the pending tile is new again next frame
    assert_eq!(known.new_tiles(&active), vec![tile(0, 5, 2, 2)]);
    // only spawned tiles hand back an entity when they leave
    assert_eq!(known.retain_active(&vec![]), vec![2, 7]);
}

#[test]
fn airplane_tiles_without_routes_settle_empty() {
    let routed = tile(0, 4, 3, 5);
    let routes = vec![RouteSamples { point_count: 2, tiles: vec![routed] }];
    let index = build_coarse_index(4, 9, &routes);
    let mut known: KnownTiles<u64> = KnownTiles::new();
    let lonely = tile(0, 6, 0, 0);
    assert_eq!(index.start_route_tile(&mut known, lonely), None);
    assert!(known.contains(lonely));
    assert_eq!(known.retain_active(&vec![]), Vec::<u64>::new());

    let fine = tile(0, 6, 13, 22);
    assert_eq!(index.start_route_tile(&mut known, fine), Some(&vec![0]));
    assert!(!known.contains(fine));
    known.settle_report(fine, TileReport::Spawned(9));
    assert_eq!(known.retain_active(&vec![]), vec![9]);
}

#[test]
fn new_tiles_wait_for_height_then_settle_by_instance_count() {
    assert_eq!(next_tile_step(false, 0), TileStep::WaitForHeight);
    assert_eq!(next_tile_step(false, 12), TileStep::WaitForHeight);
    assert_eq!(next_tile_step(true, 0), TileStep::SettleEmpty);
    assert_eq!(next_tile_step(true, 1), TileStep::Spawn);
}

#[test]
fn coarse_level_is_never_finer_than_the_terrain() {
    assert_eq!(pick_coarse_lod(5, 9), 5);
    assert_eq!(pick_coarse_lod(9, 5), 5);
    assert_eq!(pick_coarse_lod(0, 0), 0);
    assert_eq!(build_coarse_index(12, 7, &vec![]).coarse_lod(), 7);
}
