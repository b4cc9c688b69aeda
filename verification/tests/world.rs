use texture_processor::chains::{chain_candidates, ChainBuilder, MAX_WAYPOINTS};
use texture_processor::mesh::{airplane_indices, AIRPLANE_VERTEX_COUNT};
use texture_processor::raster::{clamped_texel_index, population_at, water_at, GrayRaster};
use texture_processor::routes::chunk_route_ranges;
use texture_processor::tiles::{building_jitter_bits, coarse_ancestor, hash_u64, mix, vehicle_jitter_bits, TileCoordinate};

fn tile(face: u32, lod: u32, x: i32, y: i32) -> TileCoordinate {
    TileCoordinate { face, lod, x, y }
}

#[test]
fn route_chunks_overlap_by_one_point() {
    assert_eq!(chunk_route_ranges(1), vec![]);
    assert_eq!(chunk_route_ranges(2), vec![(0, 1)]);
    assert_eq!(chunk_route_ranges(20), vec![(0, 19)]);
    assert_eq!(chunk_route_ranges(21), vec![(0, 19), (19, 20)]);
    assert_eq!(chunk_route_ranges(40), vec![(0, 19), (19, 38), (38, 39)]);
}

#[test]
fn coarse_ancestor_shifts_down_to_the_coarse_level() {
    assert_eq!(coarse_ancestor(tile(2, 7, 100, 37), 4), tile(2, 4, 12, 4));
    assert_eq!(coarse_ancestor(tile(2, 4, 12, 4), 4), tile(2, 4, 12, 4));
    assert_eq!(coarse_ancestor(tile(1, 2, 3, 1), 5), tile(1, 5, 3, 1));
}

#[test]
fn hash_matches_the_murmur_finalizer() {
    assert_eq!(hash_u64(0), 0);
    assert_eq!(hash_u64(1), 0xB456BCFC34C2CB2C);
    assert_eq!(mix(1, 0), hash_u64(1));
    let a = vehicle_jitter_bits(tile(1, 3, 2, 5), 4, 0, 1);
    assert_eq!(a, vehicle_jitter_bits(tile(1, 3, 2, 5), 4, 0, 1));
    assert_ne!(a, vehicle_jitter_bits(tile(1, 3, 2, 5), 4, 0, 2));
    let (hx, hy) = building_jitter_bits(tile(0, 1, 1, 1), 3, 4);
    assert_ne!(hx, hy);
    assert_eq!((hx, hy), building_jitter_bits(tile(0, 1, 1, 1), 3, 4));
}

#[test]
fn chain_runs_stop_at_the_tile_edge() {
    let target = tile(0, 3, 1, 1);
    let outside = tile(0, 3, 2, 1);
    let mut b: ChainBuilder<i32, u8> = ChainBuilder::new(target);
    assert!(b.push(target, 1, 10).is_none());
    assert!(b.push(target, 2, 20).is_none());
    let run = b.push(outside, 3, 30).unwrap();
    assert_eq!(run.points, vec![1, 2]);
    assert_eq!(run.first_unit, Some(10));
    // A single in-target sample is too short to be a run.
    assert!(b.push(target, 4, 40).is_none());
    assert!(b.flush().is_none());
}

#[test]
fn full_chain_carries_its_last_point_over() {
    let target = tile(0, 3, 1, 1);
    let mut b: ChainBuilder<usize, usize> = ChainBuilder::new(target);
    for i in 0..MAX_WAYPOINTS {
        assert!(b.push(target, i, 100 + i).is_none());
    }
    let run = b.push(target, MAX_WAYPOINTS, 100 + MAX_WAYPOINTS).unwrap();
    assert_eq!(run.points, (0..MAX_WAYPOINTS).collect::<Vec<_>>());
    assert_eq!(run.first_unit, Some(100));
    let rest = b.flush().unwrap();
    assert_eq!(rest.points, vec![MAX_WAYPOINTS - 1, MAX_WAYPOINTS]);
    assert_eq!(rest.first_unit, Some(100 + MAX_WAYPOINTS - 1));
}

#[test]
fn raster_cells_and_bounds() {
    let r = GrayRaster { width: 3, height: 2, pixels: vec![0, 127, 128, 200, 255, 1] };
    assert_eq!(r.cell(2, 0), Some(128));
    assert_eq!(r.cell(0, 1), Some(200));
    assert_eq!(r.cell(3, 0), None);
    assert_eq!(r.cell(0, 2), None);
    assert!(!water_at(&r, 1, 0));
    assert!(water_at(&r, 2, 0));
    assert!(!water_at(&r, 9, 9));
    assert_eq!(population_at(&r, 1, 1), 255);
    assert_eq!(population_at(&r, 5, 1), 0);
}

use texture_processor::hubs::{rank_cities, rank_hubs, spoke_cities, CityRank, HUB_COUNT};

fn city(id: u32, scale_rank: u8, population: u32) -> CityRank {
    CityRank { id, scale_rank, population }
}

#[test]
fn cities_rank_by_scale_then_population_stably() {
    let cities = vec![
        city(1, 3, 100),
        city(2, 1, 50),
        city(3, 1, 900),
        city(4, 3, 100),
        city(5, 0, 1),
    ];
    assert_eq!(rank_cities(&cities), vec![4, 2, 1, 0, 3]);
    assert_eq!(rank_hubs(&cities), vec![4, 2, 1, 0, 3]);
}

#[test]
fn at_most_hub_count_hubs() {
    let cities: Vec<CityRank> = (0..100u32).map(|i| city(i, (i % 7) as u8, i * 1000)).collect();
    let hubs = rank_hubs(&cities);
    assert_eq!(hubs.len(), HUB_COUNT);
    let order = rank_cities(&cities);
    assert_eq!(hubs, order[..HUB_COUNT].to_vec());
}

#[test]
fn spokes_skip_hubs_by_id_and_small_towns() {
    let cities = vec![
        city(1, 0, 1_000_000),
        city(2, 5, 60_000),
        city(3, 5, 49_999),
        city(1, 9, 70_000),
        city(4, 9, 50_000),
    ];
    let hubs = vec![0usize];
    assert_eq!(spoke_cities(&cities, &hubs), vec![1, 4]);
}

#[test]
fn texel_reads_clamp_to_the_edge() {
    assert_eq!(clamped_texel_index(0, 0, 4), 0);
    assert_eq!(clamped_texel_index(3, 2, 4), 11);
    assert_eq!(clamped_texel_index(-5, 2, 4), 8);
    assert_eq!(clamped_texel_index(9, -1, 4), 3);
    assert_eq!(clamped_texel_index(7, 7, 4), 15);
    assert_eq!(clamped_texel_index(i64::MIN, i64::MAX, 65536), 65535 * 65536);
}

#[test]
fn chains_skip_unknown_and_pointless_routes() {
    let point_counts = vec![5, 1, 2, 0];
    assert_eq!(chain_candidates(&vec![3, 0, 7, 2, 1, 0], &point_counts), vec![0, 2, 0]);
    assert_eq!(chain_candidates(&vec![], &point_counts), vec![]);
    assert_eq!(chain_candidates(&vec![0], &vec![]), vec![]);
}

#[test]
fn airplane_mesh_indices_form_whole_triangles() {
    let indices = airplane_indices();
    assert_eq!(indices.len(), 84);
    assert_eq!(&indices[..6], &[0, 3, 2, 0, 2, 1]);
    assert_eq!(&indices[78..], &[17, 19, 20, 17, 20, 18]);
    assert!(indices.iter().all(|&i| i < AIRPLANE_VERTEX_COUNT));
    for v in 0..AIRPLANE_VERTEX_COUNT {
        assert!(indices.contains(&v));
    }
}
