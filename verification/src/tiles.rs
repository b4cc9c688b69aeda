use vstd::prelude::*;

verus! {

/// A terrain tile: the cube face it lies on, its level of detail, and its
/// column and row in that level's grid of `2^lod` by `2^lod` tiles.
#[derive(Debug, PartialEq, Eq, Structural, Clone, Copy, Hash)]
pub struct TileCoordinate {
    pub face: u32,
    pub lod: u32,
    pub x: i32,
    pub y: i32,
}

/// Whether `tile` is one of the first `n` of `tiles`.
pub fn tile_listed_before(tiles: &Vec<TileCoordinate>, n: usize, tile: TileCoordinate) -> (r: bool)
    requires
        n <= tiles@.len(),
    ensures
        r == tiles@.take(n as int).contains(tile),
{
    let mut k: usize = 0;
    while k < n
        invariant
            k <= n <= tiles@.len(),
            forall|m: int| 0 <= m < k ==> tiles@[m] != tile,
        decreases n - k,
    {
        if tiles[k] == tile {
            assert(tiles@.take(n as int)[k as int] == tile);
            return true;
        }
        k += 1;
    }
    assert(!tiles@.take(n as int).contains(tile)) by {
        if tiles@.take(n as int).contains(tile) {
            let m = choose|m: int| 0 <= m < n && tiles@.take(n as int)[m] == tile;
            assert(tiles@[m] == tile);
        }
    }
    false
}

/// The number of levels between `tile`'s level and `coarse_lod` (zero when
/// the tile is not finer than it).
pub open spec fn ancestor_shift(tile: TileCoordinate, coarse_lod: u32) -> int {
    if tile.lod >= coarse_lod {
        tile.lod - coarse_lod
    } else {
        0
    }
}

/// `tile`'s ancestor at `coarse_lod` (see `coarse_ancestor`).
pub open spec fn spec_coarse_ancestor(tile: TileCoordinate, coarse_lod: u32) -> TileCoordinate {
    TileCoordinate {
        face: tile.face,
        lod: coarse_lod,
        x: tile.x >> (ancestor_shift(tile, coarse_lod) as u32),
        y: tile.y >> (ancestor_shift(tile, coarse_lod) as u32),
    }
}

/// Finds `tile`'s ancestor at `coarse_lod`: the tile of that level on the
/// same face whose grid cell contains it, found by shifting the tile's
/// column and row right by the difference of levels. (A tile that is not
/// finer than `coarse_lod` keeps its column and row.)
pub fn coarse_ancestor(tile: TileCoordinate, coarse_lod: u32) -> (r: TileCoordinate)
    requires
        ancestor_shift(tile, coarse_lod) < 32,
    ensures
        r.face == tile.face,
        r.lod == coarse_lod,
        r.x == tile.x >> (ancestor_shift(tile, coarse_lod) as u32),
        r.y == tile.y >> (ancestor_shift(tile, coarse_lod) as u32),
        r == spec_coarse_ancestor(tile, coarse_lod),
{
    let shift = tile.lod.saturating_sub(coarse_lod);
    TileCoordinate { face: tile.face, lod: coarse_lod, x: tile.x >> shift, y: tile.y >> shift }
}

/// A tile's ancestor at its own level is the tile itself, and taking the
/// ancestor at a level twice gives the same tile as taking it once.
pub proof fn lemma_coarse_ancestor_idempotent(tile: TileCoordinate, coarse_lod: u32)
    requires
        ancestor_shift(tile, coarse_lod) < 32,
    ensures
        ancestor_shift(tile, tile.lod) == 0,
        tile.x >> 0u32 == tile.x && tile.y >> 0u32 == tile.y,
        ({
            let a = TileCoordinate {
                face: tile.face,
                lod: coarse_lod,
                x: tile.x >> (ancestor_shift(tile, coarse_lod) as u32),
                y: tile.y >> (ancestor_shift(tile, coarse_lod) as u32),
            };
            ancestor_shift(a, coarse_lod) == 0 && a.x >> 0u32 == a.x && a.y >> 0u32 == a.y
        }),
{
    let s = ancestor_shift(tile, coarse_lod) as u32;
    let x = tile.x;
    let y = tile.y;
    assert(x >> 0u32 == x) by (bit_vector);
    assert(y >> 0u32 == y) by (bit_vector);
    let ax = x >> s;
    let ay = y >> s;
    assert(ax >> 0u32 == ax) by (bit_vector);
    assert(ay >> 0u32 == ay) by (bit_vector);
}

/// The 64-bit finalizer the placement jitter hashes with: xor-shift by 33,
/// multiply by `0xff51afd7ed558ccd`, xor-shift by 33, multiply by
/// `0xc4ceb9fe1a85ec53`, xor-shift by 33, multiplications wrapping.
pub open spec fn spec_hash_u64(x: u64) -> u64 {
    let x1 = x ^ (x >> 33u64);
    let x2 = x1.wrapping_mul(0xff51afd7ed558ccdu64);
    let x3 = x2 ^ (x2 >> 33u64);
    let x4 = x3.wrapping_mul(0xc4ceb9fe1a85ec53u64);
    x4 ^ (x4 >> 33u64)
}

/// Hashes a 64-bit value (see `spec_hash_u64`).
pub fn hash_u64(x: u64) -> (r: u64)
    ensures
        r == spec_hash_u64(x),
{
    let mut x = x;
    x ^= x >> 33;
    x = x.wrapping_mul(0xff51afd7ed558ccd);
    x ^= x >> 33;
    x = x.wrapping_mul(0xc4ceb9fe1a85ec53);
    x ^= x >> 33;
    x
}

/// Combines two 64-bit values into one hash: `hash(a ^ hash(b))`.
pub open spec fn spec_mix(a: u64, b: u64) -> u64 {
    spec_hash_u64(a ^ spec_hash_u64(b))
}

/// Combines two 64-bit values into one hash (see `spec_mix`).
pub fn mix(a: u64, b: u64) -> (r: u64)
    ensures
        r == spec_mix(a, b),
{
    hash_u64(a ^ hash_u64(b))
}

/// The seed from which a vehicle's jitter is drawn: a mix of its tile's
/// face, column and row, the index of its chain within the tile, its own
/// index along the chain, and a salt telling apart the quantities drawn for
/// it.
pub open spec fn spec_vehicle_jitter_seed(
    tile: TileCoordinate,
    chain_index: usize,
    vehicle_index: usize,
    salt: u64,
) -> u64 {
    spec_mix(
        spec_mix(tile.face as u64, tile.x as u64),
        spec_mix(
            spec_mix(tile.y as u64, chain_index as u64),
            spec_mix(vehicle_index as u64, salt),
        ),
    )
}

/// The 64-bit value a vehicle's jitter in `[0, 1)` is scaled from: the hash
/// of its seed (see `spec_vehicle_jitter_seed`). The same vehicle gets the
/// same value every time its tile is built.
pub fn vehicle_jitter_bits(tile: TileCoordinate, chain_index: usize, vehicle_index: usize, salt: u64) -> (r: u64)
    ensures
        r == spec_hash_u64(spec_vehicle_jitter_seed(tile, chain_index, vehicle_index, salt)),
{
    let seed = mix(
        mix(tile.face as u64, tile.x as u64),
        mix(mix(tile.y as u64, chain_index as u64), mix(vehicle_index as u64, salt)),
    );
    hash_u64(seed)
}

/// The seed from which a building's placement jitter is drawn: a mix of its
/// tile's face, level, column and row and its grid cell's column and row.
pub open spec fn spec_building_jitter_seed(tile: TileCoordinate, ix: u32, iy: u32) -> u64 {
    spec_mix(
        spec_mix(tile.face as u64, tile.lod as u64),
        spec_mix(spec_mix(tile.x as u64, tile.y as u64), spec_mix(ix as u64, iy as u64)),
    )
}

/// The two 64-bit values a building's jitter along each axis is scaled
/// from: the hash of its seed, and the hash of its seed xored with
/// `0x9E3779B97F4A7C15` (see `spec_building_jitter_seed`).
pub fn building_jitter_bits(tile: TileCoordinate, ix: u32, iy: u32) -> (r: (u64, u64))
    ensures
        r.0 == spec_hash_u64(spec_building_jitter_seed(tile, ix, iy)),
        r.1 == spec_hash_u64(spec_building_jitter_seed(tile, ix, iy) ^ 0x9E3779B97F4A7C15u64),
{
    let seed = mix(
        mix(tile.face as u64, tile.lod as u64),
        mix(mix(tile.x as u64, tile.y as u64), mix(ix as u64, iy as u64)),
    );
    (hash_u64(seed), hash_u64(seed ^ 0x9E3779B97F4A7C15))
}

} // verus!
