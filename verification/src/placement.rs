use vstd::prelude::*;

verus! {

/// Number of building sites along each edge of a tile.
pub const GRID_SIZE: u32 = 80;

/// Density byte below which an area counts as unpopulated.
pub const MIN_DENSITY_BYTE: u8 = 100;

/// The position of grid cell (`ix`, `iy`) in a row-major per-cell list.
pub open spec fn cell_index(ix: u32, iy: u32) -> int {
    iy * GRID_SIZE + ix
}

/// Whether grid cell (`ix`, `iy`) may hold a building before its footprint is
/// checked against the water: its area is populated (density byte at least
/// `MIN_DENSITY_BYTE`) and no road runs through the cell.
pub fn building_allowed(density_byte: u8, road_occupancy: &Vec<bool>, ix: u32, iy: u32) -> (r: bool)
    requires
        road_occupancy@.len() >= GRID_SIZE * GRID_SIZE,
        ix < GRID_SIZE,
        iy < GRID_SIZE,
    ensures
        r == (density_byte >= MIN_DENSITY_BYTE && !road_occupancy@[cell_index(ix, iy)]),
{
    if density_byte < MIN_DENSITY_BYTE {
        return false;
    }
    assert(iy * GRID_SIZE + ix < GRID_SIZE * GRID_SIZE) by (nonlinear_arith)
        requires
            ix < GRID_SIZE,
            iy < GRID_SIZE,
    ;
    !road_occupancy[(iy * GRID_SIZE + ix) as usize]
}

} // verus!
