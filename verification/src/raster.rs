use vstd::prelude::*;

verus! {

/// A grayscale raster, row-major, one byte per cell, covering the globe.
pub struct GrayRaster {
    pub width: u32,
    pub height: u32,
    pub pixels: Vec<u8>,
}

impl GrayRaster {
    /// The raster holds one byte per cell, and every cell index fits in a
    /// `u32`.
    pub open spec fn wf(&self) -> bool {
        &&& self.pixels@.len() == self.width as int * self.height as int
        &&& self.width as int * self.height as int <= u32::MAX
    }

    /// The byte of the cell in column `col` and row `row`, or `None` outside
    /// the raster.
    pub open spec fn spec_cell(&self, col: u32, row: u32) -> Option<u8> {
        if col < self.width && row < self.height {
            Some(self.pixels@[row * self.width + col])
        } else {
            None
        }
    }

    /// The byte of the cell in column `col` and row `row`, or `None` outside
    /// the raster.
    pub fn cell(&self, col: u32, row: u32) -> (r: Option<u8>)
        requires
            self.wf(),
        ensures
            r == self.spec_cell(col, row),
    {
        if col >= self.width || row >= self.height {
            return None;
        }
        assert(row * self.width + col < self.width as int * self.height as int) by (nonlinear_arith)
            requires
                row < self.height,
                col < self.width,
        {
            assert(row * self.width + col < (row + 1) * self.width);
            assert((row + 1) * self.width <= self.height * self.width);
        }
        let index = row * self.width + col;
        Some(self.pixels[index as usize])
    }
}

/// The byte at and above which an ocean-mask cell is water.
pub const WATER_THRESHOLD: u8 = 128;

/// Whether an ocean-mask cell is water; cells outside the mask are not.
pub fn water_at(mask: &GrayRaster, col: u32, row: u32) -> (r: bool)
    requires
        mask.wf(),
    ensures
        r == (mask.spec_cell(col, row) matches Some(b) && b >= WATER_THRESHOLD),
{
    match mask.cell(col, row) {
        Some(b) => b >= WATER_THRESHOLD,
        None => false,
    }
}

/// The population-density byte of a cell; cells outside the raster are
/// unpopulated (`0`).
pub fn population_at(density: &GrayRaster, col: u32, row: u32) -> (r: u8)
    requires
        density.wf(),
    ensures
        r == match density.spec_cell(col, row) {
            Some(b) => b,
            None => 0,
        },
{
    match density.cell(col, row) {
        Some(b) => b,
        None => 0,
    }
}


/// `v` clamped to the texel range `0..size`.
pub open spec fn clamp_texel(v: int, size: int) -> int {
    if v < 0 {
        0
    } else if v > size - 1 {
        size - 1
    } else {
        v
    }
}

/// The position, in a row-major square texture `texture_size` texels on a
/// side, of texel (`x`, `y`) with each coordinate clamped to the texture's
/// edge: reads past the border repeat the edge texels.
pub fn clamped_texel_index(x: i64, y: i64, texture_size: u32) -> (r: usize)
    requires
        texture_size > 0,
        texture_size as int * texture_size as int <= u32::MAX as int + 1,
    ensures
        r == clamp_texel(y as int, texture_size as int) * texture_size + clamp_texel(
            x as int,
            texture_size as int,
        ),
{
    let last = texture_size as i64 - 1;
    let cx: i64 = if x < 0 {
        0
    } else if x > last {
        last
    } else {
        x
    };
    let cy: i64 = if y < 0 {
        0
    } else if y > last {
        last
    } else {
        y
    };
    let (ux, uy) = (cx as u32, cy as u32);
    assert(uy * texture_size + ux <= u32::MAX) by (nonlinear_arith)
        requires
            ux < texture_size,
            uy < texture_size,
            texture_size * texture_size <= u32::MAX as int + 1,
    {
        assert(uy * texture_size + ux < (uy + 1) * texture_size);
        assert((uy + 1) * texture_size <= texture_size * texture_size);
    }
    (uy * texture_size + ux) as usize
}

} // verus!
