//! Noise-driven tile generation.
//!
//! A coherent-noise field seeded once per generation is sampled twice per
//! cell — once at the cell, once at a fixed offset — and the difference of
//! the two samples forms a ridge value: cells where the two layers nearly
//! cancel become thin river-like bands of water, everything else grass.
//!
//! The noise field itself is floating-point and is sampled by the program
//! shell, which hands this module the per-cell ridge values in milli-units;
//! everything from the ridge field to the finished grid is verified here.

use crate::tilemap::TileType;
use vstd::prelude::*;

verus! {

/// Columns of the noise-generated map.
pub const MAP_WIDTH: u32 = 250;

/// Rows of the noise-generated map.
pub const MAP_HEIGHT: u32 = 250;

/// A cell is water when the ridge value is within this many milli-units of
/// zero: the river threshold of 0.05 plus the edge softness of 0.02.
pub const RIVER_BAND_MILLI: i64 = 70;

/// The terrain a ridge value selects: water inside the river band, grass
/// outside it.
pub open spec fn spec_ridge_tile(h: int) -> TileType {
    if -(RIVER_BAND_MILLI as int) < h < RIVER_BAND_MILLI as int {
        TileType::Water
    } else {
        TileType::Grass
    }
}

/// The ridge field is a full map-sized rectangle.
pub open spec fn ridge_is_grid(ridge: Seq<Seq<i64>>) -> bool {
    ridge.len() == MAP_HEIGHT && forall|y: int|
        0 <= y < MAP_HEIGHT ==> (#[trigger] ridge[y]).len() == MAP_WIDTH
}

/// `grid` is exactly the map the ridge field determines: map-sized, each
/// cell the terrain its ridge value selects.
pub open spec fn grid_matches_ridge(grid: Seq<Seq<TileType>>, ridge: Seq<Seq<i64>>) -> bool {
    &&& grid.len() == MAP_HEIGHT
    &&& forall|y: int| 0 <= y < MAP_HEIGHT ==> (#[trigger] grid[y]).len() == MAP_WIDTH
    &&& forall|y: int, x: int|
        0 <= y < MAP_HEIGHT && 0 <= x < MAP_WIDTH ==> (#[trigger] grid[y][x]) == spec_ridge_tile(
            ridge[y][x] as int,
        )
}

/// Converts a map-sized field of ridge values into the tile grid: every
/// cell becomes water exactly when its ridge value lies strictly inside the
/// river band, and grass otherwise.
pub fn generate_tilemap(ridge: &Vec<Vec<i64>>) -> (r: Vec<Vec<TileType>>)
    requires
        ridge_is_grid(ridge@.map_values(|row: Vec<i64>| row@)),
    ensures
        grid_matches_ridge(
            r@.map_values(|row: Vec<TileType>| row@),
            ridge@.map_values(|row: Vec<i64>| row@),
        ),
{
    let ghost rg: Seq<Seq<i64>> = ridge@.map_values(|row: Vec<i64>| row@);
    let mut rows: Vec<Vec<TileType>> = Vec::new();
    let mut y: u32 = 0;
    while y < MAP_HEIGHT
        invariant
            y <= MAP_HEIGHT,
            rows@.len() == y,
            rg == ridge@.map_values(|row: Vec<i64>| row@),
            ridge_is_grid(rg),
            forall|j: int| 0 <= j < y ==> (#[trigger] rows@[j])@.len() == MAP_WIDTH,
            forall|j: int, i: int|
                0 <= j < y && 0 <= i < MAP_WIDTH ==> #[trigger] (rows@[j])@[i] == spec_ridge_tile(
                    rg[j][i] as int,
                ),
        decreases MAP_HEIGHT - y,
    {
        let ridge_row: &Vec<i64> = &ridge[y as usize];
        let mut row: Vec<TileType> = Vec::new();
        let mut x: u32 = 0;
        while x < MAP_WIDTH
            invariant
                x <= MAP_WIDTH,
                y < MAP_HEIGHT,
                row@.len() == x,
                rg == ridge@.map_values(|row_: Vec<i64>| row_@),
                ridge_is_grid(rg),
                ridge_row == &ridge@[y as int],
                forall|i: int| 0 <= i < x ==> row@[i] == spec_ridge_tile(rg[y as int][i] as int),
            decreases MAP_WIDTH - x,
        {
            let height: i64 = ridge_row[x as usize];
            let tile: TileType = if -RIVER_BAND_MILLI < height && height < RIVER_BAND_MILLI {
                TileType::Water
            } else {
                TileType::Grass
            };
            row.push(tile);
            x = x + 1;
        }
        rows.push(row);
        y = y + 1;
    }
    rows
}

/// Generation is a function of the ridge field alone: two grids that both
/// match one ridge field agree in every cell.  With noise whose samples
/// depend only on the seed and the sample point, two runs from one seed
/// therefore produce identical grids, of fixed dimensions.
pub proof fn lemma_generation_deterministic(
    ridge: Seq<Seq<i64>>,
    g1: Seq<Seq<TileType>>,
    g2: Seq<Seq<TileType>>,
)
    requires
        grid_matches_ridge(g1, ridge),
        grid_matches_ridge(g2, ridge),
    ensures
        g1 =~~= g2,
{
    assert forall|y: int| 0 <= y < g1.len() implies g1[y] =~= g2[y] by {
        assert(forall|x: int| 0 <= x < MAP_WIDTH ==> g1[y][x] == g2[y][x]);
    }
}

/// The noise generator only emits water and grass: stone and dirt are
/// defined tile types but reserved for future biome logic.
pub proof fn lemma_generation_water_or_grass(h: int)
    ensures
        spec_ridge_tile(h) == TileType::Water || spec_ridge_tile(h) == TileType::Grass,
{
}

/// Where the neighbor at offset `(dx, dy)` of `(x, y)` lies on the map, the
/// one-element sequence of its tile; where it falls off the edge, nothing.
pub open spec fn spec_neighbor_cell(
    x: int,
    y: int,
    map: Seq<Seq<TileType>>,
    dx: int,
    dy: int,
) -> Seq<TileType> {
    if 0 <= x + dx < MAP_WIDTH && 0 <= y + dy < MAP_HEIGHT {
        seq![map[y + dy][x + dx]]
    } else {
        Seq::empty()
    }
}

/// The in-bounds 8-connected neighbors of `(x, y)`, in fixed order: the row
/// above left to right, the two sides, the row below left to right.
pub open spec fn spec_neighbors(x: int, y: int, map: Seq<Seq<TileType>>) -> Seq<TileType> {
    spec_neighbor_cell(x, y, map, -1, -1) + spec_neighbor_cell(x, y, map, 0, -1)
        + spec_neighbor_cell(x, y, map, 1, -1) + spec_neighbor_cell(x, y, map, -1, 0)
        + spec_neighbor_cell(x, y, map, 1, 0) + spec_neighbor_cell(x, y, map, -1, 1)
        + spec_neighbor_cell(x, y, map, 0, 1) + spec_neighbor_cell(x, y, map, 1, 1)
}

/// The tiles of the up to eight neighbors of `(x, y)` that lie on the map,
/// in fixed order: a bounds-checked 8-connected lookup kept for future
/// biome logic.
pub fn get_neighbors(x: i32, y: i32, map: &Vec<Vec<TileType>>) -> (r: Vec<TileType>)
    requires
        map@.len() == MAP_HEIGHT,
        forall|j: int| 0 <= j < MAP_HEIGHT ==> (#[trigger] map@[j])@.len() == MAP_WIDTH,
        -1_000_000 <= x <= 1_000_000,
        -1_000_000 <= y <= 1_000_000,
    ensures
        r@ == spec_neighbors(x as int, y as int, map@.map_values(|row: Vec<TileType>| row@)),
{
    let ghost m: Seq<Seq<TileType>> = map@.map_values(|row: Vec<TileType>| row@);
    let mut r: Vec<TileType> = Vec::new();
    neighbor_step(x, y, map, &mut r, -1, -1);
    neighbor_step(x, y, map, &mut r, 0, -1);
    neighbor_step(x, y, map, &mut r, 1, -1);
    neighbor_step(x, y, map, &mut r, -1, 0);
    neighbor_step(x, y, map, &mut r, 1, 0);
    neighbor_step(x, y, map, &mut r, -1, 1);
    neighbor_step(x, y, map, &mut r, 0, 1);
    neighbor_step(x, y, map, &mut r, 1, 1);
    proof {
        assert(r@ =~= spec_neighbors(x as int, y as int, m));
    }
    r
}

/// Appends the neighbor at offset `(dx, dy)` when it lies on the map.
fn neighbor_step(x: i32, y: i32, map: &Vec<Vec<TileType>>, r: &mut Vec<TileType>, dx: i32, dy: i32)
    requires
        map@.len() == MAP_HEIGHT,
        forall|j: int| 0 <= j < MAP_HEIGHT ==> (#[trigger] map@[j])@.len() == MAP_WIDTH,
        -1_000_000 <= x <= 1_000_000,
        -1_000_000 <= y <= 1_000_000,
        -1 <= dx <= 1,
        -1 <= dy <= 1,
    ensures
        final(r)@ == old(r)@ + spec_neighbor_cell(
            x as int,
            y as int,
            map@.map_values(|row: Vec<TileType>| row@),
            dx as int,
            dy as int,
        ),
{
    let nx: i32 = x + dx;
    let ny: i32 = y + dy;
    if nx >= 0 && nx < MAP_WIDTH as i32 && ny >= 0 && ny < MAP_HEIGHT as i32 {
        let t: TileType = map[ny as usize][nx as usize];
        r.push(t);
        proof {
            let m = map@.map_values(|row: Vec<TileType>| row@);
            assert(old(r)@ + spec_neighbor_cell(x as int, y as int, m, dx as int, dy as int) =~= old(
                r,
            )@.push(t));
        }
    } else {
        proof {
            let m = map@.map_values(|row: Vec<TileType>| row@);
            assert(old(r)@ + spec_neighbor_cell(x as int, y as int, m, dx as int, dy as int) =~= old(
                r,
            )@);
        }
    }
}

} // verus!
