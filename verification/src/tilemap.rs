//! The tile world and its minimap.
//!
//! A generated grid of tile types is materialized as isometric-projected
//! sprite placements; a scaled-down duplicate forms a minimap that the "M"
//! key toggles, with a player marker pinned to a fixed screen anchor while
//! the tile container pans opposite to the camera.  Translations are
//! milli-units.

use crate::camera::CameraResource;
use crate::units::Vec2M;
use crate::units::div_floor;
use vstd::prelude::*;

verus! {

/// An isometric tile is twice as wide as it is tall: 16 by 8 world units,
/// in milli-units.
pub const TILE_SIZE_X_MILLI: i64 = 16_000;

/// The tile height in milli-units.
pub const TILE_SIZE_Y_MILLI: i64 = 8_000;

/// Columns of the uniformly generated map.
pub const MAP_WIDTH: u32 = 50;

/// Rows of the uniformly generated map.
pub const MAP_HEIGHT: u32 = 30;

/// The minimap shrinks the world by this factor, in milli-units (0.3).
pub const MINIMAP_SCALE_MILLI: i64 = 300;

/// Horizontal anchor of the minimap, as milli-units of the screen width.
pub const MINIMAP_SCREEN_PERCENT_X_MILLI: i64 = 0;

/// Vertical anchor of the minimap, as milli-units of the screen height.
pub const MINIMAP_SCREEN_PERCENT_Y_MILLI: i64 = 0;

/// An enumerated terrain category, mapped to a fixed sprite-atlas frame.
#[derive(Clone, Copy, PartialEq, Eq, Structural, Debug)]
pub enum TileType {
    Stone,
    Grass,
    Water,
    Dirt,
}

impl TileType {
    /// The atlas frame this terrain selects.
    pub open spec fn spec_index(self) -> usize {
        match self {
            TileType::Stone => 0usize,
            TileType::Grass => 1usize,
            TileType::Water => 2usize,
            TileType::Dirt => 3usize,
        }
    }

    /// The sprite-atlas frame index of this terrain: stone, grass, water
    /// and dirt in that order.
    pub fn to_index(&self) -> (r: usize)
        ensures
            r == self.spec_index(),
    {
        match self {
            TileType::Stone => 0,
            TileType::Grass => 1,
            TileType::Water => 2,
            TileType::Dirt => 3,
        }
    }

    /// The terrain a uniform draw in `[0, 4)` selects.
    pub open spec fn spec_from_roll(roll: u32) -> TileType {
        if roll == 0 {
            TileType::Stone
        } else if roll == 1 {
            TileType::Grass
        } else if roll == 2 {
            TileType::Water
        } else {
            TileType::Dirt
        }
    }

    /// Maps a uniform draw to a terrain: 0 stone, 1 grass, 2 water,
    /// anything else dirt.
    pub fn from_roll(roll: u32) -> (r: TileType)
        ensures
            r == TileType::spec_from_roll(roll),
    {
        match roll {
            0 => TileType::Stone,
            1 => TileType::Grass,
            2 => TileType::Water,
            _ => TileType::Dirt,
        }
    }

    /// A uniformly random terrain.
    pub fn random() -> TileType {
        TileType::from_roll(random_tile_roll())
    }
}

/// Relies on rand's `random_range`: the value drawn from a nonempty range
/// lies within it.
#[verifier::external_body]
fn random_tile_roll() -> (r: u32)
    ensures
        r < 4,
{
    rand::random_range(0u32..4u32)
}

/// The generated tile grid, rows of columns.
#[derive(Debug)]
pub struct Tilemap {
    pub tiles: Vec<Vec<TileType>>,
}

impl Tilemap {
    /// The grid is a rectangle of the given dimensions.
    pub open spec fn is_grid(self, height: int, width: int) -> bool {
        self.tiles@.len() == height && forall|y: int|
            0 <= y < height ==> (#[trigger] self.tiles@[y])@.len() == width
    }
}

impl Default for Tilemap {
    /// No tiles until the map is generated.
    fn default() -> (r: Tilemap)
        ensures
            r.tiles@.len() == 0,
    {
        Tilemap { tiles: Vec::new() }
    }
}

/// Fills the tilemap with a uniformly random `MAP_HEIGHT` by `MAP_WIDTH`
/// grid, each cell drawn independently.
pub fn setup_tilemap(tilemap: &mut Tilemap)
    ensures
        final(tilemap).is_grid(MAP_HEIGHT as int, MAP_WIDTH as int),
{
    let mut tiles: Vec<Vec<TileType>> = Vec::new();
    let mut y: u32 = 0;
    while y < MAP_HEIGHT
        invariant
            y <= MAP_HEIGHT,
            tiles@.len() == y,
            forall|j: int| 0 <= j < y ==> (#[trigger] tiles@[j])@.len() == MAP_WIDTH,
        decreases MAP_HEIGHT - y,
    {
        let mut row: Vec<TileType> = Vec::new();
        let mut x: u32 = 0;
        while x < MAP_WIDTH
            invariant
                x <= MAP_WIDTH,
                row@.len() == x,
            decreases MAP_WIDTH - x,
        {
            row.push(TileType::random());
            x = x + 1;
        }
        tiles.push(row);
        y = y + 1;
    }
    tilemap.tiles = tiles;
}

/// A cell of an earlier row sits strictly below the current row's start in
/// the flattened sprite list.
proof fn lemma_grid_index_bound(j: int, i: int, y: int, width: int)
    requires
        0 <= j < y,
        0 <= i < width,
    ensures
        0 <= j * width + i < y * width,
{
    assert(0 <= j * width + i < y * width) by (nonlinear_arith)
        requires
            0 <= j < y,
            0 <= i < width,
    ;
}

/// One spawned world-tile sprite: its isometric screen translation in
/// milli-units and the atlas frame it shows.
#[derive(Clone, Copy, PartialEq, Eq, Structural, Debug)]
pub struct Tile {
    pub x: i64,
    pub y: i64,
    pub z: i64,
    pub atlas_index: usize,
}

/// The isometric screen translation of grid cell `(x, y)`, in milli-units:
/// `((x - y) * w/2, -(x + y) * h/2)` for a tile of width `w` and height
/// `h`.
pub open spec fn spec_tile_translation(x: int, y: int) -> (int, int) {
    ((x - y) * (TILE_SIZE_X_MILLI as int / 2), -(x + y) * (TILE_SIZE_Y_MILLI as int / 2))
}

/// The world tile spawned for grid cell `(x, y)` holding `t`: isometric
/// translation at depth 50, showing `t`'s atlas frame.
pub open spec fn spec_world_tile(x: int, y: int, t: TileType) -> Tile {
    Tile {
        x: spec_tile_translation(x, y).0 as i64,
        y: spec_tile_translation(x, y).1 as i64,
        z: 50_000,
        atlas_index: t.spec_index(),
    }
}

/// Materializes the tile grid as one sprite placement per cell, row by row:
/// cell `(x, y)` lands at index `y * width + x`, isometrically projected
/// and showing the cell's atlas frame.
pub fn spawn_tiles(tilemap: &Tilemap, height: u32, width: u32) -> (r: Vec<Tile>)
    requires
        tilemap.is_grid(height as int, width as int),
        height <= 10_000,
        width <= 10_000,
    ensures
        r@.len() == height * width,
        forall|y: int, x: int|
            0 <= y < height && 0 <= x < width ==> #[trigger] r@[y * width + x] == spec_world_tile(
                x,
                y,
                tilemap.tiles@[y]@[x],
            ),
{
    let mut r: Vec<Tile> = Vec::new();
    let mut y: u32 = 0;
    while y < height
        invariant
            y <= height,
            r@.len() == y * width,
            tilemap.is_grid(height as int, width as int),
            height <= 10_000,
            width <= 10_000,
            forall|j: int, i: int|
                0 <= j < y && 0 <= i < width ==> #[trigger] r@[j * width + i] == spec_world_tile(
                    i,
                    j,
                    tilemap.tiles@[j]@[i],
                ),
        decreases height - y,
    {
        let row: &Vec<TileType> = &tilemap.tiles[y as usize];
        let mut x: u32 = 0;
        proof {
            assert(y * width + width == (y + 1) * width) by (nonlinear_arith);
            assert(y * width <= 10_000 * 10_000) by (nonlinear_arith)
                requires
                    y <= 10_000,
                    width <= 10_000,
            ;
        }
        while x < width
            invariant
                x <= width,
                r@.len() == y * width + x,
                y < height,
                tilemap.is_grid(height as int, width as int),
                row == &tilemap.tiles@[y as int],
                height <= 10_000,
                width <= 10_000,
                0 <= y * width <= 100_000_000,
                forall|j: int, i: int|
                    0 <= j < y && 0 <= i < width ==> #[trigger] r@[j * width + i]
                        == spec_world_tile(i, j, tilemap.tiles@[j]@[i]),
                forall|i: int|
                    0 <= i < x ==> #[trigger] r@[y * width + i] == spec_world_tile(
                        i,
                        y as int,
                        tilemap.tiles@[y as int]@[i],
                    ),
            decreases width - x,
        {
            let t: TileType = row[x as usize];
            let sx: i64 = (x as i64 - y as i64) * (TILE_SIZE_X_MILLI / 2);
            let sy: i64 = -(x as i64 + y as i64) * (TILE_SIZE_Y_MILLI / 2);
            r.push(Tile { x: sx, y: sy, z: 50_000, atlas_index: t.to_index() });
            x = x + 1;
            proof {
                assert forall|j: int, i: int|
                    0 <= j < y && 0 <= i < width implies #[trigger] r@[j * width + i]
                    == spec_world_tile(i, j, tilemap.tiles@[j]@[i]) by {
                    lemma_grid_index_bound(j, i, y as int, width as int);
                }
            }
        }
        y = y + 1;
        proof {
            assert forall|j: int, i: int|
                0 <= j < y && 0 <= i < width implies #[trigger] r@[j * width + i]
                == spec_world_tile(i, j, tilemap.tiles@[j]@[i]) by {
                lemma_grid_index_bound(j, i, y as int, width as int);
                assert((y - 1) * width + i == (y - 1) * width + i);
            }
        }
    }
    r
}

/// One minimap tile sprite: its translation under the minimap container,
/// its uniform scale, and the atlas frame it shows.
#[derive(Clone, Copy, PartialEq, Eq, Structural, Debug)]
pub struct MinimapTile {
    pub x: i64,
    pub y: i64,
    pub z: i64,
    pub scale: i64,
    pub atlas_index: usize,
}

/// The minimap duplicate of grid cell `(x, y)` holding `t`: the isometric
/// translation shrunk by the minimap scale, at the container's plane,
/// shrunk in size by the same scale.
pub open spec fn spec_minimap_tile(x: int, y: int, t: TileType) -> MinimapTile {
    MinimapTile {
        x: (spec_tile_translation(x, y).0 * MINIMAP_SCALE_MILLI / 1000) as i64,
        y: (spec_tile_translation(x, y).1 * MINIMAP_SCALE_MILLI / 1000) as i64,
        z: 0,
        scale: MINIMAP_SCALE_MILLI,
        atlas_index: t.spec_index(),
    }
}

/// The minimap scene: a container for the shrunken tile duplicates and a
/// circular player marker, both starting hidden.
#[derive(Debug)]
pub struct MinimapScene {
    pub parent_x: i64,
    pub parent_y: i64,
    pub parent_z: i64,
    pub parent_visible: bool,
    pub tiles: Vec<MinimapTile>,
    pub marker_x: i64,
    pub marker_y: i64,
    pub marker_z: i64,
    pub marker_radius: i64,
    pub marker_visible: bool,
}

/// Builds the minimap: one shrunken duplicate per tile under a hidden
/// container at the screen anchor (depth 100), and a hidden circular player
/// marker of radius 5 at depth 500.
pub fn spawn_minimap_tiles(tilemap: &Tilemap, height: u32, width: u32) -> (r: MinimapScene)
    requires
        tilemap.is_grid(height as int, width as int),
        height <= 10_000,
        width <= 10_000,
    ensures
        r.parent_x == 0 && r.parent_y == 0 && r.parent_z == 100_000,
        r.parent_visible == false,
        r.marker_x == 0 && r.marker_y == 0 && r.marker_z == 500_000,
        r.marker_radius == 5_000,
        r.marker_visible == false,
        r.tiles@.len() == height * width,
        forall|y: int, x: int|
            0 <= y < height && 0 <= x < width ==> #[trigger] r.tiles@[y * width + x]
                == spec_minimap_tile(x, y, tilemap.tiles@[y]@[x]),
{
    let mut tiles: Vec<MinimapTile> = Vec::new();
    let mut y: u32 = 0;
    while y < height
        invariant
            y <= height,
            tiles@.len() == y * width,
            tilemap.is_grid(height as int, width as int),
            height <= 10_000,
            width <= 10_000,
            forall|j: int, i: int|
                0 <= j < y && 0 <= i < width ==> #[trigger] tiles@[j * width + i]
                    == spec_minimap_tile(i, j, tilemap.tiles@[j]@[i]),
        decreases height - y,
    {
        let row: &Vec<TileType> = &tilemap.tiles[y as usize];
        let mut x: u32 = 0;
        proof {
            assert(y * width + width == (y + 1) * width) by (nonlinear_arith);
            assert(y * width <= 10_000 * 10_000) by (nonlinear_arith)
                requires
                    y <= 10_000,
                    width <= 10_000,
            ;
        }
        while x < width
            invariant
                x <= width,
                tiles@.len() == y * width + x,
                y < height,
                tilemap.is_grid(height as int, width as int),
                row == &tilemap.tiles@[y as int],
                height <= 10_000,
                width <= 10_000,
                0 <= y * width <= 100_000_000,
                forall|j: int, i: int|
                    0 <= j < y && 0 <= i < width ==> #[trigger] tiles@[j * width + i]
                        == spec_minimap_tile(i, j, tilemap.tiles@[j]@[i]),
                forall|i: int|
                    0 <= i < x ==> #[trigger] tiles@[y * width + i] == spec_minimap_tile(
                        i,
                        y as int,
                        tilemap.tiles@[y as int]@[i],
                    ),
            decreases width - x,
        {
            let t: TileType = row[x as usize];
            let sx: i64 = (x as i64 - y as i64) * (TILE_SIZE_X_MILLI / 2);
            let sy: i64 = -(x as i64 + y as i64) * (TILE_SIZE_Y_MILLI / 2);
            let mx: i64 = div_floor(sx * MINIMAP_SCALE_MILLI, 1000);
            let my: i64 = div_floor(sy * MINIMAP_SCALE_MILLI, 1000);
            tiles.push(
                MinimapTile {
                    x: mx,
                    y: my,
                    z: 0,
                    scale: MINIMAP_SCALE_MILLI,
                    atlas_index: t.to_index(),
                },
            );
            x = x + 1;
            proof {
                assert forall|j: int, i: int|
                    0 <= j < y && 0 <= i < width implies #[trigger] tiles@[j * width + i]
                    == spec_minimap_tile(i, j, tilemap.tiles@[j]@[i]) by {
                    lemma_grid_index_bound(j, i, y as int, width as int);
                }
            }
        }
        y = y + 1;
        proof {
            assert forall|j: int, i: int|
                0 <= j < y && 0 <= i < width implies #[trigger] tiles@[j * width + i]
                == spec_minimap_tile(i, j, tilemap.tiles@[j]@[i]) by {
                lemma_grid_index_bound(j, i, y as int, width as int);
            }
        }
    }
    MinimapScene {
        parent_x: 0,
        parent_y: 0,
        parent_z: 100_000,
        parent_visible: false,
        tiles,
        marker_x: 0,
        marker_y: 0,
        marker_z: 500_000,
        marker_radius: 5_000,
        marker_visible: false,
    }
}

/// Whether the minimap is shown; hidden at startup.
#[derive(Clone, Copy, PartialEq, Eq, Structural, Debug)]
pub struct MinimapState {
    pub visible: bool,
}

impl Default for MinimapState {
    /// The minimap starts hidden.
    fn default() -> (r: MinimapState)
        ensures
            r.visible == false,
    {
        MinimapState { visible: false }
    }
}

/// A key press edge: the key is down this frame and was not down the frame
/// before.
pub fn key_just_pressed(was_down: bool, is_down: bool) -> (r: bool)
    ensures
        r == (is_down && !was_down),
{
    is_down && !was_down
}

/// Flips the minimap's visibility exactly when the "M" key was just
/// pressed; a held or released key changes nothing.
pub fn toggle_minimap(state: &mut MinimapState, m_just_pressed: bool)
    ensures
        final(state).visible == (if m_just_pressed {
            !old(state).visible
        } else {
            old(state).visible
        }),
{
    if m_just_pressed {
        state.visible = !state.visible;
    }
}

/// The visibility to apply to the minimap's container and player marker:
/// both always match the minimap state, so the marker is shown exactly when
/// the tiles are.
pub fn update_minimap_visibility(state: &MinimapState) -> (r: (bool, bool))
    ensures
        r.0 == state.visible,
        r.1 == state.visible,
        r.0 == r.1,
{
    (state.visible, state.visible)
}

/// Where a frame puts the minimap content: the container is the screen
/// anchor displaced opposite to the camera (shrunk by the minimap scale),
/// and the marker sits at the screen anchor itself.
pub fn update_minimap_content(camera: &CameraResource, camera_pos: Vec2M) -> (r: (Vec2M, Vec2M))
    requires
        -1_000_000_000 <= camera_pos.x <= 1_000_000_000,
        -1_000_000_000 <= camera_pos.y <= 1_000_000_000,
    ensures
        ({
            let screen_x = -(camera.pixel_w as int) * MINIMAP_SCREEN_PERCENT_X_MILLI;
            let screen_y = (camera.pixel_h as int) * MINIMAP_SCREEN_PERCENT_Y_MILLI;
            &&& r.0.x == screen_x + -camera_pos.x * MINIMAP_SCALE_MILLI / 1000
            &&& r.0.y == screen_y + -camera_pos.y * MINIMAP_SCALE_MILLI / 1000
            &&& r.1.x == screen_x && r.1.y == screen_y
        }),
{
    let screen_x: i64 = -(camera.pixel_w as i64) * MINIMAP_SCREEN_PERCENT_X_MILLI;
    let screen_y: i64 = (camera.pixel_h as i64) * MINIMAP_SCREEN_PERCENT_Y_MILLI;
    let off_x: i64 = div_floor(-camera_pos.x * MINIMAP_SCALE_MILLI, 1000);
    let off_y: i64 = div_floor(-camera_pos.y * MINIMAP_SCALE_MILLI, 1000);
    (Vec2M { x: screen_x + off_x, y: screen_y + off_y }, Vec2M { x: screen_x, y: screen_y })
}

} // verus!
