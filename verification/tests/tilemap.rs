use lira::camera::CameraResource;
use lira::tilemap::MinimapState;
use lira::tilemap::TileType;
use lira::tilemap::Tilemap;
use lira::tilemap::key_just_pressed;
use lira::tilemap::setup_tilemap;
use lira::tilemap::spawn_minimap_tiles;
use lira::tilemap::spawn_tiles;
use lira::tilemap::toggle_minimap;
use lira::tilemap::update_minimap_content;
use lira::tilemap::update_minimap_visibility;
use lira::units::Vec2M;

#[test]
fn tile_types_map_to_atlas_indices() {
    assert_eq!(TileType::Stone.to_index(), 0);
    assert_eq!(TileType::Grass.to_index(), 1);
    assert_eq!(TileType::Water.to_index(), 2);
    assert_eq!(TileType::Dirt.to_index(), 3);
}

#[test]
fn rolls_map_to_tile_types() {
    assert_eq!(TileType::from_roll(0), TileType::Stone);
    assert_eq!(TileType::from_roll(1), TileType::Grass);
    assert_eq!(TileType::from_roll(2), TileType::Water);
    assert_eq!(TileType::from_roll(3), TileType::Dirt);
}

#[test]
fn uniform_map_has_full_dimensions() {
    let mut map = Tilemap::default();
    assert_eq!(map.tiles.len(), 0);
    setup_tilemap(&mut map);
    assert_eq!(map.tiles.len(), 30);
    for row in &map.tiles {
        assert_eq!(row.len(), 50);
    }
}

#[test]
fn uniform_map_cells_are_terrain() {
    // Every cell is one of the four terrains (the enum guarantees it);
    // over 1500 independent draws all four are all but certain to occur.
    let mut map = Tilemap::default();
    setup_tilemap(&mut map);
    let mut seen = [false; 4];
    for row in &map.tiles {
        for t in row {
            seen[t.to_index()] = true;
        }
    }
    assert!(seen.iter().all(|s| *s));
}

#[test]
fn world_tiles_are_isometrically_projected() {
    let map = Tilemap {
        tiles: vec![
            vec![TileType::Stone, TileType::Grass],
            vec![TileType::Water, TileType::Dirt],
        ],
    };
    let tiles = spawn_tiles(&map, 2, 2);
    assert_eq!(tiles.len(), 4);
    // Cell (0, 0): the origin.
    assert_eq!((tiles[0].x, tiles[0].y, tiles[0].z), (0, 0, 50_000));
    assert_eq!(tiles[0].atlas_index, 0);
    // Cell (x=1, y=0): ((1-0)*8, -(1+0)*4) units.
    assert_eq!((tiles[1].x, tiles[1].y), (8_000, -4_000));
    assert_eq!(tiles[1].atlas_index, 1);
    // Cell (x=0, y=1): ((0-1)*8, -(0+1)*4) units.
    assert_eq!((tiles[2].x, tiles[2].y), (-8_000, -4_000));
    assert_eq!(tiles[2].atlas_index, 2);
    // Cell (x=1, y=1): ((1-1)*8, -(1+1)*4) units.
    assert_eq!((tiles[3].x, tiles[3].y), (0, -8_000));
    assert_eq!(tiles[3].atlas_index, 3);
}

#[test]
fn minimap_scene_shrinks_tiles_and_starts_hidden() {
    let map = Tilemap {
        tiles: vec![vec![TileType::Grass, TileType::Water]],
    };
    let scene = spawn_minimap_tiles(&map, 1, 2);
    assert_eq!((scene.parent_x, scene.parent_y, scene.parent_z), (0, 0, 100_000));
    assert!(!scene.parent_visible);
    assert_eq!((scene.marker_x, scene.marker_y, scene.marker_z), (0, 0, 500_000));
    assert_eq!(scene.marker_radius, 5_000);
    assert!(!scene.marker_visible);
    assert_eq!(scene.tiles.len(), 2);
    // Cell (x=1, y=0) sits at (8, -4) units, shrunk by 0.3 to (2.4, -1.2).
    assert_eq!((scene.tiles[1].x, scene.tiles[1].y), (2_400, -1_200));
    assert_eq!(scene.tiles[1].scale, 300);
    assert_eq!(scene.tiles[1].atlas_index, 2);
}

#[test]
fn minimap_starts_hidden() {
    let s = MinimapState::default();
    assert!(!s.visible);
}

#[test]
fn key_press_toggles_exactly_once() {
    let mut s = MinimapState::default();
    toggle_minimap(&mut s, true);
    assert!(s.visible);
    toggle_minimap(&mut s, false);
    assert!(s.visible);
    toggle_minimap(&mut s, true);
    assert!(!s.visible);
}

#[test]
fn edge_detection_fires_on_press_only() {
    assert!(key_just_pressed(false, true));
    assert!(!key_just_pressed(true, true));
    assert!(!key_just_pressed(true, false));
    assert!(!key_just_pressed(false, false));
}

#[test]
fn marker_visibility_matches_container() {
    let hidden = MinimapState { visible: false };
    assert_eq!(update_minimap_visibility(&hidden), (false, false));
    let shown = MinimapState { visible: true };
    assert_eq!(update_minimap_visibility(&shown), (true, true));
}

#[test]
fn minimap_content_pans_opposite_to_camera() {
    let camera = CameraResource {
        pixel_camera: 1,
        outer_camera: 2,
        canvas: 3,
        canvas_image: 4,
        pixel_size: 2_500,
        followed_entity: None,
        pixel_w: 512,
        pixel_h: 288,
    };
    let (parent, marker) = update_minimap_content(&camera, Vec2M { x: 10_000, y: -20_000 });
    // The screen anchor is at zero percent of the screen, so the container
    // is just the camera position negated and shrunk by 0.3.
    assert_eq!(parent, Vec2M { x: -3_000, y: 6_000 });
    assert_eq!(marker, Vec2M { x: 0, y: 0 });
}
