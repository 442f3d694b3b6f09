use lira::tile_generation::MAP_HEIGHT;
use lira::tile_generation::MAP_WIDTH;
use lira::tile_generation::generate_tilemap;
use lira::tile_generation::get_neighbors;
use lira::tilemap::TileType;
use noise::NoiseFn;
use noise::Perlin;

/// Samples the coherent-noise ridge field the way the game shell does:
/// two noise layers per cell, offset by 5, their difference in
/// milli-units.
fn sample_ridge(seed: u32) -> Vec<Vec<i64>> {
    let perlin = Perlin::new(seed);
    (0..MAP_HEIGHT)
        .map(|y| {
            (0..MAP_WIDTH)
                .map(|x| {
                    let nx = x as f64 / 100.0;
                    let ny = y as f64 / 100.0;
                    let noise1 = perlin.get([nx, ny]);
                    let noise2 = perlin.get([nx + 5.0, ny + 5.0]);
                    ((noise1 - noise2) * 1000.0) as i64
                })
                .collect()
        })
        .collect()
}

#[test]
fn noise_map_has_full_dimensions() {
    let grid = generate_tilemap(&sample_ridge(7));
    assert_eq!(grid.len(), MAP_HEIGHT as usize);
    for row in &grid {
        assert_eq!(row.len(), MAP_WIDTH as usize);
    }
}

#[test]
fn noise_map_is_water_or_grass_only() {
    let grid = generate_tilemap(&sample_ridge(42));
    for row in &grid {
        for t in row {
            assert!(*t == TileType::Water || *t == TileType::Grass);
        }
    }
}

#[test]
fn same_seed_generates_identical_grids() {
    let grid1 = generate_tilemap(&sample_ridge(12345));
    let grid2 = generate_tilemap(&sample_ridge(12345));
    assert_eq!(grid1, grid2);
}

#[test]
fn different_seed_keeps_dimensions() {
    let grid1 = generate_tilemap(&sample_ridge(1));
    let grid2 = generate_tilemap(&sample_ridge(2));
    assert_eq!(grid1.len(), grid2.len());
    assert_eq!(grid1[0].len(), grid2[0].len());
    // Different seeds are all but certain to disagree somewhere.
    assert_ne!(grid1, grid2);
}

#[test]
fn ridge_values_inside_the_band_become_water() {
    let mut ridge: Vec<Vec<i64>> = (0..MAP_HEIGHT)
        .map(|_| (0..MAP_WIDTH).map(|_| 500).collect())
        .collect();
    ridge[3][4] = 0;
    ridge[3][5] = 69;
    ridge[3][6] = -69;
    ridge[3][7] = 70;
    ridge[3][8] = -70;
    let grid = generate_tilemap(&ridge);
    assert_eq!(grid[3][4], TileType::Water);
    assert_eq!(grid[3][5], TileType::Water);
    assert_eq!(grid[3][6], TileType::Water);
    assert_eq!(grid[3][7], TileType::Grass);
    assert_eq!(grid[3][8], TileType::Grass);
    assert_eq!(grid[0][0], TileType::Grass);
}

#[test]
fn neighbors_in_the_interior_are_eight() {
    let map: Vec<Vec<TileType>> = (0..MAP_HEIGHT)
        .map(|y| {
            (0..MAP_WIDTH)
                .map(|x| if (x + y) % 2 == 0 { TileType::Grass } else { TileType::Water })
                .collect()
        })
        .collect();
    let n = get_neighbors(10, 10, &map);
    assert_eq!(n.len(), 8);
    // (9, 9), (10, 9), (11, 9), (9, 10), (11, 10), (9, 11), (10, 11), (11, 11)
    assert_eq!(
        n,
        vec![
            TileType::Grass,
            TileType::Water,
            TileType::Grass,
            TileType::Water,
            TileType::Water,
            TileType::Grass,
            TileType::Water,
            TileType::Grass,
        ]
    );
}

#[test]
fn neighbors_at_the_corner_are_three() {
    let map: Vec<Vec<TileType>> = (0..MAP_HEIGHT)
        .map(|_| (0..MAP_WIDTH).map(|_| TileType::Grass).collect())
        .collect();
    let n = get_neighbors(0, 0, &map);
    assert_eq!(n.len(), 3);
    let e = get_neighbors((MAP_WIDTH - 1) as i32, (MAP_HEIGHT - 1) as i32, &map);
    assert_eq!(e.len(), 3);
    let edge = get_neighbors(0, 10, &map);
    assert_eq!(edge.len(), 5);
}
