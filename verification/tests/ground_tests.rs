use ant_colony::ground::{ground_tiles, tile_variant};

#[test]
fn tile_variant_is_remainder() {
    assert_eq!(tile_variant(0), 0);
    assert_eq!(tile_variant(7), 3);
    assert_eq!(tile_variant(8), 0);
    assert_eq!(tile_variant(usize::MAX), 3);
}

#[test]
fn ground_layout() {
    let tiles = ground_tiles();
    assert_eq!(tiles.len(), 10000);
    assert_eq!((tiles[0].x, tiles[0].y), (-1250, -1250));
    assert_eq!((tiles[1].x, tiles[1].y), (-1250, -1225));
    assert_eq!((tiles[99].x, tiles[99].y), (-1250, 1225));
    assert_eq!((tiles[100].x, tiles[100].y), (-1225, -1250));
    assert_eq!((tiles[5050].x, tiles[5050].y), (0, 0));
    assert_eq!((tiles[9999].x, tiles[9999].y), (1225, 1225));
    assert!(tiles.iter().all(|t| t.atlas_index < 4));
}
