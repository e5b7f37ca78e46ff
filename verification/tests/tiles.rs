use map_viewer::tile::power_of_two;
use map_viewer::tile::DistanceType;
use map_viewer::tile::Tile;
use map_viewer::tile::WorldPoint;

/// The place of a latitude and longitude in the world square, by the
/// spherical Mercator formulas.
fn world_point(lat: f64, long: f64) -> WorldPoint {
    let fx = (long + 180.0) / 360.0;
    let phi = lat.to_radians();
    let fy = (1.0 - (phi.tan() + 1.0 / phi.cos()).ln() / std::f64::consts::PI) / 2.0;
    WorldPoint { x: (fx * 4294967296.0) as u32, y: (fy * 4294967296.0) as u32 }
}

#[test]
fn tile_new_keeps_its_arguments() {
    let tile = Tile::new(3, 5, 4);
    assert_eq!(tile.x, 3);
    assert_eq!(tile.y, 5);
    assert_eq!(tile.zoom, 4);
}

#[test]
fn power_of_two_values() {
    assert_eq!(power_of_two(0), 1);
    assert_eq!(power_of_two(1), 2);
    assert_eq!(power_of_two(14), 16384);
    assert_eq!(power_of_two(62), 1u64 << 62);
}

#[test]
fn world_centre_lies_in_the_south_east_tile_of_zoom_one() {
    let centre = WorldPoint { x: 0x8000_0000, y: 0x8000_0000 };
    assert_eq!(centre.to_tile_coords(1), Tile::new(1, 1, 1));
    assert_eq!(centre.to_tile_coords(0), Tile::new(0, 0, 0));
}

#[test]
fn cambridge_tile_indices() {
    let p = world_point(52.1951, 0.1313);
    assert_eq!(p.to_tile_coords(14), Tile::new(8197, 5397, 14));
    assert_eq!(p.to_tile_coords(15), Tile::new(16395, 10794, 15));
    assert_eq!(p.to_tile_coords(3), Tile::new(4, 2, 3));
    assert_eq!(p.to_tile_coords(20), Tile::new(524670, 345435, 20));
}

#[test]
fn corners_of_the_world() {
    let north_west = WorldPoint { x: 0, y: 0 };
    let south_east = WorldPoint { x: u32::MAX, y: u32::MAX };
    assert_eq!(north_west.to_tile_coords(30), Tile::new(0, 0, 30));
    assert_eq!(south_east.to_tile_coords(30), Tile::new((1 << 30) - 1, (1 << 30) - 1, 30));
    assert_eq!(south_east.to_tile_coords(0), Tile::new(0, 0, 0));
}

#[test]
fn zooming_in_doubles_the_range_and_stays_in_the_block() {
    let points = [
        world_point(52.1951, 0.1313),
        world_point(-33.8688, 151.2093),
        world_point(84.9, -179.9),
        world_point(-84.9, 179.9),
        WorldPoint { x: 0, y: 0 },
        WorldPoint { x: u32::MAX, y: u32::MAX },
    ];
    for p in points {
        for zoom in 0..30u32 {
            assert_eq!(power_of_two(zoom + 1), 2 * power_of_two(zoom));
            let coarse = p.to_tile_coords(zoom);
            let fine = p.to_tile_coords(zoom + 1);
            assert!(fine.x == 2 * coarse.x || fine.x == 2 * coarse.x + 1);
            assert!(fine.y == 2 * coarse.y || fine.y == 2 * coarse.y + 1);
            assert!(fine.is_valid());
        }
    }
}

#[test]
fn zoom_walk_from_coarsest_to_finest_level() {
    let p = world_point(52.1951, 0.1313);
    let mut tile = p.to_tile_coords(3);
    for zoom in 4..=20u32 {
        let next = p.to_tile_coords(zoom);
        assert_eq!(next.x / 2, tile.x);
        assert_eq!(next.y / 2, tile.y);
        tile = next;
    }
    assert_eq!(tile, Tile::new(524670, 345435, 20));
}

#[test]
fn validity_of_tile_indices() {
    assert!(Tile::new(0, 0, 0).is_valid());
    assert!(!Tile::new(1, 0, 0).is_valid());
    assert!(Tile::new(7, 7, 3).is_valid());
    assert!(!Tile::new(8, 7, 3).is_valid());
    assert!(!Tile::new(7, 8, 3).is_valid());
    assert!(!Tile::new(-1, 0, 3).is_valid());
    assert!(!Tile::new(0, -1, 3).is_valid());
    assert!(Tile::new((1 << 30) - 1, 0, 30).is_valid());
    assert!(!Tile::new(0, 0, 31).is_valid());
}

#[test]
fn corner_of_a_tile_lies_in_the_tile() {
    let tile = Tile::new(8197, 5397, 14);
    let corner = tile.to_world_point();
    assert_eq!(corner, WorldPoint { x: 8197 << 18, y: 5397 << 18 });
    assert_eq!(corner.to_tile_coords(14), tile);
    let origin = Tile::new(0, 0, 0).to_world_point();
    assert_eq!(origin, WorldPoint { x: 0, y: 0 });
    let last = Tile::new((1 << 30) - 1, (1 << 30) - 1, 30);
    assert_eq!(last.to_world_point().to_tile_coords(30), last);
}

#[test]
fn distance_units_print_their_names() {
    assert_eq!(format!("{:?}", DistanceType::Km), "Km");
    assert_eq!(format!("{:?}", DistanceType::M), "M");
    assert_eq!(format!("{:?}", DistanceType::CM), "CM");
}

#[test]
fn tiles_of_chunk_cells() {
    let reference = world_point(52.1951, 0.1313);
    assert_eq!(reference.tile_of_cell((0, 0), 14), Some(Tile::new(8197, 5397, 14)));
    assert_eq!(reference.tile_of_cell((1, 0), 14), Some(Tile::new(8198, 5397, 14)));
    assert_eq!(reference.tile_of_cell((0, 1), 14), Some(Tile::new(8197, 5396, 14)));
    assert_eq!(reference.tile_of_cell((-4, -4), 14), Some(Tile::new(8193, 5401, 14)));
    assert_eq!(reference.tile_of_cell((4, 4), 14), Some(Tile::new(8201, 5393, 14)));
    // Eastwards and westwards the columns wrap around the world.
    assert_eq!(reference.tile_of_cell((-8197, 0), 14), Some(Tile::new(0, 5397, 14)));
    assert_eq!(reference.tile_of_cell((-8198, 0), 14), Some(Tile::new(16383, 5397, 14)));
    assert_eq!(reference.tile_of_cell((8186, 0), 14), Some(Tile::new(16383, 5397, 14)));
    assert_eq!(reference.tile_of_cell((8187, 0), 14), Some(Tile::new(0, 5397, 14)));
    assert_eq!(reference.tile_of_cell((i32::MAX, 0), 14), Some(Tile::new(8196, 5397, 14)));
    assert_eq!(reference.tile_of_cell((i32::MIN, 0), 14), Some(Tile::new(8197, 5397, 14)));
    // Northwards and southwards the world ends.
    assert_eq!(reference.tile_of_cell((0, 5397), 14), Some(Tile::new(8197, 0, 14)));
    assert_eq!(reference.tile_of_cell((0, 5398), 14), None);
    assert_eq!(reference.tile_of_cell((0, -10986), 14), Some(Tile::new(8197, 16383, 14)));
    assert_eq!(reference.tile_of_cell((0, -10987), 14), None);
    assert_eq!(reference.tile_of_cell((0, i32::MIN), 14), None);
    assert_eq!(reference.tile_of_cell((0, i32::MAX), 14), None);
    // At zoom level 0 the world is one tile.
    assert_eq!(reference.tile_of_cell((12345, 0), 0), Some(Tile::new(0, 0, 0)));
    assert_eq!(reference.tile_of_cell((0, 1), 0), None);
    let corner = WorldPoint { x: u32::MAX, y: u32::MAX };
    assert_eq!(corner.tile_of_cell((1, 0), 30), Some(Tile::new(0, (1 << 30) - 1, 30)));
    assert_eq!(corner.tile_of_cell((0, (1 << 30) - 1), 30), Some(Tile::new((1 << 30) - 1, 0, 30)));
    assert_eq!(corner.tile_of_cell((0, 1 << 30), 30), None);
    assert_eq!(corner.tile_of_cell((0, i32::MAX), 30), None);
}

#[test]
fn cells_of_a_scan_have_tiles_of_their_own() {
    let reference = world_point(52.1951, 0.1313);
    let mut tiles = std::collections::HashSet::new();
    for y in -4..=4 {
        for x in -4..=4 {
            let tile = reference.tile_of_cell((5 + x, 2794 + y), 14).unwrap();
            assert!(tile.is_valid());
            assert!(tiles.insert((tile.x, tile.y)));
        }
    }
    assert_eq!(tiles.len(), 81);
}

#[test]
fn centre_of_a_tile() {
    let tile = Tile::new(8197, 5397, 14);
    let centre = tile.to_world_center();
    assert_eq!(centre, WorldPoint { x: (8197 << 18) + (1 << 17), y: (5397 << 18) + (1 << 17) });
    assert_eq!(centre.to_tile_coords(14), tile);
    assert_eq!(Tile::new(0, 0, 0).to_world_center(), WorldPoint { x: 1 << 31, y: 1 << 31 });
    let last = Tile::new((1 << 30) - 1, (1 << 30) - 1, 30);
    assert_eq!(last.to_world_center(), WorldPoint { x: u32::MAX - 1, y: u32::MAX - 1 });
    assert_eq!(last.to_world_center().to_tile_coords(30), last);
    for zoom in 0..=30u32 {
        let tile = world_point(52.1951, 0.1313).to_tile_coords(zoom);
        assert_eq!(tile.to_world_center().to_tile_coords(zoom), tile);
        assert_eq!(tile.to_world_point().to_tile_coords(zoom), tile);
    }
}
