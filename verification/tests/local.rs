use map_viewer::display::floor_div;
use map_viewer::local::local_to_world;
use map_viewer::local::tile_index_to_local;
use map_viewer::local::world_to_local;
use map_viewer::tile::Tile;
use map_viewer::tile::WorldPoint;

const CENTRE: WorldPoint = WorldPoint { x: 0x8000_0000, y: 0x8000_0000 };

#[test]
fn floor_division() {
    assert_eq!(floor_div(7, 2), 3);
    assert_eq!(floor_div(-7, 2), -4);
    assert_eq!(floor_div(-8, 2), -4);
    assert_eq!(floor_div(0, 5), 0);
    assert_eq!(floor_div(-1, 1 << 40), -1);
    assert_eq!(floor_div(1 << 100, 1 << 40), 1 << 60);
    assert_eq!(floor_div(-(1 << 100), u64::MAX), -(1 << 36) - 1);
}

#[test]
fn world_points_on_the_display() {
    // At zoom 14 a tile is 2^18 world units and 256 display units wide:
    // one display unit is 1024 world units.
    let east = WorldPoint { x: CENTRE.x + 1024 * 10, y: CENTRE.y };
    assert_eq!(world_to_local(east, CENTRE, (0, 0), 14, 256), (10, 0));
    let north = WorldPoint { x: CENTRE.x, y: CENTRE.y - 1024 * 3 };
    assert_eq!(world_to_local(north, CENTRE, (0, 0), 14, 256), (0, 3));
    let south_west = WorldPoint { x: CENTRE.x - 1, y: CENTRE.y + 1 };
    assert_eq!(world_to_local(south_west, CENTRE, (0, 0), 14, 256), (-1, -1));
    assert_eq!(world_to_local(south_west, CENTRE, (5, -7), 14, 256), (-6, 6));
    assert_eq!(world_to_local(CENTRE, CENTRE, (0, 0), 14, 256), (0, 0));
    assert_eq!(world_to_local(east, CENTRE, (0, 0), 15, 256), (20, 0));
    assert_eq!(world_to_local(east, CENTRE, (0, 0), 13, 256), (5, 0));
    assert_eq!(world_to_local(east, CENTRE, (0, 0), 14, 512), (20, 0));
    let corner = WorldPoint { x: u32::MAX, y: 0 };
    let origin = WorldPoint { x: 0, y: u32::MAX };
    assert_eq!(
        world_to_local(corner, origin, (0, 0), 30, u32::MAX),
        ((u32::MAX as i128 * u32::MAX as i128) >> 2, (u32::MAX as i128 * u32::MAX as i128) >> 2)
    );
    assert_eq!(
        world_to_local(origin, corner, (i64::MIN, i64::MAX), 0, 1),
        (-1 - i64::MIN as i128, -1 - i64::MAX as i128)
    );
}

#[test]
fn display_points_in_the_world() {
    assert_eq!(
        local_to_world((10, 3), CENTRE, (0, 0), 14, 256),
        Some(WorldPoint { x: CENTRE.x + 10240, y: CENTRE.y - 3072 })
    );
    assert_eq!(
        local_to_world((-6, 6), CENTRE, (5, -7), 14, 256),
        Some(WorldPoint { x: CENTRE.x - 1024, y: CENTRE.y + 1024 })
    );
    // A tile of 255 display units: a display unit is 1028 and 4/255 world
    // units, rounded up where a point is put into the world.
    assert_eq!(
        local_to_world((1, -1), CENTRE, (0, 0), 14, 255),
        Some(WorldPoint { x: CENTRE.x + 1029, y: CENTRE.y + 1028 })
    );
    // The east wraps around; the north and the south end.
    assert_eq!(
        local_to_world((1 << 21, 0), CENTRE, (0, 0), 14, 256),
        Some(WorldPoint { x: 0, y: CENTRE.y })
    );
    assert_eq!(
        local_to_world((-(1 << 21) - 1, 0), CENTRE, (0, 0), 14, 256),
        Some(WorldPoint { x: u32::MAX - 1023, y: CENTRE.y })
    );
    assert_eq!(
        local_to_world((0, 1 << 21), CENTRE, (0, 0), 14, 256),
        Some(WorldPoint { x: CENTRE.x, y: 0 })
    );
    assert_eq!(local_to_world((0, (1 << 21) + 1), CENTRE, (0, 0), 14, 256), None);
    assert_eq!(
        local_to_world((0, -(1 << 21) + 1), CENTRE, (0, 0), 14, 256),
        Some(WorldPoint { x: CENTRE.x, y: u32::MAX - 1023 })
    );
    assert_eq!(local_to_world((0, -(1 << 21)), CENTRE, (0, 0), 14, 256), None);
    assert_eq!(
        local_to_world((i64::MAX as i128, i64::MAX as i128), CENTRE, (i64::MAX, i64::MAX), 0, 1),
        None
    );
    assert_eq!(
        local_to_world((i64::MIN as i128, 0), CENTRE, (i64::MIN, 0), 0, 1),
        Some(WorldPoint { x: CENTRE.x, y: CENTRE.y })
    );
    assert_eq!(local_to_world((1 << 90, -(1 << 90)), CENTRE, (0, 0), 0, 1), None);
    assert_eq!(
        local_to_world((-(1 << 90), 0), CENTRE, (0, 0), 30, u32::MAX),
        Some(WorldPoint { x: 1879048192, y: CENTRE.y })
    );
}

#[test]
fn round_trips_between_world_and_display() {
    let reference = WorldPoint { x: 2149050118, y: 1414903550 };
    for zoom in [3u32, 9, 14, 20] {
        for quality in [1u32, 255, 256, 512, 4096] {
            let span = 1i128 << (32 - zoom);
            for local in [(0i128, 0i128), (1, -1), (-700, 12345), (99_999, -3), (-1, 1)] {
                let displacement = (37, -41);
                // Without wrapping around the world in the east, the way to
                // the world and back is exact.
                let east = (local.0 + displacement.0 as i128) * span;
                let place = reference.x as i128 + (east + quality as i128 - 1).div_euclid(quality as i128);
                let wraps = place < 0 || place >= 1 << 32;
                if let Some(point) = local_to_world(local, reference, displacement, zoom, quality) {
                    assert_eq!(point.x as i128, place.rem_euclid(1 << 32));
                    if !wraps {
                        let seen = world_to_local(point, reference, displacement, zoom, quality);
                        assert_eq!(seen, local);
                    }
                }
            }
            for offset in [(0i64, 0i64), (1, 1), (-1234567, 7654321), (1 << 29, -(1 << 28))] {
                let point = WorldPoint {
                    x: (reference.x as i64 + offset.0) as u32,
                    y: (reference.y as i64 + offset.1) as u32,
                };
                let seen = world_to_local(point, reference, (0, 0), zoom, quality);
                let back = local_to_world(seen, reference, (0, 0), zoom, quality).unwrap();
                let west = point.x as i128 - back.x as i128;
                let south = back.y as i128 - point.y as i128;
                assert!(0 <= west && west * (quality as i128) < span);
                assert!(0 <= south && south * (quality as i128) < span);
            }
        }
    }
}

#[test]
fn centre_of_a_tile_on_the_display() {
    let tile = Tile::new(8197, 5397, 14);
    let reference = tile.to_world_point();
    // Half a tile east and south of its corner.
    assert_eq!(tile_index_to_local(tile, reference, (0, 0), 256), (128, -128));
    assert_eq!(tile_index_to_local(tile, reference, (28, -28), 256), (100, -100));
    assert_eq!(tile_index_to_local(Tile::new(8198, 5396, 14), reference, (0, 0), 256), (384, 128));
    assert_eq!(tile_index_to_local(Tile::new(0, 0, 0), WorldPoint { x: 0, y: 0 }, (0, 0), 255), (127, -128));
}
