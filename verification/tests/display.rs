use map_viewer::camera::CameraConfig;
use map_viewer::display::camera_pos_to_chunk_pos;
use map_viewer::display::chunk_pos_to_world_pos;
use map_viewer::display::chunk_position;
use map_viewer::display::is_narrower_than;
use map_viewer::display::is_out_of_range;
use map_viewer::display::is_wider_than;
use map_viewer::display::scale_parts;
use map_viewer::display::scale_value;

#[test]
fn camera_config_switches_everything_on_by_default() {
    let config = CameraConfig::default();
    assert!(config.enable_camera);
    assert!(config.enable_pancam);
}

#[test]
fn scale_parts_of_exponents() {
    assert_eq!(scale_parts(0), (1, 1));
    assert_eq!(scale_parts(1), (2, 1));
    assert_eq!(scale_parts(-1), (1, 2));
    assert_eq!(scale_parts(17), (131072, 1));
    assert_eq!(scale_parts(-17), (1, 131072));
}

#[test]
fn scaled_values_round_down() {
    assert_eq!(scale_value(765, 0), 765);
    assert_eq!(scale_value(765, 3), 6120);
    assert_eq!(scale_value(765, -1), 382);
    assert_eq!(scale_value(-765, -1), -383);
    assert_eq!(scale_value(-766, -1), -383);
    assert_eq!(scale_value(-1, -17), -1);
    assert_eq!(scale_value(1, -17), 0);
    assert_eq!(scale_value(0, -5), 0);
    assert_eq!(scale_value(i64::MAX as i128, 17), (i64::MAX as i128) << 17);
    assert_eq!(scale_value(i64::MIN as i128, 17), (i64::MIN as i128) << 17);
    assert_eq!(scale_value(i64::MIN as i128, -17), (i64::MIN as i128) >> 17);
    assert_eq!(scale_value(1 << 100, 17), 1 << 117);
    assert_eq!(scale_value(-(1 << 100), -17), -(1 << 83));
}

#[test]
fn chunk_positions() {
    assert_eq!(chunk_position((3, -2), 256, 0, (10, -20)), (758, -492));
    assert_eq!(chunk_position((3, -2), 256, 1, (10, -20)), (1526, -1004));
    assert_eq!(chunk_position((3, -2), 256, -1, (10, -20)), (374, -236));
    assert_eq!(chunk_position((3, -3), 255, -1, (0, 0)), (382, -383));
    assert_eq!(chunk_position((0, 0), 256, 5, (0, 0)), (0, 0));
    assert_eq!(
        chunk_position((i32::MAX, i32::MIN), u32::MAX, 17, (i64::MIN, i64::MAX)),
        (
            ((i32::MAX as i128 * u32::MAX as i128) << 17) - i64::MIN as i128,
            ((i32::MIN as i128 * u32::MAX as i128) << 17) - i64::MAX as i128
        )
    );
}

#[test]
fn viewport_width_band() {
    // 256 units a tile at scale one: 7 tiles are 1792 units, 3 tiles are 768.
    assert!(!is_wider_than(1792, 7, 256, 0));
    assert!(is_wider_than(1793, 7, 256, 0));
    assert!(!is_narrower_than(768, 3, 256, 0));
    assert!(is_narrower_than(767, 3, 256, 0));
    // At twice the scale a tile is 512 units wide.
    assert!(!is_wider_than(3584, 7, 256, 1));
    assert!(is_wider_than(3585, 7, 256, 1));
    assert!(is_narrower_than(1535, 3, 256, 1));
    // At half the scale a tile is 128 units wide.
    assert!(!is_wider_than(896, 7, 256, -1));
    assert!(is_wider_than(897, 7, 256, -1));
    assert!(is_narrower_than(383, 3, 256, -1));
    assert!(!is_narrower_than(384, 3, 256, -1));
    // A tile of 255 units at a quarter of the scale is 63.75 units wide.
    assert!(!is_wider_than(446, 7, 255, -2));
    assert!(is_wider_than(447, 7, 255, -2));
    assert!(is_wider_than(u64::MAX, 7, u32::MAX, 17));
    assert!(!is_narrower_than(u64::MAX, 3, u32::MAX, -17));
}

#[test]
fn retention_radius() {
    // Ten tiles of 256 units at scale one: 2560 units.
    assert!(!is_out_of_range((2560, 0), (0, 0), 256, 0));
    assert!(is_out_of_range((2561, 0), (0, 0), 256, 0));
    assert!(!is_out_of_range((0, -2560), (0, 0), 256, 0));
    assert!(is_out_of_range((0, -2561), (0, 0), 256, 0));
    assert!(!is_out_of_range((1810, 1810), (0, 0), 256, 0));
    assert!(is_out_of_range((1811, 1811), (0, 0), 256, 0));
    assert!(!is_out_of_range((1536, 2048), (0, 0), 256, 0));
    assert!(is_out_of_range((1536, 2049), (0, 0), 256, 0));
    assert!(!is_out_of_range((3560, -1000), (1000, -1000), 256, 0));
    assert!(is_out_of_range((3561, -1000), (1000, -1000), 256, 0));
    // At twice the scale the radius is 5120 units, at half the scale 1280.
    assert!(!is_out_of_range((5120, 0), (0, 0), 256, 1));
    assert!(is_out_of_range((5121, 0), (0, 0), 256, 1));
    assert!(!is_out_of_range((1280, 0), (0, 0), 256, -1));
    assert!(is_out_of_range((1281, 0), (0, 0), 256, -1));
    // Ten tiles of 255 units at a quarter of the scale: 637.5 units.
    assert!(!is_out_of_range((637, 0), (0, 0), 255, -2));
    assert!(is_out_of_range((638, 0), (0, 0), 255, -2));
    assert!(is_out_of_range((i64::MAX as i128, 0), (i64::MIN, 0), 256, 17));
    assert!(!is_out_of_range((5, 5), (5, 5), 0, 0));
    assert!(is_out_of_range((5, 6), (5, 5), 0, 0));
}

#[test]
fn cell_of_a_point_rounds_down() {
    assert_eq!(camera_pos_to_chunk_pos((0, 0), 256), (0, 0));
    assert_eq!(camera_pos_to_chunk_pos((255, 256), 256), (0, 1));
    assert_eq!(camera_pos_to_chunk_pos((-1, -256), 256), (-1, -1));
    assert_eq!(camera_pos_to_chunk_pos((-257, 1023), 256), (-2, 3));
    assert_eq!(camera_pos_to_chunk_pos((i64::MAX, i64::MIN), 1), (i32::MAX, i32::MIN));
    assert_eq!(camera_pos_to_chunk_pos((i64::MAX, i64::MIN), u32::MAX), (i32::MAX, i32::MIN));
}

#[test]
fn corner_of_a_cell() {
    assert_eq!(chunk_pos_to_world_pos((3, -2), 256), (768, -512));
    assert_eq!(chunk_pos_to_world_pos((0, 0), 256), (0, 0));
    assert_eq!(
        chunk_pos_to_world_pos((i32::MIN, i32::MAX), u32::MAX),
        (i32::MIN as i64 * u32::MAX as i64, i32::MAX as i64 * u32::MAX as i64)
    );
}
