use map_viewer::source::TileRequestClient;
use map_viewer::source::TileType;
use map_viewer::text::contains;
use map_viewer::text::push_decimal;

const OSM: &str = "https://tile.openstreetmap.org";
const GOOGLE_HYBRID: &str = "https://mt1.google.com/vt/lyrs=y";
const GOOGLE_MAP: &str = "https://mt1.google.com/vt/lyrs=m";
const GOOGLE_SATELLITE: &str = "https://mt1.google.com/vt/lyrs=s";
const OPEN_FREE_MAP: &str = "https://tiles.openfreemap.org/planet/20250122_001001_pt";

fn enabled_count(client: &TileRequestClient) -> usize {
    [OSM, GOOGLE_HYBRID, GOOGLE_MAP, GOOGLE_SATELLITE, OPEN_FREE_MAP, "https://example.org/tiles"]
        .iter()
        .filter(|url| matches!(client.lookup(url), Some((true, _))))
        .count()
}

#[test]
fn default_client_knows_the_built_in_sources() {
    let client = TileRequestClient::default();
    assert_eq!(client.cache_dir(), "cache");
    assert!(!client.tile_web_origin_changed());
    assert_eq!(client.lookup(OSM), Some((false, TileType::Raster)));
    assert_eq!(client.lookup(GOOGLE_HYBRID), Some((true, TileType::Raster)));
    assert_eq!(client.lookup(GOOGLE_MAP), Some((false, TileType::Raster)));
    assert_eq!(client.lookup(GOOGLE_SATELLITE), Some((false, TileType::Raster)));
    assert_eq!(client.lookup(OPEN_FREE_MAP), Some((false, TileType::Vector)));
    assert_eq!(client.lookup("https://example.org/tiles"), None);
    assert_eq!(
        client.get_enabled_tile_web_origins(),
        Some((GOOGLE_HYBRID.to_string(), (true, TileType::Raster)))
    );
}

#[test]
fn new_client_without_url_is_the_default_one() {
    let client = TileRequestClient::new("tiles".to_string(), None);
    assert_eq!(client.cache_dir(), "tiles");
    assert!(!client.tile_web_origin_changed());
    assert_eq!(
        client.get_enabled_tile_web_origins(),
        Some((GOOGLE_HYBRID.to_string(), (true, TileType::Raster)))
    );
}

#[test]
fn new_client_with_known_url_enables_that_source() {
    let client = TileRequestClient::new("tiles".to_string(), Some(OPEN_FREE_MAP.to_string()));
    assert!(client.tile_web_origin_changed());
    assert_eq!(
        client.get_enabled_tile_web_origins(),
        Some((OPEN_FREE_MAP.to_string(), (true, TileType::Vector)))
    );
    assert_eq!(client.lookup(GOOGLE_HYBRID), Some((false, TileType::Raster)));
    assert_eq!(enabled_count(&client), 1);
}

#[test]
fn new_client_with_unknown_url_adds_a_raster_source() {
    let url = "https://example.org/tiles";
    let client = TileRequestClient::new("tiles".to_string(), Some(url.to_string()));
    assert!(client.tile_web_origin_changed());
    assert_eq!(client.lookup(url), Some((true, TileType::Raster)));
    assert_eq!(
        client.get_enabled_tile_web_origins(),
        Some((url.to_string(), (true, TileType::Raster)))
    );
    assert_eq!(client.lookup(GOOGLE_HYBRID), Some((false, TileType::Raster)));
    assert_eq!(enabled_count(&client), 1);
}

#[test]
fn adding_a_disabled_source_keeps_the_enabled_one() {
    let mut client = TileRequestClient::default();
    client.add_tile_web_origin("https://example.org/tiles".to_string(), false, TileType::Vector);
    assert!(client.tile_web_origin_changed());
    assert_eq!(client.lookup("https://example.org/tiles"), Some((false, TileType::Vector)));
    assert_eq!(
        client.get_enabled_tile_web_origins(),
        Some((GOOGLE_HYBRID.to_string(), (true, TileType::Raster)))
    );
}

#[test]
fn adding_a_known_source_replaces_it() {
    let mut client = TileRequestClient::default();
    client.add_tile_web_origin(GOOGLE_HYBRID.to_string(), false, TileType::Vector);
    assert_eq!(client.lookup(GOOGLE_HYBRID), Some((false, TileType::Vector)));
    assert_eq!(client.get_enabled_tile_web_origins(), None);
    client.add_tile_web_origin(OSM.to_string(), true, TileType::Raster);
    assert_eq!(
        client.get_enabled_tile_web_origins(),
        Some((OSM.to_string(), (true, TileType::Raster)))
    );
    assert_eq!(enabled_count(&client), 1);
}

#[test]
fn enabling_a_source_disables_the_others() {
    let mut client = TileRequestClient::default();
    client.enable_tile_web_origin(OSM);
    assert!(client.tile_web_origin_changed());
    assert_eq!(client.lookup(OSM), Some((true, TileType::Raster)));
    assert_eq!(client.lookup(GOOGLE_HYBRID), Some((false, TileType::Raster)));
    assert_eq!(enabled_count(&client), 1);
}

#[test]
fn enabling_an_unknown_source_changes_nothing() {
    let mut client = TileRequestClient::default();
    client.enable_tile_web_origin("https://example.org/tiles");
    assert!(!client.tile_web_origin_changed());
    assert_eq!(client.lookup("https://example.org/tiles"), None);
    assert_eq!(
        client.get_enabled_tile_web_origins(),
        Some((GOOGLE_HYBRID.to_string(), (true, TileType::Raster)))
    );
}

#[test]
fn disabling_all_sources_leaves_none_enabled() {
    let mut client = TileRequestClient::default();
    client.disable_all_tile_web_origins();
    assert!(client.tile_web_origin_changed());
    assert_eq!(client.get_enabled_tile_web_origins(), None);
    assert_eq!(enabled_count(&client), 0);
    assert_eq!(client.lookup(OPEN_FREE_MAP), Some((false, TileType::Vector)));
}

#[test]
fn enable_only_switches_to_a_known_source() {
    let mut client = TileRequestClient::default();
    client.enable_only_tile_web_origin(OPEN_FREE_MAP);
    assert!(client.tile_web_origin_changed());
    assert_eq!(
        client.get_enabled_tile_web_origins(),
        Some((OPEN_FREE_MAP.to_string(), (true, TileType::Vector)))
    );
    assert_eq!(enabled_count(&client), 1);
}

#[test]
fn enable_only_with_an_unknown_source_disables_all() {
    let mut client = TileRequestClient::default();
    client.enable_only_tile_web_origin("https://example.org/tiles");
    assert!(client.tile_web_origin_changed());
    assert_eq!(client.get_enabled_tile_web_origins(), None);
}

#[test]
fn the_changed_flag_can_be_cleared() {
    let mut client = TileRequestClient::default();
    client.enable_tile_web_origin(OSM);
    assert!(client.tile_web_origin_changed());
    client.set_tile_web_origin_changed(false);
    assert!(!client.tile_web_origin_changed());
    assert_eq!(client.lookup(OSM), Some((true, TileType::Raster)));
}

#[test]
fn decimal_numerals() {
    let mut out = String::from("n=");
    push_decimal(&mut out, 0);
    assert_eq!(out, "n=0");
    push_decimal(&mut out, 7);
    assert_eq!(out, "n=07");
    let mut out = String::new();
    push_decimal(&mut out, 8197);
    assert_eq!(out, "8197");
    let mut out = String::new();
    push_decimal(&mut out, 1_000_000);
    assert_eq!(out, "1000000");
    let mut out = String::new();
    push_decimal(&mut out, u64::MAX);
    assert_eq!(out, "18446744073709551615");
}

#[test]
fn substring_search() {
    assert!(contains("https://mt1.google.com/vt/lyrs=y", "google"));
    assert!(!contains("https://tile.openstreetmap.org", "google"));
    assert!(contains("water", "water"));
    assert!(contains("waterway", "water"));
    assert!(contains("freshwater", "water"));
    assert!(!contains("wate", "water"));
    assert!(contains("anything", ""));
    assert!(contains("", ""));
    assert!(!contains("", "a"));
    assert!(contains("caf\u{e9} land", "land"));
    assert!(contains("l\u{e4}nder", "\u{e4}n"));
}
