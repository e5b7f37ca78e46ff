use map_viewer::decode::decode_image;
use map_viewer::errors::FetchError;
use map_viewer::errors::VectorDecodeError;
use map_viewer::fetch::cache_dir_path;
use map_viewer::fetch::cache_file_path;
use map_viewer::fetch::decode_payload;
use map_viewer::fetch::extension;
use map_viewer::fetch::request_url;
use map_viewer::fetch::FetchAction;
use map_viewer::fetch::FetchEvent;
use map_viewer::fetch::FetchPlan;
use map_viewer::fetch::FetchState;
use map_viewer::fetch::TilePayload;
use map_viewer::fetch::RATE_LIMIT_BACKOFF_SECONDS;
use map_viewer::raster::LayerStyle;
use map_viewer::raster::PaintOp;
use map_viewer::raster::PathCmd::LineTo;
use map_viewer::raster::PathCmd::MoveTo;
use map_viewer::vector::vector_tile_plan;
use map_viewer::source::TileRequestClient;
use map_viewer::source::TileType;
use std::collections::HashMap;
use std::collections::VecDeque;

const OSM: &str = "https://tile.openstreetmap.org";
const GOOGLE_HYBRID: &str = "https://mt1.google.com/vt/lyrs=y";
const OPEN_FREE_MAP: &str = "https://tiles.openfreemap.org/planet/20250122_001001_pt";

/// The pixels of a small image and the same image as a PNG file.
fn sample_png() -> (Vec<u8>, Vec<u8>) {
    let pixels: Vec<u8> = vec![
        255, 0, 0, 255, 0, 255, 0, 255, 0, 0, 255, 255, 10, 20, 30, 40, 1, 2, 3, 4, 250, 251, 252, 253,
    ];
    let picture = image::RgbaImage::from_raw(3, 2, pixels.clone()).unwrap();
    let mut file = std::io::Cursor::new(Vec::new());
    picture.write_to(&mut file, image::ImageFormat::Png).unwrap();
    (pixels, file.into_inner())
}

/// A vector tile with one layer `water_name` that holds nothing that is drawn,
/// and one layer `road` with a line from (1, 2) to (3, 4).
fn sample_pbf() -> Vec<u8> {
    let geometry = [9u8, 2, 4, 10, 4, 4];
    let mut feature = vec![0x18, 2, 0x22, geometry.len() as u8];
    feature.extend_from_slice(&geometry);
    let mut layer = vec![0x78, 2, 0x0a, 4];
    layer.extend_from_slice(b"road");
    layer.push(0x12);
    layer.push(feature.len() as u8);
    layer.extend_from_slice(&feature);
    let mut hidden = vec![0x78, 2, 0x0a, 10];
    hidden.extend_from_slice(b"water_name");
    hidden.push(0x12);
    hidden.push(feature.len() as u8);
    hidden.extend_from_slice(&feature);
    let mut tile = vec![0x1a, hidden.len() as u8];
    tile.extend_from_slice(&hidden);
    tile.push(0x1a);
    tile.push(layer.len() as u8);
    tile.extend_from_slice(&layer);
    tile
}

fn road_plan() -> Vec<PaintOp> {
    vec![PaintOp { style: LayerStyle::Outline, path: vec![MoveTo(1, 2), LineTo(3, 4)] }]
}

/// A server that answers each request with the next of its answers, and a
/// cache in memory.
struct World {
    answers: VecDeque<Option<(u16, Vec<u8>)>>,
    cache: HashMap<String, Vec<u8>>,
    dirs: Vec<String>,
    requests: Vec<String>,
    sleeps: Vec<u64>,
}

impl World {
    fn new(answers: Vec<Option<(u16, Vec<u8>)>>) -> World {
        World {
            answers: answers.into(),
            cache: HashMap::new(),
            dirs: Vec::new(),
            requests: Vec::new(),
            sleeps: Vec::new(),
        }
    }

    /// Drives the protocol of one fetch to its end.
    fn get_tile(&mut self, plan: &FetchPlan) -> Result<TilePayload, FetchError> {
        let mut state = FetchState::Start;
        let mut event = FetchEvent::Begin;
        for _ in 0..1000 {
            let (next, action) = plan.step(state, event);
            state = next;
            event = match action {
                FetchAction::ReadCache(file) => match self.cache.get(&file) {
                    Some(bytes) => FetchEvent::CacheHit(bytes.clone()),
                    None => FetchEvent::CacheMiss,
                },
                FetchAction::Get(url) => {
                    self.requests.push(url);
                    match self.answers.pop_front().expect("no answer left") {
                        Some((status, body)) => FetchEvent::Response(status, body),
                        None => FetchEvent::TransportFailed,
                    }
                }
                FetchAction::Sleep(seconds) => {
                    self.sleeps.push(seconds);
                    FetchEvent::BackoffElapsed
                }
                FetchAction::StoreAndDeliver { dir, file, bytes, outcome } => {
                    assert_eq!(state, FetchState::Done);
                    self.dirs.push(dir);
                    self.cache.insert(file, bytes);
                    return outcome;
                }
                FetchAction::Deliver(outcome) => {
                    assert_eq!(state, FetchState::Done);
                    return outcome;
                }
                FetchAction::Nothing => panic!("the protocol has nothing to do"),
            };
        }
        panic!("the protocol does not end");
    }
}

fn osm_plan(x: u64, y: u64, zoom: u64) -> FetchPlan {
    let client = TileRequestClient::new("cache".to_string(), Some(OSM.to_string()));
    client.plan_tile(x, y, zoom).unwrap()
}

#[test]
fn extensions_of_the_kinds() {
    assert_eq!(extension(TileType::Raster), "png");
    assert_eq!(extension(TileType::Vector), "pbf");
}

#[test]
fn cache_layout() {
    assert_eq!(cache_dir_path("cache", OSM), "cache/https://tile.openstreetmap.org");
    assert_eq!(
        cache_file_path("cache", OSM, TileType::Raster, 8197, 5397, 14),
        "cache/https://tile.openstreetmap.org/14_8197_5397.png"
    );
    assert_eq!(
        cache_file_path("/var/tiles", OPEN_FREE_MAP, TileType::Vector, 0, 0, 0),
        "/var/tiles/https://tiles.openfreemap.org/planet/20250122_001001_pt/0_0_0.pbf"
    );
    assert_eq!(cache_file_path("", "", TileType::Raster, 1, 2, 3), "//3_1_2.png");
}

#[test]
fn request_urls() {
    assert_eq!(
        request_url(OSM, TileType::Raster, 8197, 5397, 14),
        "https://tile.openstreetmap.org/14/8197/5397.png"
    );
    assert_eq!(
        request_url(OPEN_FREE_MAP, TileType::Vector, 1, 2, 3),
        "https://tiles.openfreemap.org/planet/20250122_001001_pt/3/1/2.pbf"
    );
    assert_eq!(
        request_url(GOOGLE_HYBRID, TileType::Raster, 8197, 5397, 14),
        "https://mt1.google.com/vt/lyrs=y&x=8197&y=5397&z=14"
    );
    assert_eq!(
        request_url("https://google", TileType::Vector, 0, 0, u64::MAX),
        "https://google&x=0&y=0&z=18446744073709551615"
    );
}

#[test]
fn plan_of_the_enabled_source() {
    let client = TileRequestClient::default();
    let plan = client.plan_tile(8197, 5397, 14).unwrap();
    assert_eq!(
        plan,
        FetchPlan {
            source: GOOGLE_HYBRID.to_string(),
            kind: TileType::Raster,
            cache_dir: "cache/https://mt1.google.com/vt/lyrs=y".to_string(),
            cache_file: "cache/https://mt1.google.com/vt/lyrs=y/14_8197_5397.png".to_string(),
            request_url: "https://mt1.google.com/vt/lyrs=y&x=8197&y=5397&z=14".to_string(),
            draw_zoom: 14,
        }
    );
    let vector = TileRequestClient::new("tiles".to_string(), Some(OPEN_FREE_MAP.to_string()));
    let plan = vector.plan_tile(1, 2, 1 << 40).unwrap();
    assert_eq!(plan.kind, TileType::Vector);
    assert_eq!(plan.draw_zoom, u32::MAX);
    assert_eq!(
        plan.cache_file,
        "tiles/https://tiles.openfreemap.org/planet/20250122_001001_pt/1099511627776_1_2.pbf"
    );
}

#[test]
fn no_plan_without_an_enabled_source() {
    let mut client = TileRequestClient::default();
    client.disable_all_tile_web_origins();
    assert_eq!(client.plan_tile(1, 2, 3), None);
}

#[test]
fn image_decoding() {
    let (pixels, file) = sample_png();
    assert_ne!(pixels, file);
    assert_eq!(decode_image(&file), Ok(pixels));
    assert_eq!(decode_image(&vec![1, 2, 3, 4]), Err(FetchError::DecodeFailure));
    assert_eq!(decode_image(&Vec::new()), Err(FetchError::DecodeFailure));
    let mut cut = sample_png().1;
    cut.truncate(cut.len() / 2);
    assert_eq!(decode_image(&cut), Err(FetchError::DecodeFailure));
}

#[test]
fn payload_decoding() {
    let (pixels, file) = sample_png();
    assert_eq!(decode_payload(TileType::Raster, file.clone()), Ok(TilePayload::Pixels(pixels)));
    assert_eq!(
        decode_payload(TileType::Vector, sample_pbf()),
        Ok(TilePayload::VectorBytes(sample_pbf()))
    );
    assert_eq!(decode_payload(TileType::Raster, sample_pbf()), Err(FetchError::DecodeFailure));
    // A vector tile is passed on as it came, whatever it holds.
    assert_eq!(
        decode_payload(TileType::Vector, vec![0xff, 0xff, 0xff]),
        Ok(TilePayload::VectorBytes(vec![0xff, 0xff, 0xff]))
    );
    assert_eq!(decode_payload(TileType::Vector, file.clone()), Ok(TilePayload::VectorBytes(file)));
    assert_eq!(decode_payload(TileType::Vector, Vec::new()), Ok(TilePayload::VectorBytes(Vec::new())));
}

#[test]
fn steps_of_the_protocol() {
    let plan = osm_plan(1, 2, 3);
    let (pixels, file) = sample_png();
    assert_eq!(
        plan.step(FetchState::Start, FetchEvent::Begin),
        (FetchState::AwaitCache, FetchAction::ReadCache("cache/https://tile.openstreetmap.org/3_1_2.png".to_string()))
    );
    assert_eq!(
        plan.step(FetchState::AwaitCache, FetchEvent::CacheMiss),
        (FetchState::AwaitResponse, FetchAction::Get("https://tile.openstreetmap.org/3/1/2.png".to_string()))
    );
    assert_eq!(
        plan.step(FetchState::AwaitCache, FetchEvent::CacheHit(file.clone())),
        (FetchState::Done, FetchAction::Deliver(Ok(TilePayload::Pixels(pixels.clone()))))
    );
    assert_eq!(
        plan.step(FetchState::AwaitResponse, FetchEvent::Response(200, file.clone())),
        (
            FetchState::Done,
            FetchAction::StoreAndDeliver {
                dir: "cache/https://tile.openstreetmap.org".to_string(),
                file: "cache/https://tile.openstreetmap.org/3_1_2.png".to_string(),
                bytes: file.clone(),
                outcome: Ok(TilePayload::Pixels(pixels)),
            }
        )
    );
    assert_eq!(
        plan.step(FetchState::AwaitResponse, FetchEvent::Response(429, Vec::new())),
        (FetchState::AwaitBackoff, FetchAction::Sleep(5))
    );
    assert_eq!(RATE_LIMIT_BACKOFF_SECONDS, 5);
    assert_eq!(
        plan.step(FetchState::AwaitBackoff, FetchEvent::BackoffElapsed),
        (FetchState::AwaitResponse, FetchAction::Get("https://tile.openstreetmap.org/3/1/2.png".to_string()))
    );
    assert_eq!(
        plan.step(FetchState::AwaitResponse, FetchEvent::Response(404, b"not found".to_vec())),
        (FetchState::Done, FetchAction::Deliver(Err(FetchError::HttpStatus(404))))
    );
    assert_eq!(
        plan.step(FetchState::AwaitResponse, FetchEvent::TransportFailed),
        (FetchState::Done, FetchAction::Deliver(Err(FetchError::NetworkFailure)))
    );
}

#[test]
fn events_out_of_place_change_nothing() {
    let plan = osm_plan(1, 2, 3);
    assert_eq!(
        plan.step(FetchState::Start, FetchEvent::CacheMiss),
        (FetchState::Start, FetchAction::Nothing)
    );
    assert_eq!(
        plan.step(FetchState::AwaitCache, FetchEvent::Response(200, Vec::new())),
        (FetchState::AwaitCache, FetchAction::Nothing)
    );
    assert_eq!(
        plan.step(FetchState::AwaitResponse, FetchEvent::BackoffElapsed),
        (FetchState::AwaitResponse, FetchAction::Nothing)
    );
    assert_eq!(
        plan.step(FetchState::AwaitBackoff, FetchEvent::CacheHit(Vec::new())),
        (FetchState::AwaitBackoff, FetchAction::Nothing)
    );
    assert_eq!(
        plan.step(FetchState::Done, FetchEvent::Begin),
        (FetchState::Done, FetchAction::Nothing)
    );
}

#[test]
fn second_fetch_is_served_from_the_cache() {
    let (pixels, file) = sample_png();
    let plan = osm_plan(8197, 5397, 14);
    let mut world = World::new(vec![Some((200, file.clone()))]);
    let first = world.get_tile(&plan);
    assert_eq!(first, Ok(TilePayload::Pixels(pixels)));
    assert_eq!(world.requests, vec!["https://tile.openstreetmap.org/14/8197/5397.png".to_string()]);
    assert_eq!(world.dirs, vec!["cache/https://tile.openstreetmap.org".to_string()]);
    assert_eq!(
        world.cache.get("cache/https://tile.openstreetmap.org/14_8197_5397.png"),
        Some(&file)
    );
    let second = world.get_tile(&plan);
    assert_eq!(second, first);
    assert_eq!(world.requests.len(), 1);
    assert!(world.sleeps.is_empty());
}

#[test]
fn other_tiles_and_sources_have_their_own_cache_files() {
    let (_, file) = sample_png();
    let mut world = World::new(vec![Some((200, file.clone())), Some((200, file.clone())), Some((200, file))]);
    world.get_tile(&osm_plan(1, 2, 3)).unwrap();
    world.get_tile(&osm_plan(2, 1, 3)).unwrap();
    world.get_tile(&TileRequestClient::default().plan_tile(1, 2, 3).unwrap()).unwrap();
    assert_eq!(world.requests.len(), 3);
    assert_eq!(world.cache.len(), 3);
}

#[test]
fn rate_limit_is_waited_out() {
    let (pixels, file) = sample_png();
    let plan = osm_plan(1, 2, 3);
    let mut world = World::new(vec![
        Some((429, Vec::new())),
        Some((429, b"slow down".to_vec())),
        Some((200, file.clone())),
    ]);
    assert_eq!(world.get_tile(&plan), Ok(TilePayload::Pixels(pixels)));
    assert_eq!(world.sleeps, vec![5, 5]);
    assert_eq!(world.requests.len(), 3);
    assert_eq!(world.requests[0], world.requests[2]);
    assert_eq!(world.cache.get(&plan.cache_file), Some(&file));
}

#[test]
fn rate_limit_is_waited_out_however_long() {
    let (pixels, file) = sample_png();
    let plan = osm_plan(1, 2, 3);
    let mut answers = vec![Some((429, Vec::new())); 40];
    answers.push(Some((200, file)));
    let mut world = World::new(answers);
    assert_eq!(world.get_tile(&plan), Ok(TilePayload::Pixels(pixels)));
    assert_eq!(world.sleeps, vec![5; 40]);
}

#[test]
fn other_status_ends_the_fetch() {
    let plan = osm_plan(1, 2, 3);
    for status in [404u16, 500, 301, 204, 0, 201] {
        let mut world = World::new(vec![Some((status, b"body".to_vec()))]);
        assert_eq!(world.get_tile(&plan), Err(FetchError::HttpStatus(status)));
        assert!(world.cache.is_empty());
        assert!(world.sleeps.is_empty());
        assert_eq!(world.requests.len(), 1);
    }
    let mut world = World::new(vec![Some((429, Vec::new())), Some((503, Vec::new()))]);
    assert_eq!(world.get_tile(&plan), Err(FetchError::HttpStatus(503)));
    assert_eq!(world.sleeps, vec![5]);
}

#[test]
fn failed_request_ends_the_fetch() {
    let plan = osm_plan(1, 2, 3);
    let mut world = World::new(vec![None]);
    assert_eq!(world.get_tile(&plan), Err(FetchError::NetworkFailure));
    assert!(world.cache.is_empty());
}

#[test]
fn body_that_does_not_decode_is_cached_and_reported() {
    let plan = osm_plan(1, 2, 3);
    let mut world = World::new(vec![Some((200, b"no image".to_vec()))]);
    assert_eq!(world.get_tile(&plan), Err(FetchError::DecodeFailure));
    assert_eq!(world.cache.get(&plan.cache_file), Some(&b"no image".to_vec()));
    assert_eq!(world.get_tile(&plan), Err(FetchError::DecodeFailure));
    assert_eq!(world.requests.len(), 1);
}

#[test]
fn vector_tile_is_fetched_as_it_came() {
    let client = TileRequestClient::new("cache".to_string(), Some(OPEN_FREE_MAP.to_string()));
    let plan = client.plan_tile(8197, 5397, 14).unwrap();
    let mut world = World::new(vec![Some((200, sample_pbf()))]);
    assert_eq!(world.get_tile(&plan), Ok(TilePayload::VectorBytes(sample_pbf())));
    assert_eq!(
        world.requests,
        vec!["https://tiles.openfreemap.org/planet/20250122_001001_pt/14/8197/5397.pbf".to_string()]
    );
    assert_eq!(world.get_tile(&plan), Ok(TilePayload::VectorBytes(sample_pbf())));
    assert_eq!(world.requests.len(), 1);
    assert_eq!(world.cache.get(&plan.cache_file), Some(&sample_pbf()));
    // The bytes are decoded where the tile is drawn.
    assert_eq!(plan.draw_zoom, 14);
    assert_eq!(vector_tile_plan(&sample_pbf(), plan.draw_zoom), Ok(road_plan()));
}

#[test]
fn malformed_vector_tile_is_fetched_and_fails_where_it_is_drawn() {
    let client = TileRequestClient::new("cache".to_string(), Some(OPEN_FREE_MAP.to_string()));
    let plan = client.plan_tile(1, 2, 3).unwrap();
    let garbage = vec![0xffu8, 0xff, 0xff, 0xff];
    let mut world = World::new(vec![Some((200, garbage.clone()))]);
    assert_eq!(world.get_tile(&plan), Ok(TilePayload::VectorBytes(garbage.clone())));
    assert_eq!(world.cache.get(&plan.cache_file), Some(&garbage));
    assert_eq!(world.get_tile(&plan), Ok(TilePayload::VectorBytes(garbage.clone())));
    assert_eq!(world.requests.len(), 1);
    assert_eq!(vector_tile_plan(&garbage, plan.draw_zoom), Err(VectorDecodeError));
}

#[test]
fn steps_of_the_protocol_for_a_vector_source() {
    let client = TileRequestClient::new("cache".to_string(), Some(OPEN_FREE_MAP.to_string()));
    let plan = client.plan_tile(1, 2, 3).unwrap();
    let bytes = sample_pbf();
    assert_eq!(
        plan.step(FetchState::AwaitCache, FetchEvent::CacheHit(bytes.clone())),
        (FetchState::Done, FetchAction::Deliver(Ok(TilePayload::VectorBytes(bytes.clone()))))
    );
    assert_eq!(
        plan.step(FetchState::AwaitResponse, FetchEvent::Response(200, bytes.clone())),
        (
            FetchState::Done,
            FetchAction::StoreAndDeliver {
                dir: "cache/https://tiles.openfreemap.org/planet/20250122_001001_pt".to_string(),
                file: "cache/https://tiles.openfreemap.org/planet/20250122_001001_pt/3_1_2.pbf".to_string(),
                bytes: bytes.clone(),
                outcome: Ok(TilePayload::VectorBytes(bytes)),
            }
        )
    );
}
