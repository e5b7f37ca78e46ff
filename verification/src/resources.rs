//! The state of the map viewer as a whole: the zoom level, the chunks, the
//! tile sources, the place at which the camera looks and the reference
//! point, and the decisions that involve more than one of them.

use vstd::prelude::*;
use crate::chunk::ChunkArrival;
use crate::chunk::ChunkManager;
use crate::chunk::ChunkRequest;
use crate::chunk::ChunkState;
use crate::chunk::DisplayedChunk;
use crate::chunk::RETAINED_OLDER_LAYERS;
use crate::chunk::ReadyChunk;
use crate::chunk::TickOutcome;
use crate::chunk::arrival_views;
use crate::chunk::lemma_new_layer_keeps_bound;
use crate::chunk::ready_views;
use crate::chunk::requests_for;
use crate::display::Cell;
use crate::display::MAX_VISIBLE_TILES;
use crate::display::MAX_ZOOM;
use crate::display::MIN_VISIBLE_TILES;
use crate::display::MIN_ZOOM;
use crate::display::camera_pos_to_chunk_pos;
use crate::display::cell_of_point;
use crate::display::exponent_in_range;
use crate::display::scale_value;
use crate::display::scaled;
use crate::display::is_narrower_than;
use crate::display::is_wider_than;
use crate::display::narrower_than;
use crate::display::wider_than;
use crate::display::zoom_in_range;
use crate::local::WORLD_UNITS;
use crate::local::lemma_span_bounds;
use crate::local::local_of;
use crate::local::local_to_world;
use crate::local::world_of;
use crate::local::world_to_local;
use crate::source::TileRequestClient;
use crate::source::builtin_sources;
use crate::source::starting_sources;
use crate::tile::MAX_TILE_ZOOM;
use crate::tile::Tile;
use crate::tile::WorldPoint;
use crate::tile::lemma_corner_is_near;
use crate::tile::tile_beside;
use crate::tile::tile_span;
use vstd::arithmetic::div_mod::lemma_fundamental_div_mod;
use vstd::arithmetic::div_mod::lemma_mod_bound;

verus! {

/// The zoom level of the map has changed.
#[derive(Debug, Clone, Copy, PartialEq, Eq, Structural)]
pub struct ZoomChangedEvent;

/// The set of visible cells has to be worked out anew.
#[derive(Debug, Clone, Copy, PartialEq, Eq, Structural)]
pub struct UpdateChunkEvent;

/// A step of the zoom level.
#[derive(Debug, Clone, Copy, PartialEq, Eq, Structural)]
pub enum ZoomStep {
    /// One level out: every tile covers twice the width.
    Out,
    /// One level in: every tile covers half the width.
    In,
    /// The level stays.
    Stay,
}

/// The zoom level of the map and the size of its tiles.
#[derive(Debug, Clone, Copy, PartialEq, Eq, Structural)]
pub struct ZoomManager {
    /// The zoom level whose tiles are shown.
    pub zoom_level: u32,
    /// The width of a tile on the display at scale one, in display units.
    pub tile_quality: u32,
    /// The zoom level at which the scale of the display is one.
    pub starting_zoom: u32,
}

impl ZoomManager {
    /// Both zoom levels lie in the range of the map, and tiles have a width.
    pub open spec fn wf(&self) -> bool {
        &&& zoom_in_range(self.zoom_level)
        &&& zoom_in_range(self.starting_zoom)
        &&& self.tile_quality > 0
    }

    /// The exponent of the scale of the display: the scale is one at the
    /// starting zoom level and doubles with every level zoomed out.
    pub open spec fn spec_scale_exponent(&self) -> i32 {
        (self.starting_zoom - self.zoom_level) as i32
    }

    /// The step that a viewport of the given width calls for: one level out
    /// when it shows more than seven tile widths, one level in when it shows
    /// fewer than three, as far as the range of zoom levels allows.
    pub open spec fn step_for(&self, viewport_width: u64) -> ZoomStep {
        if wider_than(
            viewport_width,
            MAX_VISIBLE_TILES,
            self.tile_quality,
            self.spec_scale_exponent() as int,
        ) && self.zoom_level > MIN_ZOOM {
            ZoomStep::Out
        } else if narrower_than(
            viewport_width,
            MIN_VISIBLE_TILES,
            self.tile_quality,
            self.spec_scale_exponent() as int,
        ) && self.zoom_level < MAX_ZOOM {
            ZoomStep::In
        } else {
            ZoomStep::Stay
        }
    }

    /// The manager after a step: the zoom level moves by one at most.
    pub open spec fn after_step(&self, step: ZoomStep) -> ZoomManager {
        ZoomManager {
            zoom_level: match step {
                ZoomStep::Out => (self.zoom_level - 1) as u32,
                ZoomStep::In => (self.zoom_level + 1) as u32,
                ZoomStep::Stay => self.zoom_level,
            },
            ..*self
        }
    }

    /// A manager that starts at `zoom`, where the scale is one.
    pub fn new(zoom: u32, tile_quality: u32) -> (manager: Self)
        requires
            zoom_in_range(zoom),
            tile_quality > 0,
        ensures
            manager.wf(),
            manager == (ZoomManager { zoom_level: zoom, tile_quality, starting_zoom: zoom }),
    {
        ZoomManager { zoom_level: zoom, tile_quality, starting_zoom: zoom }
    }

    /// The exponent of the scale of the display.
    #[verifier::when_used_as_spec(spec_scale_exponent)]
    pub fn scale_exponent(&self) -> (e: i32)
        requires
            self.wf(),
        ensures
            e == self.spec_scale_exponent(),
            exponent_in_range(e as int),
    {
        if self.starting_zoom >= self.zoom_level {
            (self.starting_zoom - self.zoom_level) as i32
        } else {
            -((self.zoom_level - self.starting_zoom) as i32)
        }
    }

    /// Decides the step that a viewport of the given width calls for.
    pub fn zoom_step(&self, viewport_width: u64) -> (step: ZoomStep)
        requires
            self.wf(),
        ensures
            step == self.step_for(viewport_width),
    {
        let e = self.scale_exponent();
        if self.zoom_level > MIN_ZOOM && is_wider_than(
            viewport_width,
            MAX_VISIBLE_TILES,
            self.tile_quality,
            e,
        ) {
            ZoomStep::Out
        } else if self.zoom_level < MAX_ZOOM && is_narrower_than(
            viewport_width,
            MIN_VISIBLE_TILES,
            self.tile_quality,
            e,
        ) {
            ZoomStep::In
        } else {
            ZoomStep::Stay
        }
    }
}

impl Default for ZoomManager {
    /// Zoom level 14 with tiles of 256 display units.
    fn default() -> (manager: Self)
        ensures
            manager.wf(),
            manager == (ZoomManager { zoom_level: 14, tile_quality: 256, starting_zoom: 14 }),
    {
        ZoomManager { zoom_level: 14, tile_quality: 256, starting_zoom: 14 }
    }
}

/// How far from the origin of the display, along either axis, the camera
/// can be for a zoom step to keep the place that it shows under it.
pub const CAMERA_REACH: i64 = 0x4000_0000_0000_0000;

/// How far east the place lies at which a viewer looks to begin with:
/// 0.1313 degrees east, in world units.
pub const DEFAULT_LOCATION_X: u32 = 2149050118;

/// How far south the place lies at which a viewer looks to begin with:
/// 52.1951 degrees north, in world units.
pub const DEFAULT_LOCATION_Y: u32 = 1414903550;

/// The place at which a viewer looks to begin with.
pub open spec fn default_location() -> WorldPoint {
    WorldPoint { x: DEFAULT_LOCATION_X, y: DEFAULT_LOCATION_Y }
}

/// A position of the camera within [`CAMERA_REACH`].
pub open spec fn camera_in_reach(camera: (i64, i64)) -> bool {
    &&& -CAMERA_REACH <= camera.0 <= CAMERA_REACH
    &&& -CAMERA_REACH <= camera.1 <= CAMERA_REACH
}

/// What the detection of the zoom level hands back to the host.
#[derive(Debug)]
pub struct ZoomOutcome {
    /// Present when the zoom level has changed.
    pub zoom_changed: Option<ZoomChangedEvent>,
    /// Present when the visible cells have to be worked out anew.
    pub update_chunks: Option<UpdateChunkEvent>,
    /// The chunks that leave the display.
    pub removed: Vec<DisplayedChunk>,
}

/// The order to fetch the tile of a cell, with the tile resolved.
#[derive(Debug, Clone, Copy, PartialEq, Eq)]
pub struct FetchOrder {
    pub cell: Cell,
    /// The layer version under which the cell was asked for.
    pub layer: u64,
    /// The tile of the cell; none for a cell beyond the edge of the world.
    pub tile: Option<Tile>,
}

/// What a tick of the viewer hands back to the host.
#[derive(Debug)]
pub struct ViewerTick {
    /// The chunks that leave the display, those of the eviction first.
    pub removed: Vec<DisplayedChunk>,
    /// The orders to fetch the cells that the scan has asked for.
    pub orders: Vec<FetchOrder>,
    /// The chunks that are put on display.
    pub ready: Vec<ReadyChunk>,
}

/// The orders for the cells of `requests`, each with the tile that lies as
/// many columns east and rows north of `base` as its cell says.
pub open spec fn orders_for(requests: Seq<ChunkRequest>, base: Tile) -> Seq<FetchOrder> {
    requests.map_values(
        |r: ChunkRequest| FetchOrder { cell: r.cell, layer: r.layer, tile: tile_beside(base, r.cell) },
    )
}

/// The reference point that goes with a place at a zoom level: the corner
/// of the tile that holds the place, so that the grid of chunk cells is the
/// grid of tiles.
pub open spec fn aligned_reference(location: WorldPoint, zoom: u32) -> WorldPoint {
    location.tile_at(zoom as nat).corner()
}

/// `v`, or the nearest number that a displacement can hold.
pub open spec fn clamp_to_offset(v: int) -> i64 {
    if v < i64::MIN {
        i64::MIN
    } else if v > i64::MAX {
        i64::MAX
    } else {
        v as i64
    }
}

/// The displacement that puts a place under the camera: where the place
/// lies on the display at the given scale, less where the camera is, as far
/// as a displacement can hold it.
pub open spec fn pinned_offset(
    location: WorldPoint,
    reference: WorldPoint,
    zoom: u32,
    tile_quality: u32,
    scale_exponent: i32,
    camera: (i64, i64),
) -> (i64, i64) {
    let seen = local_of(location, reference, (0i64, 0i64), zoom as nat, tile_quality);
    (
        clamp_to_offset(scaled(seen.0, scale_exponent as int) - camera.0),
        clamp_to_offset(scaled(seen.1, scale_exponent as int) - camera.1),
    )
}

fn saturate(v: i128) -> (r: i64)
    ensures
        r == clamp_to_offset(v as int),
{
    if v < -0x8000_0000_0000_0000 {
        -0x8000_0000_0000_0000
    } else if v > 0x7fff_ffff_ffff_ffff {
        0x7fff_ffff_ffff_ffff
    } else {
        v as i64
    }
}

/// The state of the map viewer: the zoom level, the chunks, the tile
/// sources, the place at which the camera looks, and the reference point,
/// which is the origin of the grid of chunk cells.
#[derive(Debug)]
pub struct TileMapResources {
    pub zoom_manager: ZoomManager,
    pub chunk_manager: ChunkManager,
    pub tile_request_client: TileRequestClient,
    pub location: WorldPoint,
    pub reference: WorldPoint,
}

impl Default for TileMapResources {
    /// A viewer at zoom level 14 with tiles of 256 display units, the
    /// built-in sources, and the cache under `cache`, that looks at
    /// [`default_location`].
    fn default() -> (me: Self)
        ensures
            me.wf(),
            me.zoom_manager == (ZoomManager { zoom_level: 14, tile_quality: 256, starting_zoom: 14 }),
            me.chunk_manager@ == ChunkManager::new_state(),
            me.tile_request_client.cache_root() == "cache"@,
            me.tile_request_client@ == builtin_sources(),
            !me.tile_request_client.changed(),
            me.location == default_location(),
            me.reference == aligned_reference(default_location(), 14),
    {
        let location = WorldPoint { x: DEFAULT_LOCATION_X, y: DEFAULT_LOCATION_Y };
        TileMapResources {
            zoom_manager: ZoomManager::default(),
            chunk_manager: ChunkManager::new(),
            tile_request_client: TileRequestClient::default(),
            location,
            reference: location.to_tile_coords(14).to_world_point(),
        }
    }
}

impl TileMapResources {
    /// Every part is well formed.
    pub open spec fn wf(&self) -> bool {
        &&& self.zoom_manager.wf()
        &&& self.chunk_manager.wf()
        &&& self.tile_request_client.wf()
    }

    /// Where a place of the world lies on the display: its distance from the
    /// reference point in display units of the zoom level, times the scale,
    /// less the displacement.
    pub open spec fn display_of(&self, place: WorldPoint) -> (int, int) {
        let seen = local_of(
            place,
            self.reference,
            (0i64, 0i64),
            self.zoom_manager.zoom_level as nat,
            self.zoom_manager.tile_quality,
        );
        let e = self.zoom_manager.spec_scale_exponent() as int;
        (
            scaled(seen.0, e) - self.chunk_manager@.offset.0,
            scaled(seen.1, e) - self.chunk_manager@.offset.1,
        )
    }

    /// Where a point of the display lies in the world, before the east is
    /// wrapped around: the point and the displacement, divided by the scale,
    /// taken as a distance from the reference point.
    pub open spec fn world_at(&self, point: (i64, i64)) -> (int, int) {
        let e = self.zoom_manager.spec_scale_exponent() as int;
        world_of(
            (
                scaled(point.0 + self.chunk_manager@.offset.0, -e),
                scaled(point.1 + self.chunk_manager@.offset.1, -e),
            ),
            self.reference,
            (0i64, 0i64),
            self.zoom_manager.zoom_level as nat,
            self.zoom_manager.tile_quality,
        )
    }

    /// The place of the world that a point of the display shows: none
    /// beyond the northern and the southern edge of the world.
    pub open spec fn place_at(&self, point: (i64, i64)) -> Option<WorldPoint> {
        let at = self.world_at(point);
        if 0 <= at.1 < WORLD_UNITS {
            Some(WorldPoint { x: (at.0 % (WORLD_UNITS as int)) as u32, y: at.1 as u32 })
        } else {
            None
        }
    }

    /// The cell of the chunk grid that holds the place at which the camera
    /// looks.
    pub open spec fn cell_of_location(&self) -> Cell {
        let seen = local_of(
            self.location,
            self.reference,
            (0i64, 0i64),
            self.zoom_manager.zoom_level as nat,
            self.zoom_manager.tile_quality,
        );
        cell_of_point((seen.0 as i64, seen.1 as i64), self.zoom_manager.tile_quality)
    }

    /// The cell around which the scan of a tick looks, if there is one.
    pub open spec fn scan_center(&self, scan: bool) -> Option<Cell> {
        if scan {
            Some(self.cell_of_location())
        } else {
            None
        }
    }

    /// The state of the chunks after the detection of the zoom level: a new
    /// layer version has begun and the displacement puts the place at which
    /// the camera looks under the camera, if the zoom level has changed; and
    /// a clean-up is due if the source of the tiles has changed.
    pub open spec fn chunks_after_detection(&self, viewport_width: u64, camera: (i64, i64)) -> ChunkState {
        let step = self.zoom_manager.step_for(viewport_width);
        let zoom = self.zoom_manager.after_step(step);
        let stepped = if step != ZoomStep::Stay {
            ChunkState {
                offset: pinned_offset(
                    self.location,
                    aligned_reference(self.location, zoom.zoom_level),
                    zoom.zoom_level,
                    zoom.tile_quality,
                    zoom.spec_scale_exponent(),
                    camera,
                ),
                ..self.chunk_manager@.after_new_layer()
            }
        } else {
            self.chunk_manager@
        };
        ChunkState {
            clean_due: stepped.clean_due || self.tile_request_client.changed(),
            ..stepped
        }
    }

    /// A viewer that looks at `starting_location` at `zoom` with tiles of
    /// `tile_quality` display units, caches under `cache_dir`, and draws
    /// from the starting URL if one is given.
    pub fn new(
        starting_location: WorldPoint,
        zoom: u32,
        starting_url: Option<String>,
        tile_quality: u32,
        cache_dir: String,
    ) -> (me: Self)
        requires
            zoom_in_range(zoom),
            tile_quality > 0,
        ensures
            me.wf(),
            me.zoom_manager == (ZoomManager { zoom_level: zoom, tile_quality, starting_zoom: zoom }),
            me.chunk_manager@ == ChunkManager::new_state(),
            me.tile_request_client.cache_root() == cache_dir@,
            me.tile_request_client@ == starting_sources(
                match starting_url {
                    Some(u) => Some(u@),
                    None => None,
                },
            ),
            me.tile_request_client.changed() == starting_url.is_some(),
            me.location == starting_location,
            me.reference == aligned_reference(starting_location, zoom),
    {
        TileMapResources {
            zoom_manager: ZoomManager::new(zoom, tile_quality),
            chunk_manager: ChunkManager::new(),
            tile_request_client: TileRequestClient::new(cache_dir, starting_url),
            location: starting_location,
            reference: starting_location.to_tile_coords(zoom).to_world_point(),
        }
    }

    /// Finds where a place of the world lies on the display.
    pub fn coord_to_point(&self, coord: WorldPoint) -> (point: (i128, i128))
        requires
            self.wf(),
        ensures
            (point.0 as int, point.1 as int) == self.display_of(coord),
    {
        let e = self.zoom_manager.scale_exponent();
        let displacement = self.chunk_manager.displacement();
        let seen = world_to_local(
            coord,
            self.reference,
            (0, 0),
            self.zoom_manager.zoom_level,
            self.zoom_manager.tile_quality,
        );
        (
            scale_value(seen.0, e) - displacement.0 as i128,
            scale_value(seen.1, e) - displacement.1 as i128,
        )
    }

    /// Finds the place of the world that a point of the display shows.
    pub fn point_to_coord(&self, point: (i64, i64)) -> (place: Option<WorldPoint>)
        requires
            self.wf(),
        ensures
            place == self.place_at(point),
    {
        let e = self.zoom_manager.scale_exponent();
        let displacement = self.chunk_manager.displacement();
        let x: i128 = scale_value(point.0 as i128 + displacement.0 as i128, -e);
        let y: i128 = scale_value(point.1 as i128 + displacement.1 as i128, -e);
        local_to_world(
            (x, y),
            self.reference,
            (0, 0),
            self.zoom_manager.zoom_level,
            self.zoom_manager.tile_quality,
        )
    }

    /// Finds the cell around which the visibility scan looks: the cell that
    /// holds the place at which the camera looks.
    pub fn location_cell(&self) -> (cell: Cell)
        requires
            self.wf(),
        ensures
            cell == self.cell_of_location(),
            -0x4000_0000 <= cell.0 <= 0x4000_0000,
            -0x4000_0000 <= cell.1 <= 0x4000_0000,
    {
        let seen = world_to_local(
            self.location,
            self.reference,
            (0, 0),
            self.zoom_manager.zoom_level,
            self.zoom_manager.tile_quality,
        );
        proof {
            lemma_cell_of_local(
                self.location.x - self.reference.x,
                self.zoom_manager.zoom_level as nat,
                self.zoom_manager.tile_quality,
            );
            lemma_cell_of_local(
                self.reference.y - self.location.y,
                self.zoom_manager.zoom_level as nat,
                self.zoom_manager.tile_quality,
            );
        }
        camera_pos_to_chunk_pos((seen.0 as i64, seen.1 as i64), self.zoom_manager.tile_quality)
    }

    /// Takes note of where the camera is: the place that it shows becomes
    /// the place at which the viewer looks. Returns the call to work out the
    /// visible cells anew if the place has changed. A camera that shows no
    /// place of the world changes nothing.
    pub fn camera_change(&mut self, camera: (i64, i64)) -> (event: Option<UpdateChunkEvent>)
        requires
            old(self).wf(),
        ensures
            final(self).wf(),
            final(self).location == (match old(self).place_at(camera) {
                Some(place) => place,
                None => old(self).location,
            }),
            event.is_some() == (final(self).location != old(self).location),
            final(self).reference == old(self).reference,
            final(self).zoom_manager == old(self).zoom_manager,
            final(self).chunk_manager == old(self).chunk_manager,
            final(self).tile_request_client == old(self).tile_request_client,
    {
        match self.point_to_coord(camera) {
            Some(place) => {
                if place.x != self.location.x || place.y != self.location.y {
                    self.location = place;
                    Some(UpdateChunkEvent)
                } else {
                    None
                }
            },
            None => None,
        }
    }

    /// Detects whether the zoom level has to change for a viewport of the
    /// given width, and whether the source of the tiles has changed.
    ///
    /// The zoom level moves by one step at most. With a step, a new layer
    /// version begins, so that nothing is asked for or waiting any more; the
    /// reference point moves to the corner of the tile that holds the place
    /// at which the camera looks, and the displacement is set so that this
    /// place stays under the camera, for a camera within [`CAMERA_REACH`]. A
    /// change of source is taken note of: a clean-up becomes due. Either of
    /// the two asks for the visible cells to be worked out anew.
    pub fn detect_zoom_level(&mut self, viewport_width: u64, camera: (i64, i64)) -> (outcome:
        ZoomOutcome)
        requires
            old(self).wf(),
        ensures
            final(self).wf(),
            final(self).zoom_manager == old(self).zoom_manager.after_step(
                old(self).zoom_manager.step_for(viewport_width),
            ),
            final(self).location == old(self).location,
            final(self).reference == (if old(self).zoom_manager.step_for(viewport_width)
                != ZoomStep::Stay {
                aligned_reference(old(self).location, final(self).zoom_manager.zoom_level)
            } else {
                old(self).reference
            }),
            final(self).chunk_manager@ == old(self).chunks_after_detection(viewport_width, camera),
            old(self).zoom_manager.step_for(viewport_width) != ZoomStep::Stay && camera_in_reach(
                camera,
            ) ==> final(self).display_of(final(self).location) == (camera.0 as int, camera.1 as int),
            final(self).tile_request_client@ == old(self).tile_request_client@,
            final(self).tile_request_client.cache_root() == old(self).tile_request_client.cache_root(),
            !final(self).tile_request_client.changed(),
            outcome.zoom_changed.is_some() == (old(self).zoom_manager.step_for(viewport_width)
                != ZoomStep::Stay),
            outcome.update_chunks.is_some() == (old(self).zoom_manager.step_for(viewport_width)
                != ZoomStep::Stay || old(self).tile_request_client.changed()),
            outcome.removed@ == (if old(self).zoom_manager.step_for(viewport_width)
                != ZoomStep::Stay {
                old(self).chunk_manager@.superseded()
            } else {
                Seq::empty()
            }),
    {
        let step = self.zoom_manager.zoom_step(viewport_width);
        let mut outcome = ZoomOutcome {
            zoom_changed: None,
            update_chunks: None,
            removed: Vec::new(),
        };
        match step {
            ZoomStep::Out => {
                self.zoom_manager.zoom_level = self.zoom_manager.zoom_level - 1;
            },
            ZoomStep::In => {
                self.zoom_manager.zoom_level = self.zoom_manager.zoom_level + 1;
            },
            ZoomStep::Stay => {},
        }
        match step {
            ZoomStep::Stay => {},
            _ => {
                outcome.removed = self.chunk_manager.begin_layer();
                outcome.zoom_changed = Some(ZoomChangedEvent);
                outcome.update_chunks = Some(UpdateChunkEvent);
                self.pin_location(camera);
            },
        }
        if self.tile_request_client.tile_web_origin_changed() {
            self.tile_request_client.set_tile_web_origin_changed(false);
            self.chunk_manager.request_clean();
            outcome.update_chunks = Some(UpdateChunkEvent);
        }
        outcome
    }

    /// Moves the reference point to the corner of the tile that holds the
    /// place at which the camera looks, and sets the displacement so that
    /// this place lies under the camera.
    fn pin_location(&mut self, camera: (i64, i64))
        requires
            old(self).wf(),
        ensures
            final(self).wf(),
            final(self).zoom_manager == old(self).zoom_manager,
            final(self).location == old(self).location,
            final(self).tile_request_client == old(self).tile_request_client,
            final(self).reference == aligned_reference(
                old(self).location,
                old(self).zoom_manager.zoom_level,
            ),
            final(self).chunk_manager@ == (ChunkState {
                offset: pinned_offset(
                    old(self).location,
                    final(self).reference,
                    old(self).zoom_manager.zoom_level,
                    old(self).zoom_manager.tile_quality,
                    old(self).zoom_manager.spec_scale_exponent(),
                    camera,
                ),
                ..old(self).chunk_manager@
            }),
            camera_in_reach(camera) ==> final(self).display_of(final(self).location) == (
                camera.0 as int,
                camera.1 as int,
            ),
    {
        let zoom = self.zoom_manager.zoom_level;
        let tile_quality = self.zoom_manager.tile_quality;
        let e = self.zoom_manager.scale_exponent();
        self.reference = self.location.to_tile_coords(zoom).to_world_point();
        let seen = world_to_local(self.location, self.reference, (0, 0), zoom, tile_quality);
        proof {
            lemma_corner_is_near(self.location, zoom as nat);
            lemma_near_local(self.location.x - self.reference.x, zoom as nat, tile_quality);
            lemma_near_local(self.reference.y - self.location.y, zoom as nat, tile_quality);
        }
        let x: i128 = scale_value(seen.0, e) - camera.0 as i128;
        let y: i128 = scale_value(seen.1, e) - camera.1 as i128;
        self.chunk_manager.set_displacement((saturate(x), saturate(y)));
    }

    /// One tick of the viewer: eviction, then the outcomes that have come
    /// in, then the clean-up, then, if `scan` says so, the visibility scan
    /// around the place at which the camera looks, then materialisation.
    /// The orders that the scan gives come with their tiles resolved.
    pub fn poll(&mut self, arrivals: Vec<ChunkArrival>, camera: (i64, i64), scan: bool, radius: u16) -> (outcome:
        ViewerTick)
        requires
            old(self).wf(),
        ensures
            final(self).wf(),
            final(self).zoom_manager == old(self).zoom_manager,
            final(self).tile_request_client == old(self).tile_request_client,
            final(self).location == old(self).location,
            final(self).reference == old(self).reference,
            final(self).chunk_manager@ == old(self).chunk_manager@.before_scan(
                arrival_views(arrivals@),
                camera,
                old(self).zoom_manager.tile_quality,
                old(self).zoom_manager.spec_scale_exponent(),
            ).after_optional_scan(old(self).scan_center(scan), radius as u32).after_materialize(
                old(self).zoom_manager.tile_quality,
                old(self).zoom_manager.spec_scale_exponent(),
            ),
            outcome.removed@ == old(self).chunk_manager@.evicted(
                camera,
                old(self).zoom_manager.tile_quality,
                old(self).zoom_manager.spec_scale_exponent(),
            ) + old(self).chunk_manager@.after_evict(
                camera,
                old(self).zoom_manager.tile_quality,
                old(self).zoom_manager.spec_scale_exponent(),
            ).after_arrivals(arrival_views(arrivals@), arrivals@.len()).cleaned(),
            outcome.orders@ == orders_for(
                (match old(self).scan_center(scan) {
                    Some(center) => requests_for(
                        old(self).chunk_manager@.before_scan(
                            arrival_views(arrivals@),
                            camera,
                            old(self).zoom_manager.tile_quality,
                            old(self).zoom_manager.spec_scale_exponent(),
                        ).scan_cells(center, radius as u32),
                        old(self).chunk_manager@.before_scan(
                            arrival_views(arrivals@),
                            camera,
                            old(self).zoom_manager.tile_quality,
                            old(self).zoom_manager.spec_scale_exponent(),
                        ).current_layer(),
                    ),
                    None => Seq::<ChunkRequest>::empty(),
                }),
                old(self).reference.tile_at(old(self).zoom_manager.zoom_level as nat),
            ),
            ready_views(outcome.ready@) == old(self).chunk_manager@.before_scan(
                arrival_views(arrivals@),
                camera,
                old(self).zoom_manager.tile_quality,
                old(self).zoom_manager.spec_scale_exponent(),
            ).after_optional_scan(old(self).scan_center(scan), radius as u32).ready(
                old(self).zoom_manager.tile_quality,
                old(self).zoom_manager.spec_scale_exponent(),
            ),
    {
        let tile_quality = self.zoom_manager.tile_quality;
        let zoom = self.zoom_manager.zoom_level;
        let e = self.zoom_manager.scale_exponent();
        let center: Option<Cell> = if scan {
            Some(self.location_cell())
        } else {
            None
        };
        let TickOutcome { removed, requests, ready } = self.chunk_manager.poll(
            arrivals,
            camera,
            center,
            radius as u32,
            tile_quality,
            e,
        );
        let ghost base = self.reference.tile_at(zoom as nat);
        let mut orders: Vec<FetchOrder> = Vec::new();
        let mut i: usize = 0;
        assert(orders@ =~= orders_for(requests@.take(0), base));
        while i < requests.len()
            invariant
                i <= requests@.len(),
                zoom == self.zoom_manager.zoom_level,
                zoom_in_range(zoom),
                base == self.reference.tile_at(zoom as nat),
                orders@ == orders_for(requests@.take(i as int), base),
            decreases requests@.len() - i,
        {
            let request = requests[i];
            let tile = self.reference.tile_of_cell(request.cell, zoom);
            orders.push(FetchOrder { cell: request.cell, layer: request.layer, tile });
            assert(requests@.take(i + 1) =~= requests@.take(i as int).push(request));
            assert(orders@ =~= orders_for(requests@.take(i + 1), base));
            i = i + 1;
        }
        assert(requests@.take(requests@.len() as int) =~= requests@);
        ViewerTick { removed, orders, ready }
    }
}

/// The zoom level moves by one level at most in one detection: one level
/// out for a viewport that shows more than seven tile widths, above the
/// coarsest level; one level in for a viewport that shows fewer than three,
/// below the finest level; and not at all otherwise.
pub proof fn lemma_zoom_moves_one_level(zoom: ZoomManager, viewport_width: u64)
    requires
        zoom.wf(),
    ensures
        ({
            let e = zoom.spec_scale_exponent() as int;
            let wide = wider_than(viewport_width, MAX_VISIBLE_TILES, zoom.tile_quality, e);
            let narrow = narrower_than(viewport_width, MIN_VISIBLE_TILES, zoom.tile_quality, e);
            let after = zoom.after_step(zoom.step_for(viewport_width));
            &&& after.wf()
            &&& after.tile_quality == zoom.tile_quality
            &&& after.starting_zoom == zoom.starting_zoom
            &&& wide && zoom.zoom_level > MIN_ZOOM ==> after.zoom_level == zoom.zoom_level - 1
            &&& narrow && !wide && zoom.zoom_level < MAX_ZOOM ==> after.zoom_level
                == zoom.zoom_level + 1
            &&& !(wide && zoom.zoom_level > MIN_ZOOM) && !(narrow && zoom.zoom_level < MAX_ZOOM)
                ==> after.zoom_level == zoom.zoom_level
            &&& zoom.zoom_level - 1 <= after.zoom_level <= zoom.zoom_level + 1
        }),
{
}

/// A detection of the zoom level leaves the older layer versions alone.
/// Where at most two are kept, as every eviction leaves it, the versions
/// afterwards are those before, or those before with one more than the
/// newest at their end: never more than three, still in rising order, none
/// removed and none moved. With a step of the zoom level nothing is asked
/// for and nothing waits afterwards.
pub proof fn lemma_detection_keeps_layers(
    viewer: TileMapResources,
    viewport_width: u64,
    camera: (i64, i64),
)
    requires
        viewer.wf(),
        viewer.chunk_manager@.layers.len() <= RETAINED_OLDER_LAYERS,
    ensures
        ({
            let before = viewer.chunk_manager@.layers;
            let after = viewer.chunks_after_detection(viewport_width, camera);
            let stepped = viewer.zoom_manager.step_for(viewport_width) != ZoomStep::Stay;
            &&& after.layers == before || after.layers == before.push(
                (before.last() + 1) as u64,
            )
            &&& !stepped ==> after.layers == before
            &&& stepped && before.last() < u64::MAX ==> after.layers == before.push(
                (before.last() + 1) as u64,
            )
            &&& after.layers.len() <= RETAINED_OLDER_LAYERS + 1
            &&& forall|i: int, j: int|
                0 <= i < j < after.layers.len() ==> after.layers[i] < after.layers[j]
            &&& stepped ==> after.spawned == Seq::<Cell>::empty() && after.pending == Seq::<
                (Cell, Seq<u8>),
            >::empty()
            &&& !stepped ==> after.spawned == viewer.chunk_manager@.spawned && after.pending
                == viewer.chunk_manager@.pending
        }),
{
    lemma_new_layer_keeps_bound(viewer.chunk_manager@);
}

/// A distance of less than a world, seen on the display, is at most `2^30`
/// tiles.
proof fn lemma_cell_of_local(distance: int, zoom: nat, tile_quality: u32)
    requires
        -0x1_0000_0000 < distance < 0x1_0000_0000,
        zoom <= MAX_TILE_ZOOM,
        tile_quality > 0,
    ensures
        -0x4000_0000 <= (distance * tile_quality / (tile_span(zoom) as int)) / (tile_quality as int)
            <= 0x4000_0000,
{
    let span = tile_span(zoom) as int;
    let q = tile_quality as int;
    lemma_span_bounds(zoom);
    let v = distance * q;
    lemma_fundamental_div_mod(v, span);
    lemma_mod_bound(v, span);
    let seen = v / span;
    lemma_fundamental_div_mod(seen, q);
    lemma_mod_bound(seen, q);
    let cell = seen / q;
    assert(-0x4000_0000 <= cell <= 0x4000_0000) by (nonlinear_arith)
        requires
            v == distance * q,
            v == span * seen + v % span,
            0 <= v % span < span,
            seen == q * cell + seen % q,
            0 <= seen % q < q,
            -0x1_0000_0000 < distance < 0x1_0000_0000,
            span >= 4,
            q > 0,
    ;
}

/// A distance of less than a tile, seen on the display, is at most a tile
/// quality.
proof fn lemma_near_local(distance: int, zoom: nat, tile_quality: u32)
    requires
        -(tile_span(zoom) as int) < distance < tile_span(zoom),
        zoom <= MAX_TILE_ZOOM,
    ensures
        -(tile_quality as int) <= distance * tile_quality / (tile_span(zoom) as int) <= tile_quality,
{
    let span = tile_span(zoom) as int;
    let q = tile_quality as int;
    lemma_span_bounds(zoom);
    let v = distance * q;
    lemma_fundamental_div_mod(v, span);
    lemma_mod_bound(v, span);
    let seen = v / span;
    assert(-q <= seen <= q) by (nonlinear_arith)
        requires
            v == distance * q,
            v == span * seen + v % span,
            0 <= v % span < span,
            -span < distance < span,
            span >= 4,
            q >= 0,
    ;
}

} // verus!
