//! The chunks of the map: which cells have been asked for, which tiles have
//! arrived and wait to be shown, which are on display, and under which layer
//! version. Every step of a tick is one method of [`ChunkManager`], stated as
//! a function on [`ChunkState`]; [`ChunkManager::poll`] runs them in their
//! order: eviction, reception, clean-up after a change of source, the
//! visibility scan, and materialisation.

use vstd::prelude::*;
use crate::display::Cell;
use crate::display::chunk_position;
use crate::display::chunk_position_of;
use crate::display::exponent_in_range;
use crate::display::is_out_of_range;
use crate::display::out_of_range_of;
use crate::errors::FetchError;

verus! {

/// Cells in each direction around the centre that a visibility scan covers.
pub const DEFAULT_SCAN_RADIUS: u32 = 4;

/// Layer versions that are kept besides the newest.
pub const RETAINED_OLDER_LAYERS: usize = 2;

/// Results that the queue between the fetches and the manager holds.
pub const RESULT_QUEUE_CAPACITY: usize = 10;

/// The order to fetch the tile of a cell.
#[derive(Debug, Clone, Copy, PartialEq, Eq)]
pub struct ChunkRequest {
    pub cell: Cell,
    /// The layer version under which the cell was asked for.
    pub layer: u64,
}

/// The outcome of a fetch as it comes back to the manager.
#[derive(Debug, PartialEq, Eq)]
pub struct ChunkArrival {
    pub cell: Cell,
    /// The layer version under which the cell was asked for.
    pub layer: u64,
    pub data: Result<Vec<u8>, FetchError>,
}

/// The outcome of a fetch as a mathematical value: the tile of a fetch that
/// succeeded, `None` for one that failed.
pub struct ArrivalView {
    pub cell: Cell,
    pub layer: u64,
    pub tile: Option<Seq<u8>>,
}

impl View for ChunkArrival {
    type V = ArrivalView;

    open spec fn view(&self) -> ArrivalView {
        ArrivalView {
            cell: self.cell,
            layer: self.layer,
            tile: match self.data {
                Ok(bytes) => Some(bytes@),
                Err(_) => None,
            },
        }
    }
}

/// A chunk that is on display.
#[derive(Debug, Clone, Copy, PartialEq, Eq)]
pub struct DisplayedChunk {
    pub cell: Cell,
    /// The layer version under which the chunk was put on display.
    pub layer: u64,
    /// Where the chunk stands on the display.
    pub position: (i128, i128),
}

/// A chunk that is to be put on display.
#[derive(Debug, Clone, PartialEq, Eq)]
pub struct ReadyChunk {
    pub chunk: DisplayedChunk,
    /// The exponent of the scale at which the chunk is shown.
    pub scale_exponent: i32,
    /// The pixels of the chunk.
    pub data: Vec<u8>,
}

/// A chunk that is to be put on display, as a mathematical value.
pub struct ReadyChunkView {
    pub chunk: DisplayedChunk,
    pub scale_exponent: i32,
    pub data: Seq<u8>,
}

impl View for ReadyChunk {
    type V = ReadyChunkView;

    open spec fn view(&self) -> ReadyChunkView {
        ReadyChunkView { chunk: self.chunk, scale_exponent: self.scale_exponent, data: self.data@ }
    }
}

/// The outcomes of a list as mathematical values.
pub open spec fn arrival_views(arrivals: Seq<ChunkArrival>) -> Seq<ArrivalView> {
    arrivals.map_values(|a: ChunkArrival| a@)
}

/// The chunks of a list as mathematical values.
pub open spec fn ready_views(ready: Seq<ReadyChunk>) -> Seq<ReadyChunkView> {
    ready.map_values(|r: ReadyChunk| r@)
}

/// The cells of one row of the grid: `width` cells from `(x0, y)` eastwards.
pub open spec fn row_cells(x0: int, y: int, width: nat) -> Seq<Cell> {
    Seq::new(width, |i: int| ((x0 + i) as i32, y as i32))
}

/// The cells of `rows` rows of `width` cells, row after row from `(x0, y0)`.
pub open spec fn block_cells(x0: int, y0: int, width: nat, rows: nat) -> Seq<Cell>
    decreases rows,
{
    if rows == 0 {
        Seq::empty()
    } else {
        block_cells(x0, y0, width, (rows - 1) as nat) + row_cells(x0, y0 + rows - 1, width)
    }
}

/// The square of cells that a visibility scan covers: every cell at most
/// `radius` steps from `center` along each axis, row by row.
pub open spec fn neighborhood(center: Cell, radius: u32) -> Seq<Cell> {
    block_cells(
        center.0 - radius,
        center.1 - radius,
        (2 * radius + 1) as nat,
        (2 * radius + 1) as nat,
    )
}

/// Every cell of the square around `center` has coordinates that a cell can
/// have.
pub open spec fn neighborhood_fits(center: Cell, radius: u32) -> bool {
    &&& i32::MIN <= center.0 - radius
    &&& center.0 + radius <= i32::MAX
    &&& i32::MIN <= center.1 - radius
    &&& center.1 + radius <= i32::MAX
}

/// The test that a cell is not among `cells`.
pub open spec fn not_in(cells: Seq<Cell>) -> spec_fn(Cell) -> bool {
    |c: Cell| !cells.contains(c)
}

/// The cells among `cells` that are not among `spawned`, in their order.
pub open spec fn missing_cells(spawned: Seq<Cell>, cells: Seq<Cell>) -> Seq<Cell> {
    cells.filter(not_in(spawned))
}

/// The cells of a list of waiting tiles.
pub open spec fn pending_cells(pending: Seq<(Cell, Seq<u8>)>) -> Seq<Cell> {
    pending.map_values(|e: (Cell, Seq<u8>)| e.0)
}

/// The cells of a list of chunks.
pub open spec fn chunk_cells(chunks: Seq<DisplayedChunk>) -> Seq<Cell> {
    chunks.map_values(|d: DisplayedChunk| d.cell)
}

/// The orders to fetch `cells` under `layer`.
pub open spec fn requests_for(cells: Seq<Cell>, layer: u64) -> Seq<ChunkRequest> {
    cells.map_values(|c: Cell| ChunkRequest { cell: c, layer })
}

/// The chunk that shows `cell` under `layer`: it stands where the cell times
/// the tile quality times the scale, less the displacement, puts it.
pub open spec fn shown_chunk(
    cell: Cell,
    layer: u64,
    tile_quality: u32,
    scale_exponent: i32,
    displacement: (i64, i64),
) -> DisplayedChunk {
    let place = chunk_position_of(cell, tile_quality, scale_exponent as int, displacement);
    DisplayedChunk { cell, layer, position: (place.0 as i128, place.1 as i128) }
}

/// The chunks that show `cells` under `layer`, in the order of the cells.
pub open spec fn shown_chunks(
    cells: Seq<Cell>,
    layer: u64,
    tile_quality: u32,
    scale_exponent: i32,
    displacement: (i64, i64),
) -> Seq<DisplayedChunk> {
    cells.map_values(|c: Cell| shown_chunk(c, layer, tile_quality, scale_exponent, displacement))
}

/// The chunks that the waiting tiles become, in the order of the tiles.
pub open spec fn ready_chunks(
    pending: Seq<(Cell, Seq<u8>)>,
    layer: u64,
    tile_quality: u32,
    scale_exponent: i32,
    displacement: (i64, i64),
) -> Seq<ReadyChunkView> {
    pending.map_values(
        |e: (Cell, Seq<u8>)|
            ReadyChunkView {
                chunk: shown_chunk(e.0, layer, tile_quality, scale_exponent, displacement),
                scale_exponent,
                data: e.1,
            },
    )
}

/// The test that a chunk belongs to `layer`.
pub open spec fn of_layer(layer: u64) -> spec_fn(DisplayedChunk) -> bool {
    |d: DisplayedChunk| d.layer == layer
}

/// The test that a chunk does not belong to `layer`.
pub open spec fn not_of_layer(layer: u64) -> spec_fn(DisplayedChunk) -> bool {
    |d: DisplayedChunk| d.layer != layer
}

/// The test that a chunk leaves the display at eviction: it belongs to the
/// oldest layer version while more than two are kept, or it is farther
/// from the camera than the retention radius.
pub open spec fn is_evicted(
    layers: Seq<u64>,
    camera: (i64, i64),
    tile_quality: u32,
    scale_exponent: i32,
) -> spec_fn(DisplayedChunk) -> bool {
    |d: DisplayedChunk|
        (layers.len() > RETAINED_OLDER_LAYERS && d.layer == layers[0]) || out_of_range_of(
            (d.position.0 as int, d.position.1 as int),
            camera,
            tile_quality,
            scale_exponent as int,
        )
}

/// The test that a chunk stays on display at eviction.
pub open spec fn is_kept(
    layers: Seq<u64>,
    camera: (i64, i64),
    tile_quality: u32,
    scale_exponent: i32,
) -> spec_fn(DisplayedChunk) -> bool {
    |d: DisplayedChunk| !is_evicted(layers, camera, tile_quality, scale_exponent)(d)
}

/// The chunks of the map as a mathematical value.
pub struct ChunkState {
    /// The cells that have been asked for, in the order of asking.
    pub spawned: Seq<Cell>,
    /// The tiles that have arrived and wait to be shown, in the order of
    /// arrival.
    pub pending: Seq<(Cell, Seq<u8>)>,
    /// The chunks on display.
    pub displayed: Seq<DisplayedChunk>,
    /// The layer versions that are kept, oldest first.
    pub layers: Seq<u64>,
    /// The offset, in display units, between the reference point and the
    /// origin of the display.
    pub offset: (i64, i64),
    /// The source of the tiles has changed and the chunks have not been
    /// cleared since.
    pub clean_due: bool,
}

impl ChunkState {
    /// The newest layer version: the one under which cells are asked for and
    /// chunks are shown.
    pub open spec fn current_layer(self) -> u64 {
        self.layers.last()
    }

    /// No cell is asked for twice and no tile waits twice; between one and
    /// three layer versions are kept, in rising order; every chunk on
    /// display belongs to one of them.
    pub open spec fn wf(self) -> bool {
        &&& self.spawned.no_duplicates()
        &&& pending_cells(self.pending).no_duplicates()
        &&& 1 <= self.layers.len() <= RETAINED_OLDER_LAYERS + 1
        &&& forall|i: int, j: int|
            0 <= i < j < self.layers.len() ==> self.layers[i] < self.layers[j]
        &&& forall|i: int|
            0 <= i < self.displayed.len() ==> self.layers.contains(
                (#[trigger] self.displayed[i]).layer,
            )
    }

    /// The cells that a visibility scan around `center` asks for: those of
    /// the square that have not been asked for.
    pub open spec fn scan_cells(self, center: Cell, radius: u32) -> Seq<Cell> {
        missing_cells(self.spawned, neighborhood(center, radius))
    }

    /// The state after a visibility scan.
    pub open spec fn after_scan(self, center: Cell, radius: u32) -> ChunkState {
        ChunkState { spawned: self.spawned + self.scan_cells(center, radius), ..self }
    }

    /// Whether the outcome of a fetch is taken up: it carries a tile, it was
    /// asked for under the newest layer version, its cell is still asked
    /// for, and no tile waits for that cell yet.
    pub open spec fn accepts(self, arrival: ArrivalView) -> bool {
        &&& arrival.tile.is_some()
        &&& arrival.layer == self.current_layer()
        &&& self.spawned.contains(arrival.cell)
        &&& !pending_cells(self.pending).contains(arrival.cell)
    }

    /// The state after the outcome of one fetch has come in.
    pub open spec fn after_arrival(self, arrival: ArrivalView) -> ChunkState {
        if self.accepts(arrival) {
            ChunkState { pending: self.pending.push((arrival.cell, arrival.tile.unwrap())), ..self }
        } else {
            self
        }
    }

    /// The state after the first `n` of `arrivals` have come in, one after
    /// the other.
    pub open spec fn after_arrivals(self, arrivals: Seq<ArrivalView>, n: nat) -> ChunkState
        decreases n,
    {
        if n == 0 {
            self
        } else {
            self.after_arrivals(arrivals, (n - 1) as nat).after_arrival(arrivals[n - 1])
        }
    }

    /// The chunks that materialisation puts on display.
    pub open spec fn ready(self, tile_quality: u32, scale_exponent: i32) -> Seq<ReadyChunkView> {
        ready_chunks(self.pending, self.current_layer(), tile_quality, scale_exponent, self.offset)
    }

    /// The state after materialisation: every waiting tile is on display
    /// under the newest layer version and counts as asked for.
    pub open spec fn after_materialize(self, tile_quality: u32, scale_exponent: i32) -> ChunkState {
        ChunkState {
            spawned: self.spawned + missing_cells(self.spawned, pending_cells(self.pending)),
            pending: Seq::empty(),
            displayed: self.displayed + shown_chunks(
                pending_cells(self.pending),
                self.current_layer(),
                tile_quality,
                scale_exponent,
                self.offset,
            ),
            ..self
        }
    }

    /// The chunks that eviction takes from the display.
    pub open spec fn evicted(self, camera: (i64, i64), tile_quality: u32, scale_exponent: i32) -> Seq<
        DisplayedChunk,
    > {
        self.displayed.filter(is_evicted(self.layers, camera, tile_quality, scale_exponent))
    }

    /// The state after eviction: the chunks of the oldest layer version are
    /// gone and that version with them, once more than two are tracked; the
    /// chunks beyond the retention radius are gone; and the cells of all
    /// these chunks no longer count as asked for.
    pub open spec fn after_evict(self, camera: (i64, i64), tile_quality: u32, scale_exponent: i32) -> ChunkState {
        ChunkState {
            spawned: self.spawned.filter(
                not_in(chunk_cells(self.evicted(camera, tile_quality, scale_exponent))),
            ),
            displayed: self.displayed.filter(
                is_kept(self.layers, camera, tile_quality, scale_exponent),
            ),
            layers: if self.layers.len() > RETAINED_OLDER_LAYERS {
                self.layers.drop_first()
            } else {
                self.layers
            },
            ..self
        }
    }

    /// The counter of layer versions has come to its end: there is no
    /// version after the newest.
    pub open spec fn layers_exhausted(self) -> bool {
        self.current_layer() == u64::MAX
    }

    /// The oldest layer version makes room when a new one begins: three are
    /// kept already, and there is a new one to begin.
    pub open spec fn oldest_makes_room(self) -> bool {
        self.layers.len() > RETAINED_OLDER_LAYERS && !self.layers_exhausted()
    }

    /// The chunks that leave the display when a new layer version begins:
    /// those of the oldest version, if it makes room.
    pub open spec fn superseded(self) -> Seq<DisplayedChunk> {
        if self.oldest_makes_room() {
            self.displayed.filter(of_layer(self.layers[0]))
        } else {
            Seq::empty()
        }
    }

    /// The layer versions after a new one has begun: the newest is one more
    /// than the newest before, and where three were kept, the oldest has
    /// made room. At the end of the counter the versions stay as they are.
    pub open spec fn layers_after_new_layer(self) -> Seq<u64> {
        if self.layers_exhausted() {
            self.layers
        } else {
            (if self.layers.len() > RETAINED_OLDER_LAYERS {
                self.layers.drop_first()
            } else {
                self.layers
            }).push((self.current_layer() + 1) as u64)
        }
    }

    /// The state after a new layer version has begun: nothing is asked for
    /// and nothing waits, the versions are those of
    /// [`Self::layers_after_new_layer`], and the chunks of a version that
    /// has made room have left the display.
    pub open spec fn after_new_layer(self) -> ChunkState {
        ChunkState {
            spawned: Seq::empty(),
            pending: Seq::empty(),
            displayed: if self.oldest_makes_room() {
                self.displayed.filter(not_of_layer(self.layers[0]))
            } else {
                self.displayed
            },
            layers: self.layers_after_new_layer(),
            ..self
        }
    }

    /// The chunks that the clean-up takes from the display: all of them, if
    /// a clean-up is due.
    pub open spec fn cleaned(self) -> Seq<DisplayedChunk> {
        if self.clean_due {
            self.displayed
        } else {
            Seq::empty()
        }
    }

    /// The state after the clean-up: if one was due, nothing is on display,
    /// asked for or waiting.
    pub open spec fn after_clean(self) -> ChunkState {
        if self.clean_due {
            ChunkState {
                spawned: Seq::empty(),
                pending: Seq::empty(),
                displayed: Seq::empty(),
                clean_due: false,
                ..self
            }
        } else {
            self
        }
    }

    /// The state after the steps of a tick up to the scan: eviction, the
    /// outcomes that have come in, and the clean-up.
    pub open spec fn before_scan(
        self,
        arrivals: Seq<ArrivalView>,
        camera: (i64, i64),
        tile_quality: u32,
        scale_exponent: i32,
    ) -> ChunkState {
        self.after_evict(camera, tile_quality, scale_exponent).after_arrivals(
            arrivals,
            arrivals.len(),
        ).after_clean()
    }

    /// The state after the scan of a tick, if one is asked for.
    pub open spec fn after_optional_scan(self, scan: Option<Cell>, radius: u32) -> ChunkState {
        match scan {
            Some(center) => self.after_scan(center, radius),
            None => self,
        }
    }
}

/// The chunks of the map and their layer versions.
#[derive(Debug)]
pub struct ChunkManager {
    spawned_chunks: Vec<Cell>,
    to_spawn_chunks: Vec<(Cell, Vec<u8>)>,
    displayed_chunks: Vec<DisplayedChunk>,
    displacement: (i64, i64),
    layer_management: Vec<u64>,
    clean: bool,
}

impl View for ChunkManager {
    type V = ChunkState;

    closed spec fn view(&self) -> ChunkState {
        ChunkState {
            spawned: self.spawned_chunks@,
            pending: self.to_spawn_chunks@.map_values(|e: (Cell, Vec<u8>)| (e.0, e.1@)),
            displayed: self.displayed_chunks@,
            layers: self.layer_management@,
            offset: self.displacement,
            clean_due: self.clean,
        }
    }
}

impl Default for ChunkManager {
    /// A manager without chunks, with the single layer version 0.
    fn default() -> (manager: Self)
        ensures
            manager.wf(),
            manager@ == ChunkManager::new_state(),
    {
        ChunkManager::new()
    }
}

/// What a tick hands back to the host.
#[derive(Debug)]
pub struct TickOutcome {
    /// The chunks that leave the display, those of the eviction first.
    pub removed: Vec<DisplayedChunk>,
    /// The orders to fetch the cells that the scan has asked for.
    pub requests: Vec<ChunkRequest>,
    /// The chunks that are put on display.
    pub ready: Vec<ReadyChunk>,
}

fn contains_cell(cells: &Vec<Cell>, cell: Cell) -> (found: bool)
    ensures
        found == cells@.contains(cell),
{
    let mut i: usize = 0;
    while i < cells.len()
        invariant
            i <= cells@.len(),
            forall|k: int| 0 <= k < i ==> cells@[k] != cell,
        decreases cells@.len() - i,
    {
        if cells[i].0 == cell.0 && cells[i].1 == cell.1 {
            return true;
        }
        i = i + 1;
    }
    false
}

fn contains_chunk_cell(chunks: &Vec<DisplayedChunk>, cell: Cell) -> (found: bool)
    ensures
        found == chunk_cells(chunks@).contains(cell),
{
    let ghost cells = chunk_cells(chunks@);
    let mut i: usize = 0;
    while i < chunks.len()
        invariant
            i <= chunks@.len(),
            cells == chunk_cells(chunks@),
            forall|k: int| 0 <= k < i ==> cells[k] != cell,
        decreases chunks@.len() - i,
    {
        assert(cells[i as int] == chunks@[i as int].cell);
        if chunks[i].cell.0 == cell.0 && chunks[i].cell.1 == cell.1 {
            return true;
        }
        i = i + 1;
    }
    false
}

impl ChunkManager {
    /// The state is well formed.
    pub open spec fn wf(&self) -> bool {
        self@.wf()
    }

    /// The state of a manager without chunks, with the single layer
    /// version 0.
    pub open spec fn new_state() -> ChunkState {
        ChunkState {
            spawned: Seq::empty(),
            pending: Seq::empty(),
            displayed: Seq::empty(),
            layers: seq![0u64],
            offset: (0i64, 0i64),
            clean_due: false,
        }
    }

    /// A manager without chunks, with the single layer version 0.
    pub fn new() -> (manager: Self)
        ensures
            manager.wf(),
            manager@ == Self::new_state(),
    {
        let mut layer_management: Vec<u64> = Vec::new();
        layer_management.push(0);
        let manager = ChunkManager {
            spawned_chunks: Vec::new(),
            to_spawn_chunks: Vec::new(),
            displayed_chunks: Vec::new(),
            displacement: (0, 0),
            layer_management,
            clean: false,
        };
        assert(manager@.pending =~= Seq::<(Cell, Seq<u8>)>::empty());
        assert(manager@.layers =~= seq![0u64]);
        assert(pending_cells(manager@.pending) =~= Seq::<Cell>::empty());
        manager
    }

    /// The newest layer version.
    pub fn layer(&self) -> (layer: u64)
        requires
            self.wf(),
        ensures
            layer == self@.current_layer(),
    {
        self.layer_management[self.layer_management.len() - 1]
    }

    /// The number of layer versions that are kept.
    pub fn layer_count(&self) -> (n: usize)
        ensures
            n == self@.layers.len(),
    {
        self.layer_management.len()
    }

    /// The offset between the reference point and the origin of the display.
    pub fn displacement(&self) -> (d: (i64, i64))
        ensures
            d == self@.offset,
    {
        self.displacement
    }

    /// Sets the offset between the reference point and the origin of the
    /// display. Chunks that are on display stay where they are.
    pub fn set_displacement(&mut self, displacement: (i64, i64))
        ensures
            final(self)@ == (ChunkState { offset: displacement, ..old(self)@ }),
    {
        self.displacement = displacement;
    }

    /// Asks for a clean-up: the next one clears every chunk.
    pub fn request_clean(&mut self)
        ensures
            final(self)@ == (ChunkState { clean_due: true, ..old(self)@ }),
    {
        self.clean = true;
    }

    /// Tells whether a cell has been asked for.
    pub fn is_spawned(&self, cell: Cell) -> (found: bool)
        ensures
            found == self@.spawned.contains(cell),
    {
        contains_cell(&self.spawned_chunks, cell)
    }

    /// Tells whether a tile waits for `cell`.
    pub fn is_pending(&self, cell: Cell) -> (found: bool)
        ensures
            found == pending_cells(self@.pending).contains(cell),
    {
        let ghost cells = pending_cells(self@.pending);
        let mut i: usize = 0;
        while i < self.to_spawn_chunks.len()
            invariant
                i <= self.to_spawn_chunks@.len(),
                cells == pending_cells(self@.pending),
                cells.len() == self.to_spawn_chunks@.len(),
                forall|k: int| 0 <= k < i ==> cells[k] != cell,
            decreases self.to_spawn_chunks@.len() - i,
        {
            let entry = &self.to_spawn_chunks[i];
            assert(cells[i as int] == entry.0);
            if entry.0.0 == cell.0 && entry.0.1 == cell.1 {
                return true;
            }
            i = i + 1;
        }
        false
    }

    /// The number of cells that have been asked for.
    pub fn spawned_count(&self) -> (n: usize)
        ensures
            n == self@.spawned.len(),
    {
        self.spawned_chunks.len()
    }

    /// The number of tiles that wait to be shown.
    pub fn pending_count(&self) -> (n: usize)
        ensures
            n == self@.pending.len(),
    {
        self.to_spawn_chunks.len()
    }

    /// The number of chunks on display.
    pub fn displayed_count(&self) -> (n: usize)
        ensures
            n == self@.displayed.len(),
    {
        self.displayed_chunks.len()
    }

    /// The visibility scan: asks for every cell of the square around
    /// `center` that has not been asked for yet, and returns the orders to
    /// fetch them, row by row. A cell that has been asked for is never asked
    /// for again while it stays so.
    pub fn spawn_chunks_around_middle(&mut self, center: Cell, radius: u32) -> (requests: Vec<
        ChunkRequest,
    >)
        requires
            old(self).wf(),
            neighborhood_fits(center, radius),
        ensures
            final(self).wf(),
            final(self)@ == old(self)@.after_scan(center, radius),
            requests@ == requests_for(
                old(self)@.scan_cells(center, radius),
                old(self)@.current_layer(),
            ),
            old(self)@.scan_cells(center, radius).no_duplicates(),
    {
        let layer = self.layer();
        let x0: i64 = center.0 as i64 - radius as i64;
        let y0: i64 = center.1 as i64 - radius as i64;
        let width: i64 = 2 * (radius as i64) + 1;
        let ghost before = self@.spawned;
        let ghost test = not_in(before);
        let ghost w = width as nat;
        let mut fresh: Vec<Cell> = Vec::new();
        let mut row: i64 = 0;
        assert(block_cells(x0 as int, y0 as int, w, 0).filter(test) =~= Seq::<Cell>::empty());
        while row < width
            invariant
                0 <= row <= width,
                width == 2 * radius + 1,
                w == width as nat,
                x0 == center.0 - radius,
                y0 == center.1 - radius,
                neighborhood_fits(center, radius),
                *self == *old(self),
                self.spawned_chunks@ == before,
                test == not_in(before),
                fresh@ == block_cells(x0 as int, y0 as int, w, row as nat).filter(test),
                fresh@.no_duplicates(),
                forall|k: int| 0 <= k < fresh@.len() ==> !before.contains(#[trigger] fresh@[k]),
                forall|k: int| 0 <= k < fresh@.len() ==> (#[trigger] fresh@[k]).1 < y0 + row,
            decreases width - row,
        {
            let y: i32 = (y0 + row) as i32;
            let ghost done = fresh@;
            let ghost cells = row_cells(x0 as int, y0 + row, w);
            let mut col: i64 = 0;
            assert(cells.take(0).filter(test) =~= Seq::<Cell>::empty());
            assert(done + Seq::<Cell>::empty() =~= done);
            while col < width
                invariant
                    0 <= col <= width,
                    0 <= row < width,
                    width == 2 * radius + 1,
                    w == width as nat,
                    x0 == center.0 - radius,
                    y0 == center.1 - radius,
                    y == y0 + row,
                    neighborhood_fits(center, radius),
                    *self == *old(self),
                    self.spawned_chunks@ == before,
                    test == not_in(before),
                    cells == row_cells(x0 as int, y0 + row, w),
                    fresh@ == done + cells.take(col as int).filter(test),
                    fresh@.no_duplicates(),
                    forall|k: int| 0 <= k < fresh@.len() ==> !before.contains(#[trigger] fresh@[k]),
                    forall|k: int|
                        0 <= k < fresh@.len() ==> (#[trigger] fresh@[k]).1 < y || (fresh@[k].1 == y
                            && fresh@[k].0 < x0 + col),
                decreases width - col,
            {
                let cell: Cell = ((x0 + col) as i32, y);
                let ghost sofar = cells.take(col as int);
                proof {
                    assert(cells[col as int] == cell);
                    assert(cells.take(col + 1) =~= sofar.push(cell));
                    sofar.lemma_filter_push(cell, test);
                }
                if !contains_cell(&self.spawned_chunks, cell) {
                    fresh.push(cell);
                    assert(fresh@ =~= done + sofar.push(cell).filter(test));
                }
                col = col + 1;
            }
            proof {
                assert(cells.take(width as int) =~= cells);
                Seq::filter_distributes_over_add(
                    block_cells(x0 as int, y0 as int, w, row as nat),
                    cells,
                    test,
                );
            }
            row = row + 1;
        }
        assert(fresh@ == old(self)@.scan_cells(center, radius));
        let mut requests: Vec<ChunkRequest> = Vec::new();
        let mut i: usize = 0;
        assert(requests@ =~= requests_for(fresh@.take(0), layer));
        while i < fresh.len()
            invariant
                i <= fresh@.len(),
                requests@ == requests_for(fresh@.take(i as int), layer),
            decreases fresh@.len() - i,
        {
            let cell = fresh[i];
            requests.push(ChunkRequest { cell, layer });
            proof {
                assert(fresh@.take(i + 1) =~= fresh@.take(i as int).push(cell));
                assert(requests@ =~= requests_for(fresh@.take(i + 1), layer));
            }
            i = i + 1;
        }
        assert(fresh@.take(fresh@.len() as int) =~= fresh@);
        self.add_fresh_cells(&fresh);
        requests
    }

    /// Adds cells that are not asked for yet to those that are.
    fn add_fresh_cells(&mut self, fresh: &Vec<Cell>)
        requires
            old(self)@.spawned.no_duplicates(),
            fresh@.no_duplicates(),
            forall|k: int| 0 <= k < fresh@.len() ==> !old(self)@.spawned.contains(#[trigger] fresh@[k]),
        ensures
            final(self)@ == (ChunkState { spawned: old(self)@.spawned + fresh@, ..old(self)@ }),
            final(self)@.spawned.no_duplicates(),
    {
        let ghost before = self@.spawned;
        let mut i: usize = 0;
        assert(before + fresh@.take(0) =~= before);
        while i < fresh.len()
            invariant
                i <= fresh@.len(),
                self.spawned_chunks@ == before + fresh@.take(i as int),
                self.to_spawn_chunks == old(self).to_spawn_chunks,
                self.displayed_chunks == old(self).displayed_chunks,
                self.layer_management == old(self).layer_management,
                self.displacement == old(self).displacement,
                self.clean == old(self).clean,
            decreases fresh@.len() - i,
        {
            self.spawned_chunks.push(fresh[i]);
            assert(fresh@.take(i + 1) =~= fresh@.take(i as int).push(fresh@[i as int]));
            assert(self.spawned_chunks@ =~= before + fresh@.take(i + 1));
            i = i + 1;
        }
        proof {
            assert(fresh@.take(fresh@.len() as int) =~= fresh@);
            lemma_append_fresh_no_duplicates(before, fresh@);
        }
    }

    /// Takes up the outcome of one fetch. A tile joins the waiting ones only
    /// if [`ChunkState::accepts`] holds of it; a failed fetch, a tile of a
    /// superseded layer version, a tile whose cell is no longer asked for
    /// and a second tile for one cell are dropped.
    pub fn receive_chunk(&mut self, arrival: ChunkArrival) -> (promoted: bool)
        requires
            old(self).wf(),
        ensures
            final(self).wf(),
            promoted == old(self)@.accepts(arrival@),
            final(self)@ == old(self)@.after_arrival(arrival@),
    {
        let cell = arrival.cell;
        let layer = arrival.layer;
        match arrival.data {
            Ok(data) => {
                if layer != self.layer() || !contains_cell(&self.spawned_chunks, cell)
                    || self.is_pending(cell) {
                    return false;
                }
                let ghost waiting = self@.pending;
                self.to_spawn_chunks.push((cell, data));
                proof {
                    assert(self@.pending =~= waiting.push((cell, data@)));
                    assert(pending_cells(self@.pending) =~= pending_cells(waiting).push(cell));
                    lemma_push_fresh_no_duplicates(pending_cells(waiting), cell);
                    assert(self@.spawned == old(self)@.spawned);
                    assert(self@.layers == old(self)@.layers);
                    assert(self@.displayed == old(self)@.displayed);
                }
                true
            },
            Err(_) => false,
        }
    }

    /// Takes up the outcomes of fetches in the order in which they came in.
    pub fn receive_chunks(&mut self, arrivals: Vec<ChunkArrival>) -> (promoted: usize)
        requires
            old(self).wf(),
        ensures
            final(self).wf(),
            final(self)@ == old(self)@.after_arrivals(arrival_views(arrivals@), arrivals@.len()),
            promoted <= arrivals@.len(),
    {
        let ghost views = arrival_views(arrivals@);
        let total: usize = arrivals.len();
        let mut promoted: usize = 0;
        for arrival in iter: arrivals
            invariant
                iter.seq() == arrivals@,
                arrivals@.len() == total,
                views == arrival_views(arrivals@),
                self.wf(),
                self@ == old(self)@.after_arrivals(views, iter.index() as nat),
                promoted <= iter.index(),
        {
            assert(views[iter.index() as int] == arrival@);
            if self.receive_chunk(arrival) {
                promoted = promoted + 1;
            }
        }
        promoted
    }

    /// Materialisation: every waiting tile is put on display under the
    /// newest layer version, at the place of its cell, and counts as asked
    /// for; no tile waits afterwards. The chunks are returned in the order in
    /// which their tiles arrived.
    pub fn spawn_to_needed_chunks(&mut self, tile_quality: u32, scale_exponent: i32) -> (ready: Vec<
        ReadyChunk,
    >)
        requires
            old(self).wf(),
            exponent_in_range(scale_exponent as int),
        ensures
            final(self).wf(),
            final(self)@ == old(self)@.after_materialize(tile_quality, scale_exponent),
            ready_views(ready@) == old(self)@.ready(tile_quality, scale_exponent),
    {
        let layer = self.layer();
        let displacement = self.displacement;
        let ghost waiting = self@.pending;
        let ghost cells = pending_cells(waiting);
        let ghost before = self@.spawned;
        let ghost shown = self@.displayed;
        let ghost test = not_in(before);
        let mut taken: Vec<(Cell, Vec<u8>)> = Vec::new();
        std::mem::swap(&mut self.to_spawn_chunks, &mut taken);
        let mut ready: Vec<ReadyChunk> = Vec::new();
        let mut fresh: Vec<Cell> = Vec::new();
        assert(cells.take(0).filter(test) =~= Seq::<Cell>::empty());
        assert(self@.pending =~= Seq::<(Cell, Seq<u8>)>::empty());
        assert(shown + shown_chunks(cells.take(0), layer, tile_quality, scale_exponent, displacement)
            =~= shown);
        assert(ready_views(ready@) =~= ready_chunks(
            waiting.take(0),
            layer,
            tile_quality,
            scale_exponent,
            displacement,
        ));
        for entry in iter: taken
            invariant
                iter.seq().map_values(|e: (Cell, Vec<u8>)| (e.0, e.1@)) == waiting,
                cells == pending_cells(waiting),
                test == not_in(before),
                exponent_in_range(scale_exponent as int),
                self.spawned_chunks@ == before,
                self.to_spawn_chunks@.len() == 0,
                self.layer_management == old(self).layer_management,
                self.displacement == old(self).displacement,
                self.clean == old(self).clean,
                self.displayed_chunks@ == shown + shown_chunks(
                    cells.take(iter.index() as int),
                    layer,
                    tile_quality,
                    scale_exponent,
                    displacement,
                ),
                ready_views(ready@) == ready_chunks(
                    waiting.take(iter.index() as int),
                    layer,
                    tile_quality,
                    scale_exponent,
                    displacement,
                ),
                fresh@ == cells.take(iter.index() as int).filter(test),
        {
            let ghost n = iter.index() as int;
            let (cell, data) = entry;
            proof {
                assert(waiting[n] == (cell, data@));
                assert(cells[n] == cell);
                assert(cells.take(n + 1) =~= cells.take(n).push(cell));
                assert(waiting.take(n + 1) =~= waiting.take(n).push((cell, data@)));
                cells.take(n).lemma_filter_push(cell, test);
            }
            let position = chunk_position(cell, tile_quality, scale_exponent, displacement);
            let chunk = DisplayedChunk { cell, layer, position };
            assert(chunk == shown_chunk(cell, layer, tile_quality, scale_exponent, displacement));
            if !contains_cell(&self.spawned_chunks, cell) {
                fresh.push(cell);
            }
            let ghost made = ready_views(ready@);
            let ghost bytes = data@;
            self.displayed_chunks.push(chunk);
            ready.push(ReadyChunk { chunk, scale_exponent, data });
            proof {
                assert(ready_views(ready@) =~= made.push(
                    ReadyChunkView { chunk, scale_exponent, data: bytes },
                ));
                assert(self.displayed_chunks@ =~= shown + shown_chunks(
                    cells.take(n + 1),
                    layer,
                    tile_quality,
                    scale_exponent,
                    displacement,
                ));
                assert(ready_views(ready@) =~= ready_chunks(
                    waiting.take(n + 1),
                    layer,
                    tile_quality,
                    scale_exponent,
                    displacement,
                ));
            }
        }
        proof {
            assert(cells.take(cells.len() as int) =~= cells);
            assert(waiting.take(waiting.len() as int) =~= waiting);
            lemma_filter_keeps_no_duplicates(cells, test);
        }
        self.add_fresh_cells(&fresh);
        proof {
            assert(self@.pending =~= Seq::<(Cell, Seq<u8>)>::empty());
            assert(pending_cells(self@.pending) =~= Seq::<Cell>::empty());
            let after = self@.displayed;
            assert forall|i: int| 0 <= i < after.len() implies self@.layers.contains(
                (#[trigger] after[i]).layer,
            ) by {
                if i >= shown.len() {
                    let k = i - shown.len();
                    assert(after[i] == shown_chunk(
                        cells[k],
                        layer,
                        tile_quality,
                        scale_exponent,
                        displacement,
                    ));
                    assert(self@.layers[self@.layers.len() - 1] == layer);
                } else {
                    assert(after[i] == old(self)@.displayed[i]);
                }
            }
        }
        ready
    }

    /// Eviction: takes from the display the chunks of the oldest layer
    /// version, once more than two versions are kept, and the chunks that
    /// are farther from the camera than the retention radius. The oldest
    /// version is then no longer kept, and the cells of the chunks that
    /// left no longer count as asked for. Returns the chunks that left.
    pub fn despawn_outofrange_chunks(
        &mut self,
        camera: (i64, i64),
        tile_quality: u32,
        scale_exponent: i32,
    ) -> (removed: Vec<DisplayedChunk>)
        requires
            old(self).wf(),
            exponent_in_range(scale_exponent as int),
        ensures
            final(self).wf(),
            final(self)@ == old(self)@.after_evict(camera, tile_quality, scale_exponent),
            removed@ == old(self)@.evicted(camera, tile_quality, scale_exponent),
    {
        let due: bool = self.layer_management.len() > RETAINED_OLDER_LAYERS;
        let oldest: u64 = self.layer_management[0];
        let ghost layers = self@.layers;
        let ghost shown = self@.displayed;
        let ghost gone = is_evicted(layers, camera, tile_quality, scale_exponent);
        let ghost stay = is_kept(layers, camera, tile_quality, scale_exponent);
        let mut kept: Vec<DisplayedChunk> = Vec::new();
        let mut removed: Vec<DisplayedChunk> = Vec::new();
        let mut i: usize = 0;
        assert(shown.take(0).filter(stay) =~= Seq::<DisplayedChunk>::empty());
        assert(shown.take(0).filter(gone) =~= Seq::<DisplayedChunk>::empty());
        while i < self.displayed_chunks.len()
            invariant
                i <= shown.len(),
                *self == *old(self),
                old(self).wf(),
                exponent_in_range(scale_exponent as int),
                shown == self.displayed_chunks@,
                layers == old(self)@.layers,
                due == (layers.len() > RETAINED_OLDER_LAYERS),
                oldest == layers[0],
                gone == is_evicted(layers, camera, tile_quality, scale_exponent),
                stay == is_kept(layers, camera, tile_quality, scale_exponent),
                kept@ == shown.take(i as int).filter(stay),
                removed@ == shown.take(i as int).filter(gone),
            decreases shown.len() - i,
        {
            let chunk = self.displayed_chunks[i];
            proof {
                assert(shown[i as int] == chunk);
                assert(shown.take(i + 1) =~= shown.take(i as int).push(chunk));
                shown.take(i as int).lemma_filter_push(chunk, stay);
                shown.take(i as int).lemma_filter_push(chunk, gone);
            }
            let leaves: bool = (due && chunk.layer == oldest) || is_out_of_range(
                chunk.position,
                camera,
                tile_quality,
                scale_exponent,
            );
            assert(leaves == gone(chunk));
            if leaves {
                removed.push(chunk);
            } else {
                kept.push(chunk);
            }
            i = i + 1;
        }
        assert(shown.take(shown.len() as int) =~= shown);
        let ghost before = self@.spawned;
        let ghost test = not_in(chunk_cells(removed@));
        let mut cells: Vec<Cell> = Vec::new();
        let mut j: usize = 0;
        assert(before.take(0).filter(test) =~= Seq::<Cell>::empty());
        while j < self.spawned_chunks.len()
            invariant
                j <= before.len(),
                *self == *old(self),
                before == self.spawned_chunks@,
                test == not_in(chunk_cells(removed@)),
                cells@ == before.take(j as int).filter(test),
            decreases before.len() - j,
        {
            let cell = self.spawned_chunks[j];
            proof {
                assert(before.take(j + 1) =~= before.take(j as int).push(cell));
                before.take(j as int).lemma_filter_push(cell, test);
            }
            if !contains_chunk_cell(&removed, cell) {
                cells.push(cell);
            }
            j = j + 1;
        }
        assert(before.take(before.len() as int) =~= before);
        self.displayed_chunks = kept;
        self.spawned_chunks = cells;
        if due {
            self.layer_management.remove(0);
            assert(self.layer_management@ =~= layers.drop_first());
        }
        proof {
            lemma_filter_keeps_no_duplicates(before, test);
            lemma_filter_elements(shown, stay);
            let after = self@.displayed;
            let versions = self@.layers;
            assert(self@.pending == old(self)@.pending);
            assert forall|k: int| 0 <= k < after.len() implies versions.contains(
                (#[trigger] after[k]).layer,
            ) by {
                let chunk = after[k];
                assert(shown.contains(chunk) && stay(chunk));
                let w = choose|w: int| 0 <= w < shown.len() && shown[w] == chunk;
                assert(layers.contains(shown[w].layer));
                let at = choose|at: int| 0 <= at < layers.len() && layers[at] == chunk.layer;
                if due {
                    assert(at != 0);
                    assert(versions[at - 1] == chunk.layer);
                }
            }
            assert forall|a: int, b: int| 0 <= a < b < versions.len() implies versions[a]
                < versions[b] by {
                if due {
                    assert(layers[a + 1] < layers[b + 1]);
                }
            }
        }
        removed
    }

    /// Begins a new layer version, one more than the newest: nothing is
    /// asked for and nothing waits under it yet. Where three versions are
    /// kept already, the oldest makes room and its chunks leave the display.
    /// At the end of the counter of versions the newest version stays the
    /// newest, and nothing is asked for or waiting under it any more.
    /// Returns the chunks that left.
    pub fn begin_layer(&mut self) -> (removed: Vec<DisplayedChunk>)
        requires
            old(self).wf(),
        ensures
            final(self).wf(),
            final(self)@ == old(self)@.after_new_layer(),
            removed@ == old(self)@.superseded(),
    {
        let newest: u64 = self.layer();
        let ghost layers = self@.layers;
        let ghost shown = self@.displayed;
        let mut removed: Vec<DisplayedChunk> = Vec::new();
        if newest < u64::MAX {
            if self.layer_management.len() > RETAINED_OLDER_LAYERS {
                let oldest: u64 = self.layer_management[0];
                let ghost gone = of_layer(oldest);
                let ghost stay = not_of_layer(oldest);
                let mut kept: Vec<DisplayedChunk> = Vec::new();
                let mut i: usize = 0;
                assert(shown.take(0).filter(stay) =~= Seq::<DisplayedChunk>::empty());
                assert(shown.take(0).filter(gone) =~= Seq::<DisplayedChunk>::empty());
                while i < self.displayed_chunks.len()
                    invariant
                        i <= shown.len(),
                        *self == *old(self),
                        shown == self.displayed_chunks@,
                        gone == of_layer(oldest),
                        stay == not_of_layer(oldest),
                        kept@ == shown.take(i as int).filter(stay),
                        removed@ == shown.take(i as int).filter(gone),
                    decreases shown.len() - i,
                {
                    let chunk = self.displayed_chunks[i];
                    proof {
                        assert(shown.take(i + 1) =~= shown.take(i as int).push(chunk));
                        shown.take(i as int).lemma_filter_push(chunk, stay);
                        shown.take(i as int).lemma_filter_push(chunk, gone);
                    }
                    if chunk.layer == oldest {
                        removed.push(chunk);
                    } else {
                        kept.push(chunk);
                    }
                    i = i + 1;
                }
                assert(shown.take(shown.len() as int) =~= shown);
                self.displayed_chunks = kept;
                self.layer_management.remove(0);
                assert(self.layer_management@ =~= layers.drop_first());
            }
            self.layer_management.push(newest + 1);
        }
        self.spawned_chunks = Vec::new();
        self.to_spawn_chunks = Vec::new();
        proof {
            assert(self@.pending =~= Seq::<(Cell, Seq<u8>)>::empty());
            assert(self@ == old(self)@.after_new_layer());
            lemma_new_layer_keeps_bound(old(self)@);
        }
        removed
    }

    /// The clean-up after a change of source: if one is due, every chunk
    /// leaves the display and nothing is asked for or waiting any more.
    /// Returns the chunks that left.
    pub fn clean_tile_map(&mut self) -> (removed: Vec<DisplayedChunk>)
        requires
            old(self).wf(),
        ensures
            final(self).wf(),
            final(self)@ == old(self)@.after_clean(),
            removed@ == old(self)@.cleaned(),
    {
        let mut removed: Vec<DisplayedChunk> = Vec::new();
        if self.clean {
            self.clean = false;
            std::mem::swap(&mut self.displayed_chunks, &mut removed);
            self.spawned_chunks = Vec::new();
            self.to_spawn_chunks = Vec::new();
            assert(self@.pending =~= Seq::<(Cell, Seq<u8>)>::empty());
            assert(pending_cells(self@.pending) =~= Seq::<Cell>::empty());
            assert(self@.displayed =~= Seq::<DisplayedChunk>::empty());
        }
        removed
    }

    /// One tick: eviction, then the outcomes that have come in, then the
    /// clean-up, then the visibility scan around `scan` if one is asked for,
    /// then materialisation, in this order, so that no chunk is shown that
    /// the same tick has marked to leave.
    pub fn poll(
        &mut self,
        arrivals: Vec<ChunkArrival>,
        camera: (i64, i64),
        scan: Option<Cell>,
        radius: u32,
        tile_quality: u32,
        scale_exponent: i32,
    ) -> (outcome: TickOutcome)
        requires
            old(self).wf(),
            exponent_in_range(scale_exponent as int),
            match scan {
                Some(center) => neighborhood_fits(center, radius),
                None => true,
            },
        ensures
            final(self).wf(),
            final(self)@ == old(self)@.before_scan(
                arrival_views(arrivals@),
                camera,
                tile_quality,
                scale_exponent,
            ).after_optional_scan(scan, radius).after_materialize(tile_quality, scale_exponent),
            outcome.removed@ == old(self)@.evicted(camera, tile_quality, scale_exponent) + old(
                self,
            )@.after_evict(camera, tile_quality, scale_exponent).after_arrivals(
                arrival_views(arrivals@),
                arrivals@.len(),
            ).cleaned(),
            outcome.requests@ == (match scan {
                Some(center) => requests_for(
                    old(self)@.before_scan(
                        arrival_views(arrivals@),
                        camera,
                        tile_quality,
                        scale_exponent,
                    ).scan_cells(center, radius),
                    old(self)@.before_scan(
                        arrival_views(arrivals@),
                        camera,
                        tile_quality,
                        scale_exponent,
                    ).current_layer(),
                ),
                None => Seq::empty(),
            }),
            ready_views(outcome.ready@) == old(self)@.before_scan(
                arrival_views(arrivals@),
                camera,
                tile_quality,
                scale_exponent,
            ).after_optional_scan(scan, radius).ready(tile_quality, scale_exponent),
    {
        let mut removed = self.despawn_outofrange_chunks(camera, tile_quality, scale_exponent);
        self.receive_chunks(arrivals);
        let mut cleaned = self.clean_tile_map();
        removed.append(&mut cleaned);
        let requests = match scan {
            Some(center) => self.spawn_chunks_around_middle(center, radius),
            None => Vec::new(),
        };
        let ready = self.spawn_to_needed_chunks(tile_quality, scale_exponent);
        TickOutcome { removed, requests, ready }
    }
}

/// A sequence without repeats stays so when an element that it lacks is
/// appended.
proof fn lemma_push_fresh_no_duplicates(s: Seq<Cell>, c: Cell)
    requires
        s.no_duplicates(),
        !s.contains(c),
    ensures
        s.push(c).no_duplicates(),
{
    let t = s.push(c);
    assert forall|i: int, j: int| 0 <= i < t.len() && 0 <= j < t.len() && i != j implies t[i]
        != t[j] by {
        if i < s.len() && j < s.len() {
            assert(s[i] != s[j]);
        } else if i < s.len() {
            assert(s.contains(s[i]));
        } else {
            assert(s.contains(s[j]));
        }
    }
}

/// Two sequences without repeats that share no element give a sequence
/// without repeats when joined.
proof fn lemma_append_fresh_no_duplicates(s: Seq<Cell>, fresh: Seq<Cell>)
    requires
        s.no_duplicates(),
        fresh.no_duplicates(),
        forall|k: int| 0 <= k < fresh.len() ==> !s.contains(#[trigger] fresh[k]),
    ensures
        (s + fresh).no_duplicates(),
{
    let t = s + fresh;
    assert forall|i: int, j: int| 0 <= i < t.len() && 0 <= j < t.len() && i != j implies t[i]
        != t[j] by {
        if i < s.len() && j < s.len() {
            assert(s[i] != s[j]);
        } else if i < s.len() {
            assert(s.contains(s[i]));
            assert(t[j] == fresh[j - s.len()]);
        } else if j < s.len() {
            assert(s.contains(s[j]));
            assert(t[i] == fresh[i - s.len()]);
        } else {
            assert(fresh[i - s.len()] != fresh[j - s.len()]);
        }
    }
}

/// What filtering leaves of a sequence are elements of the sequence that
/// pass the test.
proof fn lemma_filter_elements<A>(s: Seq<A>, test: spec_fn(A) -> bool)
    ensures
        forall|k: int|
            0 <= k < s.filter(test).len() ==> s.contains(#[trigger] s.filter(test)[k]) && test(
                s.filter(test)[k],
            ),
    decreases s.len(),
{
    reveal(Seq::filter);
    if s.len() > 0 {
        let rest = s.drop_last();
        let last = s.last();
        lemma_filter_elements(rest, test);
        let kept = rest.filter(test);
        assert forall|k: int| 0 <= k < kept.len() implies s.contains(#[trigger] kept[k]) by {
            assert(rest.contains(kept[k]));
            let w = choose|w: int| 0 <= w < rest.len() && rest[w] == kept[k];
            assert(s[w] == kept[k]);
        }
        if test(last) {
            let out = kept.push(last);
            assert(s.filter(test) == out);
            assert forall|k: int| 0 <= k < out.len() implies s.contains(#[trigger] out[k]) && test(
                out[k],
            ) by {
                if k == kept.len() {
                    assert(s[s.len() - 1] == last);
                }
            }
        }
    }
}

/// What filtering leaves of a sequence without repeats has no repeats
/// either.
proof fn lemma_filter_keeps_no_duplicates<A>(s: Seq<A>, test: spec_fn(A) -> bool)
    requires
        s.no_duplicates(),
    ensures
        s.filter(test).no_duplicates(),
        forall|k: int|
            0 <= k < s.filter(test).len() ==> s.contains(#[trigger] s.filter(test)[k]) && test(
                s.filter(test)[k],
            ),
    decreases s.len(),
{
    reveal(Seq::filter);
    lemma_filter_elements(s, test);
    if s.len() > 0 {
        let rest = s.drop_last();
        let last = s.last();
        assert forall|i: int, j: int|
            0 <= i < rest.len() && 0 <= j < rest.len() && i != j implies rest[i] != rest[j] by {
            assert(s[i] != s[j]);
        }
        lemma_filter_keeps_no_duplicates(rest, test);
        let kept = rest.filter(test);
        assert forall|k: int| 0 <= k < kept.len() implies #[trigger] kept[k] != last by {
            assert(rest.contains(kept[k]));
            let w = choose|w: int| 0 <= w < rest.len() && rest[w] == kept[k];
            assert(s[w] == kept[k]);
            assert(s[w] != s[s.len() - 1]);
        }
        if test(last) {
            let out = kept.push(last);
            assert(s.filter(test) == out);
            assert forall|i: int, j: int|
                0 <= i < out.len() && 0 <= j < out.len() && i != j implies out[i] != out[j] by {
                if i < kept.len() && j < kept.len() {
                    assert(kept[i] != kept[j]);
                }
            }
        }
    }
}

/// Filtering leaves nothing of a sequence none of whose elements passes the
/// test.
proof fn lemma_filter_none<A>(s: Seq<A>, test: spec_fn(A) -> bool)
    requires
        forall|i: int| 0 <= i < s.len() ==> !test(#[trigger] s[i]),
    ensures
        s.filter(test) == Seq::<A>::empty(),
    decreases s.len(),
{
    reveal(Seq::filter);
    if s.len() > 0 {
        let rest = s.drop_last();
        assert forall|i: int| 0 <= i < rest.len() implies !test(#[trigger] rest[i]) by {
            assert(rest[i] == s[i]);
        }
        lemma_filter_none(rest, test);
        assert(!test(s[s.len() - 1]));
    }
}

/// A cell that has been asked for is not asked for again: whatever the
/// centre and the radius, a visibility scan asks for no cell that counts as
/// asked for.
pub proof fn lemma_scan_skips_spawned_cells(state: ChunkState, center: Cell, radius: u32)
    ensures
        forall|c: Cell|
            state.spawned.contains(c) ==> !(#[trigger] state.scan_cells(center, radius).contains(c)),
{
    let cells = neighborhood(center, radius);
    let test = not_in(state.spawned);
    lemma_filter_elements(cells, test);
    assert forall|c: Cell| state.spawned.contains(c) implies !(#[trigger] state.scan_cells(
        center,
        radius,
    ).contains(c)) by {
        if state.scan_cells(center, radius).contains(c) {
            let k = choose|k: int|
                0 <= k < cells.filter(test).len() && cells.filter(test)[k] == c;
            assert(test(cells.filter(test)[k]));
        }
    }
}

/// A visibility scan that follows another around the same centre, with no
/// change to the cells that are asked for in between, asks for nothing: no
/// fetch is dispatched twice.
pub proof fn lemma_rescan_asks_for_nothing(state: ChunkState, center: Cell, radius: u32)
    ensures
        state.after_scan(center, radius).scan_cells(center, radius) == Seq::<Cell>::empty(),
{
    let cells = neighborhood(center, radius);
    let first = state.scan_cells(center, radius);
    let after = state.after_scan(center, radius);
    let test = not_in(after.spawned);
    assert forall|i: int| 0 <= i < cells.len() implies !test(#[trigger] cells[i]) by {
        let c = cells[i];
        if state.spawned.contains(c) {
            let w = choose|w: int| 0 <= w < state.spawned.len() && state.spawned[w] == c;
            assert(after.spawned[w] == c);
        } else {
            assert(not_in(state.spawned)(c));
            cells.lemma_filter_contains(not_in(state.spawned), i);
            let w = choose|w: int| 0 <= w < first.len() && first[w] == c;
            assert(after.spawned[state.spawned.len() + w] == c);
        }
    }
    lemma_filter_none(cells, test);
}

/// A new layer version keeps the state well formed: at most three versions
/// are kept, the newest among them, and every chunk on display belongs to
/// one of them. The newest version is one more than before, unless the
/// counter is at its end.
pub proof fn lemma_new_layer_keeps_bound(state: ChunkState)
    requires
        state.wf(),
    ensures
        state.after_new_layer().wf(),
        state.after_new_layer().layers.len() <= RETAINED_OLDER_LAYERS + 1,
        state.after_new_layer().current_layer() == (if state.layers_exhausted() {
            state.current_layer() as int
        } else {
            state.current_layer() + 1
        }),
{
    let after = state.after_new_layer();
    let layers = state.layers;
    assert(pending_cells(after.pending) =~= Seq::<Cell>::empty());
    if !state.layers_exhausted() {
        let full = layers.len() > RETAINED_OLDER_LAYERS;
        let rest = if full {
            layers.drop_first()
        } else {
            layers
        };
        let newest = (state.current_layer() + 1) as u64;
        assert(after.layers == rest.push(newest));
        if full {
            lemma_filter_elements(state.displayed, not_of_layer(layers[0]));
        }
        assert forall|k: int| 0 <= k < after.displayed.len() implies after.layers.contains(
            (#[trigger] after.displayed[k]).layer,
        ) by {
            let chunk = after.displayed[k];
            assert(state.displayed.contains(chunk)) by {
                if !full {
                    assert(state.displayed[k] == chunk);
                }
            }
            let w = choose|w: int| 0 <= w < state.displayed.len() && state.displayed[w] == chunk;
            assert(layers.contains(state.displayed[w].layer));
            let at = choose|at: int| 0 <= at < layers.len() && layers[at] == chunk.layer;
            if full {
                assert(not_of_layer(layers[0])(chunk));
                assert(after.layers[at - 1] == chunk.layer);
            } else {
                assert(after.layers[at] == chunk.layer);
            }
        }
        assert forall|a: int, b: int| 0 <= a < b < after.layers.len() implies after.layers[a]
            < after.layers[b] by {
            if full {
                if b < rest.len() {
                    assert(layers[a + 1] < layers[b + 1]);
                } else {
                    assert(layers[a + 1] <= layers[layers.len() - 1]);
                }
            } else {
                if b < rest.len() {
                    assert(layers[a] < layers[b]);
                } else {
                    assert(layers[a] <= layers[layers.len() - 1]);
                }
            }
        }
    }
}

impl ChunkState {
    /// The state after `n` new layer versions have begun, one after the
    /// other.
    pub open spec fn after_new_layers(self, n: nat) -> ChunkState
        decreases n,
    {
        if n == 0 {
            self
        } else {
            self.after_new_layers((n - 1) as nat).after_new_layer()
        }
    }
}

/// However many zoom transitions follow one another, never more than three
/// layer versions are kept: the newest and two older ones. Every chunk on
/// display belongs to one of them. The newest version has risen by one with
/// every transition, as far as the counter goes.
pub proof fn lemma_layer_versions_bounded(state: ChunkState, transitions: nat)
    requires
        state.wf(),
    ensures
        state.after_new_layers(transitions).wf(),
        state.after_new_layers(transitions).layers.len() <= RETAINED_OLDER_LAYERS + 1,
        state.after_new_layers(transitions).current_layer() == (if state.current_layer()
            + transitions <= u64::MAX {
            state.current_layer() + transitions
        } else {
            u64::MAX as int
        }),
        forall|i: int|
            0 <= i < state.after_new_layers(transitions).displayed.len() ==> state.after_new_layers(
                transitions,
            ).layers.contains((#[trigger] state.after_new_layers(transitions).displayed[i]).layer),
    decreases transitions,
{
    if transitions > 0 {
        lemma_layer_versions_bounded(state, (transitions - 1) as nat);
        lemma_new_layer_keeps_bound(state.after_new_layers((transitions - 1) as nat));
    }
}

/// The square that a visibility scan covers holds `(2 * radius + 1)^2`
/// cells, and no cell twice.
pub proof fn lemma_neighborhood_size(center: Cell, radius: u32)
    requires
        neighborhood_fits(center, radius),
    ensures
        neighborhood(center, radius).len() == (2 * radius + 1) * (2 * radius + 1),
        neighborhood(center, radius).no_duplicates(),
{
    let w = (2 * radius + 1) as nat;
    lemma_block_cells(center.0 - radius, center.1 - radius, w, w);
}

proof fn lemma_block_cells(x0: int, y0: int, width: nat, rows: nat)
    requires
        i32::MIN <= x0,
        x0 + width - 1 <= i32::MAX,
        i32::MIN <= y0,
        y0 + rows - 1 <= i32::MAX,
    ensures
        block_cells(x0, y0, width, rows).len() == rows * width,
        block_cells(x0, y0, width, rows).no_duplicates(),
        forall|k: int|
            0 <= k < block_cells(x0, y0, width, rows).len() ==> y0 <= (#[trigger] block_cells(
                x0,
                y0,
                width,
                rows,
            )[k]).1 < y0 + rows,
    decreases rows,
{
    if rows > 0 {
        let above = block_cells(x0, y0, width, (rows - 1) as nat);
        let row = row_cells(x0, y0 + rows - 1, width);
        let all = block_cells(x0, y0, width, rows);
        lemma_block_cells(x0, y0, width, (rows - 1) as nat);
        assert(all == above + row);
        assert(rows * width == (rows - 1) * width + width) by (nonlinear_arith);
        assert forall|i: int, j: int| 0 <= i < all.len() && 0 <= j < all.len() && i != j implies all[i]
            != all[j] by {
            if i < above.len() && j < above.len() {
                assert(above[i] != above[j]);
            } else if i < above.len() {
                assert(all[j] == row[j - above.len()]);
                assert(above[i].1 < y0 + rows - 1);
            } else if j < above.len() {
                assert(all[i] == row[i - above.len()]);
                assert(above[j].1 < y0 + rows - 1);
            } else {
                assert(all[i] == row[i - above.len()]);
                assert(all[j] == row[j - above.len()]);
            }
        }
        assert forall|k: int| 0 <= k < all.len() implies y0 <= (#[trigger] all[k]).1 < y0
            + rows by {
            if k < above.len() {
                assert(all[k] == above[k]);
            } else {
                assert(all[k] == row[k - above.len()]);
            }
        }
    } else {
        assert(rows * width == 0) by (nonlinear_arith)
            requires
                rows == 0,
        ;
    }
}

/// A visibility scan of a state in which no cell of the square is asked for
/// asks for every cell of the square: `(2 * radius + 1)^2` cells, 81 at the
/// default radius, all different.
pub proof fn lemma_first_scan_asks_for_all(state: ChunkState, center: Cell, radius: u32)
    requires
        neighborhood_fits(center, radius),
        forall|i: int|
            0 <= i < neighborhood(center, radius).len() ==> !state.spawned.contains(
                #[trigger] neighborhood(center, radius)[i],
            ),
    ensures
        state.scan_cells(center, radius) == neighborhood(center, radius),
        state.scan_cells(center, radius).len() == (2 * radius + 1) * (2 * radius + 1),
        state.scan_cells(center, radius).no_duplicates(),
{
    lemma_neighborhood_size(center, radius);
    lemma_filter_all(neighborhood(center, radius), not_in(state.spawned));
}

/// Filtering leaves a sequence as it is when every element passes the test.
proof fn lemma_filter_all<A>(s: Seq<A>, test: spec_fn(A) -> bool)
    requires
        forall|i: int| 0 <= i < s.len() ==> test(#[trigger] s[i]),
    ensures
        s.filter(test) == s,
    decreases s.len(),
{
    reveal(Seq::filter);
    if s.len() > 0 {
        let rest = s.drop_last();
        assert forall|i: int| 0 <= i < rest.len() implies test(#[trigger] rest[i]) by {
            assert(rest[i] == s[i]);
        }
        lemma_filter_all(rest, test);
        assert(test(s[s.len() - 1]));
        assert(rest.push(s.last()) =~= s);
    } else {
        assert(s.filter(test) =~= s);
    }
}

} // verus!
