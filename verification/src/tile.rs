//! Slippy-map tile indices and the integer side of the projection.
//!
//! A position on the map is held as a [`WorldPoint`]: its place in the square
//! Web Mercator world, counted in steps of 2^-32 of the world's width. The
//! index of the tile that holds a point at a zoom level is then a division by
//! a power of two, which is what the laws at the end of this module rest on.

use vstd::prelude::*;
use vstd::arithmetic::power2::pow2;
use vstd::arithmetic::power2::lemma_pow2_pos;
use vstd::arithmetic::power2::lemma_pow2_unfold;
use vstd::arithmetic::power2::lemma_pow2_adds;
use vstd::arithmetic::power2::lemma_pow2_strictly_increases;
use vstd::arithmetic::power2::lemma2_to64;
use vstd::arithmetic::div_mod::lemma_div_denominator;
use vstd::arithmetic::div_mod::lemma_fundamental_div_mod;
use vstd::arithmetic::div_mod::lemma_div_multiples_vanish;
use vstd::arithmetic::div_mod::lemma_fundamental_div_mod_converse;
use vstd::arithmetic::div_mod::lemma_hoist_over_denominator;
use vstd::arithmetic::div_mod::lemma_mod_bound;
use vstd::arithmetic::div_mod::lemma_mod_equivalence;
use vstd::arithmetic::mul::lemma_mul_strict_inequality;
use crate::display::Cell;

verus! {

/// Number of binary digits in a world coordinate.
pub const WORLD_BITS: u32 = 32;

/// Deepest zoom level whose tile indices fit a signed 32-bit index.
pub const MAX_TILE_ZOOM: u32 = 30;

/// How many tiles lie side by side along one axis at `zoom`.
pub open spec fn tile_range(zoom: nat) -> nat {
    pow2(zoom)
}

/// Width of one tile at `zoom`, in world units.
pub open spec fn tile_span(zoom: nat) -> nat
    recommends
        zoom <= WORLD_BITS,
{
    pow2((WORLD_BITS - zoom) as nat)
}

/// Computes `2^exponent`.
pub fn power_of_two(exponent: u32) -> (p: u64)
    requires
        exponent <= 62,
    ensures
        p == pow2(exponent as nat),
        p >= 1,
{
    let mut p: u64 = 1;
    let mut i: u32 = 0;
    proof {
        lemma2_to64();
    }
    while i < exponent
        invariant
            i <= exponent <= 62,
            p == pow2(i as nat),
            p >= 1,
        decreases exponent - i,
    {
        proof {
            lemma_pow2_unfold((i + 1) as nat);
            if i + 1 < 63 {
                lemma_pow2_strictly_increases((i + 1) as nat, 63);
            }
            lemma2_to64_rest_63();
        }
        p = p * 2;
        i = i + 1;
    }
    p
}

/// `2^63` as a number, for overflow arguments.
proof fn lemma2_to64_rest_63()
    ensures
        pow2(63) == 0x8000_0000_0000_0000,
{
    vstd::arithmetic::power2::lemma2_to64_rest();
}

/// The unit in which a distance on the ground is given.
#[derive(Debug, Clone, Copy, PartialEq, Eq, Structural)]
pub enum DistanceType {
    Km,
    M,
    CM,
}

/// The index of a map tile: column, row and zoom level.
#[derive(Debug, Clone, Copy, PartialEq, Eq, Structural)]
pub struct Tile {
    pub x: i32,
    pub y: i32,
    pub zoom: u32,
}

/// A position in the Web Mercator world square. `x` counts eastwards from the
/// antimeridian and `y` southwards from the northern edge, both in units of
/// 2^-32 of the world's width.
#[derive(Debug, Clone, Copy, PartialEq, Eq, Structural)]
pub struct WorldPoint {
    pub x: u32,
    pub y: u32,
}

impl Tile {
    /// A tile index is valid when both coordinates lie inside the grid of its
    /// zoom level.
    pub open spec fn wf(&self) -> bool {
        &&& self.zoom <= MAX_TILE_ZOOM
        &&& 0 <= self.x < tile_range(self.zoom as nat)
        &&& 0 <= self.y < tile_range(self.zoom as nat)
    }

    pub fn new(x: i32, y: i32, zoom: u32) -> (tile: Self)
        ensures
            tile == (Tile { x, y, zoom }),
    {
        Self { x, y, zoom }
    }

    /// Tells whether the index lies inside the grid of its zoom level.
    pub fn is_valid(&self) -> (ok: bool)
        ensures
            ok == self.wf(),
    {
        if self.zoom > MAX_TILE_ZOOM || self.x < 0 || self.y < 0 {
            return false;
        }
        let range: u64 = power_of_two(self.zoom);
        (self.x as u64) < range && (self.y as u64) < range
    }

    /// The north-west corner of the tile.
    pub open spec fn corner(&self) -> WorldPoint
        recommends
            self.wf(),
    {
        WorldPoint {
            x: (self.x * tile_span(self.zoom as nat)) as u32,
            y: (self.y * tile_span(self.zoom as nat)) as u32,
        }
    }

    /// The centre of the tile.
    pub open spec fn center(&self) -> WorldPoint
        recommends
            self.wf(),
    {
        WorldPoint {
            x: (self.x * tile_span(self.zoom as nat) + tile_span(self.zoom as nat) / 2) as u32,
            y: (self.y * tile_span(self.zoom as nat) + tile_span(self.zoom as nat) / 2) as u32,
        }
    }

    /// The centre of the tile as a world position: half a tile east and
    /// south of its north-west corner.
    pub fn to_world_center(&self) -> (p: WorldPoint)
        requires
            self.wf(),
        ensures
            p == self.center(),
            p.x == self.x * tile_span(self.zoom as nat) + tile_span(self.zoom as nat) / 2,
            p.y == self.y * tile_span(self.zoom as nat) + tile_span(self.zoom as nat) / 2,
            p.tile_at(self.zoom as nat) == *self,
    {
        let span: u64 = power_of_two(WORLD_BITS - self.zoom);
        proof {
            lemma_center_fits(self.x as int, self.zoom as nat);
            lemma_center_fits(self.y as int, self.zoom as nat);
        }
        let px: u64 = (self.x as u64) * span + span / 2;
        let py: u64 = (self.y as u64) * span + span / 2;
        WorldPoint { x: px as u32, y: py as u32 }
    }

    /// The north-west corner of the tile as a world position. A grid of
    /// chunk cells has its origin at such a corner.
    pub fn to_world_point(&self) -> (p: WorldPoint)
        requires
            self.wf(),
        ensures
            p == self.corner(),
            p.x == self.x * tile_span(self.zoom as nat),
            p.y == self.y * tile_span(self.zoom as nat),
    {
        let span: u64 = power_of_two(WORLD_BITS - self.zoom);
        proof {
            lemma_corner_fits(self.x as int, self.zoom as nat);
            lemma_corner_fits(self.y as int, self.zoom as nat);
        }
        let px: u64 = (self.x as u64) * span;
        let py: u64 = (self.y as u64) * span;
        WorldPoint { x: px as u32, y: py as u32 }
    }
}

impl WorldPoint {
    /// The tile that holds this point at `zoom`.
    pub open spec fn tile_at(&self, zoom: nat) -> Tile
        recommends
            zoom <= MAX_TILE_ZOOM,
    {
        Tile {
            x: (self.x as int / tile_span(zoom) as int) as i32,
            y: (self.y as int / tile_span(zoom) as int) as i32,
            zoom: zoom as u32,
        }
    }

    /// Finds the tile that holds this point at `zoom`: each world coordinate
    /// divided by the width of a tile, rounded down.
    pub fn to_tile_coords(&self, zoom: u32) -> (tile: Tile)
        requires
            zoom <= MAX_TILE_ZOOM,
        ensures
            tile == self.tile_at(zoom as nat),
            tile.wf(),
            tile.x == self.x as int / tile_span(zoom as nat) as int,
            tile.y == self.y as int / tile_span(zoom as nat) as int,
    {
        let span: u64 = power_of_two(WORLD_BITS - zoom);
        proof {
            lemma_index_in_range(self.x as int, zoom as nat);
            lemma_index_in_range(self.y as int, zoom as nat);
        }
        let tx: u64 = (self.x as u64) / span;
        let ty: u64 = (self.y as u64) / span;
        Tile { x: tx as i32, y: ty as i32, zoom }
    }
}

/// The tile that lies `cell.0` columns to the east and `cell.1` rows to the
/// north of `base`. Columns wrap around the world; beyond its northern and
/// southern edge there is no tile.
pub open spec fn tile_beside(base: Tile, cell: Cell) -> Option<Tile> {
    let y = base.y - cell.1;
    if 0 <= y < tile_range(base.zoom as nat) {
        Some(
            Tile {
                x: ((base.x + cell.0) % (tile_range(base.zoom as nat) as int)) as i32,
                y: y as i32,
                zoom: base.zoom,
            },
        )
    } else {
        None
    }
}

impl WorldPoint {
    /// Resolves a chunk cell to its tile. The cells form a grid of tile-sized
    /// squares whose cell `(0, 0)` has this point in it, with rows counted
    /// northwards: the tile of a cell lies as many columns east and rows
    /// north of this point's tile as the cell says.
    pub fn tile_of_cell(&self, cell: Cell, zoom: u32) -> (tile: Option<Tile>)
        requires
            zoom <= MAX_TILE_ZOOM,
        ensures
            tile == tile_beside(self.tile_at(zoom as nat), cell),
            match tile {
                Some(t) => t.wf(),
                None => true,
            },
    {
        let base = self.to_tile_coords(zoom);
        let range: u64 = power_of_two(zoom);
        proof {
            lemma_index_in_range(self.x as int, zoom as nat);
            lemma_pow2_adds(zoom as nat, (WORLD_BITS - zoom) as nat);
            lemma2_to64();
        }
        let y: i64 = base.y as i64 - cell.1 as i64;
        if y < 0 || y >= range as i64 {
            return None;
        }
        let shifted: u64 = (base.x as i64 + cell.0 as i64 + 0x1_0000_0000) as u64;
        let x: u64 = shifted % range;
        proof {
            let n = range as int;
            let span = tile_span(zoom as nat) as int;
            assert(n * span == 0x1_0000_0000);
            vstd::arithmetic::div_mod::lemma_mod_multiples_vanish(span, base.x + cell.0, n);
            assert(n * span + (base.x + cell.0) == shifted);
            lemma_mod_bound(base.x + cell.0, n);
        }
        Some(Tile { x: x as i32, y: y as i32, zoom })
    }
}

/// A world coordinate divided by the tile width is a valid index.
proof fn lemma_index_in_range(u: int, zoom: nat)
    requires
        0 <= u < 0x1_0000_0000,
        zoom <= MAX_TILE_ZOOM,
    ensures
        0 <= u / tile_span(zoom) as int,
        u / (tile_span(zoom) as int) < tile_range(zoom),
        tile_range(zoom) <= 0x4000_0000,
{
    let span = tile_span(zoom) as int;
    let range = tile_range(zoom) as int;
    lemma_pow2_pos((WORLD_BITS - zoom) as nat);
    lemma_pow2_adds(zoom, (WORLD_BITS - zoom) as nat);
    lemma2_to64();
    assert(range * span == 0x1_0000_0000);
    lemma_fundamental_div_mod(u, span);
    let q = u / span;
    assert(0 <= q) by {
        vstd::arithmetic::div_mod::lemma_div_pos_is_pos(u, span);
    }
    assert(q < range) by {
        if q >= range {
            vstd::arithmetic::mul::lemma_mul_inequality(range, q, span);
            assert(range * span <= q * span);
            assert(span * q == q * span) by (nonlinear_arith);
        }
    }
    if zoom < 30 {
        lemma_pow2_strictly_increases(zoom, 30);
    }
}

/// The corner of a valid tile is a world coordinate.
proof fn lemma_corner_fits(i: int, zoom: nat)
    requires
        zoom <= MAX_TILE_ZOOM,
        0 <= i < tile_range(zoom),
    ensures
        0 <= i * tile_span(zoom) < 0x1_0000_0000,
        tile_span(zoom) <= 0x1_0000_0000,
        (i * tile_span(zoom)) / (tile_span(zoom) as int) == i,
{
    let span = tile_span(zoom) as int;
    let range = tile_range(zoom) as int;
    lemma_pow2_pos((WORLD_BITS - zoom) as nat);
    lemma_pow2_adds(zoom, (WORLD_BITS - zoom) as nat);
    lemma2_to64();
    assert(range * span == 0x1_0000_0000);
    assert(0 <= i * span) by (nonlinear_arith)
        requires
            0 <= i,
            0 < span,
    ;
    lemma_mul_strict_inequality(i, range, span);
    assert(span <= range * span) by (nonlinear_arith)
        requires
            1 <= range,
            0 < span,
    ;
    lemma_div_multiples_vanish(i, span);
    assert(span * i == i * span) by (nonlinear_arith);
}

/// The centre of a valid tile is a world coordinate that lies in the tile.
proof fn lemma_center_fits(i: int, zoom: nat)
    requires
        zoom <= MAX_TILE_ZOOM,
        0 <= i < tile_range(zoom),
    ensures
        0 <= i * tile_span(zoom) + tile_span(zoom) / 2 < 0x1_0000_0000,
        0 <= i * tile_span(zoom) < 0x1_0000_0000,
        (i * tile_span(zoom) + tile_span(zoom) / 2) / (tile_span(zoom) as int) == i,
{
    let span = tile_span(zoom) as int;
    let range = tile_range(zoom) as int;
    lemma_corner_fits(i, zoom);
    lemma_pow2_adds(zoom, (WORLD_BITS - zoom) as nat);
    lemma2_to64();
    assert(range * span == 0x1_0000_0000);
    assert(span > 0);
    let half = span / 2;
    assert(0 <= half < span);
    assert(i * span + span <= range * span) by (nonlinear_arith)
        requires
            i + 1 <= range,
            span > 0,
    ;
    assert(i * span + half == i * span + half);
    assert(span * i == i * span) by (nonlinear_arith);
    lemma_fundamental_div_mod_converse(i * span + half, span, i, half);
}

/// The tile that holds the centre of a valid tile is that tile.
pub proof fn lemma_center_lies_in_tile(tile: Tile)
    requires
        tile.wf(),
    ensures
        tile.center().tile_at(tile.zoom as nat) == tile,
{
    lemma_center_fits(tile.x as int, tile.zoom as nat);
    lemma_center_fits(tile.y as int, tile.zoom as nat);
}

/// One step deeper in zoom, every axis holds exactly twice as many tiles.
pub proof fn lemma_zoom_doubles_tile_range(zoom: nat)
    ensures
        tile_range(zoom + 1) == 2 * tile_range(zoom),
{
    lemma_pow2_unfold(zoom + 1);
}

/// The tile of a point at `zoom + 1` is one of the four tiles into which its
/// tile at `zoom` divides: on each axis the index is twice the coarser one,
/// or one more.
pub proof fn lemma_zoom_in_stays_in_block(p: WorldPoint, zoom: nat)
    requires
        zoom < MAX_TILE_ZOOM,
    ensures
        2 * p.tile_at(zoom).x <= p.tile_at(zoom + 1).x <= 2 * p.tile_at(zoom).x + 1,
        2 * p.tile_at(zoom).y <= p.tile_at(zoom + 1).y <= 2 * p.tile_at(zoom).y + 1,
        p.tile_at(zoom + 1).x / 2 == p.tile_at(zoom).x,
        p.tile_at(zoom + 1).y / 2 == p.tile_at(zoom).y,
{
    lemma_halving_index(p.x as int, zoom);
    lemma_halving_index(p.y as int, zoom);
}

proof fn lemma_halving_index(u: int, zoom: nat)
    requires
        0 <= u < 0x1_0000_0000,
        zoom < MAX_TILE_ZOOM,
    ensures
        ((u / tile_span(zoom + 1) as int) as i32) / 2 == (u / tile_span(zoom) as int) as i32,
        2 * ((u / tile_span(zoom) as int) as i32) <= (u / tile_span(zoom + 1) as int) as i32,
        (u / tile_span(zoom + 1) as int) as i32 <= 2 * ((u / tile_span(zoom) as int) as i32) + 1,
{
    let fine = tile_span(zoom + 1) as int;
    let coarse = tile_span(zoom) as int;
    lemma_pow2_pos((WORLD_BITS - zoom - 1) as nat);
    lemma_pow2_unfold((WORLD_BITS - zoom) as nat);
    assert(coarse == fine * 2);
    lemma_div_denominator(u, fine, 2);
    lemma_index_in_range(u, zoom);
    lemma_index_in_range(u, zoom + 1);
    let a = u / coarse;
    let b = u / fine;
    assert(b / 2 == a);
    lemma_zoom_doubles_tile_range(zoom);
}

/// The tile that holds the corner of a valid tile is that tile.
pub proof fn lemma_corner_lies_in_tile(tile: Tile)
    requires
        tile.wf(),
    ensures
        tile.corner().tile_at(tile.zoom as nat) == tile,
{
    lemma_corner_fits(tile.x as int, tile.zoom as nat);
    lemma_corner_fits(tile.y as int, tile.zoom as nat);
}

/// The tile of a chunk cell holds the point that lies as many tile widths
/// east and north of the reference point as the cell says, with the east
/// wrapping around the world; and a cell has a tile exactly when that point
/// lies between the northern and the southern edge of the world.
pub proof fn lemma_cell_tile_holds_cell_point(reference: WorldPoint, cell: Cell, zoom: nat)
    requires
        zoom <= MAX_TILE_ZOOM,
    ensures
        ({
            let span = tile_span(zoom) as int;
            let east = (reference.x + cell.0 * span) % 0x1_0000_0000;
            let south = reference.y - cell.1 * span;
            let tile = tile_beside(reference.tile_at(zoom), cell);
            &&& 0 <= east < 0x1_0000_0000
            &&& tile.is_some() == (0 <= south < 0x1_0000_0000)
            &&& tile.is_some() ==> tile.unwrap() == (WorldPoint {
                x: east as u32,
                y: south as u32,
            }).tile_at(zoom)
        }),
{
    let span = tile_span(zoom) as int;
    let n = tile_range(zoom) as int;
    let world = 0x1_0000_0000int;
    lemma_pow2_pos((WORLD_BITS - zoom) as nat);
    lemma_pow2_pos(zoom);
    lemma_pow2_adds(zoom, (WORLD_BITS - zoom) as nat);
    lemma2_to64();
    assert(n * span == world);
    lemma_index_in_range(reference.x as int, zoom);
    lemma_index_in_range(reference.y as int, zoom);
    let bx = reference.x as int / span;
    let by = reference.y as int / span;
    // North and south: the row of the point is the row of the reference
    // less the rows of the cell.
    let south = reference.y - cell.1 * span;
    lemma_hoist_over_denominator(reference.y as int, -cell.1, span as nat);
    assert(reference.y + (-cell.1) * span == south) by (nonlinear_arith)
        requires
            south == reference.y - cell.1 * span,
    ;
    assert(south / span == by - cell.1);
    lemma_fundamental_div_mod(south, span);
    lemma_mod_bound(south, span);
    let row = south / span;
    assert((0 <= south < world) == (0 <= row < n)) by (nonlinear_arith)
        requires
            south == span * row + south % span,
            0 <= south % span < span,
            n * span == world,
            0 < span,
    ;
    // East and west: the column wraps around with the point.
    let a = reference.x + cell.0 * span;
    lemma_hoist_over_denominator(reference.x as int, cell.0 as int, span as nat);
    let q = a / span;
    assert(q == bx + cell.0);
    lemma_fundamental_div_mod(a, span);
    lemma_mod_bound(a, span);
    let r = a % span;
    lemma_fundamental_div_mod(q, n);
    lemma_mod_bound(q, n);
    let k = q / n;
    let m = q % n;
    let east = m * span + r;
    assert(0 <= east < world) by (nonlinear_arith)
        requires
            east == m * span + r,
            0 <= m < n,
            0 <= r < span,
            n * span == world,
    ;
    assert(a == k * world + east) by (nonlinear_arith)
        requires
            a == span * q + r,
            q == n * k + m,
            east == m * span + r,
            n * span == world,
    ;
    lemma_fundamental_div_mod_converse(a, world, k, east);
    assert(a % world == east);
    lemma_fundamental_div_mod_converse(east, span, m, r);
    assert(east / span == m);
}

/// Two cells that are less than a world apart in the east have the same
/// tile only if they are the same cell.
pub proof fn lemma_cells_have_their_own_tiles(base: Tile, first: Cell, second: Cell)
    requires
        base.wf(),
        tile_beside(base, first).is_some(),
        tile_beside(base, first) == tile_beside(base, second),
        -tile_range(base.zoom as nat) < first.0 - second.0 < tile_range(base.zoom as nat),
    ensures
        first == second,
{
    let n = tile_range(base.zoom as nat) as int;
    lemma_pow2_pos(base.zoom as nat);
    lemma2_to64();
    if base.zoom < 30 {
        lemma_pow2_strictly_increases(base.zoom as nat, 30);
    }
    let a = base.x + first.0;
    let b = base.x + second.0;
    lemma_mod_bound(a, n);
    lemma_mod_bound(b, n);
    assert(a % n == b % n);
    lemma_mod_equivalence(a, b, n);
    let d = a - b;
    lemma_fundamental_div_mod(d, n);
    assert(d == 0) by (nonlinear_arith)
        requires
            d == n * (d / n) + d % n,
            d % n == 0,
            -n < d < n,
            n > 0,
    ;
}

/// The corner of the tile that holds a point lies west and north of the
/// point, by less than the width of a tile.
pub proof fn lemma_corner_is_near(p: WorldPoint, zoom: nat)
    requires
        zoom <= MAX_TILE_ZOOM,
    ensures
        0 <= p.x - p.tile_at(zoom).corner().x < tile_span(zoom),
        0 <= p.y - p.tile_at(zoom).corner().y < tile_span(zoom),
{
    let span = tile_span(zoom) as int;
    lemma_pow2_pos((WORLD_BITS - zoom) as nat);
    lemma_index_in_range(p.x as int, zoom);
    lemma_index_in_range(p.y as int, zoom);
    lemma_corner_fits(p.x as int / span, zoom);
    lemma_corner_fits(p.y as int / span, zoom);
    lemma_fundamental_div_mod(p.x as int, span);
    lemma_fundamental_div_mod(p.y as int, span);
    lemma_mod_bound(p.x as int, span);
    lemma_mod_bound(p.y as int, span);
    assert((p.x as int / span) * span == span * (p.x as int / span)) by (nonlinear_arith);
    assert((p.y as int / span) * span == span * (p.y as int / span)) by (nonlinear_arith);
}

} // verus!
