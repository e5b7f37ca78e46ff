//! Arithmetic of the display: where a chunk stands on screen, how many
//! tile widths the viewport shows, and when a chunk is too far from the
//! camera to be kept.
//!
//! The display scale is a power of two: one at the starting zoom level, and
//! doubled with every level zoomed out. It is held as its exponent, so every
//! comparison here is exact.

use vstd::prelude::*;
use vstd::arithmetic::power2::pow2;
use vstd::arithmetic::power2::lemma_pow2_pos;
use vstd::arithmetic::power2::lemma_pow2_strictly_increases;
use vstd::arithmetic::power2::lemma2_to64;
use vstd::arithmetic::div_mod::lemma_fundamental_div_mod;
use vstd::arithmetic::div_mod::lemma_fundamental_div_mod_converse;
use crate::tile::power_of_two;

verus! {

/// The coarsest zoom level of the map.
pub const MIN_ZOOM: u32 = 3;

/// The finest zoom level of the map.
pub const MAX_ZOOM: u32 = 20;

/// The viewport shows at least this many tile widths before the map zooms in.
pub const MIN_VISIBLE_TILES: u64 = 3;

/// The viewport shows at most this many tile widths before the map zooms out.
pub const MAX_VISIBLE_TILES: u64 = 7;

/// A chunk is kept while it is at most this many tile widths from the camera.
pub const RETENTION_TILES: u64 = 10;

/// The largest exponent that the display scale can take, in either direction.
pub const MAX_SCALE_EXPONENT: i32 = 17;

/// A chunk cell: a place in the grid of tile-sized squares of one layer.
pub type Cell = (i32, i32);

/// A zoom level of the map.
pub open spec fn zoom_in_range(zoom: u32) -> bool {
    MIN_ZOOM <= zoom <= MAX_ZOOM
}

/// An exponent that the display scale can take.
pub open spec fn exponent_in_range(e: int) -> bool {
    -MAX_SCALE_EXPONENT <= e <= MAX_SCALE_EXPONENT
}

/// `2^e` for a positive exponent, one otherwise: the whole part of the scale.
pub open spec fn scale_up(e: int) -> int {
    if e >= 0 {
        pow2(e as nat) as int
    } else {
        1
    }
}

/// `2^-e` for a negative exponent, one otherwise: what the scale divides by.
pub open spec fn scale_down(e: int) -> int {
    if e >= 0 {
        1
    } else {
        pow2((-e) as nat) as int
    }
}

/// `v * 2^e`, rounded down to a whole number.
pub open spec fn scaled(v: int, e: int) -> int {
    v * scale_up(e) / scale_down(e)
}

/// The place of a chunk on the display: its cell times the tile quality
/// times the scale, less the displacement.
pub open spec fn chunk_position_of(cell: Cell, tile_quality: u32, e: int, displacement: (i64, i64)) -> (
    int,
    int,
) {
    (
        scaled(cell.0 * tile_quality, e) - displacement.0,
        scaled(cell.1 * tile_quality, e) - displacement.1,
    )
}

/// The viewport is wider than `tiles` tile widths.
pub open spec fn wider_than(width: u64, tiles: u64, tile_quality: u32, e: int) -> bool {
    width * scale_down(e) > tiles * tile_quality * scale_up(e)
}

/// The viewport is narrower than `tiles` tile widths.
pub open spec fn narrower_than(width: u64, tiles: u64, tile_quality: u32, e: int) -> bool {
    width * scale_down(e) < tiles * tile_quality * scale_up(e)
}

/// The distance between `position` and `camera` exceeds the retention
/// radius, `RETENTION_TILES` tile widths at the scale `2^e`.
pub open spec fn out_of_range_of(
    position: (int, int),
    camera: (i64, i64),
    tile_quality: u32,
    e: int,
) -> bool {
    let dx = position.0 - camera.0;
    let dy = position.1 - camera.1;
    let radius = RETENTION_TILES * tile_quality * scale_up(e);
    (dx * dx + dy * dy) * (scale_down(e) * scale_down(e)) > radius * radius
}

/// The cell that holds a point of the display: each coordinate divided by
/// the tile quality, rounded down, and kept within the range of cells.
pub open spec fn cell_of_point(point: (i64, i64), tile_quality: u32) -> Cell
    recommends
        tile_quality > 0,
{
    (clamp_to_cell(point.0 as int / tile_quality as int), clamp_to_cell(point.1 as int / tile_quality as int))
}

/// `v`, or the nearest coordinate that a cell can have.
pub open spec fn clamp_to_cell(v: int) -> i32 {
    if v < i32::MIN {
        i32::MIN
    } else if v > i32::MAX {
        i32::MAX
    } else {
        v as i32
    }
}

proof fn lemma_scale_bounds(e: int)
    requires
        exponent_in_range(e),
    ensures
        1 <= scale_up(e) <= 0x2_0000,
        1 <= scale_down(e) <= 0x2_0000,
        scale_up(e) == 1 || scale_down(e) == 1,
{
    lemma2_to64();
    if e >= 0 {
        lemma_pow2_pos(e as nat);
        if e < 17 {
            lemma_pow2_strictly_increases(e as nat, 17);
        }
    } else {
        lemma_pow2_pos((-e) as nat);
        if -e < 17 {
            lemma_pow2_strictly_increases((-e) as nat, 17);
        }
    }
}

/// Computes the two parts of the scale `2^e`: what it multiplies by and
/// what it divides by.
pub fn scale_parts(e: i32) -> (parts: (u64, u64))
    requires
        exponent_in_range(e as int),
    ensures
        parts.0 == scale_up(e as int),
        parts.1 == scale_down(e as int),
        1 <= parts.0 <= 0x2_0000,
        1 <= parts.1 <= 0x2_0000,
        parts.0 == 1 || parts.1 == 1,
{
    proof {
        lemma_scale_bounds(e as int);
    }
    if e >= 0 {
        (power_of_two(e as u32), 1)
    } else {
        (1, power_of_two((-e) as u32))
    }
}

/// Divides `v` by `d`, rounding down.
pub fn floor_div(v: i128, d: u64) -> (q: i128)
    requires
        d >= 1,
        -0x4000_0000_0000_0000_0000_0000_0000_0000 <= v <= 0x4000_0000_0000_0000_0000_0000_0000_0000,
    ensures
        q == v as int / d as int,
        v >= 0 ==> 0 <= q <= v,
        v < 0 ==> v <= q < 0,
{
    let divisor: u128 = d as u128;
    if v >= 0 {
        let q: u128 = (v as u128) / divisor;
        proof {
            lemma_fundamental_div_mod(v as int, d as int);
            assert(q * d <= v) by (nonlinear_arith)
                requires
                    v == d * q + (v as int % d as int),
                    0 <= v as int % d as int,
            ;
            assert(q <= v) by (nonlinear_arith)
                requires
                    q * d <= v,
                    d >= 1,
                    q >= 0,
            ;
        }
        q as i128
    } else {
        let m: u128 = (-v) as u128;
        let up: u128 = (m + (divisor - 1)) / divisor;
        proof {
            let mi = m as int;
            let di = d as int;
            let ui = up as int;
            lemma_fundamental_div_mod(mi + di - 1, di);
            let r = (mi + di - 1) % di;
            assert(mi + di - 1 == di * ui + r);
            assert(0 <= r < di);
            assert(v as int == (-ui) * di + (di - 1 - r)) by (nonlinear_arith)
                requires
                    mi + di - 1 == di * ui + r,
                    v as int == -mi,
            ;
            lemma_fundamental_div_mod_converse(v as int, di, -ui, di - 1 - r);
            assert(1 <= ui <= mi) by (nonlinear_arith)
                requires
                    mi + di - 1 == di * ui + r,
                    0 <= r < di,
                    di >= 1,
                    ui >= 0,
                    mi >= 1,
            ;
        }
        -(up as i128)
    }
}

/// Computes `v * 2^e`, rounded down.
pub fn scale_value(v: i128, e: i32) -> (r: i128)
    requires
        exponent_in_range(e as int),
        -0x10_0000_0000_0000_0000_0000_0000 <= v <= 0x10_0000_0000_0000_0000_0000_0000,
    ensures
        r == scaled(v as int, e as int),
        v >= 0 ==> 0 <= r <= v * 0x2_0000,
        v < 0 ==> v * 0x2_0000 <= r < 0,
{
    let (up, down) = scale_parts(e);
    assert(-0x20_0000_0000_0000_0000_0000_0000_0000 <= v * up
        <= 0x20_0000_0000_0000_0000_0000_0000_0000) by (nonlinear_arith)
        requires
            -0x10_0000_0000_0000_0000_0000_0000 <= v <= 0x10_0000_0000_0000_0000_0000_0000,
            1 <= up <= 0x2_0000,
    ;
    assert(v >= 0 ==> 0 <= v * up <= v * 0x2_0000) by (nonlinear_arith)
        requires
            1 <= up <= 0x2_0000,
    ;
    assert(v < 0 ==> v * 0x2_0000 <= v * up < 0) by (nonlinear_arith)
        requires
            1 <= up <= 0x2_0000,
    ;
    let lifted: i128 = v * (up as i128);
    floor_div(lifted, down)
}

/// Computes the place of a chunk on the display.
pub fn chunk_position(cell: Cell, tile_quality: u32, e: i32, displacement: (i64, i64)) -> (position:
    (i128, i128))
    requires
        exponent_in_range(e as int),
    ensures
        (position.0 as int, position.1 as int) == chunk_position_of(
            cell,
            tile_quality,
            e as int,
            displacement,
        ),
        -0x2_0000_0000_0000_0000_0000_0000 <= position.0 <= 0x2_0000_0000_0000_0000_0000_0000,
        -0x2_0000_0000_0000_0000_0000_0000 <= position.1 <= 0x2_0000_0000_0000_0000_0000_0000,
{
    assert(-0x7fff_ffff_8000_0000 <= cell.0 * tile_quality <= 0x7fff_ffff_8000_0000)
        by (nonlinear_arith)
        requires
            -0x8000_0000 <= cell.0 <= 0x7fff_ffff,
            0 <= tile_quality <= 0xffff_ffff,
    ;
    assert(-0x7fff_ffff_8000_0000 <= cell.1 * tile_quality <= 0x7fff_ffff_8000_0000)
        by (nonlinear_arith)
        requires
            -0x8000_0000 <= cell.1 <= 0x7fff_ffff,
            0 <= tile_quality <= 0xffff_ffff,
    ;
    let wx: i64 = (cell.0 as i64) * (tile_quality as i64);
    let wy: i64 = (cell.1 as i64) * (tile_quality as i64);
    let x: i128 = scale_value(wx as i128, e) - (displacement.0 as i128);
    let y: i128 = scale_value(wy as i128, e) - (displacement.1 as i128);
    (x, y)
}

/// Tells whether the viewport is wider than `tiles` tile widths.
pub fn is_wider_than(width: u64, tiles: u64, tile_quality: u32, e: i32) -> (wider: bool)
    requires
        exponent_in_range(e as int),
    ensures
        wider == wider_than(width, tiles, tile_quality, e as int),
{
    let (up, down) = scale_parts(e);
    assert(tiles * tile_quality * up <= 0xffff_ffff_ffff_ffff * 0xffff_ffff * 0x2_0000)
        by (nonlinear_arith)
        requires
            0 <= tiles <= 0xffff_ffff_ffff_ffff,
            0 <= tile_quality <= 0xffff_ffff,
            1 <= up <= 0x2_0000,
    ;
    assert(tiles * tile_quality <= 0xffff_ffff_ffff_ffff * 0xffff_ffff) by (nonlinear_arith)
        requires
            0 <= tiles <= 0xffff_ffff_ffff_ffff,
            0 <= tile_quality <= 0xffff_ffff,
    ;
    assert(width * down <= 0xffff_ffff_ffff_ffff * 0x2_0000) by (nonlinear_arith)
        requires
            0 <= width <= 0xffff_ffff_ffff_ffff,
            1 <= down <= 0x2_0000,
    ;
    let left: u128 = (width as u128) * (down as u128);
    let right: u128 = (tiles as u128) * (tile_quality as u128) * (up as u128);
    left > right
}

/// Tells whether the viewport is narrower than `tiles` tile widths.
pub fn is_narrower_than(width: u64, tiles: u64, tile_quality: u32, e: i32) -> (narrower: bool)
    requires
        exponent_in_range(e as int),
    ensures
        narrower == narrower_than(width, tiles, tile_quality, e as int),
{
    let (up, down) = scale_parts(e);
    assert(tiles * tile_quality * up <= 0xffff_ffff_ffff_ffff * 0xffff_ffff * 0x2_0000)
        by (nonlinear_arith)
        requires
            0 <= tiles <= 0xffff_ffff_ffff_ffff,
            0 <= tile_quality <= 0xffff_ffff,
            1 <= up <= 0x2_0000,
    ;
    assert(tiles * tile_quality <= 0xffff_ffff_ffff_ffff * 0xffff_ffff) by (nonlinear_arith)
        requires
            0 <= tiles <= 0xffff_ffff_ffff_ffff,
            0 <= tile_quality <= 0xffff_ffff,
    ;
    assert(width * down <= 0xffff_ffff_ffff_ffff * 0x2_0000) by (nonlinear_arith)
        requires
            0 <= width <= 0xffff_ffff_ffff_ffff,
            1 <= down <= 0x2_0000,
    ;
    let left: u128 = (width as u128) * (down as u128);
    let right: u128 = (tiles as u128) * (tile_quality as u128) * (up as u128);
    left < right
}

/// Tells whether a chunk at `position` is farther from the camera than the
/// retention radius.
pub fn is_out_of_range(position: (i128, i128), camera: (i64, i64), tile_quality: u32, e: i32) -> (out:
    bool)
    requires
        exponent_in_range(e as int),
    ensures
        out == out_of_range_of(
            (position.0 as int, position.1 as int),
            camera,
            tile_quality,
            e as int,
        ),
{
    let (up, down) = scale_parts(e);
    if position.0 > 0x1_0000_0000_0000_0000_0000 || position.0 < -0x1_0000_0000_0000_0000_0000
        || position.1 > 0x1_0000_0000_0000_0000_0000 || position.1
        < -0x1_0000_0000_0000_0000_0000 {
        proof {
            // So far away that the distance along one axis alone exceeds
            // any radius.
            let sx = position.0 - camera.0;
            let sy = position.1 - camera.1;
            let dn = down as int;
            let rad = RETENTION_TILES * tile_quality * up;
            assert(0 <= rad <= 10 * 0xffff_ffff * 0x2_0000) by (nonlinear_arith)
                requires
                    rad == RETENTION_TILES * tile_quality * up,
                    0 <= tile_quality <= 0xffff_ffff,
                    1 <= up <= 0x2_0000,
            ;
            let big = if sx > 0x8000_0000_0000_0000_0000 {
                sx
            } else if sx < -0x8000_0000_0000_0000_0000 {
                -sx
            } else if sy > 0x8000_0000_0000_0000_0000 {
                sy
            } else {
                -sy
            };
            assert(big > rad);
            assert(big * big > rad * rad) by (nonlinear_arith)
                requires
                    big > rad,
                    rad >= 0,
            ;
            assert(big * big == sx * sx || big * big == sy * sy) by (nonlinear_arith)
                requires
                    big == sx || big == -sx || big == sy || big == -sy,
            ;
            assert((sx * sx + sy * sy) * (dn * dn) > rad * rad) by (nonlinear_arith)
                requires
                    big * big > rad * rad,
                    big * big == sx * sx || big * big == sy * sy,
                    dn >= 1,
            ;
        }
        return true;
    }
    let dx: i128 = position.0 - (camera.0 as i128);
    let dy: i128 = position.1 - (camera.1 as i128);
    let adx: u128 = if dx < 0 {
        (-dx) as u128
    } else {
        dx as u128
    };
    let ady: u128 = if dy < 0 {
        (-dy) as u128
    } else {
        dy as u128
    };
    assert(RETENTION_TILES * tile_quality * up <= 10 * 0xffff_ffff * 0x2_0000) by (nonlinear_arith)
        requires
            0 <= tile_quality <= 0xffff_ffff,
            1 <= up <= 0x2_0000,
    ;
    assert(RETENTION_TILES * tile_quality <= 10 * 0xffff_ffff);
    let radius: u128 = (RETENTION_TILES as u128) * (tile_quality as u128) * (up as u128);
    let ghost sx = dx as int;
    let ghost sy = dy as int;
    let ghost dn = down as int;
    let ghost rad = radius as int;
    assert(adx * adx == sx * sx) by (nonlinear_arith)
        requires
            adx == sx || adx == -sx,
    ;
    assert(ady * ady == sy * sy) by (nonlinear_arith)
        requires
            ady == sy || ady == -sy,
    ;
    if adx > radius || ady > radius {
        proof {
            let big = if adx > radius {
                adx as int
            } else {
                ady as int
            };
            assert(big * big > rad * rad) by (nonlinear_arith)
                requires
                    big > rad,
                    rad >= 0,
            ;
            assert((sx * sx + sy * sy) * (dn * dn) > rad * rad) by (nonlinear_arith)
                requires
                    big * big > rad * rad,
                    big * big == sx * sx || big * big == sy * sy,
                    dn >= 1,
            ;
        }
        return true;
    }
    assert(radius * down <= 10 * 0xffff_ffff * 0x2_0000) by (nonlinear_arith)
        requires
            radius == RETENTION_TILES * tile_quality * up,
            0 <= tile_quality <= 0xffff_ffff,
            1 <= up <= 0x2_0000,
            1 <= down <= 0x2_0000,
            up == 1 || down == 1,
    ;
    assert(adx * down <= radius * down && ady * down <= radius * down) by (nonlinear_arith)
        requires
            adx <= radius,
            ady <= radius,
            down >= 1,
    ;
    let ax: u128 = adx * (down as u128);
    let ay: u128 = ady * (down as u128);
    assert(ax * ax <= 0x20_0000_0000_0000 * 0x20_0000_0000_0000 && ay * ay <= 0x20_0000_0000_0000
        * 0x20_0000_0000_0000) by (nonlinear_arith)
        requires
            0 <= ax <= 0x20_0000_0000_0000,
            0 <= ay <= 0x20_0000_0000_0000,
    ;
    assert(radius * radius <= 0x20_0000_0000_0000 * 0x20_0000_0000_0000) by (nonlinear_arith)
        requires
            0 <= radius <= 0x20_0000_0000_0000,
    ;
    let left: u128 = ax * ax + ay * ay;
    let right: u128 = radius * radius;
    assert(left == (sx * sx + sy * sy) * (dn * dn)) by (nonlinear_arith)
        requires
            left == ax * ax + ay * ay,
            ax == adx * dn,
            ay == ady * dn,
            adx * adx == sx * sx,
            ady * ady == sy * sy,
    ;
    left > right
}

/// Finds the cell that holds a point of the display.
pub fn camera_pos_to_chunk_pos(point: (i64, i64), tile_quality: u32) -> (cell: Cell)
    requires
        tile_quality > 0,
    ensures
        cell == cell_of_point(point, tile_quality),
{
    let cx: i128 = floor_div(point.0 as i128, tile_quality as u64);
    let cy: i128 = floor_div(point.1 as i128, tile_quality as u64);
    (clamp_cell(cx), clamp_cell(cy))
}

fn clamp_cell(v: i128) -> (c: i32)
    ensures
        c == clamp_to_cell(v as int),
{
    if v < -0x8000_0000 {
        -0x8000_0000
    } else if v > 0x7fff_ffff {
        0x7fff_ffff
    } else {
        v as i32
    }
}

/// The corner of a cell in display units before scale and displacement:
/// the cell times the tile quality.
pub fn chunk_pos_to_world_pos(cell: Cell, tile_quality: u32) -> (point: (i64, i64))
    ensures
        point.0 == cell.0 * tile_quality,
        point.1 == cell.1 * tile_quality,
{
    assert(-0x7fff_ffff_8000_0000 <= cell.0 * tile_quality <= 0x7fff_ffff_8000_0000)
        by (nonlinear_arith)
        requires
            -0x8000_0000 <= cell.0 <= 0x7fff_ffff,
            0 <= tile_quality <= 0xffff_ffff,
    ;
    assert(-0x7fff_ffff_8000_0000 <= cell.1 * tile_quality <= 0x7fff_ffff_8000_0000)
        by (nonlinear_arith)
        requires
            -0x8000_0000 <= cell.1 <= 0x7fff_ffff,
            0 <= tile_quality <= 0xffff_ffff,
    ;
    ((cell.0 as i64) * (tile_quality as i64), (cell.1 as i64) * (tile_quality as i64))
}

} // verus!
