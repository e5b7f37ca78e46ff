//! Between the world square and the display: the linear part of the
//! projection, in whole numbers.
//!
//! One tile of a zoom level is `tile_span` world units wide and `quality`
//! display units wide. A point of the world is given on the display by its
//! distance from a reference point, eastwards and northwards, less a
//! displacement; fractions of a display unit are dropped. The way back puts
//! a point of the display on the first world unit that is not west or south
//! of it, so that going to the world and back is exact.

use vstd::prelude::*;
use vstd::arithmetic::div_mod::lemma_fundamental_div_mod;
use vstd::arithmetic::div_mod::lemma_fundamental_div_mod_converse;
use vstd::arithmetic::div_mod::lemma_mod_bound;
use vstd::arithmetic::power2::lemma2_to64;
use vstd::arithmetic::power2::lemma_pow2_pos;
use vstd::arithmetic::power2::lemma_pow2_strictly_increases;
use crate::display::floor_div;
use crate::tile::MAX_TILE_ZOOM;
use crate::tile::Tile;
use crate::tile::WORLD_BITS;
use crate::tile::WorldPoint;
use crate::tile::power_of_two;
use crate::tile::tile_span;

verus! {

/// The width of the world, in world units.
pub const WORLD_UNITS: u64 = 0x1_0000_0000;

/// `a / b`, rounded up.
pub open spec fn ceil_div(a: int, b: int) -> int
    recommends
        b > 0,
{
    -((-a) / b)
}

/// Where a point of the world lies on the display: its distance from the
/// reference point, eastwards and northwards, in display units of the zoom
/// level, rounded down, less the displacement.
pub open spec fn local_of(
    point: WorldPoint,
    reference: WorldPoint,
    displacement: (i64, i64),
    zoom: nat,
    quality: u32,
) -> (int, int) {
    let span = tile_span(zoom) as int;
    (
        (point.x - reference.x) * quality / span - displacement.0,
        (reference.y - point.y) * quality / span - displacement.1,
    )
}

/// Where a point of the display lies in the world, before the east is
/// wrapped around: the reference point moved by the point and the
/// displacement, in world units, rounded up.
pub open spec fn world_of(
    local: (int, int),
    reference: WorldPoint,
    displacement: (i64, i64),
    zoom: nat,
    quality: u32,
) -> (int, int)
    recommends
        quality > 0,
{
    let span = tile_span(zoom) as int;
    (
        reference.x + ceil_div((local.0 + displacement.0) * span, quality as int),
        reference.y - ceil_div((local.1 + displacement.1) * span, quality as int),
    )
}

/// A tile is at least four and at most `2^32` world units wide.
pub proof fn lemma_span_bounds(zoom: nat)
    requires
        zoom <= MAX_TILE_ZOOM,
    ensures
        4 <= tile_span(zoom) <= 0x1_0000_0000,
{
    lemma2_to64();
    lemma_pow2_pos((WORLD_BITS - zoom) as nat);
    if zoom > 0 {
        lemma_pow2_strictly_increases((WORLD_BITS - zoom) as nat, 32);
    }
    if zoom < 30 {
        lemma_pow2_strictly_increases(2, (WORLD_BITS - zoom) as nat);
    }
}

/// Finds where a point of the world lies on the display.
pub fn world_to_local(
    point: WorldPoint,
    reference: WorldPoint,
    displacement: (i64, i64),
    zoom: u32,
    tile_quality: u32,
) -> (local: (i128, i128))
    requires
        zoom <= MAX_TILE_ZOOM,
    ensures
        (local.0 as int, local.1 as int) == local_of(
            point,
            reference,
            displacement,
            zoom as nat,
            tile_quality,
        ),
        displacement == (0i64, 0i64) ==> -0x4000_0000_0000_0000 <= local.0 <= 0x4000_0000_0000_0000
            && -0x4000_0000_0000_0000 <= local.1 <= 0x4000_0000_0000_0000,
{
    proof {
        lemma_span_bounds(zoom as nat);
    }
    let span: u64 = power_of_two(WORLD_BITS - zoom);
    let east: i128 = point.x as i128 - reference.x as i128;
    let north: i128 = reference.y as i128 - point.y as i128;
    assert(-0xffff_ffff * 0xffff_ffff <= east * tile_quality <= 0xffff_ffff * 0xffff_ffff)
        by (nonlinear_arith)
        requires
            -0xffff_ffff <= east <= 0xffff_ffff,
            0 <= tile_quality <= 0xffff_ffff,
    ;
    assert(-0xffff_ffff * 0xffff_ffff <= north * tile_quality <= 0xffff_ffff * 0xffff_ffff)
        by (nonlinear_arith)
        requires
            -0xffff_ffff <= north <= 0xffff_ffff,
            0 <= tile_quality <= 0xffff_ffff,
    ;
    let x: i128 = floor_div(east * (tile_quality as i128), span);
    let y: i128 = floor_div(north * (tile_quality as i128), span);
    proof {
        lemma_quotient_bound(east * tile_quality, span as int);
        lemma_quotient_bound(north * tile_quality, span as int);
    }
    (x - displacement.0 as i128, y - displacement.1 as i128)
}

/// Finds where the centre of a tile lies on the display, in display units
/// of the tile's own zoom level.
pub fn tile_index_to_local(
    tile: Tile,
    reference: WorldPoint,
    displacement: (i64, i64),
    tile_quality: u32,
) -> (local: (i128, i128))
    requires
        tile.wf(),
    ensures
        (local.0 as int, local.1 as int) == local_of(
            tile.center(),
            reference,
            displacement,
            tile.zoom as nat,
            tile_quality,
        ),
{
    world_to_local(tile.to_world_center(), reference, displacement, tile.zoom, tile_quality)
}

proof fn lemma_quotient_bound(v: int, d: int)
    requires
        d >= 4,
        -0xffff_ffff * 0xffff_ffff <= v <= 0xffff_ffff * 0xffff_ffff,
    ensures
        -0x4000_0000_0000_0000 <= v / d <= 0x4000_0000_0000_0000,
{
    lemma_fundamental_div_mod(v, d);
    lemma_mod_bound(v, d);
    let q = v / d;
    let r = v % d;
    assert(-0x4000_0000_0000_0000 <= q <= 0x4000_0000_0000_0000) by (nonlinear_arith)
        requires
            v == d * q + r,
            0 <= r < d,
            d >= 4,
            -0xffff_ffff * 0xffff_ffff <= v <= 0xffff_ffff * 0xffff_ffff,
    ;
}

/// Divides `v` by `d`, rounding up.
fn ceil_divide(v: i128, d: u64) -> (q: i128)
    requires
        d >= 1,
        -0x4000_0000_0000_0000_0000_0000_0000_0000 <= v <= 0x4000_0000_0000_0000_0000_0000_0000_0000,
    ensures
        q == ceil_div(v as int, d as int),
        v <= 0 ==> v <= q <= 0,
        v > 0 ==> 0 < q <= v,
{
    -floor_div(-v, d)
}

/// A point of the display whose distance from the reference point the
/// arithmetic can take.
pub open spec fn local_in_reach(local: (i128, i128)) -> bool {
    &&& -0x400_0000_0000_0000_0000_0000 <= local.0 <= 0x400_0000_0000_0000_0000_0000
    &&& -0x400_0000_0000_0000_0000_0000 <= local.1 <= 0x400_0000_0000_0000_0000_0000
}

/// Finds the point of the world at which a point of the display lies. The
/// east wraps around the world; a point beyond the northern or the southern
/// edge of the world has no place in it.
pub fn local_to_world(
    local: (i128, i128),
    reference: WorldPoint,
    displacement: (i64, i64),
    zoom: u32,
    tile_quality: u32,
) -> (point: Option<WorldPoint>)
    requires
        zoom <= MAX_TILE_ZOOM,
        tile_quality > 0,
        local_in_reach(local),
    ensures
        match point {
            Some(p) => {
                &&& 0 <= world_of(
                    (local.0 as int, local.1 as int),
                    reference,
                    displacement,
                    zoom as nat,
                    tile_quality,
                ).1 < WORLD_UNITS
                &&& p.x == world_of(
                    (local.0 as int, local.1 as int),
                    reference,
                    displacement,
                    zoom as nat,
                    tile_quality,
                ).0 % (WORLD_UNITS as int)
                &&& p.y == world_of(
                    (local.0 as int, local.1 as int),
                    reference,
                    displacement,
                    zoom as nat,
                    tile_quality,
                ).1
            },
            None => !(0 <= world_of(
                (local.0 as int, local.1 as int),
                reference,
                displacement,
                zoom as nat,
                tile_quality,
            ).1 < WORLD_UNITS),
        },
{
    proof {
        lemma_span_bounds(zoom as nat);
    }
    let span: u64 = power_of_two(WORLD_BITS - zoom);
    let east: i128 = local.0 + displacement.0 as i128;
    let north: i128 = local.1 + displacement.1 as i128;
    assert(-0x800_0000_0000_0000_0000_0000 * 0x1_0000_0000 <= east * span
        <= 0x800_0000_0000_0000_0000_0000 * 0x1_0000_0000) by (nonlinear_arith)
        requires
            -0x800_0000_0000_0000_0000_0000 <= east <= 0x800_0000_0000_0000_0000_0000,
            0 <= span <= 0x1_0000_0000,
    ;
    assert(-0x800_0000_0000_0000_0000_0000 * 0x1_0000_0000 <= north * span
        <= 0x800_0000_0000_0000_0000_0000 * 0x1_0000_0000) by (nonlinear_arith)
        requires
            -0x800_0000_0000_0000_0000_0000 <= north <= 0x800_0000_0000_0000_0000_0000,
            0 <= span <= 0x1_0000_0000,
    ;
    let x: i128 = reference.x as i128 + ceil_divide(east * (span as i128), tile_quality as u64);
    let y: i128 = reference.y as i128 - ceil_divide(north * (span as i128), tile_quality as u64);
    if y < 0 || y >= WORLD_UNITS as i128 {
        return None;
    }
    let turns: i128 = floor_div(x, WORLD_UNITS);
    proof {
        lemma_fundamental_div_mod(x as int, WORLD_UNITS as int);
        lemma_mod_bound(x as int, WORLD_UNITS as int);
        assert(WORLD_UNITS * turns == x - x as int % (WORLD_UNITS as int)) by (nonlinear_arith)
            requires
                x == WORLD_UNITS * turns + x as int % (WORLD_UNITS as int),
        ;
    }
    let wrapped: i128 = x - (WORLD_UNITS as i128) * turns;
    Some(WorldPoint { x: wrapped as u32, y: y as u32 })
}

/// From the display to the world and back is exact. Where a tile is at
/// least as many world units wide as display units, a point of the display
/// that has a place in the world lies, seen from that place, where it was.
pub proof fn lemma_display_round_trip(
    local: (int, int),
    reference: WorldPoint,
    displacement: (i64, i64),
    zoom: nat,
    quality: u32,
)
    requires
        zoom <= MAX_TILE_ZOOM,
        0 < quality <= tile_span(zoom),
        0 <= world_of(local, reference, displacement, zoom, quality).0 < WORLD_UNITS,
        0 <= world_of(local, reference, displacement, zoom, quality).1 < WORLD_UNITS,
    ensures
        ({
            let place = world_of(local, reference, displacement, zoom, quality);
            local_of(
                WorldPoint { x: place.0 as u32, y: place.1 as u32 },
                reference,
                displacement,
                zoom,
                quality,
            ) == local
        }),
{
    lemma_span_bounds(zoom);
    let span = tile_span(zoom) as int;
    lemma_up_then_down(local.0 + displacement.0, span, quality as int);
    lemma_up_then_down(local.1 + displacement.1, span, quality as int);
    let place = world_of(local, reference, displacement, zoom, quality);
    let east = ceil_div((local.0 + displacement.0) * span, quality as int);
    let north = ceil_div((local.1 + displacement.1) * span, quality as int);
    assert(place.0 - reference.x == east);
    assert(reference.y - place.1 == north);
}

/// Scaling up with rounding up, then down with rounding down, gives the
/// number back when the scale is at least one.
proof fn lemma_up_then_down(t: int, span: int, quality: int)
    requires
        0 < quality <= span,
    ensures
        ceil_div(t * span, quality) * quality / span == t,
{
    let a = t * span;
    lemma_fundamental_div_mod(-a, quality);
    lemma_mod_bound(-a, quality);
    let r = (-a) % quality;
    let c = ceil_div(a, quality);
    assert(c * quality == t * span + r) by (nonlinear_arith)
        requires
            -a == quality * ((-a) / quality) + r,
            c == -((-a) / quality),
            a == t * span,
    ;
    assert(c * quality == t * span + r);
    assert(t * span == span * t) by (nonlinear_arith);
    lemma_fundamental_div_mod_converse(c * quality, span, t, r);
}

/// From the world to the display and back is off by less than one display
/// unit. A point of the world, seen on the display and put back into the
/// world, lies west and south of where it was by less than the width of one
/// display unit, and never east or north of it.
pub proof fn lemma_world_round_trip(
    point: WorldPoint,
    reference: WorldPoint,
    displacement: (i64, i64),
    zoom: nat,
    quality: u32,
)
    requires
        zoom <= MAX_TILE_ZOOM,
        quality > 0,
    ensures
        ({
            let seen = local_of(point, reference, displacement, zoom, quality);
            let back = world_of(seen, reference, displacement, zoom, quality);
            &&& 0 <= point.x - back.0
            &&& (point.x - back.0) * quality < tile_span(zoom)
            &&& 0 <= back.1 - point.y
            &&& (back.1 - point.y) * quality < tile_span(zoom)
        }),
{
    lemma_span_bounds(zoom);
    let span = tile_span(zoom) as int;
    lemma_down_then_up(point.x - reference.x, span, quality as int);
    lemma_down_then_up(reference.y - point.y, span, quality as int);
}

/// Scaling down with rounding down, then up with rounding up, gives a
/// number that is not above the first and less than one step below it.
proof fn lemma_down_then_up(d: int, span: int, quality: int)
    requires
        0 < quality,
        0 < span,
    ensures
        0 <= d - ceil_div((d * quality / span) * span, quality),
        (d - ceil_div((d * quality / span) * span, quality)) * quality < span,
{
    let t = d * quality / span;
    lemma_fundamental_div_mod(d * quality, span);
    lemma_mod_bound(d * quality, span);
    let r1 = (d * quality) % span;
    let a = t * span;
    lemma_fundamental_div_mod(-a, quality);
    lemma_mod_bound(-a, quality);
    let r0 = (-a) % quality;
    let c = ceil_div(a, quality);
    assert(c * quality == t * span + r0) by (nonlinear_arith)
        requires
            -a == quality * ((-a) / quality) + r0,
            c == -((-a) / quality),
            a == t * span,
    ;
    assert((d - c) * quality == r1 - r0) by (nonlinear_arith)
        requires
            d * quality == span * t + r1,
            c * quality == t * span + r0,
    ;
    assert(d - c >= 0) by (nonlinear_arith)
        requires
            (d - c) * quality == r1 - r0,
            r1 >= 0,
            r0 < quality,
            quality > 0,
    ;
}

} // verus!
