//! Projection Math: pure conversions between Mercator positions, slippy-map
//! tile indices, longitudes in microdegrees, and camera-relative world
//! pixels.
//!
//! All transforms are parameterized by one fixed reference position and one
//! reference zoom, so world positions of different tiles stay additive;
//! world offsets are rounded to whole pixels so tiles land on pixel-aligned
//! boundaries.

use vstd::prelude::*;

use crate::coords::{
    lemma_pow2_bound_max_zoom, pow2, tiles_per_axis, MercPoint, MercRect, TileIndex, WorldPoint,
    LON_LIMIT_UDEG, MAX_ZOOM, MERC_CIRC_MM, MERC_HALF_MM,
};
use crate::intmath::{
    ceil_div, lemma_div_below, lemma_div_bounds, lemma_div_ordered, lemma_div_range,
    lemma_round_div_bound, lemma_round_div_round_trip, round_div, round_div_prod,
};

verus! {

/// Eastward offset of a Mercator `x` from the antimeridian, in millimetres.
pub open spec fn east_of(x: int) -> int {
    x + MERC_HALF_MM
}

/// Southward offset of a Mercator `y` from the northern edge: tile rows grow
/// south.
pub open spec fn south_of(y: int) -> int {
    MERC_HALF_MM - y
}

/// The tile ordinate (column or row) holding offset `u`, at a zoom level
/// with `n` tiles per axis.
pub open spec fn tile_ord(u: int, n: int) -> int {
    (u * n) / (MERC_CIRC_MM as int)
}

/// The least offset whose tile ordinate is `t`: the near edge of tile `t`.
pub open spec fn tile_edge(t: int, n: int) -> int {
    ceil_div(t * (MERC_CIRC_MM as int), n)
}

/// The tile holding a Mercator position.
pub open spec fn geo_to_tile_spec(p: MercPoint, zoom: u32) -> TileIndex {
    TileIndex {
        x: tile_ord(east_of(p.x as int), pow2(zoom as nat) as int) as u32,
        y: tile_ord(south_of(p.y as int), pow2(zoom as nat) as int) as u32,
        zoom,
    }
}

/// The north-west corner of a tile, as a Mercator position.
pub open spec fn tile_to_geo_spec(t: TileIndex) -> MercPoint {
    MercPoint {
        x: (tile_edge(t.x as int, pow2(t.zoom as nat) as int) - MERC_HALF_MM) as i64,
        y: (MERC_HALF_MM - tile_edge(t.y as int, pow2(t.zoom as nat) as int)) as i64,
    }
}

/// The Mercator rectangle a tile covers, corner to corner of the next
/// ordinates.
pub open spec fn tile_footprint_spec(t: TileIndex) -> MercRect {
    MercRect {
        min: MercPoint {
            x: (tile_edge(t.x as int, pow2(t.zoom as nat) as int) - MERC_HALF_MM) as i64,
            y: (MERC_HALF_MM - tile_edge(t.y as int + 1, pow2(t.zoom as nat) as int)) as i64,
        },
        max: MercPoint {
            x: (tile_edge(t.x as int + 1, pow2(t.zoom as nat) as int) - MERC_HALF_MM) as i64,
            y: (MERC_HALF_MM - tile_edge(t.y as int, pow2(t.zoom as nat) as int)) as i64,
        },
    }
}

/// `tile_edge` inverts `tile_ord` exactly, and edges stay on the Mercator
/// span.
proof fn lemma_edge_ord_inverse(t: int, n: int)
    requires
        0 < n <= MERC_CIRC_MM,
        0 <= t <= n,
    ensures
        0 <= tile_edge(t, n) <= MERC_CIRC_MM,
        t < n ==> tile_ord(tile_edge(t, n), n) == t,
{
    let c = MERC_CIRC_MM as int;
    let u = tile_edge(t, n);
    lemma_div_bounds(t * c + n - 1, n);
    assert(n * u <= t * c + n - 1 < n * u + n);
    assert(t * c <= n * u);
    assert(u >= 0) by (nonlinear_arith)
        requires
            n > 0,
            t * c >= 0,
            n * u >= t * c,
    ;
    assert(t * c >= 0) by (nonlinear_arith)
        requires
            t >= 0,
            c > 0,
    ;
    assert(t * c <= n * c) by (nonlinear_arith)
        requires
            t <= n,
            c > 0,
    ;
    assert(u <= c) by (nonlinear_arith)
        requires
            n > 0,
            c > 0,
            n * u <= t * c + n - 1,
            t * c <= n * c,
            n <= c,
    ;
    if t < n {
        assert(u * n == n * u) by (nonlinear_arith);
        assert(t * c + n - 1 < (t + 1) * c) by (nonlinear_arith)
            requires
                n <= c,
        ;
        lemma_div_range(u * n, t, c);
    }
}

/// Every offset on the span lands in a tile whose near edge is at most a
/// tile's width behind it.
proof fn lemma_ord_edge_bracket(u: int, n: int)
    requires
        0 < n <= MERC_CIRC_MM,
        0 <= u < MERC_CIRC_MM,
    ensures
        0 <= tile_ord(u, n) < n,
        tile_edge(tile_ord(u, n), n) <= u,
        n * (u - tile_edge(tile_ord(u, n), n)) < MERC_CIRC_MM,
        u < tile_edge(tile_ord(u, n) + 1, n),
{
    let c = MERC_CIRC_MM as int;
    let t = tile_ord(u, n);
    lemma_div_bounds(u * n, c);
    assert(c * t <= u * n < c * t + c);
    assert(u * n >= 0) by (nonlinear_arith)
        requires
            u >= 0,
            n > 0,
    ;
    assert(t >= 0) by (nonlinear_arith)
        requires
            c > 0,
            c * t + c > 0,
    ;
    assert(u * n < n * c) by (nonlinear_arith)
        requires
            u < c,
            n > 0,
    ;
    lemma_div_below(u * n, n, c);
    // the near edge of tile t is at or before u
    let e = tile_edge(t, n);
    lemma_div_bounds(t * c + n - 1, n);
    assert(n * e <= t * c + n - 1 < n * e + n);
    assert(t * c == c * t) by (nonlinear_arith);
    assert(e <= u) by (nonlinear_arith)
        requires
            n > 0,
            n * e <= c * t + n - 1,
            c * t <= u * n,
    ;
    assert(t * c <= n * e);
    assert(n * (u - e) < c) by (nonlinear_arith)
        requires
            n * e >= c * t,
            u * n < c * t + c,
    ;
    // the near edge of tile t + 1 is past u
    let e1 = tile_edge(t + 1, n);
    lemma_div_bounds((t + 1) * c + n - 1, n);
    assert(n * e1 <= (t + 1) * c + n - 1 < n * e1 + n);
    assert((t + 1) * c <= n * e1);
    assert(u < e1) by (nonlinear_arith)
        requires
            n > 0,
            (t + 1) * c <= n * e1,
            u * n < c * t + c,
            (t + 1) * c == c * t + c,
    ;
    assert((t + 1) * c == c * t + c) by (nonlinear_arith);
}

/// Projection Math: the slippy-map tile holding a Mercator position.
///
/// The position must lie strictly east of the antimeridian's western edge
/// and strictly north of the southern Mercator edge; on the edges themselves
/// the grid index would fall outside the pyramid, and the caller clamps
/// first.
pub fn geo_to_tile(p: MercPoint, zoom: u32) -> (t: TileIndex)
    requires
        zoom <= MAX_ZOOM,
        p.valid(),
        p.x < MERC_HALF_MM,
        -MERC_HALF_MM < p.y,
    ensures
        t == geo_to_tile_spec(p, zoom),
        t.valid(),
{
    proof {
        lemma_pow2_bound_max_zoom(zoom as nat);
        lemma_ord_edge_bracket(east_of(p.x as int), pow2(zoom as nat) as int);
        lemma_ord_edge_bracket(south_of(p.y as int), pow2(zoom as nat) as int);
    }
    let n = tiles_per_axis(zoom);
    let ux = (p.x + MERC_HALF_MM) as u64;
    let uy = (MERC_HALF_MM - p.y) as u64;
    proof {
        assert(ux * n <= MERC_CIRC_MM as int * 0x100_0000) by (nonlinear_arith)
            requires
                ux <= MERC_CIRC_MM,
                n <= 0x100_0000,
        ;
        assert(uy * n <= MERC_CIRC_MM as int * 0x100_0000) by (nonlinear_arith)
            requires
                uy <= MERC_CIRC_MM,
                n <= 0x100_0000,
        ;
    }
    let tx = (ux * n) / (MERC_CIRC_MM as u64);
    let ty = (uy * n) / (MERC_CIRC_MM as u64);
    TileIndex { x: tx as u32, y: ty as u32, zoom }
}

/// Projection Math: the north-west corner of a tile, as a Mercator
/// position. The inverse of `geo_to_tile` up to the tile's width.
pub fn tile_to_geo(t: TileIndex) -> (p: MercPoint)
    requires
        t.valid(),
    ensures
        p == tile_to_geo_spec(t),
        p.valid(),
{
    proof {
        lemma_pow2_bound_max_zoom(t.zoom as nat);
        lemma_edge_ord_inverse(t.x as int, pow2(t.zoom as nat) as int);
        lemma_edge_ord_inverse(t.y as int, pow2(t.zoom as nat) as int);
    }
    let n = tiles_per_axis(t.zoom);
    proof {
        assert((t.x as int) * (MERC_CIRC_MM as int) <= 0x100_0000 * (MERC_CIRC_MM as int))
            by (nonlinear_arith)
            requires
                t.x <= 0x100_0000,
        ;
        assert((t.y as int) * (MERC_CIRC_MM as int) <= 0x100_0000 * (MERC_CIRC_MM as int))
            by (nonlinear_arith)
            requires
                t.y <= 0x100_0000,
        ;
    }
    let ex = ((t.x as u64) * (MERC_CIRC_MM as u64) + n - 1) / n;
    let ey = ((t.y as u64) * (MERC_CIRC_MM as u64) + n - 1) / n;
    MercPoint { x: (ex as i64) - MERC_HALF_MM, y: MERC_HALF_MM - (ey as i64) }
}

/// Projection Math: the Mercator rectangle a tile covers. A tile's
/// footprint is computed once, from its index alone.
pub fn tile_footprint(t: TileIndex) -> (r: MercRect)
    requires
        t.valid(),
    ensures
        r == tile_footprint_spec(t),
        r.wf(),
{
    proof {
        lemma_pow2_bound_max_zoom(t.zoom as nat);
        lemma_edge_ord_inverse(t.x as int, pow2(t.zoom as nat) as int);
        lemma_edge_ord_inverse(t.x as int + 1, pow2(t.zoom as nat) as int);
        lemma_edge_ord_inverse(t.y as int, pow2(t.zoom as nat) as int);
        lemma_edge_ord_inverse(t.y as int + 1, pow2(t.zoom as nat) as int);
        let c = MERC_CIRC_MM as int;
        let n = pow2(t.zoom as nat) as int;
        assert((t.x as int) * c <= (t.x as int + 1) * c) by (nonlinear_arith)
            requires
                c > 0,
        ;
        assert((t.y as int) * c <= (t.y as int + 1) * c) by (nonlinear_arith)
            requires
                c > 0,
        ;
        lemma_div_ordered((t.x as int) * c + n - 1, (t.x as int + 1) * c + n - 1, n);
        lemma_div_ordered((t.y as int) * c + n - 1, (t.y as int + 1) * c + n - 1, n);
    }
    let n = tiles_per_axis(t.zoom);
    proof {
        assert((t.x as int + 1) * (MERC_CIRC_MM as int) <= 0x100_0000 * (MERC_CIRC_MM as int))
            by (nonlinear_arith)
            requires
                t.x as int + 1 <= 0x100_0000,
        ;
        assert((t.y as int + 1) * (MERC_CIRC_MM as int) <= 0x100_0000 * (MERC_CIRC_MM as int))
            by (nonlinear_arith)
            requires
                t.y as int + 1 <= 0x100_0000,
        ;
    }
    let ex0 = ((t.x as u64) * (MERC_CIRC_MM as u64) + n - 1) / n;
    let ex1 = ((t.x as u64 + 1) * (MERC_CIRC_MM as u64) + n - 1) / n;
    let ey0 = ((t.y as u64) * (MERC_CIRC_MM as u64) + n - 1) / n;
    let ey1 = ((t.y as u64 + 1) * (MERC_CIRC_MM as u64) + n - 1) / n;
    MercRect {
        min: MercPoint { x: (ex0 as i64) - MERC_HALF_MM, y: MERC_HALF_MM - (ey1 as i64) },
        max: MercPoint { x: (ex1 as i64) - MERC_HALF_MM, y: MERC_HALF_MM - (ey0 as i64) },
    }
}

/// Millimetres per `scale_den(ref_zoom, tile_px)` world pixels: the world
/// scale is `MERC_CIRC_MM / scale_den`, millimetres per pixel.
pub open spec fn scale_den(ref_zoom: u32, tile_px: u32) -> int {
    pow2(ref_zoom as nat) * tile_px
}

/// A world offset projected onto the Mercator plane about a reference
/// position, rounded to the nearest millimetre.
pub open spec fn world_to_merc_spec(
    w: WorldPoint,
    refp: MercPoint,
    ref_zoom: u32,
    tile_px: u32,
) -> MercPoint {
    MercPoint {
        x: (refp.x + round_div(w.x * MERC_CIRC_MM, scale_den(ref_zoom, tile_px))) as i64,
        y: (refp.y + round_div(w.y * MERC_CIRC_MM, scale_den(ref_zoom, tile_px))) as i64,
    }
}

/// A Mercator position carried back to a camera-relative world offset,
/// rounded to the nearest pixel.
pub open spec fn merc_to_world_spec(
    m: MercPoint,
    refp: MercPoint,
    ref_zoom: u32,
    tile_px: u32,
) -> WorldPoint {
    WorldPoint {
        x: round_div((m.x - refp.x) * scale_den(ref_zoom, tile_px), MERC_CIRC_MM as int) as i64,
        y: round_div((m.y - refp.y) * scale_den(ref_zoom, tile_px), MERC_CIRC_MM as int) as i64,
    }
}

/// The bound every world offset handed to the projection obeys.
pub open spec fn world_offset_ok(w: WorldPoint) -> bool {
    &&& -(WORLD_LIMIT_PX as int) <= w.x <= WORLD_LIMIT_PX
    &&& -(WORLD_LIMIT_PX as int) <= w.y <= WORLD_LIMIT_PX
}

/// Largest camera offset, in pixels, the projection accepts; keeps the
/// scaled products inside 64 bits.
pub const WORLD_LIMIT_PX: i64 = 50_000_000;

/// The parameters every projection about a reference obeys: a tile edge of
/// at most 4096 pixels, and a world scale strictly coarser than one pixel
/// per millimetre.
pub open spec fn scale_ok(ref_zoom: u32, tile_px: u32) -> bool {
    &&& ref_zoom <= MAX_ZOOM
    &&& 0 < tile_px <= 4096
    &&& scale_den(ref_zoom, tile_px) < MERC_CIRC_MM
}

/// Run-time check of `scale_ok`.
pub fn check_scale(ref_zoom: u32, tile_px: u32) -> (r: bool)
    ensures
        r == scale_ok(ref_zoom, tile_px),
{
    if ref_zoom <= MAX_ZOOM && 0 < tile_px && tile_px <= 4096 {
        proof {
            lemma_pow2_bound_max_zoom(ref_zoom as nat);
            assert(pow2(ref_zoom as nat) * tile_px <= 0x100_0000 * 4096) by (nonlinear_arith)
                requires
                    pow2(ref_zoom as nat) <= 0x100_0000,
                    0 < tile_px <= 4096,
            ;
            assert(pow2(ref_zoom as nat) * tile_px >= tile_px) by (nonlinear_arith)
                requires
                    pow2(ref_zoom as nat) >= 1,
                    tile_px > 0,
            ;
        }
        let den = tiles_per_axis(ref_zoom) * (tile_px as u64);
        den < MERC_CIRC_MM as u64
    } else {
        false
    }
}

/// Projection Math: project a camera-relative world offset into Mercator
/// space about a fixed reference position, rounding to whole millimetres.
pub fn world_to_mercator(w: WorldPoint, refp: MercPoint, ref_zoom: u32, tile_px: u32) -> (m:
    MercPoint)
    requires
        refp.valid(),
        scale_ok(ref_zoom, tile_px),
        world_offset_ok(w),
    ensures
        m == world_to_merc_spec(w, refp, ref_zoom, tile_px),
        m.x == refp.x + round_div(w.x * MERC_CIRC_MM, scale_den(ref_zoom, tile_px)),
        m.y == refp.y + round_div(w.y * MERC_CIRC_MM, scale_den(ref_zoom, tile_px)),
{
    proof {
        lemma_pow2_bound_max_zoom(ref_zoom as nat);
        assert(tile_px <= pow2(ref_zoom as nat) * tile_px <= 0x100_0000 * 4096)
            by (nonlinear_arith)
            requires
                1 <= pow2(ref_zoom as nat) <= 0x100_0000,
                1 <= tile_px <= 4096,
        ;
    }
    let den = (tiles_per_axis(ref_zoom) * (tile_px as u64)) as i64;
    proof {
        let d = den as int;
        assert(-0x2000_0000_0000_0000 * d <= w.x * MERC_CIRC_MM <= 0x2000_0000_0000_0000 * d)
            by (nonlinear_arith)
            requires
                d >= 1,
                -(WORLD_LIMIT_PX as int) <= w.x <= WORLD_LIMIT_PX,
        ;
        assert(-0x2000_0000_0000_0000 * d <= w.y * MERC_CIRC_MM <= 0x2000_0000_0000_0000 * d)
            by (nonlinear_arith)
            requires
                d >= 1,
                -(WORLD_LIMIT_PX as int) <= w.y <= WORLD_LIMIT_PX,
        ;
    }
    let dx = round_div_prod(w.x, MERC_CIRC_MM, den);
    let dy = round_div_prod(w.y, MERC_CIRC_MM, den);
    MercPoint { x: refp.x + dx, y: refp.y + dy }
}

/// Projection Math: carry a Mercator position back to a camera-relative
/// world offset, rounding to whole pixels. The inverse of
/// `world_to_mercator`.
pub fn mercator_to_world(m: MercPoint, refp: MercPoint, ref_zoom: u32, tile_px: u32) -> (w:
    WorldPoint)
    requires
        m.valid(),
        refp.valid(),
        scale_ok(ref_zoom, tile_px),
    ensures
        w == merc_to_world_spec(m, refp, ref_zoom, tile_px),
{
    proof {
        lemma_pow2_bound_max_zoom(ref_zoom as nat);
        assert(tile_px <= pow2(ref_zoom as nat) * tile_px <= 0x100_0000 * 4096)
            by (nonlinear_arith)
            requires
                1 <= pow2(ref_zoom as nat) <= 0x100_0000,
                1 <= tile_px <= 4096,
        ;
    }
    let den = (tiles_per_axis(ref_zoom) * (tile_px as u64)) as i64;
    proof {
        let d = den as int;
        let c = MERC_CIRC_MM as int;
        assert(-0x2000_0000_0000_0000 * c <= (m.x - refp.x) * d <= 0x2000_0000_0000_0000 * c)
            by (nonlinear_arith)
            requires
                0 < d < c,
                c == MERC_CIRC_MM as int,
                -c <= m.x - refp.x <= c,
        ;
        assert(-0x2000_0000_0000_0000 * c <= (m.y - refp.y) * d <= 0x2000_0000_0000_0000 * c)
            by (nonlinear_arith)
            requires
                0 < d < c,
                c == MERC_CIRC_MM as int,
                -c <= m.y - refp.y <= c,
        ;
    }
    let wx = round_div_prod(m.x - refp.x, den, MERC_CIRC_MM);
    let wy = round_div_prod(m.y - refp.y, den, MERC_CIRC_MM);
    WorldPoint { x: wx, y: wy }
}

/// Law: projecting a world offset about a reference and carrying it back
/// reproduces the offset exactly — the Mercator round trip, at the pixel
/// rounding the engine works in.
pub proof fn lemma_world_merc_round_trip(
    w: WorldPoint,
    refp: MercPoint,
    ref_zoom: u32,
    tile_px: u32,
)
    requires
        refp.valid(),
        scale_ok(ref_zoom, tile_px),
        world_offset_ok(w),
    ensures
        merc_to_world_spec(
            world_to_merc_spec(w, refp, ref_zoom, tile_px),
            refp,
            ref_zoom,
            tile_px,
        ) == w,
{
    let d = scale_den(ref_zoom, tile_px);
    let c = MERC_CIRC_MM as int;
    lemma_pow2_bound_max_zoom(ref_zoom as nat);
    assert(d >= 1) by (nonlinear_arith)
        requires
            pow2(ref_zoom as nat) >= 1,
            tile_px >= 1,
            d == pow2(ref_zoom as nat) * tile_px,
    ;
    assert(-0x2000_0000_0000_0000 * d <= w.x * c <= 0x2000_0000_0000_0000 * d)
        by (nonlinear_arith)
        requires
            d >= 1,
            c == MERC_CIRC_MM as int,
            -(WORLD_LIMIT_PX as int) <= w.x <= WORLD_LIMIT_PX,
    ;
    assert(-0x2000_0000_0000_0000 * d <= w.y * c <= 0x2000_0000_0000_0000 * d)
        by (nonlinear_arith)
        requires
            d >= 1,
            c == MERC_CIRC_MM as int,
            -(WORLD_LIMIT_PX as int) <= w.y <= WORLD_LIMIT_PX,
    ;
    lemma_round_div_bound(w.x * c, d, 0x2000_0000_0000_0000);
    lemma_round_div_bound(w.y * c, d, 0x2000_0000_0000_0000);
    lemma_round_div_round_trip(w.x as int, c, d);
    lemma_round_div_round_trip(w.y as int, c, d);
}

/// Longitude in microdegrees carried onto the Mercator `x` axis.
pub open spec fn lon_to_merc_x_spec(lon: int) -> int {
    round_div(lon * MERC_HALF_MM, LON_LIMIT_UDEG as int)
}

/// A Mercator `x` carried back to a longitude in microdegrees.
pub open spec fn merc_x_to_lon_spec(x: int) -> int {
    round_div(x * LON_LIMIT_UDEG, MERC_HALF_MM as int)
}

/// Projection Math: longitude, in microdegrees, to Mercator `x` in
/// millimetres. Latitude has no such linear form; its projection happens
/// outside the engine.
pub fn lon_to_merc_x(lon_udeg: i64) -> (x: i64)
    requires
        -LON_LIMIT_UDEG <= lon_udeg <= LON_LIMIT_UDEG,
    ensures
        x == lon_to_merc_x_spec(lon_udeg as int),
        -MERC_HALF_MM <= x <= MERC_HALF_MM,
{
    proof {
        let l = LON_LIMIT_UDEG as int;
        let h = MERC_HALF_MM as int;
        assert(-h * l <= lon_udeg * h <= h * l) by (nonlinear_arith)
            requires
                -l <= lon_udeg <= l,
                h > 0,
        ;
        lemma_round_div_bound(lon_udeg * h, l, h);
        assert(-0x2000_0000_0000_0000 * l <= lon_udeg * h <= 0x2000_0000_0000_0000 * l)
            by (nonlinear_arith)
            requires
                -h * l <= lon_udeg * h <= h * l,
                0 < h <= 0x2000_0000_0000_0000,
                l > 0,
        ;
    }
    round_div_prod(lon_udeg, MERC_HALF_MM, LON_LIMIT_UDEG)
}

/// Projection Math: Mercator `x` in millimetres back to a longitude in
/// microdegrees.
pub fn merc_x_to_lon(x: i64) -> (lon: i64)
    requires
        -MERC_HALF_MM <= x <= MERC_HALF_MM,
    ensures
        lon == merc_x_to_lon_spec(x as int),
        -LON_LIMIT_UDEG <= lon <= LON_LIMIT_UDEG,
{
    proof {
        let l = LON_LIMIT_UDEG as int;
        let h = MERC_HALF_MM as int;
        assert(-l * h <= x * l <= l * h) by (nonlinear_arith)
            requires
                -h <= x <= h,
                l > 0,
        ;
        lemma_round_div_bound(x * l, h, l);
        assert(-0x2000_0000_0000_0000 * h <= x * l <= 0x2000_0000_0000_0000 * h)
            by (nonlinear_arith)
            requires
                -l * h <= x * l <= l * h,
                0 < l <= 0x2000_0000_0000_0000,
                h > 0,
        ;
    }
    round_div_prod(x, LON_LIMIT_UDEG, MERC_HALF_MM)
}

/// Law: a longitude sent onto the Mercator axis and back is recovered
/// exactly, at microdegree precision.
pub proof fn lemma_lon_round_trip(lon: int)
    requires
        -LON_LIMIT_UDEG <= lon <= LON_LIMIT_UDEG,
    ensures
        merc_x_to_lon_spec(lon_to_merc_x_spec(lon)) == lon,
{
    lemma_round_div_round_trip(lon, MERC_HALF_MM as int, LON_LIMIT_UDEG as int);
}

/// The angular width of one tile at a zoom level, in microdegrees.
pub fn level_to_tile_width(level: u32) -> (w: u64)
    requires
        level <= MAX_ZOOM,
    ensures
        w == 360_000_000int / (pow2(level as nat) as int),
{
    proof {
        lemma_pow2_bound_max_zoom(level as nat);
    }
    360_000_000u64 / tiles_per_axis(level)
}

/// Law: a tile, sent to its north-west corner and back through
/// `geo_to_tile`, is recovered exactly.
pub proof fn lemma_tile_corner_round_trip(t: TileIndex)
    requires
        t.valid(),
    ensures
        geo_to_tile_spec(tile_to_geo_spec(t), t.zoom) == t,
{
    let n = pow2(t.zoom as nat) as int;
    lemma_pow2_bound_max_zoom(t.zoom as nat);
    lemma_edge_ord_inverse(t.x as int, n);
    lemma_edge_ord_inverse(t.y as int, n);
}

/// Law: for a position on the open Mercator square, the corner returned for
/// its tile lies at most one tile's width east of it and one tile's height
/// south of it; `n * gap < MERC_CIRC_MM` says the gap is below the width
/// `MERC_CIRC_MM / n`.
pub proof fn lemma_tile_round_trip(p: MercPoint, zoom: u32)
    requires
        zoom <= MAX_ZOOM,
        p.valid(),
        p.x < MERC_HALF_MM,
        -MERC_HALF_MM < p.y,
    ensures
        geo_to_tile_spec(p, zoom).valid(),
        tile_to_geo_spec(geo_to_tile_spec(p, zoom)).x <= p.x,
        pow2(zoom as nat) * (p.x - tile_to_geo_spec(geo_to_tile_spec(p, zoom)).x)
            < MERC_CIRC_MM,
        tile_to_geo_spec(geo_to_tile_spec(p, zoom)).y >= p.y,
        pow2(zoom as nat) * (tile_to_geo_spec(geo_to_tile_spec(p, zoom)).y - p.y)
            < MERC_CIRC_MM,
{
    let n = pow2(zoom as nat) as int;
    lemma_pow2_bound_max_zoom(zoom as nat);
    lemma_ord_edge_bracket(east_of(p.x as int), n);
    lemma_ord_edge_bracket(south_of(p.y as int), n);
    lemma_edge_ord_inverse(tile_ord(east_of(p.x as int), n), n);
    lemma_edge_ord_inverse(tile_ord(south_of(p.y as int), n), n);
}

/// Law: a position lies inside the footprint of the tile chosen for it.
pub proof fn lemma_footprint_contains(p: MercPoint, zoom: u32)
    requires
        zoom <= MAX_ZOOM,
        p.valid(),
        p.x < MERC_HALF_MM,
        -MERC_HALF_MM < p.y,
    ensures
        tile_footprint_spec(geo_to_tile_spec(p, zoom)).contains_point(p),
{
    let n = pow2(zoom as nat) as int;
    lemma_pow2_bound_max_zoom(zoom as nat);
    lemma_ord_edge_bracket(east_of(p.x as int), n);
    lemma_ord_edge_bracket(south_of(p.y as int), n);
    lemma_edge_ord_inverse(tile_ord(east_of(p.x as int), n), n);
    lemma_edge_ord_inverse(tile_ord(south_of(p.y as int), n), n);
    lemma_edge_ord_inverse(tile_ord(east_of(p.x as int), n) + 1, n);
    lemma_edge_ord_inverse(tile_ord(south_of(p.y as int), n) + 1, n);
}

} // verus!
