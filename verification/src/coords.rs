//! Coordinate spaces and their fixed-point representations.
//!
//! Three spaces are used throughout the engine:
//! - geographic: longitude in microdegrees, latitude carried in its
//!   Web Mercator projected form (the projection of a latitude in degrees is
//!   transcendental and is performed outside the engine);
//! - Mercator: a global EPSG:3857 position in millimetres, `x` growing east
//!   and `y` growing north, both spanning `[-MERC_HALF_MM, MERC_HALF_MM]`;
//! - world: camera-relative pixel offsets, rounded to whole pixels so that
//!   tiles land on pixel-aligned boundaries.

use vstd::prelude::*;

verus! {

/// Half the Web Mercator circumference, in millimetres (20037.50834 km).
pub const MERC_HALF_MM: i64 = 20_037_508_340;

/// The full Web Mercator circumference, in millimetres.
pub const MERC_CIRC_MM: i64 = 40_075_016_680;

/// Longitude bound, in microdegrees.
pub const LON_LIMIT_UDEG: i64 = 180_000_000;

/// The deepest zoom level the engine accepts; keeps every intermediate
/// product of the tile formulas inside `i64`.
pub const MAX_ZOOM: u32 = 24;

/// `2^e`, the number of tiles per axis at zoom `e`.
pub open spec fn pow2(e: nat) -> nat
    decreases e,
{
    if e == 0 {
        1
    } else {
        2 * pow2((e - 1) as nat)
    }
}

pub proof fn lemma_pow2_monotone(a: nat, b: nat)
    requires
        a <= b,
    ensures
        pow2(a) <= pow2(b),
    decreases b,
{
    if a < b && b > 0 {
        lemma_pow2_monotone(a, (b - 1) as nat);
    }
}

pub proof fn lemma_pow2_bound_max_zoom(e: nat)
    requires
        e <= MAX_ZOOM,
    ensures
        0 < pow2(e) <= 0x100_0000,
{
    lemma_pow2_monotone(e, MAX_ZOOM as nat);
    assert(pow2(24) == 0x100_0000) by {
        reveal_with_fuel(pow2, 25);
    }
}

/// The number of tiles per axis at zoom `e`, as a run-time value.
pub fn tiles_per_axis(e: u32) -> (r: u64)
    requires
        e <= MAX_ZOOM,
    ensures
        r == pow2(e as nat),
        1 <= r <= 0x100_0000,
{
    proof {
        lemma_pow2_bound_max_zoom(e as nat);
    }
    let mut r: u64 = 1;
    let mut i: u32 = 0;
    while i < e
        invariant
            i <= e <= MAX_ZOOM,
            r == pow2(i as nat),
        decreases e - i,
    {
        proof {
            lemma_pow2_bound_max_zoom((i + 1) as nat);
        }
        r = r * 2;
        i = i + 1;
    }
    r
}

/// One tile of the slippy-map pyramid: column `x`, row `y` (row 0 at the
/// northern Mercator edge), at a zoom level with `2^zoom` tiles per axis.
#[derive(Clone, Copy, Debug, PartialEq, Eq, Structural)]
pub struct TileIndex {
    pub x: u32,
    pub y: u32,
    pub zoom: u32,
}

impl TileIndex {
    /// The pyramid invariant: both indices lie inside the zoom level's grid.
    pub open spec fn valid(self) -> bool {
        &&& self.zoom <= MAX_ZOOM
        &&& (self.x as nat) < pow2(self.zoom as nat)
        &&& (self.y as nat) < pow2(self.zoom as nat)
    }
}

/// A global Web Mercator position in millimetres.
#[derive(Clone, Copy, Debug, PartialEq, Eq, Structural)]
pub struct MercPoint {
    pub x: i64,
    pub y: i64,
}

impl MercPoint {
    /// The position lies on the Mercator square.
    pub open spec fn valid(self) -> bool {
        &&& -MERC_HALF_MM <= self.x <= MERC_HALF_MM
        &&& -MERC_HALF_MM <= self.y <= MERC_HALF_MM
    }
}

/// A camera-relative offset in whole screen pixels.
#[derive(Clone, Copy, Debug, PartialEq, Eq, Structural)]
pub struct WorldPoint {
    pub x: i64,
    pub y: i64,
}

/// An axis-aligned rectangle in Mercator space, corners included.
#[derive(Clone, Copy, Debug, PartialEq, Eq, Structural)]
pub struct MercRect {
    pub min: MercPoint,
    pub max: MercPoint,
}

impl MercRect {
    /// Well-formed: the corners are ordered. A rectangle may extend past the
    /// Mercator square (a camera can pan off the map); tile footprints never
    /// do.
    pub open spec fn wf(self) -> bool {
        &&& self.min.x <= self.max.x
        &&& self.min.y <= self.max.y
    }

    /// Closed-rectangle intersection, the same notion the spatial index uses.
    pub open spec fn intersects(self, other: MercRect) -> bool {
        &&& self.min.x <= other.max.x
        &&& other.min.x <= self.max.x
        &&& self.min.y <= other.max.y
        &&& other.min.y <= self.max.y
    }

    /// Whether a point lies in the closed rectangle.
    pub open spec fn contains_point(self, p: MercPoint) -> bool {
        &&& self.min.x <= p.x <= self.max.x
        &&& self.min.y <= p.y <= self.max.y
    }
}

/// A loaded tile: its grid index, its Mercator footprint (computed once from
/// the index, never recomputed), and the renderer's opaque imagery handle.
#[derive(Clone, Copy, Debug, PartialEq, Eq, Structural)]
pub struct Tile {
    pub index: TileIndex,
    pub footprint: MercRect,
    pub imagery: u64,
}

impl Tile {
    pub open spec fn valid(self) -> bool {
        &&& self.index.valid()
        &&& self.footprint.wf()
    }
}

} // verus!
