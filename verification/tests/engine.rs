use ofm_tiles::coords::{MercPoint, MercRect, Tile, TileIndex, WorldPoint};
use ofm_tiles::index::SpatialIndex;
use ofm_tiles::proj::{
    geo_to_tile, level_to_tile_width, lon_to_merc_x, merc_x_to_lon, mercator_to_world,
    tile_footprint, tile_to_geo, world_to_mercator,
};
use ofm_tiles::render::RenderSet;
use ofm_tiles::viewport::{camera_space_to_visible_rect, CameraFrame};

const MERC_HALF_MM: i64 = 20_037_508_340;
const REF_LAT: f64 = 52.18492;
const REF_LON: f64 = 0.14281721;
const REF_ZOOM: u32 = 14;
const TILE_PX: u32 = 512;

/// The transcendental boundary conversion: degrees to Mercator millimetres.
fn merc_from_deg(lon: f64, lat: f64) -> MercPoint {
    let x = lon / 180.0 * (MERC_HALF_MM as f64);
    let lat_rad = lat.to_radians();
    let y = (std::f64::consts::FRAC_PI_4 + lat_rad / 2.0).tan().ln() * 20_037_508.34
        / std::f64::consts::PI * 1000.0;
    MercPoint {
        x: x.round() as i64,
        y: y.round() as i64,
    }
}

fn make_tile(x: u32, y: u32, zoom: u32, imagery: u64) -> Tile {
    let index = TileIndex { x, y, zoom };
    Tile {
        index,
        footprint: tile_footprint(index),
        imagery,
    }
}

fn rects_intersect(a: &MercRect, b: &MercRect) -> bool {
    a.min.x <= b.max.x && b.min.x <= a.max.x && a.min.y <= b.max.y && b.min.y <= a.max.y
}

fn sorted_keys(tiles: &[Tile]) -> Vec<(u32, u32, u32)> {
    let mut keys: Vec<(u32, u32, u32)> = tiles
        .iter()
        .map(|t| (t.index.x, t.index.y, t.index.zoom))
        .collect();
    keys.sort();
    keys
}

#[test]
fn geo_to_tile_matches_slippy_formula_at_reference() {
    let p = merc_from_deg(REF_LON, REF_LAT);
    assert_eq!(p.x, 15_898_339);
    assert_eq!(p.y, 6_833_630_672);
    let t = geo_to_tile(p, REF_ZOOM);
    // the standard float slippy formula gives the same pair
    let n = (1u64 << REF_ZOOM) as f64;
    let fx = (n * (REF_LON + 180.0) / 360.0).floor() as u32;
    let fy = (n * (1.0 - (REF_LAT.to_radians().tan().asinh()) / std::f64::consts::PI) / 2.0)
        .floor() as u32;
    assert_eq!((t.x, t.y, t.zoom), (8198, 5398, REF_ZOOM));
    assert_eq!((fx, fy), (8198, 5398));
}

#[test]
fn tile_index_range_holds_at_extremes() {
    for zoom in [0u32, 1, 5, 14, 20] {
        let n = 1u32 << zoom;
        for p in [
            MercPoint { x: -MERC_HALF_MM, y: MERC_HALF_MM },
            MercPoint { x: MERC_HALF_MM - 1, y: -MERC_HALF_MM + 1 },
            MercPoint { x: 0, y: 0 },
            MercPoint { x: -1, y: 1 },
        ] {
            let t = geo_to_tile(p, zoom);
            assert!(t.x < n && t.y < n, "zoom {zoom} gave ({}, {})", t.x, t.y);
        }
    }
}

#[test]
fn tile_round_trip_recovers_tile_exactly() {
    for (x, y, zoom) in [(0u32, 0u32, 0u32), (8198, 5398, 14), (1, 0, 1), (1023, 17, 10)] {
        let t = TileIndex { x, y, zoom };
        let corner = tile_to_geo(t);
        let back = geo_to_tile(corner, zoom);
        assert_eq!((back.x, back.y, back.zoom), (x, y, zoom));
    }
}

#[test]
fn tile_round_trip_stays_within_one_tile() {
    let zoom = 14u32;
    let width_mm = (2 * MERC_HALF_MM) / (1i64 << zoom);
    let p = merc_from_deg(REF_LON, REF_LAT);
    let corner = tile_to_geo(geo_to_tile(p, zoom));
    assert!(corner.x <= p.x && p.x - corner.x <= width_mm + 1);
    assert!(corner.y >= p.y && corner.y - p.y <= width_mm + 1);
}

#[test]
fn tile_footprint_exact_at_zoom_one() {
    let fp = tile_footprint(TileIndex { x: 0, y: 0, zoom: 1 });
    assert_eq!(fp.min.x, -MERC_HALF_MM);
    assert_eq!(fp.max.x, 0);
    assert_eq!(fp.min.y, 0);
    assert_eq!(fp.max.y, MERC_HALF_MM);
}

#[test]
fn footprint_contains_its_point() {
    let p = merc_from_deg(REF_LON, REF_LAT);
    let t = geo_to_tile(p, REF_ZOOM);
    let fp = tile_footprint(t);
    assert_eq!((fp.min.x, fp.max.x), (14_675_910, 17_121_895));
    assert_eq!((fp.min.y, fp.max.y), (6_831_635_839, 6_834_081_823));
    assert!(fp.min.x <= p.x && p.x <= fp.max.x);
    assert!(fp.min.y <= p.y && p.y <= fp.max.y);
}

#[test]
fn lon_round_trip_is_exact() {
    for lon in [0i64, 142_817, -180_000_000, 180_000_000, 37_617_555] {
        let x = lon_to_merc_x(lon);
        assert_eq!(merc_x_to_lon(x), lon);
    }
    assert_eq!(lon_to_merc_x(142_817), 15_898_316);
}

#[test]
fn world_mercator_round_trip_is_exact() {
    let refp = merc_from_deg(REF_LON, REF_LAT);
    for (wx, wy) in [(0i64, 0i64), (12_345, -6_789), (-400, 300), (1_000_000, -1_000_000)] {
        let w = WorldPoint { x: wx, y: wy };
        let m = world_to_mercator(w, refp, REF_ZOOM, TILE_PX);
        let back = mercator_to_world(m, refp, REF_ZOOM, TILE_PX);
        assert_eq!((back.x, back.y), (wx, wy));
    }
}

#[test]
fn world_origin_projects_to_reference() {
    let refp = merc_from_deg(REF_LON, REF_LAT);
    let m = world_to_mercator(WorldPoint { x: 0, y: 0 }, refp, REF_ZOOM, TILE_PX);
    assert_eq!((m.x, m.y), (refp.x, refp.y));
}

#[test]
fn level_to_tile_width_exact_values() {
    assert_eq!(level_to_tile_width(0), 360_000_000);
    assert_eq!(level_to_tile_width(3), 45_000_000);
    assert_eq!(level_to_tile_width(14), 21_972);
}

#[test]
fn spatial_index_query_matches_brute_force() {
    let mut index = SpatialIndex::new();
    let mut stored: Vec<Tile> = Vec::new();
    for (x, y) in [(0u32, 0u32), (1, 0), (2, 3), (5, 5), (7, 1), (3, 3), (4, 4)] {
        let tile = make_tile(x, y, 3, (x * 10 + y) as u64);
        assert!(!index.contains_index(tile.index));
        index.insert(tile);
        stored.push(tile);
    }
    let queries = [
        MercRect {
            min: MercPoint { x: -MERC_HALF_MM, y: -MERC_HALF_MM },
            max: MercPoint { x: MERC_HALF_MM, y: MERC_HALF_MM },
        },
        MercRect {
            min: MercPoint { x: 0, y: 0 },
            max: MercPoint { x: 1, y: 1 },
        },
        MercRect {
            min: MercPoint { x: -MERC_HALF_MM, y: 0 },
            max: MercPoint { x: 0, y: MERC_HALF_MM },
        },
        MercRect {
            min: MercPoint { x: 123_456, y: -987_654_321 },
            max: MercPoint { x: 10_000_000_000, y: 5_000_000_000 },
        },
    ];
    for q in queries {
        let got = index.query_intersecting(q);
        let expected: Vec<Tile> = stored
            .iter()
            .copied()
            .filter(|t| rects_intersect(&t.footprint, &q))
            .collect();
        assert_eq!(sorted_keys(&got), sorted_keys(&expected));
    }
}

#[test]
fn repeated_queries_return_the_same_set() {
    let mut index = SpatialIndex::new();
    for (x, y) in [(0u32, 0u32), (1, 1), (2, 2), (3, 1)] {
        index.insert(make_tile(x, y, 2, 1));
    }
    let q = MercRect {
        min: MercPoint { x: -5_000_000_000, y: -5_000_000_000 },
        max: MercPoint { x: 5_000_000_000, y: 5_000_000_000 },
    };
    let first = index.query_intersecting(q);
    let second = index.query_intersecting(q);
    assert_eq!(sorted_keys(&first), sorted_keys(&second));
    assert!(!first.is_empty());
}

#[test]
fn reference_scenario_returns_inserted_tile() {
    // reference coordinate (52.18492, 0.14281721), zoom 14, tile size 512
    let refp = merc_from_deg(REF_LON, REF_LAT);
    let idx = geo_to_tile(refp, REF_ZOOM);
    let tile = make_tile(idx.x, idx.y, idx.zoom, 42);
    let mut index = SpatialIndex::new();
    index.insert(tile);
    // the rectangle containing the world origin: the origin projects onto
    // the reference position itself
    let origin = world_to_mercator(WorldPoint { x: 0, y: 0 }, refp, REF_ZOOM, TILE_PX);
    let q = MercRect { min: origin, max: origin };
    let got = index.query_intersecting(q);
    assert_eq!(got.len(), 1);
    assert_eq!(got[0].index, idx);
    assert_eq!(got[0].imagery, 42);
}

#[test]
fn camera_at_origin_anchors_rect_at_reference() {
    // camera at the world origin, window 800x600, scale 1.0
    let refp = merc_from_deg(REF_LON, REF_LAT);
    let cam = CameraFrame {
        at: WorldPoint { x: 0, y: 0 },
        scale_milli: 1000,
    };
    let rect = camera_space_to_visible_rect(Some(cam), 800, 600, refp, REF_ZOOM, TILE_PX)
        .expect("camera present");
    // the anchored corner is the reference coordinate converted at (0, 0)
    let anchor = world_to_mercator(WorldPoint { x: 0, y: 0 }, refp, REF_ZOOM, TILE_PX);
    assert_eq!((rect.min.x, rect.min.y), (anchor.x, anchor.y));
    assert_eq!((rect.min.x, rect.min.y), (refp.x, refp.y));
    // it spans half the window east and north of the camera
    let far = world_to_mercator(WorldPoint { x: 400, y: 300 }, refp, REF_ZOOM, TILE_PX);
    assert_eq!((rect.max.x, rect.max.y), (far.x, far.y));
}

#[test]
fn missing_camera_gives_no_rect() {
    let refp = merc_from_deg(REF_LON, REF_LAT);
    let rect = camera_space_to_visible_rect(None, 800, 600, refp, REF_ZOOM, TILE_PX);
    assert!(rect.is_none());
}

#[test]
fn remove_evicts_exactly_the_given_index() {
    let mut index = SpatialIndex::new();
    let a = make_tile(1, 1, 4, 10);
    let b = make_tile(2, 1, 4, 11);
    index.insert(a);
    index.insert(b);
    assert!(index.contains_index(a.index));
    assert!(index.remove(a.index));
    assert!(!index.contains_index(a.index));
    assert!(index.contains_index(b.index));
    assert!(!index.remove(a.index));
    let all = MercRect {
        min: MercPoint { x: -MERC_HALF_MM, y: -MERC_HALF_MM },
        max: MercPoint { x: MERC_HALF_MM, y: MERC_HALF_MM },
    };
    let got = index.query_intersecting(all);
    assert_eq!(sorted_keys(&got), vec![(2, 1, 4)]);
}

#[test]
fn empty_index_returns_nothing() {
    let index = SpatialIndex::new();
    let all = MercRect {
        min: MercPoint { x: -MERC_HALF_MM, y: -MERC_HALF_MM },
        max: MercPoint { x: MERC_HALF_MM, y: MERC_HALF_MM },
    };
    assert!(index.query_intersecting(all).is_empty());
    assert!(!index.contains_index(TileIndex { x: 0, y: 0, zoom: 0 }));
}

#[test]
fn deepest_zoom_round_trip() {
    let t = TileIndex { x: 16_777_215, y: 9_999_999, zoom: 24 };
    let corner = tile_to_geo(t);
    let back = geo_to_tile(corner, 24);
    assert_eq!((back.x, back.y, back.zoom), (t.x, t.y, t.zoom));
}

#[test]
fn adjacent_tiles_share_pixel_aligned_edges() {
    let a = tile_footprint(TileIndex { x: 3, y: 2, zoom: 4 });
    let b = tile_footprint(TileIndex { x: 4, y: 2, zoom: 4 });
    assert_eq!(a.max.x, b.min.x);
    let c = tile_footprint(TileIndex { x: 3, y: 3, zoom: 4 });
    assert_eq!(a.min.y, c.max.y);
}

#[test]
fn render_set_rebuilds_whole_each_frame() {
    let mut index = SpatialIndex::new();
    let refp = merc_from_deg(REF_LON, REF_LAT);
    let idx = geo_to_tile(refp, REF_ZOOM);
    index.insert(make_tile(idx.x, idx.y, idx.zoom, 7));
    let mut set = RenderSet::new();
    assert!(set.tiles.is_empty());
    let cam = CameraFrame {
        at: WorldPoint { x: 0, y: 0 },
        scale_milli: 1000,
    };
    let updated = set.refresh(&index, Some(cam), 800, 600, refp, REF_ZOOM, TILE_PX);
    assert!(updated);
    assert_eq!(set.tiles.len(), 1);
    assert_eq!(set.tiles[0].imagery, 7);
    // with no camera the set empties rather than going stale
    let updated = set.refresh(&index, None, 800, 600, refp, REF_ZOOM, TILE_PX);
    assert!(!updated);
    assert!(set.tiles.is_empty());
}
