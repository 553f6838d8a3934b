//! Viewport Mapper: from the camera state the window system reports each
//! frame to the Mercator rectangle that should be considered visible.
//!
//! The rectangle is deliberately oversized and anchored at the camera's raw
//! translation rather than centred on it: it spans half a scaled window to
//! the east and to the north of the camera, so a margin of surrounding
//! tiles is pre-loaded as the camera moves.

use vstd::prelude::*;

use crate::coords::{MercPoint, MercRect, WorldPoint};
use crate::intmath::lemma_round_div_ordered;
use crate::proj::{scale_ok, world_to_merc_spec, world_to_mercator};

verus! {

/// The camera state one frame supplies: its translation in world pixels
/// and the projection's zoom scale, in thousandths.
#[derive(Clone, Copy, Debug, PartialEq, Eq, Structural)]
pub struct CameraFrame {
    pub at: WorldPoint,
    pub scale_milli: u32,
}

/// The bounds a camera frame must stay within for the fixed-point
/// projection: translation well inside the world limit, a window of at
/// most 16384 pixels a side, and a zoom scale of at most a thousandfold.
pub open spec fn frame_ok(cam: CameraFrame, win_w: u32, win_h: u32) -> bool {
    &&& -40_000_000 <= cam.at.x <= 40_000_000
    &&& -40_000_000 <= cam.at.y <= 40_000_000
    &&& win_w <= 16384
    &&& win_h <= 16384
    &&& cam.scale_milli <= 1_000_000
}

/// Half a window extent scaled by the zoom factor, in world pixels.
pub open spec fn half_extent(win: u32, scale_milli: u32) -> int {
    (win * scale_milli) as int / 2000
}

/// The visible rectangle of a frame: anchored at the camera, extending
/// half a scaled window east and north, projected about the reference.
pub open spec fn visible_rect_spec(
    cam: CameraFrame,
    win_w: u32,
    win_h: u32,
    refp: MercPoint,
    ref_zoom: u32,
    tile_px: u32,
) -> MercRect {
    MercRect {
        min: world_to_merc_spec(cam.at, refp, ref_zoom, tile_px),
        max: world_to_merc_spec(
            WorldPoint {
                x: (cam.at.x + half_extent(win_w, cam.scale_milli)) as i64,
                y: (cam.at.y + half_extent(win_h, cam.scale_milli)) as i64,
            },
            refp,
            ref_zoom,
            tile_px,
        ),
    }
}

/// Viewport Mapper: the Mercator rectangle visible this frame, or `None`
/// while no camera or window exists yet — an expected condition each frame
/// until the scene is initialized, not an error.
pub fn camera_space_to_visible_rect(
    cam: Option<CameraFrame>,
    win_w: u32,
    win_h: u32,
    refp: MercPoint,
    ref_zoom: u32,
    tile_px: u32,
) -> (r: Option<MercRect>)
    requires
        refp.valid(),
        scale_ok(ref_zoom, tile_px),
        cam.is_some() ==> frame_ok(cam.unwrap(), win_w, win_h),
    ensures
        r.is_some() == cam.is_some(),
        cam.is_some() ==> r.unwrap() == visible_rect_spec(
            cam.unwrap(),
            win_w,
            win_h,
            refp,
            ref_zoom,
            tile_px,
        ),
        cam.is_some() ==> r.unwrap().wf(),
{
    match cam {
        None => None,
        Some(c) => {
            proof {
                assert(win_w * c.scale_milli <= 16384 * 1_000_000int) by (nonlinear_arith)
                    requires
                        win_w <= 16384,
                        c.scale_milli <= 1_000_000,
                ;
                assert(win_h * c.scale_milli <= 16384 * 1_000_000int) by (nonlinear_arith)
                    requires
                        win_h <= 16384,
                        c.scale_milli <= 1_000_000,
                ;
            }
            let half_w = (((win_w as u64) * (c.scale_milli as u64)) / 2000) as i64;
            let half_h = (((win_h as u64) * (c.scale_milli as u64)) / 2000) as i64;
            let near = c.at;
            let far = WorldPoint { x: c.at.x + half_w, y: c.at.y + half_h };
            let lo = world_to_mercator(near, refp, ref_zoom, tile_px);
            let hi = world_to_mercator(far, refp, ref_zoom, tile_px);
            proof {
                let d = crate::proj::scale_den(ref_zoom, tile_px);
                let cc = crate::coords::MERC_CIRC_MM as int;
                crate::coords::lemma_pow2_bound_max_zoom(ref_zoom as nat);
                assert(d >= 1) by (nonlinear_arith)
                    requires
                        crate::coords::pow2(ref_zoom as nat) >= 1,
                        tile_px >= 1,
                        d == crate::coords::pow2(ref_zoom as nat) * tile_px,
                ;
                assert(near.x * cc <= far.x * cc && near.y * cc <= far.y * cc)
                    by (nonlinear_arith)
                    requires
                        cc > 0,
                        near.x <= far.x,
                        near.y <= far.y,
                ;
                lemma_round_div_ordered(near.x * cc, far.x * cc, d);
                lemma_round_div_ordered(near.y * cc, far.y * cc, d);
            }
            Some(MercRect { min: lo, max: hi })
        },
    }
}

} // verus!
