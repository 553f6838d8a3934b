//! Tile Render Set: the per-frame list of tiles to draw, rebuilt whole
//! from the spatial index and the frame's visible rectangle. It holds
//! plain copies keyed by tile index and is never a source of truth.

use vstd::prelude::*;

use crate::coords::{MercPoint, MercRect, Tile};
use crate::index::SpatialIndex;
use crate::proj::scale_ok;
use crate::viewport::{camera_space_to_visible_rect, frame_ok, visible_rect_spec, CameraFrame};

verus! {

/// The list of tiles the rendering collaborator should draw this frame.
pub struct RenderSet {
    pub tiles: Vec<Tile>,
}

impl RenderSet {
    /// An empty render set, for the frames before the scene exists.
    pub fn new() -> (r: RenderSet)
        ensures
            r.tiles@ == Seq::<Tile>::empty(),
    {
        RenderSet { tiles: Vec::new() }
    }

    /// Tile Render Set: rebuild from the index and the visible rectangle —
    /// exactly the loaded tiles whose footprint intersects it.
    pub fn rebuild(&mut self, index: &SpatialIndex, visible: MercRect)
        requires
            index.inv(),
            visible.wf(),
        ensures
            forall|t: Tile|
                #[trigger] final(self).tiles@.contains(t) <==> (index.tiles().contains(t)
                    && t.footprint.intersects(visible)),
            final(self).tiles@.no_duplicates(),
    {
        self.tiles = index.query_intersecting(visible);
    }

    /// One whole frame: map the camera state to its visible rectangle and
    /// rebuild from it. While no camera exists the set empties, so stale
    /// tiles are not drawn.
    pub fn refresh(
        &mut self,
        index: &SpatialIndex,
        cam: Option<CameraFrame>,
        win_w: u32,
        win_h: u32,
        refp: MercPoint,
        ref_zoom: u32,
        tile_px: u32,
    ) -> (updated: bool)
        requires
            index.inv(),
            refp.valid(),
            scale_ok(ref_zoom, tile_px),
            cam.is_some() ==> frame_ok(cam.unwrap(), win_w, win_h),
        ensures
            updated == cam.is_some(),
            !updated ==> final(self).tiles@ == Seq::<Tile>::empty(),
            updated ==> forall|t: Tile|
                #[trigger] final(self).tiles@.contains(t) <==> (index.tiles().contains(t)
                    && t.footprint.intersects(
                    visible_rect_spec(cam.unwrap(), win_w, win_h, refp, ref_zoom, tile_px),
                )),
    {
        let rect = camera_space_to_visible_rect(cam, win_w, win_h, refp, ref_zoom, tile_px);
        match rect {
            None => {
                self.tiles = Vec::new();
                false
            },
            Some(r) => {
                self.tiles = index.query_intersecting(r);
                true
            },
        }
    }
}

} // verus!
