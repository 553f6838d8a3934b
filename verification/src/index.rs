//! Tile Spatial Index: the authoritative, spatially indexed set of loaded
//! tiles, backed by an R-tree so that the per-frame visibility query stays
//! sub-linear in the number of loaded tiles.
//!
//! The R-tree itself comes from the `rstar` crate and is opaque to the
//! verifier; `tree_entries` names what it holds, and each wrapper states,
//! over that name, what the corresponding `rstar` method does. Everything
//! above the wrappers — uniqueness of tile indices, footprints agreeing
//! with the projection, and the exactness of the visibility query — is
//! verified.

use vstd::multiset::Multiset;
use vstd::prelude::*;

use rstar::primitives::{GeomWithData, Rectangle};
use rstar::{RTree, AABB};

use crate::coords::{MercPoint, MercRect, Tile, TileIndex};
use crate::proj::{tile_footprint, tile_footprint_spec};

verus! {

broadcast use vstd::multiset::group_multiset_axioms;

/// One stored record, as plain values: the footprint's two corners, the
/// tile key `(x, y, zoom)`, and the imagery handle.
pub type TreeEntry = ((i64, i64), (i64, i64), (u32, u32, u32), u64);

/// What the R-tree holds, as a multiset of plain records.
pub uninterp spec fn tree_entries(t: TileTree) -> Multiset<TreeEntry>;

/// An entry's corners are ordered.
pub open spec fn entry_wf(e: TreeEntry) -> bool {
    &&& e.0.0 <= e.1.0
    &&& e.0.1 <= e.1.1
}

/// Whether an entry's rectangle meets the closed box `[lo, hi]`.
pub open spec fn entry_hits_box(e: TreeEntry, lo: (i64, i64), hi: (i64, i64)) -> bool {
    &&& e.0.0 <= hi.0
    &&& lo.0 <= e.1.0
    &&& e.0.1 <= hi.1
    &&& lo.1 <= e.1.1
}

/// The record a tile is stored as.
pub open spec fn tile_entry(t: Tile) -> TreeEntry {
    (
        (t.footprint.min.x, t.footprint.min.y),
        (t.footprint.max.x, t.footprint.max.y),
        (t.index.x, t.index.y, t.index.zoom),
        t.imagery,
    )
}

/// The tile a record stands for.
pub open spec fn entry_tile(e: TreeEntry) -> Tile {
    Tile {
        index: TileIndex { x: e.2.0, y: e.2.1, zoom: e.2.2 },
        footprint: MercRect {
            min: MercPoint { x: e.0.0, y: e.0.1 },
            max: MercPoint { x: e.1.0, y: e.1.1 },
        },
        imagery: e.3,
    }
}

/// The R-tree of loaded tile records. Opaque to the verifier; its contents
/// are named by `tree_entries`.
#[verifier::external_body]
pub struct TileTree {
    tree: RTree<GeomWithData<Rectangle<[i64; 2]>, ((u32, u32, u32), u64)>>,
}

/// Relies on rstar::RTree::new: a freshly created tree holds no elements.
#[verifier::external_body]
fn tree_new() -> (t: TileTree)
    ensures
        tree_entries(t) == Multiset::<TreeEntry>::empty(),
{
    TileTree { tree: RTree::new() }
}

/// Relies on rstar::RTree::insert: the given element is added and nothing
/// else changes. With ordered corners, the stored rectangle's lower and
/// upper corners are exactly the ones given.
#[verifier::external_body]
fn tree_insert(t: &mut TileTree, e: TreeEntry)
    requires
        entry_wf(e),
    ensures
        tree_entries(*final(t)) == tree_entries(*old(t)).insert(e),
{
    let ((x0, y0), (x1, y1), key, imagery) = e;
    let geom = Rectangle::from_corners([x0, y0], [x1, y1]);
    t.tree.insert(GeomWithData::new(geom, (key, imagery)));
}

/// Relies on rstar::RTree::locate_in_envelope_intersecting: it yields each
/// stored element whose envelope meets the closed query box, exactly as
/// often as the tree holds it, and nothing else; the order is unspecified.
#[verifier::external_body]
fn tree_query(t: &TileTree, lo: (i64, i64), hi: (i64, i64)) -> (found: Vec<TreeEntry>)
    requires
        lo.0 <= hi.0,
        lo.1 <= hi.1,
    ensures
        forall|e: TreeEntry|
            #[trigger] found@.to_multiset().count(e) == if entry_hits_box(e, lo, hi) {
                tree_entries(*t).count(e)
            } else {
                0nat
            },
{
    let env = AABB::from_corners([lo.0, lo.1], [hi.0, hi.1]);
    t.tree
        .locate_in_envelope_intersecting(env)
        .map(|g| {
            let lower = g.geom().lower();
            let upper = g.geom().upper();
            ((lower[0], lower[1]), (upper[0], upper[1]), g.data.0, g.data.1)
        })
        .collect()
}

/// Relies on rstar::RTree::remove: one element equal to the given one is
/// taken out when the tree holds any, and the return value says whether
/// one was.
#[verifier::external_body]
fn tree_remove(t: &mut TileTree, e: TreeEntry) -> (removed: bool)
    requires
        entry_wf(e),
    ensures
        removed == (tree_entries(*old(t)).count(e) > 0),
        removed ==> tree_entries(*final(t)) == tree_entries(*old(t)).remove(e),
        !removed ==> tree_entries(*final(t)) == tree_entries(*old(t)),
{
    let ((x0, y0), (x1, y1), key, imagery) = e;
    let geom = Rectangle::from_corners([x0, y0], [x1, y1]);
    t.tree.remove(&GeomWithData::new(geom, (key, imagery))).is_some()
}

/// The authoritative set of loaded tiles, spatially indexed by footprint.
pub struct SpatialIndex {
    tree: TileTree,
}

impl SpatialIndex {
    /// The stored records.
    pub closed spec fn entries(self) -> Multiset<TreeEntry> {
        tree_entries(self.tree)
    }

    /// The set of loaded tiles — the index's abstract state.
    pub closed spec fn tiles(self) -> Set<Tile> {
        Set::new(|t: Tile| self.entries().count(tile_entry(t)) > 0)
    }

    /// Whether some loaded tile has the given grid index.
    pub open spec fn has_index(self, idx: TileIndex) -> bool {
        exists|t: Tile| #[trigger] self.tiles().contains(t) && t.index == idx
    }

    /// The index's invariant: each record occurs once, stands for a valid
    /// tile whose footprint is the one the projection assigns to its grid
    /// index, and no two records share a grid index.
    pub closed spec fn inv(self) -> bool {
        &&& forall|e: TreeEntry|
            self.entries().count(e) > 0 ==> #[trigger] self.entries().count(e) == 1
        &&& forall|e: TreeEntry|
            self.entries().count(e) > 0 ==> (#[trigger] entry_tile(e)).valid()
                && entry_tile(e).footprint == tile_footprint_spec(entry_tile(e).index)
        &&& forall|e1: TreeEntry, e2: TreeEntry|
            #[trigger] self.entries().count(e1) > 0 && #[trigger] self.entries().count(e2) > 0
                && e1.2 == e2.2 ==> e1 == e2
    }

    /// An empty index.
    pub fn new() -> (s: SpatialIndex)
        ensures
            s.inv(),
            s.tiles() == Set::<Tile>::empty(),
    {
        let s = SpatialIndex { tree: tree_new() };
        proof {
            assert(s.tiles() =~= Set::<Tile>::empty());
        }
        s
    }

    /// Tile Spatial Index: add a fetched tile. The tile's footprint must be
    /// the one computed from its grid index, and its index must not be
    /// loaded yet — callers check with `contains_index` before inserting.
    pub fn insert(&mut self, tile: Tile)
        requires
            old(self).inv(),
            tile.valid(),
            tile.footprint == tile_footprint_spec(tile.index),
            !old(self).has_index(tile.index),
        ensures
            final(self).inv(),
            final(self).tiles() == old(self).tiles().insert(tile),
    {
        let e = (
            (tile.footprint.min.x, tile.footprint.min.y),
            (tile.footprint.max.x, tile.footprint.max.y),
            (tile.index.x, tile.index.y, tile.index.zoom),
            tile.imagery,
        );
        proof {
            assert(e == tile_entry(tile));
            // a record with this tile's key would make `has_index` true
            if self.entries().count(tile_entry(tile)) > 0 {
                assert(self.tiles().contains(entry_tile(tile_entry(tile))));
                assert(entry_tile(tile_entry(tile)) == tile);
            }
        }
        tree_insert(&mut self.tree, e);
        proof {
            let before = old(self).entries();
            let after = self.entries();
            assert(after == before.insert(tile_entry(tile)));
            assert forall|t: Tile| #[trigger] self.tiles().contains(t) implies old(
                self,
            ).tiles().insert(tile).contains(t) by {
                if t != tile {
                    assert(tile_entry(t) != tile_entry(tile)) by {
                        assert(entry_tile(tile_entry(t)) == t);
                        assert(entry_tile(tile_entry(tile)) == tile);
                    }
                    assert(before.count(tile_entry(t)) > 0);
                }
            }
            assert forall|t: Tile| old(self).tiles().insert(tile).contains(t)
                implies #[trigger] self.tiles().contains(t) by {}
            assert(self.tiles() =~= old(self).tiles().insert(tile));
            // invariant: the new record was absent, keys stay unique
            assert forall|e1: TreeEntry, e2: TreeEntry|
                #[trigger] after.count(e1) > 0 && #[trigger] after.count(e2) > 0 && e1.2 == e2.2
                implies e1 == e2 by {
                if e1 != e2 {
                    if e1 == tile_entry(tile) {
                        assert(before.count(e2) > 0);
                        assert(old(self).tiles().contains(entry_tile(e2)));
                        assert(entry_tile(e2).index == tile.index);
                    } else if e2 == tile_entry(tile) {
                        assert(before.count(e1) > 0);
                        assert(old(self).tiles().contains(entry_tile(e1)));
                        assert(entry_tile(e1).index == tile.index);
                    }
                }
            }
        }
    }

    /// Tile Spatial Index: whether the tile with the given grid index is
    /// loaded. The check callers make before `insert`.
    pub fn contains_index(&self, idx: TileIndex) -> (r: bool)
        requires
            self.inv(),
            idx.valid(),
        ensures
            r == self.has_index(idx),
    {
        let fp = tile_footprint(idx);
        let found = tree_query(&self.tree, (fp.min.x, fp.min.y), (fp.max.x, fp.max.y));
        let ghost q = found@;
        let mut i: usize = 0;
        while i < found.len()
            invariant
                self.inv(),
                idx.valid(),
                q == found@,
                i <= q.len(),
                fp == tile_footprint_spec(idx),
                fp.wf(),
                forall|e: TreeEntry|
                    #[trigger] q.to_multiset().count(e) == if entry_hits_box(
                        e,
                        (fp.min.x, fp.min.y),
                        (fp.max.x, fp.max.y),
                    ) {
                        self.entries().count(e)
                    } else {
                        0nat
                    },
                forall|j: int|
                    0 <= j < i ==> #[trigger] q[j].2 != (idx.x, idx.y, idx.zoom),
            decreases q.len() - i,
        {
            let e = found[i];
            if e.2.0 == idx.x && e.2.1 == idx.y && e.2.2 == idx.zoom {
                proof {
                    broadcast use vstd::seq_lib::group_to_multiset_ensures;

                    assert(q.contains(e));
                    assert(q.to_multiset().count(e) > 0);
                    assert(self.entries().count(e) > 0);
                    assert(self.tiles().contains(entry_tile(e)));
                    assert(entry_tile(e).index == idx);
                }
                return true;
            }
            i = i + 1;
        }
        proof {
            broadcast use vstd::seq_lib::group_to_multiset_ensures;

            if self.has_index(idx) {
                let t = choose|t: Tile| #[trigger] self.tiles().contains(t) && t.index == idx;
                let e = tile_entry(t);
                assert(self.entries().count(e) > 0);
                assert(entry_tile(e) == t);
                assert(t.footprint == tile_footprint_spec(idx));
                assert(entry_hits_box(e, (fp.min.x, fp.min.y), (fp.max.x, fp.max.y)));
                assert(q.to_multiset().count(e) > 0);
                assert(q.contains(e));
                let j = choose|j: int| 0 <= j < q.len() && q[j] == e;
                assert(q[j].2 == (idx.x, idx.y, idx.zoom));
                assert(false);
            }
        }
        false
    }

    /// Tile Spatial Index: all loaded tiles whose footprint intersects the
    /// query rectangle — no false positives, no false negatives, no
    /// duplicates; the order is unspecified.
    pub fn query_intersecting(&self, rect: MercRect) -> (out: Vec<Tile>)
        requires
            self.inv(),
            rect.wf(),
        ensures
            forall|t: Tile|
                #[trigger] out@.contains(t) <==> (self.tiles().contains(t)
                    && t.footprint.intersects(rect)),
            out@.no_duplicates(),
    {
        let found = tree_query(&self.tree, (rect.min.x, rect.min.y), (rect.max.x, rect.max.y));
        let ghost q = found@;
        let mut out: Vec<Tile> = Vec::new();
        let mut i: usize = 0;
        while i < found.len()
            invariant
                q == found@,
                i <= q.len(),
                out@.len() == i,
                forall|k: int| 0 <= k < i ==> #[trigger] out@[k] == entry_tile(q[k]),
            decreases q.len() - i,
        {
            let e = found[i];
            let tile = Tile {
                index: TileIndex { x: e.2.0, y: e.2.1, zoom: e.2.2 },
                footprint: MercRect {
                    min: MercPoint { x: e.0.0, y: e.0.1 },
                    max: MercPoint { x: e.1.0, y: e.1.1 },
                },
                imagery: e.3,
            };
            proof {
                assert(tile == entry_tile(q[i as int]));
            }
            out.push(tile);
            i = i + 1;
        }
        proof {
            broadcast use vstd::seq_lib::group_to_multiset_ensures;

            let lo = (rect.min.x, rect.min.y);
            let hi = (rect.max.x, rect.max.y);
            assert forall|t: Tile| #[trigger] out@.contains(t) implies (self.tiles().contains(t)
                && t.footprint.intersects(rect)) by {
                let k = choose|k: int| 0 <= k < out@.len() && out@[k] == t;
                let e = q[k];
                assert(q.contains(e));
                assert(q.to_multiset().count(e) > 0);
                assert(self.entries().count(e) > 0);
                assert(entry_hits_box(e, lo, hi));
                assert(t == entry_tile(e));
                assert(tile_entry(t) == e) by {
                    assert(self.tiles().contains(entry_tile(e)));
                }
            }
            assert forall|t: Tile| (self.tiles().contains(t) && t.footprint.intersects(rect))
                implies #[trigger] out@.contains(t) by {
                let e = tile_entry(t);
                assert(self.entries().count(e) > 0);
                assert(entry_tile(e) == t);
                assert(entry_hits_box(e, lo, hi));
                assert(q.to_multiset().count(e) > 0);
                assert(q.contains(e));
                let j = choose|j: int| 0 <= j < q.len() && q[j] == e;
                assert(out@[j] == entry_tile(e));
                assert(out@.contains(entry_tile(e)));
            }
            assert(out@.no_duplicates()) by {
                assert forall|x: TreeEntry| q.to_multiset().contains(x) implies q.to_multiset()
                    .count(x) == 1 by {
                    assert(q.to_multiset().count(x) > 0);
                    assert(self.entries().count(x) > 0);
                }
                q.lemma_multiset_has_no_duplicates_conv();
                assert forall|a: int, b: int|
                    0 <= a < out@.len() && 0 <= b < out@.len() && a != b implies out@[a]
                    != out@[b] by {
                    if out@[a] == out@[b] {
                        assert(entry_tile(q[a]) == entry_tile(q[b]));
                        assert(tile_entry(entry_tile(q[a])) == q[a]);
                        assert(tile_entry(entry_tile(q[b])) == q[b]);
                        assert(q[a] == q[b]);
                    }
                }
            }
        }
        out
    }

    /// Tile Spatial Index: evict the tile with the given grid index, if one
    /// is loaded; says whether one was.
    pub fn remove(&mut self, idx: TileIndex) -> (removed: bool)
        requires
            old(self).inv(),
            idx.valid(),
        ensures
            final(self).inv(),
            removed == old(self).has_index(idx),
            forall|t: Tile|
                #[trigger] final(self).tiles().contains(t) <==> (old(self).tiles().contains(t)
                    && t.index != idx),
    {
        let fp = tile_footprint(idx);
        let found = tree_query(&self.tree, (fp.min.x, fp.min.y), (fp.max.x, fp.max.y));
        let ghost q = found@;
        let mut i: usize = 0;
        while i < found.len()
            invariant
                old(self) == self,
                self.inv(),
                idx.valid(),
                q == found@,
                i <= q.len(),
                fp == tile_footprint_spec(idx),
                fp.wf(),
                forall|e: TreeEntry|
                    #[trigger] q.to_multiset().count(e) == if entry_hits_box(
                        e,
                        (fp.min.x, fp.min.y),
                        (fp.max.x, fp.max.y),
                    ) {
                        self.entries().count(e)
                    } else {
                        0nat
                    },
                forall|j: int|
                    0 <= j < i ==> #[trigger] q[j].2 != (idx.x, idx.y, idx.zoom),
            decreases q.len() - i,
        {
            let e = found[i];
            if e.2.0 == idx.x && e.2.1 == idx.y && e.2.2 == idx.zoom {
                proof {
                    broadcast use vstd::seq_lib::group_to_multiset_ensures;

                    assert(q.contains(e));
                    assert(q.to_multiset().count(e) > 0);
                    assert(self.entries().count(e) > 0);
                    assert(entry_tile(e).valid());
                    assert(self.tiles().contains(entry_tile(e)));
                    assert(entry_tile(e).index == idx);
                }
                let took = tree_remove(&mut self.tree, e);
                proof {
                    let before = old(self).entries();
                    let after = self.entries();
                    assert(took);
                    assert(after == before.remove(e));
                    assert forall|t: Tile|
                        #[trigger] self.tiles().contains(t) <==> (old(self).tiles().contains(t)
                            && t.index != idx) by {
                        if tile_entry(t) == e {
                            assert(t == entry_tile(e)) by {
                                assert(entry_tile(tile_entry(t)) == t);
                            }
                            assert(after.count(e) == 0) by {
                                assert(before.count(e) == 1);
                            }
                        } else {
                            assert(after.count(tile_entry(t)) == before.count(tile_entry(t)));
                            if old(self).tiles().contains(t) && t.index == idx {
                                // key uniqueness: only one record carries idx
                                assert(before.count(tile_entry(t)) > 0);
                                assert(tile_entry(t).2 == e.2);
                                assert(tile_entry(t) == e);
                            }
                        }
                    }
                    assert forall|x: TreeEntry| after.count(x) > 0 implies before.count(x)
                        > 0 by {}
                }
                return true;
            }
            i = i + 1;
        }
        proof {
            broadcast use vstd::seq_lib::group_to_multiset_ensures;

            if self.has_index(idx) {
                let t = choose|t: Tile| #[trigger] self.tiles().contains(t) && t.index == idx;
                let e = tile_entry(t);
                assert(self.entries().count(e) > 0);
                assert(entry_tile(e) == t);
                assert(t.footprint == tile_footprint_spec(idx));
                assert(entry_hits_box(e, (fp.min.x, fp.min.y), (fp.max.x, fp.max.y)));
                assert(q.to_multiset().count(e) > 0);
                assert(q.contains(e));
                let j = choose|j: int| 0 <= j < q.len() && q[j] == e;
                assert(q[j].2 == (idx.x, idx.y, idx.zoom));
                assert(false);
            }
        }
        false
    }
}

/// Law: querying is idempotent — any two results that satisfy the query
/// contract for the same rectangle and unchanged contents are the same set
/// of tiles, whatever order each lists them in.
pub proof fn lemma_query_idempotent(
    s: SpatialIndex,
    rect: MercRect,
    out1: Seq<Tile>,
    out2: Seq<Tile>,
)
    requires
        forall|t: Tile|
            #[trigger] out1.contains(t) <==> (s.tiles().contains(t) && t.footprint.intersects(
                rect,
            )),
        forall|t: Tile|
            #[trigger] out2.contains(t) <==> (s.tiles().contains(t) && t.footprint.intersects(
                rect,
            )),
    ensures
        out1.to_set() == out2.to_set(),
{
    assert(out1.to_set() =~= out2.to_set()) by {
        assert forall|t: Tile| out1.to_set().contains(t) implies out2.to_set().contains(t) by {
            assert(out1.contains(t));
            assert(out2.contains(t));
        }
        assert forall|t: Tile| out2.to_set().contains(t) implies out1.to_set().contains(t) by {
            assert(out2.contains(t));
            assert(out1.contains(t));
        }
    }
}

} // verus!
