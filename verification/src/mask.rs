//! The pixel-occupancy mask of an entity: one representative pixel per
//! descendant that carries an axis-aligned bounding box.
//!
//! The scene-graph collaborator hands the core an arena of nodes addressed
//! by index; each node carries its optional bounding box, its own world
//! transform, and the indices of its children. A node's pixel is its box's
//! top-left corner rotated by the transform's rotation, translated by the
//! transform's position, and only then truncated to integers. Rotations
//! arrive as a fixed-point cosine/sine pair in units of `1 / ROT_ONE`, so
//! the identity rotation `(ROT_ONE, 0)` is exact. The mask is one sample
//! per bounded part, a coarse proxy for the entity's area, not true pixel
//! coverage.
//!
//! Rebuilding walks the subtree depth-first, parent before children,
//! children in their stored order, and always clears the previous mask
//! before repopulating it.

use vstd::prelude::*;

use crate::path::div_trunc;
use crate::path::div_trunc_i64;
use crate::path::lemma_div_trunc_bound;

verus! {

/// Fixed-point representation of the rotation value one.
pub const ROT_ONE: i32 = 0x10000;

/// Largest magnitude a box center or half-extent coordinate may have.
pub const EXTENT_BOUND: i32 = 0x10_0000;

/// Largest magnitude a translation coordinate may have.
pub const TRANSLATION_BOUND: i32 = 0x4000_0000;

/// An axis-aligned bounding box, as the scene-graph collaborator reports
/// it: a center and non-negative half-extents.
#[derive(Clone, Copy, Debug)]
pub struct BoundingBox {
    pub center: (i32, i32),
    pub half_extents: (i32, i32),
}

/// A node's world transform: a translation and a rotation given as the
/// fixed-point pair `(cos, sin)` in units of `1 / ROT_ONE`.
#[derive(Clone, Copy, Debug)]
pub struct NodeTransform {
    pub translation: (i32, i32),
    pub rot_cos: i32,
    pub rot_sin: i32,
}

/// One scene-graph node: its box if it has one, its world transform, and
/// the arena indices of its children. Children precede their parent in the
/// arena, so every child index is smaller than the node's own.
pub struct MaskNode {
    pub bbox: Option<BoundingBox>,
    pub transform: NodeTransform,
    pub children: Vec<usize>,
}

/// The coordinates a box may carry.
pub open spec fn bbox_wf(b: BoundingBox) -> bool {
    &&& -EXTENT_BOUND <= b.center.0 <= EXTENT_BOUND
    &&& -EXTENT_BOUND <= b.center.1 <= EXTENT_BOUND
    &&& 0 <= b.half_extents.0 <= EXTENT_BOUND
    &&& 0 <= b.half_extents.1 <= EXTENT_BOUND
}

/// The values a transform may carry.
pub open spec fn transform_wf(t: NodeTransform) -> bool {
    &&& -TRANSLATION_BOUND <= t.translation.0 <= TRANSLATION_BOUND
    &&& -TRANSLATION_BOUND <= t.translation.1 <= TRANSLATION_BOUND
    &&& -ROT_ONE <= t.rot_cos <= ROT_ONE
    &&& -ROT_ONE <= t.rot_sin <= ROT_ONE
}

/// The x coordinate of a node's pixel: the box's top-left corner rotated
/// by the fixed-point rotation and translated, truncated toward zero only
/// at the end, as recording the final position as an integer does.
pub open spec fn pixel_x(b: BoundingBox, t: NodeTransform) -> int {
    let tlx = b.center.0 - b.half_extents.0;
    let tly = b.center.1 + b.half_extents.1;
    div_trunc(tlx * t.rot_cos - tly * t.rot_sin + t.translation.0 * (ROT_ONE as int), ROT_ONE as int)
}

/// The y coordinate of a node's pixel.
pub open spec fn pixel_y(b: BoundingBox, t: NodeTransform) -> int {
    let tlx = b.center.0 - b.half_extents.0;
    let tly = b.center.1 + b.half_extents.1;
    div_trunc(tlx * t.rot_sin + tly * t.rot_cos + t.translation.1 * (ROT_ONE as int), ROT_ONE as int)
}

impl MaskNode {
    /// The node's values lie in the ranges the pixel arithmetic needs.
    pub open spec fn wf(&self) -> bool {
        &&& (self.bbox matches Some(b) ==> bbox_wf(b))
        &&& transform_wf(self.transform)
    }

    /// The pixel this node contributes: one for a node with a box, none
    /// for a node without one.
    pub open spec fn own_pixels(&self) -> Seq<(i32, i32)> {
        match self.bbox {
            Some(b) => seq![
                (
                    pixel_x(b, self.transform) as i32,
                    pixel_y(b, self.transform) as i32,
                ),
            ],
            None => Seq::empty(),
        }
    }
}

/// Every node's values are in range and every child index points at an
/// earlier node, so the arena is a forest with children before parents.
pub open spec fn nodes_wf(nodes: Seq<MaskNode>) -> bool {
    &&& forall|i: int| 0 <= i < nodes.len() ==> (#[trigger] nodes[i]).wf()
    &&& forall|i: int, k: int|
        0 <= i < nodes.len() && 0 <= k < nodes[i].children@.len() ==> (
        #[trigger] nodes[i].children@[k]) < i
}

/// The pixels of the subtree rooted at node `i`, in depth-first order:
/// the node's own pixel first, then each child's subtree in turn.
pub open spec fn subtree_pixels(nodes: Seq<MaskNode>, i: int) -> Seq<(i32, i32)>
    decreases i, 1int, 0int,
        when nodes_wf(nodes) && 0 <= i < nodes.len()
{
    nodes[i].own_pixels() + children_pixels(nodes, i, 0)
}

/// The pixels of the subtrees of node `i`'s children from position `k` on.
pub open spec fn children_pixels(nodes: Seq<MaskNode>, i: int, k: int) -> Seq<(i32, i32)>
    decreases i, 0int, nodes[i].children@.len() - k,
        when nodes_wf(nodes) && 0 <= i < nodes.len() && 0 <= k <= nodes[i].children@.len()
{
    if k == nodes[i].children@.len() {
        Seq::empty()
    } else {
        subtree_pixels(nodes, nodes[i].children@[k] as int) + children_pixels(nodes, i, k + 1)
    }
}

/// The pixel mask of one entity: an ordered list of integer pixel
/// coordinates, fully recomputed by every rebuild, never patched.
pub struct PixelCollider {
    pub pixels: Vec<(i32, i32)>,
}

impl PixelCollider {
    /// An empty mask.
    pub fn new() -> (r: PixelCollider)
        ensures
            r.pixels@ == Seq::<(i32, i32)>::empty(),
    {
        PixelCollider { pixels: Vec::new() }
    }
}

/// The node's pixel, computed exactly as the spec states it.
fn compute_pixel(b: &BoundingBox, t: &NodeTransform) -> (r: (i32, i32))
    requires
        bbox_wf(*b),
        transform_wf(*t),
    ensures
        r.0 == pixel_x(*b, *t),
        r.1 == pixel_y(*b, *t),
{
    let tlx: i64 = b.center.0 as i64 - b.half_extents.0 as i64;
    let tly: i64 = b.center.1 as i64 + b.half_extents.1 as i64;
    let c: i64 = t.rot_cos as i64;
    let s: i64 = t.rot_sin as i64;
    let shifted_tx: i64 = (t.translation.0 as i64) * (ROT_ONE as i64);
    let shifted_ty: i64 = (t.translation.1 as i64) * (ROT_ONE as i64);
    proof {
        assert(-0x20_0000 * 0x10000 <= tlx * c <= 0x20_0000 * 0x10000
            && -0x20_0000 * 0x10000 <= tly * s <= 0x20_0000 * 0x10000
            && -0x20_0000 * 0x10000 <= tlx * s <= 0x20_0000 * 0x10000
            && -0x20_0000 * 0x10000 <= tly * c <= 0x20_0000 * 0x10000
            && -0x4000_0000 * 0x10000 <= (t.translation.0 as i64) * 0x10000
            && (t.translation.0 as i64) * 0x10000 <= 0x4000_0000 * 0x10000
            && -0x4000_0000 * 0x10000 <= (t.translation.1 as i64) * 0x10000
            && (t.translation.1 as i64) * 0x10000 <= 0x4000_0000 * 0x10000) by (nonlinear_arith)
            requires
                -0x20_0000 <= tlx <= 0x20_0000,
                -0x20_0000 <= tly <= 0x20_0000,
                -0x10000 <= c <= 0x10000,
                -0x10000 <= s <= 0x10000,
                -0x4000_0000 <= t.translation.0 as i64 <= 0x4000_0000,
                -0x4000_0000 <= t.translation.1 as i64 <= 0x4000_0000;
        lemma_div_trunc_bound(tlx * c - tly * s + shifted_tx, ROT_ONE as int, 0x4040_0000);
        lemma_div_trunc_bound(tlx * s + tly * c + shifted_ty, ROT_ONE as int, 0x4040_0000);
    }
    let px: i64 = div_trunc_i64(tlx * c - tly * s + shifted_tx, ROT_ONE as i64);
    let py: i64 = div_trunc_i64(tlx * s + tly * c + shifted_ty, ROT_ONE as i64);
    (px as i32, py as i32)
}

/// The arena of one entity's scene-graph nodes. Nodes are appended leaves
/// first, so children always sit at smaller indices than their parent and
/// the graph can hold no cycle.
pub struct MaskArena {
    nodes: Vec<MaskNode>,
}

impl MaskArena {
    pub closed spec fn spec_nodes(&self) -> Seq<MaskNode> {
        self.nodes@
    }

    pub open spec fn wf(&self) -> bool {
        nodes_wf(self.spec_nodes())
    }

    /// How many nodes the arena holds.
    pub fn len(&self) -> (r: usize)
        ensures
            r == self.spec_nodes().len(),
    {
        self.nodes.len()
    }

    /// An empty arena.
    pub fn new() -> (r: MaskArena)
        ensures
            r.wf(),
            r.spec_nodes().len() == 0,
    {
        MaskArena { nodes: Vec::new() }
    }

    /// Appends a node and returns its index. Rejected (`None`, arena
    /// unchanged) when a child index does not point at an existing node or
    /// a coordinate is out of the ranges the pixel arithmetic supports.
    pub fn add_node(&mut self, node: MaskNode) -> (r: Option<usize>)
        requires
            old(self).wf(),
        ensures
            final(self).wf(),
            r is Some ==> r == Some(old(self).spec_nodes().len() as usize)
                && final(self).spec_nodes() == old(self).spec_nodes().push(node),
            r is None ==> *final(self) == *old(self),
            node.wf() && (forall|k: int|
                0 <= k < node.children@.len() ==> (#[trigger] node.children@[k])
                    < old(self).spec_nodes().len()) ==> r is Some,
    {
        if !(match &node.bbox {
            Some(b) => -EXTENT_BOUND <= b.center.0 && b.center.0 <= EXTENT_BOUND && -EXTENT_BOUND
                <= b.center.1 && b.center.1 <= EXTENT_BOUND && 0 <= b.half_extents.0
                && b.half_extents.0 <= EXTENT_BOUND && 0 <= b.half_extents.1 && b.half_extents.1
                <= EXTENT_BOUND,
            None => true,
        }) {
            return None;
        }
        let t = &node.transform;
        if !(-TRANSLATION_BOUND <= t.translation.0 && t.translation.0 <= TRANSLATION_BOUND
            && -TRANSLATION_BOUND <= t.translation.1 && t.translation.1 <= TRANSLATION_BOUND
            && -ROT_ONE <= t.rot_cos && t.rot_cos <= ROT_ONE && -ROT_ONE <= t.rot_sin && t.rot_sin
            <= ROT_ONE) {
            return None;
        }
        let here = self.nodes.len();
        let mut k: usize = 0;
        while k < node.children.len()
            invariant
                *self == *old(self),
                old(self).wf(),
                k <= node.children@.len(),
                here == self.spec_nodes().len(),
                forall|j: int| 0 <= j < k ==> (#[trigger] node.children@[j]) < here,
            decreases node.children@.len() - k,
        {
            if node.children[k] >= here {
                return None;
            }
            k = k + 1;
        }
        self.nodes.push(node);
        proof {
            assert forall|i: int, k2: int|
                0 <= i < self.spec_nodes().len() && 0 <= k2 < self.spec_nodes()[i].children@.len()
                implies (#[trigger] self.spec_nodes()[i].children@[k2]) < i by {
                if i < old(self).spec_nodes().len() {
                    assert(old(self).spec_nodes()[i].children@[k2] < i);
                }
            }
        }
        Some(here)
    }

    /// Collects the subtree's pixels onto `out`, depth-first, the node's
    /// own pixel before its children's, children in stored order.
    fn collect_subtree(&self, i: usize, out: &mut Vec<(i32, i32)>)
        requires
            self.wf(),
            i < self.spec_nodes().len(),
        ensures
            final(out)@ == old(out)@ + subtree_pixels(self.spec_nodes(), i as int),
        decreases i,
    {
        let node = &self.nodes[i];
        match &node.bbox {
            Some(b) => {
                let p = compute_pixel(b, &node.transform);
                out.push(p);
            },
            None => {},
        }
        let ghost entry = out@;
        proof {
            assert(entry == old(out)@ + self.spec_nodes()[i as int].own_pixels());
        }
        let mut k: usize = 0;
        while k < node.children.len()
            invariant
                self.wf(),
                i < self.spec_nodes().len(),
                node == &self.nodes[i as int],
                k <= node.children@.len(),
                out@ + children_pixels(self.spec_nodes(), i as int, k as int) == old(out)@
                    + subtree_pixels(self.spec_nodes(), i as int),
            decreases node.children@.len() - k,
        {
            let child = node.children[k];
            let ghost before = out@;
            self.collect_subtree(child, out);
            proof {
                assert(out@ + children_pixels(self.spec_nodes(), i as int, k + 1) == before
                    + children_pixels(self.spec_nodes(), i as int, k as int)) by {
                    assert(out@ == before + subtree_pixels(self.spec_nodes(), child as int));
                    assert((before + subtree_pixels(self.spec_nodes(), child as int))
                        + children_pixels(self.spec_nodes(), i as int, k + 1) =~= before + (
                    subtree_pixels(self.spec_nodes(), child as int) + children_pixels(
                        self.spec_nodes(),
                        i as int,
                        k + 1,
                    )));
                }
            }
            k = k + 1;
        }
        proof {
            assert(children_pixels(self.spec_nodes(), i as int, node.children@.len() as int)
                =~= Seq::<(i32, i32)>::empty());
            assert(out@ + Seq::<(i32, i32)>::empty() =~= out@);
        }
    }

    /// Recomputes `collider`'s mask from the subtree rooted at `root`:
    /// whatever the mask held before is cleared unconditionally, then the
    /// pixels of every boxed descendant are recorded in depth-first order,
    /// parent before children.
    pub fn rebuild(&self, root: usize, collider: &mut PixelCollider)
        requires
            self.wf(),
            root < self.spec_nodes().len(),
        ensures
            final(collider).pixels@ == subtree_pixels(self.spec_nodes(), root as int),
    {
        collider.pixels.clear();
        self.collect_subtree(root, &mut collider.pixels);
        proof {
            assert(Seq::<(i32, i32)>::empty() + subtree_pixels(self.spec_nodes(), root as int)
                =~= subtree_pixels(self.spec_nodes(), root as int));
        }
    }
}


/// One update cycle's mask pass: recomputes, for each entity, its mask
/// from the subtree rooted at its node, one collider per root, in order.
/// Every mask is fully cleared and rebuilt; none is patched in place.
pub fn update_pixel_colliders(arena: &MaskArena, roots: &Vec<usize>, colliders: &mut Vec<
    PixelCollider,
>)
    requires
        arena.wf(),
        forall|i: int|
            0 <= i < roots@.len() ==> (#[trigger] roots@[i]) < arena.spec_nodes().len(),
    ensures
        final(colliders)@.len() == roots@.len(),
        forall|i: int|
            0 <= i < roots@.len() ==> (#[trigger] final(colliders)@[i]).pixels@ == subtree_pixels(
                arena.spec_nodes(),
                roots@[i] as int,
            ),
{
    colliders.clear();
    let mut i: usize = 0;
    while i < roots.len()
        invariant
            arena.wf(),
            forall|j: int|
                0 <= j < roots@.len() ==> (#[trigger] roots@[j]) < arena.spec_nodes().len(),
            i <= roots@.len(),
            colliders@.len() == i,
            forall|j: int|
                0 <= j < i ==> (#[trigger] colliders@[j]).pixels@ == subtree_pixels(
                    arena.spec_nodes(),
                    roots@[j] as int,
                ),
        decreases roots@.len() - i,
    {
        let mut collider = PixelCollider::new();
        arena.rebuild(roots[i], &mut collider);
        colliders.push(collider);
        i = i + 1;
    }
}

} // verus!
