//! A bounding-volume hierarchy over the scene's spheres, built once per
//! frame for the debug overlay (it does not accelerate shading). Each node
//! stores the eight corners of the axis-aligned box of the spheres it was
//! built from, the list itself, and up to two children split around the
//! half-point of the box's local extent on a round-robin axis.

use vstd::prelude::*;

use crate::helpers::Axis;
use crate::scene::{sphere_wf, Sphere};
use crate::vec3::Vec3;

verus! {

/// The eight corners of an axis-aligned box, minimum corner first and
/// maximum corner last, the other corners in between in x-minor order.
#[derive(Clone, Copy, Debug)]
pub struct BoundingBox {
    pub val: [Vec3; 8],
}

impl BoundingBox {
    pub fn new(val: [Vec3; 8]) -> (b: BoundingBox)
        ensures
            b.val == val,
    {
        BoundingBox { val }
    }

    /// The corners shifted so the minimum corner becomes the origin.
    pub fn local_coordinates(&self) -> (b: BoundingBox)
        requires
            forall|k: int|
                0 <= k < 8 ==> crate::vec3::vec_bounded(#[trigger] self.val@[k], 0x100_0000_0000),
        ensures
            forall|k: int|
                0 <= k < 8 ==> #[trigger] b.val@[k] == self.val@[k].sub_spec(self.val@[0]),
    {
        let origin = self.val[0];
        BoundingBox {
            val: [
                self.val[0].sub(origin),
                self.val[1].sub(origin),
                self.val[2].sub(origin),
                self.val[3].sub(origin),
                self.val[4].sub(origin),
                self.val[5].sub(origin),
                self.val[6].sub(origin),
                self.val[7].sub(origin),
            ],
        }
    }

    /// The maximum corner.
    pub fn max_point(&self) -> (p: Vec3)
        ensures
            p == self.val@[7],
    {
        self.val[7]
    }
}

/// One node of the hierarchy.
pub struct BoundingVolume {
    pub bounds: BoundingBox,
    pub world_objects: Vec<Sphere>,
    pub children: (Option<Box<BoundingVolume>>, Option<Box<BoundingVolume>>),
    pub level: i32,
}

/// The box swallows the sphere together with its radius, on every axis.
pub open spec fn box_contains(b: BoundingBox, s: Sphere) -> bool {
    &&& b.val@[0].x <= s.pos.x - s.radius
    &&& b.val@[0].y <= s.pos.y - s.radius
    &&& b.val@[0].z <= s.pos.z - s.radius
    &&& s.pos.x + s.radius <= b.val@[7].x
    &&& s.pos.y + s.radius <= b.val@[7].y
    &&& s.pos.z + s.radius <= b.val@[7].z
}

/// The structural invariant of the hierarchy: every node's box contains
/// the extents of every sphere of its list, and children sit one level
/// deeper, recursively.
pub open spec fn bvh_wf(node: BoundingVolume) -> bool
    decreases node,
{
    &&& forall|i: int|
        0 <= i < node.world_objects@.len() ==> box_contains(
            node.bounds,
            #[trigger] node.world_objects@[i],
        )
    &&& box_tight(node.bounds, node.world_objects@)
    &&& match node.children.0 {
        Option::Some(c) => bvh_wf(*c) && c.level == node.level + 1,
        Option::None => true,
    }
    &&& match node.children.1 {
        Option::Some(c) => bvh_wf(*c) && c.level == node.level + 1,
        Option::None => true,
    }
}

impl BoundingVolume {
    pub fn new(
        bounds: BoundingBox,
        world_objects: Vec<Sphere>,
        children: (Option<Box<BoundingVolume>>, Option<Box<BoundingVolume>>),
        level: i32,
    ) -> (b: BoundingVolume)
        ensures
            b.bounds == bounds,
            b.world_objects == world_objects,
            b.children == children,
            b.level == level,
    {
        BoundingVolume { bounds, world_objects, children, level }
    }
}

/// The component of a vector on the given axis (beyond the third axis,
/// the last component).
pub fn get_by_axis(vec: Vec3, axis: Axis) -> (c: i64)
    ensures
        axis.axis == 0 ==> c == vec.x,
        axis.axis == 1 ==> c == vec.y,
        axis.axis >= 2 ==> c == vec.z,
{
    match axis.axis {
        0 => vec.x,
        1 => vec.y,
        _ => vec.z,
    }
}

/// The spec-level axis component.
pub open spec fn spec_by_axis(vec: Vec3, axis: Axis) -> int {
    if axis.axis == 0 {
        vec.x as int
    } else if axis.axis == 1 {
        vec.y as int
    } else {
        vec.z as int
    }
}

/// The split predicate of the construction rule: a sphere goes to the
/// first side when its axis coordinate plus its radius exceeds the
/// midpoint.
pub open spec fn split_pred(s: Sphere, axis: Axis, midpoint: int) -> bool {
    spec_by_axis(s.pos, axis) + s.radius > midpoint
}

/// `lo` is the exact minimum of centre minus radius over the list on the
/// given axis: it bounds every sphere and is attained by one.
pub open spec fn is_extent_lo(objects: Seq<Sphere>, axis: Axis, lo: int) -> bool {
    &&& forall|i: int|
        0 <= i < objects.len() ==> lo <= spec_by_axis(#[trigger] objects[i].pos, axis)
            - objects[i].radius
    &&& exists|i: int|
        0 <= i < objects.len() && lo == spec_by_axis(#[trigger] objects[i].pos, axis)
            - objects[i].radius
}

/// `hi` is the exact maximum of centre plus radius on the given axis.
pub open spec fn is_extent_hi(objects: Seq<Sphere>, axis: Axis, hi: int) -> bool {
    &&& forall|i: int|
        0 <= i < objects.len() ==> spec_by_axis(#[trigger] objects[i].pos, axis)
            + objects[i].radius <= hi
    &&& exists|i: int|
        0 <= i < objects.len() && hi == spec_by_axis(#[trigger] objects[i].pos, axis)
            + objects[i].radius
}

/// The exact lower extent of a non-empty list.
pub open spec fn extent_lo_val(objects: Seq<Sphere>, axis: Axis) -> int {
    choose|v: int| is_extent_lo(objects, axis, v)
}

/// The exact upper extent of a non-empty list.
pub open spec fn extent_hi_val(objects: Seq<Sphere>, axis: Axis) -> int {
    choose|v: int| is_extent_hi(objects, axis, v)
}

/// The construction rule's split point: half the box's local extent on
/// the axis (not the median).
pub open spec fn split_midpoint(objects: Seq<Sphere>, axis: Axis) -> int {
    crate::num::tdiv(extent_hi_val(objects, axis) - extent_lo_val(objects, axis), 2)
}

/// At most one value is the exact lower extent.
proof fn lemma_extent_lo_unique(objects: Seq<Sphere>, axis: Axis, v: int)
    requires
        is_extent_lo(objects, axis, v),
    ensures
        extent_lo_val(objects, axis) == v,
{
    let w = extent_lo_val(objects, axis);
    assert(is_extent_lo(objects, axis, w));
    let iw = choose|i: int|
        0 <= i < objects.len() && w == spec_by_axis(#[trigger] objects[i].pos, axis)
            - objects[i].radius;
    let iv = choose|i: int|
        0 <= i < objects.len() && v == spec_by_axis(#[trigger] objects[i].pos, axis)
            - objects[i].radius;
    assert(v <= spec_by_axis(objects[iw].pos, axis) - objects[iw].radius);
    assert(w <= spec_by_axis(objects[iv].pos, axis) - objects[iv].radius);
}

/// At most one value is the exact upper extent.
proof fn lemma_extent_hi_unique(objects: Seq<Sphere>, axis: Axis, v: int)
    requires
        is_extent_hi(objects, axis, v),
    ensures
        extent_hi_val(objects, axis) == v,
{
    let w = extent_hi_val(objects, axis);
    assert(is_extent_hi(objects, axis, w));
    let iw = choose|i: int|
        0 <= i < objects.len() && w == spec_by_axis(#[trigger] objects[i].pos, axis)
            + objects[i].radius;
    let iv = choose|i: int|
        0 <= i < objects.len() && v == spec_by_axis(#[trigger] objects[i].pos, axis)
            + objects[i].radius;
    assert(spec_by_axis(objects[iw].pos, axis) + objects[iw].radius <= v);
    assert(spec_by_axis(objects[iv].pos, axis) + objects[iv].radius <= w);
}

/// The stored box is the exact extent box of the list: on every
/// coordinate axis, the minimum corner is the attained minimum of centre
/// minus radius and the maximum corner the attained maximum of centre
/// plus radius, and the other six corners combine those two.
pub open spec fn box_tight(b: BoundingBox, objects: Seq<Sphere>) -> bool {
    let ax = Axis { axis: 0, dimensions: 3 };
    let ay = Axis { axis: 1, dimensions: 3 };
    let az = Axis { axis: 2, dimensions: 3 };
    &&& is_extent_lo(objects, ax, b.val@[0].x as int)
    &&& is_extent_lo(objects, ay, b.val@[0].y as int)
    &&& is_extent_lo(objects, az, b.val@[0].z as int)
    &&& is_extent_hi(objects, ax, b.val@[7].x as int)
    &&& is_extent_hi(objects, ay, b.val@[7].y as int)
    &&& is_extent_hi(objects, az, b.val@[7].z as int)
    &&& b.val@[1] == (Vec3 { x: b.val@[0].x, y: b.val@[7].y, z: b.val@[0].z })
    &&& b.val@[2] == (Vec3 { x: b.val@[7].x, y: b.val@[0].y, z: b.val@[0].z })
    &&& b.val@[3] == (Vec3 { x: b.val@[7].x, y: b.val@[7].y, z: b.val@[0].z })
    &&& b.val@[4] == (Vec3 { x: b.val@[0].x, y: b.val@[0].y, z: b.val@[7].z })
    &&& b.val@[5] == (Vec3 { x: b.val@[0].x, y: b.val@[7].y, z: b.val@[7].z })
    &&& b.val@[6] == (Vec3 { x: b.val@[7].x, y: b.val@[0].y, z: b.val@[7].z })
}

/// An exact lower extent survives any reordering of the list.
proof fn lemma_extent_lo_perm(a: Seq<Sphere>, b: Seq<Sphere>, ax: Axis, v: int)
    requires
        a.to_multiset() == b.to_multiset(),
        is_extent_lo(a, ax, v),
    ensures
        is_extent_lo(b, ax, v),
{
    lemma_perm_membership(a, b);
    lemma_perm_membership(b, a);
    assert forall|i: int|
        0 <= i < b.len() implies v <= spec_by_axis(#[trigger] b[i].pos, ax) - b[i].radius by {
        let j = choose|j: int| 0 <= j < a.len() && a[j] == b[i];
    }
    let jw = choose|j: int|
        0 <= j < a.len() && v == spec_by_axis(#[trigger] a[j].pos, ax) - a[j].radius;
    let iw = choose|i: int| 0 <= i < b.len() && b[i] == a[jw];
    assert(v == spec_by_axis(b[iw].pos, ax) - b[iw].radius);
}

/// An exact upper extent survives any reordering of the list.
proof fn lemma_extent_hi_perm(a: Seq<Sphere>, b: Seq<Sphere>, ax: Axis, v: int)
    requires
        a.to_multiset() == b.to_multiset(),
        is_extent_hi(a, ax, v),
    ensures
        is_extent_hi(b, ax, v),
{
    lemma_perm_membership(a, b);
    lemma_perm_membership(b, a);
    assert forall|i: int|
        0 <= i < b.len() implies spec_by_axis(#[trigger] b[i].pos, ax) + b[i].radius <= v by {
        let j = choose|j: int| 0 <= j < a.len() && a[j] == b[i];
    }
    let jw = choose|j: int|
        0 <= j < a.len() && v == spec_by_axis(#[trigger] a[j].pos, ax) + a[j].radius;
    let iw = choose|i: int| 0 <= i < b.len() && b[i] == a[jw];
    assert(v == spec_by_axis(b[iw].pos, ax) + b[iw].radius);
}

/// A tight box stays tight for any reordering of the list.
proof fn lemma_box_tight_perm(b: BoundingBox, a: Seq<Sphere>, c: Seq<Sphere>)
    requires
        a.to_multiset() == c.to_multiset(),
        box_tight(b, a),
    ensures
        box_tight(b, c),
{
    let ax = Axis { axis: 0usize, dimensions: 3usize };
    let ay = Axis { axis: 1usize, dimensions: 3usize };
    let az = Axis { axis: 2usize, dimensions: 3usize };
    lemma_extent_lo_perm(a, c, ax, b.val@[0].x as int);
    lemma_extent_lo_perm(a, c, ay, b.val@[0].y as int);
    lemma_extent_lo_perm(a, c, az, b.val@[0].z as int);
    lemma_extent_hi_perm(a, c, ax, b.val@[7].x as int);
    lemma_extent_hi_perm(a, c, ay, b.val@[7].y as int);
    lemma_extent_hi_perm(a, c, az, b.val@[7].z as int);
}

/// How many spheres at the front of the list satisfy the split predicate.
pub open spec fn pred_prefix_len(objects: Seq<Sphere>, axis: Axis, mid: int) -> int
    decreases objects.len(),
{
    if objects.len() == 0 {
        0
    } else if split_pred(objects[0], axis, mid) {
        1 + pred_prefix_len(objects.drop_first(), axis, mid)
    } else {
        0
    }
}

/// A list that is a predicate-true prefix of length `k` followed by a
/// predicate-false suffix has prefix length exactly `k`.
proof fn lemma_prefix_len(objects: Seq<Sphere>, axis: Axis, mid: int, k: int)
    requires
        0 <= k <= objects.len(),
        forall|i: int| 0 <= i < k ==> split_pred(#[trigger] objects[i], axis, mid),
        forall|i: int| k <= i < objects.len() ==> !split_pred(#[trigger] objects[i], axis, mid),
    ensures
        pred_prefix_len(objects, axis, mid) == k,
    decreases k,
{
    if objects.len() == 0 {
    } else if k == 0 {
        assert(!split_pred(objects[0], axis, mid));
    } else {
        assert(split_pred(objects[0], axis, mid));
        let rest = objects.drop_first();
        assert(forall|i: int|
            0 <= i < k - 1 ==> split_pred(#[trigger] rest[i], axis, mid)) by {
            assert(forall|i: int| 0 <= i < k - 1 ==> rest[i] == objects[i + 1]);
        }
        assert(forall|i: int|
            k - 1 <= i < rest.len() ==> !split_pred(#[trigger] rest[i], axis, mid)) by {
            assert(forall|i: int| 0 <= i < rest.len() ==> rest[i] == objects[i + 1]);
        }
        lemma_prefix_len(rest, axis, mid, k - 1);
    }
}

/// The split shape of the hierarchy, recursively: each node's list holds
/// the spheres beyond its own half-extent midpoint first and the rest
/// after; the node is a leaf exactly when one side is empty, and
/// otherwise its two children are built from the two sides, on the next
/// axis of the round-robin.
pub open spec fn bvh_split_wf(node: BoundingVolume, axis: Axis) -> bool
    decreases node,
{
    let objs = node.world_objects@;
    let mid = split_midpoint(objs, axis);
    let k = pred_prefix_len(objs, axis, mid);
    &&& forall|i: int| 0 <= i < k ==> split_pred(#[trigger] objs[i], axis, mid)
    &&& forall|i: int| k <= i < objs.len() ==> !split_pred(#[trigger] objs[i], axis, mid)
    &&& if k == 0 || k == objs.len() {
        node.children.0 is None && node.children.1 is None
    } else {
        match (node.children.0, node.children.1) {
            (Option::Some(c0), Option::Some(c1)) => {
                &&& c0.world_objects@.to_multiset() == objs.take(k).to_multiset()
                &&& c1.world_objects@.to_multiset() == objs.skip(k).to_multiset()
                &&& bvh_split_wf(*c0, axis.spec_next())
                &&& bvh_split_wf(*c1, axis.spec_next())
            },
            _ => false,
        }
    }
}

/// The box of every sphere's centre plus and minus its radius: each bound
/// of the box is the exact minimum or maximum over the list.
pub fn get_bounds(objects: &Vec<Sphere>) -> (b: BoundingBox)
    requires
        objects@.len() >= 1,
        forall|i: int| 0 <= i < objects@.len() ==> sphere_wf(#[trigger] objects@[i]),
    ensures
        forall|i: int| 0 <= i < objects@.len() ==> box_contains(b, #[trigger] objects@[i]),
        exists|j: int|
            0 <= j < objects@.len() && b.val@[0].x == #[trigger] objects@[j].pos.x
                - objects@[j].radius,
        exists|j: int|
            0 <= j < objects@.len() && b.val@[7].x == #[trigger] objects@[j].pos.x
                + objects@[j].radius,
        exists|j: int|
            0 <= j < objects@.len() && b.val@[0].y == #[trigger] objects@[j].pos.y
                - objects@[j].radius,
        exists|j: int|
            0 <= j < objects@.len() && b.val@[7].y == #[trigger] objects@[j].pos.y
                + objects@[j].radius,
        exists|j: int|
            0 <= j < objects@.len() && b.val@[0].z == #[trigger] objects@[j].pos.z
                - objects@[j].radius,
        exists|j: int|
            0 <= j < objects@.len() && b.val@[7].z == #[trigger] objects@[j].pos.z
                + objects@[j].radius,
        forall|k: int| 0 <= k < 8 ==> crate::vec3::vec_bounded(#[trigger] b.val@[k], 0x100_0000_0000),
        b.val@[0].x <= b.val@[7].x && b.val@[0].y <= b.val@[7].y && b.val@[0].z <= b.val@[7].z,
        b.val@[1] == (Vec3 { x: b.val@[0].x, y: b.val@[7].y, z: b.val@[0].z }),
        b.val@[2] == (Vec3 { x: b.val@[7].x, y: b.val@[0].y, z: b.val@[0].z }),
        b.val@[3] == (Vec3 { x: b.val@[7].x, y: b.val@[7].y, z: b.val@[0].z }),
        b.val@[4] == (Vec3 { x: b.val@[0].x, y: b.val@[0].y, z: b.val@[7].z }),
        b.val@[5] == (Vec3 { x: b.val@[0].x, y: b.val@[7].y, z: b.val@[7].z }),
        b.val@[6] == (Vec3 { x: b.val@[7].x, y: b.val@[0].y, z: b.val@[7].z }),
        box_tight(b, objects@),
{
    let first = objects[0];
    let mut min_x: i64 = first.pos.x - first.radius;
    let mut max_x: i64 = first.pos.x + first.radius;
    let mut min_y: i64 = first.pos.y - first.radius;
    let mut max_y: i64 = first.pos.y + first.radius;
    let mut min_z: i64 = first.pos.z - first.radius;
    let mut max_z: i64 = first.pos.z + first.radius;
    let n = objects.len();
    for i in 1..n
        invariant
            n == objects@.len(),
            n >= 1,
            forall|j: int| 0 <= j < objects@.len() ==> sphere_wf(#[trigger] objects@[j]),
            forall|j: int|
                0 <= j < i ==> min_x <= #[trigger] objects@[j].pos.x - objects@[j].radius,
            forall|j: int|
                0 <= j < i ==> #[trigger] objects@[j].pos.x + objects@[j].radius <= max_x,
            forall|j: int|
                0 <= j < i ==> min_y <= #[trigger] objects@[j].pos.y - objects@[j].radius,
            forall|j: int|
                0 <= j < i ==> #[trigger] objects@[j].pos.y + objects@[j].radius <= max_y,
            forall|j: int|
                0 <= j < i ==> min_z <= #[trigger] objects@[j].pos.z - objects@[j].radius,
            forall|j: int|
                0 <= j < i ==> #[trigger] objects@[j].pos.z + objects@[j].radius <= max_z,
            exists|j: int| 0 <= j < i && min_x == #[trigger] objects@[j].pos.x - objects@[j].radius,
            exists|j: int| 0 <= j < i && max_x == #[trigger] objects@[j].pos.x + objects@[j].radius,
            exists|j: int| 0 <= j < i && min_y == #[trigger] objects@[j].pos.y - objects@[j].radius,
            exists|j: int| 0 <= j < i && max_y == #[trigger] objects@[j].pos.y + objects@[j].radius,
            exists|j: int| 0 <= j < i && min_z == #[trigger] objects@[j].pos.z - objects@[j].radius,
            exists|j: int| 0 <= j < i && max_z == #[trigger] objects@[j].pos.z + objects@[j].radius,
            -0x100_0000_0000 <= min_x <= 0x100_0000_0000,
            -0x100_0000_0000 <= max_x <= 0x100_0000_0000,
            -0x100_0000_0000 <= min_y <= 0x100_0000_0000,
            -0x100_0000_0000 <= max_y <= 0x100_0000_0000,
            -0x100_0000_0000 <= min_z <= 0x100_0000_0000,
            -0x100_0000_0000 <= max_z <= 0x100_0000_0000,
    {
        let o = objects[i];
        let lo_x: i64 = o.pos.x - o.radius;
        let hi_x: i64 = o.pos.x + o.radius;
        let lo_y: i64 = o.pos.y - o.radius;
        let hi_y: i64 = o.pos.y + o.radius;
        let lo_z: i64 = o.pos.z - o.radius;
        let hi_z: i64 = o.pos.z + o.radius;
        if lo_x < min_x {
            min_x = lo_x;
        }
        if hi_x > max_x {
            max_x = hi_x;
        }
        if lo_y < min_y {
            min_y = lo_y;
        }
        if hi_y > max_y {
            max_y = hi_y;
        }
        if lo_z < min_z {
            min_z = lo_z;
        }
        if hi_z > max_z {
            max_z = hi_z;
        }
    }
    proof {
        let ax = Axis { axis: 0usize, dimensions: 3usize };
        let ay = Axis { axis: 1usize, dimensions: 3usize };
        let az = Axis { axis: 2usize, dimensions: 3usize };
        let jx = choose|j: int|
            0 <= j < objects@.len() && min_x == #[trigger] objects@[j].pos.x - objects@[j].radius;
        assert(min_x == spec_by_axis(objects@[jx].pos, ax) - objects@[jx].radius);
        let kx = choose|j: int|
            0 <= j < objects@.len() && max_x == #[trigger] objects@[j].pos.x + objects@[j].radius;
        assert(max_x == spec_by_axis(objects@[kx].pos, ax) + objects@[kx].radius);
        let jy = choose|j: int|
            0 <= j < objects@.len() && min_y == #[trigger] objects@[j].pos.y - objects@[j].radius;
        assert(min_y == spec_by_axis(objects@[jy].pos, ay) - objects@[jy].radius);
        let ky = choose|j: int|
            0 <= j < objects@.len() && max_y == #[trigger] objects@[j].pos.y + objects@[j].radius;
        assert(max_y == spec_by_axis(objects@[ky].pos, ay) + objects@[ky].radius);
        let jz = choose|j: int|
            0 <= j < objects@.len() && min_z == #[trigger] objects@[j].pos.z - objects@[j].radius;
        assert(min_z == spec_by_axis(objects@[jz].pos, az) - objects@[jz].radius);
        let kz = choose|j: int|
            0 <= j < objects@.len() && max_z == #[trigger] objects@[j].pos.z + objects@[j].radius;
        assert(max_z == spec_by_axis(objects@[kz].pos, az) + objects@[kz].radius);
    }
    BoundingBox {
        val: [
            Vec3 { x: min_x, y: min_y, z: min_z },
            Vec3 { x: min_x, y: max_y, z: min_z },
            Vec3 { x: max_x, y: min_y, z: min_z },
            Vec3 { x: max_x, y: max_y, z: min_z },
            Vec3 { x: min_x, y: min_y, z: max_z },
            Vec3 { x: min_x, y: max_y, z: max_z },
            Vec3 { x: max_x, y: min_y, z: max_z },
            Vec3 { x: max_x, y: max_y, z: max_z },
        ],
    }
}

/// Splits the list by the half-point predicate: spheres whose axis
/// coordinate plus radius exceeds the midpoint go left, the rest right.
fn partition_spheres(objects: &Vec<Sphere>, split_axis: Axis, midpoint: i64) -> (r: (
    Vec<Sphere>,
    Vec<Sphere>,
))
    requires
        forall|i: int| 0 <= i < objects@.len() ==> sphere_wf(#[trigger] objects@[i]),
    ensures
        (r.0@ + r.1@).to_multiset() == objects@.to_multiset(),
        r.0@.len() + r.1@.len() == objects@.len(),
        forall|i: int|
            0 <= i < r.0@.len() ==> spec_by_axis(#[trigger] r.0@[i].pos, split_axis)
                + r.0@[i].radius > midpoint,
        forall|i: int|
            0 <= i < r.1@.len() ==> spec_by_axis(#[trigger] r.1@[i].pos, split_axis)
                + r.1@[i].radius <= midpoint,
{
    broadcast use vstd::seq_lib::group_to_multiset_ensures;

    let mut left: Vec<Sphere> = Vec::new();
    let mut right: Vec<Sphere> = Vec::new();
    let n = objects.len();
    for i in 0..n
        invariant
            n == objects@.len(),
            forall|j: int| 0 <= j < objects@.len() ==> sphere_wf(#[trigger] objects@[j]),
            (left@ + right@).to_multiset() == objects@.take(i as int).to_multiset(),
            left@.len() + right@.len() == i,
            forall|j: int|
                0 <= j < left@.len() ==> spec_by_axis(#[trigger] left@[j].pos, split_axis)
                    + left@[j].radius > midpoint,
            forall|j: int|
                0 <= j < right@.len() ==> spec_by_axis(#[trigger] right@[j].pos, split_axis)
                    + right@[j].radius <= midpoint,
    {
        broadcast use vstd::seq_lib::group_to_multiset_ensures;

        let o = objects[i];
        proof {
            assert(objects@.take(i + 1).drop_last() =~= objects@.take(i as int));
            assert(objects@.take(i + 1) =~= objects@.take(i as int).push(objects@[i as int]));
            vstd::seq_lib::lemma_multiset_commutative(left@, right@);
        }
        if get_by_axis(o.pos, split_axis) + o.radius > midpoint {
            left.push(o);
            proof {
                vstd::seq_lib::lemma_multiset_commutative(left@, right@);
                assert(left@ =~= left@.drop_last().push(o));
                assert((left@ + right@).to_multiset() =~= (left@.drop_last()
                    + right@).to_multiset().insert(o)) by {
                    vstd::seq_lib::lemma_multiset_commutative(left@.drop_last(), right@);
                    assert(left@.drop_last().push(o).to_multiset() =~= left@.drop_last()
                        .to_multiset().insert(o));
                    assert((left@ + right@).to_multiset() =~= left@.to_multiset().add(
                        right@.to_multiset(),
                    ));
                }
            }
        } else {
            right.push(o);
            proof {
                vstd::seq_lib::lemma_multiset_commutative(left@, right@);
                assert(right@ =~= right@.drop_last().push(o));
                assert((left@ + right@).to_multiset() =~= (left@
                    + right@.drop_last()).to_multiset().insert(o)) by {
                    vstd::seq_lib::lemma_multiset_commutative(left@, right@.drop_last());
                    assert(right@.drop_last().push(o).to_multiset() =~= right@.drop_last()
                        .to_multiset().insert(o));
                    assert((left@ + right@).to_multiset() =~= left@.to_multiset().add(
                        right@.to_multiset(),
                    ));
                }
            }
        }
    }
    proof {
        assert(objects@.take(n as int) =~= objects@);
    }
    (left, right)
}

/// A permutation keeps every element's membership: anything found in the
/// rearranged list already stood in the original.
proof fn lemma_perm_membership(a: Seq<Sphere>, b: Seq<Sphere>)
    requires
        a.to_multiset() == b.to_multiset(),
    ensures
        forall|i: int| 0 <= i < b.len() ==> a.contains(#[trigger] b[i]),
{
    broadcast use vstd::seq_lib::group_to_multiset_ensures;

    assert forall|i: int| 0 <= i < b.len() implies a.contains(#[trigger] b[i]) by {
        assert(b.contains(b[i]));
        assert(b.to_multiset().count(b[i]) > 0);
        assert(a.to_multiset().count(b[i]) > 0);
    }
}

/// Builds the hierarchy for a non-empty list of spheres. Each node keeps
/// the whole partitioned list it was built from; when both sides of the
/// split are populated the children are built from the two sides, one
/// level deeper on the next axis. The split retries recompute the
/// identical partition before the node gives up and becomes a leaf: the
/// fixed retry count is kept deliberately, with no perturbation between
/// attempts.
/// An exact lower extent only depends on which coordinate the axis
/// selects, not on the axis value itself.
proof fn lemma_extent_lo_axis(objects: Seq<Sphere>, a1: Axis, a2: Axis, v: int)
    requires
        a1.axis == a2.axis || (a1.axis >= 2 && a2.axis >= 2),
        is_extent_lo(objects, a1, v),
    ensures
        is_extent_lo(objects, a2, v),
{
    assert forall|i: int|
        0 <= i < objects.len() implies v <= spec_by_axis(#[trigger] objects[i].pos, a2)
        - objects[i].radius by {
        assert(v <= spec_by_axis(objects[i].pos, a1) - objects[i].radius);
    }
    let j = choose|j: int|
        0 <= j < objects.len() && v == spec_by_axis(#[trigger] objects[j].pos, a1)
            - objects[j].radius;
    assert(v == spec_by_axis(objects[j].pos, a2) - objects[j].radius);
}

/// An exact upper extent only depends on which coordinate the axis
/// selects.
proof fn lemma_extent_hi_axis(objects: Seq<Sphere>, a1: Axis, a2: Axis, v: int)
    requires
        a1.axis == a2.axis || (a1.axis >= 2 && a2.axis >= 2),
        is_extent_hi(objects, a1, v),
    ensures
        is_extent_hi(objects, a2, v),
{
    assert forall|i: int|
        0 <= i < objects.len() implies spec_by_axis(#[trigger] objects[i].pos, a2)
        + objects[i].radius <= v by {
        assert(spec_by_axis(objects[i].pos, a1) + objects[i].radius <= v);
    }
    let j = choose|j: int|
        0 <= j < objects.len() && v == spec_by_axis(#[trigger] objects[j].pos, a1)
            + objects[j].radius;
    assert(v == spec_by_axis(objects[j].pos, a2) + objects[j].radius);
}

/// A tight box gives the exact extents on any split axis.
proof fn lemma_box_tight_axis_extents(objects: Seq<Sphere>, b: BoundingBox, ax: Axis)
    requires
        box_tight(b, objects),
    ensures
        is_extent_lo(objects, ax, spec_by_axis(b.val@[0], ax)),
        is_extent_hi(objects, ax, spec_by_axis(b.val@[7], ax)),
{
    if ax.axis == 0 {
        lemma_extent_lo_axis(objects, Axis { axis: 0, dimensions: 3 }, ax, b.val@[0].x as int);
        lemma_extent_hi_axis(objects, Axis { axis: 0, dimensions: 3 }, ax, b.val@[7].x as int);
    } else if ax.axis == 1 {
        lemma_extent_lo_axis(objects, Axis { axis: 1, dimensions: 3 }, ax, b.val@[0].y as int);
        lemma_extent_hi_axis(objects, Axis { axis: 1, dimensions: 3 }, ax, b.val@[7].y as int);
    } else {
        lemma_extent_lo_axis(objects, Axis { axis: 2, dimensions: 3 }, ax, b.val@[0].z as int);
        lemma_extent_hi_axis(objects, Axis { axis: 2, dimensions: 3 }, ax, b.val@[7].z as int);
    }
}

/// Everything the builder needs to know about a node's partitioned list:
/// it is a permutation of the input inside the same tight box, its prefix
/// length under the split predicate is the first side's length, and the
/// list's own half-extent midpoint is the one the split used.
proof fn lemma_node_list_facts(
    objects: Seq<Sphere>,
    left: Seq<Sphere>,
    right: Seq<Sphere>,
    all: Seq<Sphere>,
    bounds: BoundingBox,
    ax: Axis,
    midpoint: int,
)
    requires
        all == left + right,
        (left + right).to_multiset() == objects.to_multiset(),
        forall|i: int| 0 <= i < objects.len() ==> sphere_wf(#[trigger] objects[i]),
        forall|i: int| 0 <= i < objects.len() ==> box_contains(bounds, #[trigger] objects[i]),
        box_tight(bounds, objects),
        forall|i: int|
            0 <= i < left.len() ==> spec_by_axis(#[trigger] left[i].pos, ax) + left[i].radius
                > midpoint,
        forall|i: int|
            0 <= i < right.len() ==> spec_by_axis(#[trigger] right[i].pos, ax) + right[i].radius
                <= midpoint,
        midpoint == crate::num::tdiv(
            spec_by_axis(bounds.val@[7], ax) - spec_by_axis(bounds.val@[0], ax),
            2,
        ),
    ensures
        all.to_multiset() == objects.to_multiset(),
        forall|i: int|
            0 <= i < all.len() ==> box_contains(bounds, #[trigger] all[i]) && sphere_wf(all[i]),
        box_tight(bounds, all),
        split_midpoint(all, ax) == midpoint,
        pred_prefix_len(all, ax, midpoint) == left.len(),
        forall|i: int| 0 <= i < left.len() ==> split_pred(#[trigger] all[i], ax, midpoint),
        forall|i: int|
            left.len() <= i < all.len() ==> !split_pred(#[trigger] all[i], ax, midpoint),
{
    lemma_perm_membership(objects, all);
    lemma_perm_membership(all, objects);
    lemma_box_tight_perm(bounds, objects, all);
    assert forall|i: int|
        0 <= i < all.len() implies box_contains(bounds, #[trigger] all[i]) && sphere_wf(
        all[i],
    ) by {
        let j = choose|j: int| 0 <= j < objects.len() && objects[j] == all[i];
        assert(box_contains(bounds, objects[j]));
    }
    lemma_box_tight_axis_extents(all, bounds, ax);
    lemma_extent_lo_unique(all, ax, spec_by_axis(bounds.val@[0], ax));
    lemma_extent_hi_unique(all, ax, spec_by_axis(bounds.val@[7], ax));
    assert(split_midpoint(all, ax) == midpoint);
    assert forall|i: int|
        0 <= i < left.len() implies split_pred(#[trigger] all[i], ax, midpoint) by {
        assert(all[i] == left[i]);
    }
    assert forall|i: int|
        left.len() <= i < all.len() implies !split_pred(#[trigger] all[i], ax, midpoint) by {
        assert(all[i] == right[i - left.len()]);
    }
    lemma_prefix_len(all, ax, midpoint, left.len() as int);
}

#[verifier::rlimit(100)]
#[verifier::spinoff_prover]
pub fn construct_bvh(objects: Vec<Sphere>, level: i32, split_axis: Axis) -> (r: Box<
    BoundingVolume,
>)
    requires
        1 <= objects@.len(),
        forall|i: int| 0 <= i < objects@.len() ==> sphere_wf(#[trigger] objects@[i]),
        split_axis.axis < split_axis.dimensions,
        0 <= level,
        level + objects@.len() <= i32::MAX,
    ensures
        bvh_wf(*r),
        bvh_split_wf(*r, split_axis),
        r.level == level,
        r.world_objects@.to_multiset() == objects@.to_multiset(),
        r.world_objects@.len() == objects@.len(),
    decreases objects@.len(),
{
    broadcast use vstd::seq_lib::group_to_multiset_ensures;

    let bounds = get_bounds(&objects);
    let local = bounds.local_coordinates();
    let midpoint: i64 = get_by_axis(local.max_point(), split_axis) / 2;
    proof {
        assert(midpoint == crate::num::tdiv(
            spec_by_axis(bounds.val@[7], split_axis) - spec_by_axis(bounds.val@[0], split_axis),
            2,
        ));
    }
    let (mut left, mut right) = partition_spheres(&objects, split_axis, midpoint);
    let mut split_attempts: u32 = 1;
    while (left.len() == 0 || right.len() == 0) && split_attempts < 3
        invariant
            forall|i: int| 0 <= i < objects@.len() ==> sphere_wf(#[trigger] objects@[i]),
            (left@ + right@).to_multiset() == objects@.to_multiset(),
            left@.len() + right@.len() == objects@.len(),
            forall|i: int|
                0 <= i < left@.len() ==> spec_by_axis(#[trigger] left@[i].pos, split_axis)
                    + left@[i].radius > midpoint,
            forall|i: int|
                0 <= i < right@.len() ==> spec_by_axis(#[trigger] right@[i].pos, split_axis)
                    + right@[i].radius <= midpoint,
            1 <= split_attempts <= 3,
        decreases 3 - split_attempts,
    {
        // The construction rule retries the very same partition before
        // declaring a leaf; the recomputation is deliberate.
        let (l2, r2) = partition_spheres(&objects, split_axis, midpoint);
        left = l2;
        right = r2;
        split_attempts = split_attempts + 1;
    }
    let mut all: Vec<Sphere> = Vec::new();
    let nl = left.len();
    for k in 0..nl
        invariant
            nl == left@.len(),
            all@ =~= left@.take(k as int),
    {
        all.push(left[k]);
    }
    proof {
        assert(all@ =~= left@);
    }
    let nr = right.len();
    for k in 0..nr
        invariant
            nr == right@.len(),
            all@ =~= left@ + right@.take(k as int),
    {
        all.push(right[k]);
        proof {
            assert(left@ + right@.take(k as int) + seq![right@[k as int]] =~= left@ + right@.take(
                k + 1,
            ));
        }
    }
    proof {
        assert(all@ =~= left@ + right@);
        lemma_node_list_facts(
            objects@,
            left@,
            right@,
            all@,
            bounds,
            split_axis,
            midpoint as int,
        );
    }
    if left.len() == 0 || right.len() == 0 {
        let node = BoundingVolume { bounds, world_objects: all, children: (None, None), level };
        proof {
            assert(bvh_split_wf(node, split_axis));
        }
        Box::new(node)
    } else {
        proof {
            assert forall|i: int| 0 <= i < left@.len() implies sphere_wf(#[trigger] left@[i]) by {
                assert(left@[i] == all@[i]);
            }
            assert forall|i: int| 0 <= i < right@.len() implies sphere_wf(#[trigger] right@[i]) by {
                assert(right@[i] == all@[left@.len() + i]);
            }
        }
        let ghost left_snapshot = left@;
        let ghost right_snapshot = right@;
        let child_a = construct_bvh(left, level + 1, split_axis.next());
        let child_b = construct_bvh(right, level + 1, split_axis.next());
        let node = BoundingVolume {
            bounds,
            world_objects: all,
            children: (Some(child_a), Some(child_b)),
            level,
        };
        proof {
            let k = left_snapshot.len() as int;
            assert(node.world_objects@.take(k) =~= left_snapshot);
            assert(node.world_objects@.skip(k) =~= right_snapshot);
            assert(bvh_split_wf(node, split_axis));
        }
        Box::new(node)
    }
}

} // verus!
