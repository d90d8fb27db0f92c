//! The bounding volume hierarchy: a binary tree over shapes, built by
//! median split along a random axis and traversed with slab-test
//! pruning and a tightened upper bound on the right subtree.

use vstd::prelude::*;
use vstd::seq_lib::lemma_multiset_commutative;
use crate::bounding_box::{BBox, BBoxV, bbox_wf, bbox_hit_fx, surrounding_fx, axis_of, lemma_surrounding_wf};
use crate::geometry::{
    HitRecord,
    HitV,
    Shape,
    opt_hit,
    hit_opt_wf,
    hit_wf,
    shape_wf,
    shapes_wf,
    shape_hit_fx,
    shape_list_hit_fx,
    shape_bbox_fx,
};
use crate::ray::{Ray, RayV, ray_wf, T_FAR};
use crate::rng::rand_axis;

verus! {

/// A binary tree: internal nodes own a pruning box and two children, a
/// leaf owns one shape. Invariant (`bvh_wf`): every internal box is the
/// surrounding box of its children's boxes.
#[derive(Debug)]
pub enum BVHNode {
    Internal { bbox: BBox, left: Box<BVHNode>, right: Box<BVHNode> },
    Leaf { hittable: Shape },
}

/// The shapes stored at the leaves, left to right.
pub open spec fn bvh_items(n: BVHNode) -> Seq<Shape>
    decreases n,
{
    match n {
        BVHNode::Leaf { hittable } => seq![hittable],
        BVHNode::Internal { bbox, left, right } => bvh_items(*left) + bvh_items(*right),
    }
}

pub open spec fn bvh_bbox_fx(n: BVHNode) -> BBoxV
    decreases n,
{
    match n {
        BVHNode::Leaf { hittable } => shape_bbox_fx(hittable),
        BVHNode::Internal { bbox, left, right } => bbox@,
    }
}

/// Structural invariant: leaves hold well-formed shapes, and every
/// internal node's box is exactly the surrounding box of its children's
/// boxes.
pub open spec fn bvh_wf(n: BVHNode) -> bool
    decreases n,
{
    match n {
        BVHNode::Leaf { hittable } => shape_wf(hittable),
        BVHNode::Internal { bbox, left, right } => bvh_wf(*left) && bvh_wf(*right) && bbox_wf(
            bbox@,
        ) && bbox@ == surrounding_fx(bvh_bbox_fx(*left), bvh_bbox_fx(*right)),
    }
}

/// Mirror of traversal: a leaf delegates to its shape; an internal node
/// prunes on a box miss, otherwise traces the left subtree first and
/// then the right one with the upper bound tightened to the left hit,
/// so a right hit reported back is closer by construction.
pub open spec fn bvh_hit_fx(n: BVHNode, r: RayV, t_min: int, t_max: int) -> Option<HitV>
    decreases n,
{
    match n {
        BVHNode::Leaf { hittable } => shape_hit_fx(hittable, r, t_min, t_max),
        BVHNode::Internal { bbox, left, right } => {
            if !bbox_hit_fx(bbox@, r, t_min, t_max) {
                Option::None
            } else {
                let hit_left = bvh_hit_fx(*left, r, t_min, t_max);
                let t_max1 = match hit_left {
                    Option::Some(h) => h.t,
                    Option::None => t_max,
                };
                let hit_right = bvh_hit_fx(*right, r, t_min, t_max1);
                match hit_right {
                    Option::Some(h) => Option::Some(h),
                    Option::None => hit_left,
                }
            }
        },
    }
}

/// Longest path from the root to a leaf, in edges.
pub open spec fn bvh_height(n: BVHNode) -> nat
    decreases n,
{
    match n {
        BVHNode::Leaf { hittable } => 0,
        BVHNode::Internal { bbox, left, right } => (1 + if bvh_height(*left) >= bvh_height(*right) {
            bvh_height(*left)
        } else {
            bvh_height(*right)
        }) as nat,
    }
}

/// Ceiling of the base-two logarithm: zero for counts up to one, else
/// one more than for the halved (rounded-up) count.
pub open spec fn log2ceil(n: int) -> nat
    decreases n,
{
    if n <= 1 {
        0
    } else {
        (1 + log2ceil((n + 1) / 2)) as nat
    }
}

pub proof fn lemma_log2ceil_monotone(a: int, b: int)
    requires
        0 <= a <= b,
    ensures
        log2ceil(a) <= log2ceil(b),
    decreases b,
{
    if b <= 1 || a <= 1 {
    } else {
        vstd::arithmetic::div_mod::lemma_div_is_ordered(a + 1, b + 1, 2);
        vstd::arithmetic::div_mod::lemma_fundamental_div_mod(b + 1, 2);
        lemma_log2ceil_monotone((a + 1) / 2, (b + 1) / 2);
    }
}

/// The sort key for the median split: the minimum coordinate of the
/// shape's box along the chosen axis.
pub open spec fn bvh_key(s: Shape, axis: int) -> int {
    axis_of(shape_bbox_fx(s).min, axis)
}

pub open spec fn sorted_by_key(ss: Seq<Shape>, axis: int) -> bool {
    forall|i: int, j: int|
        0 <= i <= j < ss.len() ==> bvh_key(#[trigger] ss[i], axis) <= bvh_key(
            #[trigger] ss[j],
            axis,
        )
}

/// The comparison key of one shape.
fn key_of(s: &Shape, axis: usize) -> (k: i64)
    requires
        shape_wf(*s),
        axis < 3,
    ensures
        k as int == bvh_key(*s, axis as int),
{
    let b: BBox = s.bounding_box();
    if axis == 0 {
        b.min.x
    } else if axis == 1 {
        b.min.y
    } else {
        b.min.z
    }
}

/// Insertion sort of the shapes by box minimum along `axis`: the result
/// is sorted and holds exactly the same shapes.
fn sort_by_axis(shapes: &mut Vec<Shape>, axis: usize)
    requires
        shapes_wf(old(shapes)@),
        axis < 3,
    ensures
        final(shapes)@.len() == old(shapes)@.len(),
        final(shapes)@.to_multiset() == old(shapes)@.to_multiset(),
        shapes_wf(final(shapes)@),
        sorted_by_key(final(shapes)@, axis as int),
{
    broadcast use vstd::seq_lib::group_to_multiset_ensures;
    broadcast use vstd::multiset::group_multiset_axioms;

    if shapes.len() <= 1 {
        proof {
            assert forall|x: int, y: int|
                0 <= x <= y < shapes@.len() implies bvh_key(#[trigger] shapes@[x], axis as int)
                <= bvh_key(#[trigger] shapes@[y], axis as int) by {
                assert(x == y);
            }
        }
        return ;
    }
    let mut i: usize = 1;
    while i < shapes.len()
        invariant
            1 <= i <= shapes@.len(),
            shapes@.len() == old(shapes)@.len(),
            shapes@.to_multiset() == old(shapes)@.to_multiset(),
            shapes_wf(shapes@),
            axis < 3,
            sorted_by_key(shapes@.take(i as int), axis as int),
        decreases shapes@.len() - i,
    {
        let ghost before = shapes@;
        let v: Shape = shapes.remove(i);
        let ghost removed = shapes@;
        let kv: i64 = key_of(&v, axis);
        let mut j: usize = i;
        let mut done: bool = false;
        while j > 0 && !done
            invariant
                j <= i,
                i < before.len(),
                removed == before.remove(i as int),
                shapes@ == removed,
                axis < 3,
                shapes_wf(before),
                sorted_by_key(before.take(i as int), axis as int),
                kv as int == bvh_key(v, axis as int),
                v == before[i as int],
                forall|k: int|
                    j <= k < i ==> bvh_key(#[trigger] removed[k], axis as int) > kv as int,
                done ==> j > 0 && bvh_key(removed[j - 1], axis as int) <= kv as int,
            decreases j, (if done { 0int } else { 1int }),
        {
            proof {
                assert(removed[j - 1] == before[j - 1]);
            }
            let kj: i64 = key_of(&shapes[j - 1], axis);
            if kj > kv {
                j = j - 1;
            } else {
                done = true;
            }
        }
        shapes.insert(j, v);
        proof {
            let now = shapes@;
            assert(now == removed.insert(j as int, v));
            assert(now.to_multiset() == before.to_multiset()) by {
                vstd::seq_lib::to_multiset_remove::<Shape>(before, i as int);
                vstd::seq_lib::to_multiset_insert::<Shape>(removed, j as int, v);
                assert(0 <= i < before.len() && before[i as int] == v);
                assert(before.contains(v));
                vstd::seq_lib::to_multiset_contains::<Shape>(before, v);
                assert(before.to_multiset().count(v) > 0);
                assert(now.to_multiset() =~= before.to_multiset());
            }
            assert(shapes_wf(now)) by {
                assert forall|k: int| 0 <= k < now.len() implies shape_wf(#[trigger] now[k]) by {
                    if k < j {
                        assert(now[k] == before[k]);
                    } else if k == j {
                        assert(now[k] == v);
                    } else {
                        assert(now[k] == removed[k - 1]);
                        if k - 1 < i {
                            assert(removed[k - 1] == before[k - 1]);
                        } else {
                            assert(removed[k - 1] == before[k]);
                        }
                    }
                }
            }
            assert(sorted_by_key(now.take(i as int + 1), axis as int)) by {
                let p = now.take(i as int + 1);
                assert forall|x: int, y: int|
                    0 <= x <= y < p.len() implies bvh_key(#[trigger] p[x], axis as int) <= bvh_key(
                    #[trigger] p[y],
                    axis as int,
                ) by {
                    assert(forall|k: int|
                        0 <= k < i ==> #[trigger] removed[k] == (if k < i {
                            before[k]
                        } else {
                            before[k + 1]
                        }));
                    if j > 0 {
                        assert(bvh_key(before[j - 1], axis as int) <= kv as int);
                    }
                }
            }
        }
        i = i + 1;
    }
    proof {
        assert(shapes@.take(shapes@.len() as int) =~= shapes@);
    }
}

/// Any hit the traversal reports lies within the queried range.
pub proof fn lemma_bvh_hit_t_range(n: BVHNode, r: RayV, t_min: int, t_max: int)
    ensures
        match bvh_hit_fx(n, r, t_min, t_max) {
            Option::Some(h) => t_min <= h.t <= t_max,
            Option::None => true,
        },
    decreases n,
{
    match n {
        BVHNode::Leaf { hittable } => {
            crate::geometry::lemma_shape_hit_t_range(hittable, r, t_min, t_max);
        },
        BVHNode::Internal { bbox, left, right } => {
            if bbox_hit_fx(bbox@, r, t_min, t_max) {
                lemma_bvh_hit_t_range(*left, r, t_min, t_max);
                let hit_left = bvh_hit_fx(*left, r, t_min, t_max);
                let t_max1 = match hit_left {
                    Option::Some(h) => h.t,
                    Option::None => t_max,
                };
                lemma_bvh_hit_t_range(*right, r, t_min, t_max1);
            }
        },
    }
}

/// Soundness of the traversal against the flat list: whatever hit the
/// tree reports is the hit some stored shape reports, for the same
/// lower bound and an upper bound no larger than the one queried. The
/// tightened bound is how the traversal guarantees a right-subtree hit
/// is closer than the left one.
pub proof fn lemma_bvh_hit_sound(n: BVHNode, r: RayV, t_min: int, t_max: int)
    requires
        bvh_hit_fx(n, r, t_min, t_max) is Some,
    ensures
        exists|i: int, tm: int|
            0 <= i < bvh_items(n).len() && tm <= t_max && #[trigger] shape_hit_fx(
                bvh_items(n)[i],
                r,
                t_min,
                tm,
            ) == bvh_hit_fx(n, r, t_min, t_max),
    decreases n,
{
    match n {
        BVHNode::Leaf { hittable } => {
            assert(bvh_items(n)[0] == hittable);
            assert(shape_hit_fx(bvh_items(n)[0], r, t_min, t_max) == bvh_hit_fx(
                n,
                r,
                t_min,
                t_max,
            ));
        },
        BVHNode::Internal { bbox, left, right } => {
            let hit_left = bvh_hit_fx(*left, r, t_min, t_max);
            let t_max1 = match hit_left {
                Option::Some(h) => h.t,
                Option::None => t_max,
            };
            let hit_right = bvh_hit_fx(*right, r, t_min, t_max1);
            lemma_bvh_hit_t_range(*left, r, t_min, t_max);
            if hit_right is Some {
                lemma_bvh_hit_sound(*right, r, t_min, t_max1);
                let (i, tm) = choose|i: int, tm: int|
                    0 <= i < bvh_items(*right).len() && tm <= t_max1 && #[trigger] shape_hit_fx(
                        bvh_items(*right)[i],
                        r,
                        t_min,
                        tm,
                    ) == bvh_hit_fx(*right, r, t_min, t_max1);
                assert(bvh_items(n)[bvh_items(*left).len() + i] == bvh_items(*right)[i]);
                assert(shape_hit_fx(bvh_items(n)[bvh_items(*left).len() + i], r, t_min, tm)
                    == bvh_hit_fx(n, r, t_min, t_max));
            } else {
                lemma_bvh_hit_sound(*left, r, t_min, t_max);
                let (i, tm) = choose|i: int, tm: int|
                    0 <= i < bvh_items(*left).len() && tm <= t_max && #[trigger] shape_hit_fx(
                        bvh_items(*left)[i],
                        r,
                        t_min,
                        tm,
                    ) == bvh_hit_fx(*left, r, t_min, t_max);
                assert(bvh_items(n)[i] == bvh_items(*left)[i]);
                assert(shape_hit_fx(bvh_items(n)[i], r, t_min, tm) == bvh_hit_fx(
                    n,
                    r,
                    t_min,
                    t_max,
                ));
            }
        },
    }
}

/// Tree/flat-list agreement, the provable direction: any hit the
/// traversal reports strictly inside the queried range is matched by
/// the exhaustive scan of the stored shapes, with a hit at least as
/// close. (The converse — that pruning by the boxes never loses a
/// closer hit — rests on the geometric conservativeness of the rounded
/// slab test and is exercised by randomized tests instead.)
pub proof fn lemma_bvh_hit_found_by_list(n: BVHNode, r: RayV, t_min: int, t_max: int)
    requires
        match bvh_hit_fx(n, r, t_min, t_max) {
            Option::Some(h) => h.t < t_max,
            Option::None => false,
        },
    ensures
        match (shape_list_hit_fx(bvh_items(n), r, t_min, t_max), bvh_hit_fx(n, r, t_min, t_max)) {
            (Option::Some(res), Option::Some(h)) => res.t <= h.t,
            _ => false,
        },
{
    match bvh_hit_fx(n, r, t_min, t_max) {
        Option::Some(h) => {
            lemma_bvh_hit_sound(n, r, t_min, t_max);
            let (i, tm) = choose|i: int, tm: int|
                0 <= i < bvh_items(n).len() && tm <= t_max && #[trigger] shape_hit_fx(
                    bvh_items(n)[i],
                    r,
                    t_min,
                    tm,
                ) == bvh_hit_fx(n, r, t_min, t_max);
            crate::geometry::lemma_shape_hit_widens(bvh_items(n)[i], r, t_min, tm, t_max);
            match shape_hit_fx(bvh_items(n)[i], r, t_min, t_max) {
                Option::Some(hw) => {
                    assert(hw.t <= h.t < t_max);
                    crate::geometry::lemma_shape_scan_complete(
                        bvh_items(n),
                        r,
                        t_min,
                        t_max,
                        Option::None,
                        t_max,
                        i,
                    );
                },
                Option::None => {},
            }
        },
        Option::None => {},
    }
}

impl BVHNode {
    /// Builds the tree: a single shape becomes a leaf; otherwise the
    /// shapes are ordered by box minimum along a random axis, split at
    /// the median, and both halves are built recursively. The result
    /// holds exactly the given shapes and satisfies the box invariant.
    pub fn from_shapes(rng: &mut rand::rngs::SmallRng, shapes: Vec<Shape>) -> (n: BVHNode)
        requires
            shapes@.len() >= 1,
            shapes_wf(shapes@),
        ensures
            bvh_wf(n),
            bvh_items(n).to_multiset() == shapes@.to_multiset(),
            bvh_items(n).len() == shapes@.len(),
            bvh_height(n) <= log2ceil(shapes@.len() as int),
        decreases shapes@.len(),
    {
        broadcast use vstd::seq_lib::group_to_multiset_ensures;

        let mut shapes = shapes;
        if shapes.len() == 1 {
            let ghost before = shapes@;
            let s: Shape = shapes.remove(0);
            let n = BVHNode::Leaf { hittable: s };
            proof {
                assert(bvh_items(n) =~= seq![before[0]]);
                assert(seq![before[0]].to_multiset() =~= before.to_multiset()) by {
                    assert(before =~= Seq::empty().push(before[0]));
                    assert(seq![before[0]] =~= Seq::empty().push(before[0]));
                }
            }
            return n;
        }
        let axis: usize = rand_axis(rng);
        sort_by_axis(&mut shapes, axis);
        let ghost sorted = shapes@;
        let mid: usize = shapes.len() / 2;
        let right_vec: Vec<Shape> = shapes.split_off(mid);
        proof {
            assert(shapes@ =~= sorted.subrange(0, mid as int));
            assert(right_vec@ =~= sorted.subrange(mid as int, sorted.len() as int));
            assert(shapes@ + right_vec@ =~= sorted);
            assert forall|k: int| 0 <= k < shapes@.len() implies shape_wf(#[trigger] shapes@[k])
                by {
                assert(shapes@[k] == sorted[k]);
            }
            assert forall|k: int| 0 <= k < right_vec@.len() implies shape_wf(
                #[trigger] right_vec@[k],
            ) by {
                assert(right_vec@[k] == sorted[k + mid]);
            }
        }
        let left = BVHNode::from_shapes(rng, shapes);
        let right = BVHNode::from_shapes(rng, right_vec);
        let lb: BBox = left.bounding_box();
        let rb: BBox = right.bounding_box();
        let bbox: BBox = BBox::surrounding_box(lb, rb);
        proof {
            lemma_surrounding_wf(lb@, rb@);
        }
        let ghost li = bvh_items(left);
        let ghost ri = bvh_items(right);
        let ghost hl = bvh_height(left);
        let ghost hr = bvh_height(right);
        let n = BVHNode::Internal { bbox, left: Box::new(left), right: Box::new(right) };
        proof {
            lemma_multiset_commutative(li, ri);
            lemma_multiset_commutative(
                sorted.subrange(0, mid as int),
                sorted.subrange(mid as int, sorted.len() as int),
            );
            assert(bvh_items(n) == li + ri);
            let len = sorted.len() as int;
            vstd::arithmetic::div_mod::lemma_fundamental_div_mod(len, 2);
            vstd::arithmetic::div_mod::lemma_fundamental_div_mod(len + 1, 2);
            assert(len - mid == (len + 1) / 2);
            vstd::arithmetic::div_mod::lemma_div_is_ordered(len, len + 1, 2);
            lemma_log2ceil_monotone(mid as int, (len + 1) / 2);
            assert(bvh_height(n) == 1 + if hl >= hr {
                hl
            } else {
                hr
            });
            assert(log2ceil(len) == 1 + log2ceil((len + 1) / 2));
        }
        n
    }

    pub fn bounding_box(&self) -> (b: BBox)
        requires
            bvh_wf(*self),
        ensures
            b@ == bvh_bbox_fx(*self),
            bbox_wf(b@),
    {
        match self {
            BVHNode::Internal { bbox, .. } => *bbox,
            BVHNode::Leaf { hittable } => hittable.bounding_box(),
        }
    }

    /// Traversal, proved equal to the `bvh_hit_fx` mirror.
    pub fn hit_by(&self, ray: &Ray, t_min: i64, t_max: i64) -> (res: Option<HitRecord>)
        requires
            bvh_wf(*self),
            ray_wf(ray@),
            -T_FAR <= t_min,
            t_max <= T_FAR,
        ensures
            opt_hit(res) == bvh_hit_fx(*self, ray@, t_min as int, t_max as int),
            hit_opt_wf(opt_hit(res)),
        decreases *self,
    {
        match self {
            BVHNode::Leaf { hittable } => hittable.hit_by(ray, t_min, t_max),
            BVHNode::Internal { bbox, left, right } => {
                if !bbox.hit(ray, t_min, t_max) {
                    Option::None
                } else {
                    let hit_left: Option<HitRecord> = left.hit_by(ray, t_min, t_max);
                    let t_max1: i64 = match &hit_left {
                        Option::Some(rec) => rec.t,
                        Option::None => t_max,
                    };
                    let hit_right: Option<HitRecord> = right.hit_by(ray, t_min, t_max1);
                    match hit_right {
                        Option::Some(rec) => Option::Some(rec),
                        Option::None => hit_left,
                    }
                }
            },
        }
    }
}

} // verus!
