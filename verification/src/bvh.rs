//! The bounding-volume hierarchy.
use vstd::prelude::*;
use vstd::seq_lib::{group_to_multiset_ensures, lemma_multiset_commutative};
use crate::aabb::{lemma_enclosing_box_is_hit, AABB};
use crate::fixed::Fixed;
use crate::hittable::{capped, closest_so_far, nearer, HitRecord, Hittable, HittableList};
use crate::ray::Ray;
use crate::sphere::in_range;

verus! {

/// A node of the hierarchy: two things and a box around both. A ray that
/// misses the box is not tested against the things.
pub struct BVHNode {
    pub left: Box<Hittable>,
    pub right: Box<Hittable>,
    pub bbox: AABB,
}

impl BVHNode {
    /// The nearest intersection of the ray with either child; nothing
    /// where the ray misses the node's box. The right child is searched
    /// only up to the intersection found in the left one.
    pub open spec fn hit_spec(&self, r: Ray, t_min: Fixed, t_max: Fixed) -> Option<HitRecord> {
        if self.bbox.hit_spec(r, t_min, t_max) {
            let in_left = self.left.hit_spec(r, t_min, t_max);
            nearer(in_left, self.right.hit_spec(r, t_min, closest_so_far(in_left, t_max)))
        } else {
            None
        }
    }

    /// How many primitives the search tests: none where the ray misses
    /// the node's box.
    pub open spec fn tests_spec(&self, r: Ray, t_min: Fixed, t_max: Fixed) -> nat {
        if self.bbox.hit_spec(r, t_min, t_max) {
            let in_left = self.left.hit_spec(r, t_min, t_max);
            self.left.tests_spec(r, t_min, t_max) + self.right.tests_spec(
                r,
                t_min,
                closest_so_far(in_left, t_max),
            )
        } else {
            0
        }
    }

    /// The nearest intersection, counting in `tests` every primitive that is
    /// tested on the way: none where the ray misses the node's box.
    pub fn hit_counting<'a>(&'a self, r: Ray, t_min: Fixed, t_max: Fixed, tests: &mut u64) -> (out:
        Option<HitRecord<'a>>)
        ensures
            out == self.hit_spec(r, t_min, t_max),
            out matches Some(rec) ==> in_range(rec.t, t_min, t_max) && rec.p == r.at_spec(rec.t),
            *final(tests) == capped(*old(tests) + self.tests_spec(r, t_min, t_max)),
            !self.bbox.hit_spec(r, t_min, t_max) ==> out is None && *final(tests) == *old(tests),
        decreases self,
    {
        if !self.bbox.hit(r, t_min, t_max) {
            return None;
        }
        let in_left = self.left.hit_counting(r, t_min, t_max, tests);
        let closest = match &in_left {
            Some(rec) => rec.t,
            None => t_max,
        };
        let in_right = self.right.hit_counting(r, t_min, closest, tests);
        match in_right {
            Some(rec) => Some(rec),
            None => in_left,
        }
    }

    /// The nearest intersection of the ray with either child; nothing
    /// where the ray misses the node's box.
    pub fn hit<'a>(&'a self, r: Ray, t_min: Fixed, t_max: Fixed) -> (out: Option<HitRecord<'a>>)
        ensures
            out == self.hit_spec(r, t_min, t_max),
            out matches Some(rec) ==> in_range(rec.t, t_min, t_max) && rec.p == r.at_spec(rec.t),
            !self.bbox.hit_spec(r, t_min, t_max) ==> out is None,
    {
        let mut tests: u64 = 0;
        self.hit_counting(r, t_min, t_max, &mut tests)
    }

    /// The node's own box.
    pub fn bounding_box(&self, time0: Fixed, time1: Fixed) -> (out: Option<AABB>)
        ensures
            out == Some(self.bbox),
    {
        Some(self.bbox)
    }
}

/// The coordinate by which a thing is ordered along an axis (0 for `x`, 1
/// for `y`, else `z`): the least coordinate of its box on that axis, and
/// zero for a thing without a box.
pub open spec fn axis_key_spec(h: Hittable, axis: u8, time0: Fixed, time1: Fixed) -> int {
    match h.bounding_box_spec(time0, time1) {
        Some(b) => if axis == 0 {
            b.min.x.raw as int
        } else if axis == 1 {
            b.min.y.raw as int
        } else {
            b.min.z.raw as int
        },
        None => 0,
    }
}

/// The axis after `axis`, in the cycle `x`, `y`, `z`.
pub open spec fn next_axis_spec(axis: u8) -> u8 {
    if axis >= 2 {
        0
    } else {
        (axis + 1) as u8
    }
}

/// `left` and `right` split `objects` at the median along the axis: they
/// hold the same things as `objects`, `left` holds the smaller half of
/// them, and nothing in `left` lies beyond anything in `right`.
pub open spec fn halves(
    objects: Seq<Hittable>,
    left: Seq<Hittable>,
    right: Seq<Hittable>,
    axis: u8,
    time0: Fixed,
    time1: Fixed,
) -> bool {
    &&& (left + right).to_multiset() == objects.to_multiset()
    &&& left.len() == objects.len() / 2
    &&& left.len() + right.len() == objects.len()
    &&& forall|i: int, j: int|
        0 <= i < left.len() && 0 <= j < right.len() ==> axis_key_spec(
            #[trigger] left[i],
            axis,
            time0,
            time1,
        ) <= axis_key_spec(#[trigger] right[j], axis, time0, time1)
}

/// `tree` is the hierarchy over `objects` that splits along `axis` first:
/// the thing itself for a single thing, and else a node over the
/// hierarchies of the two halves of a median split, split along the next
/// axis, with the box around the boxes of both.
pub open spec fn grown_from(
    tree: Hittable,
    objects: Seq<Hittable>,
    axis: u8,
    time0: Fixed,
    time1: Fixed,
) -> bool
    decreases objects.len(),
{
    if objects.len() == 0 {
        false
    } else if objects.len() == 1 {
        tree == objects[0]
    } else {
        &&& tree matches Hittable::Node(n)
        &&& n.left.bounding_box_spec(time0, time1) matches Some(left_box)
        &&& n.right.bounding_box_spec(time0, time1) matches Some(right_box)
        &&& n.bbox == AABB::surrounding_box_spec(left_box, right_box)
        &&& exists|l: Seq<Hittable>, r: Seq<Hittable>|
            #![trigger halves(objects, l, r, axis, time0, time1)]
            {
                &&& halves(objects, l, r, axis, time0, time1)
                &&& l.len() < objects.len()
                &&& r.len() < objects.len()
                &&& grown_from(*n.left, l, next_axis_spec(axis), time0, time1)
                &&& grown_from(*n.right, r, next_axis_spec(axis), time0, time1)
            }
    }
}

/// The two halves of a split hold the things that were split, and no
/// others.
pub proof fn lemma_halves_members(
    objects: Seq<Hittable>,
    left: Seq<Hittable>,
    right: Seq<Hittable>,
    axis: u8,
    time0: Fixed,
    time1: Fixed,
)
    requires
        halves(objects, left, right, axis, time0, time1),
    ensures
        forall|i: int| 0 <= i < left.len() ==> objects.contains(#[trigger] left[i]),
        forall|i: int| 0 <= i < right.len() ==> objects.contains(#[trigger] right[i]),
        forall|i: int|
            0 <= i < objects.len() ==> left.contains(#[trigger] objects[i]) || right.contains(
                objects[i],
            ),
{
    broadcast use group_to_multiset_ensures;

    let both = left + right;
    assert forall|i: int| 0 <= i < left.len() implies objects.contains(#[trigger] left[i]) by {
        assert(both[i] == left[i]);
        assert(both.contains(left[i]));
        assert(both.to_multiset().count(left[i]) > 0);
    }
    assert forall|i: int| 0 <= i < right.len() implies objects.contains(#[trigger] right[i]) by {
        assert(both[left.len() + i] == right[i]);
        assert(both.contains(right[i]));
        assert(both.to_multiset().count(right[i]) > 0);
    }
    assert forall|i: int| 0 <= i < objects.len() implies left.contains(#[trigger] objects[i])
        || right.contains(objects[i]) by {
        let x = objects[i];
        assert(objects.contains(x));
        assert(objects.to_multiset().count(x) > 0);
        assert(both.contains(x));
        let k = choose|k: int| 0 <= k < both.len() && both[k] == x;
        if k < left.len() {
            assert(left[k] == x);
        } else {
            assert(right[k - left.len()] == x);
        }
    }
}

/// A hierarchy over spheres finds no intersection of its own: what it
/// finds is the intersection of the ray with one of the spheres it was
/// built over, within the same range.
pub proof fn lemma_grown_hit_is_member(
    tree: Hittable,
    objects: Seq<Hittable>,
    axis: u8,
    time0: Fixed,
    time1: Fixed,
    ray: Ray,
    t_min: Fixed,
    t_max: Fixed,
)
    requires
        grown_from(tree, objects, axis, time0, time1),
        HittableList::all_balls(objects),
    ensures
        tree.hit_spec(ray, t_min, t_max) matches Some(rec) ==> exists|i: int|
            0 <= i < objects.len() && (#[trigger] objects[i]).hit_spec(ray, t_min, t_max) == Some(
                rec,
            ),
    decreases objects.len(),
{
    if objects.len() >= 2 {
        let n = tree->Node_0;
        let (l, r) = choose|l: Seq<Hittable>, r: Seq<Hittable>|
            #![trigger halves(objects, l, r, axis, time0, time1)]
            {
                &&& halves(objects, l, r, axis, time0, time1)
                &&& l.len() < objects.len()
                &&& r.len() < objects.len()
                &&& grown_from(*n.left, l, next_axis_spec(axis), time0, time1)
                &&& grown_from(*n.right, r, next_axis_spec(axis), time0, time1)
            };
        lemma_halves_members(objects, l, r, axis, time0, time1);
        assert(HittableList::all_balls(l)) by {
            assert forall|i: int| 0 <= i < l.len() implies (#[trigger] l[i]).is_ball() by {
                let k = choose|k: int| 0 <= k < objects.len() && objects[k] == l[i];
                assert(objects[k].is_ball());
            }
        }
        assert(HittableList::all_balls(r)) by {
            assert forall|i: int| 0 <= i < r.len() implies (#[trigger] r[i]).is_ball() by {
                let k = choose|k: int| 0 <= k < objects.len() && objects[k] == r[i];
                assert(objects[k].is_ball());
            }
        }
        if tree.hit_spec(ray, t_min, t_max) is Some {
            let rec = tree.hit_spec(ray, t_min, t_max)->0;
            let in_left = n.left.hit_spec(ray, t_min, t_max);
            let end = closest_so_far(in_left, t_max);
            n.left.lemma_hit_on_ray(ray, t_min, t_max);
            if n.right.hit_spec(ray, t_min, end) is Some {
                lemma_grown_hit_is_member(
                    *n.right,
                    r,
                    next_axis_spec(axis),
                    time0,
                    time1,
                    ray,
                    t_min,
                    end,
                );
                let j = choose|j: int|
                    0 <= j < r.len() && (#[trigger] r[j]).hit_spec(ray, t_min, end) == Some(rec);
                r[j].lemma_ball_hit_narrows(ray, t_min, t_max, end);
                let k = choose|k: int| 0 <= k < objects.len() && objects[k] == r[j];
                assert(objects[k].hit_spec(ray, t_min, t_max) == Some(rec));
            } else {
                lemma_grown_hit_is_member(
                    *n.left,
                    l,
                    next_axis_spec(axis),
                    time0,
                    time1,
                    ray,
                    t_min,
                    t_max,
                );
                let j = choose|j: int|
                    0 <= j < l.len() && (#[trigger] l[j]).hit_spec(ray, t_min, t_max) == Some(rec);
                let k = choose|k: int| 0 <= k < objects.len() && objects[k] == l[j];
                assert(objects[k].hit_spec(ray, t_min, t_max) == Some(rec));
            }
        }
    } else {
        assert(tree == objects[0]);
    }
}

/// The boxes are faithful to the things along the ray: whenever the ray
/// hits one of the things within the range, or within a range with a
/// nearer end, it runs through the thing's box within that range. Rounding
/// in the two tests can break this for a ray that grazes a thing.
pub open spec fn boxes_admit(
    objects: Seq<Hittable>,
    time0: Fixed,
    time1: Fixed,
    ray: Ray,
    t_min: Fixed,
    t_max: Fixed,
) -> bool {
    forall|i: int, end: Fixed|
        0 <= i < objects.len() && end.raw <= t_max.raw && (#[trigger] objects[i].hit_spec(
            ray,
            t_min,
            end,
        )) is Some ==> (objects[i].bounding_box_spec(time0, time1) matches Some(b) && b.hit_spec(
            ray,
            t_min,
            end,
        ))
}

/// Faithful boxes stay faithful for some of the things and for a range
/// with a nearer end.
pub proof fn lemma_boxes_admit_part(
    objects: Seq<Hittable>,
    part: Seq<Hittable>,
    time0: Fixed,
    time1: Fixed,
    ray: Ray,
    t_min: Fixed,
    t_max: Fixed,
    end: Fixed,
)
    requires
        boxes_admit(objects, time0, time1, ray, t_min, t_max),
        end.raw <= t_max.raw,
        forall|i: int| 0 <= i < part.len() ==> objects.contains(#[trigger] part[i]),
    ensures
        boxes_admit(part, time0, time1, ray, t_min, end),
{
    assert forall|i: int, e: Fixed|
        0 <= i < part.len() && e.raw <= end.raw && (#[trigger] part[i].hit_spec(ray, t_min, e))
            is Some implies (part[i].bounding_box_spec(time0, time1) matches Some(b) && b.hit_spec(
        ray,
        t_min,
        e,
    )) by {
        let k = choose|k: int| 0 <= k < objects.len() && objects[k] == part[i];
        assert(objects[k].hit_spec(ray, t_min, e) is Some);
    }
}

/// A ray that misses the box of a hierarchy hits none of the things the
/// hierarchy was built over, where their boxes are faithful along the ray.
pub proof fn lemma_grown_miss_hits_nothing(
    tree: Hittable,
    objects: Seq<Hittable>,
    axis: u8,
    time0: Fixed,
    time1: Fixed,
    ray: Ray,
    t_min: Fixed,
    t_max: Fixed,
)
    requires
        grown_from(tree, objects, axis, time0, time1),
        boxes_admit(objects, time0, time1, ray, t_min, t_max),
        tree.bounding_box_spec(time0, time1) matches Some(around) && !around.hit_spec(
            ray,
            t_min,
            t_max,
        ),
    ensures
        forall|i: int|
            0 <= i < objects.len() ==> (#[trigger] objects[i]).hit_spec(ray, t_min, t_max) is None,
{
    assert forall|i: int| 0 <= i < objects.len() implies (#[trigger] objects[i]).hit_spec(
        ray,
        t_min,
        t_max,
    ) is None by {
        if objects[i].hit_spec(ray, t_min, t_max) is Some {
            lemma_grown_miss_culls(tree, objects, axis, time0, time1, i, ray, t_min, t_max);
        }
    }
}

/// Culling loses nothing: a hierarchy over spheres whose boxes are
/// faithful along the ray finds the nearest intersection of the ray with
/// the spheres it was built over, as a list of them does.
pub proof fn lemma_grown_hit_is_nearest(
    tree: Hittable,
    objects: Seq<Hittable>,
    axis: u8,
    time0: Fixed,
    time1: Fixed,
    ray: Ray,
    t_min: Fixed,
    t_max: Fixed,
)
    requires
        grown_from(tree, objects, axis, time0, time1),
        HittableList::all_balls(objects),
        boxes_admit(objects, time0, time1, ray, t_min, t_max),
    ensures
        HittableList::nearest_among(
            tree.hit_spec(ray, t_min, t_max),
            objects,
            objects.len() as int,
            ray,
            t_min,
            t_max,
        ),
    decreases objects.len(),
{
    if objects.len() >= 2 {
        let n = tree->Node_0;
        let (l, r) = choose|l: Seq<Hittable>, r: Seq<Hittable>|
            #![trigger halves(objects, l, r, axis, time0, time1)]
            {
                &&& halves(objects, l, r, axis, time0, time1)
                &&& l.len() < objects.len()
                &&& r.len() < objects.len()
                &&& grown_from(*n.left, l, next_axis_spec(axis), time0, time1)
                &&& grown_from(*n.right, r, next_axis_spec(axis), time0, time1)
            };
        lemma_halves_members(objects, l, r, axis, time0, time1);
        if !n.bbox.hit_spec(ray, t_min, t_max) {
            lemma_grown_miss_hits_nothing(tree, objects, axis, time0, time1, ray, t_min, t_max);
        } else {
            assert forall|i: int| 0 <= i < l.len() implies (#[trigger] l[i]).is_ball() by {
                let k = choose|k: int| 0 <= k < objects.len() && objects[k] == l[i];
                assert(objects[k].is_ball());
            }
            assert forall|i: int| 0 <= i < r.len() implies (#[trigger] r[i]).is_ball() by {
                let k = choose|k: int| 0 <= k < objects.len() && objects[k] == r[i];
                assert(objects[k].is_ball());
            }
            let in_left = n.left.hit_spec(ray, t_min, t_max);
            let end = closest_so_far(in_left, t_max);
            n.left.lemma_hit_on_ray(ray, t_min, t_max);
            lemma_boxes_admit_part(objects, l, time0, time1, ray, t_min, t_max, t_max);
            lemma_boxes_admit_part(objects, r, time0, time1, ray, t_min, t_max, end);
            lemma_grown_hit_is_nearest(
                *n.left,
                l,
                next_axis_spec(axis),
                time0,
                time1,
                ray,
                t_min,
                t_max,
            );
            lemma_grown_hit_is_nearest(
                *n.right,
                r,
                next_axis_spec(axis),
                time0,
                time1,
                ray,
                t_min,
                end,
            );
            HittableList::lemma_nearest_merge(
                objects,
                l,
                r,
                ray,
                t_min,
                t_max,
                in_left,
                n.right.hit_spec(ray, t_min, end),
            );
        }
    } else {
        assert(tree == objects[0]);
        objects[0].lemma_hit_on_ray(ray, t_min, t_max);
    }
}

/// The box of a hierarchy encloses the box of every thing it was built
/// over.
pub proof fn lemma_grown_box_encloses(
    tree: Hittable,
    objects: Seq<Hittable>,
    axis: u8,
    time0: Fixed,
    time1: Fixed,
    i: int,
)
    requires
        grown_from(tree, objects, axis, time0, time1),
        tree.bounding_box_spec(time0, time1) is Some,
        0 <= i < objects.len(),
        objects[i].bounding_box_spec(time0, time1) is Some,
    ensures
        tree.bounding_box_spec(time0, time1)->0.encloses(
            objects[i].bounding_box_spec(time0, time1)->0,
        ),
    decreases objects.len(),
{
    broadcast use group_to_multiset_ensures;

    if objects.len() >= 2 {
        let n = tree->Node_0;
        let (l, r) = choose|l: Seq<Hittable>, r: Seq<Hittable>|
            #![trigger halves(objects, l, r, axis, time0, time1)]
            {
                &&& halves(objects, l, r, axis, time0, time1)
                &&& l.len() < objects.len()
                &&& r.len() < objects.len()
                &&& grown_from(*n.left, l, next_axis_spec(axis), time0, time1)
                &&& grown_from(*n.right, r, next_axis_spec(axis), time0, time1)
            };
        let x = objects[i];
        assert(objects.contains(x));
        assert(objects.to_multiset().count(x) > 0);
        assert((l + r).contains(x));
        let k = choose|k: int| 0 <= k < (l + r).len() && (l + r)[k] == x;
        if k < l.len() {
            assert(l[k] == x);
            lemma_grown_box_encloses(*n.left, l, next_axis_spec(axis), time0, time1, k);
        } else {
            assert(r[k - l.len()] == x);
            lemma_grown_box_encloses(*n.right, r, next_axis_spec(axis), time0, time1, k - l.len());
        }
    }
}

/// A ray that misses the box of a hierarchy misses the box of every thing
/// the hierarchy was built over: the search skips nothing whose box the ray
/// runs through.
pub proof fn lemma_grown_miss_culls(
    tree: Hittable,
    objects: Seq<Hittable>,
    axis: u8,
    time0: Fixed,
    time1: Fixed,
    i: int,
    ray: Ray,
    t_min: Fixed,
    t_max: Fixed,
)
    requires
        grown_from(tree, objects, axis, time0, time1),
        tree.bounding_box_spec(time0, time1) is Some,
        0 <= i < objects.len(),
        objects[i].bounding_box_spec(time0, time1) is Some,
        !tree.bounding_box_spec(time0, time1)->0.hit_spec(ray, t_min, t_max),
    ensures
        !objects[i].bounding_box_spec(time0, time1)->0.hit_spec(ray, t_min, t_max),
{
    lemma_grown_box_encloses(tree, objects, axis, time0, time1, i);
    if objects[i].bounding_box_spec(time0, time1)->0.hit_spec(ray, t_min, t_max) {
        lemma_enclosing_box_is_hit(
            tree.bounding_box_spec(time0, time1)->0,
            objects[i].bounding_box_spec(time0, time1)->0,
            ray,
            t_min,
            t_max,
        );
    }
}

/// Every one of the things has a box.
pub open spec fn all_boxed(objects: Seq<Hittable>, time0: Fixed, time1: Fixed) -> bool {
    forall|i: int|
        0 <= i < objects.len() ==> (#[trigger] objects[i]).bounding_box_spec(time0, time1) is Some
}

fn axis_key(h: &Hittable, axis: u8, time0: Fixed, time1: Fixed) -> (k: i64)
    ensures
        k == axis_key_spec(*h, axis, time0, time1),
{
    match h.bounding_box(time0, time1) {
        Some(b) => if axis == 0 {
            b.min.x.raw
        } else if axis == 1 {
            b.min.y.raw
        } else {
            b.min.z.raw
        },
        None => 0,
    }
}

fn index_of_least(objects: &Vec<Hittable>, axis: u8, time0: Fixed, time1: Fixed) -> (best: usize)
    requires
        objects@.len() > 0,
    ensures
        best < objects@.len(),
        forall|j: int|
            0 <= j < objects@.len() ==> axis_key_spec(objects@[best as int], axis, time0, time1)
                <= axis_key_spec(#[trigger] objects@[j], axis, time0, time1),
{
    let mut best: usize = 0;
    let mut least: i64 = axis_key(&objects[0], axis, time0, time1);
    let mut j: usize = 1;
    while j < objects.len()
        invariant
            1 <= j <= objects@.len(),
            best < j,
            least == axis_key_spec(objects@[best as int], axis, time0, time1),
            forall|k: int|
                0 <= k < j ==> least <= axis_key_spec(#[trigger] objects@[k], axis, time0, time1),
        decreases objects@.len() - j,
    {
        let key: i64 = axis_key(&objects[j], axis, time0, time1);
        if key < least {
            best = j;
            least = key;
        }
        j = j + 1;
    }
    best
}

/// Puts the things in ascending order of their keys along the axis.
fn sort_along(objects: Vec<Hittable>, axis: u8, time0: Fixed, time1: Fixed) -> (out: Vec<Hittable>)
    ensures
        out@.to_multiset() == objects@.to_multiset(),
        out@.len() == objects@.len(),
        forall|i: int| 0 <= i < out@.len() ==> objects@.contains(#[trigger] out@[i]),
        forall|i: int, j: int|
            0 <= i <= j < out@.len() ==> axis_key_spec(#[trigger] out@[i], axis, time0, time1)
                <= axis_key_spec(#[trigger] out@[j], axis, time0, time1),
{
    broadcast use group_to_multiset_ensures;

    let ghost given = objects@;
    let mut rest = objects;
    let mut out: Vec<Hittable> = Vec::new();
    proof {
        lemma_multiset_commutative(out@, rest@);
        assert(out@ + rest@ =~= given);
    }
    while rest.len() > 0
        invariant
            (out@ + rest@).to_multiset() == given.to_multiset(),
            out@.len() + rest@.len() == given.len(),
            forall|i: int| 0 <= i < out@.len() ==> given.contains(#[trigger] out@[i]),
            forall|i: int| 0 <= i < rest@.len() ==> given.contains(#[trigger] rest@[i]),
            forall|i: int, j: int|
                0 <= i <= j < out@.len() ==> axis_key_spec(#[trigger] out@[i], axis, time0, time1)
                    <= axis_key_spec(#[trigger] out@[j], axis, time0, time1),
            forall|i: int, j: int|
                0 <= i < out@.len() && 0 <= j < rest@.len() ==> axis_key_spec(
                    #[trigger] out@[i],
                    axis,
                    time0,
                    time1,
                ) <= axis_key_spec(#[trigger] rest@[j], axis, time0, time1),
        decreases rest@.len(),
    {
        let ghost out_before = out@;
        let ghost rest_before = rest@;
        let best = index_of_least(&rest, axis, time0, time1);
        let h = rest.remove(best);
        out.push(h);
        proof {
            lemma_multiset_commutative(out_before, rest_before);
            lemma_multiset_commutative(out@, rest@);
            assert(rest_before[best as int] == h);
            assert(rest_before.contains(h));
            rest_before.to_multiset_ensures();
            out_before.to_multiset_ensures();
            assert(out@ == out_before.push(h));
            assert(rest@ == rest_before.remove(best as int));
            assert(rest_before.to_multiset().count(h) > 0);
            assert(out@.to_multiset() =~= out_before.to_multiset().insert(h));
            assert(rest@.to_multiset() =~= rest_before.to_multiset().remove(h));
            assert(out@.to_multiset().add(rest@.to_multiset()) =~= out_before.to_multiset().add(
                rest_before.to_multiset(),
            ));
            assert forall|i: int| 0 <= i < rest@.len() implies given.contains(
                #[trigger] rest@[i],
            ) by {
                if i < best {
                    assert(rest@[i] == rest_before[i]);
                } else {
                    assert(rest@[i] == rest_before[i + 1]);
                }
            }
            assert forall|i: int, j: int|
                0 <= i < out@.len() && 0 <= j < rest@.len() implies axis_key_spec(
                #[trigger] out@[i],
                axis,
                time0,
                time1,
            ) <= axis_key_spec(#[trigger] rest@[j], axis, time0, time1) by {
                if j < best {
                    assert(rest@[j] == rest_before[j]);
                } else {
                    assert(rest@[j] == rest_before[j + 1]);
                }
            }
        }
    }
    proof {
        assert(out@ + rest@ =~= out@);
    }
    out
}

fn next_axis(axis: u8) -> (next: u8)
    ensures
        next == next_axis_spec(axis),
{
    if axis >= 2 {
        0
    } else {
        axis + 1
    }
}

/// Builds the hierarchy over things that all have a box.
fn build_along(objects: Vec<Hittable>, axis: u8, time0: Fixed, time1: Fixed) -> (tree: Hittable)
    requires
        objects@.len() >= 1,
        all_boxed(objects@, time0, time1),
    ensures
        grown_from(tree, objects@, axis, time0, time1),
        tree.bounding_box_spec(time0, time1) is Some,
    decreases objects@.len(),
{
    let mut objects = objects;
    let ghost given = objects@;
    if objects.len() == 1 {
        return objects.pop().unwrap();
    }
    let mut sorted = sort_along(objects, axis, time0, time1);
    let middle: usize = sorted.len() / 2;
    let ghost whole = sorted@;
    let upper = sorted.split_off(middle);
    proof {
        assert(sorted@ + upper@ =~= whole);
        assert forall|i: int| 0 <= i < sorted@.len() implies (#[trigger] sorted@[i]).bounding_box_spec(
            time0,
            time1,
        ) is Some by {
            assert(sorted@[i] == whole[i]);
            assert(given.contains(whole[i]));
        }
        assert forall|i: int| 0 <= i < upper@.len() implies (#[trigger] upper@[i]).bounding_box_spec(
            time0,
            time1,
        ) is Some by {
            assert(upper@[i] == whole[middle + i]);
            assert(given.contains(whole[middle + i]));
        }
        assert forall|i: int, j: int| 0 <= i < sorted@.len() && 0 <= j < upper@.len() implies axis_key_spec(
            #[trigger] sorted@[i],
            axis,
            time0,
            time1,
        ) <= axis_key_spec(#[trigger] upper@[j], axis, time0, time1) by {
            assert(sorted@[i] == whole[i]);
            assert(upper@[j] == whole[middle + j]);
        }
        assert(halves(given, sorted@, upper@, axis, time0, time1));
    }
    let ghost lower_objects = sorted@;
    let ghost upper_objects = upper@;
    let following = next_axis(axis);
    let left = build_along(sorted, following, time0, time1);
    let right = build_along(upper, following, time0, time1);
    let left_box = left.bounding_box(time0, time1).unwrap();
    let right_box = right.bounding_box(time0, time1).unwrap();
    let bbox = AABB::surrounding_box(left_box, right_box);
    let tree = Hittable::Node(BVHNode { left: Box::new(left), right: Box::new(right), bbox });
    proof {
        assert(halves(given, lower_objects, upper_objects, axis, time0, time1));
        assert(grown_from(tree, given, axis, time0, time1));
    }
    tree
}

impl BVHNode {
    /// Builds the hierarchy over the things: they are ordered by the least
    /// coordinate of their boxes along an axis and split at the median,
    /// each half is built in the same way along the next axis, and a
    /// single thing stands for itself. Nothing is built from no things,
    /// or where one of the things has no box.
    pub fn build(objects: Vec<Hittable>, time0: Fixed, time1: Fixed) -> (out: Option<Hittable>)
        ensures
            out is Some <==> objects@.len() > 0 && all_boxed(objects@, time0, time1),
            out matches Some(tree) ==> grown_from(tree, objects@, 0, time0, time1)
                && tree.bounding_box_spec(time0, time1) is Some,
    {
        if objects.len() == 0 {
            return None;
        }
        let mut i: usize = 0;
        while i < objects.len()
            invariant
                i <= objects@.len(),
                forall|k: int|
                    0 <= k < i ==> (#[trigger] objects@[k]).bounding_box_spec(time0, time1) is Some,
            decreases objects@.len() - i,
        {
            if objects[i].bounding_box(time0, time1).is_none() {
                return None;
            }
            i = i + 1;
        }
        Some(build_along(objects, 0, time0, time1))
    }
}

} // verus!
