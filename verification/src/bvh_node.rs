//! A bounding-volume-hierarchy node: two children and a cached box.

use crate::aabb::{aabb_bounded, aabb_hit_spec, Aabb};
use crate::fx::{iabs, GEOM_MAX, T_LIM, WORLD_MAX};
use crate::hittable::{
    bvh_linked, good_hit, hittable_time_ok, hittable_wf, spec_box, spec_hit_t, spec_node_bounds,
    HitResult, Hittable,
};
use crate::hittable_list::{lemma_list_time_ok_at, lemma_list_wf_at, HittableList};
use crate::laws::{flat, flat_seq, lemma_flat_rotate, lemma_flat_seq_append, lemma_flat_seq_one};
use crate::ray::Ray;
use crate::rng::rand_index;
use crate::vec3::{spec_dot, vec_bounded, UNIT_MAX};
use vstd::prelude::*;

verus! {

pub struct BvhNode {
    pub left: Hittable,
    pub right: Hittable,
    pub bounds: Aabb,
}

/// What one node's traversal returns: a miss when the ray misses the
/// cached box; otherwise the left result, possibly improved by a right
/// search narrowed to the left hit's parameter.
pub open spec fn spec_node_hit_t(n: BvhNode, ray: Ray, t0: int, t1: int) -> Option<int> {
    if !aabb_hit_spec(n.bounds, ray, t0, t1) {
        None
    } else {
        match spec_hit_t(n.left, ray, t0, t1) {
            Some(lt) => match spec_hit_t(n.right, ray, t0, lt) {
                Some(rt) => Some(rt),
                None => Some(lt),
            },
            None => spec_hit_t(n.right, ray, t0, t1),
        }
    }
}

/// One node's traversal step.
pub fn node_hit<'a>(node: &'a BvhNode, ray: &Ray, t_min: i64, t_max: i64) -> (r: Option<
    HitResult<'a>,
>)
    requires
        hittable_wf(node.left),
        hittable_wf(node.right),
        aabb_bounded(node.bounds, WORLD_MAX as int),
        vec_bounded(ray.origin, WORLD_MAX as int),
        vec_bounded(ray.direction, WORLD_MAX as int),
        spec_dot(ray.direction, ray.direction) >= 1,
        iabs(ray.time as int) <= GEOM_MAX as int,
        hittable_time_ok(node.left, ray.time as int),
        hittable_time_ok(node.right, ray.time as int),
        iabs(t_min as int) <= T_LIM as int,
        iabs(t_max as int) <= T_LIM as int,
    ensures
        r.is_some() == spec_node_hit_t(*node, *ray, t_min as int, t_max as int).is_some(),
        r matches Some(hr) ==> {
            &&& Some(hr.t as int) == spec_node_hit_t(*node, *ray, t_min as int, t_max as int)
            &&& t_min <= hr.t <= t_max
            &&& good_hit(node.left, *ray, hr) || good_hit(node.right, *ray, hr)
            &&& spec_dot(ray.direction, hr.normal) <= 0
            &&& vec_bounded(hr.normal, UNIT_MAX as int)
        },
    decreases *node, 1int,
{
    if !node.bounds.hit(ray, t_min, t_max) {
        return None;
    }
    match node.left.hit(ray, t_min, t_max) {
        Some(left_hit) => {
            match node.right.hit(ray, t_min, left_hit.t()) {
                Some(right_hit) => Some(right_hit),
                None => Some(left_hit),
            }
        },
        None => node.right.hit(ray, t_min, t_max),
    }
}

/// Every member of the sequence is well formed.
pub open spec fn items_wf(s: Seq<Hittable>) -> bool {
    forall|i: int| 0 <= i < s.len() ==> hittable_wf(#[trigger] s[i])
}

pub open spec fn items_time_ok(s: Seq<Hittable>, time: int) -> bool {
    forall|i: int| 0 <= i < s.len() ==> hittable_time_ok(#[trigger] s[i], time)
}

/// Every member reports a bounding box over the range: the hard
/// precondition of BVH construction (unbounded geometry is refused).
pub open spec fn items_boxed(s: Seq<Hittable>, t0: int, t1: int) -> bool {
    forall|i: int| 0 <= i < s.len() ==> spec_box(#[trigger] s[i], t0, t1) is Some
}

pub open spec fn items_linked(s: Seq<Hittable>, t0: int, t1: int) -> bool {
    forall|i: int| 0 <= i < s.len() ==> bvh_linked(#[trigger] s[i], t0, t1)
}

/// The sort key: the box's minimum corner on the chosen axis (members
/// without a box never reach the sort; the key is total anyway).
pub open spec fn spec_box_key(h: Hittable, axis: int, t0: int, t1: int) -> int {
    match spec_box(h, t0, t1) {
        Some(b) => if axis == 0 {
            b.min.x as int
        } else if axis == 1 {
            b.min.y as int
        } else {
            b.min.z as int
        },
        None => 0,
    }
}

fn box_key(item: &Hittable, axis: usize, time_start: i64, time_end: i64) -> (r: i64)
    requires
        hittable_wf(*item),
        hittable_time_ok(*item, time_start as int),
        hittable_time_ok(*item, time_end as int),
        iabs(time_start as int) <= GEOM_MAX as int,
        iabs(time_end as int) <= GEOM_MAX as int,
        axis < 3,
    ensures
        r as int == spec_box_key(*item, axis as int, time_start as int, time_end as int),
{
    match item.bounding_box(time_start, time_end) {
        Some(b) => if axis == 0 {
            b.min.x
        } else if axis == 1 {
            b.min.y
        } else {
            b.min.z
        },
        None => 0,
    }
}

/// Taking the element at `m` out and putting it back in at `i <= m`
/// rotates the slice between them and keeps the multiset.
proof fn lemma_rotate(s: Seq<Hittable>, i: int, m: int)
    requires
        0 <= i <= m < s.len(),
    ensures
        ({
            let s2 = s.remove(m).insert(i, s[m]);
            &&& s2.len() == s.len()
            &&& s2[i] == s[m]
            &&& (forall|k: int| 0 <= k < i ==> s2[k] == s[k])
            &&& (forall|k: int| i < k <= m ==> s2[k] == s[k - 1])
            &&& (forall|k: int| m < k < s.len() ==> s2[k] == s[k])
            &&& s2.to_multiset() == s.to_multiset()
        }),
{
    broadcast use vstd::seq_lib::group_to_multiset_ensures;
    broadcast use vstd::multiset::group_multiset_axioms;

    let s1 = s.remove(m);
    let s2 = s1.insert(i, s[m]);
    s.remove_ensures(m);
    s1.insert_ensures(i, s[m]);
    assert forall|k: int| i < k <= m implies s2[k] == s[k - 1] by {
        assert(s2[k] == s1[k - 1]);
    }
    assert forall|k: int| m < k < s.len() implies s2[k] == s[k] by {
        assert(s2[k] == s1[k - 1]);
    }
    // multiset: removing then reinserting the same element is the identity
    assert(s1.to_multiset() =~= s.to_multiset().remove(s[m]));
    assert(s2.to_multiset() =~= s1.to_multiset().insert(s[m]));
    assert(s.contains(s[m]));
    assert(s.to_multiset().count(s[m]) > 0);
    assert(s2.to_multiset() =~= s.to_multiset());
}

/// Selection sort by box key: a permutation of the input, ordered by the
/// key, preserving every member's well-formedness.
#[verifier::rlimit(60)]
fn sort_by_key(items: &mut Vec<Hittable>, axis: usize, time_start: i64, time_end: i64)
    requires
        axis < 3,
        iabs(time_start as int) <= GEOM_MAX as int,
        iabs(time_end as int) <= GEOM_MAX as int,
        items_wf(old(items)@),
        items_time_ok(old(items)@, time_start as int),
        items_time_ok(old(items)@, time_end as int),
        items_boxed(old(items)@, time_start as int, time_end as int),
        items_linked(old(items)@, time_start as int, time_end as int),
    ensures
        final(items)@.len() == old(items)@.len(),
        final(items)@.to_multiset() == old(items)@.to_multiset(),
        flat_seq(final(items)@).to_multiset() == flat_seq(old(items)@).to_multiset(),
        items_wf(final(items)@),
        items_time_ok(final(items)@, time_start as int),
        items_time_ok(final(items)@, time_end as int),
        items_boxed(final(items)@, time_start as int, time_end as int),
        items_linked(final(items)@, time_start as int, time_end as int),
        forall|a: int, b: int|
            0 <= a <= b < final(items)@.len() ==> spec_box_key(
                final(items)@[a],
                axis as int,
                time_start as int,
                time_end as int,
            ) <= spec_box_key(final(items)@[b], axis as int, time_start as int, time_end as int),
{
    let ghost t0 = time_start as int;
    let ghost t1 = time_end as int;
    let ghost ax = axis as int;
    let n: usize = items.len();
    let mut i: usize = 0;
    while i < n
        invariant
            i <= n,
            items@.len() == n,
            axis < 3,
            t0 == time_start as int,
            t1 == time_end as int,
            ax == axis as int,
            iabs(time_start as int) <= GEOM_MAX as int,
            iabs(time_end as int) <= GEOM_MAX as int,
            items@.to_multiset() == old(items)@.to_multiset(),
            flat_seq(items@).to_multiset() == flat_seq(old(items)@).to_multiset(),
            items_wf(items@),
            items_time_ok(items@, t0),
            items_time_ok(items@, t1),
            items_boxed(items@, t0, t1),
            items_linked(items@, t0, t1),
            forall|a: int, b: int|
                0 <= a <= b < i ==> spec_box_key(items@[a], ax, t0, t1) <= spec_box_key(
                    items@[b],
                    ax,
                    t0,
                    t1,
                ),
            forall|a: int, b: int|
                0 <= a < i <= b < n ==> spec_box_key(items@[a], ax, t0, t1) <= spec_box_key(
                    items@[b],
                    ax,
                    t0,
                    t1,
                ),
        decreases n - i,
    {
        let mut min_idx: usize = i;
        let mut min_key: i64 = box_key(&items[i], axis, time_start, time_end);
        let mut j: usize = i + 1;
        while j < n
            invariant
                i <= min_idx < j <= n,
                i < n,
                items@.len() == n,
                axis < 3,
                t0 == time_start as int,
                t1 == time_end as int,
                ax == axis as int,
                iabs(time_start as int) <= GEOM_MAX as int,
                iabs(time_end as int) <= GEOM_MAX as int,
                items_wf(items@),
                items_time_ok(items@, t0),
                items_time_ok(items@, t1),
                items_boxed(items@, t0, t1),
                min_key as int == spec_box_key(items@[min_idx as int], ax, t0, t1),
                forall|k: int|
                    i <= k < j ==> min_key as int <= spec_box_key(items@[k], ax, t0, t1),
            decreases n - j,
        {
            let kj: i64 = box_key(&items[j], axis, time_start, time_end);
            if kj < min_key {
                min_idx = j;
                min_key = kj;
            }
            j = j + 1;
        }
        let ghost before = items@;
        let x: Hittable = items.remove(min_idx);
        items.insert(i, x);
        proof {
            lemma_rotate(before, i as int, min_idx as int);
            lemma_flat_rotate(before, i as int, min_idx as int);
            assert(items@ == before.remove(min_idx as int).insert(i as int, before[min_idx as int]));
            assert forall|k: int| 0 <= k < n implies hittable_wf(#[trigger] items@[k])
                && hittable_time_ok(items@[k], t0) && hittable_time_ok(items@[k], t1) && spec_box(
                items@[k],
                t0,
                t1,
            ) is Some && bvh_linked(items@[k], t0, t1) by {
                if k < i || k > min_idx as int {
                    assert(items@[k] == before[k]);
                } else if k == i {
                    assert(items@[k] == before[min_idx as int]);
                } else {
                    assert(items@[k] == before[k - 1]);
                }
            }
            assert forall|a: int, b: int| 0 <= a <= b < i + 1 implies spec_box_key(
                items@[a],
                ax,
                t0,
                t1,
            ) <= spec_box_key(items@[b], ax, t0, t1) by {
                if a < i {
                    assert(items@[a] == before[a]);
                }
                if b < i {
                    assert(items@[b] == before[b]);
                }
                if b == i {
                    assert(items@[b] == before[min_idx as int]);
                }
            }
            assert forall|a: int, b: int| 0 <= a < i + 1 <= b < n implies spec_box_key(
                items@[a],
                ax,
                t0,
                t1,
            ) <= spec_box_key(items@[b], ax, t0, t1) by {
                let ghost ob = if b <= min_idx as int {
                    b - 1
                } else {
                    b
                };
                assert(items@[b] == before[ob]);
                assert(i <= ob < n);
                if a < i {
                    assert(items@[a] == before[a]);
                } else {
                    assert(items@[a] == before[min_idx as int]);
                }
            }
        }
        i = i + 1;
    }
}

impl BvhNode {
    /// Builds the hierarchy by recursive partition: the whole collection
    /// is sorted by box position on a uniformly drawn axis and split at
    /// the midpoint; one or two members make a leaf node directly.
    pub fn new(
        rng: &mut rand::rngs::ThreadRng,
        list: HittableList,
        time_start: i64,
        time_end: i64,
    ) -> (r: BvhNode)
        requires
            1 <= list.list@.len(),
            crate::hittable::list_wf_prefix(list, list.list@.len() as int),
            crate::hittable::list_time_ok_prefix(list, list.list@.len() as int, time_start as int),
            crate::hittable::list_time_ok_prefix(list, list.list@.len() as int, time_end as int),
            items_boxed(list.list@, time_start as int, time_end as int),
            items_linked(list.list@, time_start as int, time_end as int),
            iabs(time_start as int) <= GEOM_MAX as int,
            iabs(time_end as int) <= GEOM_MAX as int,
        ensures
            hittable_wf(r.left) && hittable_wf(r.right),
            hittable_time_ok(r.left, time_start as int) && hittable_time_ok(r.left, time_end as int),
            hittable_time_ok(r.right, time_start as int) && hittable_time_ok(
                r.right,
                time_end as int,
            ),
            bvh_linked(r.left, time_start as int, time_end as int),
            bvh_linked(r.right, time_start as int, time_end as int),
            spec_box(r.left, time_start as int, time_end as int) is Some,
            r.bounds == spec_node_bounds(r.left, r.right, time_start as int, time_end as int),
            aabb_bounded(r.bounds, WORLD_MAX as int),
            (flat(r.left) + flat(r.right)).to_multiset() == flat_seq(list.list@).to_multiset(),
    {
        proof {
            let s = list.list@;
            assert forall|k: int| 0 <= k < s.len() implies hittable_wf(#[trigger] s[k])
                && hittable_time_ok(s[k], time_start as int) && hittable_time_ok(
                s[k],
                time_end as int,
            ) by {
                lemma_list_wf_at(list, s.len() as int, k);
                lemma_list_time_ok_at(list, s.len() as int, time_start as int, k);
                lemma_list_time_ok_at(list, s.len() as int, time_end as int, k);
            }
        }
        Self::from_list(rng, list.list, time_start, time_end)
    }

    fn from_list(
        rng: &mut rand::rngs::ThreadRng,
        items: Vec<Hittable>,
        time_start: i64,
        time_end: i64,
    ) -> (r: BvhNode)
        requires
            1 <= items@.len(),
            items_wf(items@),
            items_time_ok(items@, time_start as int),
            items_time_ok(items@, time_end as int),
            items_boxed(items@, time_start as int, time_end as int),
            items_linked(items@, time_start as int, time_end as int),
            iabs(time_start as int) <= GEOM_MAX as int,
            iabs(time_end as int) <= GEOM_MAX as int,
        ensures
            hittable_wf(r.left) && hittable_wf(r.right),
            hittable_time_ok(r.left, time_start as int) && hittable_time_ok(r.left, time_end as int),
            hittable_time_ok(r.right, time_start as int) && hittable_time_ok(
                r.right,
                time_end as int,
            ),
            bvh_linked(r.left, time_start as int, time_end as int),
            bvh_linked(r.right, time_start as int, time_end as int),
            spec_box(r.left, time_start as int, time_end as int) is Some,
            r.bounds == spec_node_bounds(r.left, r.right, time_start as int, time_end as int),
            aabb_bounded(r.bounds, WORLD_MAX as int),
            (flat(r.left) + flat(r.right)).to_multiset() == flat_seq(items@).to_multiset(),
        decreases items@.len(),
    {
        let ghost t0 = time_start as int;
        let ghost t1 = time_end as int;
        let ghost orig = items@;
        let axis: usize = rand_index(rng, 3);
        let mut items = items;
        if items.len() == 1 {
            let item: Hittable = items.remove(0);
            let lb: Option<Aabb> = item.bounding_box(time_start, time_end);
            match lb {
                Some(bounds) => {
                    let empty: Hittable = Hittable::List(HittableList::new());
                    let ghost ge = empty;
                    proof {
                        lemma_flat_seq_one(item);
                        assert(orig =~= seq![item]);
                        assert(flat(ge) =~= Seq::<Hittable>::empty());
                        assert(flat(item) + flat(ge) =~= flat(item));
                        crate::hittable::lemma_spec_box_bounded(item, t0, t1);
                        match ge {
                            Hittable::List(el) => {
                                assert(el.list@.len() == 0);
                                assert(crate::hittable::list_wf_prefix(el, 0));
                                assert(crate::hittable::list_time_ok_prefix(el, 0, t0));
                                assert(crate::hittable::list_time_ok_prefix(el, 0, t1));
                                assert(crate::hittable::list_linked_prefix(el, 0, t0, t1));
                                assert(crate::hittable::spec_list_box_prefix(el, 0, t0, t1) is None);
                            },
                            _ => {
                                assert(false);
                            },
                        }
                        assert(hittable_wf(empty));
                        assert(hittable_time_ok(empty, t0));
                        assert(hittable_time_ok(empty, t1));
                        assert(bvh_linked(empty, t0, t1));
                        assert(spec_box(empty, t0, t1) is None);
                    }
                    BvhNode { left: item, right: empty, bounds }
                },
                None => {
                    proof {
                        assert(false);
                    }
                    vstd::pervasive::unreached()
                },
            }
        } else if items.len() == 2 {
            let ghost s0 = items@;
            let second: Hittable = items.remove(1);
            let first: Hittable = items.remove(0);
            proof {
                s0.remove_ensures(1);
                assert(first == s0[0]);
                assert(second == s0[1]);
            }
            let ka: i64 = box_key(&first, axis, time_start, time_end);
            let kb: i64 = box_key(&second, axis, time_start, time_end);
            let (left, right) = if ka < kb {
                (first, second)
            } else {
                (second, first)
            };
            proof {
                broadcast use vstd::multiset::group_multiset_axioms;

                assert(s0 =~= seq![s0[0]] + seq![s0[1]]);
                lemma_flat_seq_append(seq![s0[0]], seq![s0[1]]);
                lemma_flat_seq_one(s0[0]);
                lemma_flat_seq_one(s0[1]);
                assert(flat_seq(orig) == flat_seq(seq![s0[0]]) + flat_seq(seq![s0[1]]));
                vstd::seq_lib::lemma_multiset_commutative(flat(first), flat(second));
                vstd::seq_lib::lemma_multiset_commutative(flat(second), flat(first));
                vstd::seq_lib::lemma_multiset_commutative(flat(left), flat(right));
                assert(flat(first).to_multiset().add(flat(second).to_multiset()) =~= flat(
                    second,
                ).to_multiset().add(flat(first).to_multiset()));
            }
            let lb: Option<Aabb> = left.bounding_box(time_start, time_end);
            let rb: Option<Aabb> = right.bounding_box(time_start, time_end);
            match (lb, rb) {
                (Some(lbb), Some(rbb)) => {
                    BvhNode { left, right, bounds: Aabb::surround(&lbb, &rbb) }
                },
                _ => {
                    proof {
                        assert(false);
                    }
                    vstd::pervasive::unreached()
                },
            }
        } else {
            sort_by_key(&mut items, axis, time_start, time_end);
            let ghost sorted = items@;
            let mid: usize = items.len() / 2;
            let right_items: Vec<Hittable> = items.split_off(mid);
            proof {
                assert forall|k: int| 0 <= k < items@.len() implies hittable_wf(
                    #[trigger] items@[k],
                ) && hittable_time_ok(items@[k], t0) && hittable_time_ok(items@[k], t1)
                    && spec_box(items@[k], t0, t1) is Some && bvh_linked(items@[k], t0, t1) by {
                }
                assert forall|k: int| 0 <= k < right_items@.len() implies hittable_wf(
                    #[trigger] right_items@[k],
                ) && hittable_time_ok(right_items@[k], t0) && hittable_time_ok(right_items@[k], t1)
                    && spec_box(right_items@[k], t0, t1) is Some && bvh_linked(
                    right_items@[k],
                    t0,
                    t1,
                ) by {
                }
            }
            proof {
                broadcast use vstd::multiset::group_multiset_axioms;

                assert(sorted =~= items@ + right_items@);
                lemma_flat_seq_append(items@, right_items@);
                vstd::seq_lib::lemma_multiset_commutative(flat_seq(items@), flat_seq(right_items@));
            }
            let ghost left_part = items@;
            let ghost right_part = right_items@;
            let left_node: BvhNode = Self::from_list(rng, items, time_start, time_end);
            let right_node: BvhNode = Self::from_list(rng, right_items, time_start, time_end);
            let ghost ln = left_node;
            let ghost rn = right_node;
            let bounds: Aabb = Aabb::surround(&left_node.bounds, &right_node.bounds);
            let left: Hittable = Hittable::Bvh(Box::new(left_node));
            let right: Hittable = Hittable::Bvh(Box::new(right_node));
            proof {
                broadcast use vstd::multiset::group_multiset_axioms;

                assert(hittable_wf(left));
                assert(hittable_wf(right));
                assert(hittable_time_ok(left, t0) && hittable_time_ok(left, t1));
                assert(hittable_time_ok(right, t0) && hittable_time_ok(right, t1));
                assert(spec_box(left, t0, t1) == Some(ln.bounds));
                assert(spec_box(right, t0, t1) == Some(rn.bounds));
                assert(bvh_linked(left, t0, t1));
                assert(bvh_linked(right, t0, t1));
                assert(flat(left) == flat(ln.left) + flat(ln.right));
                assert(flat(right) == flat(rn.left) + flat(rn.right));
                vstd::seq_lib::lemma_multiset_commutative(flat(left), flat(right));
                vstd::seq_lib::lemma_multiset_commutative(flat(ln.left), flat(ln.right));
                vstd::seq_lib::lemma_multiset_commutative(flat(rn.left), flat(rn.right));
                assert((flat(left) + flat(right)).to_multiset() =~= flat_seq(orig).to_multiset());
            }
            BvhNode { left, right, bounds }
        }
    }
}

} // verus!

