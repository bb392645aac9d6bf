//! Cross-cutting properties of the intersection structures, stated and
//! proved over the specification functions the executable contracts use.
//!
//! The centerpiece: a BVH traversal returns exactly what a brute-force
//! linear scan over its leaves returns, for every ray and window, as
//! long as each node's cached box never prunes a hit of the primitives
//! beneath it.  The pruning hypothesis is reduced to one geometric fact
//! per leaf — a hit of a leaf implies the slab test passes on that
//! leaf's own box — which is where the numerics of box construction
//! enter; everything structural is proved.

use crate::aabb::{
    aabb_contains, aabb_hit_spec, hit_witness, lemma_contains_trans, lemma_hit_monotone,
    lemma_surround_contains, spec_surround, Aabb,
};
use crate::hittable::{
    bvh_linked, spec_box, spec_node_bounds, Hittable,
    spec_hit_t, spec_list_hit_prefix,
};
use crate::ray::Ray;
use vstd::prelude::*;

verus! {

/// The leaves of a tree, in traversal order: BVH nodes flatten, spheres
/// and (nonempty) lists stand atomically.
pub open spec fn flat(h: Hittable) -> Seq<Hittable>
    decreases h, 0int, 0int,
{
    match h {
        Hittable::Sphere(_) => seq![h],
        Hittable::List(l) => if l.list@.len() == 0 {
            Seq::empty()
        } else {
            seq![h]
        },
        Hittable::Bvh(b) => flat(b.left) + flat(b.right),
    }
}

/// The brute-force linear scan: each accepted hit narrows the window,
/// exactly as the executable list scan does.
pub open spec fn scan_hit(s: Seq<Hittable>, ray: Ray, t0: int, t1: int) -> Option<int>
    decreases s.len(),
{
    if s.len() == 0 {
        None
    } else {
        let prefix = scan_hit(s.drop_last(), ray, t0, t1);
        let cur = match prefix {
            Some(t) => t,
            None => t1,
        };
        match spec_hit_t(s.last(), ray, t0, cur) {
            Some(t) => Some(t),
            None => prefix,
        }
    }
}

/// The leaves of a whole collection, in order.
pub open spec fn flat_seq(s: Seq<Hittable>) -> Seq<Hittable>
    decreases s.len(),
{
    if s.len() == 0 {
        Seq::empty()
    } else {
        flat_seq(s.drop_last()) + flat(s.last())
    }
}

/// Flattening distributes over concatenation.
pub proof fn lemma_flat_seq_append(a: Seq<Hittable>, b: Seq<Hittable>)
    ensures
        flat_seq(a + b) == flat_seq(a) + flat_seq(b),
    decreases b.len(),
{
    if b.len() == 0 {
        assert(a + b =~= a);
        assert(flat_seq(a) + flat_seq(b) =~= flat_seq(a));
    } else {
        let bp = b.drop_last();
        assert((a + b).drop_last() =~= a + bp);
        assert((a + b).last() == b.last());
        lemma_flat_seq_append(a, bp);
        assert(flat_seq(a + b) == (flat_seq(a) + flat_seq(bp)) + flat(b.last()));
        assert((flat_seq(a) + flat_seq(bp)) + flat(b.last()) =~= flat_seq(a) + (flat_seq(bp)
            + flat(b.last())));
    }
}

/// Flattening a singleton is flattening its element.
pub proof fn lemma_flat_seq_one(x: Hittable)
    ensures
        flat_seq(seq![x]) == flat(x),
{
    assert(seq![x].drop_last() =~= Seq::<Hittable>::empty());
    assert(flat_seq(Seq::<Hittable>::empty()) + flat(x) =~= flat(x));
}

/// A collection is its part before an index, that element, and the rest.
proof fn lemma_split3(s: Seq<Hittable>, m: int)
    requires
        0 <= m < s.len(),
    ensures
        s =~= s.subrange(0, m) + seq![s[m]] + s.subrange(m + 1, s.len() as int),
{
}

/// Rotating one element (the sort's move) keeps the leaf multiset.
pub proof fn lemma_flat_rotate(s: Seq<Hittable>, i: int, m: int)
    requires
        0 <= i <= m < s.len(),
    ensures
        flat_seq(s.remove(m).insert(i, s[m])).to_multiset() == flat_seq(s).to_multiset(),
{
    broadcast use vstd::multiset::group_multiset_axioms;

    let x = s[m];
    let a = s.subrange(0, m);
    let b = s.subrange(m + 1, s.len() as int);
    lemma_split3(s, m);
    lemma_flat_seq_append(a + seq![x], b);
    lemma_flat_seq_append(a, seq![x]);
    lemma_flat_seq_one(x);
    assert(s == (a + seq![x]) + b);
    assert(flat_seq(s) == ((flat_seq(a) + flat(x)) + flat_seq(b)));
    let r = s.remove(m);
    assert(r == a + b);
    lemma_flat_seq_append(a, b);
    let r2 = r.insert(i, x);
    let c = r.subrange(0, i);
    let d = r.subrange(i, r.len() as int);
    assert(r2 == c.push(x) + d);
    assert(c.push(x) =~= c + seq![x]);
    lemma_flat_seq_append(c + seq![x], d);
    lemma_flat_seq_append(c, seq![x]);
    assert(flat_seq(r2) == ((flat_seq(c) + flat(x)) + flat_seq(d)));
    assert(c + d =~= r);
    lemma_flat_seq_append(c, d);
    // all pieces in place: compare the multisets of both concatenations
    vstd::seq_lib::lemma_multiset_commutative(flat_seq(a) + flat(x), flat_seq(b));
    vstd::seq_lib::lemma_multiset_commutative(flat_seq(a), flat(x));
    vstd::seq_lib::lemma_multiset_commutative(flat_seq(c) + flat(x), flat_seq(d));
    vstd::seq_lib::lemma_multiset_commutative(flat_seq(c), flat(x));
    vstd::seq_lib::lemma_multiset_commutative(flat_seq(c), flat_seq(d));
    vstd::seq_lib::lemma_multiset_commutative(flat_seq(a), flat_seq(b));
    assert(flat_seq(c).to_multiset().add(flat_seq(d).to_multiset()) == flat_seq(
        r,
    ).to_multiset());
    assert(flat_seq(r).to_multiset() == flat_seq(a).to_multiset().add(
        flat_seq(b).to_multiset(),
    ));
    let fa = flat_seq(a).to_multiset();
    let fb = flat_seq(b).to_multiset();
    let fc = flat_seq(c).to_multiset();
    let fd = flat_seq(d).to_multiset();
    let fx = flat(x).to_multiset();
    assert(flat_seq(r2).to_multiset() == fc.add(fx).add(fd));
    assert(flat_seq(s).to_multiset() == fa.add(fx).add(fb));
    assert(fc.add(fd) == fa.add(fb));
    assert forall|e: Hittable| fc.add(fx).add(fd).count(e) == fa.add(fx).add(fb).count(
        e,
    ) by {
        assert(fc.add(fd).count(e) == fa.add(fb).count(e));
    }
    assert(fc.add(fx).add(fd) =~= fa.add(fx).add(fb));
}

/// No node's cached box ever prunes a hit of its children: whenever a
/// child reports a hit in some window, the box passes the slab test over
/// that window.
pub open spec fn prunes_soundly(h: Hittable, ray: Ray) -> bool
    decreases h, 0int, 0int,
{
    match h {
        Hittable::Sphere(_) => true,
        Hittable::List(_) => true,
        Hittable::Bvh(b) => {
            &&& forall|a: int, c: int|
                (#[trigger] spec_hit_t(b.left, ray, a, c)) is Some || (#[trigger] spec_hit_t(
                    b.right,
                    ray,
                    a,
                    c,
                )) is Some ==> aabb_hit_spec(b.bounds, ray, a, c)
            &&& prunes_soundly(b.left, ray)
            &&& prunes_soundly(b.right, ray)
        },
    }
}

/// Every leaf has a box over the construction time range.
pub open spec fn flat_boxed(h: Hittable, t0c: int, t1c: int) -> bool {
    forall|i: int|
        0 <= i < flat(h).len() ==> (#[trigger] spec_box(flat(h)[i], t0c, t1c)) is Some
}

/// The geometric hypothesis of the equivalence: a hit of a leaf, in any
/// window, implies the slab test passes on that leaf's own box.  (With
/// truncating arithmetic a grazing hit can touch a box exactly on its
/// face, which the strict slab test reports as a miss, so this is
/// assumed of the scene rather than proved.)
pub open spec fn leaves_conservative(h: Hittable, ray: Ray, t0c: int, t1c: int) -> bool {
    forall|i: int, a: int, c: int|
        0 <= i < flat(h).len() && (#[trigger] spec_hit_t(flat(h)[i], ray, a, c)) is Some
            ==> aabb_hit_spec(spec_box(flat(h)[i], t0c, t1c)->Some_0, ray, a, c)
}

/// Widening the window keeps a passing slab test passing.
proof fn lemma_aabb_window_mono(b: Aabb, ray: Ray, t0: int, c1: int, c2: int)
    requires
        c1 <= c2,
        aabb_hit_spec(b, ray, t0, c1),
    ensures
        aabb_hit_spec(b, ray, t0, c2),
{
    let (p, q) = choose|p: int, q: int| #[trigger] hit_witness(b, ray, t0, c1, p, q);
    assert(hit_witness(b, ray, t0, c2, p, q)) by {
        assert(c1 * q <= c2 * q) by (nonlinear_arith)
            requires
                q > 0,
                c1 <= c2,
        ;
    }
}

/// Scanning a concatenation: scan the first part, then the second in
/// the window the first part's best hit leaves — the combination a BVH
/// node's traversal performs.
proof fn lemma_scan_append(s1: Seq<Hittable>, s2: Seq<Hittable>, ray: Ray, t0: int, t1: int)
    ensures
        scan_hit(s1 + s2, ray, t0, t1) == (match scan_hit(s1, ray, t0, t1) {
            Some(lt) => match scan_hit(s2, ray, t0, lt) {
                Some(rt) => Some(rt),
                None => Some(lt),
            },
            None => scan_hit(s2, ray, t0, t1),
        }),
    decreases s2.len(),
{
    if s2.len() == 0 {
        assert(s1 + s2 =~= s1);
        match scan_hit(s1, ray, t0, t1) {
            Some(lt) => {
                assert(scan_hit(s2, ray, t0, lt) is None);
            },
            None => {
                assert(scan_hit(s2, ray, t0, t1) is None);
            },
        }
    } else {
        let s2p = s2.drop_last();
        let x = s2.last();
        assert((s1 + s2).drop_last() =~= s1 + s2p);
        assert((s1 + s2).last() == x);
        lemma_scan_append(s1, s2p, ray, t0, t1);
        match scan_hit(s1, ray, t0, t1) {
            Some(lt) => {
                lemma_scan_append(s1, s2p, ray, t0, t1);
            },
            None => {
            },
        }
    }
}

/// The traversal result of a soundly pruning tree equals the linear
/// scan of its leaves.
pub proof fn lemma_bvh_matches_scan(h: Hittable, ray: Ray, t0: int, t1: int)
    requires
        prunes_soundly(h, ray),
    ensures
        spec_hit_t(h, ray, t0, t1) == scan_hit(flat(h), ray, t0, t1),
    decreases h, 0int, 0int,
{
    match h {
        Hittable::Sphere(_) => {
            let s = flat(h);
            assert(s.len() == 1);
            assert(s.drop_last() =~= Seq::<Hittable>::empty());
            assert(s.last() == h);
            assert(scan_hit(s.drop_last(), ray, t0, t1) is None);
            assert(spec_hit_t(h, ray, t0, t1) == scan_hit(flat(h), ray, t0, t1));
        },
        Hittable::List(l) => {
            if l.list@.len() == 0 {
                assert(spec_list_hit_prefix(l, 0, ray, t0, t1) is None);
            } else {
                let s = flat(h);
                assert(s.len() == 1);
                assert(s.drop_last() =~= Seq::<Hittable>::empty());
                assert(s.last() == h);
                assert(scan_hit(s.drop_last(), ray, t0, t1) is None);
                assert(spec_hit_t(h, ray, t0, t1) == scan_hit(flat(h), ray, t0, t1));
            }
        },
        Hittable::Bvh(b) => {
            let fl = flat(b.left);
            let fr = flat(b.right);
            lemma_scan_append(fl, fr, ray, t0, t1);
            if aabb_hit_spec(b.bounds, ray, t0, t1) {
                lemma_bvh_matches_scan(b.left, ray, t0, t1);
                match spec_hit_t(b.left, ray, t0, t1) {
                    Some(lt) => {
                        lemma_bvh_matches_scan(b.right, ray, t0, lt);
                        assert(spec_hit_t(h, ray, t0, t1) == scan_hit(flat(h), ray, t0, t1));
                    },
                    None => {
                        lemma_bvh_matches_scan(b.right, ray, t0, t1);
                        assert(spec_hit_t(h, ray, t0, t1) == scan_hit(flat(h), ray, t0, t1));
                    },
                }
            } else {
                // the box missed: were any leaf scan to hit, a child
                // would report a hit and soundness would force the box
                // to pass
                lemma_bvh_matches_scan(b.left, ray, t0, t1);
                match scan_hit(fl, ray, t0, t1) {
                    Some(lt) => {
                        assert(spec_hit_t(b.left, ray, t0, t1) is Some);
                        assert(false);
                    },
                    None => {
                        lemma_bvh_matches_scan(b.right, ray, t0, t1);
                        match scan_hit(fr, ray, t0, t1) {
                            Some(rt) => {
                                assert(spec_hit_t(b.right, ray, t0, t1) is Some);
                                assert(false);
                            },
                            None => {
                            },
                        }
                    },
                }
            }
        },
    }
}

/// Each leaf's box sits inside the tree's cached box.
proof fn lemma_leaf_box_in_bounds(h: Hittable, t0c: int, t1c: int, i: int)
    requires
        bvh_linked(h, t0c, t1c),
        flat_boxed(h, t0c, t1c),
        0 <= i < flat(h).len(),
        spec_box(h, t0c, t1c) is Some,
    ensures
        spec_box(flat(h)[i], t0c, t1c) is Some,
        aabb_contains(
            spec_box(h, t0c, t1c)->Some_0,
            spec_box(flat(h)[i], t0c, t1c)->Some_0,
        ),
    decreases h, 0int, 0int,
{
    match h {
        Hittable::Sphere(_) => {
            assert(flat(h)[i] == h);
        },
        Hittable::List(_) => {
            assert(flat(h)[i] == h);
        },
        Hittable::Bvh(b) => {
            let fl = flat(b.left);
            let fr = flat(b.right);
            let lb = spec_box(b.left, t0c, t1c)->Some_0;
            if i < fl.len() {
                assert(flat(h)[i] == fl[i]);
                assert forall|k: int| 0 <= k < fl.len() implies (#[trigger] spec_box(
                    fl[k],
                    t0c,
                    t1c,
                )) is Some by {
                    assert(flat(h)[k] == fl[k]);
                }
                lemma_leaf_box_in_bounds(b.left, t0c, t1c, i);
                match spec_box(b.right, t0c, t1c) {
                    Some(rb) => {
                        lemma_surround_contains(lb, rb);
                        lemma_contains_trans(
                            spec_surround(lb, rb),
                            lb,
                            spec_box(fl[i], t0c, t1c)->Some_0,
                        );
                    },
                    None => {
                    },
                }
            } else {
                let j = i - fl.len();
                assert(flat(h)[i] == fr[j]);
                assert forall|k: int| 0 <= k < fr.len() implies (#[trigger] spec_box(
                    fr[k],
                    t0c,
                    t1c,
                )) is Some by {
                    assert(flat(h)[fl.len() + k] == fr[k]);
                }
                match spec_box(b.right, t0c, t1c) {
                    Some(rb) => {
                        lemma_leaf_box_in_bounds(b.right, t0c, t1c, j);
                        lemma_surround_contains(lb, rb);
                        lemma_contains_trans(
                            spec_surround(lb, rb),
                            rb,
                            spec_box(fr[j], t0c, t1c)->Some_0,
                        );
                    },
                    None => {
                        // a boxless right child holds no leaves
                        assert(spec_box(fr[j], t0c, t1c) is Some);
                        lemma_boxless_has_no_leaves(b.right, t0c, t1c);
                        assert(false);
                    },
                }
            }
        },
    }
}

/// A tree without a box has no boxed leaves (its leaf list is empty or
/// holds a boxless member, which `flat_boxed` rules out upstream).
proof fn lemma_boxless_has_no_leaves(h: Hittable, t0c: int, t1c: int)
    requires
        bvh_linked(h, t0c, t1c),
        spec_box(h, t0c, t1c) is None,
        forall|k: int|
            0 <= k < flat(h).len() ==> (#[trigger] spec_box(flat(h)[k], t0c, t1c)) is Some,
    ensures
        flat(h).len() == 0,
    decreases h, 0int, 0int,
{
    match h {
        Hittable::Sphere(_) => {
        },
        Hittable::List(l) => {
            if l.list@.len() > 0 {
                assert(flat(h)[0] == h);
            }
        },
        Hittable::Bvh(_) => {
        },
    }
}

/// A hit of the tree comes from a hit of some leaf, in a window no
/// wider than the query's.
proof fn lemma_hit_some_leaf(h: Hittable, ray: Ray, a: int, c: int) -> (w: (int, int))
    requires
        spec_hit_t(h, ray, a, c) is Some,
    ensures
        0 <= w.0 < flat(h).len(),
        w.1 <= c,
        spec_hit_t(flat(h)[w.0], ray, a, w.1) is Some,
    decreases h, 0int, 0int,
{
    match h {
        Hittable::Sphere(_) => {
            assert(flat(h)[0] == h);
            (0, c)
        },
        Hittable::List(l) => {
            assert(l.list@.len() > 0) by {
                if l.list@.len() == 0 {
                    assert(spec_list_hit_prefix(l, 0, ray, a, c) is None);
                }
            }
            assert(flat(h)[0] == h);
            (0, c)
        },
        Hittable::Bvh(b) => {
            let fl = flat(b.left);
            let fr = flat(b.right);
            match spec_hit_t(b.left, ray, a, c) {
                Some(lt) => {
                    match spec_hit_t(b.right, ray, a, lt) {
                        Some(rt) => {
                            let w = lemma_hit_some_leaf(b.right, ray, a, lt);
                            crate::hittable::lemma_hit_t_in_range(b.left, ray, a, c);
                            assert(flat(h)[fl.len() + w.0] == fr[w.0]);
                            (fl.len() + w.0, w.1)
                        },
                        None => {
                            let w = lemma_hit_some_leaf(b.left, ray, a, c);
                            assert(flat(h)[w.0] == fl[w.0]);
                            w
                        },
                    }
                },
                None => {
                    let w = lemma_hit_some_leaf(b.right, ray, a, c);
                    assert(flat(h)[fl.len() + w.0] == fr[w.0]);
                    (fl.len() + w.0, w.1)
                },
            }
        },
    }
}

/// Linked boxes plus conservative leaves give sound pruning at every
/// node.
proof fn lemma_sound_from_leaves(h: Hittable, ray: Ray, t0c: int, t1c: int)
    requires
        bvh_linked(h, t0c, t1c),
        flat_boxed(h, t0c, t1c),
        leaves_conservative(h, ray, t0c, t1c),
    ensures
        prunes_soundly(h, ray),
    decreases h, 0int, 0int,
{
    match h {
        Hittable::Sphere(_) => {
        },
        Hittable::List(_) => {
        },
        Hittable::Bvh(b) => {
            let fl = flat(b.left);
            let fr = flat(b.right);
            assert forall|k: int| 0 <= k < fl.len() implies (#[trigger] spec_box(
                fl[k],
                t0c,
                t1c,
            )) is Some by {
                assert(flat(h)[k] == fl[k]);
            }
            assert forall|k: int| 0 <= k < fr.len() implies (#[trigger] spec_box(
                fr[k],
                t0c,
                t1c,
            )) is Some by {
                assert(flat(h)[fl.len() + k] == fr[k]);
            }
            assert forall|k: int, a: int, c: int|
                0 <= k < fl.len() && (#[trigger] spec_hit_t(fl[k], ray, a, c)) is Some
                    implies aabb_hit_spec(
                    spec_box(fl[k], t0c, t1c)->Some_0,
                    ray,
                    a,
                    c,
                ) by {
                assert(flat(h)[k] == fl[k]);
            }
            assert forall|k: int, a: int, c: int|
                0 <= k < fr.len() && (#[trigger] spec_hit_t(fr[k], ray, a, c)) is Some
                    implies aabb_hit_spec(
                    spec_box(fr[k], t0c, t1c)->Some_0,
                    ray,
                    a,
                    c,
                ) by {
                assert(flat(h)[fl.len() + k] == fr[k]);
            }
            lemma_sound_from_leaves(b.left, ray, t0c, t1c);
            lemma_sound_from_leaves(b.right, ray, t0c, t1c);
            assert forall|a: int, c: int|
                (#[trigger] spec_hit_t(b.left, ray, a, c)) is Some || (#[trigger] spec_hit_t(
                    b.right,
                    ray,
                    a,
                    c,
                )) is Some implies aabb_hit_spec(b.bounds, ray, a, c) by {
                if spec_hit_t(b.left, ray, a, c) is Some {
                    let w = lemma_hit_some_leaf(b.left, ray, a, c);
                    assert(flat(h)[w.0] == fl[w.0]);
                    assert(aabb_hit_spec(spec_box(fl[w.0], t0c, t1c)->Some_0, ray, a, w.1));
                    lemma_leaf_box_in_bounds(b.left, t0c, t1c, w.0);
                    lemma_hit_monotone(
                        spec_box(fl[w.0], t0c, t1c)->Some_0,
                        spec_box(b.left, t0c, t1c)->Some_0,
                        ray,
                        a,
                        w.1,
                    );
                    lemma_node_contains_left(b.left, b.right, b.bounds, t0c, t1c);
                    lemma_hit_monotone(
                        spec_box(b.left, t0c, t1c)->Some_0,
                        b.bounds,
                        ray,
                        a,
                        w.1,
                    );
                    lemma_aabb_window_mono(b.bounds, ray, a, w.1, c);
                } else {
                    let w = lemma_hit_some_leaf(b.right, ray, a, c);
                    assert(flat(h)[fl.len() + w.0] == fr[w.0]);
                    assert(aabb_hit_spec(spec_box(fr[w.0], t0c, t1c)->Some_0, ray, a, w.1));
                    match spec_box(b.right, t0c, t1c) {
                        Some(rb) => {
                            lemma_leaf_box_in_bounds(b.right, t0c, t1c, w.0);
                            lemma_hit_monotone(
                                spec_box(fr[w.0], t0c, t1c)->Some_0,
                                rb,
                                ray,
                                a,
                                w.1,
                            );
                            lemma_surround_contains(spec_box(b.left, t0c, t1c)->Some_0, rb);
                            lemma_hit_monotone(rb, b.bounds, ray, a, w.1);
                            lemma_aabb_window_mono(b.bounds, ray, a, w.1, c);
                        },
                        None => {
                            lemma_boxless_has_no_leaves(b.right, t0c, t1c);
                            assert(false);
                        },
                    }
                }
            }
        },
    }
}

/// The node's cached box contains the left child's box.
proof fn lemma_node_contains_left(
    left: Hittable,
    right: Hittable,
    bounds: Aabb,
    t0c: int,
    t1c: int,
)
    requires
        spec_box(left, t0c, t1c) is Some,
        bounds == spec_node_bounds(left, right, t0c, t1c),
    ensures
        aabb_contains(bounds, spec_box(left, t0c, t1c)->Some_0),
{
    let lb = spec_box(left, t0c, t1c)->Some_0;
    match spec_box(right, t0c, t1c) {
        Some(rb) => {
            lemma_surround_contains(lb, rb);
        },
        None => {
        },
    }
}

/// BVH/list equivalence: for any ray and window, the hit parameter the
/// BVH traversal returns equals the one a brute-force linear scan over
/// its leaves returns, provided the tree's boxes are the linked unions
/// construction builds and no leaf's own box misses a hit of that leaf.
pub proof fn lemma_bvh_equals_linear_scan(
    h: Hittable,
    ray: Ray,
    t0: int,
    t1: int,
    t0c: int,
    t1c: int,
)
    requires
        bvh_linked(h, t0c, t1c),
        flat_boxed(h, t0c, t1c),
        leaves_conservative(h, ray, t0c, t1c),
    ensures
        spec_hit_t(h, ray, t0, t1) == scan_hit(flat(h), ray, t0, t1),
{
    lemma_sound_from_leaves(h, ray, t0c, t1c);
    lemma_bvh_matches_scan(h, ray, t0, t1);
}

} // verus!
