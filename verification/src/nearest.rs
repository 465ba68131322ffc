//! The nearest of the hits of a ray, and the search for it through every
//! shape of a scene.

use crate::intersection::{Inter, Intersection, Traceable};
use crate::shape::Rect;
use vstd::prelude::*;
use vstd::seq_lib::group_to_multiset_ensures;

verus! {

/// Of two optional hits, the one with the smaller distance; the second when
/// the distances are equal.
pub open spec fn spec_nearer<S>(first: Option<Inter<S>>, second: Option<Inter<S>>) -> Option<
    Inter<S>,
> {
    match (first, second) {
        (Some(a), Some(b)) => if a.distance < b.distance {
            Some(a)
        } else {
            Some(b)
        },
        (Some(a), None) => Some(a),
        (None, b) => b,
    }
}

/// Of two optional hits, the one with the smaller distance; the first when
/// the distances are equal.
pub open spec fn spec_nearer_first<S>(first: Option<Inter<S>>, second: Option<Inter<S>>) -> Option<
    Inter<S>,
> {
    match (first, second) {
        (Some(a), Some(b)) => if b.distance < a.distance {
            Some(b)
        } else {
            Some(a)
        },
        (Some(a), None) => Some(a),
        (None, b) => b,
    }
}

/// Of two optional hits, the one with the smaller distance; the second when
/// the distances are equal.
pub fn nearer<S>(first: Option<Inter<S>>, second: Option<Inter<S>>) -> (best: Option<Inter<S>>)
    ensures
        best == spec_nearer(first, second),
{
    if let Some(a) = first {
        if let Some(b) = second {
            if a.distance < b.distance {
                Some(a)
            } else {
                Some(b)
            }
        } else {
            Some(a)
        }
    } else {
        second
    }
}

/// Of two optional hits, the one with the smaller distance; the first when
/// the distances are equal.
pub fn nearer_first<S>(first: Option<Inter<S>>, second: Option<Inter<S>>) -> (best: Option<
    Inter<S>,
>)
    ensures
        best == spec_nearer_first(first, second),
{
    if let Some(a) = first {
        if let Some(b) = second {
            if b.distance < a.distance {
                Some(b)
            } else {
                Some(a)
            }
        } else {
            Some(a)
        }
    } else {
        second
    }
}

/// What testing `ray` against the shapes one after another returns when a
/// later hit replaces an earlier one unless it is farther away.
pub open spec fn last_nearest<'a, T, R>(shapes: Seq<&'a T>, ray: &R) -> Option<Inter<&'a T>> where
    T: Traceable<R>,

    decreases shapes.len(),
{
    if shapes.len() == 0 {
        None
    } else {
        spec_nearer(
            last_nearest(shapes.drop_last(), ray),
            shapes.last().spec_ray_intersection(ray),
        )
    }
}

/// What testing `ray` against the shapes one after another returns when a
/// later hit replaces an earlier one only if it is nearer.
pub open spec fn first_nearest<'a, T, R>(shapes: Seq<&'a T>, ray: &R) -> Option<
    Inter<&'a T>,
> where T: Traceable<R>
    decreases shapes.len(),
{
    if shapes.len() == 0 {
        None
    } else {
        spec_nearer_first(
            first_nearest(shapes.drop_last(), ray),
            shapes.last().spec_ray_intersection(ray),
        )
    }
}

/// Whether the box test never turns away a ray that one of `shapes` would
/// report a hit for: `ray` meets every box that reaches around the bounding
/// box of a shape it hits.
pub open spec fn conservative<'a, T, R>(shapes: Seq<&'a T>, ray: &R) -> bool where
    T: Traceable<R>,
    Rect: Intersection<R>,
 {
    forall|i: int, bound: Rect|
        0 <= i < shapes.len() && shapes[i].spec_ray_intersection(ray) is Some
            && #[trigger] bound.contains_rect(shapes[i].spec_bounding_box())
            ==> bound.spec_intersects(ray)
}

/// Whether `found` is a nearest hit of `ray` among `shapes`: nothing if no
/// shape is hit, and otherwise the answer of one of the shapes, no farther
/// away than the answer of any other.
pub open spec fn is_nearest<'a, T, R>(
    shapes: Seq<&'a T>,
    ray: &R,
    found: Option<Inter<&'a T>>,
) -> bool where T: Traceable<R> {
    match found {
        None => forall|i: int|
            0 <= i < shapes.len() ==> (#[trigger] shapes[i]).spec_ray_intersection(ray) is None,
        Some(hit) => {
            &&& exists|i: int|
                0 <= i < shapes.len() && (#[trigger] shapes[i]).spec_ray_intersection(ray) == Some(
                    hit,
                )
            &&& forall|j: int|
                0 <= j < shapes.len() ==> ((#[trigger] shapes[j]).spec_ray_intersection(ray)
                    matches Some(other) ==> hit.distance <= other.distance)
        },
    }
}

/// Whether no two of `shapes` are hit by `ray` equally far away.
pub open spec fn no_ties<'a, T, R>(shapes: Seq<&'a T>, ray: &R) -> bool where T: Traceable<R> {
    forall|i: int, j: int|
        0 <= i < j < shapes.len() ==> ((#[trigger] shapes[i]).spec_ray_intersection(ray)
            matches Some(one) ==> ((#[trigger] shapes[j]).spec_ray_intersection(ray)
            matches Some(other) ==> one.distance != other.distance))
}

/// A nearest hit among all but the last shape, set against the answer of
/// the last shape, gives a nearest hit among all, whichever of two equally
/// distant hits is kept.
proof fn lemma_nearest_step<'a, T, R>(
    shapes: Seq<&'a T>,
    ray: &R,
    before: Option<Inter<&'a T>>,
    after: Option<Inter<&'a T>>,
) where T: Traceable<R>
    requires
        shapes.len() > 0,
        is_nearest(shapes.drop_last(), ray, before),
        after == spec_nearer(before, shapes.last().spec_ray_intersection(ray)) || after
            == spec_nearer_first(before, shapes.last().spec_ray_intersection(ray)),
    ensures
        is_nearest(shapes, ray, after),
{
    let front = shapes.drop_last();
    let n = shapes.len() - 1;
    assert forall|i: int| 0 <= i < n implies front[i] == shapes[i] by {}
    match after {
        Some(hit) => {
            if before == Some(hit) {
                let i = choose|i: int|
                    0 <= i < front.len() && (#[trigger] front[i]).spec_ray_intersection(ray)
                        == Some(hit);
                assert(shapes[i].spec_ray_intersection(ray) == Some(hit));
            } else {
                assert(shapes[n].spec_ray_intersection(ray) == Some(hit));
            }
            assert forall|j: int| 0 <= j < shapes.len() implies ((
            #[trigger] shapes[j]).spec_ray_intersection(ray) matches Some(other) ==> hit.distance
                <= other.distance) by {
                if j < n {
                    assert(front[j] == shapes[j]);
                }
            }
        },
        None => {
            assert forall|i: int| 0 <= i < shapes.len() implies (
            #[trigger] shapes[i]).spec_ray_intersection(ray) is None by {
                if i < n {
                    assert(front[i] == shapes[i]);
                }
            }
        },
    }
}

/// Testing shape after shape finds a nearest hit, whichever of two equally
/// distant hits is kept.
pub proof fn lemma_nearest_is_nearest<'a, T, R>(shapes: Seq<&'a T>, ray: &R) where
    T: Traceable<R>,

    ensures
        is_nearest(shapes, ray, last_nearest(shapes, ray)),
        is_nearest(shapes, ray, first_nearest(shapes, ray)),
    decreases shapes.len(),
{
    if shapes.len() > 0 {
        let front = shapes.drop_last();
        lemma_nearest_is_nearest(front, ray);
        lemma_nearest_step(shapes, ray, last_nearest(front, ray), last_nearest(shapes, ray));
        lemma_nearest_step(shapes, ray, first_nearest(front, ray), first_nearest(shapes, ray));
    }
}

/// Testing two runs of shapes one after the other finds what the nearer of
/// their two results is.
pub proof fn lemma_last_nearest_concat<'a, T, R>(left: Seq<&'a T>, right: Seq<&'a T>, ray: &R) where
    T: Traceable<R>,

    ensures
        last_nearest(left + right, ray) == spec_nearer(
            last_nearest(left, ray),
            last_nearest(right, ray),
        ),
    decreases right.len(),
{
    if right.len() == 0 {
        assert(left + right =~= left);
    } else {
        assert((left + right).drop_last() =~= left + right.drop_last());
        assert((left + right).last() == right.last());
        lemma_last_nearest_concat(left, right.drop_last(), ray);
    }
}

/// Two nearest hits among the same shapes, in whatever order the shapes
/// stand, are equally far away, and there is one if and only if there is
/// the other. Where no two shapes are hit equally far away, the two are the
/// same hit.
pub proof fn lemma_nearest_same_distance<'a, T, R>(
    one: Seq<&'a T>,
    other: Seq<&'a T>,
    ray: &R,
    a: Option<Inter<&'a T>>,
    b: Option<Inter<&'a T>>,
) where T: Traceable<R>
    requires
        one.to_multiset() == other.to_multiset(),
        is_nearest(one, ray, a),
        is_nearest(other, ray, b),
    ensures
        a is Some <==> b is Some,
        a is Some ==> a.unwrap().distance == b.unwrap().distance,
        no_ties(one, ray) ==> a == b,
{
    broadcast use group_to_multiset_ensures;

    if let Some(hit) = a {
        let i = choose|i: int|
            0 <= i < one.len() && (#[trigger] one[i]).spec_ray_intersection(ray) == Some(hit);
        assert(one.to_multiset().count(one[i]) > 0);
        assert(other.contains(one[i]));
        let k = choose|k: int| 0 <= k < other.len() && other[k] == one[i];
        assert(other[k].spec_ray_intersection(ray) == Some(hit));
    }
    if let Some(hit) = b {
        let i = choose|i: int|
            0 <= i < other.len() && (#[trigger] other[i]).spec_ray_intersection(ray) == Some(hit);
        assert(other.to_multiset().count(other[i]) > 0);
        assert(one.contains(other[i]));
        let k = choose|k: int| 0 <= k < one.len() && one[k] == other[i];
        assert(one[k].spec_ray_intersection(ray) == Some(hit));
        if no_ties(one, ray) {
            let mine = a.unwrap();
            let j = choose|j: int|
                0 <= j < one.len() && (#[trigger] one[j]).spec_ray_intersection(ray) == Some(mine);
            if j < k {
                assert(one[j].spec_ray_intersection(ray) matches Some(x) && x.distance
                    == mine.distance);
                assert(one[k].spec_ray_intersection(ray) matches Some(y) && y.distance
                    == hit.distance);
            } else if k < j {
                assert(one[k].spec_ray_intersection(ray) matches Some(x) && x.distance
                    == hit.distance);
                assert(one[j].spec_ray_intersection(ray) matches Some(y) && y.distance
                    == mine.distance);
            }
        }
    }
}

/// The nearest hit of `ray` among all of `scene`, found by testing every
/// shape; of several nearest hits, the one of the earliest shape.
pub fn intersection<'a, T, R>(scene: &[&'a T], ray: &R) -> (found: Option<Inter<&'a T>>) where
    T: Traceable<R>,

    ensures
        found == first_nearest(scene@, ray),
        is_nearest(scene@, ray, found),
{
    proof {
        lemma_nearest_is_nearest(scene@, ray);
    }
    let mut best: Option<Inter<&'a T>> = None;
    let mut i: usize = 0;
    while i < scene.len()
        invariant
            i <= scene@.len(),
            best == first_nearest(scene@.take(i as int), ray),
        decreases scene@.len() - i,
    {
        let shape: &'a T = scene[i];
        proof {
            assert(scene@.take(i + 1).drop_last() == scene@.take(i as int));
        }
        best = nearer_first(best, shape.ray_intersection(ray));
        i += 1;
    }
    proof {
        assert(scene@.take(scene@.len() as int) == scene@);
    }
    best
}

} // verus!
