//! The bounding volume hierarchy: a binary tree over the shapes of a scene
//! in which every node carries a box around all shapes below it.

use crate::canvas::{Canvas, Drawable, Pixel, PixelRect};
use crate::intersection::{Inter, Intersection, Traceable};
use crate::nearest::{
    conservative, first_nearest, is_nearest, last_nearest, lemma_last_nearest_concat,
    lemma_nearest_is_nearest, lemma_nearest_same_distance, nearer, no_ties, spec_nearer,
};
use crate::order::{
    lemma_map_values_permutes, lemma_pair_order_total, pair_order, sort_pairs, widen,
};
use crate::shape::{Rect, Shape};
use rand::Rng;
use vstd::prelude::*;
use vstd::relations::sorted_by;
use vstd::seq_lib::{group_to_multiset_ensures, lemma_sorted_unique};

verus! {

/// `gen` of `rand::Rng` on the generator of the running thread: a pixel
/// whose three channels are drawn by chance.
#[verifier::external_body]
fn random_pixel() -> Pixel {
    let (r, g, b): (u8, u8, u8) = rand::thread_rng().gen();
    Pixel(r, g, b)
}

/// Why a hierarchy could not be built.
#[derive(Clone, Copy, Debug, PartialEq, Eq, Structural)]
pub enum BvhError {
    /// There was no shape to build it from.
    EmptyScene,
}

/// A node of the hierarchy. A leaf has a shape and no children; an inner
/// node has two children and no shape.
#[derive(Debug)]
pub struct Bvh<'a, T> {
    pub lhs: Option<Box<Bvh<'a, T>>>,
    pub rhs: Option<Box<Bvh<'a, T>>>,
    pub bound: Rect,
    pub shape: Option<&'a T>,
}

impl<'a, T> Bvh<'a, T> {
    /// Every node below and including this one is a leaf or an inner node.
    pub open spec fn wf(&self) -> bool
        decreases self,
    {
        match self.shape {
            Some(_) => self.lhs is None && self.rhs is None,
            None => {
                &&& self.lhs is Some
                &&& self.rhs is Some
                &&& self.lhs.unwrap().wf()
                &&& self.rhs.unwrap().wf()
            },
        }
    }

    /// The shapes at the leaves, from left to right.
    pub open spec fn leaves(&self) -> Seq<&'a T>
        decreases self,
    {
        match self.shape {
            Some(shape) => seq![shape],
            None => if self.lhs is Some && self.rhs is Some {
                self.lhs.unwrap().leaves() + self.rhs.unwrap().leaves()
            } else {
                Seq::empty()
            },
        }
    }

    /// The leaf that holds `shape` in the box `bound`.
    pub open spec fn spec_leaf(bound: Rect, shape: &'a T) -> Bvh<'a, T> {
        Bvh { lhs: None, rhs: None, bound, shape: Some(shape) }
    }

    /// The inner node over two subtrees; its box is the union of theirs.
    pub open spec fn spec_join(lhs: Bvh<'a, T>, rhs: Bvh<'a, T>) -> Bvh<'a, T> {
        Bvh {
            lhs: Some(Box::new(lhs)),
            rhs: Some(Box::new(rhs)),
            bound: lhs.bound.spec_union(rhs.bound),
            shape: None,
        }
    }

    /// A leaf for `shape` with the box `bound`.
    pub fn new(bound: Rect, shape: &'a T) -> (leaf: Bvh<'a, T>)
        ensures
            leaf == Self::spec_leaf(bound, shape),
    {
        Bvh { lhs: None, rhs: None, bound, shape: Some(shape) }
    }

    /// An inner node over `lhs` and `rhs`.
    pub fn from_child(lhs: Box<Bvh<'a, T>>, rhs: Box<Bvh<'a, T>>) -> (node: Bvh<'a, T>)
        ensures
            node == Self::spec_join(*lhs, *rhs),
    {
        let bound = lhs.bound.union(&rhs.bound);
        Bvh { lhs: Some(lhs), rhs: Some(rhs), bound, shape: None }
    }

    /// What a traversal for `ray` returns: nothing where the ray misses the
    /// node's box, the shape's own answer at a leaf, and the nearer of the
    /// two children's answers at an inner node.
    pub open spec fn hit<R>(&self, ray: &R) -> Option<Inter<&'a T>> where
        T: Traceable<R>,
        Rect: Intersection<R>,

        decreases self,
    {
        if !self.bound.spec_intersects(ray) {
            None
        } else {
            match self.shape {
                Some(shape) => shape.spec_ray_intersection(ray),
                None => if self.lhs is Some && self.rhs is Some {
                    spec_nearer(self.lhs.unwrap().hit(ray), self.rhs.unwrap().hit(ray))
                } else {
                    None
                },
            }
        }
    }

    /// The nearest hit of `ray` among the shapes of the hierarchy whose
    /// boxes, and the boxes above them, the ray meets. Where every box
    /// reaches around the shapes below it and the box test is conservative
    /// for `ray`, that is the nearest hit among all shapes of the hierarchy,
    /// and of several nearest hits the one of the rightmost leaf.
    pub fn intersects<R>(&self, ray: &R) -> (found: Option<Inter<&'a T>>) where
        T: Traceable<R>,
        Rect: Intersection<R>,

        requires
            self.wf(),
        ensures
            found == self.hit(ray),
            self.bounded() && conservative(self.leaves(), ray) ==> found == last_nearest(
                self.leaves(),
                ray,
            ) && is_nearest(self.leaves(), ray, found),
        decreases self,
    {
        proof {
            if self.bounded() && conservative(self.leaves(), ray) {
                self.lemma_hit_is_last_nearest(ray);
                lemma_nearest_is_nearest(self.leaves(), ray);
            }
        }
        if !self.bound.intersects(ray) {
            return None;
        }
        if let Some(shape) = self.shape {
            shape.ray_intersection(ray)
        } else {
            let left = self.lhs.as_ref().unwrap().intersects(ray);
            let right = self.rhs.as_ref().unwrap().intersects(ray);
            nearer(left, right)
        }
    }
}

impl<'a, T: Shape> Bvh<'a, T> {
    /// The coordinate by which a shape is ordered: that of its position on
    /// the y axis if `vertical`, on the x axis otherwise.
    pub open spec fn axis_key(shape: &T, vertical: bool) -> i32 {
        if vertical {
            shape.spec_position().y
        } else {
            shape.spec_position().x
        }
    }

    /// Each shape's coordinate on the axis, paired with its place in
    /// `shapes`.
    pub open spec fn keyed(shapes: Seq<&'a T>, vertical: bool) -> Seq<(int, int)> {
        Seq::new(shapes.len(), |i: int| (Self::axis_key(shapes[i], vertical) as int, i))
    }

    /// `shapes` in ascending order of their coordinate on the axis; shapes
    /// with equal coordinates keep the order they had.
    pub open spec fn sorted(shapes: Seq<&'a T>, vertical: bool) -> Seq<&'a T> {
        let order = Self::keyed(shapes, vertical).sort_by(pair_order());
        Seq::new(shapes.len(), |j: int| shapes[order[j].1])
    }

    /// Puts `shapes[lo..hi]` in ascending order of their coordinate on the
    /// axis, keeping the order of shapes with equal coordinates.
    fn sort_range(shapes: &mut [&'a T], lo: usize, hi: usize, vertical: bool)
        requires
            lo <= hi <= old(shapes)@.len(),
        ensures
            final(shapes)@.len() == old(shapes)@.len(),
            forall|i: int|
                0 <= i < lo || hi <= i < old(shapes)@.len() ==> final(shapes)@[i] == old(
                    shapes,
                )@[i],
            final(shapes)@.subrange(lo as int, hi as int) == Self::sorted(
                old(shapes)@.subrange(lo as int, hi as int),
                vertical,
            ),
    {
        let ghost before = shapes@;
        let ghost part = before.subrange(lo as int, hi as int);
        let n: usize = hi - lo;
        let mut keys: Vec<(i32, usize)> = Vec::with_capacity(n);
        let mut i: usize = 0;
        while i < n
            invariant
                i <= n,
                n == hi - lo,
                hi <= shapes@.len(),
                shapes@ == before,
                part == before.subrange(lo as int, hi as int),
                keys@.len() == i,
                forall|k: int|
                    0 <= k < i ==> widen(#[trigger] keys@[k]) == Self::keyed(part, vertical)[k],
            decreases n - i,
        {
            let shape: &'a T = shapes[lo + i];
            let p = shape.position();
            let key: i32 = if vertical {
                p.y
            } else {
                p.x
            };
            keys.push((key, i));
            i += 1;
        }
        let ghost unsorted = keys@;
        let ghost pairs = Self::keyed(part, vertical);
        assert(unsorted.map_values(|p: (i32, usize)| widen(p)) =~= pairs);
        sort_pairs(&mut keys);
        let ghost order = keys@.map_values(|p: (i32, usize)| widen(p));
        proof {
            vstd::seq_lib::to_multiset_len(keys@);
            vstd::seq_lib::to_multiset_len(unsorted);
            lemma_map_values_permutes(keys@, unsorted, |p: (i32, usize)| widen(p));
            lemma_pair_order_total();
            pairs.lemma_sort_by_ensures(pair_order());
            assert(sorted_by(order, pair_order()));
            lemma_sorted_unique(order, pairs.sort_by(pair_order()), pair_order());
            assert forall|j: int| 0 <= j < n implies 0 <= (#[trigger] order[j]).1 < n by {
                broadcast use group_to_multiset_ensures;

                assert(order.to_multiset().count(order[j]) > 0);
                assert(pairs.contains(order[j]));
            }
        }
        let mut moved: Vec<&'a T> = Vec::with_capacity(n);
        let mut j: usize = 0;
        while j < n
            invariant
                j <= n,
                n == hi - lo,
                hi <= shapes@.len(),
                shapes@ == before,
                keys@.len() == n,
                order.len() == n,
                forall|k: int| 0 <= k < n ==> (#[trigger] keys@[k]).1 == order[k].1,
                forall|k: int| 0 <= k < n ==> 0 <= (#[trigger] order[k]).1 < n,
                moved@.len() == j,
                forall|k: int| 0 <= k < j ==> moved@[k] == before[lo + order[k].1],
            decreases n - j,
        {
            let from: usize = keys[j].1;
            let shape: &'a T = shapes[lo + from];
            moved.push(shape);
            j += 1;
        }
        let mut k: usize = 0;
        while k < n
            invariant
                k <= n,
                n == hi - lo,
                hi <= shapes@.len(),
                shapes@.len() == before.len(),
                moved@.len() == n,
                forall|m: int| 0 <= m < n ==> moved@[m] == before[lo + order[m].1],
                forall|m: int| 0 <= m < k ==> shapes@[lo + m] == moved@[m],
                forall|m: int|
                    0 <= m < lo || lo + k <= m < before.len() ==> shapes@[m] == before[m],
            decreases n - k,
        {
            shapes[lo + k] = moved[k];
            k += 1;
        }
        assert(order == Self::keyed(part, vertical).sort_by(pair_order()));
        assert(shapes@.subrange(lo as int, hi as int) =~= Self::sorted(part, vertical)) by {
            assert forall|m: int| 0 <= m < n implies shapes@.subrange(lo as int, hi as int)[m]
                == Self::sorted(part, vertical)[m] by {
                assert(shapes@[lo + m] == moved@[m]);
                assert(0 <= order[m].1 < n);
                assert(part[order[m].1] == before[lo + order[m].1]);
            }
        }
    }
}

impl<'a, T: Shape> Bvh<'a, T> {
    /// Every node's box reaches around the bounding box of every shape below
    /// the node.
    pub open spec fn bounded(&self) -> bool
        decreases self,
    {
        &&& forall|i: int|
            0 <= i < self.leaves().len() ==> self.bound.contains_rect(
                (#[trigger] self.leaves()[i]).spec_bounding_box(),
            )
        &&& self.lhs matches Some(lhs) ==> lhs.bounded()
        &&& self.rhs matches Some(rhs) ==> rhs.bounded()
    }

    /// The hierarchy over `shapes`, which must not be empty. One shape makes
    /// a leaf with the shape's own bounding box. More are sorted along the x
    /// axis, or the y axis if `vertical`, and cut in the middle, the shorter
    /// half to the left; the two halves make the children, each built with
    /// the other axis.
    pub open spec fn built(shapes: Seq<&'a T>, vertical: bool) -> Bvh<'a, T>
        decreases shapes.len(),
    {
        if shapes.len() <= 1 {
            Self::spec_leaf(shapes[0].spec_bounding_box(), shapes[0])
        } else {
            let sorted = Self::sorted(shapes, vertical);
            let mid = (shapes.len() / 2) as int;
            Self::spec_join(
                Self::built(sorted.subrange(0, mid), !vertical),
                Self::built(sorted.subrange(mid, shapes.len() as int), !vertical),
            )
        }
    }

    /// Builds the hierarchy over `shapes[lo..hi]` and leaves that part of
    /// the slice in the order of the leaves.
    fn build(shapes: &mut [&'a T], lo: usize, hi: usize, vertical: bool) -> (tree: Bvh<'a, T>)
        requires
            lo < hi <= old(shapes)@.len(),
        ensures
            final(shapes)@.len() == old(shapes)@.len(),
            forall|i: int|
                0 <= i < lo || hi <= i < old(shapes)@.len() ==> final(shapes)@[i] == old(
                    shapes,
                )@[i],
            tree == Self::built(old(shapes)@.subrange(lo as int, hi as int), vertical),
            final(shapes)@.subrange(lo as int, hi as int) == tree.leaves(),
        decreases hi - lo,
    {
        let ghost before = shapes@;
        let ghost part = before.subrange(lo as int, hi as int);
        if hi - lo == 1 {
            let shape: &'a T = shapes[lo];
            let leaf = Bvh::new(shape.bounding_box(), shape);
            assert(shapes@.subrange(lo as int, hi as int) =~= leaf.leaves());
            leaf
        } else {
            Self::sort_range(shapes, lo, hi, vertical);
            let ghost sorted = shapes@;
            let mid: usize = lo + (hi - lo) / 2;
            let left = Self::build(shapes, lo, mid, !vertical);
            let ghost halfway = shapes@;
            let right = Self::build(shapes, mid, hi, !vertical);
            let tree = Bvh::from_child(Box::new(left), Box::new(right));
            proof {
                let ordered = Self::sorted(part, vertical);
                let cut = (part.len() / 2) as int;
                assert(sorted.subrange(lo as int, mid as int) =~= ordered.subrange(0, cut));
                assert(halfway.subrange(mid as int, hi as int) =~= ordered.subrange(
                    cut,
                    part.len() as int,
                ));
                assert(shapes@.subrange(lo as int, hi as int) =~= left.leaves() + right.leaves())
                    by {
                    assert(shapes@.subrange(lo as int, mid as int) =~= halfway.subrange(
                        lo as int,
                        mid as int,
                    ));
                    assert(shapes@.subrange(lo as int, hi as int) =~= shapes@.subrange(
                        lo as int,
                        mid as int,
                    ) + shapes@.subrange(mid as int, hi as int));
                }
            }
            tree
        }
    }

    /// Builds the hierarchy over `shapes`, sorting along the x axis at the
    /// root when `dim` is even and along the y axis when it is odd, and
    /// leaves the slice in the order of the leaves. Fails on an empty slice.
    pub fn construct(shapes: &mut [&'a T], dim: usize) -> (built: Result<Bvh<'a, T>, BvhError>)
        ensures
            old(shapes)@.len() == 0 ==> built == Err::<Bvh<'a, T>, BvhError>(BvhError::EmptyScene)
                && final(shapes)@ == old(shapes)@,
            old(shapes)@.len() > 0 ==> built == Ok::<Bvh<'a, T>, BvhError>(
                Self::built(old(shapes)@, dim % 2 == 1),
            ),
            built matches Ok(tree) ==> {
                &&& final(shapes)@ == tree.leaves()
                &&& tree.leaves().len() == old(shapes)@.len()
                &&& tree.wf()
                &&& tree.bounded()
                &&& tree.leaves().to_multiset() == old(shapes)@.to_multiset()
            },
    {
        let n: usize = shapes.len();
        if n == 0 {
            return Err(BvhError::EmptyScene);
        }
        let ghost before = shapes@;
        let tree = Self::build(shapes, 0, n, dim % 2 == 1);
        proof {
            assert(before.subrange(0, n as int) =~= before);
            assert(shapes@.subrange(0, n as int) =~= shapes@);
            Self::lemma_built_wf(before, dim % 2 == 1);
            Self::lemma_built_bounded(before, dim % 2 == 1);
            Self::lemma_built_leaves(before, dim % 2 == 1);
        }
        Ok(tree)
    }

    /// A hierarchy built over at least one shape is made of leaves and
    /// inner nodes only.
    pub proof fn lemma_built_wf(shapes: Seq<&'a T>, vertical: bool)
        requires
            shapes.len() > 0,
        ensures
            Self::built(shapes, vertical).wf(),
        decreases shapes.len(),
    {
        if shapes.len() > 1 {
            let sorted = Self::sorted(shapes, vertical);
            let mid = (shapes.len() / 2) as int;
            Self::lemma_built_wf(sorted.subrange(0, mid), !vertical);
            Self::lemma_built_wf(sorted.subrange(mid, shapes.len() as int), !vertical);
        }
    }

    /// Containment: in a hierarchy built over at least one shape, the box of
    /// every node reaches around the bounding box of every shape below it.
    pub proof fn lemma_built_bounded(shapes: Seq<&'a T>, vertical: bool)
        requires
            shapes.len() > 0,
        ensures
            Self::built(shapes, vertical).bounded(),
        decreases shapes.len(),
    {
        if shapes.len() > 1 {
            let sorted = Self::sorted(shapes, vertical);
            let mid = (shapes.len() / 2) as int;
            let lhs = Self::built(sorted.subrange(0, mid), !vertical);
            let rhs = Self::built(sorted.subrange(mid, shapes.len() as int), !vertical);
            Self::lemma_built_bounded(sorted.subrange(0, mid), !vertical);
            Self::lemma_built_bounded(sorted.subrange(mid, shapes.len() as int), !vertical);
            Self::lemma_join_bounded(lhs, rhs);
        }
    }

    /// Joining two subtrees whose boxes reach around their shapes gives a
    /// node whose box reaches around all of them.
    pub proof fn lemma_join_bounded(lhs: Bvh<'a, T>, rhs: Bvh<'a, T>)
        requires
            lhs.bounded(),
            rhs.bounded(),
        ensures
            Self::spec_join(lhs, rhs).bounded(),
    {
        let node = Self::spec_join(lhs, rhs);
        assert(node.leaves() == lhs.leaves() + rhs.leaves());
        assert forall|i: int| 0 <= i < node.leaves().len() implies node.bound.contains_rect(
            (#[trigger] node.leaves()[i]).spec_bounding_box(),
        ) by {
            if i < lhs.leaves().len() {
                assert(node.leaves()[i] == lhs.leaves()[i]);
                assert(lhs.bound.contains_rect(lhs.leaves()[i].spec_bounding_box()));
            } else {
                let k = i - lhs.leaves().len();
                assert(node.leaves()[i] == rhs.leaves()[k]);
                assert(rhs.bound.contains_rect(rhs.leaves()[k].spec_bounding_box()));
            }
        }
    }

    /// Sorting moves shapes and neither adds nor drops one.
    pub proof fn lemma_sorted_permutes(shapes: Seq<&'a T>, vertical: bool)
        ensures
            Self::sorted(shapes, vertical).len() == shapes.len(),
            Self::sorted(shapes, vertical).to_multiset() == shapes.to_multiset(),
    {
        let pairs = Self::keyed(shapes, vertical);
        let order = pairs.sort_by(pair_order());
        lemma_pair_order_total();
        pairs.lemma_sort_by_ensures(pair_order());
        let pick = |p: (int, int)| shapes[p.1];
        lemma_map_values_permutes(order, pairs, pick);
        vstd::seq_lib::to_multiset_len(order);
        vstd::seq_lib::to_multiset_len(pairs);
        assert(pairs.map_values(pick) =~= shapes);
        assert(order.map_values(pick) =~= Self::sorted(shapes, vertical));
    }

    /// Coverage: the leaves of a hierarchy built over at least one shape are
    /// the shapes it was built from, each as often as it was given.
    pub proof fn lemma_built_leaves(shapes: Seq<&'a T>, vertical: bool)
        requires
            shapes.len() > 0,
        ensures
            Self::built(shapes, vertical).leaves().len() == shapes.len(),
            Self::built(shapes, vertical).leaves().to_multiset() == shapes.to_multiset(),
        decreases shapes.len(),
    {
        if shapes.len() <= 1 {
            assert(Self::built(shapes, vertical).leaves() =~= shapes);
        } else {
            let sorted = Self::sorted(shapes, vertical);
            let n = shapes.len() as int;
            let mid = (shapes.len() / 2) as int;
            let left = sorted.subrange(0, mid);
            let right = sorted.subrange(mid, n);
            Self::lemma_sorted_permutes(shapes, vertical);
            Self::lemma_built_leaves(left, !vertical);
            Self::lemma_built_leaves(right, !vertical);
            let l = Self::built(left, !vertical).leaves();
            let r = Self::built(right, !vertical).leaves();
            assert(Self::built(shapes, vertical).leaves() == l + r);
            vstd::seq_lib::lemma_multiset_commutative(l, r);
            vstd::seq_lib::lemma_multiset_commutative(left, right);
            assert(left + right =~= sorted);
        }
    }
}

impl<'a, T> Bvh<'a, T> {
    /// Correctness of the traversal: where every node's box reaches around
    /// the shapes below it and the box test is conservative for `ray`, the
    /// traversal finds what testing every leaf in turn finds.
    pub proof fn lemma_hit_is_last_nearest<R>(&self, ray: &R) where
        T: Traceable<R>,
        Rect: Intersection<R>,

        requires
            self.wf(),
            self.bounded(),
            conservative(self.leaves(), ray),
        ensures
            self.hit(ray) == last_nearest(self.leaves(), ray),
        decreases self,
    {
        let leaves = self.leaves();
        if !self.bound.spec_intersects(ray) {
            lemma_nearest_is_nearest(leaves, ray);
            if let Some(hit) = last_nearest(leaves, ray) {
                let i = choose|i: int|
                    0 <= i < leaves.len() && (#[trigger] leaves[i]).spec_ray_intersection(ray)
                        == Some(hit);
                assert(self.bound.contains_rect(leaves[i].spec_bounding_box()));
            }
        } else {
            match self.shape {
                Some(shape) => {
                    assert(leaves.drop_last() =~= Seq::<&'a T>::empty());
                    assert(last_nearest(leaves.drop_last(), ray) is None);
                },
                None => {
                    let lhs = self.lhs.unwrap();
                    let rhs = self.rhs.unwrap();
                    assert forall|i: int, bound: Rect|
                        0 <= i < lhs.leaves().len() && lhs.leaves()[i].spec_ray_intersection(
                            ray,
                        ) is Some && #[trigger] bound.contains_rect(
                            lhs.leaves()[i].spec_bounding_box(),
                        ) implies bound.spec_intersects(ray) by {
                        assert(leaves[i] == lhs.leaves()[i]);
                    }
                    assert forall|i: int, bound: Rect|
                        0 <= i < rhs.leaves().len() && rhs.leaves()[i].spec_ray_intersection(
                            ray,
                        ) is Some && #[trigger] bound.contains_rect(
                            rhs.leaves()[i].spec_bounding_box(),
                        ) implies bound.spec_intersects(ray) by {
                        assert(leaves[lhs.leaves().len() + i] == rhs.leaves()[i]);
                    }
                    lhs.lemma_hit_is_last_nearest(ray);
                    rhs.lemma_hit_is_last_nearest(ray);
                    lemma_last_nearest_concat(lhs.leaves(), rhs.leaves(), ray);
                },
            }
        }
    }

    /// Agreement with exhaustive search: under the conditions of
    /// [`Self::lemma_hit_is_last_nearest`], the traversal and a test of
    /// every shape of `scene`, which holds the shapes of the leaves in any
    /// order, both find a hit or both find none, and the two hits are
    /// equally far away. Where no two shapes are hit equally far away, they
    /// find the same hit.
    pub proof fn lemma_hit_agrees_with_search<R>(&self, scene: Seq<&'a T>, ray: &R) where
        T: Traceable<R>,
        Rect: Intersection<R>,

        requires
            self.wf(),
            self.bounded(),
            conservative(self.leaves(), ray),
            self.leaves().to_multiset() == scene.to_multiset(),
        ensures
            self.hit(ray) is Some <==> first_nearest(scene, ray) is Some,
            self.hit(ray) is Some ==> self.hit(ray).unwrap().distance == first_nearest(
                scene,
                ray,
            ).unwrap().distance,
            no_ties(self.leaves(), ray) ==> self.hit(ray) == first_nearest(scene, ray),
    {
        self.lemma_hit_is_last_nearest(ray);
        lemma_nearest_is_nearest(self.leaves(), ray);
        lemma_nearest_is_nearest(scene, ray);
        lemma_nearest_same_distance(
            self.leaves(),
            scene,
            ray,
            self.hit(ray),
            first_nearest(scene, ray),
        );
    }
}

impl<'a, T> Bvh<'a, T> {
    /// What drawing the box of this node in `color` leaves at column `x`,
    /// row `y`: red on the outline of the box, and a tenth of `color` added
    /// wherever the box lies.
    pub open spec fn boxed(&self, canvas: &Canvas, color: Pixel, x: usize, y: usize) -> Pixel {
        let pixels = PixelRect::spec_of(self.bound);
        let outlined = if pixels.on_outline(canvas, x, y) {
            Pixel(255, 0, 0)
        } else {
            canvas.at(x, y)
        };
        if pixels.covers(x, y) {
            outlined.spec_saturating_add(color.spec_div(10))
        } else {
            outlined
        }
    }

    /// Whether a picture of the hierarchy may touch column `x`, row `y`:
    /// whether the pixel lies under the box of a node or on its outline.
    pub open spec fn touches(&self, canvas: &Canvas, x: usize, y: usize) -> bool
        decreases self,
    {
        ||| PixelRect::spec_of(self.bound).covers(x, y)
        ||| PixelRect::spec_of(self.bound).on_outline(canvas, x, y)
        ||| (self.lhs matches Some(lhs) && lhs.touches(canvas, x, y))
        ||| (self.rhs matches Some(rhs) && rhs.touches(canvas, x, y))
    }

    /// Whether a picture of one of the children may touch column `x`, row
    /// `y`.
    pub open spec fn children_touch(&self, canvas: &Canvas, x: usize, y: usize) -> bool {
        ||| (self.lhs matches Some(lhs) && lhs.touches(canvas, x, y))
        ||| (self.rhs matches Some(rhs) && rhs.touches(canvas, x, y))
    }

    /// Draws the box of this node as seen along the z axis: outlined in red
    /// and filled with a tenth of `color`.
    pub fn draw_box(&self, canvas: &mut Canvas, color: Pixel)
        ensures
            final(canvas).same_shape(old(canvas)),
            forall|x: usize, y: usize|
                old(canvas).in_bounds(x, y) ==> #[trigger] final(canvas).at(x, y) == self.boxed(
                    old(canvas),
                    color,
                    x,
                    y,
                ),
    {
        canvas.draw_outline(&self.bound, Pixel::red());
        canvas.draw(&self.bound, color.div(10));
    }

    /// Draws the boxes of the hierarchy as seen along the z axis: the box
    /// of this node as [`Bvh::draw_box`] draws it in `color`, and over it
    /// the children, each in a colour drawn by chance. Whatever the colours,
    /// a pixel that lies neither under a box of a child nor on its outline
    /// shows the box of this node.
    pub fn draw(&self, canvas: &mut Canvas, color: Pixel)
        ensures
            final(canvas).same_shape(old(canvas)),
            forall|x: usize, y: usize|
                old(canvas).in_bounds(x, y) && !self.children_touch(old(canvas), x, y)
                    ==> #[trigger] final(canvas).at(x, y) == self.boxed(old(canvas), color, x, y),
        decreases self,
    {
        let ghost before = *canvas;
        self.draw_box(canvas, color);
        let ghost boxed = *canvas;
        if let Some(lhs) = &self.lhs {
            lhs.draw(canvas, random_pixel());
        }
        let ghost halfway = *canvas;
        if let Some(rhs) = &self.rhs {
            rhs.draw(canvas, random_pixel());
        }
        proof {
            assert forall|x: usize, y: usize|
                before.in_bounds(x, y) && !self.children_touch(
                    &before,
                    x,
                    y,
                ) implies #[trigger] canvas.at(x, y) == self.boxed(&before, color, x, y) by {
                assert(boxed.at(x, y) == self.boxed(&before, color, x, y));
                if let Some(lhs) = self.lhs {
                    lhs.lemma_touches_by_size(&boxed, &before, x, y);
                    assert(lhs.boxed(&boxed, color, x, y) == boxed.at(x, y));
                    assert(!lhs.children_touch(&boxed, x, y));
                }
                assert(halfway.at(x, y) == boxed.at(x, y));
                if let Some(rhs) = self.rhs {
                    rhs.lemma_touches_by_size(&halfway, &before, x, y);
                    assert(!rhs.children_touch(&halfway, x, y));
                }
            }
        }
    }

    /// Which pixels a picture may touch depends on the canvas by its size
    /// alone.
    pub proof fn lemma_touches_by_size(&self, one: &Canvas, other: &Canvas, x: usize, y: usize)
        requires
            one.same_shape(other),
        ensures
            self.touches(one, x, y) == self.touches(other, x, y),
        decreases self,
    {
        if let Some(lhs) = self.lhs {
            lhs.lemma_touches_by_size(one, other, x, y);
        }
        if let Some(rhs) = self.rhs {
            rhs.lemma_touches_by_size(one, other, x, y);
        }
    }

    /// A pixel that a picture of the hierarchy does not touch is left as it
    /// was.
    pub proof fn lemma_boxed_untouched(&self, canvas: &Canvas, color: Pixel, x: usize, y: usize)
        requires
            !self.touches(canvas, x, y),
        ensures
            !self.children_touch(canvas, x, y),
            self.boxed(canvas, color, x, y) == canvas.at(x, y),
    {
    }
}

} // verus!
