//! Points, sizes, rectangles and content masks.

use crate::number::{
    commutative_ring, greater, larger_of, lemma_bounds_of_two, lemma_order_chains,
    lemma_smaller_and_larger, lemma_smaller_and_larger_are_the_two, lemma_span_is_exact, lesser,
    ordered_numbers, smaller_of, Scalar,
};
use vstd::prelude::*;

verus! {

/// A point, or the offset from one point to another.
#[derive(Clone, Copy, Debug, PartialEq)]
pub struct Point<N> {
    pub x: N,
    pub y: N,
}

/// The extent of a rectangle.
#[derive(Clone, Copy, Debug, PartialEq)]
pub struct Size<N> {
    pub width: N,
    pub height: N,
}

/// A rectangle, given by its upper left corner and its size.
#[derive(Clone, Copy, Debug, PartialEq)]
pub struct Bounds<N> {
    pub origin: Point<N>,
    pub size: Size<N>,
}

/// One number for each corner of a rectangle.
#[derive(Clone, Copy, Debug, PartialEq)]
pub struct Corners<N> {
    pub top_left: N,
    pub top_right: N,
    pub bottom_right: N,
    pub bottom_left: N,
}

/// One number for each edge of a rectangle.
#[derive(Clone, Copy, Debug, PartialEq)]
pub struct Edges<N> {
    pub top: N,
    pub right: N,
    pub bottom: N,
    pub left: N,
}

/// The rectangle outside of which a primitive is not painted.
#[derive(Clone, Copy, Debug, PartialEq)]
pub struct ContentMask<N> {
    pub bounds: Bounds<N>,
}

/// The point with the given coordinates.
pub fn point<N>(x: N, y: N) -> (r: Point<N>)
    ensures
        r == (Point { x, y }),
{
    Point { x, y }
}

/// The size with the given width and height.
pub fn size<N>(width: N, height: N) -> (r: Size<N>)
    ensures
        r == (Size { width, height }),
{
    Size { width, height }
}

impl<N: Scalar> Point<N> {
    pub open spec fn zero_spec() -> Self {
        Point { x: N::zero_spec(), y: N::zero_spec() }
    }

    pub open spec fn plus_spec(self, other: Self) -> Self {
        Point { x: self.x.plus_spec(other.x), y: self.y.plus_spec(other.y) }
    }

    pub open spec fn same_spec(self, other: Self) -> bool {
        self.x.same_spec(other.x) && self.y.same_spec(other.y)
    }

    pub open spec fn scale_spec(self, factor: N) -> Self {
        Point { x: self.x.times_spec(factor), y: self.y.times_spec(factor) }
    }

    /// The origin of the coordinate system.
    pub fn zero() -> (r: Self)
        ensures
            r == Self::zero_spec(),
    {
        Point { x: N::zero(), y: N::zero() }
    }

    /// Both coordinates multiplied by `factor`.
    pub fn scale(self, factor: N) -> (r: Self)
        ensures
            r == self.scale_spec(factor),
    {
        Point { x: self.x.times(factor), y: self.y.times(factor) }
    }

    /// This point moved by `other`.
    pub fn plus(self, other: Self) -> (r: Self)
        ensures
            r == self.plus_spec(other),
    {
        Point { x: self.x.plus(other.x), y: self.y.plus(other.y) }
    }

    /// Whether both coordinates compare equal.
    pub fn same(self, other: Self) -> (r: bool)
        ensures
            r == self.same_spec(other),
    {
        self.x.same(other.x) && self.y.same(other.y)
    }
}

impl<N: Scalar> Size<N> {
    pub open spec fn zero_spec() -> Self {
        Size { width: N::zero_spec(), height: N::zero_spec() }
    }

    pub open spec fn scale_spec(self, factor: N) -> Self {
        Size { width: self.width.times_spec(factor), height: self.height.times_spec(factor) }
    }

    /// Width and height multiplied by `factor`.
    pub fn scale(self, factor: N) -> (r: Self)
        ensures
            r == self.scale_spec(factor),
    {
        Size { width: self.width.times(factor), height: self.height.times(factor) }
    }

    /// The size of nothing.
    pub fn zero() -> (r: Self)
        ensures
            r == Self::zero_spec(),
    {
        Size { width: N::zero(), height: N::zero() }
    }
}

impl<N: Scalar> Corners<N> {
    pub open spec fn zero_spec() -> Self {
        Corners {
            top_left: N::zero_spec(),
            top_right: N::zero_spec(),
            bottom_right: N::zero_spec(),
            bottom_left: N::zero_spec(),
        }
    }

    /// Zero for every corner.
    pub fn zero() -> (r: Self)
        ensures
            r == Self::zero_spec(),
    {
        Corners {
            top_left: N::zero(),
            top_right: N::zero(),
            bottom_right: N::zero(),
            bottom_left: N::zero(),
        }
    }
}

impl<N: Scalar> Edges<N> {
    pub open spec fn zero_spec() -> Self {
        Edges {
            top: N::zero_spec(),
            right: N::zero_spec(),
            bottom: N::zero_spec(),
            left: N::zero_spec(),
        }
    }

    /// Zero for every edge.
    pub fn zero() -> (r: Self)
        ensures
            r == Self::zero_spec(),
    {
        Edges { top: N::zero(), right: N::zero(), bottom: N::zero(), left: N::zero() }
    }
}

impl<N: Scalar> Bounds<N> {
    pub open spec fn zero_spec() -> Self {
        Bounds { origin: Point::zero_spec(), size: Size::zero_spec() }
    }

    pub open spec fn bottom_right_spec(self) -> Point<N> {
        Point {
            x: self.origin.x.plus_spec(self.size.width),
            y: self.origin.y.plus_spec(self.size.height),
        }
    }

    /// The rectangle between two corners.
    pub open spec fn from_corners_spec(top_left: Point<N>, bottom_right: Point<N>) -> Self {
        Bounds {
            origin: top_left,
            size: Size {
                width: bottom_right.x.minus_spec(top_left.x),
                height: bottom_right.y.minus_spec(top_left.y),
            },
        }
    }

    /// What lies in both rectangles; it is empty where they do not meet.
    pub open spec fn intersect_spec(self, other: Self) -> Self {
        Self::from_corners_spec(
            Point {
                x: greater(self.origin.x, other.origin.x),
                y: greater(self.origin.y, other.origin.y),
            },
            Point {
                x: lesser(self.bottom_right_spec().x, other.bottom_right_spec().x),
                y: lesser(self.bottom_right_spec().y, other.bottom_right_spec().y),
            },
        )
    }

    /// The smallest rectangle around both.
    pub open spec fn union_spec(self, other: Self) -> Self {
        Self::from_corners_spec(
            Point {
                x: lesser(self.origin.x, other.origin.x),
                y: lesser(self.origin.y, other.origin.y),
            },
            Point {
                x: greater(self.bottom_right_spec().x, other.bottom_right_spec().x),
                y: greater(self.bottom_right_spec().y, other.bottom_right_spec().y),
            },
        )
    }

    pub open spec fn is_empty_spec(self) -> bool {
        ||| self.size.width.at_most_spec(N::zero_spec())
        ||| self.size.height.at_most_spec(N::zero_spec())
    }

    /// The two rectangles overlap; it is not enough that their edges touch.
    pub open spec fn intersects_spec(self, other: Self) -> bool {
        &&& self.origin.x.less_than_spec(other.bottom_right_spec().x)
        &&& other.origin.x.less_than_spec(self.bottom_right_spec().x)
        &&& self.origin.y.less_than_spec(other.bottom_right_spec().y)
        &&& other.origin.y.less_than_spec(self.bottom_right_spec().y)
    }

    pub open spec fn translated_spec(self, offset: Point<N>) -> Self {
        Bounds { origin: self.origin.plus_spec(offset), size: self.size }
    }

    pub open spec fn same_spec(self, other: Self) -> bool {
        &&& self.origin.same_spec(other.origin)
        &&& self.size.width.same_spec(other.size.width)
        &&& self.size.height.same_spec(other.size.height)
    }

    pub open spec fn scale_spec(self, factor: N) -> Self {
        Bounds { origin: self.origin.scale_spec(factor), size: self.size.scale_spec(factor) }
    }

    /// Corner and size multiplied by `factor`.
    pub fn scale(&self, factor: N) -> (r: Self)
        ensures
            r == self.scale_spec(factor),
    {
        Bounds { origin: self.origin.scale(factor), size: self.size.scale(factor) }
    }

    /// The rectangle with the given corner and size.
    pub fn new(origin: Point<N>, size: Size<N>) -> (r: Self)
        ensures
            r == (Bounds { origin, size }),
    {
        Bounds { origin, size }
    }

    /// A rectangle without extent at the origin.
    pub fn zero() -> (r: Self)
        ensures
            r == Self::zero_spec(),
    {
        Bounds { origin: Point::zero(), size: Size::zero() }
    }

    /// The lower right corner.
    pub fn bottom_right(&self) -> (r: Point<N>)
        ensures
            r == self.bottom_right_spec(),
    {
        Point {
            x: self.origin.x.plus(self.size.width),
            y: self.origin.y.plus(self.size.height),
        }
    }

    /// The rectangle between two corners.
    pub fn from_corners(top_left: Point<N>, bottom_right: Point<N>) -> (r: Self)
        ensures
            r == Self::from_corners_spec(top_left, bottom_right),
    {
        Bounds {
            origin: top_left,
            size: Size {
                width: bottom_right.x.minus(top_left.x),
                height: bottom_right.y.minus(top_left.y),
            },
        }
    }

    /// What lies in both rectangles.
    pub fn intersect(&self, other: &Self) -> (r: Self)
        ensures
            r == self.intersect_spec(*other),
    {
        let mine = self.bottom_right();
        let theirs = other.bottom_right();
        let top_left = Point {
            x: larger_of(self.origin.x, other.origin.x),
            y: larger_of(self.origin.y, other.origin.y),
        };
        let bottom_right = Point {
            x: smaller_of(mine.x, theirs.x),
            y: smaller_of(mine.y, theirs.y),
        };
        Self::from_corners(top_left, bottom_right)
    }

    /// The smallest rectangle around both.
    pub fn union(&self, other: &Self) -> (r: Self)
        ensures
            r == self.union_spec(*other),
    {
        let mine = self.bottom_right();
        let theirs = other.bottom_right();
        let top_left = Point {
            x: smaller_of(self.origin.x, other.origin.x),
            y: smaller_of(self.origin.y, other.origin.y),
        };
        let bottom_right = Point {
            x: larger_of(mine.x, theirs.x),
            y: larger_of(mine.y, theirs.y),
        };
        Self::from_corners(top_left, bottom_right)
    }

    /// Whether the width or the height is not above zero.
    pub fn is_empty(&self) -> (r: bool)
        ensures
            r == self.is_empty_spec(),
    {
        self.size.width.at_most(N::zero()) || self.size.height.at_most(N::zero())
    }

    /// Whether the two rectangles overlap.
    pub fn intersects(&self, other: &Self) -> (r: bool)
        ensures
            r == self.intersects_spec(*other),
    {
        let mine = self.bottom_right();
        let theirs = other.bottom_right();
        self.origin.x.less_than(theirs.x) && other.origin.x.less_than(mine.x)
            && self.origin.y.less_than(theirs.y) && other.origin.y.less_than(mine.y)
    }

    /// This rectangle moved by `offset`.
    pub fn translated(&self, offset: Point<N>) -> (r: Self)
        ensures
            r == self.translated_spec(offset),
    {
        Bounds { origin: self.origin.plus(offset), size: self.size }
    }

    /// Whether corner and size compare equal.
    pub fn same(&self, other: &Self) -> (r: bool)
        ensures
            r == self.same_spec(*other),
    {
        self.origin.same(other.origin) && self.size.width.same(other.size.width)
            && self.size.height.same(other.size.height)
    }
}

impl<N: Scalar> ContentMask<N> {
    pub open spec fn zero_spec() -> Self {
        ContentMask { bounds: Bounds::zero_spec() }
    }

    pub open spec fn intersect_spec(self, other: Self) -> Self {
        ContentMask { bounds: self.bounds.intersect_spec(other.bounds) }
    }

    pub open spec fn translated_spec(self, offset: Point<N>) -> Self {
        ContentMask { bounds: self.bounds.translated_spec(offset) }
    }

    pub open spec fn same_spec(self, other: Self) -> bool {
        self.bounds.same_spec(other.bounds)
    }

    pub open spec fn scale_spec(self, factor: N) -> Self {
        ContentMask { bounds: self.bounds.scale_spec(factor) }
    }

    /// This mask multiplied by `factor`.
    pub fn scale(&self, factor: N) -> (r: Self)
        ensures
            r == self.scale_spec(factor),
    {
        ContentMask { bounds: self.bounds.scale(factor) }
    }

    /// The mask that shows what lies in `bounds`.
    pub fn from_bounds(bounds: Bounds<N>) -> (r: Self)
        ensures
            r == (ContentMask { bounds }),
    {
        ContentMask { bounds }
    }

    /// The mask that shows nothing.
    pub fn zero() -> (r: Self)
        ensures
            r == Self::zero_spec(),
    {
        ContentMask { bounds: Bounds::zero() }
    }

    /// The mask that shows what both show.
    pub fn intersect_unique(&self, other: &Self) -> (r: Self)
        ensures
            r == self.intersect_spec(*other),
    {
        ContentMask { bounds: self.bounds.intersect(&other.bounds) }
    }

    /// This mask moved by `offset`.
    pub fn translated(&self, offset: Point<N>) -> (r: Self)
        ensures
            r == self.translated_spec(offset),
    {
        ContentMask { bounds: self.bounds.translated(offset) }
    }

    /// Whether the two masks compare equal.
    pub fn same(&self, other: &Self) -> (r: bool)
        ensures
            r == self.same_spec(*other),
    {
        self.bounds.same(&other.bounds)
    }
}

impl<N: Scalar> Bounds<N> {
    /// A point lies in this rectangle or on its edge.
    pub open spec fn contains_spec(self, point: Point<N>) -> bool {
        &&& self.origin.x.at_most_spec(point.x)
        &&& point.x.at_most_spec(self.bottom_right_spec().x)
        &&& self.origin.y.at_most_spec(point.y)
        &&& point.y.at_most_spec(self.bottom_right_spec().y)
    }
}

proof fn lemma_union_corners<N: Scalar>(a: Bounds<N>, b: Bounds<N>)
    requires
        ordered_numbers::<N>(),
    ensures
        ({
            let union = a.union_spec(b);
            &&& union.origin.x == lesser(a.origin.x, b.origin.x)
            &&& union.origin.y == lesser(a.origin.y, b.origin.y)
            &&& union.bottom_right_spec().x == greater(
                a.bottom_right_spec().x,
                b.bottom_right_spec().x,
            )
            &&& union.bottom_right_spec().y == greater(
                a.bottom_right_spec().y,
                b.bottom_right_spec().y,
            )
        }),
{
    lemma_span_is_exact(
        lesser(a.origin.x, b.origin.x),
        greater(a.bottom_right_spec().x, b.bottom_right_spec().x),
    );
    lemma_span_is_exact(
        lesser(a.origin.y, b.origin.y),
        greater(a.bottom_right_spec().y, b.bottom_right_spec().y),
    );
}

/// A union covers both of its parts: it holds every point of either, and
/// whatever overlaps one of them overlaps the union.
pub proof fn lemma_union_covers<N: Scalar>(
    a: Bounds<N>,
    b: Bounds<N>,
    point: Point<N>,
    other: Bounds<N>,
)
    requires
        ordered_numbers::<N>(),
    ensures
        a.contains_spec(point) || b.contains_spec(point) ==> a.union_spec(b).contains_spec(point),
        a.intersects_spec(other) || b.intersects_spec(other) ==> a.union_spec(b).intersects_spec(
            other,
        ),
{
    lemma_union_corners(a, b);
    let (p, q) = (a.bottom_right_spec(), b.bottom_right_spec());
    let union = a.union_spec(b);
    let corner = union.bottom_right_spec();
    let far = other.bottom_right_spec();
    lemma_smaller_and_larger(a.origin.x, b.origin.x);
    lemma_smaller_and_larger(a.origin.y, b.origin.y);
    lemma_smaller_and_larger(p.x, q.x);
    lemma_smaller_and_larger(p.y, q.y);
    lemma_order_chains(union.origin.x, a.origin.x, point.x);
    lemma_order_chains(union.origin.y, a.origin.y, point.y);
    lemma_order_chains(union.origin.x, b.origin.x, point.x);
    lemma_order_chains(union.origin.y, b.origin.y, point.y);
    lemma_order_chains(point.x, p.x, corner.x);
    lemma_order_chains(point.y, p.y, corner.y);
    lemma_order_chains(point.x, q.x, corner.x);
    lemma_order_chains(point.y, q.y, corner.y);
    lemma_order_chains(union.origin.x, a.origin.x, far.x);
    lemma_order_chains(union.origin.y, a.origin.y, far.y);
    lemma_order_chains(union.origin.x, b.origin.x, far.x);
    lemma_order_chains(union.origin.y, b.origin.y, far.y);
    lemma_order_chains(other.origin.x, p.x, corner.x);
    lemma_order_chains(other.origin.y, p.y, corner.y);
    lemma_order_chains(other.origin.x, q.x, corner.x);
    lemma_order_chains(other.origin.y, q.y, corner.y);
}

/// What lies in two rectangles does not depend on their sequence.
pub proof fn lemma_intersect_swaps<N: Scalar>(a: Bounds<N>, b: Bounds<N>)
    requires
        ordered_numbers::<N>(),
    ensures
        a.intersect_spec(b) == b.intersect_spec(a),
{
    let (p, q) = (a.bottom_right_spec(), b.bottom_right_spec());
    lemma_smaller_and_larger(a.origin.x, b.origin.x);
    lemma_smaller_and_larger(a.origin.y, b.origin.y);
    lemma_smaller_and_larger(p.x, q.x);
    lemma_smaller_and_larger(p.y, q.y);
}

proof fn lemma_intersection_corners<N: Scalar>(a: Bounds<N>, b: Bounds<N>)
    requires
        ordered_numbers::<N>(),
    ensures
        ({
            let both = a.intersect_spec(b);
            &&& both.origin.x == greater(a.origin.x, b.origin.x)
            &&& both.origin.y == greater(a.origin.y, b.origin.y)
            &&& both.bottom_right_spec().x == lesser(
                a.bottom_right_spec().x,
                b.bottom_right_spec().x,
            )
            &&& both.bottom_right_spec().y == lesser(
                a.bottom_right_spec().y,
                b.bottom_right_spec().y,
            )
        }),
{
    lemma_span_is_exact(
        greater(a.origin.x, b.origin.x),
        lesser(a.bottom_right_spec().x, b.bottom_right_spec().x),
    );
    lemma_span_is_exact(
        greater(a.origin.y, b.origin.y),
        lesser(a.bottom_right_spec().y, b.bottom_right_spec().y),
    );
}

/// A point lies in an intersection exactly if it lies in both rectangles,
/// wherever differences are exact.
pub proof fn lemma_intersection_is_what_both_hold<N: Scalar>(
    a: Bounds<N>,
    b: Bounds<N>,
    point: Point<N>,
)
    requires
        ordered_numbers::<N>(),
    ensures
        a.intersect_spec(b).contains_spec(point) <==> a.contains_spec(point) && b.contains_spec(
            point,
        ),
        (ContentMask { bounds: a }).intersect_spec(
            ContentMask { bounds: b },
        ).bounds.contains_spec(point) <==> a.contains_spec(point) && b.contains_spec(point),
{
    lemma_intersection_corners(a, b);
    let (p, q) = (a.bottom_right_spec(), b.bottom_right_spec());
    lemma_bounds_of_two(a.origin.x, b.origin.x, point.x);
    lemma_bounds_of_two(a.origin.y, b.origin.y, point.y);
    lemma_bounds_of_two(p.x, q.x, point.x);
    lemma_bounds_of_two(p.y, q.y, point.y);
}

/// What lies within another rectangle is all that lies in both, wherever
/// differences are exact: the intersection has its corners.
pub proof fn lemma_intersection_with_what_is_around<N: Scalar>(inner: Bounds<N>, outer: Bounds<N>)
    requires
        ordered_numbers::<N>(),
        outer.contains_spec(inner.origin),
        outer.contains_spec(inner.bottom_right_spec()),
    ensures
        inner.intersect_spec(outer).origin == inner.origin,
        inner.intersect_spec(outer).bottom_right_spec() == inner.bottom_right_spec(),
        outer.intersect_spec(inner).origin == inner.origin,
        outer.intersect_spec(inner).bottom_right_spec() == inner.bottom_right_spec(),
{
    lemma_intersection_corners(inner, outer);
    lemma_intersection_corners(outer, inner);
    lemma_numbers_in_order(outer.origin.x, inner.origin.x);
    lemma_numbers_in_order(outer.origin.y, inner.origin.y);
    lemma_numbers_in_order(inner.bottom_right_spec().x, outer.bottom_right_spec().x);
    lemma_numbers_in_order(inner.bottom_right_spec().y, outer.bottom_right_spec().y);
}

proof fn lemma_numbers_in_order<N: Scalar>(a: N, b: N)
    requires
        ordered_numbers::<N>(),
        a.at_most_spec(b),
    ensures
        lesser(a, b) == a,
        lesser(b, a) == a,
        greater(a, b) == b,
        greater(b, a) == b,
{
    lemma_smaller_and_larger(a, b);
    lemma_smaller_and_larger_are_the_two(a, b);
    reveal(ordered_numbers);
}

/// A union is the smallest rectangle around both: another rectangle around
/// both holds every point of it, wherever differences are exact.
pub proof fn lemma_union_is_the_smallest<N: Scalar>(
    a: Bounds<N>,
    b: Bounds<N>,
    around: Bounds<N>,
    point: Point<N>,
)
    requires
        ordered_numbers::<N>(),
        around.contains_spec(a.origin),
        around.contains_spec(a.bottom_right_spec()),
        around.contains_spec(b.origin),
        around.contains_spec(b.bottom_right_spec()),
        a.union_spec(b).contains_spec(point),
    ensures
        around.contains_spec(point),
{
    lemma_union_corners(a, b);
    let (p, q, far) = (a.bottom_right_spec(), b.bottom_right_spec(), around.bottom_right_spec());
    let union = a.union_spec(b);
    lemma_bounds_of_two(a.origin.x, b.origin.x, around.origin.x);
    lemma_bounds_of_two(a.origin.y, b.origin.y, around.origin.y);
    lemma_bounds_of_two(p.x, q.x, far.x);
    lemma_bounds_of_two(p.y, q.y, far.y);
    lemma_order_chains(around.origin.x, union.origin.x, point.x);
    lemma_order_chains(around.origin.y, union.origin.y, point.y);
    lemma_order_chains(point.x, union.bottom_right_spec().x, far.x);
    lemma_order_chains(point.y, union.bottom_right_spec().y, far.y);
}

/// A rectangle is empty unless it is wide and high; what touches another
/// rectangle only along an edge does not overlap it; overlap is mutual; and two
/// rectangles that lie the right way round overlap exactly if what they have in
/// common does too, wherever differences are exact.
pub proof fn lemma_overlap<N: Scalar>(a: Bounds<N>, b: Bounds<N>)
    requires
        ordered_numbers::<N>(),
    ensures
        !a.is_empty_spec() <==> N::zero_spec().less_than_spec(a.size.width)
            && N::zero_spec().less_than_spec(a.size.height),
        a.intersects_spec(b) <==> b.intersects_spec(a),
        a.bottom_right_spec().x == b.origin.x || a.bottom_right_spec().y == b.origin.y
            ==> !a.intersects_spec(b),
        a.spans() && b.spans() ==> (a.intersects_spec(b) <==> a.intersect_spec(b).spans()),
{
    lemma_strictness(a.size.width, N::zero_spec());
    lemma_strictness(a.size.height, N::zero_spec());
    lemma_strictness(b.origin.x, b.origin.x);
    lemma_strictness(b.origin.y, b.origin.y);
    lemma_intersection_corners(a, b);
    let (p, q) = (a.bottom_right_spec(), b.bottom_right_spec());
    lemma_bounds_of_two(a.origin.x, b.origin.x, lesser(p.x, q.x));
    lemma_bounds_of_two(a.origin.y, b.origin.y, lesser(p.y, q.y));
    lemma_bounds_of_two(p.x, q.x, a.origin.x);
    lemma_bounds_of_two(p.x, q.x, b.origin.x);
    lemma_bounds_of_two(p.y, q.y, a.origin.y);
    lemma_bounds_of_two(p.y, q.y, b.origin.y);
}

impl<N: Scalar> Bounds<N> {
    /// The upper left corner lies before the lower right one, on both axes.
    pub open spec fn spans(self) -> bool {
        &&& self.origin.x.less_than_spec(self.bottom_right_spec().x)
        &&& self.origin.y.less_than_spec(self.bottom_right_spec().y)
    }
}

proof fn lemma_strictness<N: Scalar>(a: N, b: N)
    requires
        ordered_numbers::<N>(),
    ensures
        b.less_than_spec(a) <==> !a.at_most_spec(b),
        !a.less_than_spec(a),
{
    reveal(ordered_numbers);
    assert(a.at_most_spec(a));
}

/// To move a rectangle is to move its corners and to keep its size; to move it
/// twice is to move it by both offsets at once, and to move it by nothing is to
/// leave it, wherever sums are exact. The rectangle of a mask moves likewise.
pub proof fn lemma_moving_moves_the_corners<N: Scalar>(
    bounds: Bounds<N>,
    offset: Point<N>,
    more: Point<N>,
)
    requires
        commutative_ring::<N>(),
    ensures
        bounds.translated_spec(offset).origin.x == bounds.origin.x.plus_spec(offset.x),
        bounds.translated_spec(offset).origin.y == bounds.origin.y.plus_spec(offset.y),
        bounds.translated_spec(offset).bottom_right_spec().x
            == bounds.bottom_right_spec().x.plus_spec(offset.x),
        bounds.translated_spec(offset).bottom_right_spec().y
            == bounds.bottom_right_spec().y.plus_spec(offset.y),
        bounds.translated_spec(offset).size == bounds.size,
        bounds.translated_spec(offset).translated_spec(more) == bounds.translated_spec(
            more.plus_spec(offset),
        ),
        bounds.translated_spec(Point::zero_spec()) == bounds,
        (ContentMask { bounds }).translated_spec(offset).bounds == bounds.translated_spec(offset),
{
    reveal(commutative_ring);
    let (o, s) = (bounds.origin, bounds.size);
    lemma_sums_regroup(o.x, s.width, offset.x);
    lemma_sums_regroup(o.y, s.height, offset.y);
    lemma_sums_regroup(o.x, offset.x, more.x);
    lemma_sums_regroup(o.y, offset.y, more.y);
}

proof fn lemma_sums_regroup<N: Scalar>(a: N, b: N, c: N)
    requires
        commutative_ring::<N>(),
    ensures
        a.plus_spec(b).plus_spec(c) == a.plus_spec(c).plus_spec(b),
        a.plus_spec(b).plus_spec(c) == a.plus_spec(c.plus_spec(b)),
{
    reveal(commutative_ring);
    assert(a.plus_spec(b).plus_spec(c) == a.plus_spec(b.plus_spec(c)));
    assert(a.plus_spec(c).plus_spec(b) == a.plus_spec(c.plus_spec(b)));
    assert(b.plus_spec(c) == c.plus_spec(b));
}

/// To scale a rectangle is to multiply the coordinates of its corners, wherever
/// sums and products are exact; by one it stays as it is. The rectangle of a
/// mask is scaled likewise.
pub proof fn lemma_scaling_scales_the_corners<N: Scalar>(bounds: Bounds<N>, factor: N)
    requires
        commutative_ring::<N>(),
    ensures
        bounds.scale_spec(factor).origin.x == bounds.origin.x.times_spec(factor),
        bounds.scale_spec(factor).origin.y == bounds.origin.y.times_spec(factor),
        bounds.scale_spec(factor).bottom_right_spec().x
            == bounds.bottom_right_spec().x.times_spec(factor),
        bounds.scale_spec(factor).bottom_right_spec().y
            == bounds.bottom_right_spec().y.times_spec(factor),
        bounds.scale_spec(N::one_spec()) == bounds,
        (ContentMask { bounds }).scale_spec(factor).bounds == bounds.scale_spec(factor),
{
    lemma_products_spread(bounds.origin.x, bounds.size.width, factor);
    lemma_products_spread(bounds.origin.y, bounds.size.height, factor);
    reveal(commutative_ring);
    assert(bounds.scale_spec(N::one_spec()).origin == bounds.origin);
    assert(bounds.scale_spec(N::one_spec()).size == bounds.size);
}

proof fn lemma_products_spread<N: Scalar>(a: N, b: N, factor: N)
    requires
        commutative_ring::<N>(),
    ensures
        a.plus_spec(b).times_spec(factor) == a.times_spec(factor).plus_spec(b.times_spec(factor)),
{
    reveal(commutative_ring);
    assert(a.plus_spec(b).times_spec(factor) == factor.times_spec(a.plus_spec(b)));
    assert(factor.times_spec(a.plus_spec(b)) == factor.times_spec(a).plus_spec(
        factor.times_spec(b),
    ));
    assert(factor.times_spec(a) == a.times_spec(factor));
    assert(factor.times_spec(b) == b.times_spec(factor));
}

/// The coordinates of a point move each on its own, and sums of points do not
/// depend on their sequence, wherever sums are exact.
pub proof fn lemma_points_add_up<N: Scalar>(a: Point<N>, b: Point<N>)
    requires
        commutative_ring::<N>(),
    ensures
        a.plus_spec(b).x == a.x.plus_spec(b.x),
        a.plus_spec(b).y == b.y.plus_spec(a.y),
        a.plus_spec(b) == b.plus_spec(a),
        a.plus_spec(Point::zero_spec()) == a,
        a.scale_spec(N::one_spec()) == a,
        a.scale_spec(N::zero_spec()) == Point::<N>::zero_spec(),
{
    reveal(commutative_ring);
    assert(a.x.plus_spec(b.x) == b.x.plus_spec(a.x));
    assert(a.y.plus_spec(b.y) == b.y.plus_spec(a.y));
}

/// Nothing is zero in every number.
pub proof fn lemma_zero_is_zero<N: Scalar>()
    ensures
        Point::<N>::zero_spec().x == N::zero_spec(),
        Point::<N>::zero_spec().y == N::zero_spec(),
        Size::<N>::zero_spec().width == N::zero_spec(),
        Size::<N>::zero_spec().height == N::zero_spec(),
        Bounds::<N>::zero_spec().origin == Point::<N>::zero_spec(),
        Bounds::<N>::zero_spec().size == Size::<N>::zero_spec(),
        ContentMask::<N>::zero_spec().bounds == Bounds::<N>::zero_spec(),
        Corners::<N>::zero_spec().top_left == N::zero_spec(),
        Corners::<N>::zero_spec().top_right == N::zero_spec(),
        Corners::<N>::zero_spec().bottom_right == N::zero_spec(),
        Corners::<N>::zero_spec().bottom_left == N::zero_spec(),
        Edges::<N>::zero_spec().top == N::zero_spec(),
        Edges::<N>::zero_spec().right == N::zero_spec(),
        Edges::<N>::zero_spec().bottom == N::zero_spec(),
        Edges::<N>::zero_spec().left == N::zero_spec(),
{
}

/// Rectangles and masks compare equal exactly if they are the same, wherever
/// equal numbers are identical.
pub proof fn lemma_same_is_the_same<N: Scalar>(a: Bounds<N>, b: Bounds<N>)
    requires
        commutative_ring::<N>(),
    ensures
        a.same_spec(b) <==> a == b,
        (ContentMask { bounds: a }).same_spec(ContentMask { bounds: b }) <==> a == b,
{
    reveal(commutative_ring);
    assert(a.origin.x.same_spec(b.origin.x) <==> a.origin.x == b.origin.x);
    assert(a.origin.y.same_spec(b.origin.y) <==> a.origin.y == b.origin.y);
    assert(a.size.width.same_spec(b.size.width) <==> a.size.width == b.size.width);
    assert(a.size.height.same_spec(b.size.height) <==> a.size.height == b.size.height);
}

/// A rectangle around two others is around the corners of their union,
/// wherever differences are exact.
pub proof fn lemma_around_the_corners_of_a_union<N: Scalar>(
    a: Bounds<N>,
    b: Bounds<N>,
    around: Bounds<N>,
)
    requires
        ordered_numbers::<N>(),
        around.contains_spec(a.origin),
        around.contains_spec(a.bottom_right_spec()),
        around.contains_spec(b.origin),
        around.contains_spec(b.bottom_right_spec()),
    ensures
        around.contains_spec(a.union_spec(b).origin),
        around.contains_spec(a.union_spec(b).bottom_right_spec()),
{
    lemma_union_corners(a, b);
    let (p, q) = (a.bottom_right_spec(), b.bottom_right_spec());
    lemma_smaller_and_larger_are_the_two(a.origin.x, b.origin.x);
    lemma_smaller_and_larger_are_the_two(a.origin.y, b.origin.y);
    lemma_smaller_and_larger_are_the_two(p.x, q.x);
    lemma_smaller_and_larger_are_the_two(p.y, q.y);
}

} // verus!
