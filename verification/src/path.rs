//! Filled paths.

use crate::bounds_tree::DrawOrder;
use crate::color::Background;
use crate::geometry::{
    lemma_around_the_corners_of_a_union, lemma_moving_moves_the_corners, lemma_union_covers,
    lemma_union_is_the_smallest, Bounds, ContentMask, Point, Size,
};
use crate::number::{
    commutative_ring, lemma_smaller_and_larger, lemma_span_is_exact, moves_in_order,
    ordered_numbers, Scalar,
};
use vstd::prelude::*;

verus! {

/// The position of a path in its scene's list of paths.
#[derive(Clone, Copy, Debug, PartialEq, Eq, Hash, Structural)]
pub struct PathId(pub usize);

/// A corner of one of the triangles that a path consists of.
#[derive(Clone, Copy, Debug)]
pub struct PathVertex<N> {
    pub xy_position: Point<N>,
    pub st_position: Point<N>,
    pub content_mask: ContentMask<N>,
}

impl<N: Scalar> PathVertex<N> {
    pub open spec fn scale_spec(self, factor: N) -> Self {
        PathVertex {
            xy_position: self.xy_position.scale_spec(factor),
            st_position: self.st_position,
            content_mask: self.content_mask.scale_spec(factor),
        }
    }

    /// Scales position and mask by the given factor.
    pub fn scale(&self, factor: N) -> (r: PathVertex<N>)
        ensures
            r == self.scale_spec(factor),
    {
        PathVertex {
            xy_position: self.xy_position.scale(factor),
            st_position: self.st_position,
            content_mask: self.content_mask.scale(factor),
        }
    }
}

/// A line made up of a series of vertices and control points.
#[derive(Debug)]
pub struct Path<N> {
    pub id: PathId,
    pub order: DrawOrder,
    pub bounds: Bounds<N>,
    pub content_mask: ContentMask<N>,
    pub vertices: Vec<PathVertex<N>>,
    pub color: Background<N>,
    pub start: Point<N>,
    pub current: Point<N>,
    pub contour_count: usize,
}

/// What a [`Path`] is.
#[verifier::ext_equal]
pub struct PathModel<N> {
    pub id: PathId,
    pub order: DrawOrder,
    pub bounds: Bounds<N>,
    pub content_mask: ContentMask<N>,
    pub vertices: Seq<PathVertex<N>>,
    pub color: Background<N>,
    pub start: Point<N>,
    pub current: Point<N>,
    pub contour_count: usize,
}

impl<N> View for Path<N> {
    type V = PathModel<N>;

    open spec fn view(&self) -> PathModel<N> {
        PathModel {
            id: self.id,
            order: self.order,
            bounds: self.bounds,
            content_mask: self.content_mask,
            vertices: self.vertices@,
            color: self.color,
            start: self.start,
            current: self.current,
            contour_count: self.contour_count,
        }
    }
}

/// The bounds of a single point.
pub open spec fn point_bounds<N: Scalar>(at: Point<N>) -> Bounds<N> {
    Bounds { origin: at, size: Size::zero_spec() }
}

/// The texture coordinates of a triangle with straight edges.
pub open spec fn straight_st<N: Scalar>() -> (Point<N>, Point<N>, Point<N>) {
    let st = Point { x: N::zero_spec(), y: N::one_spec() };
    (st, st, st)
}

/// The texture coordinates of a triangle under a curve.
pub open spec fn curve_st<N: Scalar>() -> (Point<N>, Point<N>, Point<N>) {
    (
        Point { x: N::zero_spec(), y: N::zero_spec() },
        Point { x: N::half_spec(), y: N::zero_spec() },
        Point { x: N::one_spec(), y: N::one_spec() },
    )
}

impl<N: Scalar> PathModel<N> {
    /// The path that has been nowhere but at `start`.
    pub open spec fn started(start: Point<N>) -> Self {
        PathModel {
            id: PathId(0),
            order: 0,
            bounds: point_bounds(start),
            content_mask: ContentMask::zero_spec(),
            vertices: Seq::empty(),
            color: Background::zero_spec(),
            start,
            current: start,
            contour_count: 0,
        }
    }

    /// This path with one more triangle: its bounds grow to hold it.
    pub open spec fn with_triangle(
        self,
        xy: (Point<N>, Point<N>, Point<N>),
        st: (Point<N>, Point<N>, Point<N>),
    ) -> Self {
        let mask = ContentMask::zero_spec();
        PathModel {
            bounds: self.bounds.union_spec(point_bounds(xy.0)).union_spec(
                point_bounds(xy.1),
            ).union_spec(point_bounds(xy.2)),
            vertices: self.vertices.push(
                PathVertex { xy_position: xy.0, st_position: st.0, content_mask: mask },
            ).push(
                PathVertex { xy_position: xy.1, st_position: st.1, content_mask: mask },
            ).push(PathVertex { xy_position: xy.2, st_position: st.2, content_mask: mask }),
            ..self
        }
    }

    /// This path after it went to `to` without drawing: a new contour starts.
    pub open spec fn with_move(self, to: Point<N>) -> Self {
        PathModel {
            contour_count: (self.contour_count + 1) as usize,
            start: to,
            current: to,
            ..self
        }
    }

    /// This path after a straight line to `to`. The first line or curve of a
    /// path that was not moved before encloses nothing yet.
    pub open spec fn with_line(self, to: Point<N>) -> Self {
        let drawn = if self.contour_count == 0 {
            self
        } else {
            self.with_triangle((self.start, self.current, to), straight_st())
        };
        PathModel { contour_count: (self.contour_count + 1) as usize, current: to, ..drawn }
    }

    /// This path after a curve to `to` with the control point `ctrl`.
    pub open spec fn with_curve(self, to: Point<N>, ctrl: Point<N>) -> Self {
        let line = self.with_line(to);
        PathModel {
            current: to,
            ..line.with_triangle((self.current, ctrl, to), curve_st())
        }
    }

    pub open spec fn scale_spec(self, factor: N) -> Self {
        PathModel {
            bounds: self.bounds.scale_spec(factor),
            content_mask: self.content_mask.scale_spec(factor),
            vertices: self.vertices.map_values(|v: PathVertex<N>| v.scale_spec(factor)),
            start: self.start.scale_spec(factor),
            current: self.current.scale_spec(factor),
            ..self
        }
    }

    /// This path clipped by `mask`; its vertices carry the mask too.
    pub open spec fn with_mask(self, mask: ContentMask<N>) -> Self {
        PathModel {
            content_mask: mask,
            vertices: self.vertices.map_values(
                |v: PathVertex<N>| PathVertex { content_mask: mask, ..v },
            ),
            ..self
        }
    }

    /// This path moved by `offset`; the mask stays.
    pub open spec fn translated(self, offset: Point<N>) -> Self {
        PathModel {
            bounds: self.bounds.translated_spec(offset),
            start: self.start.plus_spec(offset),
            current: self.current.plus_spec(offset),
            vertices: self.vertices.map_values(
                |v: PathVertex<N>| PathVertex { xy_position: v.xy_position.plus_spec(offset), ..v },
            ),
            ..self
        }
    }
}

impl<N: Scalar> Path<N> {
    /// Create a new path with the given starting point.
    pub fn new(start: Point<N>) -> (r: Self)
        ensures
            r@ == PathModel::started(start),
    {
        Path {
            id: PathId(0),
            order: 0,
            vertices: Vec::new(),
            start,
            current: start,
            bounds: Bounds { origin: start, size: Size::zero() },
            content_mask: ContentMask::zero(),
            color: Background::zero(),
            contour_count: 0,
        }
    }

    /// Scale this path by the given factor.
    pub fn scale(&self, factor: N) -> (r: Path<N>)
        ensures
            r@ == self@.scale_spec(factor),
    {
        let mut vertices: Vec<PathVertex<N>> = Vec::new();
        let mut i: usize = 0;
        while i < self.vertices.len()
            invariant
                i <= self.vertices@.len(),
                vertices@ =~= self.vertices@.take(i as int).map_values(
                    |v: PathVertex<N>| v.scale_spec(factor),
                ),
            decreases self.vertices@.len() - i,
        {
            vertices.push(self.vertices[i].scale(factor));
            i = i + 1;
        }
        assert(self.vertices@.take(i as int) =~= self.vertices@);
        Path {
            id: self.id,
            order: self.order,
            bounds: self.bounds.scale(factor),
            content_mask: self.content_mask.scale(factor),
            vertices,
            start: self.start.scale(factor),
            current: self.current.scale(factor),
            contour_count: self.contour_count,
            color: self.color,
        }
    }

    /// Move the start, current point to the given point.
    pub fn move_to(&mut self, to: Point<N>)
        requires
            old(self).contour_count < usize::MAX,
        ensures
            final(self)@ == (PathModel {
                contour_count: (old(self).contour_count + 1) as usize,
                start: to,
                current: to,
                ..old(self)@
            }),
            final(self)@ == old(self)@.with_move(to),
    {
        self.contour_count = self.contour_count + 1;
        self.start = to;
        self.current = to;
    }

    /// Draw a straight line from the current point to the given point.
    pub fn line_to(&mut self, to: Point<N>)
        requires
            old(self).contour_count < usize::MAX,
        ensures
            final(self)@ == old(self)@.with_line(to),
    {
        self.contour_count = self.contour_count + 1;
        if self.contour_count > 1 {
            let st = Point { x: N::zero(), y: N::one() };
            self.push_triangle((self.start, self.current, to), (st, st, st));
        }
        self.current = to;
        assert(self@ =~= old(self)@.with_line(to));
    }

    /// Draw a curve from the current point to the given point, using the given control point.
    pub fn curve_to(&mut self, to: Point<N>, ctrl: Point<N>)
        requires
            old(self).contour_count < usize::MAX,
        ensures
            final(self)@ == old(self)@.with_curve(to, ctrl),
    {
        self.contour_count = self.contour_count + 1;
        if self.contour_count > 1 {
            let st = Point { x: N::zero(), y: N::one() };
            self.push_triangle((self.start, self.current, to), (st, st, st));
        }
        self.push_triangle(
            (self.current, ctrl, to),
            (
                Point { x: N::zero(), y: N::zero() },
                Point { x: N::half(), y: N::zero() },
                Point { x: N::one(), y: N::one() },
            ),
        );
        self.current = to;
        assert(self@ =~= old(self)@.with_curve(to, ctrl));
    }

    /// Push a triangle to the Path.
    pub fn push_triangle(
        &mut self,
        xy: (Point<N>, Point<N>, Point<N>),
        st: (Point<N>, Point<N>, Point<N>),
    )
        ensures
            final(self)@ == old(self)@.with_triangle(xy, st),
    {
        self.bounds = self.bounds.union(&Bounds { origin: xy.0, size: Size::zero() }).union(
            &Bounds { origin: xy.1, size: Size::zero() },
        ).union(&Bounds { origin: xy.2, size: Size::zero() });
        self.vertices.push(
            PathVertex {
                xy_position: xy.0,
                st_position: st.0,
                content_mask: ContentMask::zero(),
            },
        );
        self.vertices.push(
            PathVertex {
                xy_position: xy.1,
                st_position: st.1,
                content_mask: ContentMask::zero(),
            },
        );
        self.vertices.push(
            PathVertex {
                xy_position: xy.2,
                st_position: st.2,
                content_mask: ContentMask::zero(),
            },
        );
    }

    /// The part of the bounds that the mask shows.
    pub fn clipped_bounds(&self) -> (r: Bounds<N>)
        ensures
            r == self.bounds.intersect_spec(self.content_mask.bounds),
    {
        self.bounds.intersect(&self.content_mask.bounds)
    }

    /// Clips the path and each of its vertices by `mask`.
    pub fn set_content_mask(&mut self, mask: ContentMask<N>)
        ensures
            final(self)@ == old(self)@.with_mask(mask),
    {
        self.content_mask = mask;
        let mut i: usize = 0;
        while i < self.vertices.len()
            invariant
                i <= self.vertices@.len(),
                self.vertices@.len() == old(self).vertices@.len(),
                self.content_mask == mask,
                self@ == (PathModel {
                    content_mask: mask,
                    vertices: self.vertices@,
                    ..old(self)@
                }),
                forall|k: int|
                    0 <= k < i ==> self.vertices@[k] == (PathVertex {
                        content_mask: mask,
                        ..old(self).vertices@[k]
                    }),
                forall|k: int|
                    i <= k < self.vertices@.len() ==> self.vertices@[k] == old(self).vertices@[k],
            decreases self.vertices@.len() - i,
        {
            let vertex = self.vertices[i];
            self.vertices[i] = PathVertex {
                xy_position: vertex.xy_position,
                st_position: vertex.st_position,
                content_mask: mask,
            };
            i = i + 1;
        }
        assert(self@ =~= old(self)@.with_mask(mask));
    }

    /// Moves the path by `offset` (the mask is set separately).
    pub fn translate(&mut self, offset: Point<N>)
        ensures
            final(self)@ == old(self)@.translated(offset),
    {
        self.bounds = self.bounds.translated(offset);
        self.start = self.start.plus(offset);
        self.current = self.current.plus(offset);
        let mut i: usize = 0;
        while i < self.vertices.len()
            invariant
                i <= self.vertices@.len(),
                self.vertices@.len() == old(self).vertices@.len(),
                self@ == (PathModel {
                    bounds: old(self).bounds.translated_spec(offset),
                    start: old(self).start.plus_spec(offset),
                    current: old(self).current.plus_spec(offset),
                    vertices: self.vertices@,
                    ..old(self)@
                }),
                forall|k: int|
                    0 <= k < i ==> self.vertices@[k] == (PathVertex {
                        xy_position: old(self).vertices@[k].xy_position.plus_spec(offset),
                        ..old(self).vertices@[k]
                    }),
                forall|k: int|
                    i <= k < self.vertices@.len() ==> self.vertices@[k] == old(self).vertices@[k],
            decreases self.vertices@.len() - i,
        {
            let vertex = self.vertices[i];
            self.vertices[i] = PathVertex {
                xy_position: vertex.xy_position.plus(offset),
                st_position: vertex.st_position,
                content_mask: vertex.content_mask,
            };
            i = i + 1;
        }
        assert(self@ =~= old(self)@.translated(offset));
    }
}

impl<N: Scalar> Clone for Path<N> {
    fn clone(&self) -> (r: Self)
        ensures
            r@ == self@,
    {
        let mut vertices: Vec<PathVertex<N>> = Vec::new();
        let mut i: usize = 0;
        while i < self.vertices.len()
            invariant
                i <= self.vertices@.len(),
                vertices@ =~= self.vertices@.take(i as int),
            decreases self.vertices@.len() - i,
        {
            vertices.push(self.vertices[i]);
            i = i + 1;
        }
        assert(vertices@ =~= self.vertices@);
        Path {
            id: self.id,
            order: self.order,
            bounds: self.bounds,
            content_mask: self.content_mask,
            vertices,
            start: self.start,
            current: self.current,
            contour_count: self.contour_count,
            color: self.color,
        }
    }
}

impl<N: Scalar> PathModel<N> {
    /// The vertices make up triangles, and the bounds hold all of them.
    pub open spec fn encloses_its_triangles(self) -> bool {
        &&& self.vertices.len() % 3 == 0
        &&& forall|i: int|
            0 <= i < self.vertices.len() ==> self.bounds.contains_spec(
                (#[trigger] self.vertices[i]).xy_position,
            )
    }
}

proof fn lemma_triangle_is_enclosed<N: Scalar>(
    path: PathModel<N>,
    xy: (Point<N>, Point<N>, Point<N>),
    st: (Point<N>, Point<N>, Point<N>),
)
    requires
        ordered_numbers::<N>(),
        path.encloses_its_triangles(),
    ensures
        path.with_triangle(xy, st).encloses_its_triangles(),
{
    let after = path.with_triangle(xy, st);
    let (p, q, r) = (point_bounds(xy.0), point_bounds(xy.1), point_bounds(xy.2));
    let one = path.bounds.union_spec(p);
    let two = one.union_spec(q);
    lemma_point_bounds(xy.0);
    lemma_point_bounds(xy.1);
    lemma_point_bounds(xy.2);
    lemma_union_covers(path.bounds, p, xy.0, p);
    lemma_union_covers(one, q, xy.0, p);
    lemma_union_covers(two, r, xy.0, p);
    lemma_union_covers(one, q, xy.1, p);
    lemma_union_covers(two, r, xy.1, p);
    lemma_union_covers(two, r, xy.2, p);
    assert forall|i: int| 0 <= i < after.vertices.len() implies after.bounds.contains_spec(
        (#[trigger] after.vertices[i]).xy_position,
    ) by {
        if i < path.vertices.len() {
            let at = path.vertices[i].xy_position;
            assert(after.vertices[i] == path.vertices[i]);
            lemma_union_covers(path.bounds, p, at, p);
            lemma_union_covers(one, q, at, p);
            lemma_union_covers(two, r, at, p);
        }
    }
}

proof fn lemma_point_bounds<N: Scalar>(at: Point<N>)
    requires
        ordered_numbers::<N>(),
    ensures
        point_bounds(at).contains_spec(at),
{
    lemma_span_is_exact(at.x, at.x);
    lemma_span_is_exact(at.y, at.y);
    lemma_smaller_and_larger(at.x, at.x);
    lemma_smaller_and_larger(at.y, at.y);
}

/// However a path is drawn, it consists of triangles that lie within its
/// bounds, wherever differences are exact.
pub proof fn lemma_path_encloses_its_triangles<N: Scalar>(
    path: PathModel<N>,
    start: Point<N>,
    to: Point<N>,
    ctrl: Point<N>,
)
    requires
        ordered_numbers::<N>(),
        path.encloses_its_triangles(),
    ensures
        PathModel::started(start).encloses_its_triangles(),
        (PathModel { start: to, current: to, ..path }).encloses_its_triangles(),
        path.with_line(to).encloses_its_triangles(),
        path.with_curve(to, ctrl).encloses_its_triangles(),
{
    lemma_triangle_is_enclosed(path, (path.start, path.current, to), straight_st());
    lemma_triangle_is_enclosed(path.with_line(to), (path.current, ctrl, to), curve_st());
}

/// A moved path has as many vertices as before, each of them moved by the
/// offset with its texture coordinates and its mask kept; its start, its
/// current point and its bounds move along, and nothing else changes.
pub proof fn lemma_moving_moves_every_vertex<N: Scalar>(path: PathModel<N>, offset: Point<N>)
    ensures
        ({
            let moved = path.translated(offset);
            &&& moved.vertices.len() == path.vertices.len()
            &&& forall|i: int|
                #![trigger moved.vertices[i]]
                #![trigger path.vertices[i]]
                0 <= i < path.vertices.len() ==> {
                    let (from, to) = (path.vertices[i], moved.vertices[i]);
                    &&& to.xy_position.x == from.xy_position.x.plus_spec(offset.x)
                    &&& to.xy_position.y == from.xy_position.y.plus_spec(offset.y)
                    &&& to.st_position == from.st_position
                    &&& to.content_mask == from.content_mask
                }
            &&& moved.start.x == path.start.x.plus_spec(offset.x)
            &&& moved.start.y == path.start.y.plus_spec(offset.y)
            &&& moved.current.x == path.current.x.plus_spec(offset.x)
            &&& moved.current.y == path.current.y.plus_spec(offset.y)
            &&& moved.bounds.origin.x == path.bounds.origin.x.plus_spec(offset.x)
            &&& moved.bounds.origin.y == path.bounds.origin.y.plus_spec(offset.y)
            &&& moved.bounds.size == path.bounds.size
            &&& moved.content_mask == path.content_mask
            &&& moved.color == path.color
            &&& moved.id == path.id
            &&& moved.order == path.order
            &&& moved.contour_count == path.contour_count
        }),
{
}

/// A path that encloses its triangles still does once it is moved, wherever
/// sums are exact and keep the order of what lies in its bounds.
pub proof fn lemma_moved_path_encloses_its_triangles<N: Scalar>(
    path: PathModel<N>,
    offset: Point<N>,
)
    requires
        ordered_numbers::<N>(),
        commutative_ring::<N>(),
        moves_in_order(path.bounds.origin.x, path.bounds.bottom_right_spec().x, offset.x),
        moves_in_order(path.bounds.origin.y, path.bounds.bottom_right_spec().y, offset.y),
        path.encloses_its_triangles(),
    ensures
        path.translated(offset).encloses_its_triangles(),
{
    let moved = path.translated(offset);
    let (near, far) = (path.bounds.origin, path.bounds.bottom_right_spec());
    lemma_moving_moves_the_corners(path.bounds, offset, offset);
    assert forall|i: int| 0 <= i < moved.vertices.len() implies moved.bounds.contains_spec(
        (#[trigger] moved.vertices[i]).xy_position,
    ) by {
        let at = path.vertices[i].xy_position;
        assert(path.bounds.contains_spec(at));
        lemma_smaller_and_larger(near.x, near.x);
        lemma_smaller_and_larger(near.y, near.y);
        lemma_smaller_and_larger(far.x, far.x);
        lemma_smaller_and_larger(far.y, far.y);
        assert(near.x.plus_spec(offset.x).at_most_spec(at.x.plus_spec(offset.x)));
        assert(near.y.plus_spec(offset.y).at_most_spec(at.y.plus_spec(offset.y)));
        assert(at.x.plus_spec(offset.x).at_most_spec(far.x.plus_spec(offset.x)));
        assert(at.y.plus_spec(offset.y).at_most_spec(far.y.plus_spec(offset.y)));
    }
}

/// `vertices` end with a triangle of the given corners and texture
/// coordinates, from `at` on, whose mask shows nothing yet.
pub open spec fn ends_with_triangle<N: Scalar>(
    vertices: Seq<PathVertex<N>>,
    at: int,
    xy: (Point<N>, Point<N>, Point<N>),
    st: (Point<N>, Point<N>, Point<N>),
) -> bool {
    let nothing = ContentMask {
        bounds: Bounds {
            origin: Point { x: N::zero_spec(), y: N::zero_spec() },
            size: Size { width: N::zero_spec(), height: N::zero_spec() },
        },
    };
    &&& vertices[at].xy_position == xy.0
    &&& vertices[at + 1].xy_position == xy.1
    &&& vertices[at + 2].xy_position == xy.2
    &&& vertices[at].st_position == st.0
    &&& vertices[at + 1].st_position == st.1
    &&& vertices[at + 2].st_position == st.2
    &&& vertices[at].content_mask == nothing
    &&& vertices[at + 1].content_mask == nothing
    &&& vertices[at + 2].content_mask == nothing
}

/// A path after a line or a curve goes on from where it leads to, in the same
/// contour, and looks the same; its first vertices are those from before.
pub open spec fn goes_on<N: Scalar>(path: PathModel<N>, after: PathModel<N>, to: Point<N>) -> bool {
    &&& after.current == to
    &&& after.start == path.start
    &&& after.contour_count == path.contour_count + 1
    &&& after.id == path.id
    &&& after.order == path.order
    &&& after.content_mask == path.content_mask
    &&& after.color == path.color
    &&& after.vertices.len() >= path.vertices.len()
    &&& forall|i: int|
        0 <= i < path.vertices.len() ==> #[trigger] after.vertices[i] == path.vertices[i]
}

/// A line to a point, from a path that has begun a contour, appends exactly the
/// triangle of the contour's start, the point that the path was at, and the
/// target; the first line of a path appends nothing. The triangle lies fully
/// within the fill.
pub proof fn lemma_a_line_fills_to_the_start<N: Scalar>(path: PathModel<N>, to: Point<N>)
    requires
        path.contour_count < usize::MAX,
    ensures
        ({
            let after = path.with_line(to);
            let inside = Point { x: N::zero_spec(), y: N::one_spec() };
            &&& goes_on(path, after, to)
            &&& path.contour_count == 0 ==> {
                &&& after.vertices.len() == path.vertices.len()
                &&& after.bounds == path.bounds
            }
            &&& path.contour_count > 0 ==> {
                &&& after.vertices.len() == path.vertices.len() + 3
                &&& ends_with_triangle(
                    after.vertices,
                    path.vertices.len() as int,
                    (path.start, path.current, to),
                    (inside, inside, inside),
                )
            }
        }),
{
}

/// A curve appends what a line to its target would, and then the triangle of
/// the point that the path was at, the control point and the target, with the
/// texture coordinates of the curve's fill.
pub proof fn lemma_a_curve_fills_to_the_start_and_the_control<N: Scalar>(
    path: PathModel<N>,
    to: Point<N>,
    ctrl: Point<N>,
)
    requires
        path.contour_count < usize::MAX,
    ensures
        ({
            let after = path.with_curve(to, ctrl);
            let inside = Point { x: N::zero_spec(), y: N::one_spec() };
            let curved = (
                Point { x: N::zero_spec(), y: N::zero_spec() },
                Point { x: N::half_spec(), y: N::zero_spec() },
                Point { x: N::one_spec(), y: N::one_spec() },
            );
            let len = path.vertices.len() as int;
            &&& goes_on(path, after, to)
            &&& path.contour_count == 0 ==> {
                &&& after.vertices.len() == len + 3
                &&& ends_with_triangle(after.vertices, len, (path.current, ctrl, to), curved)
            }
            &&& path.contour_count > 0 ==> {
                &&& after.vertices.len() == len + 6
                &&& ends_with_triangle(
                    after.vertices,
                    len,
                    (path.start, path.current, to),
                    (inside, inside, inside),
                )
                &&& ends_with_triangle(after.vertices, len + 3, (path.current, ctrl, to), curved)
            }
        }),
{
}

/// A triangle is appended corner by corner, and nothing else changes but the
/// bounds, which become the smallest ones that hold it as well as what they
/// held, wherever differences are exact.
pub proof fn lemma_a_triangle_is_added<N: Scalar>(
    path: PathModel<N>,
    xy: (Point<N>, Point<N>, Point<N>),
    st: (Point<N>, Point<N>, Point<N>),
    around: Bounds<N>,
    point: Point<N>,
)
    requires
        ordered_numbers::<N>(),
    ensures
        ({
            let after = path.with_triangle(xy, st);
            &&& after == (PathModel { vertices: after.vertices, bounds: after.bounds, ..path })
            &&& after.vertices.len() == path.vertices.len() + 3
            &&& after.vertices.take(path.vertices.len() as int) == path.vertices
            &&& ends_with_triangle(after.vertices, path.vertices.len() as int, xy, st)
            &&& path.bounds.contains_spec(point) ==> after.bounds.contains_spec(point)
            &&& after.bounds.contains_spec(xy.0)
            &&& after.bounds.contains_spec(xy.1)
            &&& after.bounds.contains_spec(xy.2)
            &&& {
                &&& around.contains_spec(path.bounds.origin)
                &&& around.contains_spec(path.bounds.bottom_right_spec())
                &&& around.contains_spec(xy.0)
                &&& around.contains_spec(xy.1)
                &&& around.contains_spec(xy.2)
                &&& after.bounds.contains_spec(point)
            } ==> around.contains_spec(point)
        }),
{
    let after = path.with_triangle(xy, st);
    assert(after.vertices.take(path.vertices.len() as int) =~= path.vertices);
    let (p, q, r) = (point_bounds(xy.0), point_bounds(xy.1), point_bounds(xy.2));
    let one = path.bounds.union_spec(p);
    let two = one.union_spec(q);
    lemma_point_bounds(xy.0);
    lemma_point_bounds(xy.1);
    lemma_point_bounds(xy.2);
    lemma_point_corners(xy.0);
    lemma_point_corners(xy.1);
    lemma_point_corners(xy.2);
    lemma_union_covers(path.bounds, p, point, p);
    lemma_union_covers(one, q, point, p);
    lemma_union_covers(two, r, point, p);
    lemma_union_covers(path.bounds, p, xy.0, p);
    lemma_union_covers(one, q, xy.0, p);
    lemma_union_covers(two, r, xy.0, p);
    lemma_union_covers(one, q, xy.1, p);
    lemma_union_covers(two, r, xy.1, p);
    lemma_union_covers(two, r, xy.2, p);
    if {
        &&& around.contains_spec(path.bounds.origin)
        &&& around.contains_spec(path.bounds.bottom_right_spec())
        &&& around.contains_spec(xy.0)
        &&& around.contains_spec(xy.1)
        &&& around.contains_spec(xy.2)
        &&& after.bounds.contains_spec(point)
    } {
        lemma_around_the_corners_of_a_union(path.bounds, p, around);
        lemma_around_the_corners_of_a_union(one, q, around);
        lemma_union_is_the_smallest(two, r, around, point);
    }
}

proof fn lemma_point_corners<N: Scalar>(at: Point<N>)
    requires
        ordered_numbers::<N>(),
    ensures
        point_bounds(at).origin == at,
        point_bounds(at).bottom_right_spec() == at,
{
    lemma_span_is_exact(at.x, at.x);
    lemma_span_is_exact(at.y, at.y);
}

/// The bounds of a path that is drawn on grow to hold the line or the curve, and
/// no further, wherever differences are exact.
pub proof fn lemma_bounds_grow_with_the_path<N: Scalar>(
    path: PathModel<N>,
    to: Point<N>,
    ctrl: Point<N>,
    around: Bounds<N>,
    point: Point<N>,
)
    requires
        ordered_numbers::<N>(),
        path.contour_count > 0,
    ensures
        ({
            let (line, curve) = (path.with_line(to).bounds, path.with_curve(to, ctrl).bounds);
            let held = {
                &&& around.contains_spec(path.bounds.origin)
                &&& around.contains_spec(path.bounds.bottom_right_spec())
                &&& around.contains_spec(path.start)
                &&& around.contains_spec(path.current)
                &&& around.contains_spec(to)
            };
            &&& path.bounds.contains_spec(point) ==> line.contains_spec(point)
            &&& line.contains_spec(point) ==> curve.contains_spec(point)
            &&& line.contains_spec(path.start)
            &&& line.contains_spec(path.current)
            &&& line.contains_spec(to)
            &&& curve.contains_spec(ctrl)
            &&& held && line.contains_spec(point) ==> around.contains_spec(point)
        }),
{
    lemma_a_triangle_is_added(path, (path.start, path.current, to), straight_st(), around, point);
    lemma_a_triangle_is_added(
        path.with_line(to),
        (path.current, ctrl, to),
        curve_st(),
        around,
        point,
    );
}

/// A path that was just started is a point: it has no triangles, and its start,
/// its current point and both corners of its bounds are that point.
pub proof fn lemma_a_started_path_is_a_point<N: Scalar>(start: Point<N>)
    ensures
        PathModel::started(start).vertices.len() == 0,
        PathModel::started(start).start == start,
        PathModel::started(start).current == start,
        PathModel::started(start).bounds.origin == start,
        PathModel::started(start).bounds.size.width == N::zero_spec(),
        PathModel::started(start).bounds.size.height == N::zero_spec(),
        PathModel::started(start).contour_count == 0,
        PathModel::started(start).order == 0,
        PathModel::started(start).content_mask == ContentMask::<N>::zero_spec(),
        PathModel::started(start).color == Background::<N>::zero_spec(),
{
}

/// A scaled path has as many vertices as before, each at its scaled position
/// with its texture coordinates kept; masks, bounds, start and current point
/// are scaled along, and nothing else changes.
pub proof fn lemma_scaling_scales_every_vertex<N: Scalar>(path: PathModel<N>, factor: N)
    ensures
        ({
            let scaled = path.scale_spec(factor);
            &&& scaled.vertices.len() == path.vertices.len()
            &&& forall|i: int|
                #![trigger scaled.vertices[i]]
                #![trigger path.vertices[i]]
                0 <= i < path.vertices.len() ==> {
                    let (from, to) = (path.vertices[i], scaled.vertices[i]);
                    &&& to.xy_position.x == from.xy_position.x.times_spec(factor)
                    &&& to.xy_position.y == from.xy_position.y.times_spec(factor)
                    &&& to.st_position == from.st_position
                    &&& to.content_mask.bounds == from.content_mask.bounds.scale_spec(factor)
                }
            &&& scaled.start.x == path.start.x.times_spec(factor)
            &&& scaled.start.y == path.start.y.times_spec(factor)
            &&& scaled.current.x == path.current.x.times_spec(factor)
            &&& scaled.current.y == path.current.y.times_spec(factor)
            &&& scaled.bounds == path.bounds.scale_spec(factor)
            &&& scaled.content_mask.bounds == path.content_mask.bounds.scale_spec(factor)
            &&& scaled.color == path.color
            &&& scaled.id == path.id
            &&& scaled.order == path.order
            &&& scaled.contour_count == path.contour_count
        }),
{
}

/// It does not matter whether a path is moved before it is drawn on or after,
/// nor, wherever products are exact, whether it is scaled before or after.
pub proof fn lemma_drawing_and_moving_change_places<N: Scalar>(
    path: PathModel<N>,
    offset: Point<N>,
    factor: N,
    to: Point<N>,
    ctrl: Point<N>,
)
    ensures
        path.translated(offset).with_line(to.plus_spec(offset)).vertices == path.with_line(
            to,
        ).translated(offset).vertices,
        path.translated(offset).with_curve(
            to.plus_spec(offset),
            ctrl.plus_spec(offset),
        ).vertices == path.with_curve(to, ctrl).translated(offset).vertices,
        commutative_ring::<N>() ==> path.scale_spec(factor).with_line(
            to.scale_spec(factor),
        ).vertices == path.with_line(to).scale_spec(factor).vertices,
        commutative_ring::<N>() ==> path.scale_spec(factor).with_curve(
            to.scale_spec(factor),
            ctrl.scale_spec(factor),
        ).vertices == path.with_curve(to, ctrl).scale_spec(factor).vertices,
{
    assert(path.translated(offset).with_line(to.plus_spec(offset)).vertices =~= path.with_line(
        to,
    ).translated(offset).vertices);
    assert(path.translated(offset).with_curve(
        to.plus_spec(offset),
        ctrl.plus_spec(offset),
    ).vertices =~= path.with_curve(to, ctrl).translated(offset).vertices);
    if commutative_ring::<N>() {
        assert(ContentMask::<N>::zero_spec().scale_spec(factor) == ContentMask::<N>::zero_spec())
            by {
            reveal(commutative_ring);
            assert(N::zero_spec().times_spec(factor) == factor.times_spec(N::zero_spec()));
        }
        assert(path.scale_spec(factor).with_line(to.scale_spec(factor)).vertices
            =~= path.with_line(to).scale_spec(factor).vertices);
        assert(path.scale_spec(factor).with_curve(
            to.scale_spec(factor),
            ctrl.scale_spec(factor),
        ).vertices =~= path.with_curve(to, ctrl).scale_spec(factor).vertices);
    }
}

/// A clipped path carries the mask, and so does each of its vertices, which
/// stay where they are; nothing else changes, and another mask takes the place
/// of the first.
pub proof fn lemma_a_mask_clips_every_vertex<N: Scalar>(
    path: PathModel<N>,
    mask: ContentMask<N>,
    other: ContentMask<N>,
)
    ensures
        ({
            let clipped = path.with_mask(mask);
            &&& clipped.content_mask == mask
            &&& clipped.vertices.len() == path.vertices.len()
            &&& forall|i: int|
                #![trigger clipped.vertices[i]]
                #![trigger path.vertices[i]]
                0 <= i < path.vertices.len() ==> {
                    &&& clipped.vertices[i].content_mask == mask
                    &&& clipped.vertices[i].xy_position == path.vertices[i].xy_position
                    &&& clipped.vertices[i].st_position == path.vertices[i].st_position
                }
            &&& clipped.bounds == path.bounds
            &&& clipped.start == path.start
            &&& clipped.current == path.current
            &&& clipped.color == path.color
            &&& clipped.id == path.id
            &&& clipped.order == path.order
            &&& clipped.contour_count == path.contour_count
            &&& clipped.with_mask(other) == path.with_mask(other)
        }),
{
    assert(path.with_mask(mask).with_mask(other) =~= path.with_mask(other));
}

/// To move a path on draws nothing: what was drawn and its bounds stay, and a
/// line from there encloses a triangle with the point that was moved to.
pub proof fn lemma_moving_on_starts_a_contour<N: Scalar>(
    path: PathModel<N>,
    at: Point<N>,
    corner: Point<N>,
    to: Point<N>,
)
    requires
        path.contour_count + 2 < usize::MAX,
    ensures
        ({
            let moved = path.with_move(at);
            let drawn = moved.with_line(corner).with_line(to);
            let len = path.vertices.len() as int;
            let inside = Point { x: N::zero_spec(), y: N::one_spec() };
            &&& goes_on(PathModel { start: at, ..path }, moved, at)
            &&& moved.vertices == path.vertices
            &&& moved.bounds == path.bounds
            &&& drawn.vertices.len() == len + 6
            &&& drawn.vertices.take(len) == path.vertices
            &&& ends_with_triangle(drawn.vertices, len, (at, at, corner), (inside, inside, inside))
            &&& ends_with_triangle(
                drawn.vertices,
                len + 3,
                (at, corner, to),
                (inside, inside, inside),
            )
            &&& drawn.start == at
            &&& drawn.current == to
        }),
{
    let drawn = path.with_move(at).with_line(corner).with_line(to);
    assert(drawn.vertices.take(path.vertices.len() as int) =~= path.vertices);
}

} // verus!
