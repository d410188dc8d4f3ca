//! Two-dimensional transformations.

use crate::geometry::{Point, Size};
use crate::number::{commutative_ring, Scalar};
use vstd::prelude::*;

verus! {

/// The entries of a transformation: the rows `(a, b)` and `(c, d)` of its
/// rotation and scale, and its translation `(x, y)`.
pub struct Affine<N> {
    pub a: N,
    pub b: N,
    pub c: N,
    pub d: N,
    pub x: N,
    pub y: N,
}

impl<N: Scalar> Affine<N> {
    /// The transformation that moves nothing.
    pub open spec fn unit() -> Self {
        Affine {
            a: N::one_spec(),
            b: N::zero_spec(),
            c: N::zero_spec(),
            d: N::one_spec(),
            x: N::zero_spec(),
            y: N::zero_spec(),
        }
    }

    pub open spec fn same_spec(self, other: Self) -> bool {
        &&& self.a.same_spec(other.a)
        &&& self.b.same_spec(other.b)
        &&& self.c.same_spec(other.c)
        &&& self.d.same_spec(other.d)
        &&& self.x.same_spec(other.x)
        &&& self.y.same_spec(other.y)
    }

    /// The matrix product `self * other`.
    pub open spec fn product(self, other: Self) -> Self {
        Affine {
            a: self.a.times_spec(other.a).plus_spec(self.b.times_spec(other.c)),
            b: self.a.times_spec(other.b).plus_spec(self.b.times_spec(other.d)),
            c: self.c.times_spec(other.a).plus_spec(self.d.times_spec(other.c)),
            d: self.c.times_spec(other.b).plus_spec(self.d.times_spec(other.d)),
            x: self.x.plus_spec(self.a.times_spec(other.x)).plus_spec(self.b.times_spec(other.y)),
            y: self.y.plus_spec(self.c.times_spec(other.x)).plus_spec(self.d.times_spec(other.y)),
        }
    }

    /// First `other`, then `self`; composing with the unit changes nothing.
    pub open spec fn compose_spec(self, other: Self) -> Self {
        if other.same_spec(Self::unit()) {
            self
        } else {
            self.product(other)
        }
    }

    /// Where a point goes.
    pub open spec fn apply_spec(self, point: Point<N>) -> Point<N> {
        Point {
            x: self.x.plus_spec(self.a.times_spec(point.x)).plus_spec(self.b.times_spec(point.y)),
            y: self.y.plus_spec(self.c.times_spec(point.x)).plus_spec(self.d.times_spec(point.y)),
        }
    }
}

/// A data type representing a 2 dimensional transformation that can be applied to an element.
#[derive(Clone, Copy, Debug, PartialEq)]
pub struct TransformationMatrix<N> {
    /// 2x2 matrix containing rotation and scale,
    /// stored row-major
    pub rotation_scale: [[N; 2]; 2],
    /// translation vector
    pub translation: [N; 2],
}

impl<N: Scalar> View for TransformationMatrix<N> {
    type V = Affine<N>;

    open spec fn view(&self) -> Affine<N> {
        Affine {
            a: self.rotation_scale[0][0],
            b: self.rotation_scale[0][1],
            c: self.rotation_scale[1][0],
            d: self.rotation_scale[1][1],
            x: self.translation[0],
            y: self.translation[1],
        }
    }
}

impl<N: Scalar> TransformationMatrix<N> {
    /// The unit matrix, has no effect.
    pub fn unit() -> (r: Self)
        ensures
            r@ == Affine::<N>::unit(),
    {
        TransformationMatrix {
            rotation_scale: [[N::one(), N::zero()], [N::zero(), N::one()]],
            translation: [N::zero(), N::zero()],
        }
    }

    /// Move the origin by a given point
    pub fn translate(self, point: Point<N>) -> (r: Self)
        ensures
            r@ == self@.compose_spec(
                Affine { x: point.x, y: point.y, ..Affine::unit() },
            ),
    {
        self.compose(
            TransformationMatrix {
                rotation_scale: [[N::one(), N::zero()], [N::zero(), N::one()]],
                translation: [point.x, point.y],
            },
        )
    }

    /// Clockwise rotation around the origin by the angle with the given
    /// cosine and sine
    pub fn rotate(self, cos: N, sin: N) -> (r: Self)
        ensures
            r@ == self@.compose_spec(
                Affine { a: cos, b: sin.negated_spec(), c: sin, d: cos, ..Affine::unit() },
            ),
    {
        self.compose(
            TransformationMatrix {
                rotation_scale: [[cos, sin.negated()], [sin, cos]],
                translation: [N::zero(), N::zero()],
            },
        )
    }

    /// Scale around the origin
    pub fn scale(self, size: Size<N>) -> (r: Self)
        ensures
            r@ == self@.compose_spec(Affine { a: size.width, d: size.height, ..Affine::unit() }),
    {
        self.compose(
            TransformationMatrix {
                rotation_scale: [[size.width, N::zero()], [N::zero(), size.height]],
                translation: [N::zero(), N::zero()],
            },
        )
    }

    fn same(&self, other: &Self) -> (r: bool)
        ensures
            r == self@.same_spec(other@),
    {
        self.rotation_scale[0][0].same(other.rotation_scale[0][0])
            && self.rotation_scale[0][1].same(other.rotation_scale[0][1])
            && self.rotation_scale[1][0].same(other.rotation_scale[1][0])
            && self.rotation_scale[1][1].same(other.rotation_scale[1][1])
            && self.translation[0].same(other.translation[0])
            && self.translation[1].same(other.translation[1])
    }

    /// Perform matrix multiplication with another transformation
    /// to produce a new transformation that is the result of
    /// applying both transformations: first, `other`, then `self`.
    pub fn compose(self, other: TransformationMatrix<N>) -> (r: TransformationMatrix<N>)
        ensures
            r@ == self@.compose_spec(other@),
            other@.same_spec(Affine::unit()) ==> r == self,
    {
        if other.same(&Self::unit()) {
            return self;
        }
        let m = self.rotation_scale;
        let n = other.rotation_scale;
        let t = other.translation;
        TransformationMatrix {
            rotation_scale: [
                [
                    m[0][0].times(n[0][0]).plus(m[0][1].times(n[1][0])),
                    m[0][0].times(n[0][1]).plus(m[0][1].times(n[1][1])),
                ],
                [
                    m[1][0].times(n[0][0]).plus(m[1][1].times(n[1][0])),
                    m[1][0].times(n[0][1]).plus(m[1][1].times(n[1][1])),
                ],
            ],
            translation: [
                self.translation[0].plus(m[0][0].times(t[0])).plus(m[0][1].times(t[1])),
                self.translation[1].plus(m[1][0].times(t[0])).plus(m[1][1].times(t[1])),
            ],
        }
    }

    /// Apply transformation to a point, mainly useful for debugging
    pub fn apply(&self, point: Point<N>) -> (r: Point<N>)
        ensures
            r == self@.apply_spec(point),
    {
        let m = self.rotation_scale;
        Point {
            x: self.translation[0].plus(m[0][0].times(point.x)).plus(m[0][1].times(point.y)),
            y: self.translation[1].plus(m[1][0].times(point.x)).plus(m[1][1].times(point.y)),
        }
    }
}

impl<N: Scalar> Default for TransformationMatrix<N> {
    fn default() -> (r: Self)
        ensures
            r@ == Affine::<N>::unit(),
    {
        Self::unit()
    }
}

proof fn lemma_sum_swaps<N: Scalar>(a: N, b: N)
    requires
        commutative_ring::<N>(),
    ensures
        a.plus_spec(b) == b.plus_spec(a),
{
    reveal(commutative_ring);
}

proof fn lemma_sum_regroups<N: Scalar>(a: N, b: N, c: N)
    requires
        commutative_ring::<N>(),
    ensures
        a.plus_spec(b).plus_spec(c) == a.plus_spec(b.plus_spec(c)),
{
    reveal(commutative_ring);
}

proof fn lemma_product_swaps<N: Scalar>(a: N, b: N)
    requires
        commutative_ring::<N>(),
    ensures
        a.times_spec(b) == b.times_spec(a),
{
    reveal(commutative_ring);
}

proof fn lemma_product_regroups<N: Scalar>(a: N, b: N, c: N)
    requires
        commutative_ring::<N>(),
    ensures
        a.times_spec(b).times_spec(c) == a.times_spec(b.times_spec(c)),
{
    reveal(commutative_ring);
}

proof fn lemma_distributes<N: Scalar>(a: N, b: N, c: N)
    requires
        commutative_ring::<N>(),
    ensures
        a.times_spec(b.plus_spec(c)) == a.times_spec(b).plus_spec(a.times_spec(c)),
{
    reveal(commutative_ring);
}

proof fn lemma_units<N: Scalar>(a: N)
    requires
        commutative_ring::<N>(),
    ensures
        a.plus_spec(N::zero_spec()) == a,
        N::zero_spec().plus_spec(a) == a,
        N::one_spec().times_spec(a) == a,
        N::zero_spec().times_spec(a) == N::zero_spec(),
{
    lemma_sum_swaps(N::zero_spec(), a);
    lemma_product_swaps(N::one_spec(), a);
    lemma_product_swaps(N::zero_spec(), a);
    reveal(commutative_ring);
}

proof fn lemma_same_is_equal<N: Scalar>(a: N, b: N)
    requires
        commutative_ring::<N>(),
    ensures
        a.same_spec(b) <==> a == b,
{
    reveal(commutative_ring);
}

proof fn lemma_sum_swaps_last<N: Scalar>(a: N, b: N, c: N)
    requires
        commutative_ring::<N>(),
    ensures
        a.plus_spec(b).plus_spec(c) == a.plus_spec(c).plus_spec(b),
{
    lemma_sum_regroups(a, b, c);
    lemma_sum_swaps(b, c);
    lemma_sum_regroups(a, c, b);
}

proof fn lemma_regroup<N: Scalar>(t: N, p: N, q: N, r: N, s: N, u: N, v: N)
    requires
        commutative_ring::<N>(),
    ensures
        t.plus_spec(p).plus_spec(q).plus_spec(r.plus_spec(s)).plus_spec(u.plus_spec(v))
            == t.plus_spec(p.plus_spec(r).plus_spec(u)).plus_spec(
            q.plus_spec(s).plus_spec(v),
        ),
{
    // Both sides are brought to ((((((t + p) + r) + u) + q) + s) + v).
    let tp = t.plus_spec(p);
    let tpr = tp.plus_spec(r);
    let tpru = tpr.plus_spec(u);
    let tpruq = tpru.plus_spec(q);
    let tpruqs = tpruq.plus_spec(s);

    let tpq = tp.plus_spec(q);
    lemma_sum_regroups(tpq, r, s);
    lemma_sum_swaps_last(tp, q, r);
    let tprq = tpr.plus_spec(q);
    assert(tpq.plus_spec(r.plus_spec(s)) == tprq.plus_spec(s));
    lemma_sum_regroups(tprq.plus_spec(s), u, v);
    lemma_sum_swaps_last(tprq, s, u);
    lemma_sum_swaps_last(tpr, q, u);
    assert(tprq.plus_spec(s).plus_spec(u.plus_spec(v)) == tpruqs.plus_spec(v));

    lemma_sum_regroups(p, r, u);
    lemma_sum_regroups(t, p, r.plus_spec(u));
    lemma_sum_regroups(tp, r, u);
    assert(t.plus_spec(p.plus_spec(r).plus_spec(u)) == tpru);
    lemma_sum_regroups(q, s, v);
    lemma_sum_regroups(tpru, q, s.plus_spec(v));
    lemma_sum_regroups(tpruq, s, v);
    assert(tpru.plus_spec(q.plus_spec(s).plus_spec(v)) == tpruqs.plus_spec(v));
}

proof fn lemma_expand<N: Scalar>(m: N, a: N, n: N, c: N, z: N)
    requires
        commutative_ring::<N>(),
    ensures
        m.times_spec(a).plus_spec(n.times_spec(c)).times_spec(z) == m.times_spec(
            a.times_spec(z),
        ).plus_spec(n.times_spec(c.times_spec(z))),
{
    let p = m.times_spec(a);
    let q = n.times_spec(c);
    lemma_product_swaps(p.plus_spec(q), z);
    lemma_distributes(z, p, q);
    lemma_product_swaps(z, p);
    lemma_product_swaps(z, q);
    lemma_product_regroups(m, a, z);
    lemma_product_regroups(n, c, z);
}

proof fn lemma_spread<N: Scalar>(m: N, p: N, q: N, r: N)
    requires
        commutative_ring::<N>(),
    ensures
        m.times_spec(p.plus_spec(q).plus_spec(r)) == m.times_spec(p).plus_spec(
            m.times_spec(q),
        ).plus_spec(m.times_spec(r)),
{
    lemma_distributes(m, p.plus_spec(q), r);
    lemma_distributes(m, p, q);
}

proof fn lemma_row<N: Scalar>(t: N, m: N, n: N, other: Affine<N>, point: Point<N>)
    requires
        commutative_ring::<N>(),
    ensures
        t.plus_spec(m.times_spec(other.x)).plus_spec(n.times_spec(other.y)).plus_spec(
            m.times_spec(other.a).plus_spec(n.times_spec(other.c)).times_spec(point.x),
        ).plus_spec(
            m.times_spec(other.b).plus_spec(n.times_spec(other.d)).times_spec(point.y),
        ) == t.plus_spec(m.times_spec(other.apply_spec(point).x)).plus_spec(
            n.times_spec(other.apply_spec(point).y),
        ),
{
    lemma_expand(m, other.a, n, other.c, point.x);
    lemma_expand(m, other.b, n, other.d, point.y);
    lemma_spread(m, other.x, other.a.times_spec(point.x), other.b.times_spec(point.y));
    lemma_spread(n, other.y, other.c.times_spec(point.x), other.d.times_spec(point.y));
    lemma_regroup(
        t,
        m.times_spec(other.x),
        n.times_spec(other.y),
        m.times_spec(other.a.times_spec(point.x)),
        n.times_spec(other.c.times_spec(point.x)),
        m.times_spec(other.b.times_spec(point.y)),
        n.times_spec(other.d.times_spec(point.y)),
    );
}

/// To apply a composition is to apply `second` first and then `first`,
/// wherever the numbers add and multiply without rounding.
pub proof fn lemma_compose_applies_both<N: Scalar>(
    first: Affine<N>,
    second: Affine<N>,
    point: Point<N>,
)
    requires
        commutative_ring::<N>(),
    ensures
        first.compose_spec(second).apply_spec(point) == first.apply_spec(
            second.apply_spec(point),
        ),
{
    let unit = Affine::<N>::unit();
    if second.same_spec(unit) {
        lemma_same_is_equal(second.a, unit.a);
        lemma_same_is_equal(second.b, unit.b);
        lemma_same_is_equal(second.c, unit.c);
        lemma_same_is_equal(second.d, unit.d);
        lemma_same_is_equal(second.x, unit.x);
        lemma_same_is_equal(second.y, unit.y);
        lemma_units(point.x);
        lemma_units(point.y);
        lemma_units(N::zero_spec());
        assert(second.apply_spec(point) == point);
    } else {
        lemma_row(first.x, first.a, first.b, second, point);
        lemma_row(first.y, first.c, first.d, second, point);
    }
}

/// To compose with the unit changes nothing, on either side, wherever the
/// numbers add and multiply without rounding.
pub proof fn lemma_the_unit_composes_to_the_other<N: Scalar>(matrix: Affine<N>)
    requires
        commutative_ring::<N>(),
    ensures
        Affine::unit().compose_spec(matrix) == matrix,
        matrix.compose_spec(Affine::unit()) == matrix,
{
    let unit = Affine::<N>::unit();
    lemma_same_is_equal(N::zero_spec(), N::zero_spec());
    lemma_same_is_equal(N::one_spec(), N::one_spec());
    lemma_same_is_equal(matrix.a, unit.a);
    lemma_same_is_equal(matrix.b, unit.b);
    lemma_same_is_equal(matrix.c, unit.c);
    lemma_same_is_equal(matrix.d, unit.d);
    lemma_same_is_equal(matrix.x, unit.x);
    lemma_same_is_equal(matrix.y, unit.y);
    lemma_units(matrix.a);
    lemma_units(matrix.b);
    lemma_units(matrix.c);
    lemma_units(matrix.d);
    lemma_units(matrix.x);
    lemma_units(matrix.y);
    lemma_units(N::zero_spec());
}

/// The unit has no effect; to translate is to move the point first, to scale
/// is to stretch its coordinates first, and to rotate is to turn it first,
/// wherever the numbers add and multiply without rounding.
pub proof fn lemma_what_the_builders_do<N: Scalar>(
    matrix: Affine<N>,
    by: Point<N>,
    size: Size<N>,
    cos: N,
    sin: N,
    point: Point<N>,
)
    requires
        commutative_ring::<N>(),
    ensures
        Affine::unit().apply_spec(point) == point,
        matrix.compose_spec(Affine { x: by.x, y: by.y, ..Affine::unit() }).apply_spec(point)
            == matrix.apply_spec(point.plus_spec(by)),
        matrix.compose_spec(
            Affine { a: size.width, d: size.height, ..Affine::unit() },
        ).apply_spec(point) == matrix.apply_spec(
            (Point { x: size.width.times_spec(point.x), y: size.height.times_spec(point.y) }),
        ),
        matrix.compose_spec(
            Affine { a: cos, b: sin.negated_spec(), c: sin, d: cos, ..Affine::unit() },
        ).apply_spec(point) == matrix.apply_spec(
            (Point {
                x: cos.times_spec(point.x).plus_spec(sin.negated_spec().times_spec(point.y)),
                y: sin.times_spec(point.x).plus_spec(cos.times_spec(point.y)),
            }),
        ),
{
    let unit = Affine::<N>::unit();
    let moved = Affine { x: by.x, y: by.y, ..unit };
    let scaled = Affine { a: size.width, d: size.height, ..unit };
    let turned = Affine { a: cos, b: sin.negated_spec(), c: sin, d: cos, ..unit };
    lemma_compose_applies_both(matrix, moved, point);
    lemma_compose_applies_both(matrix, scaled, point);
    lemma_compose_applies_both(matrix, turned, point);
    lemma_units(point.x);
    lemma_units(point.y);
    lemma_units(by.x.plus_spec(point.x));
    lemma_units(by.y);
    lemma_sum_swaps(by.x, point.x);
    lemma_sum_swaps(by.y, point.y);
    lemma_units(size.width.times_spec(point.x));
    lemma_units(size.height.times_spec(point.y));
    lemma_units(cos.times_spec(point.x));
    lemma_units(sin.times_spec(point.x));
    lemma_units(N::zero_spec());
}

} // verus!
