//! The numbers that coordinates, colours and matrices are made of.

use vstd::prelude::*;

verus! {

/// A number type.
///
/// Each operation is a function of its operands, and nothing more is asked: a
/// type that rounds, that wraps around, or that has a value unequal to itself
/// is a `Scalar` as well. What is proved of a scene holds for all of them.
/// The laws that need more of the arithmetic say so (see [`commutative_ring`]).
pub trait Scalar: Copy {
    spec fn zero_spec() -> Self;

    spec fn one_spec() -> Self;

    spec fn half_spec() -> Self;

    spec fn plus_spec(self, other: Self) -> Self;

    spec fn minus_spec(self, other: Self) -> Self;

    spec fn times_spec(self, other: Self) -> Self;

    spec fn negated_spec(self) -> Self;

    spec fn less_than_spec(self, other: Self) -> bool;

    spec fn at_most_spec(self, other: Self) -> bool;

    spec fn same_spec(self, other: Self) -> bool;

    /// The number 0.
    fn zero() -> (r: Self)
        ensures
            r == Self::zero_spec(),
    ;

    /// The number 1.
    fn one() -> (r: Self)
        ensures
            r == Self::one_spec(),
    ;

    /// The number 1/2, or what stands for it where the type has no such number.
    fn half() -> (r: Self)
        ensures
            r == Self::half_spec(),
    ;

    /// `self + other`.
    fn plus(self, other: Self) -> (r: Self)
        ensures
            r == self.plus_spec(other),
    ;

    /// `self - other`.
    fn minus(self, other: Self) -> (r: Self)
        ensures
            r == self.minus_spec(other),
    ;

    /// `self * other`.
    fn times(self, other: Self) -> (r: Self)
        ensures
            r == self.times_spec(other),
    ;

    /// `-self`.
    fn negated(self) -> (r: Self)
        ensures
            r == self.negated_spec(),
    ;

    /// `self < other`.
    fn less_than(self, other: Self) -> (r: bool)
        ensures
            r == self.less_than_spec(other),
    ;

    /// `self <= other`.
    fn at_most(self, other: Self) -> (r: bool)
        ensures
            r == self.at_most_spec(other),
    ;

    /// Whether the two compare equal.
    fn same(self, other: Self) -> (r: bool)
        ensures
            r == self.same_spec(other),
    ;
}

/// The smaller of two numbers: `a` where `a <= b`, else `b`.
pub open spec fn lesser<N: Scalar>(a: N, b: N) -> N {
    if a.at_most_spec(b) {
        a
    } else {
        b
    }
}

/// The larger of two numbers: `a` where `b < a`, else `b`.
pub open spec fn greater<N: Scalar>(a: N, b: N) -> N {
    if b.less_than_spec(a) {
        a
    } else {
        b
    }
}

/// The smaller of two numbers.
pub fn smaller_of<N: Scalar>(a: N, b: N) -> (r: N)
    ensures
        r == lesser(a, b),
{
    if a.at_most(b) {
        a
    } else {
        b
    }
}

/// The larger of two numbers.
pub fn larger_of<N: Scalar>(a: N, b: N) -> (r: N)
    ensures
        r == greater(a, b),
{
    if b.less_than(a) {
        a
    } else {
        b
    }
}

/// `N` adds and multiplies without rounding: the operations are those of a
/// commutative ring, and equal numbers are identical.
#[verifier::opaque]
pub open spec fn commutative_ring<N: Scalar>() -> bool {
    &&& forall|a: N, b: N| #[trigger] a.plus_spec(b) == b.plus_spec(a)
    &&& forall|a: N, b: N, c: N| #[trigger]
        a.plus_spec(b).plus_spec(c) == a.plus_spec(b.plus_spec(c))
    &&& forall|a: N| #[trigger] a.plus_spec(N::zero_spec()) == a
    &&& forall|a: N, b: N| #[trigger] a.times_spec(b) == b.times_spec(a)
    &&& forall|a: N, b: N, c: N| #[trigger]
        a.times_spec(b).times_spec(c) == a.times_spec(b.times_spec(c))
    &&& forall|a: N| #[trigger] a.times_spec(N::one_spec()) == a
    &&& forall|a: N| #[trigger] a.times_spec(N::zero_spec()) == N::zero_spec()
    &&& forall|a: N, b: N, c: N| #[trigger]
        a.times_spec(b.plus_spec(c)) == a.times_spec(b).plus_spec(a.times_spec(c))
    &&& forall|a: N, b: N| #[trigger] a.same_spec(b) <==> a == b
}

/// A whole number of device pixels. Sums and products wrap around.
#[derive(Clone, Copy, Debug, PartialEq, Eq, Default)]
pub struct DevicePixels(pub i32);

impl Scalar for DevicePixels {
    open spec fn zero_spec() -> Self {
        DevicePixels(0)
    }

    open spec fn one_spec() -> Self {
        DevicePixels(1)
    }

    /// Half a device pixel rounds down to none.
    open spec fn half_spec() -> Self {
        DevicePixels(0)
    }

    open spec fn plus_spec(self, other: Self) -> Self {
        DevicePixels(vstd::wrapping::i32_specs::wrapping_add(self.0, other.0))
    }

    open spec fn minus_spec(self, other: Self) -> Self {
        DevicePixels(vstd::wrapping::i32_specs::wrapping_sub(self.0, other.0))
    }

    open spec fn times_spec(self, other: Self) -> Self {
        DevicePixels(vstd::wrapping::i32_specs::wrapping_mul(self.0, other.0))
    }

    open spec fn negated_spec(self) -> Self {
        DevicePixels(vstd::wrapping::i32_specs::wrapping_sub(0, self.0))
    }

    open spec fn less_than_spec(self, other: Self) -> bool {
        self.0 < other.0
    }

    open spec fn at_most_spec(self, other: Self) -> bool {
        self.0 <= other.0
    }

    open spec fn same_spec(self, other: Self) -> bool {
        self.0 == other.0
    }

    fn zero() -> (r: Self) {
        DevicePixels(0)
    }

    fn one() -> (r: Self) {
        DevicePixels(1)
    }

    fn half() -> (r: Self) {
        DevicePixels(0)
    }

    fn plus(self, other: Self) -> (r: Self) {
        DevicePixels(self.0.wrapping_add(other.0))
    }

    fn minus(self, other: Self) -> (r: Self) {
        DevicePixels(self.0.wrapping_sub(other.0))
    }

    fn times(self, other: Self) -> (r: Self) {
        DevicePixels(self.0.wrapping_mul(other.0))
    }

    fn negated(self) -> (r: Self) {
        let none: i32 = 0;
        DevicePixels(none.wrapping_sub(self.0))
    }

    fn less_than(self, other: Self) -> (r: bool) {
        self.0 < other.0
    }

    fn at_most(self, other: Self) -> (r: bool) {
        self.0 <= other.0
    }

    fn same(self, other: Self) -> (r: bool) {
        self.0 == other.0
    }
}

/// How often the range of `i32` is passed on the way to `x`.
spec fn turns(x: int) -> int {
    (x + 0x8000_0000) / 0x1_0000_0000
}

/// What `x` wraps around to.
spec fn wrapped(x: int) -> int {
    x - 0x1_0000_0000 * turns(x)
}

proof fn lemma_wrapped_is(x: int, r: int, k: int)
    requires
        -0x8000_0000 <= r < 0x8000_0000,
        x == r + 0x1_0000_0000 * k,
    ensures
        wrapped(x) == r,
{
}

proof fn lemma_wrapped_range(x: int)
    ensures
        -0x8000_0000 <= wrapped(x) < 0x8000_0000,
{
}

proof fn lemma_sum_wraps(a: DevicePixels, b: DevicePixels)
    ensures
        a.plus_spec(b).0 == wrapped(a.0 + b.0),
{
}

proof fn lemma_product_wraps(a: DevicePixels, b: DevicePixels)
    ensures
        a.times_spec(b).0 == wrapped(a.0 * b.0),
{
    let x = a.0 * b.0;
    assert(x % 0x1_0000_0000 == x - 0x1_0000_0000 * (x / 0x1_0000_0000));
    if x % 0x1_0000_0000 > 0x7fff_ffff {
        lemma_wrapped_is(x, x % 0x1_0000_0000 - 0x1_0000_0000, x / 0x1_0000_0000 + 1);
    } else {
        lemma_wrapped_is(x, x % 0x1_0000_0000, x / 0x1_0000_0000);
    }
}

proof fn lemma_inner_wrap_of_sum(x: int, y: int)
    ensures
        wrapped(wrapped(x) + y) == wrapped(x + y),
{
    lemma_wrapped_range(x + y);
    lemma_wrapped_is(wrapped(x) + y, wrapped(x + y), turns(x + y) - turns(x));
}

proof fn lemma_inner_wrap_of_product(x: int, y: int)
    ensures
        wrapped(wrapped(x) * y) == wrapped(x * y),
{
    lemma_wrapped_range(x * y);
    let r = wrapped(x * y);
    let j = turns(x);
    let k = turns(x * y);
    assert((x - 0x1_0000_0000 * j) * y == r + 0x1_0000_0000 * (k - j * y)) by (nonlinear_arith)
        requires
            r == x * y - 0x1_0000_0000 * k,
    ;
    lemma_wrapped_is(wrapped(x) * y, r, k - j * y);
}

/// Device pixels are such numbers: wrapping around is not rounding.
pub proof fn lemma_device_pixels_are_a_ring()
    ensures
        commutative_ring::<DevicePixels>(),
{
    reveal(commutative_ring);
    assert forall|a: DevicePixels, b: DevicePixels, c: DevicePixels| #[trigger]
        a.plus_spec(b).plus_spec(c) == a.plus_spec(b.plus_spec(c)) by {
        lemma_sum_wraps(a, b);
        lemma_sum_wraps(b, c);
        lemma_sum_wraps(a.plus_spec(b), c);
        lemma_sum_wraps(a, b.plus_spec(c));
        lemma_inner_wrap_of_sum(a.0 + b.0, c.0 as int);
        lemma_inner_wrap_of_sum(b.0 + c.0, a.0 as int);
    }
    assert forall|a: DevicePixels, b: DevicePixels| #[trigger]
        a.times_spec(b) == b.times_spec(a) by {
        assert(a.0 * b.0 == b.0 * a.0) by (nonlinear_arith);
    }
    assert forall|a: DevicePixels, b: DevicePixels, c: DevicePixels| #[trigger]
        a.times_spec(b).times_spec(c) == a.times_spec(b.times_spec(c)) by {
        let (x, y, z) = (a.0 as int, b.0 as int, c.0 as int);
        lemma_product_wraps(a, b);
        lemma_product_wraps(b, c);
        lemma_product_wraps(a.times_spec(b), c);
        lemma_product_wraps(a, b.times_spec(c));
        lemma_inner_wrap_of_product(x * y, z);
        lemma_inner_wrap_of_product(y * z, x);
        assert((x * y) * z == (y * z) * x) by (nonlinear_arith);
        assert(wrapped(y * z) * x == x * wrapped(y * z)) by (nonlinear_arith);
    }
    assert forall|a: DevicePixels| #[trigger]
        a.times_spec(DevicePixels::one_spec()) == a by {
        lemma_product_wraps(a, DevicePixels(1));
        lemma_wrapped_is(a.0 as int, a.0 as int, 0);
    }
    assert forall|a: DevicePixels| #[trigger]
        a.times_spec(DevicePixels::zero_spec()) == DevicePixels::zero_spec() by {
        lemma_product_wraps(a, DevicePixels(0));
    }
    assert forall|a: DevicePixels, b: DevicePixels, c: DevicePixels| #[trigger]
        a.times_spec(b.plus_spec(c)) == a.times_spec(b).plus_spec(a.times_spec(c)) by {
        let (x, y, z) = (a.0 as int, b.0 as int, c.0 as int);
        lemma_sum_wraps(b, c);
        lemma_product_wraps(a, b.plus_spec(c));
        lemma_product_wraps(a, b);
        lemma_product_wraps(a, c);
        lemma_sum_wraps(a.times_spec(b), a.times_spec(c));
        lemma_inner_wrap_of_product(y + z, x);
        assert(wrapped(y + z) * x == x * wrapped(y + z)) by (nonlinear_arith);
        lemma_inner_wrap_of_sum(x * y, wrapped(x * z));
        lemma_inner_wrap_of_sum(x * z, x * y);
        assert((y + z) * x == x * y + x * z) by (nonlinear_arith);
    }
}

/// `N` is totally ordered, and a difference takes one number exactly to the
/// other.
#[verifier::opaque]
pub open spec fn ordered_numbers<N: Scalar>() -> bool {
    &&& forall|a: N, b: N| #[trigger] a.at_most_spec(b) || b.at_most_spec(a)
    &&& forall|a: N, b: N|
        #[trigger] a.at_most_spec(b) && #[trigger] b.at_most_spec(a) ==> a == b
    &&& forall|a: N, b: N, c: N|
        #[trigger] a.at_most_spec(b) && #[trigger] b.at_most_spec(c) ==> a.at_most_spec(c)
    &&& forall|a: N, b: N| #[trigger] a.less_than_spec(b) <==> !b.at_most_spec(a)
    &&& forall|a: N, b: N| #[trigger] a.plus_spec(b.minus_spec(a)) == b
    &&& forall|a: N| #[trigger] a.plus_spec(N::zero_spec()) == a
}

/// Device pixels are such numbers.
pub proof fn lemma_device_pixels_are_ordered()
    ensures
        ordered_numbers::<DevicePixels>(),
{
    reveal(ordered_numbers);
}

/// In ordered numbers the smaller and the larger of two do not depend on the
/// sequence, and bound both.
pub proof fn lemma_smaller_and_larger<N: Scalar>(a: N, b: N)
    requires
        ordered_numbers::<N>(),
    ensures
        lesser(a, b) == lesser(b, a),
        greater(a, b) == greater(b, a),
        lesser(a, b).at_most_spec(a),
        lesser(a, b).at_most_spec(b),
        a.at_most_spec(greater(a, b)),
        b.at_most_spec(greater(a, b)),
{
    reveal(ordered_numbers);
    assert(a.at_most_spec(a) && b.at_most_spec(b));
    assert(a.at_most_spec(b) || b.at_most_spec(a));
    assert(a.less_than_spec(b) <==> !b.at_most_spec(a));
    assert(b.less_than_spec(a) <==> !a.at_most_spec(b));
    if a.at_most_spec(b) && b.at_most_spec(a) {
        assert(a == b);
    }
}

/// Ordered numbers are ordered transitively, strictly or not.
pub proof fn lemma_order_chains<N: Scalar>(a: N, b: N, c: N)
    requires
        ordered_numbers::<N>(),
    ensures
        a.at_most_spec(b) && b.at_most_spec(c) ==> a.at_most_spec(c),
        a.at_most_spec(b) && b.less_than_spec(c) ==> a.less_than_spec(c),
        a.less_than_spec(b) && b.at_most_spec(c) ==> a.less_than_spec(c),
{
    reveal(ordered_numbers);
    assert(b.less_than_spec(c) <==> !c.at_most_spec(b));
    assert(a.less_than_spec(c) <==> !c.at_most_spec(a));
    assert(a.less_than_spec(b) <==> !b.at_most_spec(a));
}

/// The span between two ordered numbers leads from the one to the other.
pub proof fn lemma_span_is_exact<N: Scalar>(a: N, b: N)
    requires
        ordered_numbers::<N>(),
    ensures
        a.plus_spec(b.minus_spec(a)) == b,
        a.plus_spec(N::zero_spec()) == a,
{
    reveal(ordered_numbers);
}

/// The smaller and the larger of two numbers are those two numbers.
pub proof fn lemma_smaller_and_larger_are_the_two<N: Scalar>(a: N, b: N)
    requires
        ordered_numbers::<N>(),
    ensures
        lesser(a, b) == a && greater(a, b) == b || lesser(a, b) == b && greater(a, b) == a,
        lesser(a, b).at_most_spec(greater(a, b)),
{
    reveal(ordered_numbers);
    assert(a.at_most_spec(b) || b.at_most_spec(a));
    assert(b.less_than_spec(a) <==> !a.at_most_spec(b));
}

/// What is at most the smaller of two is at most both, and the larger of two is
/// at most what both are at most.
pub proof fn lemma_bounds_of_two<N: Scalar>(a: N, b: N, c: N)
    requires
        ordered_numbers::<N>(),
    ensures
        c.at_most_spec(lesser(a, b)) <==> c.at_most_spec(a) && c.at_most_spec(b),
        greater(a, b).at_most_spec(c) <==> a.at_most_spec(c) && b.at_most_spec(c),
        c.less_than_spec(lesser(a, b)) <==> c.less_than_spec(a) && c.less_than_spec(b),
        greater(a, b).less_than_spec(c) <==> a.less_than_spec(c) && b.less_than_spec(c),
        lesser(a, b).at_most_spec(c) <==> a.at_most_spec(c) || b.at_most_spec(c),
        c.at_most_spec(greater(a, b)) <==> c.at_most_spec(a) || c.at_most_spec(b),
{
    lemma_smaller_and_larger(a, b);
    lemma_smaller_and_larger_are_the_two(a, b);
    let (low, high) = (lesser(a, b), greater(a, b));
    lemma_order_chains(c, low, a);
    lemma_order_chains(c, low, b);
    lemma_order_chains(a, high, c);
    lemma_order_chains(b, high, c);
    lemma_order_chains(low, a, c);
    lemma_order_chains(low, b, c);
    lemma_order_chains(c, a, high);
    lemma_order_chains(c, b, high);
}

/// Device pixels are counted as whole numbers are, as long as the result is in
/// range.
pub proof fn lemma_device_pixels_count(a: DevicePixels, b: DevicePixels)
    ensures
        i32::MIN <= a.0 + b.0 <= i32::MAX ==> a.plus_spec(b).0 == a.0 + b.0,
        i32::MIN <= a.0 - b.0 <= i32::MAX ==> a.minus_spec(b).0 == a.0 - b.0,
        i32::MIN <= a.0 * b.0 <= i32::MAX ==> a.times_spec(b).0 == a.0 * b.0,
        a.0 > i32::MIN ==> a.negated_spec().0 == -a.0,
        a.less_than_spec(b) <==> a.0 < b.0,
        a.at_most_spec(b) <==> a.0 <= b.0,
        a.same_spec(b) <==> a.0 == b.0,
        DevicePixels::zero_spec().0 == 0,
        DevicePixels::one_spec().0 == 1,
        DevicePixels::half_spec().0 * 2 <= 1,
        DevicePixels::half_spec().0 >= 0,
{
    lemma_product_wraps(a, b);
    if i32::MIN <= a.0 * b.0 <= i32::MAX {
        lemma_wrapped_is(a.0 * b.0, a.0 * b.0, 0);
    }
}

/// To add `by` keeps the order of the numbers from `low` to `high`.
pub open spec fn moves_in_order<N: Scalar>(low: N, high: N, by: N) -> bool {
    forall|a: N, b: N|
        #![trigger a.plus_spec(by), b.plus_spec(by)]
        low.at_most_spec(a) && a.at_most_spec(b) && b.at_most_spec(high) ==> a.plus_spec(
            by,
        ).at_most_spec(b.plus_spec(by))
}

/// Device pixels move in order wherever they do not wrap around.
pub proof fn lemma_device_pixels_move_in_order(
    low: DevicePixels,
    high: DevicePixels,
    by: DevicePixels,
)
    requires
        i32::MIN <= low.0 + by.0,
        high.0 + by.0 <= i32::MAX,
    ensures
        moves_in_order(low, high, by),
{
    assert forall|a: DevicePixels, b: DevicePixels|
        #![trigger a.plus_spec(by), b.plus_spec(by)]
        low.at_most_spec(a) && a.at_most_spec(b) && b.at_most_spec(high) implies a.plus_spec(
        by,
    ).at_most_spec(b.plus_spec(by)) by {
        lemma_device_pixels_count(a, by);
        lemma_device_pixels_count(b, by);
    }
}

} // verus!
