//! Draw orders from overlap.

use crate::geometry::Bounds;
use crate::number::Scalar;
use vstd::prelude::*;

verus! {

/// The position of a primitive in the painting sequence; higher is later.
pub type DrawOrder = u32;

/// The order above `order`; the highest order is above itself.
pub open spec fn next_order(order: DrawOrder) -> DrawOrder {
    if order == u32::MAX {
        order
    } else {
        (order + 1) as u32
    }
}

/// The highest order among the entries that overlap `bounds`, 0 if none does.
pub open spec fn top_order<N: Scalar>(
    entries: Seq<(Bounds<N>, DrawOrder)>,
    bounds: Bounds<N>,
) -> DrawOrder
    decreases entries.len(),
{
    if entries.len() == 0 {
        0
    } else {
        let below = top_order(entries.drop_last(), bounds);
        let (entry, order) = entries.last();
        if entry.intersects_spec(bounds) && below < order {
            order
        } else {
            below
        }
    }
}

/// The last order of a block of orders that starts at `base`.
pub open spec fn block_end(base: DrawOrder, span: u32) -> DrawOrder {
    if base + span > u32::MAX {
        u32::MAX
    } else {
        (base + span) as u32
    }
}

/// Hands out draw orders so that whatever is inserted later is drawn above
/// everything that it overlaps.
pub struct BoundsTree<N> {
    entries: Vec<(Bounds<N>, DrawOrder)>,
}

impl<N: Scalar> View for BoundsTree<N> {
    type V = Seq<(Bounds<N>, DrawOrder)>;

    closed spec fn view(&self) -> Seq<(Bounds<N>, DrawOrder)> {
        self.entries@
    }
}

impl<N: Scalar> BoundsTree<N> {
    /// A tree without entries.
    pub fn new() -> (r: Self)
        ensures
            r@ == Seq::<(Bounds<N>, DrawOrder)>::empty(),
    {
        BoundsTree { entries: Vec::new() }
    }

    /// Forgets every entry.
    pub fn clear(&mut self)
        ensures
            final(self)@ == Seq::<(Bounds<N>, DrawOrder)>::empty(),
    {
        self.entries.clear();
    }

    fn highest(&self, bounds: Bounds<N>) -> (top: DrawOrder)
        ensures
            top == top_order(self@, bounds),
    {
        let mut top: u32 = 0;
        let mut i: usize = 0;
        assert(self.entries@.take(0) =~= Seq::<(Bounds<N>, DrawOrder)>::empty());
        while i < self.entries.len()
            invariant
                i <= self.entries@.len(),
                top == top_order(self.entries@.take(i as int), bounds),
            decreases self.entries@.len() - i,
        {
            assert(self.entries@.take(i + 1).drop_last() =~= self.entries@.take(i as int));
            let (entry, order) = self.entries[i];
            if entry.intersects(&bounds) && top < order {
                top = order;
            }
            i = i + 1;
        }
        assert(self.entries@.take(i as int) =~= self.entries@);
        top
    }

    /// The order that `bounds` would get.
    pub fn peek(&self, bounds: Bounds<N>) -> (order: DrawOrder)
        ensures
            order == next_order(top_order(self@, bounds)),
    {
        self.highest(bounds).saturating_add(1)
    }

    /// Inserts `bounds` and returns its order, one above the highest order
    /// that it overlaps.
    pub fn insert(&mut self, bounds: Bounds<N>) -> (order: DrawOrder)
        ensures
            order == next_order(top_order(old(self)@, bounds)),
            final(self)@ == old(self)@.push((bounds, order)),
    {
        let order: u32 = self.highest(bounds).saturating_add(1);
        self.entries.push((bounds, order));
        order
    }

    /// Inserts a block of `span + 1` consecutive orders that share `bounds`,
    /// and returns the first. What overlaps the block later is above all of it.
    pub fn insert_block(&mut self, bounds: Bounds<N>, span: u32) -> (base: DrawOrder)
        ensures
            base == next_order(top_order(old(self)@, bounds)),
            final(self)@ == old(self)@.push((bounds, block_end(base, span))),
    {
        let base: u32 = self.highest(bounds).saturating_add(1);
        self.entries.push((bounds, base.saturating_add(span)));
        base
    }
}

/// What overlaps an entry has at least that entry's order below it.
pub proof fn lemma_top_order_covers<N: Scalar>(
    entries: Seq<(Bounds<N>, DrawOrder)>,
    bounds: Bounds<N>,
    i: int,
)
    requires
        0 <= i < entries.len(),
        entries[i].0.intersects_spec(bounds),
    ensures
        entries[i].1 <= top_order(entries, bounds),
    decreases entries.len(),
{
    if i < entries.len() - 1 {
        lemma_top_order_covers(entries.drop_last(), bounds, i);
    }
}

/// Of two overlapping insertions the later one is drawn above the earlier one,
/// whatever was inserted between them; only the highest order there is has none
/// above it.
pub proof fn lemma_later_is_above<N: Scalar>(
    entries: Seq<(Bounds<N>, DrawOrder)>,
    earlier: Bounds<N>,
    between: Seq<(Bounds<N>, DrawOrder)>,
    later: Bounds<N>,
)
    requires
        earlier.intersects_spec(later),
    ensures
        ({
            let first = next_order(top_order(entries, earlier));
            let all = entries.push((earlier, first)) + between;
            let second = next_order(top_order(all, later));
            first < second || first == u32::MAX
        }),
{
    let first = next_order(top_order(entries, earlier));
    let all = entries.push((earlier, first)) + between;
    assert(all[entries.len() as int] == (earlier, first));
    lemma_top_order_covers(all, later, entries.len() as int);
}

/// What overlaps a block that was inserted before is drawn above every order
/// of that block, unless the block ends at the highest order there is.
pub proof fn lemma_later_is_above_block<N: Scalar>(
    entries: Seq<(Bounds<N>, DrawOrder)>,
    block: Bounds<N>,
    span: u32,
    between: Seq<(Bounds<N>, DrawOrder)>,
    later: Bounds<N>,
)
    requires
        block.intersects_spec(later),
    ensures
        ({
            let base = next_order(top_order(entries, block));
            let all = entries.push((block, block_end(base, span))) + between;
            let order = next_order(top_order(all, later));
            let end = block_end(base, span);
            end < order || end == u32::MAX && order == u32::MAX
        }),
{
    let base = next_order(top_order(entries, block));
    let all = entries.push((block, block_end(base, span))) + between;
    assert(all[entries.len() as int] == (block, block_end(base, span)));
    lemma_top_order_covers(all, later, entries.len() as int);
}

/// The highest order below some bounds is that of an entry that overlaps them,
/// or 0 where no entry does, and no entry that overlaps them has a higher one.
pub proof fn lemma_top_order_is_the_highest<N: Scalar>(
    entries: Seq<(Bounds<N>, DrawOrder)>,
    bounds: Bounds<N>,
)
    ensures
        forall|i: int|
            0 <= i < entries.len() && (#[trigger] entries[i]).0.intersects_spec(bounds)
                ==> entries[i].1 <= top_order(entries, bounds),
        top_order(entries, bounds) == 0 || exists|i: int|
            0 <= i < entries.len() && (#[trigger] entries[i]).0.intersects_spec(bounds)
                && entries[i].1 == top_order(entries, bounds),
    decreases entries.len(),
{
    assert forall|i: int|
        0 <= i < entries.len() && (#[trigger] entries[i]).0.intersects_spec(
            bounds,
        ) implies entries[i].1 <= top_order(entries, bounds) by {
        lemma_top_order_covers(entries, bounds, i);
    }
    if entries.len() > 0 {
        let before = entries.drop_last();
        lemma_top_order_is_the_highest(before, bounds);
        let top = top_order(entries, bounds);
        if top != 0 {
            if top == top_order(before, bounds) {
                let i = choose|i: int|
                    0 <= i < before.len() && (#[trigger] before[i]).0.intersects_spec(bounds)
                        && before[i].1 == top;
                assert(entries[i] == before[i]);
            } else {
                assert(entries[entries.len() - 1] == entries.last());
            }
        }
    }
}

/// The order above another is one higher, and the highest order has none above
/// it; a block reaches as far as its span, or to the highest order.
pub proof fn lemma_orders_go_up(order: DrawOrder, span: u32)
    ensures
        order < u32::MAX ==> next_order(order) == order + 1,
        order == u32::MAX ==> next_order(order) == u32::MAX,
        order + span <= u32::MAX ==> block_end(order, span) == order + span,
        order + span > u32::MAX ==> block_end(order, span) == u32::MAX,
{
}

} // verus!
