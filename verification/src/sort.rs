//! Painting order within one kind of primitives.

use crate::bounds_tree::DrawOrder;
use crate::path::Path;
use crate::primitive::{
    AtlasTextureId, EffectQuad, MonochromeSprite, PaintSurface, PolychromeSprite, Quad, Shadow,
    SubpixelSprite, Underline,
};
use vstd::prelude::*;

verus! {

/// A primitive with a place in the painting sequence.
pub trait Ordered: Sized {
    spec fn order_spec(&self) -> DrawOrder;

    /// The place in the painting sequence.
    fn draw_order(&self) -> (r: DrawOrder)
        ensures
            r == self.order_spec(),
    ;
}

/// A primitive with a place in the painting sequence, drawn from a texture.
pub trait Textured: Ordered {
    spec fn texture_spec(&self) -> AtlasTextureId;

    /// The texture that the primitive is drawn from.
    fn texture_id(&self) -> (r: AtlasTextureId)
        ensures
            r == self.texture_spec(),
    ;

    /// What sprites are sorted by: the order, and the texture within an order.
    fn texture_key(&self) -> (r: (u32, u8, u32))
        ensures
            r.0 == self.order_spec(),
            r.1 == self.texture_spec().kind.rank_spec(),
            r.2 == self.texture_spec().index,
    ;
}

impl<N> Ordered for Shadow<N> {
    open spec fn order_spec(&self) -> DrawOrder {
        self.order
    }

    fn draw_order(&self) -> (r: DrawOrder) {
        self.order
    }
}

impl<N> Ordered for Quad<N> {
    open spec fn order_spec(&self) -> DrawOrder {
        self.order
    }

    fn draw_order(&self) -> (r: DrawOrder) {
        self.order
    }
}

impl<N> Ordered for EffectQuad<N> {
    open spec fn order_spec(&self) -> DrawOrder {
        self.order
    }

    fn draw_order(&self) -> (r: DrawOrder) {
        self.order
    }
}

impl<N> Ordered for Path<N> {
    open spec fn order_spec(&self) -> DrawOrder {
        self.order
    }

    fn draw_order(&self) -> (r: DrawOrder) {
        self.order
    }
}

impl<N> Ordered for Underline<N> {
    open spec fn order_spec(&self) -> DrawOrder {
        self.order
    }

    fn draw_order(&self) -> (r: DrawOrder) {
        self.order
    }
}

impl<N> Ordered for MonochromeSprite<N> {
    open spec fn order_spec(&self) -> DrawOrder {
        self.order
    }

    fn draw_order(&self) -> (r: DrawOrder) {
        self.order
    }
}

impl<N> Ordered for SubpixelSprite<N> {
    open spec fn order_spec(&self) -> DrawOrder {
        self.order
    }

    fn draw_order(&self) -> (r: DrawOrder) {
        self.order
    }
}

impl<N> Ordered for PolychromeSprite<N> {
    open spec fn order_spec(&self) -> DrawOrder {
        self.order
    }

    fn draw_order(&self) -> (r: DrawOrder) {
        self.order
    }
}

impl<N> Ordered for PaintSurface<N> {
    open spec fn order_spec(&self) -> DrawOrder {
        self.order
    }

    fn draw_order(&self) -> (r: DrawOrder) {
        self.order
    }
}

impl<N> Textured for MonochromeSprite<N> {
    open spec fn texture_spec(&self) -> AtlasTextureId {
        self.tile.texture_id
    }

    fn texture_id(&self) -> (r: AtlasTextureId) {
        self.tile.texture_id
    }

    fn texture_key(&self) -> (r: (u32, u8, u32)) {
        (self.order, self.tile.texture_id.kind.rank(), self.tile.texture_id.index)
    }
}

impl<N> Textured for SubpixelSprite<N> {
    open spec fn texture_spec(&self) -> AtlasTextureId {
        self.tile.texture_id
    }

    fn texture_id(&self) -> (r: AtlasTextureId) {
        self.tile.texture_id
    }

    fn texture_key(&self) -> (r: (u32, u8, u32)) {
        (self.order, self.tile.texture_id.kind.rank(), self.tile.texture_id.index)
    }
}

impl<N> Textured for PolychromeSprite<N> {
    open spec fn texture_spec(&self) -> AtlasTextureId {
        self.tile.texture_id
    }

    fn texture_id(&self) -> (r: AtlasTextureId) {
        self.tile.texture_id
    }

    fn texture_key(&self) -> (r: (u32, u8, u32)) {
        (self.order, self.tile.texture_id.kind.rank(), self.tile.texture_id.index)
    }
}

/// The orders of a list do not fall.
pub open spec fn sorted_by_order<T: Ordered>(items: Seq<T>) -> bool {
    forall|i: int, j: int|
        0 <= i < j < items.len() ==> (#[trigger] items[i]).order_spec() <= (
        #[trigger] items[j]).order_spec()
}

/// `a` does not come after `b` by order, texture kind and texture index.
pub open spec fn texture_at_most<T: Textured>(a: T, b: T) -> bool {
    let (s, t) = (a.texture_spec(), b.texture_spec());
    ||| a.order_spec() < b.order_spec()
    ||| a.order_spec() == b.order_spec() && {
        ||| s.kind.rank_spec() < t.kind.rank_spec()
        ||| s.kind.rank_spec() == t.kind.rank_spec() && s.index <= t.index
    }
}

/// A list of sprites goes by order, and by texture within an order.
pub open spec fn sorted_by_texture<T: Textured>(items: Seq<T>) -> bool {
    forall|i: int, j: int|
        0 <= i < j < items.len() ==> texture_at_most(#[trigger] items[i], #[trigger] items[j])
}

/// The items of one order, as they follow each other in the list.
pub open spec fn of_order<T: Ordered>(items: Seq<T>, order: DrawOrder) -> Seq<T> {
    items.filter(|item: T| item.order_spec() == order)
}

/// `after` holds the items of `before`, and those of one order still follow
/// each other as they did.
pub open spec fn stably_rearranged<T: Ordered>(before: Seq<T>, after: Seq<T>) -> bool {
    forall|order: DrawOrder| #[trigger] of_order(after, order) == of_order(before, order)
}

/// [`slice::sort_by_key`] with the draw order as the key: it sorts, and it
/// does not reorder items of equal order.
#[verifier::external_body]
fn sort_by_draw_order<T: Ordered>(items: &mut Vec<T>)
    ensures
        sorted_by_order(final(items)@),
        stably_rearranged(old(items)@, final(items)@),
{
    items.sort_by_key(|item| item.draw_order());
}

/// [`slice::sort_unstable_by_key`] with order and texture as the key: it
/// sorts, and it may reorder items of equal key.
#[verifier::external_body]
fn sort_by_draw_texture<T: Textured>(items: &mut Vec<T>)
    ensures
        sorted_by_texture(final(items)@),
        final(items)@.to_multiset() == old(items)@.to_multiset(),
{
    items.sort_unstable_by_key(|item| item.texture_key());
}

fn is_sorted_by_order<T: Ordered>(items: &Vec<T>) -> (r: bool)
    ensures
        r == sorted_by_order(items@),
{
    let mut i: usize = 1;
    while i < items.len()
        invariant
            1 <= i,
            i <= items@.len() || i == 1,
            sorted_by_order(items@.take(if i <= items@.len() {
                i as int
            } else {
                0
            })),
        decreases items@.len() - i,
    {
        if items[i].draw_order() < items[i - 1].draw_order() {
            assert(items@[i as int].order_spec() < items@[i - 1].order_spec());
            return false;
        }
        proof {
            let shorter = items@.take(i as int);
            let longer = items@.take(i + 1);
            assert forall|a: int, b: int| 0 <= a < b < longer.len() implies (
            #[trigger] longer[a]).order_spec() <= (#[trigger] longer[b]).order_spec() by {
                assert(longer[a] == shorter[a]);
                assert(shorter[i - 1] == items@[i - 1]);
                if b < i {
                    assert(longer[b] == shorter[b]);
                }
            }
        }
        i = i + 1;
    }
    proof {
        if items@.len() > 0 {
            assert(items@.take(items@.len() as int) =~= items@);
        }
    }
    true
}

fn is_sorted_by_texture<T: Textured>(items: &Vec<T>) -> (r: bool)
    ensures
        r == sorted_by_texture(items@),
{
    let mut i: usize = 1;
    while i < items.len()
        invariant
            1 <= i,
            i <= items@.len() || i == 1,
            sorted_by_texture(items@.take(if i <= items@.len() {
                i as int
            } else {
                0
            })),
        decreases items@.len() - i,
    {
        let previous = items[i - 1].texture_key();
        let this = items[i].texture_key();
        let in_order = previous.0 < this.0 || previous.0 == this.0 && (previous.1 < this.1
            || previous.1 == this.1 && previous.2 <= this.2);
        assert(in_order == texture_at_most(items@[i - 1], items@[i as int]));
        if !in_order {
            return false;
        }
        proof {
            let shorter = items@.take(i as int);
            let longer = items@.take(i + 1);
            assert forall|a: int, b: int| 0 <= a < b < longer.len() implies texture_at_most(
                #[trigger] longer[a],
                #[trigger] longer[b],
            ) by {
                assert(longer[a] == shorter[a]);
                assert(shorter[i - 1] == items@[i - 1]);
                if b < i {
                    assert(longer[b] == shorter[b]);
                }
            }
        }
        i = i + 1;
    }
    proof {
        if items@.len() > 0 {
            assert(items@.take(items@.len() as int) =~= items@);
        }
    }
    true
}

/// `after` is `before` in painting order: items of one order keep their
/// sequence, and a list that was in order already is unchanged.
pub open spec fn finished_stably<T: Ordered>(before: Seq<T>, after: Seq<T>) -> bool {
    &&& sorted_by_order(after)
    &&& stably_rearranged(before, after)
    &&& sorted_by_order(before) ==> after == before
}

/// `after` is `before` in painting order, the sprites of one order by texture;
/// a list that was in order already is unchanged.
pub open spec fn finished_by_texture<T: Textured>(before: Seq<T>, after: Seq<T>) -> bool {
    &&& sorted_by_texture(after)
    &&& after.to_multiset() == before.to_multiset()
    &&& sorted_by_texture(before) ==> after == before
}

/// Puts a list in painting order. Items of one order keep their sequence, and
/// a list that is in order already is left alone.
pub fn sort_stable_if_needed<T: Ordered>(items: &mut Vec<T>)
    ensures
        finished_stably(old(items)@, final(items)@),
{
    if !is_sorted_by_order(items) {
        sort_by_draw_order(items);
    }
}

/// Puts a list of sprites in painting order, those of one order by texture.
/// A list that is in order already is left alone.
pub fn sort_unstable_if_needed<T: Textured>(items: &mut Vec<T>)
    ensures
        finished_by_texture(old(items)@, final(items)@),
{
    if !is_sorted_by_texture(items) {
        sort_by_draw_texture(items);
    }
}

/// Sprites that are sorted by texture are sorted by order.
pub proof fn lemma_sorted_by_texture_is_by_order<T: Textured>(items: Seq<T>)
    requires
        sorted_by_texture(items),
    ensures
        sorted_by_order(items),
{
    assert forall|i: int, j: int| 0 <= i < j < items.len() implies (
    #[trigger] items[i]).order_spec() <= (#[trigger] items[j]).order_spec() by {
        assert(texture_at_most(items[i], items[j]));
    }
}

proof fn lemma_of_order_counts<T: Ordered>(items: Seq<T>, item: T)
    ensures
        of_order(items, item.order_spec()).to_multiset().count(item)
            == items.to_multiset().count(item),
    decreases items.len(),
{
    broadcast use vstd::seq_lib::group_to_multiset_ensures;

    let order = item.order_spec();
    reveal(Seq::filter);
    if items.len() > 0 {
        let before = items.drop_last();
        let last = items.last();
        lemma_of_order_counts(before, item);
        assert(items =~= before.push(last));
        assert(of_order(items, order) == (if last.order_spec() == order {
            of_order(before, order).push(last)
        } else {
            of_order(before, order)
        }));
    }
}

/// To rearrange stably is to lose nothing and to add nothing.
pub proof fn lemma_stably_rearranged_keeps_items<T: Ordered>(before: Seq<T>, after: Seq<T>)
    requires
        stably_rearranged(before, after),
    ensures
        before.to_multiset() == after.to_multiset(),
{
    assert forall|item: T| before.to_multiset().count(item) == after.to_multiset().count(
        item,
    ) by {
        lemma_of_order_counts(before, item);
        lemma_of_order_counts(after, item);
        assert(of_order(after, item.order_spec()) == of_order(before, item.order_spec()));
    }
    assert(before.to_multiset() =~= after.to_multiset());
}

/// A list that was put in painting order once stays as it is.
pub proof fn lemma_finished_stably_stays<T: Ordered>(before: Seq<T>, once: Seq<T>, twice: Seq<T>)
    requires
        finished_stably(before, once),
        finished_stably(once, twice),
    ensures
        twice == once,
{
}

/// A list of sprites that was put in painting order once stays as it is.
pub proof fn lemma_finished_by_texture_stays<T: Textured>(
    before: Seq<T>,
    once: Seq<T>,
    twice: Seq<T>,
)
    requires
        finished_by_texture(before, once),
        finished_by_texture(once, twice),
    ensures
        twice == once,
{
}

/// Every kind of primitive is sorted by its own order, and sprites by the
/// texture of their own tile.
pub proof fn lemma_what_is_sorted_by<N>(
    shadow: Shadow<N>,
    quad: Quad<N>,
    effect: EffectQuad<N>,
    path: Path<N>,
    underline: Underline<N>,
    monochrome: MonochromeSprite<N>,
    subpixel: SubpixelSprite<N>,
    polychrome: PolychromeSprite<N>,
    surface: PaintSurface<N>,
)
    ensures
        shadow.order_spec() == shadow.order,
        quad.order_spec() == quad.order,
        effect.order_spec() == effect.order,
        path.order_spec() == path.order,
        underline.order_spec() == underline.order,
        monochrome.order_spec() == monochrome.order,
        subpixel.order_spec() == subpixel.order,
        polychrome.order_spec() == polychrome.order,
        surface.order_spec() == surface.order,
        monochrome.texture_spec() == monochrome.tile.texture_id,
        subpixel.texture_spec() == subpixel.tile.texture_id,
        polychrome.texture_spec() == polychrome.tile.texture_id,
{
}

/// In painting order no item is followed by one of a lower order, and a list
/// holds what it held before.
pub proof fn lemma_a_finished_list_is_in_order<T: Ordered>(
    before: Seq<T>,
    after: Seq<T>,
    i: int,
    j: int,
)
    requires
        finished_stably(before, after),
        0 <= i < j < after.len(),
    ensures
        after[i].order_spec() <= after[j].order_spec(),
        after.to_multiset() == before.to_multiset(),
{
    lemma_stably_rearranged_keeps_items(before, after);
}

/// The items of an order, in the sequence of a list.
pub open spec fn at_order<T: Ordered>(items: Seq<T>, order: DrawOrder) -> Seq<T>
    decreases items.len(),
{
    if items.len() == 0 {
        Seq::empty()
    } else if items.last().order_spec() == order {
        at_order(items.drop_last(), order).push(items.last())
    } else {
        at_order(items.drop_last(), order)
    }
}

proof fn lemma_of_order_is_at_order<T: Ordered>(items: Seq<T>, order: DrawOrder)
    ensures
        of_order(items, order) == at_order(items, order),
    decreases items.len(),
{
    reveal(Seq::filter);
    if items.len() > 0 {
        lemma_of_order_is_at_order(items.drop_last(), order);
    }
}

/// What was in a list before an item of the same order still is: the items of
/// one order are the same sequence before and after.
pub proof fn lemma_a_finished_list_keeps_sequences<T: Ordered>(
    before: Seq<T>,
    after: Seq<T>,
    order: DrawOrder,
)
    requires
        finished_stably(before, after),
    ensures
        at_order(after, order) == at_order(before, order),
{
    lemma_of_order_is_at_order(before, order);
    lemma_of_order_is_at_order(after, order);
    assert(of_order(after, order) == of_order(before, order));
}

/// In a finished list of sprites no sprite is followed by one of a lower order,
/// sprites of one order and texture follow each other, and the list holds what
/// it held before.
pub proof fn lemma_sprites_of_a_texture_are_together<T: Textured>(
    before: Seq<T>,
    after: Seq<T>,
    i: int,
    j: int,
    k: int,
)
    requires
        finished_by_texture(before, after),
        0 <= i < j < k < after.len(),
    ensures
        after[i].order_spec() <= after[j].order_spec() <= after[k].order_spec(),
        after[i].order_spec() == after[k].order_spec() && after[i].texture_spec()
            == after[k].texture_spec() ==> after[j].texture_spec() == after[i].texture_spec(),
        after.to_multiset() == before.to_multiset(),
{
    assert(texture_at_most(after[i], after[j]));
    assert(texture_at_most(after[j], after[k]));
    let (s, t) = (after[i].texture_spec().kind, after[j].texture_spec().kind);
    assert(s.rank_spec() == t.rank_spec() ==> s == t);
}

} // verus!
