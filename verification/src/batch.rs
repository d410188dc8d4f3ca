//! A finished scene as a sequence of draw calls.

use crate::bounds_tree::DrawOrder;
use crate::number::Scalar;
use crate::primitive::{
    kind_at, kind_at_spec, lemma_kind_at, AtlasTextureId, PrimitiveKind, KIND_COUNT,
};
use crate::scene::{DrawModel, Scene};
use crate::text::{decimal, decimal_digits, lemma_digits_are_read_back, read_as};
use core::ops::Range;
use vstd::prelude::*;
use vstd::string::StringExecFns;

verus! {

/// Consecutive primitives of one kind that are drawn together; sprites of one
/// batch share a texture.
#[derive(Debug)]
pub enum PrimitiveBatch {
    Shadows(Range<usize>),
    Quads(Range<usize>),
    Effects(Range<usize>),
    Paths(Range<usize>),
    Underlines(Range<usize>),
    MonochromeSprites { texture_id: AtlasTextureId, range: Range<usize> },
    SubpixelSprites { texture_id: AtlasTextureId, range: Range<usize> },
    PolychromeSprites { texture_id: AtlasTextureId, range: Range<usize> },
    Surfaces(Range<usize>),
}

impl PrimitiveBatch {
    /// The kind of the primitives.
    pub open spec fn kind(self) -> PrimitiveKind {
        match self {
            PrimitiveBatch::Shadows(_) => PrimitiveKind::Shadow,
            PrimitiveBatch::Quads(_) => PrimitiveKind::Quad,
            PrimitiveBatch::Effects(_) => PrimitiveKind::Effect,
            PrimitiveBatch::Paths(_) => PrimitiveKind::Path,
            PrimitiveBatch::Underlines(_) => PrimitiveKind::Underline,
            PrimitiveBatch::MonochromeSprites { .. } => PrimitiveKind::MonochromeSprite,
            PrimitiveBatch::SubpixelSprites { .. } => PrimitiveKind::SubpixelSprite,
            PrimitiveBatch::PolychromeSprites { .. } => PrimitiveKind::PolychromeSprite,
            PrimitiveBatch::Surfaces(_) => PrimitiveKind::Surface,
        }
    }

    /// Where in the list of their kind the primitives are.
    pub open spec fn range(self) -> Range<usize> {
        match self {
            PrimitiveBatch::Shadows(range) => range,
            PrimitiveBatch::Quads(range) => range,
            PrimitiveBatch::Effects(range) => range,
            PrimitiveBatch::Paths(range) => range,
            PrimitiveBatch::Underlines(range) => range,
            PrimitiveBatch::MonochromeSprites { range, .. } => range,
            PrimitiveBatch::SubpixelSprites { range, .. } => range,
            PrimitiveBatch::PolychromeSprites { range, .. } => range,
            PrimitiveBatch::Surfaces(range) => range,
        }
    }

    /// The texture that sprites are drawn from.
    pub open spec fn texture(self) -> Option<AtlasTextureId> {
        match self {
            PrimitiveBatch::MonochromeSprites { texture_id, .. } => Some(texture_id),
            PrimitiveBatch::SubpixelSprites { texture_id, .. } => Some(texture_id),
            PrimitiveBatch::PolychromeSprites { texture_id, .. } => Some(texture_id),
            _ => None,
        }
    }

    /// What the kind is called.
    pub open spec fn title(self) -> Seq<char> {
        match self {
            PrimitiveBatch::Shadows(_) => "shadows"@,
            PrimitiveBatch::Quads(_) => "quads"@,
            PrimitiveBatch::Effects(_) => "effects"@,
            PrimitiveBatch::Paths(_) => "paths"@,
            PrimitiveBatch::Underlines(_) => "underlines"@,
            PrimitiveBatch::MonochromeSprites { .. } => "monochrome sprites"@,
            PrimitiveBatch::SubpixelSprites { .. } => "subpixel sprites"@,
            PrimitiveBatch::PolychromeSprites { .. } => "polychrome sprites"@,
            PrimitiveBatch::Surfaces(_) => "surfaces"@,
        }
    }

    /// How many primitives a range holds; none if it ends before it starts.
    pub open spec fn count(self) -> nat {
        if self.range().start <= self.range().end {
            (self.range().end - self.range().start) as nat
        } else {
            0
        }
    }

    /// The kind and the number, and of sprites the index of the texture.
    pub open spec fn label_text(self) -> Seq<char> {
        match self.texture() {
            Some(texture) => self.title() + " ("@ + decimal_digits(self.count())
                + ") on atlas "@ + decimal_digits(texture.index as nat),
            None => self.title() + " ("@ + decimal_digits(self.count()) + ")"@,
        }
    }

    /// The kind and the number of the primitives, and of sprites the index of
    /// the texture: `quads (3)`, `monochrome sprites (2) on atlas 1`.
    pub fn label(&self) -> (r: String)
        ensures
            r@ == (match self.texture() {
                Some(texture) => self.title() + " ("@ + decimal_digits(self.count())
                    + ") on atlas "@ + decimal_digits(texture.index as nat),
                None => self.title() + " ("@ + decimal_digits(self.count()) + ")"@,
            }),
            r@ == self.label_text(),
    {
        match self {
            PrimitiveBatch::Shadows(range) => counted("shadows", range),
            PrimitiveBatch::Quads(range) => counted("quads", range),
            PrimitiveBatch::Effects(range) => counted("effects", range),
            PrimitiveBatch::Paths(range) => counted("paths", range),
            PrimitiveBatch::Underlines(range) => counted("underlines", range),
            PrimitiveBatch::MonochromeSprites { texture_id, range } => {
                counted_on_atlas("monochrome sprites", range, texture_id.index)
            },
            PrimitiveBatch::SubpixelSprites { texture_id, range } => {
                counted_on_atlas("subpixel sprites", range, texture_id.index)
            },
            PrimitiveBatch::PolychromeSprites { texture_id, range } => {
                counted_on_atlas("polychrome sprites", range, texture_id.index)
            },
            PrimitiveBatch::Surfaces(range) => counted("surfaces", range),
        }
    }
}

fn range_len(range: &Range<usize>) -> (r: u64)
    ensures
        r == (if range.start <= range.end {
            range.end - range.start
        } else {
            0
        }),
{
    if range.start <= range.end {
        (range.end - range.start) as u64
    } else {
        0
    }
}

fn counted(title: &str, range: &Range<usize>) -> (r: String)
    ensures
        r@ == title@ + " ("@ + decimal_digits(
            if range.start <= range.end {
                (range.end - range.start) as nat
            } else {
                0
            },
        ) + ")"@,
{
    let mut text = String::from_str(title);
    text.append(" (");
    text.append(decimal(range_len(range)).as_str());
    text.append(")");
    text
}

fn counted_on_atlas(title: &str, range: &Range<usize>, index: u32) -> (r: String)
    ensures
        r@ == title@ + " ("@ + decimal_digits(
            if range.start <= range.end {
                (range.end - range.start) as nat
            } else {
                0
            },
        ) + ") on atlas "@ + decimal_digits(index as nat),
{
    let mut text = String::from_str(title);
    text.append(" (");
    text.append(decimal(range_len(range)).as_str());
    text.append(") on atlas ");
    text.append(decimal(index as u64).as_str());
    text
}

/// A place in the painting sequence: an order, and a kind within it.
pub type PaintKey = (DrawOrder, u8);

/// `a` is painted before `b`.
pub open spec fn key_before(a: PaintKey, b: PaintKey) -> bool {
    a.0 < b.0 || a.0 == b.0 && a.1 < b.1
}

/// `a` is not painted after `b`.
pub open spec fn key_at_most(a: PaintKey, b: PaintKey) -> bool {
    a == b || key_before(a, b)
}

fn is_key_before(a: PaintKey, b: PaintKey) -> (r: bool)
    ensures
        r == key_before(a, b),
{
    a.0 < b.0 || a.0 == b.0 && a.1 < b.1
}

impl<N> DrawModel<N> {
    /// The texture of the sprite of a kind at an index; other primitives have
    /// none.
    pub open spec fn texture(self, kind: PrimitiveKind, index: int) -> Option<AtlasTextureId> {
        match kind {
            PrimitiveKind::MonochromeSprite => Some(
                self.monochrome_sprites[index].tile.texture_id,
            ),
            PrimitiveKind::SubpixelSprite => Some(self.subpixel_sprites[index].tile.texture_id),
            PrimitiveKind::PolychromeSprite => Some(self.polychrome_sprites[index].tile.texture_id),
            _ => None,
        }
    }

    /// The place of a primitive in the painting sequence.
    pub open spec fn key(self, kind: PrimitiveKind, index: int) -> PaintKey {
        (self.order(kind, index), kind.rank_spec())
    }

    /// The place of the first primitive of a kind that is left; a kind of
    /// which none is left counts as the highest order.
    pub open spec fn head(self, starts: Seq<usize>, kind: PrimitiveKind) -> PaintKey {
        let start = starts[kind.rank_spec() as int];
        if start < self.len(kind) {
            self.key(kind, start as int)
        } else {
            (u32::MAX, kind.rank_spec())
        }
    }

    /// No kind comes before `kind`.
    pub open spec fn leads(self, starts: Seq<usize>, kind: PrimitiveKind) -> bool {
        forall|other: PrimitiveKind|
            key_at_most(self.head(starts, kind), #[trigger] self.head(starts, other))
    }

    /// The kind that is painted next.
    pub open spec fn leader(self, starts: Seq<usize>) -> PrimitiveKind {
        choose|kind: PrimitiveKind| self.leads(starts, kind)
    }

    /// A primitive is painted before what is left of every other kind.
    pub open spec fn precedes_others(
        self,
        starts: Seq<usize>,
        kind: PrimitiveKind,
        index: int,
    ) -> bool {
        forall|other: PrimitiveKind|
            other != kind ==> key_before(
                self.key(kind, index),
                #[trigger] self.head(starts, other),
            )
    }

    /// Where the batch ends that reaches up to `index`: it goes on as long as
    /// the primitives precede every other kind and share their texture.
    pub open spec fn batch_end(
        self,
        starts: Seq<usize>,
        kind: PrimitiveKind,
        texture: Option<AtlasTextureId>,
        index: int,
    ) -> int
        decreases self.len(kind) - index,
    {
        if 0 <= index < self.len(kind) && self.precedes_others(starts, kind, index)
            && self.texture(kind, index) == texture {
            self.batch_end(starts, kind, texture, index + 1)
        } else {
            index
        }
    }

    /// A batch of a kind.
    pub open spec fn batch(self, kind: PrimitiveKind, start: usize, end: usize) -> PrimitiveBatch {
        let range = Range { start, end };
        let texture = self.texture(kind, start as int);
        match kind {
            PrimitiveKind::Shadow => PrimitiveBatch::Shadows(range),
            PrimitiveKind::Quad => PrimitiveBatch::Quads(range),
            PrimitiveKind::Effect => PrimitiveBatch::Effects(range),
            PrimitiveKind::Path => PrimitiveBatch::Paths(range),
            PrimitiveKind::Underline => PrimitiveBatch::Underlines(range),
            PrimitiveKind::MonochromeSprite => PrimitiveBatch::MonochromeSprites {
                texture_id: texture->0,
                range,
            },
            PrimitiveKind::SubpixelSprite => PrimitiveBatch::SubpixelSprites {
                texture_id: texture->0,
                range,
            },
            PrimitiveKind::PolychromeSprite => PrimitiveBatch::PolychromeSprites {
                texture_id: texture->0,
                range,
            },
            PrimitiveKind::Surface => PrimitiveBatch::Surfaces(range),
        }
    }

    /// The batch that is painted next, `None` if the leading kind has nothing
    /// left.
    pub open spec fn next_batch(self, starts: Seq<usize>) -> Option<PrimitiveBatch> {
        let kind = self.leader(starts);
        let start = starts[kind.rank_spec() as int];
        if start < self.len(kind) {
            let texture = self.texture(kind, start as int);
            Some(
                self.batch(kind, start, self.batch_end(starts, kind, texture, start + 1) as usize),
            )
        } else {
            None
        }
    }
}

/// Nothing was painted yet.
pub open spec fn all_starts() -> Seq<usize> {
    Seq::new(KIND_COUNT as nat, |rank: int| 0usize)
}

/// What is left after a batch was painted.
pub open spec fn starts_after(starts: Seq<usize>, batch: PrimitiveBatch) -> Seq<usize> {
    starts.update(batch.kind().rank_spec() as int, batch.range().end)
}

impl<N> DrawModel<N> {
    /// Every list can be indexed, as lists in memory can.
    pub open spec fn addressable(self) -> bool {
        forall|kind: PrimitiveKind| #[trigger] self.len(kind) <= usize::MAX
    }

    /// How many primitives of the first `ranks` kinds are left.
    pub open spec fn left(self, starts: Seq<usize>, ranks: nat) -> nat
        decreases ranks,
    {
        if ranks == 0 {
            0
        } else {
            let rank = (ranks - 1) as int;
            let len = self.len(kind_at_spec(rank));
            self.left(starts, (ranks - 1) as nat) + (if starts[rank] < len {
                (len - starts[rank]) as nat
            } else {
                0
            })
        }
    }

    /// The batches of what is left, in painting order.
    pub open spec fn batches_from(self, starts: Seq<usize>) -> Seq<PrimitiveBatch>
        decreases self.left(starts, KIND_COUNT as nat),
            when self.addressable() && starts.len() == KIND_COUNT
    {
        match self.next_batch(starts) {
            Some(batch) => {
                proof {
                    lemma_batch_advances(self, starts);
                }
                seq![batch] + self.batches_from(starts_after(starts, batch))
            },
            None => Seq::empty(),
        }
    }

    /// The batches of the whole scene, in painting order.
    pub open spec fn batches(self) -> Seq<PrimitiveBatch> {
        self.batches_from(all_starts())
    }
}

proof fn lemma_batch_end_bounds<N>(
    drawn: DrawModel<N>,
    starts: Seq<usize>,
    kind: PrimitiveKind,
    texture: Option<AtlasTextureId>,
    index: int,
)
    requires
        0 <= index <= drawn.len(kind),
    ensures
        index <= drawn.batch_end(starts, kind, texture, index) <= drawn.len(kind),
        forall|i: int|
            index <= i < drawn.batch_end(starts, kind, texture, index)
                ==> #[trigger] drawn.texture(kind, i) == texture && drawn.precedes_others(
                starts,
                kind,
                i,
            ),
    decreases drawn.len(kind) - index,
{
    if index < drawn.len(kind) && drawn.precedes_others(starts, kind, index) && drawn.texture(
        kind,
        index,
    ) == texture {
        lemma_batch_end_bounds(drawn, starts, kind, texture, index + 1);
    }
}

proof fn lemma_left_after<N>(drawn: DrawModel<N>, starts: Seq<usize>, rank: int, end: usize, n: nat)
    requires
        starts.len() == KIND_COUNT,
        n <= KIND_COUNT,
        0 <= rank < KIND_COUNT,
        starts[rank] < end <= drawn.len(kind_at_spec(rank)),
    ensures
        rank >= n ==> drawn.left(starts.update(rank, end), n) == drawn.left(starts, n),
        rank < n ==> drawn.left(starts.update(rank, end), n) < drawn.left(starts, n),
    decreases n,
{
    if n > 0 {
        lemma_left_after(drawn, starts, rank, end, (n - 1) as nat);
    }
}

/// A batch holds at least one primitive, starts where the last batch of its
/// kind ended, and stays within the list of its kind.
pub proof fn lemma_batch_advances<N>(drawn: DrawModel<N>, starts: Seq<usize>)
    requires
        drawn.addressable(),
        starts.len() == KIND_COUNT,
    ensures
        drawn.next_batch(starts) matches Some(batch) ==> {
            let rank = batch.kind().rank_spec() as int;
            &&& batch.kind() == drawn.leader(starts)
            &&& batch.range().start == starts[rank]
            &&& batch.range().start < batch.range().end <= drawn.len(batch.kind())
            &&& batch.texture() == drawn.texture(batch.kind(), batch.range().start as int)
            &&& batch.range().end == drawn.batch_end(
                starts,
                batch.kind(),
                batch.texture(),
                batch.range().start + 1,
            )
            &&& drawn.left(starts_after(starts, batch), KIND_COUNT as nat) < drawn.left(
                starts,
                KIND_COUNT as nat,
            )
        },
{
    if drawn.next_batch(starts) is Some {
        let batch = drawn.next_batch(starts)->0;
        let kind = drawn.leader(starts);
        let rank = kind.rank_spec() as int;
        let start = starts[rank];
        let texture = drawn.texture(kind, start as int);
        assert(drawn.len(kind) <= usize::MAX);
        lemma_kind_at(kind);
        lemma_batch_end_bounds(drawn, starts, kind, texture, start + 1);
        lemma_left_after(drawn, starts, rank, batch.range().end, KIND_COUNT as nat);
    }
}

proof fn lemma_leader_is<N>(drawn: DrawModel<N>, starts: Seq<usize>, kind: PrimitiveKind)
    requires
        drawn.leads(starts, kind),
    ensures
        drawn.leader(starts) == kind,
{
    let leader = drawn.leader(starts);
    assert(drawn.leads(starts, leader));
    assert(key_at_most(drawn.head(starts, kind), drawn.head(starts, leader)));
    assert(key_at_most(drawn.head(starts, leader), drawn.head(starts, kind)));
    lemma_kind_at(kind);
    lemma_kind_at(leader);
}

impl<N: Scalar> Scene<N> {
    fn count_of(&self, kind: PrimitiveKind) -> (r: usize)
        ensures
            r == self.drawn().len(kind),
    {
        match kind {
            PrimitiveKind::Shadow => self.shadows.len(),
            PrimitiveKind::Quad => self.quads.len(),
            PrimitiveKind::Effect => self.effects.len(),
            PrimitiveKind::Path => self.paths.len(),
            PrimitiveKind::Underline => self.underlines.len(),
            PrimitiveKind::MonochromeSprite => self.monochrome_sprites.len(),
            PrimitiveKind::SubpixelSprite => self.subpixel_sprites.len(),
            PrimitiveKind::PolychromeSprite => self.polychrome_sprites.len(),
            PrimitiveKind::Surface => self.surfaces.len(),
        }
    }

    fn order_of(&self, kind: PrimitiveKind, index: usize) -> (r: DrawOrder)
        requires
            index < self.drawn().len(kind),
        ensures
            r == self.drawn().order(kind, index as int),
    {
        match kind {
            PrimitiveKind::Shadow => self.shadows[index].order,
            PrimitiveKind::Quad => self.quads[index].order,
            PrimitiveKind::Effect => self.effects[index].order,
            PrimitiveKind::Path => self.paths[index].order,
            PrimitiveKind::Underline => self.underlines[index].order,
            PrimitiveKind::MonochromeSprite => self.monochrome_sprites[index].order,
            PrimitiveKind::SubpixelSprite => self.subpixel_sprites[index].order,
            PrimitiveKind::PolychromeSprite => self.polychrome_sprites[index].order,
            PrimitiveKind::Surface => self.surfaces[index].order,
        }
    }

    fn texture_of(&self, kind: PrimitiveKind, index: usize) -> (r: Option<AtlasTextureId>)
        requires
            index < self.drawn().len(kind),
        ensures
            r == self.drawn().texture(kind, index as int),
    {
        match kind {
            PrimitiveKind::MonochromeSprite => Some(
                self.monochrome_sprites[index].tile.texture_id,
            ),
            PrimitiveKind::SubpixelSprite => Some(self.subpixel_sprites[index].tile.texture_id),
            PrimitiveKind::PolychromeSprite => Some(self.polychrome_sprites[index].tile.texture_id),
            _ => None,
        }
    }

    /// The batches of the scene, in painting order.
    pub fn batches(&self) -> (r: Vec<PrimitiveBatch>)
        ensures
            r@ == self.drawn().batches(),
    {
        let mut iterator = BatchIterator::new(self);
        let mut batches: Vec<PrimitiveBatch> = Vec::new();
        let ghost drawn = self.drawn();
        proof {
            self.lemma_addressable();
            assert(batches@ + drawn.batches() =~= drawn.batches());
        }
        loop
            invariant
                iterator.wf(),
                iterator.drawn() == drawn,
                drawn == self.drawn(),
                drawn.addressable(),
                batches@ + drawn.batches_from(iterator.starts()) == drawn.batches(),
            ensures
                batches@ == drawn.batches(),
            decreases drawn.left(iterator.starts(), KIND_COUNT as nat),
        {
            let ghost starts = iterator.starts();
            proof {
                lemma_batch_advances(drawn, starts);
            }
            match iterator.next() {
                Some(batch) => {
                    proof {
                        let rest = drawn.batches_from(starts_after(starts, batch));
                        assert(batches@ + (seq![batch] + rest) =~= batches@.push(batch) + rest);
                    }
                    batches.push(batch);
                },
                None => {
                    assert(batches@ + Seq::<PrimitiveBatch>::empty() =~= batches@);
                    break ;
                },
            }
        }
        batches
    }

    proof fn lemma_addressable(&self)
        ensures
            self.drawn().addressable(),
    {
        assert forall|kind: PrimitiveKind| #[trigger] self.drawn().len(kind) <= usize::MAX by {
            match kind {
                PrimitiveKind::Shadow => assert(self.shadows.len() <= usize::MAX),
                PrimitiveKind::Quad => assert(self.quads.len() <= usize::MAX),
                PrimitiveKind::Effect => assert(self.effects.len() <= usize::MAX),
                PrimitiveKind::Path => assert(self.paths.len() <= usize::MAX),
                PrimitiveKind::Underline => assert(self.underlines.len() <= usize::MAX),
                PrimitiveKind::MonochromeSprite => assert(self.monochrome_sprites.len()
                    <= usize::MAX),
                PrimitiveKind::SubpixelSprite => assert(self.subpixel_sprites.len() <= usize::MAX),
                PrimitiveKind::PolychromeSprite => assert(self.polychrome_sprites.len()
                    <= usize::MAX),
                PrimitiveKind::Surface => assert(self.surfaces.len() <= usize::MAX),
            }
        }
    }
}

/// Hands out the batches of a scene one after the other.
pub struct BatchIterator<'a, N> {
    scene: &'a Scene<N>,
    /// Where the next batch of each kind starts.
    starts: Vec<usize>,
}

impl<'a, N: Scalar> BatchIterator<'a, N> {
    /// What the scene draws.
    pub closed spec fn drawn(&self) -> DrawModel<N> {
        self.scene.drawn()
    }

    /// Where the next batch of each kind starts.
    pub closed spec fn starts(&self) -> Seq<usize> {
        self.starts@
    }

    /// There is a start for each kind.
    pub open spec fn wf(&self) -> bool {
        self.starts().len() == KIND_COUNT
    }

    /// Starts with the first batch of a scene.
    pub fn new(scene: &'a Scene<N>) -> (r: Self)
        ensures
            r.wf(),
            r.drawn() == scene.drawn(),
            r.starts() == all_starts(),
    {
        let mut starts: Vec<usize> = Vec::new();
        let mut rank: usize = 0;
        while rank < KIND_COUNT
            invariant
                rank <= KIND_COUNT,
                starts@ == Seq::new(rank as nat, |rank: int| 0usize),
            decreases KIND_COUNT - rank,
        {
            starts.push(0);
            rank = rank + 1;
            assert(starts@ =~= Seq::new(rank as nat, |rank: int| 0usize));
        }
        BatchIterator { scene, starts }
    }

    fn head(&self, kind: PrimitiveKind) -> (r: PaintKey)
        requires
            self.wf(),
        ensures
            r == self.drawn().head(self.starts(), kind),
    {
        proof {
            lemma_kind_at(kind);
        }
        let start = self.starts[kind.rank() as usize];
        if start < self.scene.count_of(kind) {
            (self.scene.order_of(kind, start), kind.rank())
        } else {
            (u32::MAX, kind.rank())
        }
    }

    /// The kind that leads, and a key that a primitive of that kind is before
    /// if and only if it precedes every other kind.
    fn leader(&self) -> (r: (PrimitiveKind, PaintKey))
        requires
            self.wf(),
        ensures
            self.drawn().leads(self.starts(), r.0),
            forall|index: int|
                #![trigger self.drawn().precedes_others(self.starts(), r.0, index)]
                self.drawn().precedes_others(self.starts(), r.0, index) == key_before(
                    self.drawn().key(r.0, index),
                    r.1,
                ),
    {
        let ghost drawn = self.drawn();
        let ghost starts = self.starts();
        let mut first: usize = 0;
        let mut first_key: PaintKey = self.head(kind_at(0));
        let mut second_key: PaintKey = (u32::MAX, u8::MAX);
        let ghost mut second: int = -1;
        let mut rank: usize = 1;
        while rank < KIND_COUNT
            invariant
                self.wf(),
                drawn == self.drawn(),
                starts == self.starts(),
                1 <= rank <= KIND_COUNT,
                first < rank,
                first_key == drawn.head(starts, kind_at_spec(first as int)),
                rank == 1 ==> second == -1 && second_key == (u32::MAX, u8::MAX),
                rank > 1 ==> 0 <= second < rank && second != first && second_key == drawn.head(
                    starts,
                    kind_at_spec(second),
                ),
                forall|i: int|
                    0 <= i < rank ==> key_at_most(
                        first_key,
                        drawn.head(starts, #[trigger] kind_at_spec(i)),
                    ),
                forall|i: int|
                    0 <= i < rank && i != first ==> key_at_most(
                        second_key,
                        drawn.head(starts, #[trigger] kind_at_spec(i)),
                    ),
            decreases KIND_COUNT - rank,
        {
            let kind = kind_at(rank);
            let key = self.head(kind);
            if is_key_before(key, first_key) {
                proof {
                    second = first as int;
                }
                second_key = first_key;
                first = rank;
                first_key = key;
            } else if is_key_before(key, second_key) {
                proof {
                    second = rank as int;
                }
                second_key = key;
            }
            rank = rank + 1;
        }
        let leader = kind_at(first);
        proof {
            assert forall|other: PrimitiveKind| key_at_most(
                drawn.head(starts, leader),
                #[trigger] drawn.head(starts, other),
            ) by {
                lemma_kind_at(other);
                assert(kind_at_spec(other.rank_spec() as int) == other);
            }
            assert forall|index: int|
                #![trigger drawn.precedes_others(starts, leader, index)]
                drawn.precedes_others(starts, leader, index) == key_before(
                    drawn.key(leader, index),
                    second_key,
                ) by {
                let key = drawn.key(leader, index);
                if key_before(key, second_key) {
                    assert forall|other: PrimitiveKind| other != leader implies key_before(
                        key,
                        #[trigger] drawn.head(starts, other),
                    ) by {
                        lemma_kind_at(other);
                        assert(kind_at_spec(other.rank_spec() as int) == other);
                    }
                } else {
                    let other = kind_at_spec(second);
                    assert(other.rank_spec() == second);
                    assert(!key_before(key, drawn.head(starts, other)));
                }
            }
        }
        (leader, second_key)
    }

    /// The next batch, `None` when the leading kind has nothing left.
    pub fn next(&mut self) -> (r: Option<PrimitiveBatch>)
        requires
            old(self).wf(),
        ensures
            final(self).wf(),
            final(self).drawn() == old(self).drawn(),
            r == old(self).drawn().next_batch(old(self).starts()),
            final(self).starts() == (match r {
                Some(batch) => starts_after(old(self).starts(), batch),
                None => old(self).starts(),
            }),
    {
        let ghost drawn = self.drawn();
        let ghost starts = self.starts();
        let (kind, limit) = self.leader();
        proof {
            lemma_leader_is(drawn, starts, kind);
            lemma_kind_at(kind);
        }
        let rank: usize = kind.rank() as usize;
        let start: usize = self.starts[rank];
        let count: usize = self.scene.count_of(kind);
        if start >= count {
            return None;
        }
        let texture = self.scene.texture_of(kind, start);
        let mut end: usize = start + 1;
        while end < count && is_key_before((self.scene.order_of(kind, end), kind.rank()), limit)
            && self.scene.texture_of(kind, end) == texture
            invariant
                drawn == self.drawn(),
                count == drawn.len(kind),
                start < end <= count,
                drawn.batch_end(starts, kind, texture, end as int) == drawn.batch_end(
                    starts,
                    kind,
                    texture,
                    start + 1,
                ),
                forall|index: int|
                    #![trigger drawn.precedes_others(starts, kind, index)]
                    drawn.precedes_others(starts, kind, index) == key_before(
                        drawn.key(kind, index),
                        limit,
                    ),
            decreases count - end,
        {
            assert(drawn.precedes_others(starts, kind, end as int));
            end = end + 1;
        }
        assert(drawn.batch_end(starts, kind, texture, end as int) == end) by {
            if end < count {
                assert(drawn.precedes_others(starts, kind, end as int) == key_before(
                    drawn.key(kind, end as int),
                    limit,
                ));
            }
        }
        self.starts.set(rank, end);
        let range = start..end;
        let batch = match kind {
            PrimitiveKind::Shadow => PrimitiveBatch::Shadows(range),
            PrimitiveKind::Quad => PrimitiveBatch::Quads(range),
            PrimitiveKind::Effect => PrimitiveBatch::Effects(range),
            PrimitiveKind::Path => PrimitiveBatch::Paths(range),
            PrimitiveKind::Underline => PrimitiveBatch::Underlines(range),
            PrimitiveKind::MonochromeSprite => PrimitiveBatch::MonochromeSprites {
                texture_id: self.scene.monochrome_sprites[start].tile.texture_id,
                range,
            },
            PrimitiveKind::SubpixelSprite => PrimitiveBatch::SubpixelSprites {
                texture_id: self.scene.subpixel_sprites[start].tile.texture_id,
                range,
            },
            PrimitiveKind::PolychromeSprite => PrimitiveBatch::PolychromeSprites {
                texture_id: self.scene.polychrome_sprites[start].tile.texture_id,
                range,
            },
            PrimitiveKind::Surface => PrimitiveBatch::Surfaces(range),
        };
        Some(batch)
    }
}

impl PrimitiveBatch {
    /// The primitive of a kind at an index is in this batch.
    pub open spec fn holds(self, kind: PrimitiveKind, index: int) -> bool {
        self.kind() == kind && self.range().start <= index < self.range().end
    }
}

impl<N> DrawModel<N> {
    /// No primitive has the highest order.
    pub open spec fn orders_remain(self) -> bool {
        forall|kind: PrimitiveKind, i: int|
            0 <= i < self.len(kind) ==> #[trigger] self.order(kind, i) < u32::MAX
    }

    /// Nothing before a start is left, and no start is beyond the end.
    pub open spec fn starts_within(self, starts: Seq<usize>) -> bool {
        &&& starts.len() == KIND_COUNT
        &&& forall|kind: PrimitiveKind|
            starts[#[trigger] kind.rank_spec() as int] <= self.len(kind)
    }
}

proof fn lemma_some_leads_below<N>(drawn: DrawModel<N>, starts: Seq<usize>, ranks: int) -> (r:
    PrimitiveKind)
    requires
        1 <= ranks <= KIND_COUNT,
    ensures
        forall|i: int|
            0 <= i < ranks ==> key_at_most(
                drawn.head(starts, r),
                drawn.head(starts, #[trigger] kind_at_spec(i)),
            ),
    decreases ranks,
{
    let last = kind_at_spec(ranks - 1);
    if ranks == 1 {
        last
    } else {
        let before = lemma_some_leads_below(drawn, starts, ranks - 1);
        if key_before(drawn.head(starts, last), drawn.head(starts, before)) {
            last
        } else {
            before
        }
    }
}

proof fn lemma_leader_leads<N>(drawn: DrawModel<N>, starts: Seq<usize>)
    ensures
        drawn.leads(starts, drawn.leader(starts)),
{
    let kind = lemma_some_leads_below(drawn, starts, KIND_COUNT as int);
    assert forall|other: PrimitiveKind| key_at_most(
        drawn.head(starts, kind),
        #[trigger] drawn.head(starts, other),
    ) by {
        lemma_kind_at(other);
        assert(kind_at_spec(other.rank_spec() as int) == other);
    }
    assert(drawn.leads(starts, kind));
}

proof fn lemma_rest<N>(drawn: DrawModel<N>, starts: Seq<usize>)
    requires
        drawn.addressable(),
        drawn.starts_within(starts),
    ensures
        drawn.next_batch(starts) matches Some(batch) ==> {
            let rest = drawn.batches_from(starts_after(starts, batch));
            &&& drawn.starts_within(starts_after(starts, batch))
            &&& drawn.batches_from(starts) == seq![batch] + rest
            &&& drawn.batches_from(starts)[0] == batch
            &&& drawn.batches_from(starts).len() == rest.len() + 1
            &&& forall|i: int|
                1 <= i <= rest.len() ==> #[trigger] drawn.batches_from(starts)[i] == rest[i - 1]
        },
        drawn.next_batch(starts) is None ==> drawn.batches_from(starts).len() == 0,
{
    lemma_batch_advances(drawn, starts);
    if drawn.next_batch(starts) is Some {
        let batch = drawn.next_batch(starts)->0;
        let after = starts_after(starts, batch);
        lemma_kind_at(batch.kind());
        assert forall|kind: PrimitiveKind| after[#[trigger] kind.rank_spec() as int] <= drawn.len(
            kind,
        ) by {
            lemma_kind_at(kind);
            assert(starts[kind.rank_spec() as int] <= drawn.len(kind));
        }
    }
}

proof fn lemma_batches_start_late<N>(drawn: DrawModel<N>, starts: Seq<usize>, i: int)
    requires
        drawn.addressable(),
        drawn.starts_within(starts),
        0 <= i < drawn.batches_from(starts).len(),
    ensures
        ({
            let batch = drawn.batches_from(starts)[i];
            &&& starts[batch.kind().rank_spec() as int] <= batch.range().start
            &&& batch.range().start < batch.range().end <= drawn.len(batch.kind())
        }),
    decreases drawn.left(starts, KIND_COUNT as nat),
{
    lemma_rest(drawn, starts);
    lemma_batch_advances(drawn, starts);
    if drawn.next_batch(starts) is Some && i > 0 {
        let first = drawn.next_batch(starts)->0;
        let after = starts_after(starts, first);
        lemma_batches_start_late(drawn, after, i - 1);
        let batch = drawn.batches_from(starts)[i];
        lemma_kind_at(batch.kind());
        lemma_kind_at(first.kind());
    }
}

proof fn lemma_batches_are_apart<N>(drawn: DrawModel<N>, starts: Seq<usize>, i: int, j: int)
    requires
        drawn.addressable(),
        drawn.starts_within(starts),
        0 <= i < j < drawn.batches_from(starts).len(),
        drawn.batches_from(starts)[i].kind() == drawn.batches_from(starts)[j].kind(),
    ensures
        drawn.batches_from(starts)[i].range().end <= drawn.batches_from(starts)[j].range().start,
    decreases drawn.left(starts, KIND_COUNT as nat),
{
    lemma_rest(drawn, starts);
    lemma_batch_advances(drawn, starts);
    let first = drawn.next_batch(starts)->0;
    let after = starts_after(starts, first);
    lemma_kind_at(first.kind());
    if i > 0 {
        lemma_batches_are_apart(drawn, after, i - 1, j - 1);
    } else {
        lemma_batches_start_late(drawn, after, j - 1);
    }
}

proof fn lemma_batches_reach<N>(
    drawn: DrawModel<N>,
    starts: Seq<usize>,
    kind: PrimitiveKind,
    index: int,
) -> (i: int)
    requires
        drawn.addressable(),
        drawn.starts_within(starts),
        drawn.orders_remain(),
        starts[kind.rank_spec() as int] <= index < drawn.len(kind),
    ensures
        0 <= i < drawn.batches_from(starts).len(),
        drawn.batches_from(starts)[i].holds(kind, index),
    decreases drawn.left(starts, KIND_COUNT as nat),
{
    lemma_rest(drawn, starts);
    lemma_batch_advances(drawn, starts);
    lemma_leader_leads(drawn, starts);
    lemma_kind_at(kind);
    let leader = drawn.leader(starts);
    lemma_kind_at(leader);
    let start = starts[kind.rank_spec() as int] as int;
    assert(drawn.order(kind, start) < u32::MAX);
    assert(key_at_most(drawn.head(starts, leader), drawn.head(starts, kind)));
    let first = drawn.next_batch(starts)->0;
    let after = starts_after(starts, first);
    if first.holds(kind, index) {
        0
    } else {
        let i = lemma_batches_reach(drawn, after, kind, index);
        assert(drawn.batches_from(starts)[i + 1] == drawn.batches_from(after)[i]);
        i + 1
    }
}

proof fn lemma_all_starts<N>(drawn: DrawModel<N>)
    ensures
        drawn.starts_within(all_starts()),
{
    assert forall|kind: PrimitiveKind|
        all_starts()[#[trigger] kind.rank_spec() as int] <= drawn.len(kind) by {
        lemma_kind_at(kind);
    }
}

/// Every primitive that a scene draws is in exactly one batch, as long as none
/// has the highest order. (One that has may be left out: it does not come
/// before a kind of which nothing is left.)
pub proof fn lemma_every_primitive_is_in_one_batch<N>(
    drawn: DrawModel<N>,
    kind: PrimitiveKind,
    index: int,
)
    requires
        drawn.addressable(),
        drawn.orders_remain(),
        0 <= index < drawn.len(kind),
    ensures
        exists|i: int|
            0 <= i < drawn.batches().len() && (#[trigger] drawn.batches()[i]).holds(kind, index),
        forall|i: int, j: int|
            0 <= i < drawn.batches().len() && 0 <= j < drawn.batches().len() && (
            #[trigger] drawn.batches()[i]).holds(kind, index) && (
            #[trigger] drawn.batches()[j]).holds(kind, index) ==> i == j,
{
    let starts = all_starts();
    lemma_all_starts(drawn);
    lemma_kind_at(kind);
    let i = lemma_batches_reach(drawn, starts, kind, index);
    assert(drawn.batches()[i].holds(kind, index));
    assert forall|i: int, j: int|
        0 <= i < drawn.batches().len() && 0 <= j < drawn.batches().len() && (
        #[trigger] drawn.batches()[i]).holds(kind, index) && (
        #[trigger] drawn.batches()[j]).holds(kind, index) implies i == j by {
        if i < j {
            lemma_batches_are_apart(drawn, starts, i, j);
        } else if j < i {
            lemma_batches_are_apart(drawn, starts, j, i);
        }
    }
}

/// The batches of one kind follow each other in the list of that kind, and no
/// batch is empty or reaches beyond its list.
pub proof fn lemma_batches_follow_their_lists<N>(drawn: DrawModel<N>, i: int, j: int)
    requires
        drawn.addressable(),
        0 <= i < j < drawn.batches().len(),
    ensures
        drawn.batches()[i].kind() == drawn.batches()[j].kind() ==> drawn.batches()[i].range().end
            <= drawn.batches()[j].range().start,
        drawn.batches()[i].range().start < drawn.batches()[i].range().end <= drawn.len(
            drawn.batches()[i].kind(),
        ),
        drawn.batches()[j].range().start < drawn.batches()[j].range().end <= drawn.len(
            drawn.batches()[j].kind(),
        ),
{
    let starts = all_starts();
    lemma_all_starts(drawn);
    lemma_batches_start_late(drawn, starts, i);
    lemma_batches_start_late(drawn, starts, j);
    if drawn.batches()[i].kind() == drawn.batches()[j].kind() {
        lemma_batches_are_apart(drawn, starts, i, j);
    }
}

proof fn lemma_batch_is_before_the_rest<N>(
    drawn: DrawModel<N>,
    starts: Seq<usize>,
    p: int,
    kind: PrimitiveKind,
    q: int,
)
    requires
        drawn.addressable(),
        drawn.starts_within(starts),
        drawn.in_painting_order(),
        drawn.next_batch(starts) matches Some(batch) && {
            &&& batch.range().start <= p < batch.range().end
            &&& starts_after(starts, batch)[kind.rank_spec() as int] <= q < drawn.len(kind)
        },
    ensures
        key_at_most(drawn.key(drawn.next_batch(starts)->0.kind(), p), drawn.key(kind, q)),
{
    lemma_batch_advances(drawn, starts);
    lemma_leader_leads(drawn, starts);
    let batch = drawn.next_batch(starts)->0;
    let own = batch.kind();
    lemma_kind_at(kind);
    lemma_kind_at(own);
    let start = starts[kind.rank_spec() as int] as int;
    if kind == own {
        assert(drawn.order(own, p) <= drawn.order(kind, q));
    } else {
        assert(drawn.order(kind, start) <= drawn.order(kind, q));
        assert(key_at_most(drawn.head(starts, own), drawn.head(starts, kind)));
        let first = batch.range().start as int;
        lemma_batch_end_bounds(drawn, starts, own, batch.texture(), first + 1);
        if p > first {
            assert(drawn.texture(own, p) == batch.texture());
            assert(drawn.precedes_others(starts, own, p));
            assert(key_before(drawn.key(own, p), drawn.head(starts, kind)));
        }
    }
}

proof fn lemma_painting_order_from<N>(
    drawn: DrawModel<N>,
    starts: Seq<usize>,
    i: int,
    j: int,
    p: int,
    q: int,
)
    requires
        drawn.addressable(),
        drawn.starts_within(starts),
        drawn.in_painting_order(),
        0 <= i < j < drawn.batches_from(starts).len(),
        drawn.batches_from(starts)[i].range().start <= p < drawn.batches_from(
            starts,
        )[i].range().end,
        drawn.batches_from(starts)[j].range().start <= q < drawn.batches_from(
            starts,
        )[j].range().end,
    ensures
        key_at_most(
            drawn.key(drawn.batches_from(starts)[i].kind(), p),
            drawn.key(drawn.batches_from(starts)[j].kind(), q),
        ),
    decreases drawn.left(starts, KIND_COUNT as nat),
{
    lemma_rest(drawn, starts);
    lemma_batch_advances(drawn, starts);
    let first = drawn.next_batch(starts)->0;
    let after = starts_after(starts, first);
    if i > 0 {
        lemma_painting_order_from(drawn, after, i - 1, j - 1, p, q);
    } else {
        lemma_batches_start_late(drawn, after, j - 1);
        lemma_batch_is_before_the_rest(
            drawn,
            starts,
            p,
            drawn.batches_from(starts)[j].kind(),
            q,
        );
    }
}

/// In a finished scene, what an earlier batch draws is never above what a
/// later batch draws: batches go by draw order, and by kind within an order.
pub proof fn lemma_batches_are_in_painting_order<N>(
    drawn: DrawModel<N>,
    i: int,
    j: int,
    p: int,
    q: int,
)
    requires
        drawn.addressable(),
        drawn.in_painting_order(),
        0 <= i < j < drawn.batches().len(),
        drawn.batches()[i].range().start <= p < drawn.batches()[i].range().end,
        drawn.batches()[j].range().start <= q < drawn.batches()[j].range().end,
    ensures
        key_at_most(
            drawn.key(drawn.batches()[i].kind(), p),
            drawn.key(drawn.batches()[j].kind(), q),
        ),
{
    let starts = all_starts();
    lemma_all_starts(drawn);
    lemma_painting_order_from(drawn, starts, i, j, p, q);
}

proof fn lemma_textures_from<N>(drawn: DrawModel<N>, starts: Seq<usize>, i: int, p: int)
    requires
        drawn.addressable(),
        drawn.starts_within(starts),
        0 <= i < drawn.batches_from(starts).len(),
        drawn.batches_from(starts)[i].range().start <= p < drawn.batches_from(
            starts,
        )[i].range().end,
    ensures
        drawn.texture(drawn.batches_from(starts)[i].kind(), p) == drawn.batches_from(
            starts,
        )[i].texture(),
    decreases drawn.left(starts, KIND_COUNT as nat),
{
    lemma_rest(drawn, starts);
    lemma_batch_advances(drawn, starts);
    let first = drawn.next_batch(starts)->0;
    if i > 0 {
        lemma_textures_from(drawn, starts_after(starts, first), i - 1, p);
    } else {
        lemma_batch_end_bounds(
            drawn,
            starts,
            first.kind(),
            first.texture(),
            first.range().start + 1,
        );
    }
}

/// All sprites of a batch are drawn from the texture of the batch.
pub proof fn lemma_batch_has_one_texture<N>(drawn: DrawModel<N>, i: int, p: int)
    requires
        drawn.addressable(),
        0 <= i < drawn.batches().len(),
        drawn.batches()[i].range().start <= p < drawn.batches()[i].range().end,
    ensures
        drawn.texture(drawn.batches()[i].kind(), p) == drawn.batches()[i].texture(),
{
    let starts = all_starts();
    lemma_all_starts(drawn);
    lemma_textures_from(drawn, starts, i, p);
}

impl<N> DrawModel<N> {
    /// A primitive of another kind is painted before the one that follows the
    /// `i`-th batch in its list, and no batch up to that one holds it.
    pub open spec fn comes_between(
        self,
        batches: Seq<PrimitiveBatch>,
        i: int,
        kind: PrimitiveKind,
        index: int,
    ) -> bool {
        &&& kind != batches[i].kind()
        &&& 0 <= index < self.len(kind)
        &&& key_before(
            self.key(kind, index),
            self.key(batches[i].kind(), batches[i].range().end as int),
        )
        &&& forall|j: int| 0 <= j <= i ==> !(#[trigger] batches[j]).holds(kind, index)
    }

    /// The `i`-th batch cannot go on: its list ends, another texture follows,
    /// or something of another kind has to be painted before.
    pub open spec fn ends_where_it_must(self, batches: Seq<PrimitiveBatch>, i: int) -> bool {
        let kind = batches[i].kind();
        let end = batches[i].range().end as int;
        ||| end == self.len(kind)
        ||| self.texture(kind, end) != batches[i].texture()
        ||| exists|other: PrimitiveKind, index: int|
            #[trigger] self.comes_between(batches, i, other, index)
        ||| self.order(kind, end) == u32::MAX
    }
}

proof fn lemma_batch_end_stops<N>(
    drawn: DrawModel<N>,
    starts: Seq<usize>,
    kind: PrimitiveKind,
    texture: Option<AtlasTextureId>,
    index: int,
)
    requires
        0 <= index <= drawn.len(kind),
    ensures
        ({
            let end = drawn.batch_end(starts, kind, texture, index);
            ||| end == drawn.len(kind)
            ||| drawn.texture(kind, end) != texture
            ||| !drawn.precedes_others(starts, kind, end)
        }),
    decreases drawn.len(kind) - index,
{
    if index < drawn.len(kind) && drawn.precedes_others(starts, kind, index) && drawn.texture(
        kind,
        index,
    ) == texture {
        lemma_batch_end_stops(drawn, starts, kind, texture, index + 1);
    }
}

/// As [`DrawModel::ends_where_it_must`], where what comes between is among
/// what is left.
proof fn lemma_batch_is_maximal_from<N>(
    drawn: DrawModel<N>,
    starts: Seq<usize>,
    i: int,
) -> (between: (PrimitiveKind, int))
    requires
        drawn.addressable(),
        drawn.starts_within(starts),
        0 <= i < drawn.batches_from(starts).len(),
    ensures
        ({
            let batch = drawn.batches_from(starts)[i];
            let end = batch.range().end as int;
            ||| end == drawn.len(batch.kind())
            ||| drawn.texture(batch.kind(), end) != batch.texture()
            ||| drawn.order(batch.kind(), end) == u32::MAX
            ||| drawn.comes_between(drawn.batches_from(starts), i, between.0, between.1)
                && starts[between.0.rank_spec() as int] <= between.1
        }),
    decreases drawn.left(starts, KIND_COUNT as nat),
{
    lemma_rest(drawn, starts);
    lemma_batch_advances(drawn, starts);
    let batches = drawn.batches_from(starts);
    let first = drawn.next_batch(starts)->0;
    let after = starts_after(starts, first);
    lemma_kind_at(first.kind());
    if i > 0 {
        let (kind, index) = lemma_batch_is_maximal_from(drawn, after, i - 1);
        lemma_kind_at(kind);
        let rest = drawn.batches_from(after);
        if drawn.comes_between(rest, i - 1, kind, index) && after[kind.rank_spec() as int]
            <= index {
            assert forall|j: int| 0 <= j <= i implies !(#[trigger] batches[j]).holds(
                kind,
                index,
            ) by {
                if j > 0 {
                    assert(batches[j] == rest[j - 1]);
                }
            }
        }
        (kind, index)
    } else {
        let own = first.kind();
        let end = first.range().end as int;
        lemma_batch_end_stops(drawn, starts, own, first.texture(), first.range().start + 1);
        if end < drawn.len(own) && drawn.texture(own, end) == first.texture() {
            let other = choose|other: PrimitiveKind|
                other != own && !key_before(
                    drawn.key(own, end),
                    #[trigger] drawn.head(starts, other),
                );
            lemma_kind_at(other);
            (other, starts[other.rank_spec() as int] as int)
        } else {
            (own, 0)
        }
    }
}

/// Batches are as large as they can be: one ends only at the end of its list,
/// before another texture, or where something of another kind, which is not in
/// a batch so far, has to be painted first. (It also ends before the highest
/// order, which does not come before a kind of which nothing is left.)
pub proof fn lemma_batches_are_maximal<N>(drawn: DrawModel<N>, i: int)
    requires
        drawn.addressable(),
        0 <= i < drawn.batches().len(),
    ensures
        drawn.ends_where_it_must(drawn.batches(), i),
{
    lemma_all_starts(drawn);
    lemma_batch_is_maximal_from(drawn, all_starts(), i);
}

/// A batch is of the kind that it is named after, over its range and, of
/// sprites, from its texture; it is called after the kind, and counts what its
/// range holds.
pub proof fn lemma_what_a_batch_is(batch: PrimitiveBatch)
    ensures
        match batch {
            PrimitiveBatch::Shadows(range) => {
                &&& batch.kind() is Shadow
                &&& batch.range() == range
                &&& batch.texture() is None
                &&& batch.title() == "shadows"@
            },
            PrimitiveBatch::Quads(range) => {
                &&& batch.kind() is Quad
                &&& batch.range() == range
                &&& batch.texture() is None
                &&& batch.title() == "quads"@
            },
            PrimitiveBatch::Effects(range) => {
                &&& batch.kind() is Effect
                &&& batch.range() == range
                &&& batch.texture() is None
                &&& batch.title() == "effects"@
            },
            PrimitiveBatch::Paths(range) => {
                &&& batch.kind() is Path
                &&& batch.range() == range
                &&& batch.texture() is None
                &&& batch.title() == "paths"@
            },
            PrimitiveBatch::Underlines(range) => {
                &&& batch.kind() is Underline
                &&& batch.range() == range
                &&& batch.texture() is None
                &&& batch.title() == "underlines"@
            },
            PrimitiveBatch::Surfaces(range) => {
                &&& batch.kind() is Surface
                &&& batch.range() == range
                &&& batch.texture() is None
                &&& batch.title() == "surfaces"@
            },
            PrimitiveBatch::MonochromeSprites { texture_id, range } => {
                &&& batch.kind() is MonochromeSprite
                &&& batch.range() == range
                &&& batch.texture() == Some(texture_id)
                &&& batch.title() == "monochrome sprites"@
            },
            PrimitiveBatch::SubpixelSprites { texture_id, range } => {
                &&& batch.kind() is SubpixelSprite
                &&& batch.range() == range
                &&& batch.texture() == Some(texture_id)
                &&& batch.title() == "subpixel sprites"@
            },
            PrimitiveBatch::PolychromeSprites { texture_id, range } => {
                &&& batch.kind() is PolychromeSprite
                &&& batch.range() == range
                &&& batch.texture() == Some(texture_id)
                &&& batch.title() == "polychrome sprites"@
            },
        },
        batch.range().start <= batch.range().end ==> batch.range().start + batch.count()
            == batch.range().end,
        batch.range().start > batch.range().end ==> batch.count() == 0,
{
}

/// In a finished scene, what an earlier batch draws has a lower order than what
/// a later batch draws, or the same order and a kind that is not painted later.
pub proof fn lemma_batches_go_by_order_and_kind<N>(
    drawn: DrawModel<N>,
    i: int,
    j: int,
    p: int,
    q: int,
)
    requires
        drawn.addressable(),
        drawn.in_painting_order(),
        0 <= i < j < drawn.batches().len(),
        drawn.batches()[i].range().start <= p < drawn.batches()[i].range().end,
        drawn.batches()[j].range().start <= q < drawn.batches()[j].range().end,
    ensures
        ({
            let (a, b) = (drawn.batches()[i].kind(), drawn.batches()[j].kind());
            ||| drawn.order(a, p) < drawn.order(b, q)
            ||| drawn.order(a, p) == drawn.order(b, q) && a.rank_spec() <= b.rank_spec()
        }),
{
    lemma_batches_are_in_painting_order(drawn, i, j, p, q);
}

/// Nothing is painted before itself, and of two primitives of different kinds
/// one is painted before the other.
pub proof fn lemma_painting_is_a_sequence<N>(
    drawn: DrawModel<N>,
    a: PrimitiveKind,
    i: int,
    b: PrimitiveKind,
    j: int,
)
    ensures
        !key_before(drawn.key(a, i), drawn.key(a, i)),
        key_before(drawn.key(a, i), drawn.key(b, j)) <==> {
            ||| drawn.order(a, i) < drawn.order(b, j)
            ||| drawn.order(a, i) == drawn.order(b, j) && a.rank_spec() < b.rank_spec()
        },
        a != b ==> key_before(drawn.key(a, i), drawn.key(b, j)) || key_before(
            drawn.key(b, j),
            drawn.key(a, i),
        ),
{
    lemma_kind_at(a);
    lemma_kind_at(b);
}

/// What is left after a batch is what was left, without the primitives of the
/// batch.
pub proof fn lemma_what_a_batch_leaves(
    starts: Seq<usize>,
    batch: PrimitiveBatch,
    kind: PrimitiveKind,
)
    requires
        starts.len() == KIND_COUNT,
    ensures
        starts_after(starts, batch)[batch.kind().rank_spec() as int] == batch.range().end,
        kind != batch.kind() ==> starts_after(starts, batch)[kind.rank_spec() as int]
            == starts[kind.rank_spec() as int],
        all_starts()[kind.rank_spec() as int] == 0,
        all_starts().len() == KIND_COUNT,
{
    lemma_kind_at(kind);
    lemma_kind_at(batch.kind());
}

/// A label starts with what the kind is called; behind it, in brackets, stands a
/// number that is read as the number of the primitives; and behind that, of
/// sprites, one that is read as the index of the texture.
pub proof fn lemma_what_a_label_tells(batch: PrimitiveBatch)
    ensures
        ({
            let label = batch.label_text();
            let named = batch.title().len() as int;
            let counted = named + 2 + decimal_digits(batch.count()).len();
            &&& label.take(named) == batch.title()
            &&& label.subrange(named, named + 2) == " ("@
            &&& read_as(label.subrange(named + 2, counted)) == batch.count()
            &&& batch.texture() is None ==> label.skip(counted) == ")"@
            &&& batch.texture() matches Some(texture) ==> {
                &&& label.subrange(counted, counted + 11) == ") on atlas "@
                &&& read_as(label.skip(counted + 11)) == texture.index
            }
        }),
{
    reveal_strlit(" (");
    reveal_strlit(")");
    reveal_strlit(") on atlas ");
    let label = batch.label_text();
    let named = batch.title().len() as int;
    let digits = decimal_digits(batch.count());
    let counted = named + 2 + digits.len();
    lemma_digits_are_read_back(batch.count());
    assert(label.take(named) =~= batch.title());
    assert(label.subrange(named, named + 2) =~= " ("@);
    assert(label.subrange(named + 2, counted) =~= digits);
    if let Some(texture) = batch.texture() {
        lemma_digits_are_read_back(texture.index as nat);
        assert(label.subrange(counted, counted + 11) =~= ") on atlas "@);
        assert(label.skip(counted + 11) =~= decimal_digits(texture.index as nat));
    } else {
        assert(label.skip(counted) =~= ")"@);
    }
}

} // verus!
