//! The insertion-order log of a scene's primitives.

use crate::bounds_tree::DrawOrder;
use crate::geometry::Bounds;
use crate::number::Scalar;
use crate::path::{Path, PathModel};
use crate::primitive::{
    EffectPrimitive, MonochromeSprite, PaintSurface, PolychromeSprite, Primitive, PrimitiveKind,
    PrimitiveModel, Quad, Shadow, SubpixelSprite, Underline,
};
use vstd::prelude::*;

verus! {

/// What the paths of a list are.
pub open spec fn path_models<N>(paths: Seq<Path<N>>) -> Seq<PathModel<N>> {
    paths.map_values(|path: Path<N>| path@)
}

/// The primitives of a log, kind by kind, each in insertion order.
#[verifier::ext_equal]
pub struct LogModel<N> {
    pub shadows: Seq<Shadow<N>>,
    pub quads: Seq<Quad<N>>,
    pub effects: Seq<EffectPrimitive<N>>,
    pub paths: Seq<PathModel<N>>,
    pub underlines: Seq<Underline<N>>,
    pub monochrome_sprites: Seq<MonochromeSprite<N>>,
    pub subpixel_sprites: Seq<SubpixelSprite<N>>,
    pub polychrome_sprites: Seq<PolychromeSprite<N>>,
    pub surfaces: Seq<PaintSurface<N>>,
}

impl<N> LogModel<N> {
    /// A log of nothing.
    pub open spec fn empty() -> Self {
        LogModel {
            shadows: Seq::empty(),
            quads: Seq::empty(),
            effects: Seq::empty(),
            paths: Seq::empty(),
            underlines: Seq::empty(),
            monochrome_sprites: Seq::empty(),
            subpixel_sprites: Seq::empty(),
            polychrome_sprites: Seq::empty(),
            surfaces: Seq::empty(),
        }
    }

    /// How many primitives of a kind there are.
    pub open spec fn len(self, kind: PrimitiveKind) -> nat {
        match kind {
            PrimitiveKind::Shadow => self.shadows.len(),
            PrimitiveKind::Quad => self.quads.len(),
            PrimitiveKind::Effect => self.effects.len(),
            PrimitiveKind::Path => self.paths.len(),
            PrimitiveKind::Underline => self.underlines.len(),
            PrimitiveKind::MonochromeSprite => self.monochrome_sprites.len(),
            PrimitiveKind::SubpixelSprite => self.subpixel_sprites.len(),
            PrimitiveKind::PolychromeSprite => self.polychrome_sprites.len(),
            PrimitiveKind::Surface => self.surfaces.len(),
        }
    }

    /// The primitive of a kind at an index.
    pub open spec fn item(self, kind: PrimitiveKind, index: int) -> PrimitiveModel<N> {
        match kind {
            PrimitiveKind::Shadow => PrimitiveModel::Shadow(self.shadows[index]),
            PrimitiveKind::Quad => PrimitiveModel::Quad(self.quads[index]),
            PrimitiveKind::Effect => PrimitiveModel::Effect(self.effects[index]),
            PrimitiveKind::Path => PrimitiveModel::Path(self.paths[index]),
            PrimitiveKind::Underline => PrimitiveModel::Underline(self.underlines[index]),
            PrimitiveKind::MonochromeSprite => PrimitiveModel::MonochromeSprite(
                self.monochrome_sprites[index],
            ),
            PrimitiveKind::SubpixelSprite => PrimitiveModel::SubpixelSprite(
                self.subpixel_sprites[index],
            ),
            PrimitiveKind::PolychromeSprite => PrimitiveModel::PolychromeSprite(
                self.polychrome_sprites[index],
            ),
            PrimitiveKind::Surface => PrimitiveModel::Surface(self.surfaces[index]),
        }
    }

    /// This log with one more primitive.
    pub open spec fn push(self, primitive: PrimitiveModel<N>) -> Self {
        match primitive {
            PrimitiveModel::Shadow(shadow) => LogModel {
                shadows: self.shadows.push(shadow),
                ..self
            },
            PrimitiveModel::Quad(quad) => LogModel { quads: self.quads.push(quad), ..self },
            PrimitiveModel::Effect(effect) => LogModel {
                effects: self.effects.push(effect),
                ..self
            },
            PrimitiveModel::Path(path) => LogModel { paths: self.paths.push(path), ..self },
            PrimitiveModel::Underline(underline) => LogModel {
                underlines: self.underlines.push(underline),
                ..self
            },
            PrimitiveModel::MonochromeSprite(sprite) => LogModel {
                monochrome_sprites: self.monochrome_sprites.push(sprite),
                ..self
            },
            PrimitiveModel::SubpixelSprite(sprite) => LogModel {
                subpixel_sprites: self.subpixel_sprites.push(sprite),
                ..self
            },
            PrimitiveModel::PolychromeSprite(sprite) => LogModel {
                polychrome_sprites: self.polychrome_sprites.push(sprite),
                ..self
            },
            PrimitiveModel::Surface(surface) => LogModel {
                surfaces: self.surfaces.push(surface),
                ..self
            },
        }
    }
}

/// A pushed primitive is the last of its kind, and nothing else changes.
pub proof fn lemma_log_push<N: Scalar>(log: LogModel<N>, primitive: PrimitiveModel<N>)
    ensures
        forall|kind: PrimitiveKind| #[trigger]
            log.push(primitive).len(kind) == log.len(kind) + (if kind == primitive.kind() {
                1nat
            } else {
                0nat
            }),
        forall|kind: PrimitiveKind, i: int|
            0 <= i < log.len(kind) ==> #[trigger] log.push(primitive).item(kind, i) == log.item(
                kind,
                i,
            ),
        log.push(primitive).item(primitive.kind(), log.len(primitive.kind()) as int) == primitive,
{
}

/// The insertion-order copies of every primitive, drawn or fully clipped,
/// each with the mask it was painted with.
pub struct LoggedPrimitives<N> {
    pub shadows: Vec<Shadow<N>>,
    pub quads: Vec<Quad<N>>,
    pub effects: Vec<EffectPrimitive<N>>,
    pub paths: Vec<Path<N>>,
    pub underlines: Vec<Underline<N>>,
    pub monochrome_sprites: Vec<MonochromeSprite<N>>,
    pub subpixel_sprites: Vec<SubpixelSprite<N>>,
    pub polychrome_sprites: Vec<PolychromeSprite<N>>,
    pub surfaces: Vec<PaintSurface<N>>,
}

impl<N> View for LoggedPrimitives<N> {
    type V = LogModel<N>;

    open spec fn view(&self) -> LogModel<N> {
        LogModel {
            shadows: self.shadows@,
            quads: self.quads@,
            effects: self.effects@,
            paths: path_models(self.paths@),
            underlines: self.underlines@,
            monochrome_sprites: self.monochrome_sprites@,
            subpixel_sprites: self.subpixel_sprites@,
            polychrome_sprites: self.polychrome_sprites@,
            surfaces: self.surfaces@,
        }
    }
}

impl<N: Scalar> LoggedPrimitives<N> {
    /// A log of nothing.
    pub fn new() -> (r: Self)
        ensures
            r@ == LogModel::<N>::empty(),
    {
        let log = LoggedPrimitives {
            shadows: Vec::new(),
            quads: Vec::new(),
            effects: Vec::new(),
            paths: Vec::new(),
            underlines: Vec::new(),
            monochrome_sprites: Vec::new(),
            subpixel_sprites: Vec::new(),
            polychrome_sprites: Vec::new(),
            surfaces: Vec::new(),
        };
        assert(log@ =~= LogModel::<N>::empty());
        log
    }

    /// Forgets every primitive.
    pub fn clear(&mut self)
        ensures
            final(self)@ == LogModel::<N>::empty(),
    {
        self.shadows.clear();
        self.quads.clear();
        self.effects.clear();
        self.paths.clear();
        self.underlines.clear();
        self.monochrome_sprites.clear();
        self.subpixel_sprites.clear();
        self.polychrome_sprites.clear();
        self.surfaces.clear();
        assert(self@ =~= LogModel::<N>::empty());
    }

    /// How many primitives of a kind there are.
    pub fn len(&self, kind: PrimitiveKind) -> (r: usize)
        ensures
            r == self@.len(kind),
    {
        match kind {
            PrimitiveKind::Shadow => self.shadows.len(),
            PrimitiveKind::Quad => self.quads.len(),
            PrimitiveKind::Effect => self.effects.len(),
            PrimitiveKind::Path => self.paths.len(),
            PrimitiveKind::Underline => self.underlines.len(),
            PrimitiveKind::MonochromeSprite => self.monochrome_sprites.len(),
            PrimitiveKind::SubpixelSprite => self.subpixel_sprites.len(),
            PrimitiveKind::PolychromeSprite => self.polychrome_sprites.len(),
            PrimitiveKind::Surface => self.surfaces.len(),
        }
    }

    /// Appends a primitive.
    pub fn push(&mut self, primitive: Primitive<N>)
        ensures
            final(self)@ == old(self)@.push(primitive@),
    {
        match primitive {
            Primitive::Shadow(shadow) => self.shadows.push(shadow),
            Primitive::Quad(quad) => self.quads.push(quad),
            Primitive::Effect(effect) => self.effects.push(effect),
            Primitive::Path(path) => self.paths.push(path),
            Primitive::Underline(underline) => self.underlines.push(underline),
            Primitive::MonochromeSprite(sprite) => self.monochrome_sprites.push(sprite),
            Primitive::SubpixelSprite(sprite) => self.subpixel_sprites.push(sprite),
            Primitive::PolychromeSprite(sprite) => self.polychrome_sprites.push(sprite),
            Primitive::Surface(surface) => self.surfaces.push(surface),
        }
        assert(self@ =~= old(self)@.push(primitive@));
    }

    /// A copy of the primitive of a kind at an index.
    pub fn primitive(&self, kind: PrimitiveKind, index: usize) -> (r: Primitive<N>)
        requires
            index < self@.len(kind),
        ensures
            r@ == self@.item(kind, index as int),
    {
        match kind {
            PrimitiveKind::Shadow => Primitive::Shadow(self.shadows[index]),
            PrimitiveKind::Quad => Primitive::Quad(self.quads[index]),
            PrimitiveKind::Effect => Primitive::Effect(self.effects[index]),
            PrimitiveKind::Path => Primitive::Path(self.paths[index].clone()),
            PrimitiveKind::Underline => Primitive::Underline(self.underlines[index]),
            PrimitiveKind::MonochromeSprite => Primitive::MonochromeSprite(
                self.monochrome_sprites[index],
            ),
            PrimitiveKind::SubpixelSprite => Primitive::SubpixelSprite(
                self.subpixel_sprites[index],
            ),
            PrimitiveKind::PolychromeSprite => Primitive::PolychromeSprite(
                self.polychrome_sprites[index],
            ),
            PrimitiveKind::Surface => Primitive::Surface(self.surfaces[index]),
        }
    }

    fn extent(&self, kind: PrimitiveKind, index: usize) -> (r: (DrawOrder, Bounds<N>))
        requires
            index < self@.len(kind),
        ensures
            r.0 == self@.item(kind, index as int).order(),
            r.1 == self@.item(kind, index as int).bounds(),
    {
        match kind {
            PrimitiveKind::Shadow => (self.shadows[index].order, self.shadows[index].bounds),
            PrimitiveKind::Quad => (self.quads[index].order, self.quads[index].bounds),
            PrimitiveKind::Effect => (
                self.effects[index].instance.order,
                self.effects[index].instance.bounds,
            ),
            PrimitiveKind::Path => (self.paths[index].order, self.paths[index].bounds),
            PrimitiveKind::Underline => (
                self.underlines[index].order,
                self.underlines[index].bounds,
            ),
            PrimitiveKind::MonochromeSprite => (
                self.monochrome_sprites[index].order,
                self.monochrome_sprites[index].bounds,
            ),
            PrimitiveKind::SubpixelSprite => (
                self.subpixel_sprites[index].order,
                self.subpixel_sprites[index].bounds,
            ),
            PrimitiveKind::PolychromeSprite => (
                self.polychrome_sprites[index].order,
                self.polychrome_sprites[index].bounds,
            ),
            PrimitiveKind::Surface => (self.surfaces[index].order, self.surfaces[index].bounds),
        }
    }

    /// The order and the bounds of every logged primitive of `kind` from
    /// `start` up to `end`.
    pub fn scan(&self, kind: PrimitiveKind, start: usize, end: usize) -> (r: Vec<
        (DrawOrder, Bounds<N>),
    >)
        requires
            start <= end <= self@.len(kind),
        ensures
            r@.len() == end - start,
            forall|i: int|
                0 <= i < r@.len() ==> #[trigger] r@[i] == (
                    self@.item(kind, start + i).order(),
                    self@.item(kind, start + i).bounds(),
                ),
    {
        let mut extents: Vec<(DrawOrder, Bounds<N>)> = Vec::new();
        let mut at: usize = start;
        while at < end
            invariant
                start <= at <= end <= self@.len(kind),
                extents@.len() == at - start,
                forall|i: int|
                    0 <= i < extents@.len() ==> #[trigger] extents@[i] == (
                        self@.item(kind, start + i).order(),
                        self@.item(kind, start + i).bounds(),
                    ),
            decreases end - at,
        {
            extents.push(self.extent(kind, at));
            at = at + 1;
        }
        extents
    }
}

/// Each kind has a list of its own, and its primitives are the entries of that
/// list.
pub proof fn lemma_what_a_log_holds<N: Scalar>(log: LogModel<N>, index: int)
    ensures
        log.len(PrimitiveKind::Shadow) == log.shadows.len(),
        log.len(PrimitiveKind::Quad) == log.quads.len(),
        log.len(PrimitiveKind::Effect) == log.effects.len(),
        log.len(PrimitiveKind::Path) == log.paths.len(),
        log.len(PrimitiveKind::Underline) == log.underlines.len(),
        log.len(PrimitiveKind::MonochromeSprite) == log.monochrome_sprites.len(),
        log.len(PrimitiveKind::SubpixelSprite) == log.subpixel_sprites.len(),
        log.len(PrimitiveKind::PolychromeSprite) == log.polychrome_sprites.len(),
        log.len(PrimitiveKind::Surface) == log.surfaces.len(),
        log.item(PrimitiveKind::Shadow, index) == PrimitiveModel::Shadow(log.shadows[index]),
        log.item(PrimitiveKind::Quad, index) == PrimitiveModel::Quad(log.quads[index]),
        log.item(PrimitiveKind::Effect, index) == PrimitiveModel::Effect(log.effects[index]),
        log.item(PrimitiveKind::Path, index) == PrimitiveModel::Path(log.paths[index]),
        log.item(PrimitiveKind::Underline, index)
            == PrimitiveModel::Underline(log.underlines[index]),
        log.item(PrimitiveKind::MonochromeSprite, index)
            == PrimitiveModel::MonochromeSprite(log.monochrome_sprites[index]),
        log.item(PrimitiveKind::SubpixelSprite, index)
            == PrimitiveModel::SubpixelSprite(log.subpixel_sprites[index]),
        log.item(PrimitiveKind::PolychromeSprite, index)
            == PrimitiveModel::PolychromeSprite(log.polychrome_sprites[index]),
        log.item(PrimitiveKind::Surface, index) == PrimitiveModel::Surface(log.surfaces[index]),
        LogModel::<N>::empty().shadows.len() == 0,
        LogModel::<N>::empty().quads.len() == 0,
        LogModel::<N>::empty().effects.len() == 0,
        LogModel::<N>::empty().paths.len() == 0,
        LogModel::<N>::empty().underlines.len() == 0,
        LogModel::<N>::empty().monochrome_sprites.len() == 0,
        LogModel::<N>::empty().subpixel_sprites.len() == 0,
        LogModel::<N>::empty().polychrome_sprites.len() == 0,
        LogModel::<N>::empty().surfaces.len() == 0,
{
}

} // verus!
