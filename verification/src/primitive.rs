//! The primitives that a scene is painted with.

use crate::bounds_tree::DrawOrder;
use crate::color::{Background, Hsla};
use crate::geometry::{Bounds, ContentMask, Corners, Edges, Point};
use crate::motion::EffectAnimation;
use crate::number::{DevicePixels, Scalar};
use crate::path::{Path, PathModel};
use crate::surface::SurfaceHandle;
use crate::transform::TransformationMatrix;
use vstd::prelude::*;

verus! {

/// A boolean stored as a `u32` so that GPU-facing structs contain no
/// compiler-inserted padding bytes. It is `0` or `1` by construction.
#[derive(Clone, Copy, Debug, PartialEq, Eq)]
pub struct PaddedBool32(u32);

impl PaddedBool32 {
    #[verifier::type_invariant]
    closed spec fn zero_or_one(self) -> bool {
        self.0 == 0 || self.0 == 1
    }

    /// The boolean that is stored.
    pub closed spec fn value(self) -> bool {
        self.0 == 1
    }

    /// The number that a shader reads.
    pub closed spec fn stored(self) -> u32 {
        self.0
    }

    /// The number that a shader reads: 1 for true, 0 for false.
    pub fn bits(&self) -> (r: u32)
        ensures
            r == self.stored(),
            r == (if self.value() {
                1u32
            } else {
                0u32
            }),
    {
        proof {
            use_type_invariant(*self);
        }
        self.0
    }
}

impl From<bool> for PaddedBool32 {
    fn from(value: bool) -> (r: Self) {
        PaddedBool32(
            if value {
                1
            } else {
                0
            },
        )
    }
}

impl vstd::std_specs::convert::FromSpecImpl<bool> for PaddedBool32 {
    open spec fn obeys_from_spec() -> bool {
        true
    }

    closed spec fn from_spec(value: bool) -> Self {
        PaddedBool32(
            if value {
                1
            } else {
                0
            },
        )
    }
}

/// What is built from a boolean stores that boolean.
pub broadcast proof fn lemma_padded_bool_keeps_value(value: bool)
    ensures
        (#[trigger] <PaddedBool32 as vstd::std_specs::convert::FromSpec<bool>>::from_spec(
            value,
        )).value() == value,
{
}

impl Default for PaddedBool32 {
    fn default() -> (r: Self)
        ensures
            !r.value(),
    {
        PaddedBool32(0)
    }
}

/// The style of a border.
#[derive(Clone, Copy, Debug, PartialEq, Eq, Hash, Structural)]
pub enum BorderStyle {
    /// A solid border.
    Solid,
    /// A dashed border.
    Dashed,
}

impl Default for BorderStyle {
    fn default() -> (r: Self)
        ensures
            r == BorderStyle::Solid,
    {
        BorderStyle::Solid
    }
}

/// The kind of pixels that an atlas texture holds.
#[derive(Clone, Copy, Debug, PartialEq, Eq, Structural)]
pub enum AtlasTextureKind {
    Monochrome,
    Polychrome,
    Subpixel,
}

impl AtlasTextureKind {
    pub open spec fn rank_spec(self) -> u8 {
        match self {
            AtlasTextureKind::Monochrome => 0,
            AtlasTextureKind::Polychrome => 1,
            AtlasTextureKind::Subpixel => 2,
        }
    }

    /// The position of this kind among the kinds of textures.
    pub fn rank(&self) -> (r: u8)
        ensures
            r == self.rank_spec(),
    {
        match self {
            AtlasTextureKind::Monochrome => 0,
            AtlasTextureKind::Polychrome => 1,
            AtlasTextureKind::Subpixel => 2,
        }
    }
}

/// One texture of the sprite atlas.
#[derive(Clone, Copy, Debug, PartialEq, Eq, Structural)]
pub struct AtlasTextureId {
    pub index: u32,
    pub kind: AtlasTextureKind,
}

/// One tile of the sprite atlas.
#[derive(Clone, Copy, Debug, PartialEq, Eq, Structural)]
pub struct TileId(pub u32);

/// Where in the atlas a sprite's pixels are.
#[derive(Clone, Copy, Debug)]
pub struct AtlasTile {
    pub texture_id: AtlasTextureId,
    pub tile_id: TileId,
    pub padding: u32,
    pub bounds: Bounds<DevicePixels>,
}

/// A filled rectangle with a border.
#[derive(Clone, Copy, Debug)]
pub struct Quad<N> {
    pub order: DrawOrder,
    pub border_style: BorderStyle,
    pub bounds: Bounds<N>,
    pub content_mask: ContentMask<N>,
    pub background: Background<N>,
    pub border_color: Hsla<N>,
    pub corner_radii: Corners<N>,
    pub border_widths: Edges<N>,
}

impl<N: Scalar> Default for Quad<N> {
    fn default() -> (r: Self)
        ensures
            r == (Quad {
                order: 0,
                border_style: BorderStyle::Solid,
                bounds: Bounds::<N>::zero_spec(),
                content_mask: ContentMask::zero_spec(),
                background: Background::zero_spec(),
                border_color: Hsla::zero_spec(),
                corner_radii: Corners::zero_spec(),
                border_widths: Edges::zero_spec(),
            }),
    {
        Quad {
            order: 0,
            border_style: BorderStyle::Solid,
            bounds: Bounds::zero(),
            content_mask: ContentMask::zero(),
            background: Background::zero(),
            border_color: Hsla::zero(),
            corner_radii: Corners::zero(),
            border_widths: Edges::zero(),
        }
    }
}

/// A rectangle that a shader animates.
#[derive(Clone, Copy, Debug)]
pub struct EffectQuad<N> {
    pub order: DrawOrder,
    pub kind: u32,
    pub bounds: Bounds<N>,
    pub content_mask: ContentMask<N>,
    pub color: Hsla<N>,
    pub accent_color: Hsla<N>,
    pub corner_radii: Corners<N>,
    pub started_at: N,
    pub duration: N,
    pub intensity: N,
    pub thickness: N,
    pub feather: N,
}

impl<N: Scalar> Default for EffectQuad<N> {
    fn default() -> (r: Self)
        ensures
            r == (EffectQuad {
                order: 0,
                kind: 0,
                bounds: Bounds::<N>::zero_spec(),
                content_mask: ContentMask::zero_spec(),
                color: Hsla::zero_spec(),
                accent_color: Hsla::zero_spec(),
                corner_radii: Corners::zero_spec(),
                started_at: N::zero_spec(),
                duration: N::zero_spec(),
                intensity: N::zero_spec(),
                thickness: N::zero_spec(),
                feather: N::zero_spec(),
            }),
    {
        EffectQuad {
            order: 0,
            kind: 0,
            bounds: Bounds::zero(),
            content_mask: ContentMask::zero(),
            color: Hsla::zero(),
            accent_color: Hsla::zero(),
            corner_radii: Corners::zero(),
            started_at: N::zero(),
            duration: N::zero(),
            intensity: N::zero(),
            thickness: N::zero(),
            feather: N::zero(),
        }
    }
}

/// An effect, and how long and how often it wants new frames.
#[derive(Clone, Copy, Debug)]
pub struct EffectPrimitive<N> {
    pub instance: EffectQuad<N>,
    pub animation: Option<EffectAnimation>,
}

/// A straight or wavy line under text.
#[derive(Clone, Copy, Debug)]
pub struct Underline<N> {
    pub order: DrawOrder,
    /// Aligns to 8 bytes.
    pub pad: u32,
    pub bounds: Bounds<N>,
    pub content_mask: ContentMask<N>,
    pub color: Hsla<N>,
    pub thickness: N,
    pub wavy: PaddedBool32,
}

/// A blurred rectangle under or inside an element.
#[derive(Clone, Copy, Debug)]
pub struct Shadow<N> {
    pub order: DrawOrder,
    pub blur_radius: N,
    pub bounds: Bounds<N>,
    pub corner_radii: Corners<N>,
    pub content_mask: ContentMask<N>,
    pub color: Hsla<N>,
    pub element_bounds: Bounds<N>,
    pub element_corner_radii: Corners<N>,
    /// 0 = drop shadow (rendered outside the element), 1 = inset shadow (rendered inside).
    pub inset: u32,
    /// Aligns to 8 bytes.
    pub pad: u32,
}

/// A sprite of one colour, such as a glyph.
#[derive(Clone, Copy, Debug)]
pub struct MonochromeSprite<N> {
    pub order: DrawOrder,
    pub pad: u32,
    pub bounds: Bounds<N>,
    pub content_mask: ContentMask<N>,
    pub color: Hsla<N>,
    pub tile: AtlasTile,
    pub transformation: TransformationMatrix<N>,
}

/// A glyph with subpixel coverage.
#[derive(Clone, Copy, Debug)]
pub struct SubpixelSprite<N> {
    pub order: DrawOrder,
    /// Aligns to 8 bytes.
    pub pad: u32,
    pub bounds: Bounds<N>,
    pub content_mask: ContentMask<N>,
    pub color: Hsla<N>,
    pub tile: AtlasTile,
    pub transformation: TransformationMatrix<N>,
}

/// A sprite with its own colours.
#[derive(Clone, Copy, Debug)]
pub struct PolychromeSprite<N> {
    pub order: DrawOrder,
    pub pad: u32,
    pub grayscale: PaddedBool32,
    pub opacity: N,
    pub bounds: Bounds<N>,
    pub content_mask: ContentMask<N>,
    pub corner_radii: Corners<N>,
    pub tile: AtlasTile,
}

/// An externally produced surface.
#[derive(Clone, Copy, Debug)]
pub struct PaintSurface<N> {
    pub order: DrawOrder,
    pub bounds: Bounds<N>,
    pub content_mask: ContentMask<N>,
    /// What is drawn there.
    pub image_buffer: SurfaceHandle,
}

/// The kinds of primitives, in the order in which those of one draw order are
/// painted.
#[derive(Clone, Copy, Debug, PartialEq, Eq, Structural)]
pub enum PrimitiveKind {
    Shadow,
    Quad,
    Effect,
    Path,
    Underline,
    MonochromeSprite,
    SubpixelSprite,
    PolychromeSprite,
    Surface,
}

impl PrimitiveKind {
    pub open spec fn rank_spec(self) -> u8 {
        match self {
            PrimitiveKind::Shadow => 0,
            PrimitiveKind::Quad => 1,
            PrimitiveKind::Effect => 2,
            PrimitiveKind::Path => 3,
            PrimitiveKind::Underline => 4,
            PrimitiveKind::MonochromeSprite => 5,
            PrimitiveKind::SubpixelSprite => 6,
            PrimitiveKind::PolychromeSprite => 7,
            PrimitiveKind::Surface => 8,
        }
    }

    /// The position of this kind in the painting order.
    pub fn rank(&self) -> (r: u8)
        ensures
            r == self.rank_spec(),
    {
        match self {
            PrimitiveKind::Shadow => 0,
            PrimitiveKind::Quad => 1,
            PrimitiveKind::Effect => 2,
            PrimitiveKind::Path => 3,
            PrimitiveKind::Underline => 4,
            PrimitiveKind::MonochromeSprite => 5,
            PrimitiveKind::SubpixelSprite => 6,
            PrimitiveKind::PolychromeSprite => 7,
            PrimitiveKind::Surface => 8,
        }
    }
}

impl Default for PrimitiveKind {
    fn default() -> (r: Self)
        ensures
            r == PrimitiveKind::Quad,
    {
        PrimitiveKind::Quad
    }
}

/// How many kinds of primitives there are.
pub const KIND_COUNT: usize = 9;

/// The kind at a position of the painting order.
pub open spec fn kind_at_spec(rank: int) -> PrimitiveKind {
    if rank <= 0 {
        PrimitiveKind::Shadow
    } else if rank == 1 {
        PrimitiveKind::Quad
    } else if rank == 2 {
        PrimitiveKind::Effect
    } else if rank == 3 {
        PrimitiveKind::Path
    } else if rank == 4 {
        PrimitiveKind::Underline
    } else if rank == 5 {
        PrimitiveKind::MonochromeSprite
    } else if rank == 6 {
        PrimitiveKind::SubpixelSprite
    } else if rank == 7 {
        PrimitiveKind::PolychromeSprite
    } else {
        PrimitiveKind::Surface
    }
}

/// The kind at a position of the painting order.
pub fn kind_at(rank: usize) -> (r: PrimitiveKind)
    requires
        rank < KIND_COUNT,
    ensures
        r == kind_at_spec(rank as int),
        r.rank_spec() == rank,
{
    match rank {
        0 => PrimitiveKind::Shadow,
        1 => PrimitiveKind::Quad,
        2 => PrimitiveKind::Effect,
        3 => PrimitiveKind::Path,
        4 => PrimitiveKind::Underline,
        5 => PrimitiveKind::MonochromeSprite,
        6 => PrimitiveKind::SubpixelSprite,
        7 => PrimitiveKind::PolychromeSprite,
        _ => PrimitiveKind::Surface,
    }
}

/// Every kind has a position of its own.
pub proof fn lemma_kind_at(kind: PrimitiveKind)
    ensures
        kind_at_spec(kind.rank_spec() as int) == kind,
        kind.rank_spec() < KIND_COUNT,
{
}

/// One primitive of any kind.
pub enum Primitive<N> {
    Shadow(Shadow<N>),
    Quad(Quad<N>),
    Effect(EffectPrimitive<N>),
    Path(Path<N>),
    Underline(Underline<N>),
    MonochromeSprite(MonochromeSprite<N>),
    SubpixelSprite(SubpixelSprite<N>),
    PolychromeSprite(PolychromeSprite<N>),
    Surface(PaintSurface<N>),
}

/// What a [`Primitive`] is.
#[verifier::ext_equal]
pub enum PrimitiveModel<N> {
    Shadow(Shadow<N>),
    Quad(Quad<N>),
    Effect(EffectPrimitive<N>),
    Path(PathModel<N>),
    Underline(Underline<N>),
    MonochromeSprite(MonochromeSprite<N>),
    SubpixelSprite(SubpixelSprite<N>),
    PolychromeSprite(PolychromeSprite<N>),
    Surface(PaintSurface<N>),
}

impl<N> View for Primitive<N> {
    type V = PrimitiveModel<N>;

    open spec fn view(&self) -> PrimitiveModel<N> {
        match *self {
            Primitive::Shadow(shadow) => PrimitiveModel::Shadow(shadow),
            Primitive::Quad(quad) => PrimitiveModel::Quad(quad),
            Primitive::Effect(effect) => PrimitiveModel::Effect(effect),
            Primitive::Path(path) => PrimitiveModel::Path(path@),
            Primitive::Underline(underline) => PrimitiveModel::Underline(underline),
            Primitive::MonochromeSprite(sprite) => PrimitiveModel::MonochromeSprite(sprite),
            Primitive::SubpixelSprite(sprite) => PrimitiveModel::SubpixelSprite(sprite),
            Primitive::PolychromeSprite(sprite) => PrimitiveModel::PolychromeSprite(sprite),
            Primitive::Surface(surface) => PrimitiveModel::Surface(surface),
        }
    }
}

impl<N: Scalar> PrimitiveModel<N> {
    pub open spec fn kind(self) -> PrimitiveKind {
        match self {
            PrimitiveModel::Shadow(_) => PrimitiveKind::Shadow,
            PrimitiveModel::Quad(_) => PrimitiveKind::Quad,
            PrimitiveModel::Effect(_) => PrimitiveKind::Effect,
            PrimitiveModel::Path(_) => PrimitiveKind::Path,
            PrimitiveModel::Underline(_) => PrimitiveKind::Underline,
            PrimitiveModel::MonochromeSprite(_) => PrimitiveKind::MonochromeSprite,
            PrimitiveModel::SubpixelSprite(_) => PrimitiveKind::SubpixelSprite,
            PrimitiveModel::PolychromeSprite(_) => PrimitiveKind::PolychromeSprite,
            PrimitiveModel::Surface(_) => PrimitiveKind::Surface,
        }
    }

    pub open spec fn order(self) -> DrawOrder {
        match self {
            PrimitiveModel::Shadow(shadow) => shadow.order,
            PrimitiveModel::Quad(quad) => quad.order,
            PrimitiveModel::Effect(effect) => effect.instance.order,
            PrimitiveModel::Path(path) => path.order,
            PrimitiveModel::Underline(underline) => underline.order,
            PrimitiveModel::MonochromeSprite(sprite) => sprite.order,
            PrimitiveModel::SubpixelSprite(sprite) => sprite.order,
            PrimitiveModel::PolychromeSprite(sprite) => sprite.order,
            PrimitiveModel::Surface(surface) => surface.order,
        }
    }

    pub open spec fn bounds(self) -> Bounds<N> {
        match self {
            PrimitiveModel::Shadow(shadow) => shadow.bounds,
            PrimitiveModel::Quad(quad) => quad.bounds,
            PrimitiveModel::Effect(effect) => effect.instance.bounds,
            PrimitiveModel::Path(path) => path.bounds,
            PrimitiveModel::Underline(underline) => underline.bounds,
            PrimitiveModel::MonochromeSprite(sprite) => sprite.bounds,
            PrimitiveModel::SubpixelSprite(sprite) => sprite.bounds,
            PrimitiveModel::PolychromeSprite(sprite) => sprite.bounds,
            PrimitiveModel::Surface(surface) => surface.bounds,
        }
    }

    pub open spec fn content_mask(self) -> ContentMask<N> {
        match self {
            PrimitiveModel::Shadow(shadow) => shadow.content_mask,
            PrimitiveModel::Quad(quad) => quad.content_mask,
            PrimitiveModel::Effect(effect) => effect.instance.content_mask,
            PrimitiveModel::Path(path) => path.content_mask,
            PrimitiveModel::Underline(underline) => underline.content_mask,
            PrimitiveModel::MonochromeSprite(sprite) => sprite.content_mask,
            PrimitiveModel::SubpixelSprite(sprite) => sprite.content_mask,
            PrimitiveModel::PolychromeSprite(sprite) => sprite.content_mask,
            PrimitiveModel::Surface(surface) => surface.content_mask,
        }
    }

    /// This primitive at another place of the painting sequence.
    pub open spec fn with_order(self, order: DrawOrder) -> Self {
        match self {
            PrimitiveModel::Shadow(shadow) => PrimitiveModel::Shadow(
                Shadow { order, ..shadow },
            ),
            PrimitiveModel::Quad(quad) => PrimitiveModel::Quad(
                Quad { order, ..quad },
            ),
            PrimitiveModel::Effect(effect) => PrimitiveModel::Effect(
                EffectPrimitive {
                    instance: EffectQuad { order, ..effect.instance },
                    ..effect
                },
            ),
            PrimitiveModel::Path(path) => PrimitiveModel::Path(
                PathModel { order, ..path },
            ),
            PrimitiveModel::Underline(underline) => PrimitiveModel::Underline(
                Underline { order, ..underline },
            ),
            PrimitiveModel::MonochromeSprite(sprite) => PrimitiveModel::MonochromeSprite(
                MonochromeSprite { order, ..sprite },
            ),
            PrimitiveModel::SubpixelSprite(sprite) => PrimitiveModel::SubpixelSprite(
                SubpixelSprite { order, ..sprite },
            ),
            PrimitiveModel::PolychromeSprite(sprite) => PrimitiveModel::PolychromeSprite(
                PolychromeSprite { order, ..sprite },
            ),
            PrimitiveModel::Surface(surface) => PrimitiveModel::Surface(
                PaintSurface { order, ..surface },
            ),
        }
    }

    /// This primitive clipped by another mask.
    pub open spec fn with_mask(self, content_mask: ContentMask<N>) -> Self {
        match self {
            PrimitiveModel::Shadow(shadow) => PrimitiveModel::Shadow(
                Shadow { content_mask, ..shadow },
            ),
            PrimitiveModel::Quad(quad) => PrimitiveModel::Quad(
                Quad { content_mask, ..quad },
            ),
            PrimitiveModel::Effect(effect) => PrimitiveModel::Effect(
                EffectPrimitive {
                    instance: EffectQuad { content_mask, ..effect.instance },
                    ..effect
                },
            ),
            PrimitiveModel::Path(path) => PrimitiveModel::Path(path.with_mask(content_mask)),
            PrimitiveModel::Underline(underline) => PrimitiveModel::Underline(
                Underline { content_mask, ..underline },
            ),
            PrimitiveModel::MonochromeSprite(sprite) => PrimitiveModel::MonochromeSprite(
                MonochromeSprite { content_mask, ..sprite },
            ),
            PrimitiveModel::SubpixelSprite(sprite) => PrimitiveModel::SubpixelSprite(
                SubpixelSprite { content_mask, ..sprite },
            ),
            PrimitiveModel::PolychromeSprite(sprite) => PrimitiveModel::PolychromeSprite(
                PolychromeSprite { content_mask, ..sprite },
            ),
            PrimitiveModel::Surface(surface) => PrimitiveModel::Surface(
                PaintSurface { content_mask, ..surface },
            ),
        }
    }

    /// This primitive moved by `offset`; the mask stays.
    pub open spec fn translated(self, offset: Point<N>) -> Self {
        match self {
            PrimitiveModel::Shadow(shadow) => PrimitiveModel::Shadow(
                Shadow {
                    bounds: shadow.bounds.translated_spec(offset),
                    element_bounds: shadow.element_bounds.translated_spec(offset),
                    ..shadow
                },
            ),
            PrimitiveModel::Quad(quad) => PrimitiveModel::Quad(
                Quad { bounds: quad.bounds.translated_spec(offset), ..quad },
            ),
            PrimitiveModel::Effect(effect) => PrimitiveModel::Effect(
                EffectPrimitive {
                    instance: EffectQuad {
                        bounds: effect.instance.bounds.translated_spec(offset),
                        ..effect.instance
                    },
                    ..effect
                },
            ),
            PrimitiveModel::Path(path) => PrimitiveModel::Path(path.translated(offset)),
            PrimitiveModel::Underline(underline) => PrimitiveModel::Underline(
                Underline { bounds: underline.bounds.translated_spec(offset), ..underline },
            ),
            PrimitiveModel::MonochromeSprite(sprite) => PrimitiveModel::MonochromeSprite(
                MonochromeSprite { bounds: sprite.bounds.translated_spec(offset), ..sprite },
            ),
            PrimitiveModel::SubpixelSprite(sprite) => PrimitiveModel::SubpixelSprite(
                SubpixelSprite { bounds: sprite.bounds.translated_spec(offset), ..sprite },
            ),
            PrimitiveModel::PolychromeSprite(sprite) => PrimitiveModel::PolychromeSprite(
                PolychromeSprite { bounds: sprite.bounds.translated_spec(offset), ..sprite },
            ),
            PrimitiveModel::Surface(surface) => PrimitiveModel::Surface(
                PaintSurface { bounds: surface.bounds.translated_spec(offset), ..surface },
            ),
        }
    }
}

impl<N: Scalar> Primitive<N> {
    /// The kind of this primitive.
    pub fn kind(&self) -> (r: PrimitiveKind)
        ensures
            r == self@.kind(),
    {
        match self {
            Primitive::Shadow(_) => PrimitiveKind::Shadow,
            Primitive::Quad(_) => PrimitiveKind::Quad,
            Primitive::Effect(_) => PrimitiveKind::Effect,
            Primitive::Path(_) => PrimitiveKind::Path,
            Primitive::Underline(_) => PrimitiveKind::Underline,
            Primitive::MonochromeSprite(_) => PrimitiveKind::MonochromeSprite,
            Primitive::SubpixelSprite(_) => PrimitiveKind::SubpixelSprite,
            Primitive::PolychromeSprite(_) => PrimitiveKind::PolychromeSprite,
            Primitive::Surface(_) => PrimitiveKind::Surface,
        }
    }

    /// The place of this primitive in the painting sequence.
    pub fn order(&self) -> (r: DrawOrder)
        ensures
            r == self@.order(),
    {
        match self {
            Primitive::Shadow(shadow) => shadow.order,
            Primitive::Quad(quad) => quad.order,
            Primitive::Effect(effect) => effect.instance.order,
            Primitive::Path(path) => path.order,
            Primitive::Underline(underline) => underline.order,
            Primitive::MonochromeSprite(sprite) => sprite.order,
            Primitive::SubpixelSprite(sprite) => sprite.order,
            Primitive::PolychromeSprite(sprite) => sprite.order,
            Primitive::Surface(surface) => surface.order,
        }
    }

    /// The rectangle that this primitive covers.
    pub fn bounds(&self) -> (r: &Bounds<N>)
        ensures
            *r == self@.bounds(),
    {
        match self {
            Primitive::Shadow(shadow) => &shadow.bounds,
            Primitive::Quad(quad) => &quad.bounds,
            Primitive::Effect(effect) => &effect.instance.bounds,
            Primitive::Path(path) => &path.bounds,
            Primitive::Underline(underline) => &underline.bounds,
            Primitive::MonochromeSprite(sprite) => &sprite.bounds,
            Primitive::SubpixelSprite(sprite) => &sprite.bounds,
            Primitive::PolychromeSprite(sprite) => &sprite.bounds,
            Primitive::Surface(surface) => &surface.bounds,
        }
    }

    /// The mask that this primitive is painted with.
    pub fn content_mask(&self) -> (r: &ContentMask<N>)
        ensures
            *r == self@.content_mask(),
    {
        match self {
            Primitive::Shadow(shadow) => &shadow.content_mask,
            Primitive::Quad(quad) => &quad.content_mask,
            Primitive::Effect(effect) => &effect.instance.content_mask,
            Primitive::Path(path) => &path.content_mask,
            Primitive::Underline(underline) => &underline.content_mask,
            Primitive::MonochromeSprite(sprite) => &sprite.content_mask,
            Primitive::SubpixelSprite(sprite) => &sprite.content_mask,
            Primitive::PolychromeSprite(sprite) => &sprite.content_mask,
            Primitive::Surface(surface) => &surface.content_mask,
        }
    }

    /// This primitive at another place of the painting sequence.
    pub fn with_order(self, order: DrawOrder) -> (r: Self)
        ensures
            r@ == self@.with_order(order),
    {
        match self {
            Primitive::Shadow(shadow) => {
                let mut moved = shadow;
                moved.order = order;
                Primitive::Shadow(moved)
            },
            Primitive::Quad(quad) => {
                let mut moved = quad;
                moved.order = order;
                Primitive::Quad(moved)
            },
            Primitive::Effect(effect) => {
                let mut moved = effect;
                moved.instance.order = order;
                Primitive::Effect(moved)
            },
            Primitive::Path(path) => {
                let mut moved = path;
                moved.order = order;
                Primitive::Path(moved)
            },
            Primitive::Underline(underline) => {
                let mut moved = underline;
                moved.order = order;
                Primitive::Underline(moved)
            },
            Primitive::MonochromeSprite(sprite) => {
                let mut moved = sprite;
                moved.order = order;
                Primitive::MonochromeSprite(moved)
            },
            Primitive::SubpixelSprite(sprite) => {
                let mut moved = sprite;
                moved.order = order;
                Primitive::SubpixelSprite(moved)
            },
            Primitive::PolychromeSprite(sprite) => {
                let mut moved = sprite;
                moved.order = order;
                Primitive::PolychromeSprite(moved)
            },
            Primitive::Surface(surface) => {
                let mut moved = surface;
                moved.order = order;
                Primitive::Surface(moved)
            },
        }
    }

    /// This primitive clipped by another mask.
    pub fn with_mask(self, mask: ContentMask<N>) -> (r: Self)
        ensures
            r@ == self@.with_mask(mask),
    {
        match self {
            Primitive::Shadow(shadow) => {
                let mut moved = shadow;
                moved.content_mask = mask;
                Primitive::Shadow(moved)
            },
            Primitive::Quad(quad) => {
                let mut moved = quad;
                moved.content_mask = mask;
                Primitive::Quad(moved)
            },
            Primitive::Effect(effect) => {
                let mut moved = effect;
                moved.instance.content_mask = mask;
                Primitive::Effect(moved)
            },
            Primitive::Path(path) => {
                let mut moved = path;
                moved.set_content_mask(mask);
                Primitive::Path(moved)
            },
            Primitive::Underline(underline) => {
                let mut moved = underline;
                moved.content_mask = mask;
                Primitive::Underline(moved)
            },
            Primitive::MonochromeSprite(sprite) => {
                let mut moved = sprite;
                moved.content_mask = mask;
                Primitive::MonochromeSprite(moved)
            },
            Primitive::SubpixelSprite(sprite) => {
                let mut moved = sprite;
                moved.content_mask = mask;
                Primitive::SubpixelSprite(moved)
            },
            Primitive::PolychromeSprite(sprite) => {
                let mut moved = sprite;
                moved.content_mask = mask;
                Primitive::PolychromeSprite(moved)
            },
            Primitive::Surface(surface) => {
                let mut moved = surface;
                moved.content_mask = mask;
                Primitive::Surface(moved)
            },
        }
    }

    /// This primitive moved by `offset`; the mask stays.
    pub fn translated(self, offset: Point<N>) -> (r: Self)
        ensures
            r@ == self@.translated(offset),
    {
        match self {
            Primitive::Shadow(shadow) => {
                let mut moved = shadow;
                moved.bounds = moved.bounds.translated(offset);
                moved.element_bounds = moved.element_bounds.translated(offset);
                Primitive::Shadow(moved)
            },
            Primitive::Quad(quad) => {
                let mut moved = quad;
                moved.bounds = moved.bounds.translated(offset);
                Primitive::Quad(moved)
            },
            Primitive::Effect(effect) => {
                let mut moved = effect;
                moved.instance.bounds = moved.instance.bounds.translated(offset);
                Primitive::Effect(moved)
            },
            Primitive::Path(path) => {
                let mut moved = path;
                moved.translate(offset);
                Primitive::Path(moved)
            },
            Primitive::Underline(underline) => {
                let mut moved = underline;
                moved.bounds = moved.bounds.translated(offset);
                Primitive::Underline(moved)
            },
            Primitive::MonochromeSprite(sprite) => {
                let mut moved = sprite;
                moved.bounds = moved.bounds.translated(offset);
                Primitive::MonochromeSprite(moved)
            },
            Primitive::SubpixelSprite(sprite) => {
                let mut moved = sprite;
                moved.bounds = moved.bounds.translated(offset);
                Primitive::SubpixelSprite(moved)
            },
            Primitive::PolychromeSprite(sprite) => {
                let mut moved = sprite;
                moved.bounds = moved.bounds.translated(offset);
                Primitive::PolychromeSprite(moved)
            },
            Primitive::Surface(surface) => {
                let mut moved = surface;
                moved.bounds = moved.bounds.translated(offset);
                Primitive::Surface(moved)
            },
        }
    }
}

impl<N: Scalar> Clone for Primitive<N> {
    fn clone(&self) -> (r: Self)
        ensures
            r@ == self@,
    {
        match self {
            Primitive::Shadow(shadow) => Primitive::Shadow(*shadow),
            Primitive::Quad(quad) => Primitive::Quad(*quad),
            Primitive::Effect(effect) => Primitive::Effect(*effect),
            Primitive::Path(path) => Primitive::Path(path.clone()),
            Primitive::Underline(underline) => Primitive::Underline(*underline),
            Primitive::MonochromeSprite(sprite) => Primitive::MonochromeSprite(*sprite),
            Primitive::SubpixelSprite(sprite) => Primitive::SubpixelSprite(*sprite),
            Primitive::PolychromeSprite(sprite) => Primitive::PolychromeSprite(*sprite),
            Primitive::Surface(surface) => Primitive::Surface(*surface),
        }
    }
}

impl<N> From<Quad<N>> for Primitive<N> {
    fn from(quad: Quad<N>) -> (r: Self) {
        Primitive::Quad(quad)
    }
}

impl<N> vstd::std_specs::convert::FromSpecImpl<Quad<N>> for Primitive<N> {
    open spec fn obeys_from_spec() -> bool {
        true
    }

    open spec fn from_spec(quad: Quad<N>) -> Self {
        Primitive::Quad(quad)
    }
}

impl<N> From<EffectPrimitive<N>> for Primitive<N> {
    fn from(effect: EffectPrimitive<N>) -> (r: Self) {
        Primitive::Effect(effect)
    }
}

impl<N> vstd::std_specs::convert::FromSpecImpl<EffectPrimitive<N>> for Primitive<N> {
    open spec fn obeys_from_spec() -> bool {
        true
    }

    open spec fn from_spec(effect: EffectPrimitive<N>) -> Self {
        Primitive::Effect(effect)
    }
}

impl<N> From<Underline<N>> for Primitive<N> {
    fn from(underline: Underline<N>) -> (r: Self) {
        Primitive::Underline(underline)
    }
}

impl<N> vstd::std_specs::convert::FromSpecImpl<Underline<N>> for Primitive<N> {
    open spec fn obeys_from_spec() -> bool {
        true
    }

    open spec fn from_spec(underline: Underline<N>) -> Self {
        Primitive::Underline(underline)
    }
}

impl<N> From<Shadow<N>> for Primitive<N> {
    fn from(shadow: Shadow<N>) -> (r: Self) {
        Primitive::Shadow(shadow)
    }
}

impl<N> vstd::std_specs::convert::FromSpecImpl<Shadow<N>> for Primitive<N> {
    open spec fn obeys_from_spec() -> bool {
        true
    }

    open spec fn from_spec(shadow: Shadow<N>) -> Self {
        Primitive::Shadow(shadow)
    }
}

impl<N> From<MonochromeSprite<N>> for Primitive<N> {
    fn from(sprite: MonochromeSprite<N>) -> (r: Self) {
        Primitive::MonochromeSprite(sprite)
    }
}

impl<N> vstd::std_specs::convert::FromSpecImpl<MonochromeSprite<N>> for Primitive<N> {
    open spec fn obeys_from_spec() -> bool {
        true
    }

    open spec fn from_spec(sprite: MonochromeSprite<N>) -> Self {
        Primitive::MonochromeSprite(sprite)
    }
}

impl<N> From<SubpixelSprite<N>> for Primitive<N> {
    fn from(sprite: SubpixelSprite<N>) -> (r: Self) {
        Primitive::SubpixelSprite(sprite)
    }
}

impl<N> vstd::std_specs::convert::FromSpecImpl<SubpixelSprite<N>> for Primitive<N> {
    open spec fn obeys_from_spec() -> bool {
        true
    }

    open spec fn from_spec(sprite: SubpixelSprite<N>) -> Self {
        Primitive::SubpixelSprite(sprite)
    }
}

impl<N> From<PolychromeSprite<N>> for Primitive<N> {
    fn from(sprite: PolychromeSprite<N>) -> (r: Self) {
        Primitive::PolychromeSprite(sprite)
    }
}

impl<N> vstd::std_specs::convert::FromSpecImpl<PolychromeSprite<N>> for Primitive<N> {
    open spec fn obeys_from_spec() -> bool {
        true
    }

    open spec fn from_spec(sprite: PolychromeSprite<N>) -> Self {
        Primitive::PolychromeSprite(sprite)
    }
}

impl<N> From<PaintSurface<N>> for Primitive<N> {
    fn from(surface: PaintSurface<N>) -> (r: Self) {
        Primitive::Surface(surface)
    }
}

impl<N> vstd::std_specs::convert::FromSpecImpl<PaintSurface<N>> for Primitive<N> {
    open spec fn obeys_from_spec() -> bool {
        true
    }

    open spec fn from_spec(surface: PaintSurface<N>) -> Self {
        Primitive::Surface(surface)
    }
}

impl<N> From<Path<N>> for Primitive<N> {
    fn from(path: Path<N>) -> (r: Self) {
        Primitive::Path(path)
    }
}

impl<N> vstd::std_specs::convert::FromSpecImpl<Path<N>> for Primitive<N> {
    open spec fn obeys_from_spec() -> bool {
        true
    }

    open spec fn from_spec(path: Path<N>) -> Self {
        Primitive::Path(path)
    }
}

/// Kind, order, bounds and mask of a primitive are its own.
pub proof fn lemma_what_a_primitive_is<N: Scalar>(primitive: PrimitiveModel<N>)
    ensures
        match primitive {
            PrimitiveModel::Shadow(a) => {
                &&& primitive.kind() is Shadow
                &&& primitive.order() == a.order
                &&& primitive.bounds() == a.bounds
                &&& primitive.content_mask() == a.content_mask
            },
            PrimitiveModel::Quad(a) => {
                &&& primitive.kind() is Quad
                &&& primitive.order() == a.order
                &&& primitive.bounds() == a.bounds
                &&& primitive.content_mask() == a.content_mask
            },
            PrimitiveModel::Effect(a) => {
                &&& primitive.kind() is Effect
                &&& primitive.order() == a.instance.order
                &&& primitive.bounds() == a.instance.bounds
                &&& primitive.content_mask() == a.instance.content_mask
            },
            PrimitiveModel::Path(a) => {
                &&& primitive.kind() is Path
                &&& primitive.order() == a.order
                &&& primitive.bounds() == a.bounds
                &&& primitive.content_mask() == a.content_mask
            },
            PrimitiveModel::Underline(a) => {
                &&& primitive.kind() is Underline
                &&& primitive.order() == a.order
                &&& primitive.bounds() == a.bounds
                &&& primitive.content_mask() == a.content_mask
            },
            PrimitiveModel::MonochromeSprite(a) => {
                &&& primitive.kind() is MonochromeSprite
                &&& primitive.order() == a.order
                &&& primitive.bounds() == a.bounds
                &&& primitive.content_mask() == a.content_mask
            },
            PrimitiveModel::SubpixelSprite(a) => {
                &&& primitive.kind() is SubpixelSprite
                &&& primitive.order() == a.order
                &&& primitive.bounds() == a.bounds
                &&& primitive.content_mask() == a.content_mask
            },
            PrimitiveModel::PolychromeSprite(a) => {
                &&& primitive.kind() is PolychromeSprite
                &&& primitive.order() == a.order
                &&& primitive.bounds() == a.bounds
                &&& primitive.content_mask() == a.content_mask
            },
            PrimitiveModel::Surface(a) => {
                &&& primitive.kind() is Surface
                &&& primitive.order() == a.order
                &&& primitive.bounds() == a.bounds
                &&& primitive.content_mask() == a.content_mask
            },
        },
{
}

/// A primitive at another order is the same primitive but for its order.
pub proof fn lemma_another_order_changes_nothing_else<N: Scalar>(
    primitive: PrimitiveModel<N>,
    order: DrawOrder,
)
    ensures
        match (primitive, primitive.with_order(order)) {
            (PrimitiveModel::Shadow(a), PrimitiveModel::Shadow(b)) => b == (Shadow { order, ..a }),
            (PrimitiveModel::Quad(a), PrimitiveModel::Quad(b)) => b == (Quad { order, ..a }),
            (PrimitiveModel::Effect(a), PrimitiveModel::Effect(b)) => b == (EffectPrimitive {
                instance: EffectQuad { order, ..a.instance },
                ..a
            }),
            (PrimitiveModel::Path(a), PrimitiveModel::Path(b)) => b == (PathModel { order, ..a }),
            (PrimitiveModel::Underline(a), PrimitiveModel::Underline(b)) => {
                b == (Underline { order, ..a })
            },
            (PrimitiveModel::MonochromeSprite(a), PrimitiveModel::MonochromeSprite(b)) => {
                b == (MonochromeSprite { order, ..a })
            },
            (PrimitiveModel::SubpixelSprite(a), PrimitiveModel::SubpixelSprite(b)) => {
                b == (SubpixelSprite { order, ..a })
            },
            (PrimitiveModel::PolychromeSprite(a), PrimitiveModel::PolychromeSprite(b)) => {
                b == (PolychromeSprite { order, ..a })
            },
            (PrimitiveModel::Surface(a), PrimitiveModel::Surface(b)) => {
                b == (PaintSurface { order, ..a })
            },
            _ => false,
        },
        primitive.with_order(order).with_order(primitive.order()) == primitive,
{
}

/// A primitive with another mask is the same primitive but for its mask; the
/// vertices of a path carry the mask too.
pub proof fn lemma_another_mask_changes_nothing_else<N: Scalar>(
    primitive: PrimitiveModel<N>,
    content_mask: ContentMask<N>,
)
    ensures
        match (primitive, primitive.with_mask(content_mask)) {
            (PrimitiveModel::Shadow(a), PrimitiveModel::Shadow(b)) => {
                b == (Shadow { content_mask, ..a })
            },
            (PrimitiveModel::Quad(a), PrimitiveModel::Quad(b)) => b == (Quad { content_mask, ..a }),
            (PrimitiveModel::Effect(a), PrimitiveModel::Effect(b)) => b == (EffectPrimitive {
                instance: EffectQuad { content_mask, ..a.instance },
                ..a
            }),
            (PrimitiveModel::Path(a), PrimitiveModel::Path(b)) => b == a.with_mask(content_mask),
            (PrimitiveModel::Underline(a), PrimitiveModel::Underline(b)) => {
                b == (Underline { content_mask, ..a })
            },
            (PrimitiveModel::MonochromeSprite(a), PrimitiveModel::MonochromeSprite(b)) => {
                b == (MonochromeSprite { content_mask, ..a })
            },
            (PrimitiveModel::SubpixelSprite(a), PrimitiveModel::SubpixelSprite(b)) => {
                b == (SubpixelSprite { content_mask, ..a })
            },
            (PrimitiveModel::PolychromeSprite(a), PrimitiveModel::PolychromeSprite(b)) => {
                b == (PolychromeSprite { content_mask, ..a })
            },
            (PrimitiveModel::Surface(a), PrimitiveModel::Surface(b)) => {
                b == (PaintSurface { content_mask, ..a })
            },
            _ => false,
        },
        primitive.with_mask(content_mask).content_mask() == content_mask,
        !(primitive is Path) ==> primitive.with_mask(content_mask).with_mask(
            primitive.content_mask(),
        ) == primitive,
{
}

/// `to` is `from`, moved by `offset`.
pub open spec fn moved_by<N: Scalar>(from: Bounds<N>, to: Bounds<N>, offset: Point<N>) -> bool {
    &&& to.origin.x == from.origin.x.plus_spec(offset.x)
    &&& to.origin.y == from.origin.y.plus_spec(offset.y)
    &&& to.size == from.size
}

/// A moved primitive is the same primitive but for its bounds, which are moved,
/// and of a shadow those of its element; a path moves vertex by vertex. The
/// mask stays.
pub proof fn lemma_moving_changes_nothing_else<N: Scalar>(
    primitive: PrimitiveModel<N>,
    offset: Point<N>,
)
    ensures
        match (primitive, primitive.translated(offset)) {
            (PrimitiveModel::Shadow(a), PrimitiveModel::Shadow(b)) => {
                &&& moved_by(a.bounds, b.bounds, offset)
                &&& moved_by(a.element_bounds, b.element_bounds, offset)
                &&& b == (Shadow { bounds: b.bounds, element_bounds: b.element_bounds, ..a })
            },
            (PrimitiveModel::Quad(a), PrimitiveModel::Quad(b)) => {
                &&& moved_by(a.bounds, b.bounds, offset)
                &&& b == (Quad { bounds: b.bounds, ..a })
            },
            (PrimitiveModel::Effect(a), PrimitiveModel::Effect(b)) => {
                &&& moved_by(a.instance.bounds, b.instance.bounds, offset)
                &&& b == (EffectPrimitive {
                    instance: EffectQuad { bounds: b.instance.bounds, ..a.instance },
                    ..a
                })
            },
            (PrimitiveModel::Path(a), PrimitiveModel::Path(b)) => b == a.translated(offset),
            (PrimitiveModel::Underline(a), PrimitiveModel::Underline(b)) => {
                &&& moved_by(a.bounds, b.bounds, offset)
                &&& b == (Underline { bounds: b.bounds, ..a })
            },
            (PrimitiveModel::MonochromeSprite(a), PrimitiveModel::MonochromeSprite(b)) => {
                &&& moved_by(a.bounds, b.bounds, offset)
                &&& b == (MonochromeSprite { bounds: b.bounds, ..a })
            },
            (PrimitiveModel::SubpixelSprite(a), PrimitiveModel::SubpixelSprite(b)) => {
                &&& moved_by(a.bounds, b.bounds, offset)
                &&& b == (SubpixelSprite { bounds: b.bounds, ..a })
            },
            (PrimitiveModel::PolychromeSprite(a), PrimitiveModel::PolychromeSprite(b)) => {
                &&& moved_by(a.bounds, b.bounds, offset)
                &&& b == (PolychromeSprite { bounds: b.bounds, ..a })
            },
            (PrimitiveModel::Surface(a), PrimitiveModel::Surface(b)) => {
                &&& moved_by(a.bounds, b.bounds, offset)
                &&& b == (PaintSurface { bounds: b.bounds, ..a })
            },
            _ => false,
        },
        moved_by(primitive.bounds(), primitive.translated(offset).bounds(), offset),
        primitive.translated(offset).content_mask() == primitive.content_mask(),
        primitive.translated(offset).order() == primitive.order(),
{
}

/// Within one draw order the kinds are painted in a fixed sequence, shadows
/// first and surfaces last.
pub proof fn lemma_kinds_follow_each_other(kind: PrimitiveKind)
    ensures
        PrimitiveKind::Shadow.rank_spec() < PrimitiveKind::Quad.rank_spec(),
        PrimitiveKind::Quad.rank_spec() < PrimitiveKind::Effect.rank_spec(),
        PrimitiveKind::Effect.rank_spec() < PrimitiveKind::Path.rank_spec(),
        PrimitiveKind::Path.rank_spec() < PrimitiveKind::Underline.rank_spec(),
        PrimitiveKind::Underline.rank_spec() < PrimitiveKind::MonochromeSprite.rank_spec(),
        PrimitiveKind::MonochromeSprite.rank_spec() < PrimitiveKind::SubpixelSprite.rank_spec(),
        PrimitiveKind::SubpixelSprite.rank_spec() < PrimitiveKind::PolychromeSprite.rank_spec(),
        PrimitiveKind::PolychromeSprite.rank_spec() < PrimitiveKind::Surface.rank_spec(),
        kind.rank_spec() <= PrimitiveKind::Surface.rank_spec(),
        PrimitiveKind::Surface.rank_spec() + 1 == KIND_COUNT,
        AtlasTextureKind::Monochrome.rank_spec() < AtlasTextureKind::Polychrome.rank_spec(),
        AtlasTextureKind::Polychrome.rank_spec() < AtlasTextureKind::Subpixel.rank_spec(),
{
}

/// A primitive is made of what it is made from, under the name of its kind.
pub proof fn lemma_made_of_what_it_is_made_from<N>(
    shadow: Shadow<N>,
    quad: Quad<N>,
    effect: EffectPrimitive<N>,
    path: Path<N>,
    underline: Underline<N>,
    monochrome: MonochromeSprite<N>,
    subpixel: SubpixelSprite<N>,
    polychrome: PolychromeSprite<N>,
    surface: PaintSurface<N>,
)
    ensures
        <Primitive<N> as vstd::std_specs::convert::FromSpec<Shadow<N>>>::from_spec(shadow)@
            == PrimitiveModel::Shadow(shadow),
        <Primitive<N> as vstd::std_specs::convert::FromSpec<Quad<N>>>::from_spec(quad)@
            == PrimitiveModel::Quad(quad),
        <Primitive<N> as vstd::std_specs::convert::FromSpec<EffectPrimitive<N>>>::from_spec(effect)@
            == PrimitiveModel::Effect(effect),
        <Primitive<N> as vstd::std_specs::convert::FromSpec<Path<N>>>::from_spec(path)@
            == PrimitiveModel::Path(path@),
        <Primitive<N> as vstd::std_specs::convert::FromSpec<Underline<N>>>::from_spec(underline)@
            == PrimitiveModel::Underline(underline),
        <Primitive<N> as vstd::std_specs::convert::FromSpec<MonochromeSprite<N>>>::from_spec(monochrome)@
            == PrimitiveModel::MonochromeSprite(monochrome),
        <Primitive<N> as vstd::std_specs::convert::FromSpec<SubpixelSprite<N>>>::from_spec(subpixel)@
            == PrimitiveModel::SubpixelSprite(subpixel),
        <Primitive<N> as vstd::std_specs::convert::FromSpec<PolychromeSprite<N>>>::from_spec(polychrome)@
            == PrimitiveModel::PolychromeSprite(polychrome),
        <Primitive<N> as vstd::std_specs::convert::FromSpec<PaintSurface<N>>>::from_spec(surface)@
            == PrimitiveModel::Surface(surface),
{
}

} // verus!
