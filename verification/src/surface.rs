//! Externally produced surfaces on their way through the scene.

use crate::geometry::Size;
use crate::number::DevicePixels;
use smallvec::SmallVec;
use vstd::prelude::*;

verus! {

/// A damaged pixel-space rectangle within a platform surface frame.
#[derive(Clone, Copy, Debug, PartialEq, Eq, Structural)]
pub struct SurfaceDamageRect {
    /// Left pixel coordinate.
    pub x: usize,
    /// Top pixel coordinate.
    pub y: usize,
    /// Width in pixels.
    pub width: usize,
    /// Height in pixels.
    pub height: usize,
}

/// A compact collection of damaged pixel-space rectangles for a surface frame.
#[verifier::external_body]
pub struct SurfaceDamageRects {
    rects: SmallVec<[SurfaceDamageRect; 8]>,
}

/// The rectangles that a collection holds.
pub uninterp spec fn damage_rects(rects: SurfaceDamageRects) -> Seq<SurfaceDamageRect>;

impl View for SurfaceDamageRects {
    type V = Seq<SurfaceDamageRect>;

    open spec fn view(&self) -> Seq<SurfaceDamageRect> {
        damage_rects(*self)
    }
}

/// [`SmallVec::new`]: it holds nothing.
#[verifier::external_body]
fn no_rects() -> (r: SurfaceDamageRects)
    ensures
        damage_rects(r) == Seq::<SurfaceDamageRect>::empty(),
{
    SurfaceDamageRects { rects: SmallVec::new() }
}

/// [`SmallVec::from_slice`]: it holds what the slice holds, in the same order.
#[verifier::external_body]
fn rects_from_slice(slice: &[SurfaceDamageRect]) -> (r: SurfaceDamageRects)
    ensures
        damage_rects(r) == slice@,
{
    SurfaceDamageRects { rects: SmallVec::from_slice(slice) }
}

/// [`SmallVec::as_slice`]: the slice holds what the collection holds, in the
/// same order.
#[verifier::external_body]
fn rects_as_slice(rects: &SurfaceDamageRects) -> (r: &[SurfaceDamageRect])
    ensures
        r@ == damage_rects(*rects),
{
    rects.rects.as_slice()
}

/// The `clone` of [`SmallVec`]: it holds the same rectangles, in the same
/// order.
#[verifier::external_body]
fn cloned_rects(rects: &SurfaceDamageRects) -> (r: SurfaceDamageRects)
    ensures
        damage_rects(r) == damage_rects(*rects),
{
    SurfaceDamageRects { rects: rects.rects.clone() }
}

impl From<&[SurfaceDamageRect]> for SurfaceDamageRects {
    fn from(value: &[SurfaceDamageRect]) -> (r: Self)
        ensures
            r@ == value@,
    {
        rects_from_slice(value)
    }
}

impl vstd::std_specs::convert::FromSpecImpl<&[SurfaceDamageRect]> for SurfaceDamageRects {
    open spec fn obeys_from_spec() -> bool {
        false
    }

    open spec fn from_spec(value: &[SurfaceDamageRect]) -> Self {
        arbitrary()
    }
}

impl From<Vec<SurfaceDamageRect>> for SurfaceDamageRects {
    fn from(value: Vec<SurfaceDamageRect>) -> (r: Self)
        ensures
            r@ == value@,
    {
        rects_from_slice(value.as_slice())
    }
}

impl vstd::std_specs::convert::FromSpecImpl<Vec<SurfaceDamageRect>> for SurfaceDamageRects {
    open spec fn obeys_from_spec() -> bool {
        false
    }

    open spec fn from_spec(value: Vec<SurfaceDamageRect>) -> Self {
        arbitrary()
    }
}

impl From<[SurfaceDamageRect; 8]> for SurfaceDamageRects {
    fn from(value: [SurfaceDamageRect; 8]) -> (r: Self)
        ensures
            r@ == value@,
    {
        rects_from_slice(value.as_slice())
    }
}

impl vstd::std_specs::convert::FromSpecImpl<[SurfaceDamageRect; 8]> for SurfaceDamageRects {
    open spec fn obeys_from_spec() -> bool {
        false
    }

    open spec fn from_spec(value: [SurfaceDamageRect; 8]) -> Self {
        arbitrary()
    }
}

impl SurfaceDamageRects {
    /// No rectangles.
    pub fn new() -> (r: Self)
        ensures
            r@ == Seq::<SurfaceDamageRect>::empty(),
    {
        no_rects()
    }

    /// The rectangles of a slice.
    pub fn from_slice(slice: &[SurfaceDamageRect]) -> (r: Self)
        ensures
            r@ == slice@,
    {
        rects_from_slice(slice)
    }

    /// The rectangles as a slice.
    pub fn as_slice(&self) -> (r: &[SurfaceDamageRect])
        ensures
            r@ == self@,
    {
        rects_as_slice(self)
    }
}

impl Clone for SurfaceDamageRects {
    fn clone(&self) -> (r: Self)
        ensures
            r@ == self@,
    {
        cloned_rects(self)
    }
}

/// The number after `key`, which starts over at 0.
pub open spec fn key_after(key: usize) -> usize {
    if key == usize::MAX {
        0
    } else {
        (key + 1) as usize
    }
}

/// Hands out identities for renderer-side caches.
pub struct SurfaceCacheKeys {
    next: usize,
}

impl SurfaceCacheKeys {
    /// The next identity.
    pub closed spec fn next_key(&self) -> usize {
        self.next
    }

    /// The first identity is 1.
    pub fn new() -> (r: Self)
        ensures
            r.next_key() == 1,
    {
        SurfaceCacheKeys { next: 1 }
    }

    /// The next identity.
    pub fn take(&mut self) -> (r: usize)
        ensures
            r == old(self).next_key(),
            final(self).next_key() == key_after(r),
    {
        let key: usize = self.next;
        self.next = key.wrapping_add(1);
        key
    }
}

/// The identity that is handed out after `count` others.
pub open spec fn key_number(first: usize, count: nat) -> usize
    decreases count,
{
    if count == 0 {
        first
    } else {
        key_after(key_number(first, (count - 1) as nat))
    }
}

proof fn lemma_key_number(first: usize, count: nat)
    ensures
        key_number(first, count) == (first + count) % (usize::MAX + 1),
    decreases count,
{
    let n: int = usize::MAX + 1;
    if count == 0 {
        vstd::arithmetic::div_mod::lemma_small_mod(first as nat, n as nat);
    } else {
        lemma_key_number(first, (count - 1) as nat);
        let before = first + count - 1;
        vstd::arithmetic::div_mod::lemma_add_mod_noop(before, 1, n);
        vstd::arithmetic::div_mod::lemma_small_mod(1, n as nat);
        if before % n == usize::MAX {
            vstd::arithmetic::div_mod::lemma_mod_self_0(n);
        } else {
            vstd::arithmetic::div_mod::lemma_small_mod((before % n + 1) as nat, n as nat);
        }
    }
}

/// Identities that were handed out differ, until all numbers were used.
pub proof fn lemma_keys_differ(first: usize, i: nat, j: nat)
    requires
        i < j,
        j - i <= usize::MAX,
    ensures
        key_number(first, i) != key_number(first, j),
{
    let n: int = usize::MAX + 1;
    lemma_key_number(first, i);
    lemma_key_number(first, j);
    let a: int = first + i;
    let b: int = first + j;
    if a % n == b % n {
        vstd::arithmetic::div_mod::lemma_fundamental_div_mod(a, n);
        vstd::arithmetic::div_mod::lemma_fundamental_div_mod(b, n);
        let q: int = b / n - a / n;
        assert(b - a == n * q) by (nonlinear_arith)
            requires
                a == n * (a / n) + a % n,
                b == n * (b / n) + b % n,
                a % n == b % n,
                q == b / n - a / n,
        ;
        assert(q > 0 && q < 1) by (nonlinear_arith)
            requires
                0 < n * q,
                n * q < n,
                n > 0,
        ;
    }
}

/// Stands for a shared surface buffer, which a scene carries along without
/// looking into it.
#[derive(Clone, Copy, Debug, PartialEq, Eq, Hash, Structural)]
pub struct SurfaceHandle(pub usize);

/// What a [`SurfaceBuffer`] is.
#[verifier::ext_equal]
pub struct SurfaceModel<R> {
    pub platform_surface: R,
    pub width: u32,
    pub height: u32,
    pub cache_key: usize,
    pub source_surface_id: Option<u64>,
    pub prefer_retained_copy: bool,
    pub generation: u64,
    pub dirty_rects: Seq<SurfaceDamageRect>,
}

/// An opaque platform GPU surface together with renderer-independent frame metadata.
///
/// Platform code creates these buffers and recovers its native resource with
/// [`SurfaceBuffer::platform_surface`]. Keeping the resource opaque lets the
/// scene carry surfaces without depending on a platform graphics API.
pub struct SurfaceBuffer<R> {
    platform_surface: R,
    width: u32,
    height: u32,
    cache_key: usize,
    source_surface_id: Option<u64>,
    prefer_retained_copy: bool,
    generation: u64,
    dirty_rects: SurfaceDamageRects,
}

impl<R> View for SurfaceBuffer<R> {
    type V = SurfaceModel<R>;

    closed spec fn view(&self) -> SurfaceModel<R> {
        SurfaceModel {
            platform_surface: self.platform_surface,
            width: self.width,
            height: self.height,
            cache_key: self.cache_key,
            source_surface_id: self.source_surface_id,
            prefer_retained_copy: self.prefer_retained_copy,
            generation: self.generation,
            dirty_rects: self.dirty_rects@,
        }
    }
}

impl<R> SurfaceBuffer<R> {
    /// Wrap a native surface resource for transport through the scene. Without
    /// a cache key of its own it takes the next one.
    pub fn from_platform_surface(
        platform_surface: R,
        width: u32,
        height: u32,
        cache_key: Option<usize>,
        source_surface_id: Option<u64>,
        keys: &mut SurfaceCacheKeys,
    ) -> (r: Self)
        ensures
            r@ == (SurfaceModel {
                platform_surface,
                width,
                height,
                cache_key: match cache_key {
                    Some(key) => key,
                    None => old(keys).next_key(),
                },
                source_surface_id,
                prefer_retained_copy: false,
                generation: 0,
                dirty_rects: Seq::empty(),
            }),
            final(keys).next_key() == (match cache_key {
                Some(_) => old(keys).next_key(),
                None => key_after(old(keys).next_key()),
            }),
            r@ == wrapped(
                platform_surface,
                width,
                height,
                cache_key,
                source_surface_id,
                old(keys).next_key(),
            ),
            final(keys).next_key() == next_key_after(cache_key, old(keys).next_key()),
    {
        let cache_key: usize = match cache_key {
            Some(key) => key,
            None => keys.take(),
        };
        SurfaceBuffer {
            platform_surface,
            width,
            height,
            cache_key,
            source_surface_id,
            prefer_retained_copy: false,
            generation: 0,
            dirty_rects: SurfaceDamageRects::new(),
        }
    }

    /// Recover the native resource.
    pub fn platform_surface(&self) -> (r: &R)
        ensures
            *r == self@.platform_surface,
    {
        &self.platform_surface
    }

    /// Texture width in pixels.
    pub fn get_width(&self) -> (r: u32)
        ensures
            r == self@.width,
    {
        self.width
    }

    /// Texture height in pixels.
    pub fn get_height(&self) -> (r: u32)
        ensures
            r == self@.height,
    {
        self.height
    }

    /// Stable identity for renderer-side caches.
    pub fn cache_key(&self) -> (r: usize)
        ensures
            r == self@.cache_key,
    {
        self.cache_key
    }

    /// Stable identity for the underlying producer surface, when available.
    pub fn source_surface_id(&self) -> (r: Option<u64>)
        ensures
            r == self@.source_surface_id,
    {
        self.source_surface_id
    }

    /// Whether the renderer should copy this frame into retained private storage.
    pub fn prefer_retained_copy(&self) -> (r: bool)
        ensures
            r == self@.prefer_retained_copy,
    {
        self.prefer_retained_copy
    }

    /// Update the retained-copy preference for this frame.
    pub fn set_prefer_retained_copy(&mut self, prefer_retained_copy: bool)
        ensures
            final(self)@ == (SurfaceModel { prefer_retained_copy, ..old(self)@ }),
    {
        self.prefer_retained_copy = prefer_retained_copy;
    }

    /// Monotonically increasing frame generation assigned by the producer.
    pub fn generation(&self) -> (r: u64)
        ensures
            r == self@.generation,
    {
        self.generation
    }

    /// Update the frame generation associated with this surface buffer.
    pub fn set_generation(&mut self, generation: u64)
        ensures
            final(self)@ == (SurfaceModel { generation, ..old(self)@ }),
    {
        self.generation = generation;
    }

    /// Dirty rects, in pixel coordinates, associated with the current frame.
    pub fn dirty_rects(&self) -> (r: SurfaceDamageRects)
        ensures
            r@ == self@.dirty_rects,
    {
        self.dirty_rects.clone()
    }

    /// Update the dirty rects associated with this frame.
    pub fn set_dirty_rects(&mut self, rects: SurfaceDamageRects)
        ensures
            final(self)@ == (SurfaceModel { dirty_rects: rects@, ..old(self)@ }),
    {
        self.dirty_rects = rects;
    }

    /// Parts the native resource from the frame metadata, which then can be
    /// shared apart from it.
    pub fn detach(self) -> (r: (R, SurfaceBuffer<()>))
        ensures
            r.0 == self@.platform_surface,
            r.1@ == (SurfaceModel {
                platform_surface: (),
                width: self@.width,
                height: self@.height,
                cache_key: self@.cache_key,
                source_surface_id: self@.source_surface_id,
                prefer_retained_copy: self@.prefer_retained_copy,
                generation: self@.generation,
                dirty_rects: self@.dirty_rects,
            }),
    {
        (
            self.platform_surface,
            SurfaceBuffer {
                platform_surface: (),
                width: self.width,
                height: self.height,
                cache_key: self.cache_key,
                source_surface_id: self.source_surface_id,
                prefer_retained_copy: self.prefer_retained_copy,
                generation: self.generation,
                dirty_rects: self.dirty_rects,
            },
        )
    }
}

/// How content is fitted into the bounds of its element.
#[derive(Clone, Copy, Debug, PartialEq, Eq, Structural)]
pub enum ObjectFit {
    /// Stretched to fill the bounds.
    Fill,
    /// Scaled to lie within the bounds.
    Contain,
    /// Scaled to cover the bounds.
    Cover,
    /// Scaled down to lie within the bounds, if it does not already.
    ScaleDown,
    /// At its own size.
    Unscaled,
}

/// A source of a surface's content.
pub enum SurfaceSource<R> {
    /// A platform GPU surface buffer.
    Surface(SurfaceBuffer<R>),
}

impl<R> From<SurfaceBuffer<R>> for SurfaceSource<R> {
    fn from(value: SurfaceBuffer<R>) -> (r: Self) {
        SurfaceSource::Surface(value)
    }
}

impl<R> vstd::std_specs::convert::FromSpecImpl<SurfaceBuffer<R>> for SurfaceSource<R> {
    open spec fn obeys_from_spec() -> bool {
        true
    }

    open spec fn from_spec(value: SurfaceBuffer<R>) -> Self {
        SurfaceSource::Surface(value)
    }
}

/// A surface element.
pub struct Surface<R> {
    pub source: SurfaceSource<R>,
    pub object_fit: ObjectFit,
}

/// Create a new surface element. Its content is contained in its bounds.
pub fn surface<R>(source: SurfaceSource<R>) -> (r: Surface<R>)
    ensures
        r == (Surface { source, object_fit: ObjectFit::Contain }),
{
    Surface { source, object_fit: ObjectFit::Contain }
}

/// A texture extent as a number of device pixels. An extent beyond the largest
/// number wraps around to a negative one.
pub open spec fn device_extent(extent: u32) -> int {
    if extent <= i32::MAX {
        extent as int
    } else {
        extent - 0x1_0000_0000
    }
}

fn device_pixels(extent: u32) -> (r: DevicePixels)
    ensures
        r.0 == device_extent(extent),
{
    assert(extent <= 0x7fff_ffff ==> extent as i32 == extent) by (bit_vector);
    assert(extent > 0x7fff_ffff ==> extent as i32 == extent - 0x1_0000_0000) by (bit_vector);
    DevicePixels(
        #[verifier::truncate]
        (extent as i32),
    )
}

impl<R> Surface<R> {
    /// Set the object fit for the image.
    pub fn object_fit(self, object_fit: ObjectFit) -> (r: Self)
        ensures
            r == (Surface { object_fit, ..self }),
    {
        Surface { object_fit, ..self }
    }

    /// The size of the content, which is fitted into the bounds of the element
    /// when it is painted.
    pub fn content_size(&self) -> (r: Size<DevicePixels>)
        ensures
            ({
                let SurfaceSource::Surface(buffer) = self.source;
                &&& r.width.0 == device_extent(buffer@.width)
                &&& r.height.0 == device_extent(buffer@.height)
            }),
    {
        match &self.source {
            SurfaceSource::Surface(surface) => Size {
                width: device_pixels(surface.get_width()),
                height: device_pixels(surface.get_height()),
            },
        }
    }
}

/// Native storage carried by a surface buffer: a pixel buffer, and the
/// producer's storage as long as it has to be held.
pub struct MacSurface<P, S> {
    pixel_buffer: P,
    held_io_surface: Option<S>,
}

impl<P, S> MacSurface<P, S> {
    /// The pixel buffer.
    pub closed spec fn pixels(&self) -> P {
        self.pixel_buffer
    }

    /// The producer's storage, if it is held.
    pub closed spec fn held(&self) -> Option<S> {
        self.held_io_surface
    }

    /// The pixel buffer.
    pub fn pixel_buffer(&self) -> (r: &P)
        ensures
            *r == self.pixels(),
    {
        &self.pixel_buffer
    }

    /// The producer's storage, if it is held.
    pub fn io_surface_ref(&self) -> (r: Option<&S>)
        ensures
            r == (match self.held() {
                Some(surface) => Some(&surface),
                None => None,
            }),
    {
        match &self.held_io_surface {
            Some(surface) => Some(surface),
            None => None,
        }
    }
}

/// An extent of a pixel buffer as that of a texture, of which only the lower
/// 32 bits are kept.
pub open spec fn texture_extent(extent: usize) -> int {
    extent as int % 0x1_0000_0000
}

fn texture_pixels(extent: usize) -> (r: u32)
    ensures
        r == texture_extent(extent),
{
    let wide: u64 = extent as u64;
    assert(wide as u32 == wide % 0x1_0000_0000) by (bit_vector);
    #[verifier::truncate]
    (wide as u32)
}

/// Wrap a pixel buffer of the given extents as a surface.
pub fn surface_buffer<P, S>(
    pixel_buffer: P,
    width: usize,
    height: usize,
    cache_key: Option<usize>,
    keys: &mut SurfaceCacheKeys,
) -> (r: SurfaceBuffer<MacSurface<P, S>>)
    ensures
        r@.platform_surface.pixels() == pixel_buffer,
        r@.platform_surface.held() is None,
        r@.width == texture_extent(width),
        r@.height == texture_extent(height),
        r@.cache_key == (match cache_key {
            Some(key) => key,
            None => old(keys).next_key(),
        }),
        r@.source_surface_id is None,
        !r@.prefer_retained_copy,
        r@.generation == 0,
        r@.dirty_rects == Seq::<SurfaceDamageRect>::empty(),
        final(keys).next_key() == (match cache_key {
            Some(_) => old(keys).next_key(),
            None => key_after(old(keys).next_key()),
        }),
{
    SurfaceBuffer::from_platform_surface(
        MacSurface { pixel_buffer, held_io_surface: None },
        texture_pixels(width),
        texture_pixels(height),
        cache_key,
        None,
        keys,
    )
}

/// Wrap a pixel buffer that is backed by a producer's surface, and hold the
/// producer's storage.
pub fn surface_buffer_from_io_surface<P, S>(
    pixel_buffer: P,
    width: usize,
    height: usize,
    io_surface: S,
    io_surface_id: u32,
    cache_key: Option<usize>,
    keys: &mut SurfaceCacheKeys,
) -> (r: SurfaceBuffer<MacSurface<P, S>>)
    ensures
        r@.platform_surface.pixels() == pixel_buffer,
        r@.platform_surface.held() == Some(io_surface),
        r@.width == texture_extent(width),
        r@.height == texture_extent(height),
        r@.cache_key == (match cache_key {
            Some(key) => key,
            None => old(keys).next_key(),
        }),
        r@.source_surface_id == Some(io_surface_id as u64),
        !r@.prefer_retained_copy,
        r@.generation == 0,
        r@.dirty_rects == Seq::<SurfaceDamageRect>::empty(),
        final(keys).next_key() == (match cache_key {
            Some(_) => old(keys).next_key(),
            None => key_after(old(keys).next_key()),
        }),
{
    SurfaceBuffer::from_platform_surface(
        MacSurface { pixel_buffer, held_io_surface: Some(io_surface) },
        texture_pixels(width),
        texture_pixels(height),
        cache_key,
        Some(io_surface_id as u64),
        keys,
    )
}

/// A texture extent and its number of device pixels are the same 32 bits: the
/// number is in range, and differs from the extent by none or all of them. Of
/// the extent of a pixel buffer the lower 32 bits are kept.
pub proof fn lemma_extents_keep_their_bits(extent: u32, wide: usize)
    ensures
        i32::MIN <= device_extent(extent) <= i32::MAX,
        (device_extent(extent) - extent) % 0x1_0000_0000 == 0,
        extent <= i32::MAX ==> device_extent(extent) == extent,
        0 <= texture_extent(wide) <= u32::MAX,
        (wide - texture_extent(wide)) % 0x1_0000_0000 == 0,
        wide <= u32::MAX ==> texture_extent(wide) == wide,
{
}

/// A native surface as it is wrapped while `next` is the next cache key.
pub open spec fn wrapped<R>(
    platform_surface: R,
    width: u32,
    height: u32,
    cache_key: Option<usize>,
    source_surface_id: Option<u64>,
    next: usize,
) -> SurfaceModel<R> {
    SurfaceModel {
        platform_surface,
        width,
        height,
        cache_key: match cache_key {
            Some(key) => key,
            None => next,
        },
        source_surface_id,
        prefer_retained_copy: false,
        generation: 0,
        dirty_rects: Seq::empty(),
    }
}

/// The next cache key once a surface was wrapped.
pub open spec fn next_key_after(cache_key: Option<usize>, next: usize) -> usize {
    match cache_key {
        Some(_) => next,
        None => key_after(next),
    }
}

/// A wrapped surface is the resource with its extents and its source, without
/// damage and in its first generation. A cache key that it brings along is kept
/// and uses none up; two surfaces that bring none never share one when they are
/// wrapped in turn.
pub proof fn lemma_what_is_wrapped<R>(
    first: R,
    second: R,
    width: u32,
    height: u32,
    key: usize,
    source: Option<u64>,
    next: usize,
)
    ensures
        ({
            let kept = wrapped(first, width, height, Some(key), source, next);
            let named = wrapped(first, width, height, None, source, next);
            let later = wrapped(second, width, height, None, source, next_key_after(None, next));
            &&& kept.platform_surface == first && named.platform_surface == first
            &&& kept.width == width && named.width == width
            &&& kept.height == height && named.height == height
            &&& kept.source_surface_id == source && named.source_surface_id == source
            &&& !kept.prefer_retained_copy && !named.prefer_retained_copy
            &&& kept.generation == 0 && named.generation == 0
            &&& kept.dirty_rects.len() == 0 && named.dirty_rects.len() == 0
            &&& kept.cache_key == key
            &&& next_key_after(Some(key), next) == next
            &&& named.cache_key == next
            &&& later.cache_key != named.cache_key
        }),
{
}

} // verus!
