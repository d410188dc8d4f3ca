use scene_graph::number::DevicePixels;
use scene_graph::surface::{
    surface, surface_buffer, surface_buffer_from_io_surface, ObjectFit, SurfaceBuffer,
    SurfaceCacheKeys, SurfaceDamageRect, SurfaceDamageRects,
};

#[test]
fn opaque_platform_surface_round_trips_with_frame_metadata() {
    let mut keys = SurfaceCacheKeys::new();
    let mut surface = SurfaceBuffer::from_platform_surface(
        String::from("native-resource"),
        640,
        480,
        Some(42),
        Some(7),
        &mut keys,
    );
    let damage = SurfaceDamageRect {
        x: 3,
        y: 4,
        width: 20,
        height: 10,
    };

    surface.set_prefer_retained_copy(true);
    surface.set_generation(9);
    surface.set_dirty_rects(SurfaceDamageRects::from_slice(&[damage]));

    assert_eq!(
        Some(surface.platform_surface()).map(String::as_str),
        Some("native-resource")
    );
    assert_eq!((surface.get_width(), surface.get_height()), (640, 480));
    assert_eq!(surface.cache_key(), 42);
    assert_eq!(surface.source_surface_id(), Some(7));
    assert!(surface.prefer_retained_copy());
    assert_eq!(surface.generation(), 9);
    assert_eq!(surface.dirty_rects().as_slice(), &[damage]);
}

#[test]
fn a_new_surface_has_no_frame_metadata() {
    let mut keys = SurfaceCacheKeys::new();
    let surface = SurfaceBuffer::from_platform_surface((), 1, 2, None, None, &mut keys);
    assert!(!surface.prefer_retained_copy());
    assert_eq!(surface.generation(), 0);
    assert_eq!(surface.source_surface_id(), None);
    assert!(surface.dirty_rects().as_slice().is_empty());
    assert!(SurfaceDamageRects::new().as_slice().is_empty());
}

#[test]
fn surfaces_without_a_key_take_different_ones() {
    let mut keys = SurfaceCacheKeys::new();
    let first = SurfaceBuffer::from_platform_surface((), 1, 1, None, None, &mut keys);
    let given = SurfaceBuffer::from_platform_surface((), 1, 1, Some(9), None, &mut keys);
    let second = SurfaceBuffer::from_platform_surface((), 1, 1, None, None, &mut keys);
    assert_eq!(first.cache_key(), 1);
    assert_eq!(given.cache_key(), 9);
    assert_eq!(second.cache_key(), 2);
}

#[test]
fn more_rects_than_fit_inline_are_kept_in_order() {
    let rects: Vec<SurfaceDamageRect> = (0..20)
        .map(|x| SurfaceDamageRect {
            x,
            y: 1,
            width: 2,
            height: 3,
        })
        .collect();
    let mut keys = SurfaceCacheKeys::new();
    let mut surface = SurfaceBuffer::from_platform_surface((), 1, 1, None, None, &mut keys);
    surface.set_dirty_rects(SurfaceDamageRects::from_slice(&rects));
    let copy = surface.dirty_rects().clone();
    assert_eq!(copy.as_slice(), rects.as_slice());
}

#[test]
fn rects_are_converted_in_order() {
    let rect = |x: usize| SurfaceDamageRect {
        x,
        y: 1,
        width: 2,
        height: 3,
    };
    let few = vec![rect(5), rect(4)];
    let inline = [0, 1, 2, 3, 4, 5, 6, 7].map(rect);
    assert_eq!(SurfaceDamageRects::from(few.as_slice()).as_slice(), few);
    assert_eq!(SurfaceDamageRects::from(inline).as_slice(), inline);
    assert_eq!(
        SurfaceDamageRects::from(few).as_slice(),
        [rect(5), rect(4)]
    );
}

#[test]
fn a_detached_surface_keeps_its_metadata() {
    let mut keys = SurfaceCacheKeys::new();
    let mut surface =
        SurfaceBuffer::from_platform_surface("native", 640, 480, None, Some(7), &mut keys);
    let damage = SurfaceDamageRect {
        x: 3,
        y: 4,
        width: 20,
        height: 10,
    };
    surface.set_prefer_retained_copy(true);
    surface.set_generation(9);
    surface.set_dirty_rects(SurfaceDamageRects::from_slice(&[damage]));
    let (native, metadata) = surface.detach();
    assert_eq!(native, "native");
    assert_eq!((metadata.get_width(), metadata.get_height()), (640, 480));
    assert_eq!(metadata.cache_key(), 1);
    assert_eq!(metadata.source_surface_id(), Some(7));
    assert!(metadata.prefer_retained_copy());
    assert_eq!(metadata.generation(), 9);
    assert_eq!(metadata.dirty_rects().as_slice(), &[damage]);
}

#[test]
fn a_surface_element_is_contained_until_told_otherwise() {
    let mut keys = SurfaceCacheKeys::new();
    let buffer = SurfaceBuffer::from_platform_surface((), 640, u32::MAX, None, None, &mut keys);
    let element = surface(buffer.into());
    assert_eq!(element.object_fit, ObjectFit::Contain);
    let element = element.object_fit(ObjectFit::Cover);
    assert_eq!(element.object_fit, ObjectFit::Cover);
    let size = element.content_size();
    assert!(size.width == DevicePixels(640));
    assert!(size.height == DevicePixels(-1));
}

#[test]
fn a_pixel_buffer_is_wrapped_with_or_without_its_producer() {
    let mut keys = SurfaceCacheKeys::new();
    let plain: SurfaceBuffer<scene_graph::surface::MacSurface<&str, &str>> =
        surface_buffer("pixels", 0x1_0000_0280, 480, None, &mut keys);
    assert_eq!(plain.get_width(), 640);
    assert_eq!(plain.get_height(), 480);
    assert_eq!(plain.cache_key(), 1);
    assert_eq!(*plain.platform_surface().pixel_buffer(), "pixels");
    assert!(plain.platform_surface().io_surface_ref().is_none());
    assert_eq!(plain.source_surface_id(), None);

    let held =
        surface_buffer_from_io_surface("pixels", 640, 480, "producer", 77, Some(5), &mut keys);
    assert_eq!(held.source_surface_id(), Some(77));
    assert_eq!(held.cache_key(), 5);
    assert_eq!(
        held.platform_surface().io_surface_ref().copied(),
        Some("producer")
    );
}
