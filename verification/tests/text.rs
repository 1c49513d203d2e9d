use luma::renderer::ClipRectangle;
use luma::renderer::text::clipped_pixel_start;

#[test]
fn places_pixels_only_inside_the_clip_and_the_canvas() {
    let clip = ClipRectangle { x: 2, y: 1, width: 3, height: 2 };
    let length = 8 * 4 * 4;

    assert_eq!(clipped_pixel_start(length, 8, 4, clip, 2, 1), Some((1 * 8 + 2) * 4));
    assert_eq!(clipped_pixel_start(length, 8, 4, clip, 4, 2), Some((2 * 8 + 4) * 4));
    assert_eq!(clipped_pixel_start(length, 8, 4, clip, 5, 2), None);
    assert_eq!(clipped_pixel_start(length, 8, 4, clip, 1, 1), None);
    assert_eq!(clipped_pixel_start(length, 8, 4, clip, 2, 3), None);
    assert_eq!(clipped_pixel_start(length, 8, 4, clip, -1, 1), None);
    assert_eq!(clipped_pixel_start(length, 8, 4, clip, 2, -5), None);
}

#[test]
fn clip_is_limited_by_the_surface_and_the_buffer() {
    let clip = ClipRectangle { x: 0, y: 0, width: usize::MAX, height: usize::MAX };

    assert_eq!(clipped_pixel_start(64, 4, 4, clip, 3, 3), Some(60));
    assert_eq!(clipped_pixel_start(64, 4, 4, clip, 4, 0), None);
    assert_eq!(clipped_pixel_start(60, 4, 4, clip, 3, 3), None);
}
