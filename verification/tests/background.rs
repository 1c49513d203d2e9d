use luma::renderer::{BackgroundImage, ImageError};

fn alpha(pixel: &[u8]) -> u8 {
    pixel[3]
}

fn center_index() -> usize {
    (4 * 9 + 4) * 4
}

fn image_with_center_pixel() -> BackgroundImage {
    let mut pixels = vec![0; 9 * 9 * 4];
    pixels[center_index()] = 255;
    BackgroundImage::from_argb8888(9, 9, 36, &pixels, false).expect("test image must be valid")
}

#[test]
fn normalizes_stride_orientation_and_alpha() {
    let source = [
        1, 2, 3, 4, 5, 6, 7, 8, 0, 0, 0, 0, 9, 10, 11, 12, 13, 14, 15, 16, 0, 0, 0, 0,
    ];

    let image =
        BackgroundImage::from_argb8888(2, 2, 12, &source, true).expect("valid image should normalize");

    assert_eq!(image.width(), 2);
    assert_eq!(image.height(), 2);
    assert_eq!(&image.pixels()[..3], &[9, 10, 11]);
    assert_eq!(&image.pixels()[8..11], &[1, 2, 3]);
    assert!(image.pixels().chunks_exact(4).all(|pixel| alpha(pixel) == 255));
}

#[test]
fn rejects_incomplete_or_excessive_images() {
    assert_eq!(
        BackgroundImage::from_argb8888(2, 2, 8, &[0; 8], false),
        Err(ImageError::BufferTooSmall)
    );
    assert_eq!(
        BackgroundImage::from_argb8888(16_777_217, 1, u32::MAX, &[], false),
        Err(ImageError::Dimensions)
    );
}

#[test]
fn zero_radius_preserves_pixels() {
    let mut image = image_with_center_pixel();
    let original = image.pixels().to_vec();

    image.blur(0);

    assert_eq!(image.pixels(), original);
}

#[test]
fn blur_spreads_color_and_keeps_the_frame_opaque() {
    let mut image = image_with_center_pixel();

    image.blur(6);

    assert!(image.pixels().chunks_exact(4).all(|pixel| alpha(pixel) == 255));
    assert!(
        image
            .pixels()
            .chunks_exact(4)
            .filter(|pixel| pixel[0] > 0)
            .count()
            > 1
    );
    assert!(image.pixels()[center_index()] < 255);
}

#[test]
fn upright_images_keep_row_order() {
    let source = [1, 2, 3, 0, 9, 10, 11, 0];
    let image = BackgroundImage::from_argb8888(1, 2, 4, &source, false).expect("valid image");
    assert_eq!(image.pixels(), &[1, 2, 3, 255, 9, 10, 11, 255]);
}

#[test]
fn rejects_strides_shorter_than_a_row() {
    assert_eq!(
        BackgroundImage::from_argb8888(2, 1, 7, &[0; 16], false),
        Err(ImageError::Dimensions)
    );
    assert_eq!(
        BackgroundImage::from_argb8888(0, 1, 0, &[], false),
        Err(ImageError::Dimensions)
    );
}

#[test]
fn blur_of_a_uniform_image_keeps_it_uniform() {
    let pixels = [40, 80, 120, 255].repeat(16);
    let mut image = BackgroundImage::from_argb8888(4, 4, 16, &pixels, false).expect("valid image");
    image.blur(3);
    assert_eq!(image.pixels(), &pixels[..]);
}

#[test]
fn image_errors_have_messages() {
    assert!(!ImageError::Dimensions.to_string().is_empty());
    assert!(!ImageError::BufferTooSmall.to_string().is_empty());
}

#[test]
fn blur_keeps_each_color_byte_within_its_channel_range() {
    let width: u32 = 5;
    let height: u32 = 4;
    let source: Vec<u8> = (0..width * height * 4)
        .map(|index| ((index * 37 + 11) % 251) as u8)
        .collect();
    let mut image = BackgroundImage::from_argb8888(width, height, width * 4, &source, false)
        .expect("valid image");
    let before = image.pixels().to_vec();
    image.blur(2);
    let after = image.pixels();
    assert_eq!(after.len(), before.len());
    for channel in 0..3 {
        let values = || before.iter().skip(channel).step_by(4);
        let low = *values().min().expect("pixels");
        let high = *values().max().expect("pixels");
        for value in after.iter().skip(channel).step_by(4) {
            assert!(low <= *value && *value <= high);
        }
    }
    assert!(after.iter().skip(3).step_by(4).all(|alpha| *alpha == 255));
}

#[test]
fn blurring_an_image_of_one_color_changes_nothing() {
    let source: Vec<u8> = [30u8, 60, 90, 255].repeat(6 * 5);
    let mut image = BackgroundImage::from_argb8888(6, 5, 24, &source, false).expect("valid image");
    let before = image.pixels().to_vec();
    image.blur(7);
    assert_eq!(image.pixels(), &before[..]);
}
