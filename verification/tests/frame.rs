use wyrd_wallpaper::frame::{
    fits_cover, fits_frame, fits_row, fits_surface, image_dimensions, is_countable, paint_image,
    paint_plain, plan_frame, try_paint_image, FramePlan, Painted,
};
use wyrd_wallpaper::path::FilePath;

fn png_of(image: image::RgbImage) -> Vec<u8> {
    let mut bytes = std::io::Cursor::new(Vec::new());
    image
        .write_to(&mut bytes, image::ImageFormat::Png)
        .unwrap();
    bytes.into_inner()
}

fn two_halves() -> Vec<u8> {
    let mut img = image::RgbImage::new(4, 2);
    for (x, _y, pixel) in img.enumerate_pixels_mut() {
        *pixel = if x < 2 {
            image::Rgb([200, 10, 20])
        } else {
            image::Rgb([30, 40, 250])
        };
    }
    png_of(img)
}

#[test]
fn the_size_of_an_image_is_read() {
    let data = two_halves();
    assert_eq!(image_dimensions(&data, &FilePath::of("/w/a.png")), Some((4, 2)));
    assert_eq!(image_dimensions(&data, &FilePath::of("/w/a.PNG")), Some((4, 2)));
    assert_eq!(image_dimensions(&data, &FilePath::of("/w/a.jpg")), None);
    assert_eq!(image_dimensions(&data, &FilePath::of("/w/a")), None);
    assert_eq!(
        image_dimensions(&b"nope".to_vec(), &FilePath::of("/w/a.png")),
        None
    );
}

#[test]
fn an_image_of_the_frame_size_is_shown_as_it_is() {
    let pixels = paint_image(&two_halves(), &FilePath::of("a.png"), 4, 2).unwrap();
    assert_eq!(pixels.len(), 32);
    assert_eq!(pixels[0..4], [200, 10, 20, 255]);
    assert_eq!(pixels[12..16], [30, 40, 250, 255]);
    assert_eq!(pixels[16..20], [200, 10, 20, 255]);
}

#[test]
fn an_image_covers_the_frame() {
    let pixels = paint_image(&two_halves(), &FilePath::of("a.png"), 6, 6).unwrap();
    assert_eq!(pixels.len(), 6 * 6 * 4);
    assert_eq!(pixels[0..4], [200, 10, 20, 255]);
    assert_eq!(pixels[20..24], [30, 40, 250, 255]);
    assert!(pixels.iter().skip(3).step_by(4).all(|alpha| *alpha == 255));
}

#[test]
fn a_long_image_covers_the_frame() {
    let mut img = image::RgbImage::from_pixel(300000, 1, image::Rgb([200, 10, 20]));
    img.put_pixel(299999, 0, image::Rgb([30, 40, 250]));
    let painted = try_paint_image(&png_of(img), &FilePath::of("a.png"), 4, 4);
    let Painted::Pixels(pixels) = painted else {
        panic!("the image is shown");
    };
    assert_eq!(pixels.len(), 64);
    for pixel in pixels.chunks(4) {
        assert_eq!(pixel, [200, 10, 20, 255]);
    }
}

#[test]
fn a_very_long_image_is_cropped_or_shrunk() {
    let img = image::RgbImage::from_pixel(4300000, 2, image::Rgb([200, 10, 20]));
    let data = png_of(img);
    for (width, height) in [(1, 2), (1, 1)] {
        let painted = try_paint_image(&data, &FilePath::of("a.png"), width, height);
        let Painted::Pixels(pixels) = painted else {
            panic!("the image is shown");
        };
        assert_eq!(pixels[0..4], [200, 10, 20, 255]);
    }
}

#[test]
fn a_transparent_image_keeps_its_bytes() {
    let img = image::RgbaImage::from_pixel(2, 2, image::Rgba([200, 10, 20, 100]));
    let mut bytes = std::io::Cursor::new(Vec::new());
    img.write_to(&mut bytes, image::ImageFormat::Png).unwrap();
    let pixels = paint_image(&bytes.into_inner(), &FilePath::of("a.png"), 2, 2).unwrap();
    for pixel in pixels.chunks(4) {
        assert_eq!(pixel, [200, 10, 20, 100]);
    }
}

#[test]
fn a_frame_of_several_pieces_is_painted() {
    let pixels = paint_image(&two_halves(), &FilePath::of("a.png"), 8192, 2).unwrap();
    assert_eq!(pixels.len(), 8192 * 2 * 4);
    assert_eq!(pixels[0..4], [200, 10, 20, 255]);
}

#[test]
fn a_row_is_counted_in_an_i32() {
    assert!(fits_row(536870911, 1));
    assert!(!fits_row(536870912, 1));
    assert!(!fits_row(268435456, 2));
    assert!(is_countable(536870912, 1, 1));
    assert!(is_countable(1920, 1080, 2));
    assert!(!is_countable(100000, 100000, 1));
    assert!(!is_countable(4294967295, 1, 2));
}

#[test]
fn a_file_that_does_not_decode_is_not_painted() {
    let path = FilePath::of("a.png");
    assert!(paint_image(&b"nope".to_vec(), &path, 4, 4).is_none());
    assert!(matches!(
        try_paint_image(&b"nope".to_vec(), &path, 4, 4),
        Painted::Undecodable
    ));
    assert!(matches!(
        try_paint_image(&two_halves(), &FilePath::of("a.txt"), 4, 4),
        Painted::Undecodable
    ));
}

#[test]
fn sizes_are_tried_before_painting() {
    let path = FilePath::of("a.png");
    assert!(matches!(
        try_paint_image(&two_halves(), &path, 0, 4),
        Painted::TooLarge
    ));
    assert!(matches!(
        try_paint_image(&two_halves(), &path, 65536, 65536),
        Painted::TooLarge
    ));
    let painted = try_paint_image(&two_halves(), &path, 4, 2);
    assert!(matches!(painted, Painted::Pixels(pixels) if pixels.len() == 32));
}

#[test]
fn a_frame_without_a_wallpaper_is_plain() {
    let pixels = paint_plain(3, 2);
    assert_eq!(pixels.len(), 24);
    for pixel in pixels.chunks(4) {
        assert_eq!(pixel, [13, 6, 15, 255]);
    }
}

#[test]
fn a_frame_is_counted_in_an_i32() {
    assert!(fits_frame(1, 1));
    assert!(!fits_frame(0, 1));
    assert!(!fits_frame(1, 0));
    assert!(fits_frame(536870911, 1));
    assert!(!fits_frame(536870912, 1));
    assert!(!fits_frame(4294967295, 4294967295));
}

#[test]
fn a_surface_is_painted_at_its_scale() {
    assert!(fits_surface(1920, 1080, 2));
    assert_eq!(
        plan_frame(1920, 1080, 2),
        FramePlan {
            width: 3840,
            height: 2160,
            stride: 15360,
            size: 33177600,
            scale: 2
        }
    );
    assert_eq!(
        plan_frame(0, 0, -3),
        FramePlan {
            width: 1,
            height: 1,
            stride: 4,
            size: 4,
            scale: 1
        }
    );
    assert!(!fits_surface(4294967295, 1, 2));
    assert!(!fits_surface(100000, 100000, 1));
}

#[test]
fn a_scaled_image_must_fit_in_memory() {
    assert!(fits_cover((1920, 1080), 3840, 2160));
    assert!(fits_cover((1, 1), 1, 1));
    assert!(!fits_cover((0, 1), 4, 4));
    assert!(fits_cover((1, 4000), 320, 240));
    assert!(fits_cover((2000000, 1), 4, 4));
    assert!(fits_cover((4194304, 1), 4, 4));
    assert!(!fits_cover((4194305, 1), 4, 4));
    assert!(fits_cover((4194304, 1), 8388608, 2));
    assert!(fits_cover((4194305, 2), 8388608, 2));
    assert!(!fits_cover((4194305, 2), 8388609, 2));
    assert!(fits_cover((8000000, 1), 1, 1));
    assert!(fits_cover((8000000, 2), 4, 1));
    assert!(fits_cover((90000000, 1), 1, 1));
    assert!(fits_cover((90000000, 5), 4, 5));
    assert!(!fits_cover((1, 4194304), 1920, 1080));
}
