use std::str::FromStr;
use wyrd_wallpaper::catalog::{
    accent, can_extract, default_directory, extract_palette, fallback_palette, first_path, is_image,
    list, palette_from_hex, palette_from_source, resolve, resolve_target, scheme_from_m3,
    try_accent, try_extract_palette, FoundFile, Probe, ResolveError, WallpaperEntry,
};
use wyrd_wallpaper::frame::image_dimensions;
use wyrd_wallpaper::path::FilePath;
use wyrd_wallpaper::theme::Argb;

fn png_of(image: image::RgbImage) -> Vec<u8> {
    let mut bytes = std::io::Cursor::new(Vec::new());
    image
        .write_to(&mut bytes, image::ImageFormat::Png)
        .unwrap();
    bytes.into_inner()
}

fn found(path: &str, is_file: bool, dimensions: Option<(u32, u32)>) -> FoundFile {
    FoundFile {
        path: FilePath::of(path),
        is_file,
        dimensions,
    }
}

fn names(entries: &Vec<WallpaperEntry>) -> Vec<String> {
    entries.iter().map(|entry| entry.name.clone()).collect()
}

#[test]
fn unsupported_paths_are_rejected() {
    let dir = FilePath::of("/tmp/wyrd-wallpaper-test");
    let input = FilePath::of("not-an-image.txt");
    let target = resolve_target(&input, &dir);
    assert_eq!(
        target.bytes,
        b"/tmp/wyrd-wallpaper-test/not-an-image.txt".to_vec()
    );
    let data = b"nope".to_vec();
    let probe = Probe {
        is_file: true,
        is_image: image_dimensions(&data, &target).is_some(),
        canonical: Some(target),
    };
    assert!(resolve(&input, &dir, probe).is_err());
}

#[test]
fn accent_extraction_picks_vibrant_color() {
    // Create an image: 50% dark background, 50% vibrant sky blue (#7dd3fc)
    let mut img = image::RgbImage::new(16, 16);
    for (x, _y, pixel) in img.enumerate_pixels_mut() {
        if x < 8 {
            *pixel = image::Rgb([125, 211, 252]); // Vibrant sky blue
        } else {
            *pixel = image::Rgb([20, 20, 25]); // Dark background
        }
    }
    let data = png_of(img);

    let extracted = accent(Some(&data));
    assert!(extracted.starts_with('#'));
    assert_eq!(extracted.len(), 7);
    // The extracted color should prioritize the vibrant sky-blue over the dark background
    let _r = u8::from_str_radix(&extracted[1..3], 16).unwrap();
    let g = u8::from_str_radix(&extracted[3..5], 16).unwrap();
    let b = u8::from_str_radix(&extracted[5..7], 16).unwrap();
    assert!(
        g > 150,
        "Expected vibrant green component in blue accent, got {}",
        g
    );
    assert!(b > 180, "Expected vibrant blue component, got {}", b);
    assert_eq!(try_accent(Some(&data)), Some(extracted));
}

#[test]
fn the_fallback_palette_maps_its_roles() {
    let map = fallback_palette().dark.to_map();
    assert_eq!(map.len(), 18);
    assert_eq!(map.get("accent").unwrap(), "#7dd3fc");
    assert_eq!(map.get("primary").unwrap(), "#7dd3fc");
    assert_eq!(map.get("outline_variant").unwrap(), "#242d3d");
    assert!(map.get("shadow").is_none());
    assert_eq!(fallback_palette().light.primary, "#0284c7");
    assert_eq!(fallback_palette().light.on_surface_variant, "#64748b");
}

#[test]
fn a_file_that_was_not_read_gives_the_fallback() {
    assert_eq!(extract_palette(None), fallback_palette());
    assert_eq!(accent(None), "#7dd3fc");
    assert!(can_extract(None));
}

#[test]
fn a_file_that_does_not_decode_gives_no_palette() {
    let data = b"no image at all".to_vec();
    assert!(!can_extract(Some(&data)));
    assert!(try_extract_palette(Some(&data)).is_none());
    assert!(try_accent(Some(&data)).is_none());
}

#[test]
fn a_palette_follows_the_material_theme() {
    let source = material_colors::color::Argb::from_str("#7dd3fc").unwrap();
    let theme = material_colors::theme::ThemeBuilder::with_source(source).build();
    let made = palette_from_hex("#7dd3fc").unwrap();
    let dark = &theme.schemes.dark;
    let light = &theme.schemes.light;
    assert_eq!(made.dark.primary, dark.primary.to_hex_with_pound());
    assert_eq!(made.dark.on_primary, dark.on_primary.to_hex_with_pound());
    assert_eq!(
        made.dark.primary_container,
        dark.primary_container.to_hex_with_pound()
    );
    assert_eq!(
        made.dark.on_primary_container,
        dark.on_primary_container.to_hex_with_pound()
    );
    assert_eq!(made.dark.secondary, dark.secondary.to_hex_with_pound());
    assert_eq!(made.dark.on_secondary, dark.on_secondary.to_hex_with_pound());
    assert_eq!(made.dark.tertiary, dark.tertiary.to_hex_with_pound());
    assert_eq!(made.dark.on_tertiary, dark.on_tertiary.to_hex_with_pound());
    assert_eq!(made.dark.background, dark.background.to_hex_with_pound());
    assert_eq!(made.dark.on_background, dark.on_background.to_hex_with_pound());
    assert_eq!(made.dark.surface, dark.surface.to_hex_with_pound());
    assert_eq!(made.dark.on_surface, dark.on_surface.to_hex_with_pound());
    assert_eq!(
        made.dark.surface_container,
        dark.surface_container.to_hex_with_pound()
    );
    assert_eq!(
        made.dark.surface_variant,
        dark.surface_variant.to_hex_with_pound()
    );
    assert_eq!(
        made.dark.on_surface_variant,
        dark.on_surface_variant.to_hex_with_pound()
    );
    assert_eq!(made.dark.outline, dark.outline.to_hex_with_pound());
    assert_eq!(
        made.dark.outline_variant,
        dark.outline_variant.to_hex_with_pound()
    );
    assert_eq!(made.light.primary, light.primary.to_hex_with_pound());
    assert_eq!(
        made.light.outline_variant,
        light.outline_variant.to_hex_with_pound()
    );
    let color = Argb {
        alpha: 255,
        red: 125,
        green: 211,
        blue: 252,
    };
    assert_eq!(palette_from_source(color), made);
}

#[test]
fn a_text_that_is_no_color_gives_no_palette() {
    assert!(palette_from_hex("").is_none());
    assert!(palette_from_hex("#12345").is_none());
    assert!(palette_from_hex("#12345g").is_none());
    assert!(palette_from_hex("sky blue").is_none());
}

#[test]
fn a_scheme_lists_its_colors_in_order() {
    let roles: Vec<Argb> = (0..17u8)
        .map(|i| Argb {
            alpha: 7,
            red: i,
            green: 160,
            blue: 255,
        })
        .collect();
    let scheme = scheme_from_m3(&roles);
    assert_eq!(scheme.primary, "#00a0ff");
    assert_eq!(scheme.on_primary, "#01a0ff");
    assert_eq!(scheme.outline, "#0fa0ff");
    assert_eq!(scheme.outline_variant, "#10a0ff");
}

#[test]
fn the_catalog_is_sorted_without_regard_to_case() {
    let files = vec![
        found("/w/beta.PNG", true, Some((4, 3))),
        found("/w/Alpha.jpg", true, Some((2, 1))),
        found("/w/ALPHA.jpg", true, Some((8, 7))),
        found("/w/notes.txt", true, Some((1, 1))),
        found("/w/broken.png", true, None),
        found("/w/album.png", false, Some((1, 1))),
        found("/w/aalto.webp", true, Some((6, 5))),
    ];
    let entries = list(&files);
    assert_eq!(
        names(&entries),
        vec!["aalto.webp", "Alpha.jpg", "ALPHA.jpg", "beta.PNG"]
    );
    assert_eq!(entries[3].path, "/w/beta.PNG");
    assert_eq!((entries[3].width, entries[3].height), (4, 3));
    assert_eq!(
        first_path(&entries).unwrap().bytes,
        b"/w/aalto.webp".to_vec()
    );
    assert!(first_path(&list(&vec![])).is_none());
}

#[test]
fn a_name_that_is_not_utf8_is_shown_with_replacements() {
    let files = vec![FoundFile {
        path: FilePath {
            bytes: b"/w/caf\xe9.png".to_vec(),
        },
        is_file: true,
        dimensions: Some((1, 1)),
    }];
    let entries = list(&files);
    assert_eq!(entries[0].name, "caf\u{fffd}.png");
    assert_eq!(entries[0].path, "/w/caf\u{fffd}.png");
}

#[test]
fn images_are_told_by_their_extension() {
    for name in ["a.jpg", "a.jpeg", "a.png", "a.webp", "a.avif", "a.bmp", "a.svg", "a.JpG"] {
        assert!(is_image(&FilePath::of(name)), "{}", name);
    }
    for name in ["a.gif", "a", ".png", "a.png/", "a.png.txt", "a.", "png", ""] {
        assert_eq!(
            is_image(&FilePath::of(name)),
            name == "a.png/",
            "{}",
            name
        );
    }
}

#[test]
fn each_reason_against_a_path_has_its_message() {
    let dir = FilePath::of("/w");
    let input = FilePath::of("sun.png");
    let missing = resolve(
        &input,
        &dir,
        Probe {
            canonical: None,
            is_file: false,
            is_image: false,
        },
    );
    assert!(matches!(missing, Err(ResolveError::Missing(_))));
    assert_eq!(
        missing.unwrap_err().message(),
        "wallpaper does not exist: /w/sun.png"
    );
    let folder = resolve(
        &input,
        &dir,
        Probe {
            canonical: Some(FilePath::of("/real/sun.png")),
            is_file: false,
            is_image: false,
        },
    );
    assert_eq!(
        folder.unwrap_err().message(),
        "wallpaper is not a file: /real/sun.png"
    );
    let unreadable = resolve(
        &input,
        &dir,
        Probe {
            canonical: Some(FilePath::of("/real/sun.png")),
            is_file: true,
            is_image: false,
        },
    );
    assert_eq!(
        unreadable.unwrap_err().message(),
        "unsupported or unreadable image: /real/sun.png"
    );
    let good = resolve(
        &input,
        &dir,
        Probe {
            canonical: Some(FilePath::of("/real/sun.png")),
            is_file: true,
            is_image: true,
        },
    );
    assert_eq!(good.unwrap().bytes, b"/real/sun.png".to_vec());
}

#[test]
fn a_rooted_path_is_not_taken_relative() {
    let dir = FilePath::of("/w");
    let target = resolve_target(&FilePath::of("/else/sun.png"), &dir);
    assert_eq!(target.bytes, b"/else/sun.png".to_vec());
}

#[test]
fn the_wallpaper_directory_has_a_usual_place() {
    let set = default_directory(Some(FilePath::of("/pics")), Some(FilePath::of("/home/u")));
    assert_eq!(set.bytes, b"/pics".to_vec());
    let home = default_directory(None, Some(FilePath::of("/home/u")));
    assert_eq!(home.bytes, b"/home/u/Pictures/wallpapers".to_vec());
    let here = default_directory(None, None);
    assert_eq!(here.bytes, b"./Pictures/wallpapers".to_vec());
}
