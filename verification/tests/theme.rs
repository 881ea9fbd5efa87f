use wyrd_wallpaper::catalog::palette_from_hex;
use wyrd_wallpaper::theme::{can_be_color, is_hex_color};

fn dark_primary(hex: &str) -> Option<String> {
    palette_from_hex(hex).map(|palette| palette.dark.primary)
}

#[test]
fn an_accent_is_a_hash_and_six_digits() {
    assert!(is_hex_color("#7dd3fc"));
    assert!(is_hex_color("#ABCDEF"));
    assert!(!is_hex_color("7dd3fc"));
    assert!(!is_hex_color("#7dd3f"));
    assert!(!is_hex_color("#7dd3fcc"));
    assert!(!is_hex_color("#7dd3fg"));
    assert!(!is_hex_color("#\u{e9}\u{e9}\u{e9}"));
    assert!(!is_hex_color(""));
}

#[test]
fn every_accent_gives_a_palette() {
    for accent in ["#000000", "#ffffff", "#C72548", "#7dd3fc"] {
        assert!(is_hex_color(accent));
        assert!(can_be_color(accent));
        assert!(palette_from_hex(accent).is_some());
    }
}

#[test]
fn a_color_can_be_written_in_several_ways() {
    let full = dark_primary("#aabbcc");
    assert!(full.is_some());
    assert_eq!(dark_primary("aabbcc"), full);
    assert_eq!(dark_primary("#abc"), full);
    assert_eq!(dark_primary("abc"), full);
    assert_eq!(dark_primary("#ffaabbcc"), full);
}

#[test]
fn a_plus_sign_stands_for_a_zero_before_seven_digits() {
    assert_eq!(dark_primary("#+faabbcc"), dark_primary("#0faabbcc"));
    assert!(dark_primary("#+faabbcc").is_some());
    assert!(dark_primary("#+aabbc").is_none());
}

#[test]
fn three_bytes_must_be_three_characters() {
    assert!(!can_be_color("\u{e9}a"));
    assert!(!can_be_color("#\u{20ac}"));
    assert!(can_be_color("abc"));
    assert!(can_be_color("#abc"));
    assert!(can_be_color("\u{e9}ab"));
    assert!(can_be_color(""));
}

#[test]
fn colors_of_a_palette_name_themselves() {
    let palette = palette_from_hex("#7dd3fc").unwrap();
    assert!(is_hex_color(&palette.dark.primary));
    assert!(is_hex_color(&palette.light.outline_variant));
    assert!(palette_from_hex(&palette.dark.primary).is_some());
}
