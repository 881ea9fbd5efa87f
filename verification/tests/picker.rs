use wyrd_wallpaper::catalog::WallpaperEntry;
use wyrd_wallpaper::path::FilePath;
use wyrd_wallpaper::picker::{
    same_wallpaper, CurrentWallpaper, Picker, Step, BUTTON_LEFT, KEY_ENTER, KEY_ESCAPE, KEY_LEFT,
    KEY_RIGHT,
};
use wyrd_wallpaper::surface::{picker_surface, SurfaceLayer};
use wyrd_wallpaper::thumbnails::{Thumbnails, MAX_CACHED_THUMBNAILS};

fn entry(path: &str) -> WallpaperEntry {
    WallpaperEntry {
        name: path.to_string(),
        path: path.to_string(),
        width: 4,
        height: 3,
    }
}

fn entries(count: usize) -> Vec<WallpaperEntry> {
    (0..count).map(|i| entry(&format!("/w/{i}.png"))).collect()
}

fn unresolved(count: usize) -> Vec<Option<FilePath>> {
    (0..count).map(|_| None).collect()
}

fn picker_of(count: usize) -> Picker {
    Picker::open(entries(count), &FilePath::of("/w"), &unresolved(count), &None).unwrap()
}

fn png() -> Vec<u8> {
    let img = image::RgbImage::from_pixel(4, 3, image::Rgb([1, 2, 3]));
    let mut bytes = std::io::Cursor::new(Vec::new());
    img.write_to(&mut bytes, image::ImageFormat::Png).unwrap();
    bytes.into_inner()
}

#[test]
fn a_directory_without_wallpapers_is_refused() {
    let refused = Picker::open(vec![], &FilePath::of("/w"), &vec![], &None);
    assert_eq!(refused.unwrap_err(), "no wallpapers found in /w");
}

#[test]
fn the_picker_opens_at_the_current_wallpaper() {
    let current = |path: &str, canonical: Option<&str>| {
        Some(CurrentWallpaper {
            path: FilePath::of(path),
            canonical: canonical.map(FilePath::of),
        })
    };
    let open = |resolved: Vec<Option<FilePath>>, current: Option<CurrentWallpaper>| {
        Picker::open(entries(3), &FilePath::of("/w"), &resolved, &current)
            .unwrap()
            .selected()
    };
    assert_eq!(open(unresolved(3), None), 0);
    assert_eq!(open(unresolved(3), current("/w/2.png", None)), 2);
    assert_eq!(open(unresolved(3), current("/w//./2.png", None)), 2);
    assert_eq!(open(unresolved(3), current("/else.png", None)), 0);
    let links = vec![
        None,
        Some(FilePath::of("/real.png")),
        Some(FilePath::of("/real.png")),
    ];
    assert_eq!(open(links, current("/link.png", Some("/real.png"))), 1);
}

#[test]
fn two_paths_to_one_wallpaper() {
    let shown = CurrentWallpaper {
        path: FilePath::of("/a/b.png"),
        canonical: None,
    };
    assert!(same_wallpaper("/a/b.png", &None, &shown));
    assert!(!same_wallpaper("/a/c.png", &None, &shown));
    assert!(!same_wallpaper("/a/c.png", &Some(FilePath::of("/a/b.png")), &shown));
}

#[test]
fn keys_move_along_the_ring() {
    let mut picker = picker_of(3);
    assert_eq!(picker.count_label(), "1 / 3");
    assert_eq!(picker.key(KEY_LEFT), Some(Step::Back));
    assert_eq!(picker.selected(), 2);
    assert_eq!(picker.count_label(), "3 / 3");
    assert_eq!(picker.key(KEY_RIGHT), Some(Step::Forward));
    assert_eq!(picker.selected(), 0);
    for _ in 0..3 {
        picker.key(KEY_RIGHT);
    }
    assert_eq!(picker.selected(), 0);
    assert!(picker.is_animating());
    assert_eq!(picker.key(99), None);
    assert!(picker.is_running());
}

#[test]
fn a_ring_of_one_does_not_move() {
    let mut picker = picker_of(1);
    picker.rendered();
    assert_eq!(picker.key(KEY_RIGHT), Some(Step::Forward));
    assert_eq!(picker.selected(), 0);
    assert!(!picker.is_animating());
    picker.configure(900, 560);
    assert!(picker.should_render());
}

#[test]
fn enter_takes_the_selected_card() {
    let mut picker = picker_of(3);
    picker.key(KEY_RIGHT);
    assert!(picker.chosen().is_none());
    picker.key(KEY_ENTER);
    assert!(!picker.is_running());
    assert_eq!(picker.chosen().unwrap().to_text().unwrap(), "/w/1.png");
}

#[test]
fn escape_closes_the_picker() {
    let mut picker = picker_of(3);
    picker.key(KEY_ESCAPE);
    assert!(!picker.is_running());
    assert!(picker.chosen().is_none());
}

#[test]
fn the_wheel_moves_along_the_ring() {
    let mut picker = picker_of(4);
    assert_eq!(picker.wheel(1), Some(Step::Back));
    assert_eq!(picker.selected(), 3);
    assert_eq!(picker.wheel(-1), Some(Step::Forward));
    assert_eq!(picker.selected(), 0);
    assert_eq!(picker.wheel(0), None);
    assert_eq!(picker.selected(), 0);
}

#[test]
fn a_click_takes_the_first_card_under_the_pointer() {
    let mut picker = picker_of(4);
    picker.button(BUTTON_LEFT + 1, &vec![true, true, true, true]);
    assert!(picker.is_running());
    picker.button(BUTTON_LEFT, &vec![false, false, false, false]);
    assert!(picker.is_running());
    picker.button(BUTTON_LEFT, &vec![false, false, true, true]);
    assert!(!picker.is_running());
    assert_eq!(picker.selected(), 2);
    assert_eq!(picker.chosen().unwrap().to_text().unwrap(), "/w/2.png");
}

#[test]
fn the_picker_is_painted_when_something_changed() {
    let mut picker = picker_of(3);
    assert!(!picker.should_render());
    picker.configure(900, 560);
    assert_eq!(picker.size(), (900, 560));
    assert!(picker.should_render());
    picker.rendered();
    assert!(!picker.should_render());
    picker.pointer_moved();
    assert!(picker.should_render());
    picker.rendered();
    picker.key(KEY_RIGHT);
    picker.rendered();
    picker.frame_done();
    assert!(picker.should_render());
    picker.animation_done();
    picker.frame_done();
    assert!(!picker.should_render());
}

#[test]
fn the_picker_takes_the_highest_scale() {
    let mut picker = picker_of(3);
    picker.configure(900, 560);
    assert_eq!(picker.scale(), 1);
    picker.output_scaled(1, 3);
    picker.output_scaled(2, 2);
    assert_eq!(picker.scale(), 3);
    picker.output_scaled(1, 0);
    assert_eq!(picker.scale(), 2);
    assert!(picker.can_plan());
    let plan = picker.frame_plan().unwrap();
    assert_eq!((plan.width, plan.height, plan.stride), (1800, 1120, 7200));
    assert_eq!((plan.size, plan.scale), (8064000, 2));
    picker.configure(536870912, 1);
    assert!(picker.can_plan());
    assert!(picker.frame_plan().is_none());
    picker.configure(100000, 100000);
    assert!(!picker.can_plan());
}

#[test]
fn the_picker_is_a_panel_before_everything() {
    let settings = picker_surface();
    assert_eq!(settings.namespace, "wyrd-wallpaper-picker");
    assert_eq!(settings.layer, SurfaceLayer::Overlay);
    assert_eq!((settings.width, settings.height), (900, 560));
    assert!(settings.takes_keyboard && !settings.anchored);
}

#[test]
fn the_seat_is_asked_once() {
    let mut picker = picker_of(1);
    assert_eq!(picker.seat(true, false), (true, false));
    assert_eq!(picker.seat(true, true), (false, true));
    assert_eq!(picker.seat(true, true), (false, false));
}

#[test]
fn offsets_go_the_short_way_round() {
    let mut picker = picker_of(6);
    let offsets = |picker: &Picker| (0..6).map(|i| picker.offset(i)).collect::<Vec<i128>>();
    assert_eq!(offsets(&picker), vec![0, 1, 2, 3, -2, -1]);
    picker.key(KEY_LEFT);
    assert_eq!(offsets(&picker), vec![1, 2, -3, -2, -1, 0]);
    assert!(picker.in_view(1));
    assert!(!picker.in_view(2));
    assert!(picker.in_view(3));
}

#[test]
fn a_card_is_named_after_its_file() {
    let list = vec![entry("/w/sun.set.png"), entry("/w/.."), entry("/w/plain")];
    let picker = Picker::open(list, &FilePath::of("/w"), &unresolved(3), &None).unwrap();
    assert_eq!(picker.card_name(0), "sun.set");
    assert_eq!(picker.card_name(1), "");
    assert_eq!(picker.card_name(2), "plain");
    assert_eq!(picker.path(2).to_text().unwrap(), "/w/plain");
    assert_eq!(picker.len(), 3);
}

#[test]
fn thumbnails_are_loaded_once() {
    let mut picker = picker_of(2);
    let data = png();
    assert!(picker.thumbnail(0).is_none());
    picker.load_thumbnail(0, None, 2, 2);
    assert!(picker.thumbnail(0).is_none());
    picker.load_thumbnail(0, Some(&b"nope".to_vec()), 2, 2);
    assert!(picker.thumbnail(0).is_none());
    picker.load_thumbnail(0, Some(&data), 2, 2);
    let loaded = picker.thumbnail(0).unwrap();
    assert_eq!((loaded.width, loaded.height), (2, 2));
    assert_eq!(loaded.pixels[0..4], [1, 2, 3, 255]);
    picker.load_thumbnail(0, Some(&data), 4, 4);
    assert_eq!(picker.thumbnail(0).unwrap().width, 2);
    assert!(picker.thumbnail(1).is_none());
}

#[test]
fn the_oldest_thumbnail_leaves_a_full_cache() {
    let data = png();
    let path = FilePath::of("a.png");
    let mut cache = Thumbnails::new(30);
    assert_eq!(cache.len(), 30);
    for place in 0..MAX_CACHED_THUMBNAILS {
        cache.load(place, &path, Some(&data), 2, 2);
    }
    assert!(cache.get(0).is_some());
    cache.load(29, &path, Some(&data), 2, 2);
    assert!(cache.get(29).is_some());
    assert!(cache.get(0).is_none());
    assert!(cache.get(1).is_some());
    cache.load(0, &path, Some(&data), 2, 2);
    assert!(cache.get(0).is_some());
    assert!(cache.get(1).is_none());
    let kept = (0..30).filter(|place| cache.get(*place).is_some()).count();
    assert_eq!(kept, MAX_CACHED_THUMBNAILS);
}
