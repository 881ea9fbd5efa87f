use wyrd_wallpaper::buffers::PendingBuffers;
use wyrd_wallpaper::catalog::{fallback_palette, palette_from_hex, ResolveError};
use wyrd_wallpaper::daemon::{ColorError, ImageError, WallpaperState};
use wyrd_wallpaper::frame::FramePlan;
use wyrd_wallpaper::outputs::Outputs;
use wyrd_wallpaper::path::FilePath;
use wyrd_wallpaper::store::{
    first_resolved, read_persisted_state, start_choice, startup_candidates, startup_colors,
    PersistedWallpaperState, RuntimeState,
};
use wyrd_wallpaper::surface::{SurfaceLayer, SurfaceSettings};
use wyrd_wallpaper::text_map::TextMap;

fn png_of(red: u8, green: u8, blue: u8) -> Vec<u8> {
    let img = image::RgbImage::from_pixel(8, 8, image::Rgb([red, green, blue]));
    let mut bytes = std::io::Cursor::new(Vec::new());
    img.write_to(&mut bytes, image::ImageFormat::Png).unwrap();
    bytes.into_inner()
}

fn fresh() -> WallpaperState {
    WallpaperState::start(None, None, FilePath::of("/w"), None, None).unwrap()
}

fn with_wallpaper(path: &str) -> WallpaperState {
    let mut state = fresh();
    state
        .set_image(Ok(FilePath::of(path)), Some(&png_of(200, 30, 40)))
        .unwrap();
    state
}

fn persisted(
    mode: Option<&str>,
    accent: Option<&str>,
    manual: Option<&str>,
    primary: Option<&str>,
    outputs: Vec<(&str, &str)>,
) -> PersistedWallpaperState {
    let own = |text: Option<&str>| text.map(|text| text.to_string());
    let mut map = TextMap::new();
    for (name, path) in outputs {
        map.insert(name.to_string(), path.to_string());
    }
    PersistedWallpaperState {
        color_mode: own(mode),
        accent: own(accent),
        manual_accent: own(manual),
        primary: own(primary),
        outputs: map,
    }
}

/// What a state file gives back of a written state.
fn reread(state: &RuntimeState) -> PersistedWallpaperState {
    let mut table = toml::Table::new();
    let mut outputs = toml::Table::new();
    for i in 0..state.outputs.len() {
        outputs.insert(
            state.outputs.key(i).clone(),
            toml::Value::String(state.outputs.value(i).clone()),
        );
    }
    table.insert(
        "color_mode".to_string(),
        toml::Value::String(state.color_mode.clone()),
    );
    table.insert(
        "accent".to_string(),
        toml::Value::String(state.accent.clone()),
    );
    table.insert(
        "auto_accent".to_string(),
        toml::Value::String(state.auto_accent.clone()),
    );
    if let Some(primary) = &state.primary {
        table.insert("primary".to_string(), toml::Value::String(primary.clone()));
    }
    table.insert("outputs".to_string(), toml::Value::Table(outputs));
    let content = toml::to_string_pretty(&table).expect("Failed to serialize state");
    let read: toml::Table =
        toml::from_str(&content).expect("Failed to deserialize persisted state");
    let text = |key: &str| {
        read.get(key)
            .and_then(|value| value.as_str())
            .map(|text| text.to_string())
    };
    let mut map = TextMap::new();
    for (name, path) in read.get("outputs").unwrap().as_table().unwrap() {
        map.insert(name.clone(), path.as_str().unwrap().to_string());
    }
    PersistedWallpaperState {
        color_mode: text("color_mode"),
        accent: text("accent"),
        manual_accent: text("manual_accent"),
        primary: text("primary"),
        outputs: map,
    }
}

fn texts(paths: Vec<FilePath>) -> Vec<String> {
    paths.iter().map(|path| path.to_text().unwrap()).collect()
}

#[test]
fn test_persistent_state_roundtrip() {
    let mut outputs = TextMap::new();
    outputs.insert(
        "eDP-1".to_string(),
        "/home/user/Pictures/wall.jpg".to_string(),
    );

    let state = RuntimeState {
        color_mode: "manual".to_string(),
        accent: "#123456".to_string(),
        auto_accent: "#c72548".to_string(),
        primary: Some("eDP-1".to_string()),
        outputs,
        palette: None,
    };

    let persisted = reread(&state);

    assert_eq!(persisted.color_mode.as_deref(), Some("manual"));
    assert_eq!(persisted.accent.as_deref(), Some("#123456"));
    assert_eq!(persisted.primary.as_deref(), Some("eDP-1"));
    assert_eq!(
        persisted.outputs.get("eDP-1").map(|s| s.as_str()),
        Some("/home/user/Pictures/wall.jpg")
    );
}

#[test]
fn a_daemon_that_was_never_told_anything() {
    let state = fresh();
    assert_eq!(state.color_mode, "auto");
    assert_eq!(state.manual_accent, "#c72548");
    assert_eq!(state.auto_accent, "#c72548");
    assert_eq!(state.accent(), "#c72548");
    assert!(state.palette.is_none());
    let runtime = state.runtime_state();
    assert_eq!(runtime.primary.as_deref(), Some("default"));
    assert_eq!(runtime.outputs.len(), 0);
    assert!(runtime.palette.is_none());
}

#[test]
fn a_start_takes_the_colors_of_the_wallpaper() {
    let data = png_of(200, 30, 40);
    let state = WallpaperState::start(
        Some(FilePath::of("/w/a.png")),
        Some(&data),
        FilePath::of("/w"),
        None,
        Some("DP-1".to_string()),
    )
    .unwrap();
    let palette = state.palette.as_ref().unwrap();
    assert_eq!(state.auto_accent, palette.dark.primary);
    assert_ne!(state.auto_accent, "#c72548");
    assert_eq!(state.output_filter.as_deref(), Some("DP-1"));
    let unread = WallpaperState::start(
        Some(FilePath::of("/w/a.png")),
        None,
        FilePath::of("/w"),
        None,
        None,
    )
    .unwrap();
    assert_eq!(unread.palette, Some(fallback_palette()));
    let broken = WallpaperState::start(
        Some(FilePath::of("/w/a.png")),
        Some(&b"nope".to_vec()),
        FilePath::of("/w"),
        None,
        None,
    );
    assert!(broken.is_none());
}

#[test]
fn a_start_in_the_manual_mode_takes_the_accent() {
    let stored = persisted(Some("manual"), Some("#7dd3fc"), None, None, vec![]);
    let state =
        WallpaperState::start(None, None, FilePath::of("/w"), Some(&stored), None).unwrap();
    assert_eq!(state.accent(), "#7dd3fc");
    assert_eq!(state.palette, palette_from_hex("#7dd3fc"));
    let odd = persisted(Some("manual"), Some("no colour"), None, None, vec![]);
    let state = WallpaperState::start(None, None, FilePath::of("/w"), Some(&odd), None).unwrap();
    assert!(state.palette.is_none());
    assert_eq!(state.auto_accent, "#c72548");
    assert_eq!(state.accent(), "no colour");
}

#[test]
fn a_wallpaper_sets_the_automatic_accent() {
    let state = with_wallpaper("/w/a.png");
    let palette = state.palette.as_ref().unwrap();
    assert_eq!(state.accent(), palette.dark.primary);
    assert_eq!(state.image_path.as_ref().unwrap().bytes, b"/w/a.png".to_vec());
}

#[test]
fn a_refused_wallpaper_changes_nothing() {
    let mut state = with_wallpaper("/w/a.png");
    let accent = state.accent();
    let refused = state.set_image(
        Err(ResolveError::Missing(FilePath::of("/w/b.png"))),
        None,
    );
    assert!(matches!(refused, Err(ImageError::Path(ResolveError::Missing(_)))));
    let refused = state.set_image(Ok(FilePath::of("/w/b.png")), Some(&b"nope".to_vec()));
    assert!(matches!(refused, Err(ImageError::Undecodable)));
    assert_eq!(state.accent(), accent);
    assert_eq!(state.image_path.as_ref().unwrap().bytes, b"/w/a.png".to_vec());
}

#[test]
fn the_manual_mode_needs_an_accent() {
    let mut state = fresh();
    let missing = state.set_color("manual".to_string(), None, None).unwrap_err();
    assert!(matches!(missing, ColorError::MissingAccent));
    assert_eq!(missing.message(), "manual mode requires --accent");
    let bad = state
        .set_color("manual".to_string(), Some("red".to_string()), None)
        .unwrap_err();
    assert!(matches!(bad, ColorError::BadAccent));
    assert_eq!(bad.message(), "accent must be a #RRGGBB color");
    assert_eq!(state.color_mode, "auto");
    assert_eq!(state.manual_accent, "#c72548");
}

#[test]
fn the_manual_mode_outlives_a_new_wallpaper() {
    let mut state = with_wallpaper("/w/a.png");
    state
        .set_color("manual".to_string(), Some("#7DD3FC".to_string()), None)
        .unwrap();
    assert_eq!(state.accent(), "#7DD3FC");
    assert_eq!(state.palette, palette_from_hex("#7dd3fc"));
    state
        .set_image(Ok(FilePath::of("/w/b.png")), Some(&png_of(10, 200, 30)))
        .unwrap();
    assert_eq!(state.accent(), "#7DD3FC");
    assert_ne!(state.palette, palette_from_hex("#7dd3fc"));
}

#[test]
fn the_automatic_mode_goes_back_to_the_wallpaper() {
    let data = png_of(200, 30, 40);
    let mut state = with_wallpaper("/w/a.png");
    let before = state.palette.clone();
    state
        .set_color("manual".to_string(), Some("#7dd3fc".to_string()), None)
        .unwrap();
    state.set_color("auto".to_string(), None, Some(&data)).unwrap();
    assert_eq!(state.palette, before);
    assert_eq!(state.color_mode, "auto");
    assert_eq!(state.manual_accent, "#7dd3fc");
    let broken = state
        .set_color("auto".to_string(), None, Some(&b"nope".to_vec()))
        .unwrap_err();
    assert!(matches!(broken, ColorError::Undecodable));
    assert_eq!(broken.message(), "failed to decode image");
    assert_eq!(state.palette, before);
}

#[test]
fn another_mode_only_takes_its_name() {
    let mut state = with_wallpaper("/w/a.png");
    let before = state.palette.clone();
    state
        .set_color("night".to_string(), Some("#7dd3fc".to_string()), None)
        .unwrap();
    assert_eq!(state.color_mode, "night");
    assert_eq!(state.palette, before);
    assert_eq!(state.manual_accent, "#c72548");
}

#[test]
fn every_output_is_written_with_the_wallpaper() {
    let mut state = with_wallpaper("/w/a.png");
    let alone = state.runtime_state();
    assert_eq!(alone.outputs.get("default").unwrap(), "/w/a.png");
    state.outputs.add(7);
    state.outputs.add(9);
    state.outputs.set_name(9, "HDMI-A-1".to_string());
    let written = state.runtime_state();
    assert_eq!(written.primary.as_deref(), Some("output-7"));
    assert_eq!(written.outputs.len(), 2);
    assert_eq!(written.outputs.get("output-7").unwrap(), "/w/a.png");
    assert_eq!(written.outputs.get("HDMI-A-1").unwrap(), "/w/a.png");
    assert_eq!(written.accent, written.auto_accent);
    let palette = written.palette.unwrap();
    assert_eq!(palette.get("accent").unwrap(), &written.accent);
}

#[test]
fn a_restart_keeps_wallpaper_and_colors() {
    let mut state = with_wallpaper("/w/a.png");
    state.outputs.add(7);
    state
        .set_color("manual".to_string(), Some("#7dd3fc".to_string()), None)
        .unwrap();
    let stored = reread(&state.runtime_state());
    assert!(stored.is_restorable());
    assert_eq!(
        startup_colors(Some(&stored)),
        ("manual".to_string(), "#7dd3fc".to_string())
    );
    assert_eq!(texts(stored.startup_choices()), vec!["/w/a.png", "/w/a.png"]);
    let again = WallpaperState::start(
        Some(FilePath::of("/w/a.png")),
        None,
        FilePath::of("/w"),
        Some(&stored),
        None,
    )
    .unwrap();
    assert_eq!(again.accent(), state.accent());
    assert_eq!(again.palette, state.palette);
}

#[test]
fn the_colors_to_start_with() {
    assert_eq!(
        startup_colors(None),
        ("auto".to_string(), "#c72548".to_string())
    );
    let both = persisted(None, Some("#111111"), Some("#222222"), None, vec![]);
    assert_eq!(
        startup_colors(Some(&both)),
        ("auto".to_string(), "#222222".to_string())
    );
    let empty = persisted(None, None, None, None, vec![]);
    assert_eq!(
        startup_colors(Some(&empty)),
        ("auto".to_string(), "#c72548".to_string())
    );
}

#[test]
fn the_first_state_that_says_anything_is_taken() {
    let empty = || Some(persisted(None, Some("#111111"), None, Some("a"), vec![]));
    let named = |mode: &str| Some(persisted(Some(mode), None, None, None, vec![]));
    let found = read_persisted_state(vec![None, empty(), named("manual"), named("auto")]).unwrap();
    assert_eq!(found.color_mode.as_deref(), Some("manual"));
    let shown = Some(persisted(None, None, None, None, vec![("a", "/w/a.png")]));
    assert!(read_persisted_state(vec![shown]).is_some());
    assert!(read_persisted_state(vec![None, empty()]).is_none());
    assert!(read_persisted_state(vec![]).is_none());
}

#[test]
fn the_wallpapers_that_a_start_tries() {
    let stored = persisted(
        None,
        None,
        None,
        Some("b"),
        vec![("a", "/w/a.png"), ("b", "/w/b.png")],
    );
    assert_eq!(texts(stored.startup_choices()), vec!["/w/b.png", "/w/a.png"]);
    assert_eq!(
        texts(startup_candidates(Some(FilePath::of("/x.png")), Some(&stored))),
        vec!["/x.png", "/w/b.png", "/w/a.png"]
    );
    assert_eq!(startup_candidates(None, None).len(), 0);
    let unknown = persisted(None, None, None, Some("c"), vec![("a", "/w/a.png")]);
    assert_eq!(texts(unknown.startup_choices()), vec!["/w/a.png"]);
    let empty = persisted(None, None, None, Some("a"), vec![("a", "")]);
    assert_eq!(empty.startup_choices().len(), 0);
    let nothing = persisted(Some("auto"), None, None, Some("a"), vec![]);
    assert_eq!(nothing.startup_choices().len(), 0);
}

#[test]
fn the_first_wallpaper_that_resolves_is_taken() {
    let found = first_resolved(vec![
        None,
        Some(FilePath::of("/w/b.png")),
        Some(FilePath::of("/w/c.png")),
    ]);
    assert_eq!(found.unwrap().to_text().unwrap(), "/w/b.png");
    assert!(first_resolved(vec![None, None]).is_none());
    assert!(first_resolved(vec![]).is_none());
    let listed = || Some(FilePath::of("/w/l.png"));
    let tried = start_choice(vec![None, Some(FilePath::of("/w/b.png"))], listed());
    assert_eq!(tried.unwrap().to_text().unwrap(), "/w/b.png");
    let none = start_choice(vec![None], listed());
    assert_eq!(none.unwrap().to_text().unwrap(), "/w/l.png");
    assert!(start_choice(vec![], None).is_none());
}

#[test]
fn outputs_come_and_go() {
    let mut outputs = Outputs::new();
    outputs.add(3);
    outputs.add(5);
    assert_eq!(outputs.globals(), vec![3, 5]);
    assert_eq!(outputs.at(0).name, "output-3");
    assert_eq!(outputs.at(0).scale, 1);
    outputs.set_mode(3, 1920, 1080);
    outputs.set_scale(3, 2);
    outputs.set_scale(5, -1);
    outputs.set_name(42, "nobody".to_string());
    assert_eq!((outputs.at(0).width, outputs.at(0).height), (1920, 1080));
    assert_eq!(outputs.at(0).scale, 2);
    assert_eq!(outputs.at(1).scale, 1);
    assert_eq!(outputs.find(5), Some(1));
    assert_eq!(outputs.find(42), None);
    outputs.add(7);
    let gone = outputs.remove(7).unwrap();
    assert_eq!(gone.name, "output-7");
    assert_eq!(outputs.globals(), vec![3, 5]);
    outputs.add(3);
    assert_eq!(outputs.globals(), vec![3, 5]);
    assert_eq!(outputs.at(0).width, 0);
    assert!(outputs.remove(42).is_none());
    assert_eq!(outputs.len(), 2);
}

#[test]
fn a_surface_is_made_once() {
    let mut outputs = Outputs::new();
    outputs.add(3);
    assert!(outputs.ensure_surface(3, false).is_none());
    assert!(outputs.ensure_surface(4, true).is_none());
    assert!(!outputs.at(0).has_surface);
    let asked = outputs.ensure_surface(3, true).unwrap();
    assert_eq!(
        asked,
        SurfaceSettings {
            namespace: "wallpaper".to_string(),
            layer: SurfaceLayer::Background,
            anchored: true,
            exclusive_zone: -1,
            width: 0,
            height: 0,
            takes_keyboard: false,
        }
    );
    assert!(outputs.ensure_surface(3, true).is_none());
    outputs.configure(3, 800, 600);
    assert!(outputs.at(0).configured);
    assert!(outputs.at(0).has_surface);
}

#[test]
fn buffers_stay_until_they_are_given_back() {
    let mut pending = PendingBuffers::new();
    assert!(!pending.released(7));
    pending.committed(7);
    pending.committed(9);
    assert!(pending.released(7));
    assert!(!pending.released(7));
    assert!(pending.released(9));
}

#[test]
fn only_the_chosen_output_is_painted() {
    let mut state = fresh();
    state.outputs.add(3);
    state.outputs.add(4);
    assert!(state.frame_plan(3).is_none());
    state.outputs.ensure_surface(3, true).unwrap();
    state.outputs.ensure_surface(4, true).unwrap();
    state.outputs.configure(3, 800, 600);
    state.outputs.set_scale(3, 2);
    state.outputs.set_name(3, "DP-1".to_string());
    assert!(state.can_plan(3));
    assert_eq!(
        state.frame_plan(3),
        Some(FramePlan {
            width: 1600,
            height: 1200,
            stride: 6400,
            size: 7680000,
            scale: 2
        })
    );
    state.output_filter = Some("DP-1".to_string());
    assert!(state.frame_plan(3).is_some());
    assert!(state.frame_plan(4).is_none());
    assert!(state.frame_plan(5).is_none());
    state.outputs.configure(3, 268435456, 1);
    assert!(state.can_plan(3));
    assert!(state.frame_plan(3).is_none());
    state.outputs.configure(3, 100000, 100000);
    assert!(!state.can_plan(3));
    state.outputs.configure(3, 4294967295, 4294967295);
    assert!(!state.can_plan(3));
}
