//! How the surfaces of the wallpaper and of the picker are set up.

use vstd::prelude::*;

verus! {

/// Where a surface stands among the others on an output.
#[derive(Debug, Clone, Copy, PartialEq, Eq, Structural)]
pub enum SurfaceLayer {
    /// Behind all windows.
    Background,
    /// Before all windows.
    Overlay,
}

/// What is asked of the compositor for a surface. A side of no length is left
/// to the compositor.
#[derive(Debug, PartialEq, Eq)]
pub struct SurfaceSettings {
    pub namespace: String,
    pub layer: SurfaceLayer,
    pub anchored: bool,
    pub exclusive_zone: i32,
    pub width: u32,
    pub height: u32,
    pub takes_keyboard: bool,
}

/// What `SurfaceSettings` hold.
pub struct SettingsView {
    pub namespace: Seq<char>,
    pub layer: SurfaceLayer,
    pub anchored: bool,
    pub exclusive_zone: i32,
    pub width: u32,
    pub height: u32,
    pub takes_keyboard: bool,
}

impl View for SurfaceSettings {
    type V = SettingsView;

    open spec fn view(&self) -> SettingsView {
        SettingsView {
            namespace: self.namespace@,
            layer: self.layer,
            anchored: self.anchored,
            exclusive_zone: self.exclusive_zone,
            width: self.width,
            height: self.height,
            takes_keyboard: self.takes_keyboard,
        }
    }
}

/// The surface of a wallpaper: behind everything, held at all four edges of
/// its output, and under the space that others reserve.
pub open spec fn wallpaper_settings() -> SettingsView {
    SettingsView {
        namespace: "wallpaper"@,
        layer: SurfaceLayer::Background,
        anchored: true,
        exclusive_zone: (-1) as i32,
        width: 0,
        height: 0,
        takes_keyboard: false,
    }
}

/// The surface of the picker: a panel before everything, in the middle of its
/// output, which has the keyboard to itself.
pub open spec fn picker_settings() -> SettingsView {
    SettingsView {
        namespace: "wyrd-wallpaper-picker"@,
        layer: SurfaceLayer::Overlay,
        anchored: false,
        exclusive_zone: 0,
        width: 900,
        height: 560,
        takes_keyboard: true,
    }
}

/// The wallpaper lies behind all windows, fills its output under the space that
/// others reserve, and leaves the keyboard alone; the picker stands before all
/// windows with a size of its own, reserves nothing and takes the keyboard.
pub proof fn lemma_surfaces_take_their_places()
    ensures
        wallpaper_settings().namespace == "wallpaper"@,
        wallpaper_settings().layer == SurfaceLayer::Background,
        wallpaper_settings().anchored,
        wallpaper_settings().exclusive_zone == -1,
        wallpaper_settings().width == 0,
        wallpaper_settings().height == 0,
        !wallpaper_settings().takes_keyboard,
        picker_settings().namespace == "wyrd-wallpaper-picker"@,
        picker_settings().layer == SurfaceLayer::Overlay,
        !picker_settings().anchored,
        picker_settings().exclusive_zone == 0,
        picker_settings().width == 900,
        picker_settings().height == 560,
        picker_settings().takes_keyboard,
{
}

/// What is seen of settings is what they hold.
pub proof fn lemma_settings_are_seen_as_they_are(settings: SurfaceSettings)
    ensures
        settings@.namespace == settings.namespace@,
        settings@.layer == settings.layer,
        settings@.anchored == settings.anchored,
        settings@.exclusive_zone == settings.exclusive_zone,
        settings@.width == settings.width,
        settings@.height == settings.height,
        settings@.takes_keyboard == settings.takes_keyboard,
{
}

/// The surface of a wallpaper.
pub fn wallpaper_surface() -> (settings: SurfaceSettings)
    ensures
        settings@ == wallpaper_settings(),
{
    SurfaceSettings {
        namespace: "wallpaper".to_owned(),
        layer: SurfaceLayer::Background,
        anchored: true,
        exclusive_zone: -1,
        width: 0,
        height: 0,
        takes_keyboard: false,
    }
}

/// The surface of the picker.
pub fn picker_surface() -> (settings: SurfaceSettings)
    ensures
        settings@ == picker_settings(),
{
    SurfaceSettings {
        namespace: "wyrd-wallpaper-picker".to_owned(),
        layer: SurfaceLayer::Overlay,
        anchored: false,
        exclusive_zone: 0,
        width: 900,
        height: 560,
        takes_keyboard: true,
    }
}

} // verus!
