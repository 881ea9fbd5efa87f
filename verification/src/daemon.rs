//! The daemon's state: what is shown on which outputs and in which colours,
//! and how requests change it.

use vstd::prelude::*;
use vstd::utf8::*;

use crate::catalog::{
    bytes_of, extracted_palette, is_decodable, palette_of, scheme_map, PaletteView,
};
use crate::catalog::{
    palette_from_hex, try_extract_palette, MaterialPalette, ResolveError,
};
use crate::frame::{fits_row, is_countable, plan_frame, FramePlan};
use crate::frame::{frame_fits, pixel_side, plan_of, row_fits, surface_countable};
use crate::frame::{lemma_plan_counts_its_bytes, lemma_surface_fits_by_its_pixels};
use crate::outputs::{distinct_globals, has_output, output_of, OutputView, Outputs};
use crate::outputs::lemma_output_is_found_by_its_number;
use crate::path::{path_view, FilePath};
use crate::store::{
    default_accent, persisted_view, read_back, restorable, start_choices,
    start_colors,
};
use crate::store::{startup_colors, PersistedWallpaperState, RuntimeState, RuntimeView};
use crate::text::{lossy_text, same_text, text_view, to_text_lossy};
use crate::text_map::{distinct_keys, lemma_map_of, lemma_put, map_of, put, TextMap};
use crate::text_map::lemma_put_keeps_the_order;
use crate::theme::{
    is_color_candidate, is_hex_color, is_hex_color_text, lemma_hex_color_parses, parsed_color,
};
use crate::theme::{hex_text, lemma_hex_text_names_its_color, Argb};

verus! {

/// The state of the daemon.
#[derive(Debug)]
pub struct WallpaperState {
    pub outputs: Outputs,
    pub image_path: Option<FilePath>,
    pub wallpaper_dir: FilePath,
    pub color_mode: String,
    pub manual_accent: String,
    pub auto_accent: String,
    pub palette: Option<MaterialPalette>,
    pub output_filter: Option<String>,
}

/// What a `WallpaperState` holds.
pub struct StateView {
    pub outputs: Seq<OutputView>,
    pub image_path: Option<Seq<u8>>,
    pub wallpaper_dir: Seq<u8>,
    pub color_mode: Seq<char>,
    pub manual_accent: Seq<char>,
    pub auto_accent: Seq<char>,
    pub palette: Option<PaletteView>,
    pub output_filter: Option<Seq<char>>,
}

/// What a palette that may be missing holds.
pub open spec fn palette_view(palette: Option<MaterialPalette>) -> Option<PaletteView> {
    match palette {
        Some(found) => Some(found@),
        None => None,
    }
}

impl View for WallpaperState {
    type V = StateView;

    open spec fn view(&self) -> StateView {
        StateView {
            outputs: self.outputs@,
            image_path: path_view(self.image_path),
            wallpaper_dir: self.wallpaper_dir@,
            color_mode: self.color_mode@,
            manual_accent: self.manual_accent@,
            auto_accent: self.auto_accent@,
            palette: palette_view(self.palette),
            output_filter: text_view(self.output_filter),
        }
    }
}

/// Why a wallpaper was not set.
#[derive(Debug)]
pub enum ImageError {
    /// The path is no wallpaper.
    Path(ResolveError),
    /// The file does not decode as an image.
    Undecodable,
}

/// Why the colours were not set.
#[derive(Debug)]
pub enum ColorError {
    /// The manual mode was asked for without an accent.
    MissingAccent,
    /// The accent is not `#` and six hexadecimal digits.
    BadAccent,
    /// The wallpaper does not decode as an image.
    Undecodable,
}

/// The text that tells a user why the colours were not set.
pub open spec fn color_error_text(error: ColorError) -> Seq<char> {
    match error {
        ColorError::MissingAccent => "manual mode requires --accent"@,
        ColorError::BadAccent => "accent must be a #RRGGBB color"@,
        ColorError::Undecodable => "failed to decode image"@,
    }
}

impl ColorError {
    /// The text that tells a user why the colours were not set.
    pub fn message(&self) -> (text: String)
        ensures
            text@ == color_error_text(*self),
    {
        match self {
            ColorError::MissingAccent => "manual mode requires --accent".to_owned(),
            ColorError::BadAccent => "accent must be a #RRGGBB color".to_owned(),
            ColorError::Undecodable => "failed to decode image".to_owned(),
        }
    }
}

/// The state after a wallpaper with the given palette is set: the automatic
/// accent follows the palette, the colour mode stays.
pub open spec fn with_image(state: StateView, path: Seq<u8>, palette: PaletteView) -> StateView {
    StateView {
        image_path: Some(path),
        auto_accent: palette.dark.primary,
        palette: Some(palette),
        ..state
    }
}

/// The state after the manual mode is set: the accent's palette replaces the
/// one that was there.
pub open spec fn with_manual(state: StateView, accent: Seq<char>) -> StateView {
    StateView {
        color_mode: "manual"@,
        manual_accent: accent,
        palette: Some(palette_of(parsed_color(accent)->0)),
        ..state
    }
}

/// The state after another mode than the manual one is set: the automatic one
/// takes the palette of the wallpaper that is shown, any other only its name.
pub open spec fn with_mode(state: StateView, mode: Seq<char>, palette: PaletteView) -> StateView {
    if mode == "auto"@ && state.image_path is Some {
        StateView {
            color_mode: mode,
            auto_accent: palette.dark.primary,
            palette: Some(palette),
            ..state
        }
    } else {
        StateView { color_mode: mode, ..state }
    }
}

/// The accent in use.
pub open spec fn accent_of(state: StateView) -> Seq<char> {
    if state.color_mode == "manual"@ {
        state.manual_accent
    } else {
        state.auto_accent
    }
}

/// The names of the first `count` outputs, each with the same path.
pub open spec fn named_paths(outputs: Seq<OutputView>, path: Seq<char>, count: int) -> Seq<
    (Seq<char>, Seq<char>),
>
    decreases count,
{
    if count <= 0 {
        seq![]
    } else {
        put(named_paths(outputs, path, count - 1), outputs[count - 1].name, path)
    }
}

/// The wallpaper of each output by the output's name: of all the same one.
/// Where no output would be listed it stands under `default`.
pub open spec fn shown_paths(state: StateView) -> Seq<(Seq<char>, Seq<char>)> {
    match state.image_path {
        Some(path) => if state.outputs.len() > 0 && lossy_text(path).len() > 0 {
            named_paths(state.outputs, lossy_text(path), state.outputs.len() as int)
        } else {
            seq![("default"@, lossy_text(path))]
        },
        None => seq![],
    }
}

/// The name of the output that comes first, or `default`.
pub open spec fn primary_name(state: StateView) -> Seq<char> {
    if state.outputs.len() > 0 {
        state.outputs[0].name
    } else {
        "default"@
    }
}

/// What is written of a state.
pub open spec fn runtime_of(state: StateView) -> RuntimeView {
    RuntimeView {
        color_mode: state.color_mode,
        accent: accent_of(state),
        auto_accent: state.auto_accent,
        primary: Some(primary_name(state)),
        outputs: shown_paths(state),
        palette: match state.palette {
            Some(palette) => Some(scheme_map(palette.dark)),
            None => None,
        },
    }
}

/// The state that the daemon starts in, given the wallpaper that was found and
/// what its file holds. In the manual mode the palette is the accent's, where
/// the accent names a colour; else it is the wallpaper's.
pub open spec fn start_state(
    image_path: Option<Seq<u8>>,
    data: Option<Seq<u8>>,
    wallpaper_dir: Seq<u8>,
    colors: (Seq<char>, Seq<char>),
    output_filter: Option<Seq<char>>,
) -> StateView {
    let palette = if colors.0 == "manual"@ {
        match parsed_color(colors.1) {
            Some(color) => Some(palette_of(color)),
            None => None,
        }
    } else if image_path is Some {
        Some(extracted_palette(data))
    } else {
        None
    };
    StateView {
        outputs: seq![],
        image_path,
        wallpaper_dir,
        color_mode: colors.0,
        manual_accent: colors.1,
        auto_accent: match palette {
            Some(found) => found.dark.primary,
            None => default_accent(),
        },
        palette,
        output_filter,
    }
}

/// Whether an output can be asked for its frame.
pub open spec fn output_countable(output: OutputView) -> bool {
    surface_countable(output.width, output.height, output.scale)
}

/// Whether a row of an output can be painted.
pub open spec fn output_row_fits(output: OutputView) -> bool {
    row_fits(pixel_side(output.width, output.scale))
}

/// The frame to paint for an output.
pub open spec fn plan_for(output: OutputView) -> FramePlan {
    plan_of(output.width, output.height, output.scale)
}

/// Whether an output is one that is painted: it is known, is the one that the
/// user chose if they chose one, and has a surface.
pub open spec fn is_painted(state: StateView, global: u32) -> bool {
    &&& has_output(state.outputs, global)
    &&& state.output_filter matches Some(name) ==> output_of(state.outputs, global).name == name
    &&& output_of(state.outputs, global).has_surface
}

proof fn lemma_named_paths(
    outputs: Seq<OutputView>,
    path: Seq<char>,
    count: int,
)
    requires
        0 <= count <= outputs.len(),
    ensures
        distinct_keys(named_paths(outputs, path, count)),
        count > 0 ==> named_paths(outputs, path, count).len() > 0,
        forall|i: int|
            0 <= i < count ==> map_of(named_paths(outputs, path, count)).contains_key(
                (#[trigger] outputs[i]).name,
            ),
        forall|name: Seq<char>| #[trigger]
            map_of(named_paths(outputs, path, count)).contains_key(name) ==> map_of(
                named_paths(outputs, path, count),
            )[name] == path && exists|i: int|
                0 <= i < count && (#[trigger] outputs[i]).name == name,
        forall|i: int|
            0 <= i < named_paths(outputs, path, count).len() ==> (#[trigger] named_paths(
                outputs,
                path,
                count,
            )[i]).1 == path,
    decreases count,
{
    if count > 0 {
        lemma_named_paths(outputs, path, count - 1);
        lemma_put(named_paths(outputs, path, count - 1), outputs[count - 1].name, path);
    }
}

/// Every output is listed with the wallpaper that is shown, and nothing but
/// outputs is listed, where there are outputs.
pub proof fn lemma_every_output_shows_the_wallpaper(state: StateView, path: Seq<u8>)
    requires
        state.image_path == Some(path),
        lossy_text(path).len() > 0,
        state.outputs.len() > 0,
    ensures
        forall|i: int|
            0 <= i < state.outputs.len() ==> map_of(runtime_of(state).outputs).contains_key(
                (#[trigger] state.outputs[i]).name,
            ),
        forall|name: Seq<char>| #[trigger]
            map_of(runtime_of(state).outputs).contains_key(name) ==> map_of(
                runtime_of(state).outputs,
            )[name] == lossy_text(path) && exists|i: int|
                0 <= i < state.outputs.len() && (#[trigger] state.outputs[i]).name == name,
{
    lemma_named_paths(state.outputs, lossy_text(path), state.outputs.len() as int);
}

/// What the daemon writes is always something that its next start can go by.
pub proof fn lemma_written_state_is_restorable(state: StateView)
    ensures
        restorable(read_back(runtime_of(state))),
{
}

/// A start from what the daemon wrote has its colour mode, and its accent as
/// the manual one.
pub proof fn lemma_restart_keeps_the_colors(state: StateView)
    ensures
        start_colors(Some(read_back(runtime_of(state)))) == (state.color_mode, accent_of(state)),
{
}

/// A daemon in the manual mode has the same accent after a restart.
pub proof fn lemma_restart_keeps_the_manual_accent(
    state: StateView,
    image_path: Option<Seq<u8>>,
    data: Option<Seq<u8>>,
    wallpaper_dir: Seq<u8>,
    output_filter: Option<Seq<char>>,
)
    requires
        state.color_mode == "manual"@,
    ensures
        accent_of(
            start_state(
                image_path,
                data,
                wallpaper_dir,
                start_colors(Some(read_back(runtime_of(state)))),
                output_filter,
            ),
        ) == accent_of(state),
{
}

/// The wallpaper that a start from what the daemon wrote tries first is the one
/// that was shown: its path comes back byte for byte where it is UTF-8.
pub proof fn lemma_restart_keeps_the_wallpaper(state: StateView, path: Seq<u8>)
    requires
        state.image_path == Some(path),
        lossy_text(path).len() > 0,
    ensures
        start_choices(read_back(runtime_of(state))).len() > 0,
        start_choices(read_back(runtime_of(state)))[0] == lossy_text(path),
        valid_utf8(path) ==> encode_utf8(start_choices(read_back(runtime_of(state)))[0]) == path,
{
    let pairs = shown_paths(state);
    if valid_utf8(path) {
        decode_utf8_encode_utf8(path);
    }
    if state.outputs.len() > 0 {
        lemma_named_paths(state.outputs, lossy_text(path), state.outputs.len() as int);
        assert(map_of(pairs).contains_key(state.outputs[0].name));
    } else {
        assert(pairs == seq![("default"@, lossy_text(path))]);
        assert(distinct_keys(pairs));
        assert(pairs[0].0 == "default"@);
        lemma_map_of(pairs, "default"@);
    }
}

/// A daemon without a wallpaper writes none, so that a start from it tries
/// none.
pub proof fn lemma_no_wallpaper_is_restored(state: StateView)
    requires
        state.image_path is None,
    ensures
        start_choices(read_back(runtime_of(state))) == Seq::<Seq<char>>::empty(),
{
    assert(shown_paths(state) =~= seq![]);
    assert(start_choices(read_back(runtime_of(state))) =~= Seq::<Seq<char>>::empty());
}

/// A new wallpaper leaves the accent of the manual mode alone, and sets that of
/// any other mode to the primary colour of its dark scheme.
pub proof fn lemma_accent_after_a_wallpaper(state: StateView, path: Seq<u8>, palette: PaletteView)
    ensures
        accent_of(with_image(state, path, palette)) == if state.color_mode == "manual"@ {
            accent_of(state)
        } else {
            palette.dark.primary
        },
{
}

/// The automatic mode after the manual one gives the colours that it would
/// have given without it; only the manual accent is remembered.
pub proof fn lemma_auto_undoes_manual(state: StateView, accent: Seq<char>, palette: PaletteView)
    requires
        state.image_path is Some,
    ensures
        with_mode(with_manual(state, accent), "auto"@, palette) == (StateView {
            manual_accent: accent,
            ..with_mode(state, "auto"@, palette)
        }),
        accent_of(with_mode(with_manual(state, accent), "auto"@, palette)) == palette.dark.primary,
{
    reveal_strlit("manual");
    reveal_strlit("auto");
    assert("manual"@.len() != "auto"@.len());
}

/// The manual mode's accent is the one that was asked for.
pub proof fn lemma_manual_accent_is_in_use(state: StateView, accent: Seq<char>)
    ensures
        accent_of(with_manual(state, accent)) == accent,
{
}

/// Where the user chose no output, every known output that has a surface is
/// painted; where they chose one, every output of that name with a surface is.
/// No other output is.
pub proof fn lemma_painted_outputs(state: StateView, at: int)
    requires
        distinct_globals(state.outputs),
        0 <= at < state.outputs.len(),
    ensures
        state.output_filter is None ==> (is_painted(state, state.outputs[at].global)
            <==> state.outputs[at].has_surface),
        state.output_filter is Some ==> (is_painted(state, state.outputs[at].global)
            <==> state.outputs[at].has_surface && state.outputs[at].name
            == state.output_filter->0),
{
    lemma_output_is_found_by_its_number(state.outputs, at, state.outputs[at].global);
}

/// An output whose number was not announced is not painted.
pub proof fn lemma_unknown_output_is_not_painted(state: StateView, global: u32)
    requires
        forall|i: int|
            0 <= i < state.outputs.len() ==> (#[trigger] state.outputs[i]).global != global,
    ensures
        !is_painted(state, global),
{
}

/// Taking the choice of an output back never leaves an output unpainted that
/// was painted with it.
pub proof fn lemma_filter_only_leaves_out(state: StateView, global: u32)
    ensures
        is_painted(state, global) ==> is_painted(
            (StateView { output_filter: None, ..state }),
            global,
        ),
{
}

/// The frame of an output is as large as the output in pixels, each side scaled
/// by the output's factor, with four bytes a pixel; a row can be painted where
/// its bytes can be counted in an `i32`.
pub proof fn lemma_frame_is_as_large_as_the_output(output: OutputView)
    ensures
        output_row_fits(output) <==> 4 * pixel_side(output.width, output.scale) <= 2147483647,
        output_countable(output) <==> {
            &&& pixel_side(output.width, output.scale) <= 4294967295
            &&& pixel_side(output.height, output.scale) <= 4294967295
            &&& 4 * pixel_side(output.width, output.scale) > 2147483647 || 4 * (pixel_side(
                output.width,
                output.scale,
            ) * pixel_side(output.height, output.scale)) <= 2147483647
        },
        output_countable(output) && output_row_fits(output) ==> {
            &&& plan_for(output).width == pixel_side(output.width, output.scale)
            &&& plan_for(output).height == pixel_side(output.height, output.scale)
            &&& plan_for(output).stride == 4 * plan_for(output).width
            &&& plan_for(output).size == plan_for(output).stride * plan_for(output).height
            &&& output.scale >= 1 ==> plan_for(output).scale == output.scale
            &&& output.scale < 1 ==> plan_for(output).scale == 1
        },
{
    lemma_surface_fits_by_its_pixels(output.width, output.height, output.scale);
    if output_countable(output) && output_row_fits(output) {
        lemma_plan_counts_its_bytes(output.width, output.height, output.scale);
    }
}

/// A new wallpaper is the one that is shown, with its own palette and automatic
/// accent; the colour mode, the manual accent and all else stay.
pub proof fn lemma_new_wallpaper_brings_its_colors(
    state: StateView,
    path: Seq<u8>,
    palette: PaletteView,
)
    ensures
        with_image(state, path, palette).image_path == Some(path),
        with_image(state, path, palette).palette == Some(palette),
        with_image(state, path, palette).auto_accent == palette.dark.primary,
        with_image(state, path, palette).color_mode == state.color_mode,
        with_image(state, path, palette).manual_accent == state.manual_accent,
        with_image(state, path, palette).outputs == state.outputs,
        with_image(state, path, palette).wallpaper_dir == state.wallpaper_dir,
        with_image(state, path, palette).output_filter == state.output_filter,
{
}

/// The manual mode takes the accent and the palette of its colour; the
/// wallpaper, the automatic accent and all else stay.
pub proof fn lemma_manual_mode_takes_the_accent(state: StateView, color: Argb)
    ensures
        with_manual(state, hex_text(color)).color_mode == "manual"@,
        with_manual(state, hex_text(color)).manual_accent == hex_text(color),
        with_manual(state, hex_text(color)).palette == Some(
            palette_of(Argb { alpha: 255, ..color }),
        ),
        with_manual(state, hex_text(color)).image_path == state.image_path,
        with_manual(state, hex_text(color)).auto_accent == state.auto_accent,
        with_manual(state, hex_text(color)).outputs == state.outputs,
        with_manual(state, hex_text(color)).wallpaper_dir == state.wallpaper_dir,
        with_manual(state, hex_text(color)).output_filter == state.output_filter,
{
    lemma_hex_text_names_its_color(color);
}

/// Whatever the accent is, the manual mode sets only the mode, the manual accent
/// and the palette, which is that of the colour that the accent names.
pub proof fn lemma_manual_mode_sets_nothing_else(state: StateView, accent: Seq<char>)
    requires
        is_hex_color_text(accent),
    ensures
        parsed_color(accent) is Some,
        with_manual(state, accent) == (StateView {
            color_mode: "manual"@,
            manual_accent: accent,
            palette: Some(palette_of(parsed_color(accent)->0)),
            ..state
        }),
{
    lemma_hex_color_parses(accent);
}

/// The automatic mode takes the colours of the wallpaper that is shown. Without
/// a wallpaper, and in any mode of another name, only the name of the mode
/// changes.
pub proof fn lemma_other_modes(state: StateView, mode: Seq<char>, palette: PaletteView)
    ensures
        with_mode(state, mode, palette).color_mode == mode,
        mode == "auto"@ && state.image_path is Some ==> with_mode(state, mode, palette).palette
            == Some(palette) && with_mode(state, mode, palette).auto_accent
            == palette.dark.primary,
        mode != "auto"@ || state.image_path is None ==> with_mode(state, mode, palette).palette
            == state.palette && with_mode(state, mode, palette).auto_accent == state.auto_accent,
        with_mode(state, mode, palette).manual_accent == state.manual_accent,
        with_mode(state, mode, palette).image_path == state.image_path,
        with_mode(state, mode, palette).outputs == state.outputs,
        with_mode(state, mode, palette).wallpaper_dir == state.wallpaper_dir,
        with_mode(state, mode, palette).output_filter == state.output_filter,
{
}

/// The accent in use is the manual one in the manual mode, and the automatic one
/// in every other.
pub proof fn lemma_accent_goes_by_the_mode(state: StateView)
    ensures
        state.color_mode == "manual"@ ==> accent_of(state) == state.manual_accent,
        state.color_mode != "manual"@ ==> accent_of(state) == state.auto_accent,
{
}

proof fn lemma_named_paths_of_more(
    outputs: Seq<OutputView>,
    output: OutputView,
    path: Seq<char>,
    count: int,
)
    requires
        count <= outputs.len(),
    ensures
        named_paths(outputs.push(output), path, count) == named_paths(outputs, path, count),
    decreases count,
{
    if count > 0 {
        lemma_named_paths_of_more(outputs, output, path, count - 1);
        assert(outputs.push(output)[count - 1] == outputs[count - 1]);
    }
}

/// Without a wallpaper nothing is listed. Without outputs, or where its path
/// shows as nothing, the wallpaper stands under `default`. A first output is
/// listed alone; each further one is listed behind those before it, or where
/// its name stands already.
pub proof fn lemma_outputs_are_listed_as_they_came(
    state: StateView,
    path: Seq<u8>,
    output: OutputView,
)
    requires
        state.image_path == Some(path),
    ensures
        shown_paths((StateView { image_path: None, ..state })).len() == 0,
        state.outputs.len() == 0 || lossy_text(path).len() == 0 ==> shown_paths(state) == seq![
            ("default"@, lossy_text(path)),
        ],
        state.outputs.len() == 0 && lossy_text(path).len() > 0 ==> shown_paths(
            (StateView { outputs: state.outputs.push(output), ..state }),
        ) == seq![(output.name, lossy_text(path))],
        state.outputs.len() > 0 && lossy_text(path).len() > 0 ==> shown_paths(
            (StateView { outputs: state.outputs.push(output), ..state }),
        ) == put(shown_paths(state), output.name, lossy_text(path)),
{
    let count = state.outputs.len() as int;
    let text = lossy_text(path);
    let more = state.outputs.push(output);
    lemma_named_paths_of_more(state.outputs, output, text, count);
    assert(more[count] == output);
    assert(named_paths(more, text, count + 1) == put(
        named_paths(more, text, count),
        output.name,
        text,
    ));
    if count == 0 {
        let none: Seq<(Seq<char>, Seq<char>)> = seq![];
        assert(named_paths(more, text, 0) == none);
        lemma_put_keeps_the_order(none, 0, output.name, text);
        assert(none.push((output.name, text)) =~= seq![(output.name, text)]);
    }
}

/// What is written of a state is its mode, the accent in use, the automatic
/// accent, the name of the first output, the wallpapers and the dark scheme.
pub proof fn lemma_written_state_tells_the_state(state: StateView)
    ensures
        runtime_of(state).color_mode == state.color_mode,
        runtime_of(state).accent == accent_of(state),
        runtime_of(state).auto_accent == state.auto_accent,
        state.outputs.len() > 0 ==> runtime_of(state).primary == Some(state.outputs[0].name),
        state.outputs.len() == 0 ==> runtime_of(state).primary == Some("default"@),
        runtime_of(state).outputs == shown_paths(state),
        state.palette is None ==> runtime_of(state).palette is None,
        state.palette is Some ==> runtime_of(state).palette == Some(
            scheme_map(state.palette->0.dark),
        ),
{
}

/// A daemon starts without outputs, with the wallpaper, directory, colours and
/// choice of output that it was given. In the manual mode it has the palette of
/// the accent's colour; in any other that of the wallpaper, and none without
/// one. The automatic accent is the palette's, or a fixed one without a
/// palette.
pub proof fn lemma_start_goes_by_what_was_found(
    image_path: Option<Seq<u8>>,
    data: Option<Seq<u8>>,
    wallpaper_dir: Seq<u8>,
    colors: (Seq<char>, Seq<char>),
    output_filter: Option<Seq<char>>,
)
    ensures
        ({
            let state = start_state(image_path, data, wallpaper_dir, colors, output_filter);
            &&& state.outputs.len() == 0
            &&& state.image_path == image_path
            &&& state.wallpaper_dir == wallpaper_dir
            &&& state.color_mode == colors.0
            &&& state.manual_accent == colors.1
            &&& state.output_filter == output_filter
            &&& colors.0 == "manual"@ && parsed_color(colors.1) is Some ==> state.palette == Some(
                palette_of(parsed_color(colors.1)->0),
            )
            &&& colors.0 == "manual"@ && parsed_color(colors.1) is None ==> state.palette is None
            &&& colors.0 != "manual"@ && image_path is Some ==> state.palette == Some(
                extracted_palette(data),
            )
            &&& colors.0 != "manual"@ && image_path is None ==> state.palette is None
            &&& state.palette is Some ==> state.auto_accent == state.palette->0.dark.primary
            &&& state.palette is None ==> state.auto_accent == "#c72548"@
        }),
{
}

/// The reasons for which colours are not set.
pub proof fn lemma_color_error_texts()
    ensures
        color_error_text(ColorError::MissingAccent) == "manual mode requires --accent"@,
        color_error_text(ColorError::BadAccent) == "accent must be a #RRGGBB color"@,
        color_error_text(ColorError::Undecodable) == "failed to decode image"@,
{
}

/// What is seen of a state is what it holds.
pub proof fn lemma_state_is_seen_as_it_is(state: WallpaperState, palette: MaterialPalette)
    ensures
        state@.outputs == state.outputs@,
        state@.image_path == path_view(state.image_path),
        state@.wallpaper_dir == state.wallpaper_dir@,
        state@.color_mode == state.color_mode@,
        state@.manual_accent == state.manual_accent@,
        state@.auto_accent == state.auto_accent@,
        state@.palette == palette_view(state.palette),
        state@.output_filter == text_view(state.output_filter),
        palette_view(Some(palette)) == Some(palette@),
        palette_view(None) is None,
{
}

impl WallpaperState {
    /// The state that the daemon starts in. `image_path` is the wallpaper that
    /// was found, `data` what its file holds, or nothing where it could not be
    /// read. Nothing comes out where the wallpaper's colours are needed and
    /// the file does not decode.
    pub fn start(
        image_path: Option<FilePath>,
        data: Option<&Vec<u8>>,
        wallpaper_dir: FilePath,
        persisted: Option<&PersistedWallpaperState>,
        output_filter: Option<String>,
    ) -> (state: Option<WallpaperState>)
        requires
            start_colors(persisted_view(persisted)).0 == "manual"@ ==> is_color_candidate(
                start_colors(persisted_view(persisted)).1,
            ),
        ensures
            state is None <==> start_colors(persisted_view(persisted)).0 != "manual"@ && image_path
                is Some && !is_decodable(bytes_of(data)),
            state matches Some(made) ==> made@ == start_state(
                path_view(image_path),
                bytes_of(data),
                wallpaper_dir@,
                start_colors(persisted_view(persisted)),
                text_view(output_filter),
            ),
    {
        let (color_mode, manual_accent) = startup_colors(persisted);
        let palette = if same_text(color_mode.as_str(), "manual") {
            palette_from_hex(manual_accent.as_str())
        } else if image_path.is_some() {
            match try_extract_palette(data) {
                Some(found) => Some(found),
                None => {
                    return None;
                },
            }
        } else {
            None
        };
        let auto_accent = match &palette {
            Some(found) => found.dark.primary.clone(),
            None => "#c72548".to_owned(),
        };
        Some(
            WallpaperState {
                outputs: Outputs::new(),
                image_path,
                wallpaper_dir,
                color_mode,
                manual_accent,
                auto_accent,
                palette,
                output_filter,
            },
        )
    }

    /// Shows a wallpaper whose palette is known.
    pub fn apply_image(&mut self, path: FilePath, palette: MaterialPalette)
        ensures
            final(self)@ == with_image(old(self)@, path@, palette@),
    {
        self.auto_accent = palette.dark.primary.clone();
        self.palette = Some(palette);
        self.image_path = Some(path);
    }

    /// Shows a wallpaper, or leaves everything as it was where the path is
    /// none, or its file does not decode. `data` is what the file holds, or
    /// nothing where it could not be read.
    pub fn set_image(
        &mut self,
        resolved: Result<FilePath, ResolveError>,
        data: Option<&Vec<u8>>,
    ) -> (done: Result<(), ImageError>)
        ensures
            done is Ok <==> resolved is Ok && is_decodable(bytes_of(data)),
            done is Ok ==> final(self)@ == with_image(
                old(self)@,
                resolved->Ok_0@,
                extracted_palette(bytes_of(data)),
            ),
            done is Err ==> final(self)@ == old(self)@,
            done matches Err(ImageError::Path(error)) ==> resolved == Err::<FilePath, ResolveError>(
                error,
            ),
            done matches Err(ImageError::Undecodable) ==> resolved is Ok,
    {
        match resolved {
            Err(error) => Err(ImageError::Path(error)),
            Ok(path) => match try_extract_palette(data) {
                Some(palette) => {
                    self.apply_image(path, palette);
                    Ok(())
                },
                None => Err(ImageError::Undecodable),
            },
        }
    }

    /// Sets the colour mode, and in the manual mode the accent. `data` is what
    /// the file of the wallpaper that is shown holds; only the automatic mode
    /// looks at it. Where the request is refused everything stays as it was.
    pub fn set_color(&mut self, mode: String, accent: Option<String>, data: Option<&Vec<u8>>) -> (
    done: Result<(), ColorError>)
        ensures
            mode@ == "manual"@ && accent is None ==> done == Err::<(), ColorError>(
                ColorError::MissingAccent,
            ),
            mode@ == "manual"@ && accent is Some && !is_hex_color_text(accent->0@) ==> done == Err::<
                (),
                ColorError,
            >(ColorError::BadAccent),
            mode@ == "manual"@ && accent is Some && is_hex_color_text(accent->0@) ==> done is Ok
                && final(self)@ == with_manual(old(self)@, accent->0@),
            mode@ == "auto"@ && old(self)@.image_path is Some && !is_decodable(bytes_of(data))
                ==> done == Err::<(), ColorError>(ColorError::Undecodable),
            mode@ != "manual"@ && !(mode@ == "auto"@ && old(self)@.image_path is Some
                && !is_decodable(bytes_of(data))) ==> done is Ok && final(self)@ == with_mode(
                old(self)@,
                mode@,
                extracted_palette(bytes_of(data)),
            ),
            done is Err ==> final(self)@ == old(self)@,
    {
        proof {
            reveal_strlit("manual");
            reveal_strlit("auto");
            assert("manual"@.len() != "auto"@.len());
        }
        if same_text(mode.as_str(), "manual") {
            match accent {
                None => {
                    return Err(ColorError::MissingAccent);
                },
                Some(accent) => {
                    if !is_hex_color(accent.as_str()) {
                        return Err(ColorError::BadAccent);
                    }
                    proof {
                        lemma_hex_color_parses(accent@);
                    }
                    self.palette = palette_from_hex(accent.as_str());
                    self.manual_accent = accent;
                },
            }
        } else if same_text(mode.as_str(), "auto") {
            if self.image_path.is_some() {
                match try_extract_palette(data) {
                    Some(palette) => {
                        self.auto_accent = palette.dark.primary.clone();
                        self.palette = Some(palette);
                    },
                    None => {
                        return Err(ColorError::Undecodable);
                    },
                }
            }
        }
        self.color_mode = mode;
        Ok(())
    }

    /// The accent in use.
    pub fn accent(&self) -> (accent: String)
        ensures
            accent@ == accent_of(self@),
    {
        if same_text(self.color_mode.as_str(), "manual") {
            self.manual_accent.clone()
        } else {
            self.auto_accent.clone()
        }
    }

    fn paths_by_output(&self, path: &String) -> (paths: TextMap)
        ensures
            paths@ == named_paths(self@.outputs, path@, self@.outputs.len() as int),
    {
        let mut paths = TextMap::new();
        let mut i: usize = 0;
        while i < self.outputs.len()
            invariant
                i <= self@.outputs.len(),
                paths@ == named_paths(self@.outputs, path@, i as int),
            decreases self@.outputs.len() - i,
        {
            paths.insert(self.outputs.at(i).name.clone(), path.clone());
            i = i + 1;
        }
        paths
    }

    /// What is written of the state.
    pub fn runtime_state(&self) -> (state: RuntimeState)
        ensures
            state@ == runtime_of(self@),
    {
        let outputs = match &self.image_path {
            Some(path) => {
                let text = to_text_lossy(path.bytes.as_slice());
                if self.outputs.len() > 0 && !text.as_str().is_empty() {
                    self.paths_by_output(&text)
                } else {
                    let mut paths = TextMap::new();
                    paths.insert("default".to_owned(), text);
                    assert(paths@ =~= seq![("default"@, text@)]);
                    paths
                }
            },
            None => TextMap::new(),
        };
        let primary = if self.outputs.len() > 0 {
            self.outputs.at(0).name.clone()
        } else {
            "default".to_owned()
        };
        let palette = match &self.palette {
            Some(palette) => Some(palette.dark.to_map()),
            None => None,
        };
        RuntimeState {
            color_mode: self.color_mode.clone(),
            accent: self.accent(),
            auto_accent: self.auto_accent.clone(),
            primary: Some(primary),
            outputs,
            palette,
        }
    }

    /// Whether an output, if it is one that is painted, can be asked for its
    /// frame.
    pub fn can_plan(&self, global: u32) -> (ok: bool)
        ensures
            ok == (is_painted(self@, global) ==> output_countable(
                output_of(self@.outputs, global),
            )),
    {
        match self.painted_at(global) {
            Some(at) => {
                let output = self.outputs.at(at);
                is_countable(output.width, output.height, output.scale)
            },
            None => true,
        }
    }

    fn painted_at(&self, global: u32) -> (at: Option<usize>)
        ensures
            at is Some <==> is_painted(self@, global),
            at matches Some(i) ==> i < self@.outputs.len() && self@.outputs[i as int] == output_of(
                self@.outputs,
                global,
            ),
            distinct_globals(self@.outputs),
    {
        match self.outputs.find(global) {
            Some(at) => {
                let output = self.outputs.at(at);
                let chosen = match &self.output_filter {
                    Some(name) => same_text(output.name.as_str(), name.as_str()),
                    None => true,
                };
                if chosen && output.has_surface {
                    Some(at)
                } else {
                    None
                }
            },
            None => None,
        }
    }

    /// The frame to paint for an output, if it is one that is painted and its
    /// rows can be.
    pub fn frame_plan(&self, global: u32) -> (plan: Option<FramePlan>)
        requires
            is_painted(self@, global) ==> output_countable(output_of(self@.outputs, global)),
        ensures
            plan is Some <==> is_painted(self@, global) && output_row_fits(
                output_of(self@.outputs, global),
            ),
            plan matches Some(made) ==> made == plan_for(output_of(self@.outputs, global))
                && frame_fits(made.width, made.height),
            forall|at: int|
                0 <= at < self@.outputs.len() && (#[trigger] self@.outputs[at]).global == global
                    ==> (plan is Some <==> self@.outputs[at].has_surface && (self@.output_filter
                    is None || self@.output_filter == Some(self@.outputs[at].name))
                    && output_row_fits(self@.outputs[at])),
            (forall|at: int|
                0 <= at < self@.outputs.len() ==> (#[trigger] self@.outputs[at]).global != global)
                ==> plan is None,
    {
        let painted = self.painted_at(global);
        proof {
            let outputs = self@.outputs;
            assert forall|at: int|
                0 <= at < outputs.len() && (
                #[trigger] outputs[at]).global == global implies is_painted(self@, global) == (
            outputs[at].has_surface && (self@.output_filter is None || self@.output_filter == Some(
                outputs[at].name,
            ))) && output_of(outputs, global) == outputs[at] by {
                lemma_painted_outputs(self@, at);
                lemma_output_is_found_by_its_number(outputs, at, global);
            }
        }
        match painted {
            Some(at) => {
                let output = self.outputs.at(at);
                if fits_row(output.width, output.scale) {
                    Some(plan_frame(output.width, output.height, output.scale))
                } else {
                    None
                }
            },
            None => None,
        }
    }
}

} // verus!
