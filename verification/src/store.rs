//! Where the daemon keeps its state, and what it takes from there when it
//! starts.

use vstd::prelude::*;
use vstd::utf8::*;

use crate::path::lemma_joined_with_one_slash;
use crate::path::{
    joined, last_dot, lemma_name_without_directory, lemma_new_extension_keeps_the_directory,
    path_view, with_extension, FilePath,
};
use crate::text::{decimal, decimal_text, text_view};
use crate::text::{lemma_ascii_texts_join, lemma_decimal_spells_the_number};
use crate::text_map::{distinct_keys, has_key, lemma_map_of, map_of, TextMap};

verus! {

/// The state that a file holds. What is missing in the file is missing here.
#[derive(Debug)]
pub struct PersistedWallpaperState {
    pub color_mode: Option<String>,
    pub accent: Option<String>,
    pub manual_accent: Option<String>,
    pub primary: Option<String>,
    pub outputs: TextMap,
}

/// What a `PersistedWallpaperState` holds.
pub struct PersistedView {
    pub color_mode: Option<Seq<char>>,
    pub accent: Option<Seq<char>>,
    pub manual_accent: Option<Seq<char>>,
    pub primary: Option<Seq<char>>,
    pub outputs: Seq<(Seq<char>, Seq<char>)>,
}

impl View for PersistedWallpaperState {
    type V = PersistedView;

    open spec fn view(&self) -> PersistedView {
        PersistedView {
            color_mode: text_view(self.color_mode),
            accent: text_view(self.accent),
            manual_accent: text_view(self.manual_accent),
            primary: text_view(self.primary),
            outputs: self.outputs@,
        }
    }
}

/// The state that the daemon writes for other programs, and for its next
/// start.
#[derive(Debug)]
pub struct RuntimeState {
    pub color_mode: String,
    pub accent: String,
    pub auto_accent: String,
    pub primary: Option<String>,
    pub outputs: TextMap,
    pub palette: Option<TextMap>,
}

/// What a `RuntimeState` holds.
pub struct RuntimeView {
    pub color_mode: Seq<char>,
    pub accent: Seq<char>,
    pub auto_accent: Seq<char>,
    pub primary: Option<Seq<char>>,
    pub outputs: Seq<(Seq<char>, Seq<char>)>,
    pub palette: Option<Map<Seq<char>, Seq<char>>>,
}

impl View for RuntimeState {
    type V = RuntimeView;

    open spec fn view(&self) -> RuntimeView {
        RuntimeView {
            color_mode: self.color_mode@,
            accent: self.accent@,
            auto_accent: self.auto_accent@,
            primary: text_view(self.primary),
            outputs: self.outputs@,
            palette: match self.palette {
                Some(map) => Some(map.map()),
                None => None,
            },
        }
    }
}

/// What a file with a written state holds for the reader of a persisted one:
/// the fields of the same names. No accent is written as the manual one.
pub open spec fn read_back(state: RuntimeView) -> PersistedView {
    PersistedView {
        color_mode: Some(state.color_mode),
        accent: Some(state.accent),
        manual_accent: None,
        primary: state.primary,
        outputs: state.outputs,
    }
}

/// The state file under a directory.
pub open spec fn state_file_under(directory: Seq<u8>) -> Seq<u8> {
    joined(joined(directory, encode_utf8("wyrd"@)), encode_utf8("wallpaper.toml"@))
}

/// The state file that survives a restart of the system.
pub open spec fn persistent_path(state_home: Option<Seq<u8>>, home: Option<Seq<u8>>) -> Seq<u8> {
    match (state_home, home) {
        (Some(directory), _) => state_file_under(directory),
        (None, Some(directory)) => state_file_under(
            joined(joined(directory, encode_utf8(".local"@)), encode_utf8("state"@)),
        ),
        (None, None) => joined(encode_utf8("/tmp"@), encode_utf8("wyrd-wallpaper-state.toml"@)),
    }
}

/// The state file that a user may have put among the configuration.
pub open spec fn config_path(config_home: Option<Seq<u8>>, home: Option<Seq<u8>>) -> Seq<u8> {
    match (config_home, home) {
        (Some(directory), _) => state_file_under(directory),
        (None, Some(directory)) => state_file_under(joined(directory, encode_utf8(".config"@))),
        (None, None) => joined(encode_utf8("/tmp"@), encode_utf8("wyrd-wallpaper-config.toml"@)),
    }
}

/// The state file that other programs watch.
pub open spec fn runtime_path(runtime_dir: Option<Seq<u8>>, uid: u32) -> Seq<u8> {
    match runtime_dir {
        Some(directory) => state_file_under(directory),
        None => state_file_under(encode_utf8("/run/user/"@ + decimal_text(uid as nat))),
    }
}

/// The daemon's control socket.
pub open spec fn socket_path_of(runtime_dir: Option<Seq<u8>>) -> Seq<u8> {
    match runtime_dir {
        Some(directory) => joined(directory, encode_utf8("wyrd-wallpaper.sock"@)),
        None => joined(encode_utf8("/tmp"@), encode_utf8("wyrd-wallpaper.sock"@)),
    }
}

fn state_file_in(directory: &FilePath) -> (path: FilePath)
    ensures
        path@ == state_file_under(directory@),
{
    directory.join(&FilePath::of("wyrd")).join(&FilePath::of("wallpaper.toml"))
}

proof fn lemma_under(base: Seq<u8>, name: Seq<char>)
    requires
        base.len() > 0,
        base.last() != 47,
        is_ascii_chars(name),
        name.len() > 0,
        name[0] != '/',
        name.last() != '/',
    ensures
        joined(base, encode_utf8(name)) == base + encode_utf8(seq!['/'] + name),
        joined(base, encode_utf8(name)).len() > 0,
        joined(base, encode_utf8(name)).last() != 47,
{
    is_ascii_chars_encode_utf8(name);
    is_ascii_chars_encode_utf8(seq!['/']);
    lemma_ascii_texts_join(seq!['/'], name);
    assert(seq!['/'][0] as u8 == encode_utf8(seq!['/'])[0]);
    assert(encode_utf8(seq!['/']) =~= seq![47u8]);
    assert(name[0] as u8 == encode_utf8(name)[0]);
    assert(name[name.len() - 1] as u8 == encode_utf8(name)[name.len() - 1]);
    lemma_joined_with_one_slash(base, encode_utf8(name));
    assert(base + seq![47u8] + encode_utf8(name) =~= base + (seq![47u8] + encode_utf8(name)));
}

/// The state file stands in the directory `wyrd` under the one that is given,
/// with one slash between the names.
pub proof fn lemma_state_file_stands_under(directory: Seq<u8>)
    ensures
        directory.len() > 0 && directory.last() != 47 ==> state_file_under(directory) == directory
            + encode_utf8("/wyrd/wallpaper.toml"@),
        directory.len() == 0 || directory.last() == 47 ==> state_file_under(directory) == directory
            + encode_utf8("wyrd/wallpaper.toml"@),
{
    reveal_strlit("wyrd");
    reveal_strlit("wallpaper.toml");
    reveal_strlit("/wyrd/wallpaper.toml");
    reveal_strlit("wyrd/wallpaper.toml");
    let outer = encode_utf8("wyrd"@);
    let tail = seq!['/'] + "wallpaper.toml"@;
    if directory.len() > 0 && directory.last() != 47 {
        lemma_under(directory, "wyrd"@);
        lemma_under(joined(directory, outer), "wallpaper.toml"@);
        lemma_ascii_texts_join(seq!['/'] + "wyrd"@, tail);
        assert((seq!['/'] + "wyrd"@) + tail =~= "/wyrd/wallpaper.toml"@);
        let lead = encode_utf8(seq!['/'] + "wyrd"@);
        assert((directory + lead) + encode_utf8(tail) =~= directory + (lead + encode_utf8(tail)));
    } else {
        is_ascii_chars_encode_utf8("wyrd"@);
        assert("wyrd"@[0] as u8 == outer[0]);
        assert("wyrd"@[3] as u8 == outer[3]);
        lemma_joined_with_one_slash(directory, outer);
        assert((directory + outer).last() == outer[3]);
        lemma_under(directory + outer, "wallpaper.toml"@);
        lemma_ascii_texts_join("wyrd"@, tail);
        assert("wyrd"@ + tail =~= "wyrd/wallpaper.toml"@);
        assert((directory + outer) + encode_utf8(tail) =~= directory + (outer + encode_utf8(tail)));
    }
}

/// The state that survives a restart is kept under the state directory where
/// one is set, else under `.local/state` in the home directory, else in a file
/// of its own under `/tmp`.
pub proof fn lemma_persistent_file(directory: Seq<u8>, home: Option<Seq<u8>>, own: Seq<u8>)
    ensures
        persistent_path(Some(directory), home) == state_file_under(directory),
        own.len() > 0 && own.last() != 47 ==> persistent_path(None, Some(own)) == own
            + encode_utf8("/.local/state/wyrd/wallpaper.toml"@),
        persistent_path(None, Some(own)) == state_file_under(
            joined(joined(own, encode_utf8(".local"@)), encode_utf8("state"@)),
        ),
        persistent_path(None, None) == encode_utf8("/tmp/wyrd-wallpaper-state.toml"@),
{
    reveal_strlit("/tmp");
    reveal_strlit("wyrd-wallpaper-state.toml");
    reveal_strlit("/tmp/wyrd-wallpaper-state.toml");
    lemma_under_tmp("wyrd-wallpaper-state.toml"@);
    assert("/tmp"@ + (seq!['/'] + "wyrd-wallpaper-state.toml"@)
        =~= "/tmp/wyrd-wallpaper-state.toml"@);
    if own.len() > 0 && own.last() != 47 {
        reveal_strlit(".local");
        reveal_strlit("state");
        reveal_strlit("/wyrd/wallpaper.toml");
        reveal_strlit("/.local/state/wyrd/wallpaper.toml");
        let inner = joined(own, encode_utf8(".local"@));
        let first = seq!['/'] + ".local"@;
        let second = seq!['/'] + "state"@;
        let last = "/wyrd/wallpaper.toml"@;
        lemma_under(own, ".local"@);
        lemma_under(inner, "state"@);
        lemma_state_file_stands_under(joined(inner, encode_utf8("state"@)));
        lemma_ascii_texts_join(first, second);
        lemma_ascii_texts_join(first + second, last);
        assert((first + second) + last =~= "/.local/state/wyrd/wallpaper.toml"@);
        assert(own + encode_utf8(first) + encode_utf8(second) + encode_utf8(last) =~= own + (
        encode_utf8(first) + encode_utf8(second) + encode_utf8(last)));
    }
}

proof fn lemma_under_tmp(name: Seq<char>)
    requires
        is_ascii_chars(name),
        name.len() > 0,
        name[0] != '/',
        name.last() != '/',
    ensures
        joined(encode_utf8("/tmp"@), encode_utf8(name)) == encode_utf8("/tmp"@ + (seq!['/'] + name)),
{
    reveal_strlit("/tmp");
    is_ascii_chars_encode_utf8("/tmp"@);
    assert("/tmp"@[3] as u8 == encode_utf8("/tmp"@)[3]);
    lemma_under(encode_utf8("/tmp"@), name);
    assert(is_ascii_chars(seq!['/'] + name));
    lemma_ascii_texts_join("/tmp"@, seq!['/'] + name);
}

/// The configured state is looked for under the configuration directory where
/// one is set, else under `.config` in the home directory, else in a file of
/// its own under `/tmp`.
pub proof fn lemma_config_file(directory: Seq<u8>, home: Option<Seq<u8>>, own: Seq<u8>)
    ensures
        config_path(Some(directory), home) == state_file_under(directory),
        own.len() > 0 && own.last() != 47 ==> config_path(None, Some(own)) == own + encode_utf8(
            "/.config/wyrd/wallpaper.toml"@,
        ),
        config_path(None, Some(own)) == state_file_under(joined(own, encode_utf8(".config"@))),
        config_path(None, None) == encode_utf8("/tmp/wyrd-wallpaper-config.toml"@),
{
    reveal_strlit("/tmp");
    reveal_strlit("wyrd-wallpaper-config.toml");
    reveal_strlit("/tmp/wyrd-wallpaper-config.toml");
    lemma_under_tmp("wyrd-wallpaper-config.toml"@);
    assert("/tmp"@ + (seq!['/'] + "wyrd-wallpaper-config.toml"@)
        =~= "/tmp/wyrd-wallpaper-config.toml"@);
    if own.len() > 0 && own.last() != 47 {
        reveal_strlit(".config");
        reveal_strlit("/wyrd/wallpaper.toml");
        reveal_strlit("/.config/wyrd/wallpaper.toml");
        let first = seq!['/'] + ".config"@;
        let last = "/wyrd/wallpaper.toml"@;
        lemma_under(own, ".config"@);
        lemma_state_file_stands_under(joined(own, encode_utf8(".config"@)));
        lemma_ascii_texts_join(first, last);
        assert(first + last =~= "/.config/wyrd/wallpaper.toml"@);
        assert(own + encode_utf8(first) + encode_utf8(last) =~= own + (encode_utf8(first)
            + encode_utf8(last)));
    }
}

/// The watched state is written under the run-time directory where one is set,
/// else under the user's own below `/run/user`; the socket stands in the
/// run-time directory itself, or in `/tmp`.
pub proof fn lemma_runtime_files(directory: Seq<u8>, uid: u32)
    ensures
        runtime_path(Some(directory), uid) == state_file_under(directory),
        runtime_path(None, uid) == encode_utf8(
            "/run/user/"@ + decimal_text(uid as nat) + "/wyrd/wallpaper.toml"@,
        ),
        directory.len() > 0 && directory.last() != 47 ==> socket_path_of(Some(directory))
            == directory + encode_utf8("/wyrd-wallpaper.sock"@),
        socket_path_of(Some(directory)) == joined(directory, encode_utf8("wyrd-wallpaper.sock"@)),
        socket_path_of(None) == encode_utf8("/tmp/wyrd-wallpaper.sock"@),
{
    reveal_strlit("/tmp");
    reveal_strlit("/run/user/");
    reveal_strlit("/wyrd/wallpaper.toml");
    reveal_strlit("wyrd-wallpaper.sock");
    reveal_strlit("/wyrd-wallpaper.sock");
    reveal_strlit("/tmp/wyrd-wallpaper.sock");
    let number = decimal_text(uid as nat);
    let own = "/run/user/"@ + number;
    lemma_decimal_spells_the_number(uid as nat);
    assert(is_ascii_chars(own)) by {
        assert forall|i: int| 0 <= i < own.len() implies '\0' <= #[trigger] own[i] <= '\u{7f}' by {
            if i >= 10 {
                assert(own[i] == number[i - 10]);
            }
        }
    }
    is_ascii_chars_encode_utf8(own);
    assert(own[own.len() - 1] == number[number.len() - 1]);
    assert(own[own.len() - 1] as u8 == encode_utf8(own)[own.len() - 1]);
    lemma_state_file_stands_under(encode_utf8(own));
    lemma_ascii_texts_join(own, "/wyrd/wallpaper.toml"@);
    lemma_under_tmp("wyrd-wallpaper.sock"@);
    assert("/tmp"@ + (seq!['/'] + "wyrd-wallpaper.sock"@) =~= "/tmp/wyrd-wallpaper.sock"@);
    if directory.len() > 0 && directory.last() != 47 {
        lemma_under(directory, "wyrd-wallpaper.sock"@);
        assert(seq!['/'] + "wyrd-wallpaper.sock"@ =~= "/wyrd-wallpaper.sock"@);
    }
}

/// The daemon's control socket. `runtime_dir` is the value of
/// `XDG_RUNTIME_DIR`.
pub fn socket_path(runtime_dir: Option<FilePath>) -> (path: FilePath)
    ensures
        path@ == socket_path_of(path_view(runtime_dir)),
{
    let directory = match runtime_dir {
        Some(directory) => directory,
        None => FilePath::of("/tmp"),
    };
    directory.join(&FilePath::of("wyrd-wallpaper.sock"))
}

/// The state file that survives a restart of the system. `state_home` is the
/// value of `XDG_STATE_HOME` and `home` that of `HOME`.
pub fn persistent_state_file_path(state_home: Option<FilePath>, home: Option<FilePath>) -> (path:
    FilePath)
    ensures
        path@ == persistent_path(path_view(state_home), path_view(home)),
{
    if let Some(directory) = state_home {
        state_file_in(&directory)
    } else if let Some(directory) = home {
        state_file_in(&directory.join(&FilePath::of(".local")).join(&FilePath::of("state")))
    } else {
        FilePath::of("/tmp").join(&FilePath::of("wyrd-wallpaper-state.toml"))
    }
}

/// The state file that a user may have put among the configuration.
/// `config_home` is the value of `XDG_CONFIG_HOME` and `home` that of `HOME`.
pub fn config_state_file_path(config_home: Option<FilePath>, home: Option<FilePath>) -> (path:
    FilePath)
    ensures
        path@ == config_path(path_view(config_home), path_view(home)),
{
    if let Some(directory) = config_home {
        state_file_in(&directory)
    } else if let Some(directory) = home {
        state_file_in(&directory.join(&FilePath::of(".config")))
    } else {
        FilePath::of("/tmp").join(&FilePath::of("wyrd-wallpaper-config.toml"))
    }
}

/// The state file that other programs watch. `runtime_dir` is the value of
/// `XDG_RUNTIME_DIR`, and `uid` the user's number.
pub fn runtime_state_file_path(runtime_dir: Option<FilePath>, uid: u32) -> (path: FilePath)
    ensures
        path@ == runtime_path(path_view(runtime_dir), uid),
{
    let directory = match runtime_dir {
        Some(directory) => directory,
        None => {
            let text = "/run/user/".to_owned().concat(decimal(uid as u64).as_str());
            FilePath::of(text.as_str())
        },
    };
    state_file_in(&directory)
}

/// The file that a state is written to before it takes the place of the state
/// file, so that no reader sees half of it.
pub fn temporary_path(file: &FilePath) -> (path: FilePath)
    ensures
        path@ == with_extension(file@, encode_utf8("toml.tmp"@)),
{
    file.with_extension(&FilePath::of("toml.tmp"))
}

/// A state is written next to the file whose place it takes, under the name
/// with `.tmp` added.
pub proof fn lemma_temporary_stands_beside_the_file(directory: Seq<u8>)
    ensures
        with_extension(state_file_under(directory), encode_utf8("toml.tmp"@)) == joined(
            joined(directory, encode_utf8("wyrd"@)),
            encode_utf8("wallpaper.toml.tmp"@),
        ),
{
    reveal_strlit("wallpaper.toml");
    reveal_strlit("toml.tmp");
    reveal_strlit("wallpaper.toml.tmp");
    let name = encode_utf8("wallpaper.toml"@);
    let new = encode_utf8("toml.tmp"@);
    is_ascii_chars_encode_utf8("wallpaper.toml"@);
    is_ascii_chars_encode_utf8("toml.tmp"@);
    is_ascii_chars_encode_utf8("wallpaper.toml.tmp"@);
    lemma_new_extension_keeps_the_directory(joined(directory, encode_utf8("wyrd"@)), name, new);
    lemma_name_without_directory(name);
    assert(last_dot(name, 14) == 9) by {
        reveal_with_fuel(last_dot, 6);
    }
    assert(with_extension(name, new) =~= encode_utf8("wallpaper.toml.tmp"@));
}

/// Whether a state says anything that a start can go by.
pub open spec fn restorable(state: PersistedView) -> bool {
    state.outputs.len() > 0 || state.color_mode is Some
}

/// Whether the candidate at a place is the first that a start can go by.
pub open spec fn is_first_restorable(
    candidates: Seq<Option<PersistedWallpaperState>>,
    at: int,
) -> bool {
    &&& 0 <= at < candidates.len()
    &&& candidates[at] matches Some(state) && restorable(state@)
    &&& forall|i: int|
        0 <= i < at ==> !(#[trigger] candidates[i] matches Some(state) && restorable(state@))
}

/// Whether no candidate is one that a start can go by.
pub open spec fn none_restorable(candidates: Seq<Option<PersistedWallpaperState>>) -> bool {
    forall|i: int|
        0 <= i < candidates.len() ==> !(#[trigger] candidates[i] matches Some(state) && restorable(
            state@,
        ))
}

/// A state can be gone by where it lists an output or has a colour mode. There
/// is only one first such candidate: no one before it lists an output or has a
/// colour mode.
pub proof fn lemma_first_restorable_is_the_first(
    candidates: Seq<Option<PersistedWallpaperState>>,
    at: int,
    other: int,
)
    requires
        0 <= at < candidates.len(),
        candidates[at] is Some,
        candidates[at]->0@.outputs.len() > 0 || candidates[at]->0@.color_mode is Some,
        forall|i: int|
            0 <= i < at ==> (#[trigger] candidates[i] is None || candidates[i]->0@.outputs.len() == 0
                && candidates[i]->0@.color_mode is None),
    ensures
        is_first_restorable(candidates, other) <==> other == at,
        !none_restorable(candidates),
{
    assert(restorable(candidates[at]->0@));
}

/// Where no candidate lists an output or has a colour mode, none can be gone by.
pub proof fn lemma_empty_states_are_not_restorable(
    candidates: Seq<Option<PersistedWallpaperState>>,
)
    requires
        forall|i: int|
            0 <= i < candidates.len() ==> (#[trigger] candidates[i] is None
                || candidates[i]->0@.outputs.len() == 0 && candidates[i]->0@.color_mode is None),
    ensures
        none_restorable(candidates),
{
}

/// What is seen of a persisted state is what it holds.
pub proof fn lemma_persisted_is_seen_as_it_is(state: &PersistedWallpaperState)
    ensures
        state@.color_mode == text_view(state.color_mode),
        state@.accent == text_view(state.accent),
        state@.manual_accent == text_view(state.manual_accent),
        state@.primary == text_view(state.primary),
        state@.outputs == state.outputs@,
        persisted_view(Some(state)) == Some(state@),
        persisted_view(None) is None,
{
}

/// What is seen of a written state is what it holds.
pub proof fn lemma_runtime_is_seen_as_it_is(state: RuntimeState)
    ensures
        state@.color_mode == state.color_mode@,
        state@.accent == state.accent@,
        state@.auto_accent == state.auto_accent@,
        state@.primary == text_view(state.primary),
        state@.outputs == state.outputs@,
        state@.palette is Some <==> state.palette is Some,
        state.palette is Some ==> state@.palette == Some(state.palette->0.map()),
{
}

impl PersistedWallpaperState {
    /// Whether the state says anything that a start can go by.
    pub fn is_restorable(&self) -> (ok: bool)
        ensures
            ok == restorable(self@),
    {
        self.outputs.len() > 0 || self.color_mode.is_some()
    }
}

/// The state to start from: the first of the candidates that a start can go
/// by. A candidate is missing where its file is, or does not parse.
pub fn read_persisted_state(candidates: Vec<Option<PersistedWallpaperState>>) -> (state: Option<
    PersistedWallpaperState,
>)
    ensures
        state is None <==> none_restorable(candidates@),
        state matches Some(found) ==> exists|at: int| #[trigger]
            is_first_restorable(candidates@, at) && candidates@[at] == Some(found),
{
    let ghost all = candidates@;
    let mut rest = candidates;
    let ghost mut done: int = 0;
    while rest.len() > 0
        invariant
            all == candidates@,
            0 <= done <= all.len(),
            rest@ == all.skip(done),
            forall|i: int|
                0 <= i < done ==> !(#[trigger] all[i] matches Some(state) && restorable(state@)),
        decreases rest.len(),
    {
        assert(rest@[0] == all[done]);
        let candidate = rest.remove(0);
        if let Some(state) = candidate {
            if state.is_restorable() {
                assert(is_first_restorable(all, done));
                return Some(state);
            }
        }
        proof {
            done = done + 1;
        }
        assert(rest@ =~= all.skip(done));
    }
    None
}

/// The accent of a daemon that was never told one.
pub open spec fn default_accent() -> Seq<char> {
    "#c72548"@
}

/// The colour mode and the manual accent that a start takes from a persisted
/// state.
pub open spec fn start_colors(state: Option<PersistedView>) -> (Seq<char>, Seq<char>) {
    match state {
        Some(found) => (
            match found.color_mode {
                Some(mode) => mode,
                None => "auto"@,
            },
            match (found.manual_accent, found.accent) {
                (Some(accent), _) => accent,
                (None, Some(accent)) => accent,
                (None, None) => default_accent(),
            },
        ),
        None => ("auto"@, default_accent()),
    }
}

/// The view of a persisted state that may be missing.
pub open spec fn persisted_view(state: Option<&PersistedWallpaperState>) -> Option<PersistedView> {
    match state {
        Some(found) => Some(found@),
        None => None,
    }
}

/// A start takes the persisted colour mode, or the automatic one; as the manual
/// accent it takes the persisted manual one, else the accent that was in use,
/// else a fixed one.
pub proof fn lemma_start_takes_the_persisted_colors(state: PersistedView)
    ensures
        state.color_mode is Some ==> start_colors(Some(state)).0 == state.color_mode->0,
        state.color_mode is None ==> start_colors(Some(state)).0 == "auto"@,
        state.manual_accent is Some ==> start_colors(Some(state)).1 == state.manual_accent->0,
        state.manual_accent is None && state.accent is Some ==> start_colors(Some(state)).1
            == state.accent->0,
        state.manual_accent is None && state.accent is None ==> start_colors(Some(state)).1
            == "#c72548"@,
        start_colors(None).0 == "auto"@,
        start_colors(None).1 == "#c72548"@,
        default_accent() == "#c72548"@,
{
}

fn text_or(text: &Option<String>, other: &str) -> (chosen: String)
    ensures
        chosen@ == match text_view(*text) {
            Some(found) => found,
            None => other@,
        },
{
    match text {
        Some(found) => found.clone(),
        None => other.to_owned(),
    }
}

/// The colour mode and the manual accent to start with.
pub fn startup_colors(state: Option<&PersistedWallpaperState>) -> (colors: (String, String))
    ensures
        (colors.0@, colors.1@) == start_colors(persisted_view(state)),
{
    match state {
        Some(found) => {
            let mode = text_or(&found.color_mode, "auto");
            let accent = match &found.manual_accent {
                Some(accent) => accent.clone(),
                None => text_or(&found.accent, "#c72548"),
            };
            (mode, accent)
        },
        None => ("auto".to_owned(), "#c72548".to_owned()),
    }
}

/// The wallpaper of the primary output, where the state names one.
pub open spec fn primary_choice(state: PersistedView) -> Option<Seq<char>> {
    match state.primary {
        Some(name) => if map_of(state.outputs).contains_key(name) {
            Some(map_of(state.outputs)[name])
        } else {
            None
        },
        None => None,
    }
}

/// The wallpaper of the output that comes first.
pub open spec fn first_choice(state: PersistedView) -> Option<Seq<char>> {
    if state.outputs.len() > 0 {
        Some(state.outputs[0].1)
    } else {
        None
    }
}

/// A list of at most one text, without an empty one.
pub open spec fn non_empty(choice: Option<Seq<char>>) -> Seq<Seq<char>> {
    match choice {
        Some(path) => if path.len() > 0 {
            seq![path]
        } else {
            seq![]
        },
        None => seq![],
    }
}

/// The wallpapers that a start tries of a persisted state, in this order: the
/// primary output's, then that of the output that comes first.
pub open spec fn start_choices(state: PersistedView) -> Seq<Seq<char>> {
    non_empty(primary_choice(state)) + non_empty(first_choice(state))
}

impl PersistedWallpaperState {
    fn of_primary(&self) -> (path: Option<&String>)
        ensures
            path is Some <==> primary_choice(self@) is Some,
            path matches Some(found) ==> primary_choice(self@) == Some(found@),
    {
        match &self.primary {
            Some(name) => self.outputs.get(name.as_str()),
            None => None,
        }
    }

    fn of_first(&self) -> (path: Option<&String>)
        ensures
            path is Some <==> first_choice(self@) is Some,
            path matches Some(found) ==> first_choice(self@) == Some(found@),
    {
        if self.outputs.len() > 0 {
            Some(self.outputs.value(0))
        } else {
            None
        }
    }

    /// The wallpapers to try at a start, in order.
    pub fn startup_choices(&self) -> (paths: Vec<FilePath>)
        ensures
            paths@.map_values(|path: FilePath| path@) == start_choices(self@).map_values(
                |path: Seq<char>| encode_utf8(path),
            ),
    {
        let ghost shown = |path: FilePath| path@;
        let ghost coded = |path: Seq<char>| encode_utf8(path);
        let mut paths: Vec<FilePath> = Vec::new();
        if let Some(path) = self.of_primary() {
            if !path.as_str().is_empty() {
                paths.push(FilePath::of(path.as_str()));
            }
        }
        assert(paths@.map_values(shown) =~= non_empty(primary_choice(self@)).map_values(coded));
        let ghost before = paths@.map_values(shown);
        if let Some(path) = self.of_first() {
            if !path.as_str().is_empty() {
                paths.push(FilePath::of(path.as_str()));
            }
        }
        assert(paths@.map_values(shown) =~= before + non_empty(first_choice(self@)).map_values(
            coded,
        ));
        assert(paths@.map_values(shown) =~= start_choices(self@).map_values(coded));
        paths
    }
}

/// The wallpapers that a start tries, in this order: the one that the user
/// asked for, then those of the persisted state.
pub open spec fn start_candidates(
    initial: Option<Seq<u8>>,
    persisted: Option<PersistedView>,
) -> Seq<Seq<u8>> {
    (match initial {
        Some(path) => seq![path],
        None => seq![],
    }) + (match persisted {
        Some(state) => start_choices(state).map_values(|path: Seq<char>| encode_utf8(path)),
        None => seq![],
    })
}

/// A wallpaper that the user asked for is tried before any other, whatever the
/// persisted state holds, and the persisted ones follow as they would without
/// it.
pub proof fn lemma_asked_wallpaper_is_tried_first(
    path: Seq<u8>,
    persisted: Option<PersistedView>,
)
    ensures
        start_candidates(Some(path), persisted).len() > 0,
        start_candidates(Some(path), persisted)[0] == path,
        start_candidates(Some(path), persisted).drop_first() == start_candidates(None, persisted),
{
    assert(start_candidates(Some(path), persisted).drop_first() =~= start_candidates(
        None,
        persisted,
    ));
}

/// Without a wallpaper that the user asked for, the choices of the persisted
/// state are tried in their order, and nothing without such a state.
pub proof fn lemma_persisted_choices_keep_their_order(state: PersistedView)
    ensures
        start_candidates(None, Some(state)).len() == start_choices(state).len(),
        forall|i: int|
            0 <= i < start_choices(state).len() ==> #[trigger] start_candidates(
                None,
                Some(state),
            )[i] == encode_utf8(start_choices(state)[i]),
        start_candidates(None, None).len() == 0,
{
}

/// The choices of a persisted state are the wallpaper of the primary output,
/// where that output is listed, and then that of the output listed first; an
/// empty path is left out.
pub proof fn lemma_primary_output_is_tried_before_the_first(state: PersistedView, at: int)
    requires
        distinct_keys(state.outputs),
    ensures
        0 <= at < state.outputs.len() && state.primary == Some(state.outputs[at].0) ==> {
            let primary = state.outputs[at].1;
            let first = state.outputs[0].1;
            &&& primary.len() > 0 && first.len() > 0 ==> start_choices(state) == seq![
                primary,
                first,
            ]
            &&& primary.len() > 0 && first.len() == 0 ==> start_choices(state) == seq![primary]
            &&& primary.len() == 0 && first.len() > 0 ==> start_choices(state) == seq![first]
            &&& primary.len() == 0 && first.len() == 0 ==> start_choices(state).len() == 0
        },
        state.outputs.len() > 0 && (state.primary is None || forall|i: int|
            0 <= i < state.outputs.len() ==> (#[trigger] state.outputs[i]).0 != state.primary->0)
            ==> {
            &&& state.outputs[0].1.len() > 0 ==> start_choices(state) == seq![state.outputs[0].1]
            &&& state.outputs[0].1.len() == 0 ==> start_choices(state).len() == 0
        },
        state.outputs.len() == 0 ==> start_choices(state).len() == 0,
{
    if let Some(name) = state.primary {
        lemma_map_of(state.outputs, name);
        if 0 <= at < state.outputs.len() && state.outputs[at].0 == name {
            assert(has_key(state.outputs, name));
            assert(primary_choice(state) == Some(state.outputs[at].1));
        }
    }
}

/// The wallpapers to try at a start, in order.
pub fn startup_candidates(
    initial: Option<FilePath>,
    persisted: Option<&PersistedWallpaperState>,
) -> (paths: Vec<FilePath>)
    ensures
        paths@.map_values(|path: FilePath| path@) == start_candidates(
            path_view(initial),
            persisted_view(persisted),
        ),
        initial matches Some(asked) ==> paths@.len() > 0 && paths@[0]@ == asked@,
{
    let ghost shown = |path: FilePath| path@;
    let ghost first: Seq<Seq<u8>> = match path_view(initial) {
        Some(path) => seq![path],
        None => seq![],
    };
    let mut paths: Vec<FilePath> = Vec::new();
    if let Some(path) = initial {
        paths.push(path);
    }
    assert(paths@.map_values(shown) =~= first);
    let ghost tried = start_candidates(path_view(initial), persisted_view(persisted));
    if let Some(state) = persisted {
        let ghost before = paths@;
        let mut rest = state.startup_choices();
        let ghost added = rest@;
        paths.append(&mut rest);
        assert(paths@.map_values(shown) =~= before.map_values(shown) + added.map_values(shown));
    }
    assert(paths@.map_values(shown) =~= tried);
    assert(initial is Some ==> tried.len() > 0 && paths@.map_values(shown)[0] == tried[0]);
    paths
}

/// Whether the outcome at a place is the first path among the outcomes.
pub open spec fn is_first_path(outcomes: Seq<Option<FilePath>>, at: int) -> bool {
    &&& 0 <= at < outcomes.len()
    &&& outcomes[at] is Some
    &&& forall|i: int| 0 <= i < at ==> #[trigger] outcomes[i] is None
}

/// Whether none of the outcomes is a path.
pub open spec fn none_resolved(outcomes: Seq<Option<FilePath>>) -> bool {
    forall|i: int| 0 <= i < outcomes.len() ==> #[trigger] outcomes[i] is None
}

/// There is only one first path among outcomes, and it is the first that is
/// there.
pub proof fn lemma_first_path_is_the_first(outcomes: Seq<Option<FilePath>>, at: int, other: int)
    requires
        0 <= at < outcomes.len(),
        outcomes[at] is Some,
        forall|i: int| 0 <= i < at ==> #[trigger] outcomes[i] is None,
    ensures
        is_first_path(outcomes, other) <==> other == at,
        !none_resolved(outcomes),
{
}

/// Where every outcome is missing, none resolved, and there is no first path.
pub proof fn lemma_missing_outcomes_hold_no_path(outcomes: Seq<Option<FilePath>>, at: int)
    requires
        forall|i: int| 0 <= i < outcomes.len() ==> #[trigger] outcomes[i] is None,
    ensures
        none_resolved(outcomes),
        !is_first_path(outcomes, at),
{
}

/// The first path among what came of trying wallpapers in order.
pub fn first_resolved(outcomes: Vec<Option<FilePath>>) -> (path: Option<FilePath>)
    ensures
        path is None <==> none_resolved(outcomes@),
        path matches Some(found) ==> exists|at: int| #[trigger]
            is_first_path(outcomes@, at) && outcomes@[at] == Some(found),
{
    let ghost all = outcomes@;
    let mut rest = outcomes;
    let ghost mut done: int = 0;
    while rest.len() > 0
        invariant
            all == outcomes@,
            0 <= done <= all.len(),
            rest@ == all.skip(done),
            forall|i: int| 0 <= i < done ==> #[trigger] all[i] is None,
        decreases rest.len(),
    {
        assert(rest@[0] == all[done]);
        let outcome = rest.remove(0);
        if let Some(path) = outcome {
            assert(is_first_path(all, done));
            return Some(path);
        }
        proof {
            done = done + 1;
        }
        assert(rest@ =~= all.skip(done));
    }
    None
}

/// The wallpaper to start with: the first that resolved of those that were
/// tried, else the catalog's, which is `listed` where it resolved.
pub fn start_choice(outcomes: Vec<Option<FilePath>>, listed: Option<FilePath>) -> (path: Option<
    FilePath,
>)
    ensures
        none_resolved(outcomes@) ==> path == listed,
        !none_resolved(outcomes@) ==> exists|at: int| #[trigger]
            is_first_path(outcomes@, at) && outcomes@[at] == path,
{
    match first_resolved(outcomes) {
        Some(path) => Some(path),
        None => listed,
    }
}

} // verus!
