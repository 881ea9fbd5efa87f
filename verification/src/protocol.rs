//! The requests that come in over the control socket, what they are answered,
//! and the requests that the command line sends.

use vstd::prelude::*;
use vstd::utf8::*;

use crate::catalog::{
    bytes_of, entries_of, entry_views, error_text, extracted_palette, is_decodable, is_sorted_form,
    scheme_map, EntryView, PaletteView,
};
use crate::catalog::{FoundFile, ResolveError, WallpaperEntry};
use crate::daemon::{accent_of, with_image, with_manual, with_mode, StateView};
use crate::daemon::{ColorError, ImageError, WallpaperState};
use crate::json::{
    json_lookup, json_members, json_text, nests_at_most, no_members, text_under, JsonView,
    READABLE_DEPTH,
};
use crate::json::{new_object, print_object, read_member, set_member, Json, JsonObject};
use crate::path::{path_view, FilePath};
use crate::text::{same_text, text_view, to_text_lossy};
use crate::text_map::{map_of, TextMap};
use crate::theme::is_hex_color_text;

verus! {

/// A request as it came in.
#[derive(Debug)]
pub struct SocketCommand {
    pub cmd: String,
    pub path: Option<String>,
    pub mode: Option<String>,
    pub accent: Option<String>,
}

/// What a request asks of the daemon.
#[derive(Debug)]
pub enum Action {
    /// Show the wallpaper under a path.
    SetImage(FilePath),
    /// List the catalog.
    List,
    /// Tell what is shown.
    Current,
    /// Set the colour mode, and the accent of the manual one.
    SetColor(String, Option<String>),
    /// Nothing: the request is refused with a message.
    Refuse(String),
}

/// What an `Action` holds.
pub enum ActionView {
    SetImage(Seq<u8>),
    List,
    Current,
    SetColor(Seq<char>, Option<Seq<char>>),
    Refuse(Seq<char>),
}

impl View for Action {
    type V = ActionView;

    open spec fn view(&self) -> ActionView {
        match self {
            Action::SetImage(path) => ActionView::SetImage(path@),
            Action::List => ActionView::List,
            Action::Current => ActionView::Current,
            Action::SetColor(mode, accent) => ActionView::SetColor(mode@, text_view(*accent)),
            Action::Refuse(message) => ActionView::Refuse(message@),
        }
    }
}

/// What a request asks of the daemon.
pub open spec fn action_of(
    cmd: Seq<char>,
    path: Option<Seq<char>>,
    mode: Option<Seq<char>>,
    accent: Option<Seq<char>>,
) -> ActionView {
    if cmd == "set"@ {
        match path {
            Some(text) => ActionView::SetImage(encode_utf8(text)),
            None => ActionView::Refuse("missing path"@),
        }
    } else if cmd == "list"@ {
        ActionView::List
    } else if cmd == "current"@ {
        ActionView::Current
    } else if cmd == "color"@ {
        match mode {
            Some(text) => ActionView::SetColor(text, accent),
            None => ActionView::Refuse("missing color mode"@),
        }
    } else {
        ActionView::Refuse("unknown command"@)
    }
}

/// What a request asks of the daemon.
pub fn plan_command(command: SocketCommand) -> (action: Action)
    ensures
        action@ == action_of(
            command.cmd@,
            text_view(command.path),
            text_view(command.mode),
            text_view(command.accent),
        ),
{
    let cmd = command.cmd.as_str();
    if same_text(cmd, "set") {
        match command.path {
            Some(path) => Action::SetImage(FilePath::of(path.as_str())),
            None => Action::Refuse("missing path".to_owned()),
        }
    } else if same_text(cmd, "list") {
        Action::List
    } else if same_text(cmd, "current") {
        Action::Current
    } else if same_text(cmd, "color") {
        match command.mode {
            Some(mode) => Action::SetColor(mode, command.accent),
            None => Action::Refuse("missing color mode".to_owned()),
        }
    } else {
        Action::Refuse("unknown command".to_owned())
    }
}

/// The answer that says that all went well.
pub open spec fn ok_members() -> Map<Seq<char>, JsonView> {
    no_members().insert("status"@, JsonView::Text("ok"@))
}

/// The answer that says what went wrong.
pub open spec fn error_members(message: Seq<char>) -> Map<Seq<char>, JsonView> {
    no_members().insert("status"@, JsonView::Text("error"@)).insert(
        "message"@,
        JsonView::Text(message),
    )
}

/// One wallpaper in an answer.
pub open spec fn entry_members(entry: EntryView) -> Map<Seq<char>, JsonView> {
    no_members().insert("name"@, JsonView::Text(entry.name)).insert(
        "path"@,
        JsonView::Text(entry.path),
    ).insert("width"@, JsonView::Number(entry.width)).insert(
        "height"@,
        JsonView::Number(entry.height),
    )
}

/// The answer that lists the catalog.
pub open spec fn list_members(entries: Seq<EntryView>) -> Map<Seq<char>, JsonView> {
    ok_members().insert(
        "entries"@,
        JsonView::List(entries.map_values(|entry: EntryView| entry_members(entry))),
    )
}

/// A map from texts to texts as an object.
pub open spec fn text_members(map: Map<Seq<char>, Seq<char>>) -> Map<Seq<char>, JsonView> {
    map.map_values(|text: Seq<char>| JsonView::Text(text))
}

/// A text, or null where it is missing.
pub open spec fn text_or_null(text: Option<Seq<char>>) -> JsonView {
    match text {
        Some(found) => JsonView::Text(found),
        None => JsonView::Null,
    }
}

/// The wallpaper that is shown, as text.
pub open spec fn shown_text(state: StateView) -> Option<Seq<char>> {
    match state.image_path {
        Some(path) => Some(decode_utf8(path)),
        None => None,
    }
}

/// The answer that tells what is shown.
pub open spec fn current_members(state: StateView) -> Map<Seq<char>, JsonView> {
    ok_members().insert("path"@, text_or_null(shown_text(state))).insert(
        "color_mode"@,
        JsonView::Text(state.color_mode),
    ).insert("accent"@, JsonView::Text(accent_of(state))).insert(
        "palette"@,
        match state.palette {
            Some(palette) => JsonView::Object(text_members(scheme_map(palette.dark))),
            None => JsonView::Null,
        },
    )
}

fn put_text(object: &mut JsonObject, key: &str, text: &str)
    ensures
        json_members(*final(object)) == json_members(*old(object)).insert(
            key@,
            JsonView::Text(text@),
        ),
{
    set_member(object, key.to_owned(), Json::Text(text.to_owned()));
}

fn ok_object() -> (object: JsonObject)
    ensures
        json_members(object) == ok_members(),
{
    let mut object = new_object();
    put_text(&mut object, "status", "ok");
    object
}

/// The answer that says that all went well.
pub fn ok_reply() -> (text: String)
    ensures
        text@ == json_text(ok_members()),
        json_lookup(text@, "status"@) == Some("ok"@),
{
    let object = ok_object();
    assert(nests_at_most(ok_members(), READABLE_DEPTH as nat));
    assert(text_under(ok_members(), "status"@) == Some("ok"@));
    print_object(&object)
}

/// The answer that says what went wrong.
pub fn error_reply(message: &str) -> (text: String)
    ensures
        text@ == json_text(error_members(message@)),
        json_lookup(text@, "status"@) == Some("error"@),
        json_lookup(text@, "message"@) == Some(message@),
{
    let mut object = new_object();
    put_text(&mut object, "status", "error");
    put_text(&mut object, "message", message);
    proof {
        lemma_keys_differ();
        assert(nests_at_most(error_members(message@), READABLE_DEPTH as nat));
        assert(text_under(json_members(object), "status"@) == Some("error"@));
        assert(text_under(json_members(object), "message"@) == Some(message@));
    }
    print_object(&object)
}

/// No two keys of an answer or of a request are the same.
proof fn lemma_keys_differ()
    ensures
        "cmd"@ != "path"@,
        "cmd"@ != "mode"@,
        "cmd"@ != "accent"@,
        "path"@ != "mode"@,
        "mode"@ != "accent"@,
        "status"@ != "message"@,
        "status"@ != "path"@,
        "status"@ != "color_mode"@,
        "status"@ != "accent"@,
        "status"@ != "palette"@,
        "path"@ != "color_mode"@,
        "path"@ != "accent"@,
        "path"@ != "palette"@,
        "color_mode"@ != "accent"@,
        "color_mode"@ != "palette"@,
        "accent"@ != "palette"@,
{
    reveal_strlit("cmd");
    reveal_strlit("mode");
    reveal_strlit("status");
    reveal_strlit("message");
    reveal_strlit("path");
    reveal_strlit("color_mode");
    reveal_strlit("accent");
    reveal_strlit("palette");
    assert("status"@[0] == 's' && "accent"@[0] == 'a' && "path"@[0] == 'p' && "mode"@[0] == 'm');
    assert("cmd"@.len() == 3 && "mode"@.len() == 4);
    assert("message"@.len() == 7 && "path"@.len() == 4 && "color_mode"@.len() == 10
        && "palette"@.len() == 7 && "status"@.len() == 6 && "accent"@.len() == 6);
}

/// No two commands are the same.
proof fn lemma_commands_differ()
    ensures
        "set"@ != "list"@,
        "set"@ != "current"@,
        "set"@ != "color"@,
        "list"@ != "current"@,
        "list"@ != "color"@,
        "current"@ != "color"@,
{
    reveal_strlit("set");
    reveal_strlit("list");
    reveal_strlit("current");
    reveal_strlit("color");
    assert("set"@.len() == 3 && "list"@.len() == 4 && "current"@.len() == 7 && "color"@.len() == 5);
}

/// Each command asks for its own action, and takes from the request what that
/// action needs; without it, and under any other name, the request is refused.
pub proof fn lemma_commands_ask_for_their_actions(
    cmd: Seq<char>,
    path: Option<Seq<char>>,
    mode: Option<Seq<char>>,
    accent: Option<Seq<char>>,
)
    ensures
        path is Some ==> action_of("set"@, path, mode, accent) == ActionView::SetImage(
            encode_utf8(path->0),
        ),
        path is None ==> action_of("set"@, path, mode, accent) == ActionView::Refuse(
            "missing path"@,
        ),
        action_of("list"@, path, mode, accent) == ActionView::List,
        action_of("current"@, path, mode, accent) == ActionView::Current,
        mode is Some ==> action_of("color"@, path, mode, accent) == ActionView::SetColor(
            mode->0,
            accent,
        ),
        mode is None ==> action_of("color"@, path, mode, accent) == ActionView::Refuse(
            "missing color mode"@,
        ),
        cmd != "set"@ && cmd != "list"@ && cmd != "current"@ && cmd != "color"@ ==> action_of(
            cmd,
            path,
            mode,
            accent,
        ) == ActionView::Refuse("unknown command"@),
{
    lemma_commands_differ();
}

/// An answer that all went well holds that and nothing else; one that says what
/// went wrong holds the message beside.
pub proof fn lemma_short_answers(message: Seq<char>)
    ensures
        ok_members()["status"@] == JsonView::Text("ok"@),
        forall|key: Seq<char>| #[trigger]
            ok_members().contains_key(key) <==> {
                ||| key == "status"@
            },
        error_members(message)["status"@] == JsonView::Text("error"@),
        error_members(message)["message"@] == JsonView::Text(message),
        forall|key: Seq<char>| #[trigger]
            error_members(message).contains_key(key) <==> {
                ||| key == "status"@
                ||| key == "message"@
            },
{
    lemma_keys_differ();
}

/// A wallpaper in an answer tells its name, path, width and height, each as it
/// is.
pub proof fn lemma_entry_tells_the_wallpaper(entry: EntryView)
    ensures
        entry_members(entry)["name"@] == JsonView::Text(entry.name),
        entry_members(entry)["path"@] == JsonView::Text(entry.path),
        entry_members(entry)["width"@] == JsonView::Number(entry.width),
        entry_members(entry)["height"@] == JsonView::Number(entry.height),
        forall|key: Seq<char>| #[trigger]
            entry_members(entry).contains_key(key) <==> {
                ||| key == "name"@
                ||| key == "path"@
                ||| key == "width"@
                ||| key == "height"@
            },
{
    reveal_strlit("name");
    reveal_strlit("path");
    reveal_strlit("width");
    reveal_strlit("height");
    assert("name"@.len() == 4 && "name"@[0] == 'n');
    assert("path"@.len() == 4 && "path"@[0] == 'p');
    assert("width"@.len() == 5);
    assert("height"@.len() == 6);
}

/// The answer that lists the catalog holds one item for each wallpaper, in the
/// catalog's order, beside the word that all went well.
pub proof fn lemma_list_tells_every_entry(entries: Seq<EntryView>)
    ensures
        list_members(entries)["status"@] == JsonView::Text("ok"@),
        list_members(entries)["entries"@] is List,
        (list_members(entries)["entries"@]->List_0).len() == entries.len(),
        forall|i: int|
            0 <= i < entries.len() ==> #[trigger] (list_members(entries)["entries"@]->List_0)[i]
                == entry_members(entries[i]),
        forall|key: Seq<char>| #[trigger]
            list_members(entries).contains_key(key) <==> {
                ||| key == "status"@
                ||| key == "entries"@
            },
{
    reveal_strlit("status");
    reveal_strlit("entries");
    assert("status"@.len() == 6);
    assert("entries"@.len() == 7);
}

/// A map as an object has the same keys, each with its text.
pub proof fn lemma_object_holds_the_map(map: Map<Seq<char>, Seq<char>>, key: Seq<char>)
    ensures
        text_members(map).contains_key(key) <==> map.contains_key(key),
        map.contains_key(key) ==> text_members(map)[key] == JsonView::Text(map[key]),
{
}

/// The answer about what is shown tells the wallpaper's path or null, the colour
/// mode, the accent in use, and the dark scheme or null.
pub proof fn lemma_current_tells_the_state(state: StateView, path: Seq<char>)
    ensures
        current_members(state)["status"@] == JsonView::Text("ok"@),
        state.image_path == Some(encode_utf8(path)) ==> current_members(state)["path"@]
            == JsonView::Text(path),
        state.image_path is None ==> current_members(state)["path"@] == JsonView::Null,
        current_members(state)["color_mode"@] == JsonView::Text(state.color_mode),
        current_members(state)["accent"@] == JsonView::Text(accent_of(state)),
        state.palette is Some ==> current_members(state)["palette"@] == JsonView::Object(
            text_members(scheme_map(state.palette->0.dark)),
        ),
        state.palette is None ==> current_members(state)["palette"@] == JsonView::Null,
        forall|key: Seq<char>| #[trigger]
            current_members(state).contains_key(key) <==> {
                ||| key == "status"@
                ||| key == "path"@
                ||| key == "color_mode"@
                ||| key == "accent"@
                ||| key == "palette"@
            },
{
    lemma_keys_differ();
    encode_utf8_decode_utf8(path);
}

/// A request names its command and holds what the command needs, and nothing
/// else; an accent that is missing is sent as null.
pub proof fn lemma_requests_hold_their_arguments(
    path: Seq<char>,
    cmd: Seq<char>,
    mode: Seq<char>,
    accent: Option<Seq<char>>,
)
    ensures
        set_members(path)["cmd"@] == JsonView::Text("set"@),
        set_members(path)["path"@] == JsonView::Text(path),
        forall|key: Seq<char>| #[trigger]
            set_members(path).contains_key(key) <==> {
                ||| key == "cmd"@
                ||| key == "path"@
            },
        bare_members(cmd)["cmd"@] == JsonView::Text(cmd),
        forall|key: Seq<char>| #[trigger]
            bare_members(cmd).contains_key(key) <==> {
                ||| key == "cmd"@
            },
        color_members(mode, accent)["cmd"@] == JsonView::Text("color"@),
        color_members(mode, accent)["mode"@] == JsonView::Text(mode),
        accent is Some ==> color_members(mode, accent)["accent"@] == JsonView::Text(accent->0),
        accent is None ==> color_members(mode, accent)["accent"@] == JsonView::Null,
        forall|key: Seq<char>| #[trigger]
            color_members(mode, accent).contains_key(key) <==> {
                ||| key == "cmd"@
                ||| key == "mode"@
                ||| key == "accent"@
            },
{
    lemma_keys_differ();
}

/// A client gets the daemon's answer as it is; without one it is told why.
pub proof fn lemma_client_gets_the_answer(reason: String, answer: String)
    ensures
        client_line(ClientOutcome::Answered(answer)) == answer@,
        client_line(ClientOutcome::Malformed(reason)) == json_text(error_members(reason@)),
        client_line(ClientOutcome::Unavailable)
            == "{\"status\":\"error\",\"message\":\"daemon unavailable\"}"@,
        client_line(ClientOutcome::Unanswered)
            == "{\"status\":\"error\",\"message\":\"no response\"}"@,
{
}

/// What is seen of an action is what it holds.
pub proof fn lemma_action_is_seen_as_it_is(
    path: FilePath,
    mode: String,
    accent: Option<String>,
    message: String,
)
    ensures
        Action::SetImage(path)@ == ActionView::SetImage(path@),
        Action::List@ == ActionView::List,
        Action::Current@ == ActionView::Current,
        Action::SetColor(mode, accent)@ == ActionView::SetColor(mode@, text_view(accent)),
        Action::Refuse(message)@ == ActionView::Refuse(message@),
{
}

/// The path that an answer tells is the text under `path`, byte for byte, and
/// none where there is no text.
pub proof fn lemma_told_path_is_the_text(answer: Seq<char>)
    ensures
        json_lookup(answer, "path"@) is Some ==> told_path(answer) == Some(
            encode_utf8(json_lookup(answer, "path"@)->0),
        ),
        json_lookup(answer, "path"@) is None ==> told_path(answer) is None,
{
}

/// The answer to a request, and whether the request was followed, so that the
/// state is to be written.
#[derive(Debug, PartialEq, Eq)]
pub struct Reply {
    pub text: String,
    pub followed: bool,
}

/// The answer to a request for a wallpaper, and what it does to the state:
/// the wallpaper is shown, or the answer says why not and nothing changes.
/// There is no answer where the file does not decode.
pub fn set_reply(
    state: &mut WallpaperState,
    resolved: Result<FilePath, ResolveError>,
    data: Option<&Vec<u8>>,
) -> (reply: Option<Reply>)
    ensures
        reply is None <==> resolved is Ok && !is_decodable(bytes_of(data)),
        reply matches Some(made) ==> made.followed == (resolved is Ok),
        resolved is Ok && is_decodable(bytes_of(data)) ==> reply->0.text@ == json_text(ok_members())
            && final(state)@ == with_image(
            old(state)@,
            resolved->Ok_0@,
            extracted_palette(bytes_of(data)),
        ),
        resolved is Err ==> reply->0.text@ == json_text(
            error_members(error_text(resolved->Err_0)),
        ),
        reply is None || !reply->0.followed ==> final(state)@ == old(state)@,
{
    match state.set_image(resolved, data) {
        Ok(_) => Some(Reply { text: ok_reply(), followed: true }),
        Err(ImageError::Path(error)) => Some(
            Reply { text: error_reply(error.message().as_str()), followed: false },
        ),
        Err(ImageError::Undecodable) => None,
    }
}

/// The answer to a request for colours, and what it does to the state: a
/// request that is refused changes nothing, and is answered like one that is
/// not. There is no answer where the wallpaper's colours are needed and its
/// file does not decode.
pub fn color_reply(
    state: &mut WallpaperState,
    mode: String,
    accent: Option<String>,
    data: Option<&Vec<u8>>,
) -> (reply: Option<Reply>)
    ensures
        reply is None <==> mode@ == "auto"@ && old(state)@.image_path is Some && !is_decodable(
            bytes_of(data),
        ),
        reply matches Some(made) ==> made.text@ == json_text(ok_members()),
        reply matches Some(made) ==> made.followed == (mode@ == "manual"@ ==> text_view(accent)
            is Some && is_hex_color_text(text_view(accent)->0)),
        reply is Some && reply->0.followed ==> final(state)@ == if mode@ == "manual"@ {
            with_manual(old(state)@, text_view(accent)->0)
        } else {
            with_mode(old(state)@, mode@, extracted_palette(bytes_of(data)))
        },
        reply is None || !reply->0.followed ==> final(state)@ == old(state)@,
{
    proof {
        reveal_strlit("manual");
        reveal_strlit("auto");
        assert("manual"@.len() != "auto"@.len());
    }
    match state.set_color(mode, accent, data) {
        Ok(_) => Some(Reply { text: ok_reply(), followed: true }),
        Err(ColorError::Undecodable) => None,
        Err(_) => Some(Reply { text: ok_reply(), followed: false }),
    }
}

fn entry_object(entry: &WallpaperEntry) -> (object: JsonObject)
    ensures
        json_members(object) == entry_members(entry@),
{
    let mut object = new_object();
    put_text(&mut object, "name", entry.name.as_str());
    put_text(&mut object, "path", entry.path.as_str());
    set_member(&mut object, "width".to_owned(), Json::Number(entry.width));
    set_member(&mut object, "height".to_owned(), Json::Number(entry.height));
    object
}

/// The answer that lists a catalog.
pub fn entries_reply(entries: &Vec<WallpaperEntry>) -> (text: String)
    ensures
        text@ == json_text(list_members(entry_views(entries@))),
{
    let mut items: Vec<JsonObject> = Vec::new();
    let ghost shown = |object: JsonObject| json_members(object);
    let ghost goal = entry_views(entries@).map_values(|entry: EntryView| entry_members(entry));
    let mut i: usize = 0;
    while i < entries.len()
        invariant
            i <= entries.len(),
            goal == entry_views(entries@).map_values(|entry: EntryView| entry_members(entry)),
            shown == (|object: JsonObject| json_members(object)),
            items@.map_values(shown) == goal.take(i as int),
        decreases entries.len() - i,
    {
        let ghost before = items@;
        let item = entry_object(&entries[i]);
        let ghost made = json_members(item);
        items.push(item);
        assert(items@.map_values(shown) =~= before.map_values(shown).push(made));
        assert(goal[i as int] == made);
        assert(goal.take(i + 1) =~= goal.take(i as int).push(made));
        i = i + 1;
        assert(items@.map_values(shown) =~= goal.take(i as int));
    }
    assert(items@.map_values(shown) =~= goal);
    let mut object = ok_object();
    set_member(&mut object, "entries".to_owned(), Json::List(items));
    print_object(&object)
}

/// The answer that lists the catalog of what was found in the wallpaper
/// directory.
pub fn list_reply(found: &Vec<FoundFile>) -> (text: String)
    ensures
        exists|entries: Seq<EntryView>| #[trigger]
            is_sorted_form(entries_of(found@), entries) && text@ == json_text(list_members(entries)),
{
    let entries = crate::catalog::list(found);
    entries_reply(&entries)
}

fn text_object(map: &TextMap) -> (object: JsonObject)
    ensures
        json_members(object) == text_members(map.map()),
{
    let mut object = new_object();
    let mut i: usize = 0;
    assert(json_members(object) =~= text_members(map_of(map@.take(0))));
    while i < map.len()
        invariant
            i <= map@.len(),
            json_members(object) == text_members(map_of(map@.take(i as int))),
        decreases map@.len() - i,
    {
        put_text(&mut object, map.key(i).as_str(), map.value(i).as_str());
        assert(map@.take(i + 1).drop_last() =~= map@.take(i as int));
        i = i + 1;
        assert(json_members(object) =~= text_members(map_of(map@.take(i as int))));
    }
    assert(map@.take(map@.len() as int) =~= map@);
    object
}

/// The answer that tells what is shown. A path that is not UTF-8 cannot be
/// told.
pub fn current_reply(state: &WallpaperState) -> (text: String)
    requires
        state@.image_path matches Some(path) ==> valid_utf8(path),
    ensures
        text@ == json_text(current_members(state@)),
        json_lookup(text@, "path"@) == shown_text(state@),
        json_lookup(text@, "color_mode"@) == Some(state@.color_mode),
        json_lookup(text@, "accent"@) == Some(accent_of(state@)),
{
    let mut object = ok_object();
    match &state.image_path {
        Some(path) => {
            put_text(&mut object, "path", to_text_lossy(path.bytes.as_slice()).as_str());
        },
        None => {
            set_member(&mut object, "path".to_owned(), Json::Null);
        },
    }
    put_text(&mut object, "color_mode", state.color_mode.as_str());
    put_text(&mut object, "accent", state.accent().as_str());
    let palette = match &state.palette {
        Some(palette) => Json::Object(text_object(&palette.dark.to_map())),
        None => Json::Null,
    };
    set_member(&mut object, "palette".to_owned(), palette);
    proof {
        lemma_keys_differ();
        lemma_current_is_shallow(state@);
        assert(json_members(object) == current_members(state@));
        assert(text_under(json_members(object), "path"@) == shown_text(state@));
        assert(text_under(json_members(object), "color_mode"@) == Some(state@.color_mode));
        assert(text_under(json_members(object), "accent"@) == Some(accent_of(state@)));
    }
    print_object(&object)
}

proof fn lemma_current_is_shallow(state: StateView)
    ensures
        nests_at_most(current_members(state), READABLE_DEPTH as nat),
{
    if let Some(palette) = state.palette {
        assert(nests_at_most(text_members(scheme_map(palette.dark)), 15));
    }
}

/// What became of a client's line.
#[derive(Debug)]
pub enum ClientOutcome {
    /// The line is no request, for the reason given.
    Malformed(String),
    /// The daemon no longer takes requests.
    Unavailable,
    /// The daemon took the request and did not answer.
    Unanswered,
    /// The daemon's answer.
    Answered(String),
}

/// The line that a client gets back.
pub open spec fn client_line(outcome: ClientOutcome) -> Seq<char> {
    match outcome {
        ClientOutcome::Malformed(reason) => json_text(error_members(reason@)),
        ClientOutcome::Unavailable => "{\"status\":\"error\",\"message\":\"daemon unavailable\"}"@,
        ClientOutcome::Unanswered => "{\"status\":\"error\",\"message\":\"no response\"}"@,
        ClientOutcome::Answered(text) => text@,
    }
}

/// The line that a client gets back.
pub fn client_reply(outcome: ClientOutcome) -> (line: String)
    ensures
        line@ == client_line(outcome),
{
    match outcome {
        ClientOutcome::Malformed(reason) => error_reply(reason.as_str()),
        ClientOutcome::Unavailable => "{\"status\":\"error\",\"message\":\"daemon unavailable\"}".to_owned(),
        ClientOutcome::Unanswered => "{\"status\":\"error\",\"message\":\"no response\"}".to_owned(),
        ClientOutcome::Answered(text) => text,
    }
}

/// What the command line asks for.
#[derive(Debug)]
pub enum Command {
    /// Run the daemon, with a wallpaper and for an output where they are
    /// given.
    Run(Option<FilePath>, Option<String>),
    /// Show a wallpaper.
    SetImage(FilePath),
    /// List the catalog.
    List,
    /// Tell what is shown.
    Current,
    /// Let the user pick a wallpaper.
    Select,
    /// Set the colour mode, and the accent of the manual one.
    Color(String, Option<String>),
}

/// What the program does for a command.
#[derive(Debug)]
pub enum ClientStep {
    /// Runs the daemon.
    RunDaemon(Option<FilePath>, Option<String>),
    /// Sends a request to the daemon, and prints the answer.
    Send(String),
    /// Opens the picker, and asks for what the user picked.
    Pick,
}

/// The request for a wallpaper.
pub open spec fn set_members(path: Seq<char>) -> Map<Seq<char>, JsonView> {
    no_members().insert("cmd"@, JsonView::Text("set"@)).insert("path"@, JsonView::Text(path))
}

/// A request without arguments.
pub open spec fn bare_members(cmd: Seq<char>) -> Map<Seq<char>, JsonView> {
    no_members().insert("cmd"@, JsonView::Text(cmd))
}

/// The request for colours.
pub open spec fn color_members(mode: Seq<char>, accent: Option<Seq<char>>) -> Map<
    Seq<char>,
    JsonView,
> {
    bare_members("color"@).insert("mode"@, JsonView::Text(mode)).insert(
        "accent"@,
        text_or_null(accent),
    )
}

/// What the daemon is asked by the text of a request.
pub open spec fn asked_by(text: Seq<char>) -> ActionView {
    action_of(
        json_lookup(text, "cmd"@)->0,
        json_lookup(text, "path"@),
        json_lookup(text, "mode"@),
        json_lookup(text, "accent"@),
    )
}

/// What the daemon is asked by a request with the given keys and values.
proof fn lemma_asked_by(members: Map<Seq<char>, JsonView>, text: Seq<char>)
    requires
        forall|key: Seq<char>| json_lookup(text, key) == #[trigger] text_under(members, key),
    ensures
        asked_by(text) == action_of(
            text_under(members, "cmd"@)->0,
            text_under(members, "path"@),
            text_under(members, "mode"@),
            text_under(members, "accent"@),
        ),
{
}

/// The request for a wallpaper.
pub fn set_request(path: &str) -> (text: String)
    ensures
        text@ == json_text(set_members(path@)),
        asked_by(text@) == ActionView::SetImage(encode_utf8(path@)),
{
    let mut object = new_object();
    put_text(&mut object, "cmd", "set");
    put_text(&mut object, "path", path);
    let text = print_object(&object);
    proof {
        lemma_keys_differ();
        assert(nests_at_most(set_members(path@), READABLE_DEPTH as nat));
        lemma_asked_by(set_members(path@), text@);
    }
    text
}

/// A request without arguments.
pub fn bare_request(cmd: &str) -> (text: String)
    ensures
        text@ == json_text(bare_members(cmd@)),
        asked_by(text@) == action_of(cmd@, None, None, None),
{
    let mut object = new_object();
    put_text(&mut object, "cmd", cmd);
    let text = print_object(&object);
    proof {
        lemma_keys_differ();
        assert(nests_at_most(bare_members(cmd@), READABLE_DEPTH as nat));
        lemma_asked_by(bare_members(cmd@), text@);
    }
    text
}

fn color_request(mode: &str, accent: &Option<String>) -> (text: String)
    ensures
        text@ == json_text(color_members(mode@, text_view(*accent))),
        asked_by(text@) == ActionView::SetColor(mode@, text_view(*accent)),
{
    let mut object = new_object();
    put_text(&mut object, "cmd", "color");
    put_text(&mut object, "mode", mode);
    match accent {
        Some(accent) => {
            put_text(&mut object, "accent", accent.as_str());
        },
        None => {
            set_member(&mut object, "accent".to_owned(), Json::Null);
        },
    }
    let text = print_object(&object);
    proof {
        let members = color_members(mode@, text_view(*accent));
        lemma_keys_differ();
        lemma_commands_differ();
        assert(nests_at_most(members, READABLE_DEPTH as nat));
        lemma_asked_by(members, text@);
    }
    text
}

/// What the program does for a command. `top_level_output` is the output that
/// is named before the command; one that is named with it comes first. The
/// path of a wallpaper to show must be UTF-8, since a request is.
pub fn plan_client(command: Command, top_level_output: Option<String>) -> (step: ClientStep)
    requires
        command matches Command::SetImage(path) ==> valid_utf8(path@),
    ensures
        match command {
            Command::Run(image, output) => step matches ClientStep::RunDaemon(
                run_image,
                run_output,
            ) && run_image == image && run_output == if output is Some {
                output
            } else {
                top_level_output
            },
            Command::SetImage(path) => step matches ClientStep::Send(text) && text@ == json_text(
                set_members(decode_utf8(path@)),
            ) && asked_by(text@) == ActionView::SetImage(path@),
            Command::List => step matches ClientStep::Send(text) && text@ == json_text(
                bare_members("list"@),
            ) && asked_by(text@) == ActionView::List,
            Command::Current => step matches ClientStep::Send(text) && text@ == json_text(
                bare_members("current"@),
            ) && asked_by(text@) == ActionView::Current,
            Command::Select => step is Pick,
            Command::Color(mode, accent) => step matches ClientStep::Send(text) && text@
                == json_text(color_members(mode@, text_view(accent))) && asked_by(text@)
                == ActionView::SetColor(mode@, text_view(accent)),
        },
{
    proof {
        lemma_commands_differ();
        if command is SetImage {
            decode_utf8_encode_utf8(command->SetImage_0@);
        }
    }
    match command {
        Command::Run(image, output) => {
            let output = match output {
                Some(name) => Some(name),
                None => top_level_output,
            };
            ClientStep::RunDaemon(image, output)
        },
        Command::SetImage(path) => ClientStep::Send(
            set_request(to_text_lossy(path.bytes.as_slice()).as_str()),
        ),
        Command::List => ClientStep::Send(bare_request("list")),
        Command::Current => ClientStep::Send(bare_request("current")),
        Command::Select => ClientStep::Pick,
        Command::Color(mode, accent) => ClientStep::Send(color_request(mode.as_str(), &accent)),
    }
}

/// Once a wallpaper is set, the answer about what is shown names it, the colour
/// mode that was in use, and the palette's dark scheme.
pub proof fn lemma_current_tells_what_was_set(
    state: StateView,
    path: Seq<u8>,
    palette: PaletteView,
)
    ensures
        shown_text(with_image(state, path, palette)) == Some(decode_utf8(path)),
        current_members(with_image(state, path, palette))["color_mode"@] == JsonView::Text(
            state.color_mode,
        ),
        current_members(with_image(state, path, palette))["palette"@] == JsonView::Object(
            text_members(scheme_map(palette.dark)),
        ),
{
    lemma_keys_differ();
}

/// A client that asks what is shown is told the path of the wallpaper, byte
/// for byte.
pub proof fn lemma_client_learns_the_path(state: StateView, answer: Seq<char>)
    requires
        state.image_path matches Some(path) ==> valid_utf8(path),
        json_lookup(answer, "path"@) == shown_text(state),
    ensures
        told_path(answer) == state.image_path,
{
    if let Some(path) = state.image_path {
        decode_utf8_encode_utf8(path);
    }
}

/// The path of the wallpaper that an answer says is shown.
pub open spec fn told_path(answer: Seq<char>) -> Option<Seq<u8>> {
    match json_lookup(answer, "path"@) {
        Some(path) => Some(encode_utf8(path)),
        None => None,
    }
}

/// The wallpaper that the daemon's answer says is shown.
pub fn shown_path(answer: &str) -> (path: Option<FilePath>)
    ensures
        path_view(path) == told_path(answer@),
{
    match read_member(answer, "path") {
        Some(path) => Some(FilePath::of(path.as_str())),
        None => None,
    }
}

} // verus!
