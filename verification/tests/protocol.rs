use wyrd_wallpaper::catalog::{FoundFile, ResolveError};
use wyrd_wallpaper::daemon::WallpaperState;
use wyrd_wallpaper::path::FilePath;
use wyrd_wallpaper::protocol::{
    bare_request, client_reply, color_reply, current_reply, error_reply, list_reply, ok_reply,
    plan_client, plan_command, set_reply, set_request, shown_path, Action, ClientOutcome,
    ClientStep, Command, Reply, SocketCommand,
};

fn png_of(red: u8, green: u8, blue: u8) -> Vec<u8> {
    let img = image::RgbImage::from_pixel(8, 8, image::Rgb([red, green, blue]));
    let mut bytes = std::io::Cursor::new(Vec::new());
    img.write_to(&mut bytes, image::ImageFormat::Png).unwrap();
    bytes.into_inner()
}

fn fresh() -> WallpaperState {
    WallpaperState::start(None, None, FilePath::of("/w"), None, None).unwrap()
}

fn own(text: Option<&str>) -> Option<String> {
    text.map(|text| text.to_string())
}

fn request(
    cmd: &str,
    path: Option<&str>,
    mode: Option<&str>,
    accent: Option<&str>,
) -> Action {
    plan_command(SocketCommand {
        cmd: cmd.to_string(),
        path: own(path),
        mode: own(mode),
        accent: own(accent),
    })
}

fn followed(text: &str) -> Option<Reply> {
    Some(Reply {
        text: text.to_string(),
        followed: true,
    })
}

fn sent(step: ClientStep) -> serde_json::Value {
    match step {
        ClientStep::Send(text) => serde_json::from_str(&text).unwrap(),
        _ => panic!("nothing is sent"),
    }
}

fn parsed(text: &str) -> serde_json::Value {
    serde_json::from_str(text).unwrap()
}

#[test]
fn requests_are_understood() {
    assert!(matches!(
        request("set", Some("a.png"), None, None),
        Action::SetImage(path) if path.bytes == b"a.png".to_vec()
    ));
    assert!(matches!(request("list", None, None, None), Action::List));
    assert!(matches!(request("current", None, None, None), Action::Current));
    assert!(matches!(
        request("color", None, Some("manual"), Some("#123456")),
        Action::SetColor(mode, Some(accent)) if mode == "manual" && accent == "#123456"
    ));
}

#[test]
fn requests_that_lack_something_are_refused() {
    assert!(matches!(
        request("set", None, Some("auto"), None),
        Action::Refuse(message) if message == "missing path"
    ));
    assert!(matches!(
        request("color", Some("a.png"), None, None),
        Action::Refuse(message) if message == "missing color mode"
    ));
    assert!(matches!(
        request("dance", None, None, None),
        Action::Refuse(message) if message == "unknown command"
    ));
    assert!(matches!(
        request("SET", Some("a.png"), None, None),
        Action::Refuse(message) if message == "unknown command"
    ));
}

#[test]
fn answers_are_json() {
    assert_eq!(ok_reply(), "{\"status\":\"ok\"}");
    assert_eq!(
        error_reply("missing \"path\""),
        "{\"message\":\"missing \\\"path\\\"\",\"status\":\"error\"}"
    );
}

#[test]
fn a_wallpaper_is_set_and_told() {
    let mut state = fresh();
    let data = png_of(200, 30, 40);
    let reply = set_reply(&mut state, Ok(FilePath::of("/w/caf\u{e9}.png")), Some(&data));
    assert_eq!(reply, followed("{\"status\":\"ok\"}"));
    let answer = current_reply(&state);
    assert_eq!(
        shown_path(&answer).unwrap().to_text().unwrap(),
        "/w/caf\u{e9}.png"
    );
    let value = parsed(&answer);
    assert_eq!(value["status"], "ok");
    assert_eq!(value["color_mode"], "auto");
    assert_eq!(value["accent"].as_str(), Some(state.auto_accent.as_str()));
    assert_eq!(value["palette"]["accent"], value["accent"]);
    assert_eq!(value["palette"].as_object().unwrap().len(), 18);
}

#[test]
fn a_refused_wallpaper_is_answered_with_the_reason() {
    let mut state = fresh();
    let reply = set_reply(
        &mut state,
        Err(ResolveError::NotAFile(FilePath::of("/w/b"))),
        None,
    );
    let reply = reply.unwrap();
    assert_eq!(
        reply.text,
        "{\"message\":\"wallpaper is not a file: /w/b\",\"status\":\"error\"}"
    );
    assert!(!reply.followed);
    assert!(state.image_path.is_none());
    let none = set_reply(&mut state, Ok(FilePath::of("/w/b.png")), Some(&b"nope".to_vec()));
    assert!(none.is_none());
    assert!(state.image_path.is_none());
}

#[test]
fn nothing_shown_is_told_as_null() {
    let answer = current_reply(&fresh());
    let value = parsed(&answer);
    assert!(value["path"].is_null());
    assert!(value["palette"].is_null());
    assert_eq!(value["accent"], "#c72548");
    assert!(shown_path(&answer).is_none());
    assert!(shown_path("not json").is_none());
    assert!(shown_path("[1]").is_none());
    assert!(shown_path("{\"path\":7}").is_none());
}

#[test]
fn colors_are_answered_alike() {
    let mut state = fresh();
    let reply = color_reply(
        &mut state,
        "manual".to_string(),
        Some("#7dd3fc".to_string()),
        None,
    );
    assert_eq!(reply, followed("{\"status\":\"ok\"}"));
    assert_eq!(state.accent(), "#7dd3fc");
    let refused = color_reply(&mut state, "manual".to_string(), own(Some("red")), None);
    let refused = refused.unwrap();
    assert_eq!(refused.text, "{\"status\":\"ok\"}");
    assert!(!refused.followed);
    assert_eq!(state.accent(), "#7dd3fc");
    let auto = color_reply(&mut state, "auto".to_string(), None, None);
    assert_eq!(auto, followed("{\"status\":\"ok\"}"));
    assert_eq!(state.color_mode, "auto");
    set_reply(&mut state, Ok(FilePath::of("/w/a.png")), Some(&png_of(9, 9, 200))).unwrap();
    let none = color_reply(&mut state, "auto".to_string(), None, Some(&b"nope".to_vec()));
    assert!(none.is_none());
}

#[test]
fn the_catalog_is_told() {
    let found = vec![
        FoundFile {
            path: FilePath::of("/w/b.png"),
            is_file: true,
            dimensions: Some((4, 3)),
        },
        FoundFile {
            path: FilePath::of("/w/A.jpg"),
            is_file: true,
            dimensions: Some((2, 1)),
        },
    ];
    assert_eq!(
        list_reply(&found),
        "{\"entries\":[{\"height\":1,\"name\":\"A.jpg\",\"path\":\"/w/A.jpg\",\"width\":2},\
         {\"height\":3,\"name\":\"b.png\",\"path\":\"/w/b.png\",\"width\":4}],\"status\":\"ok\"}"
    );
    assert_eq!(list_reply(&vec![]), "{\"entries\":[],\"status\":\"ok\"}");
}

#[test]
fn a_client_gets_one_line_back() {
    assert_eq!(
        client_reply(ClientOutcome::Malformed("bad".to_string())),
        "{\"message\":\"bad\",\"status\":\"error\"}"
    );
    assert_eq!(
        client_reply(ClientOutcome::Unavailable),
        "{\"status\":\"error\",\"message\":\"daemon unavailable\"}"
    );
    assert_eq!(
        client_reply(ClientOutcome::Unanswered),
        "{\"status\":\"error\",\"message\":\"no response\"}"
    );
    assert_eq!(
        client_reply(ClientOutcome::Answered("x".to_string())),
        "x"
    );
}

#[test]
fn commands_become_requests() {
    let set = sent(plan_client(Command::SetImage(FilePath::of("a \"b\".png")), None));
    assert_eq!(set["cmd"], "set");
    assert_eq!(set["path"], "a \"b\".png");
    assert_eq!(sent(plan_client(Command::List, None)), parsed("{\"cmd\":\"list\"}"));
    assert_eq!(
        sent(plan_client(Command::Current, None)),
        parsed("{\"cmd\":\"current\"}")
    );
    assert_eq!(
        sent(plan_client(Command::Color("auto".to_string(), None), None)),
        parsed("{\"cmd\":\"color\",\"mode\":\"auto\",\"accent\":null}")
    );
    assert_eq!(
        sent(plan_client(
            Command::Color("manual".to_string(), own(Some("#123456"))),
            None
        )),
        parsed("{\"cmd\":\"color\",\"mode\":\"manual\",\"accent\":\"#123456\"}")
    );
    assert!(matches!(plan_client(Command::Select, None), ClientStep::Pick));
    assert_eq!(set_request("a.png"), "{\"cmd\":\"set\",\"path\":\"a.png\"}");
    assert_eq!(bare_request("current"), "{\"cmd\":\"current\"}");
}

#[test]
fn the_output_named_with_the_command_comes_first() {
    let top = || own(Some("DP-1"));
    assert!(matches!(
        plan_client(Command::Run(None, None), top()),
        ClientStep::RunDaemon(None, Some(name)) if name == "DP-1"
    ));
    assert!(matches!(
        plan_client(Command::Run(Some(FilePath::of("a.png")), own(Some("DP-2"))), top()),
        ClientStep::RunDaemon(Some(path), Some(name))
            if path.bytes == b"a.png".to_vec() && name == "DP-2"
    ));
    assert!(matches!(
        plan_client(Command::Run(None, None), None),
        ClientStep::RunDaemon(None, None)
    ));
}
