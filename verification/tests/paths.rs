use wyrd_wallpaper::path::FilePath;
use wyrd_wallpaper::store::{
    config_state_file_path, persistent_state_file_path, runtime_state_file_path, socket_path,
    temporary_path,
};

fn path(text: &str) -> FilePath {
    FilePath::of(text)
}

fn shown(path: &FilePath) -> String {
    path.to_text().unwrap()
}

fn name_of(text: &str) -> Option<Vec<u8>> {
    path(text).file_name()
}

#[test]
fn paths_are_joined_with_one_separator() {
    assert_eq!(shown(&path("/a").join(&path("b"))), "/a/b");
    assert_eq!(shown(&path("/a/").join(&path("b"))), "/a/b");
    assert_eq!(shown(&path("").join(&path("b"))), "b");
    assert_eq!(shown(&path("/a").join(&path("/b"))), "/b");
    assert_eq!(shown(&path("/a").join(&path(""))), "/a/");
    assert!(path("/a").is_absolute());
    assert!(!path("a/b").is_absolute());
    assert!(!path("").is_absolute());
}

#[test]
fn the_last_name_of_a_path() {
    assert_eq!(name_of("/a/b.png"), Some(b"b.png".to_vec()));
    assert_eq!(name_of("/a/b/"), Some(b"b".to_vec()));
    assert_eq!(name_of("/a/b/."), Some(b"b".to_vec()));
    assert_eq!(name_of("/a/.."), None);
    assert_eq!(name_of("/"), None);
    assert_eq!(name_of(""), None);
    assert_eq!(name_of("."), None);
    assert_eq!(name_of("b.png"), Some(b"b.png".to_vec()));
}

#[test]
fn stems_and_extensions() {
    assert_eq!(path("/a/b.tar.gz").file_stem(), Some(b"b.tar".to_vec()));
    assert_eq!(path("/a/b.tar.gz").extension(), Some(b"gz".to_vec()));
    assert_eq!(path("/a/.hidden").file_stem(), Some(b".hidden".to_vec()));
    assert_eq!(path("/a/.hidden").extension(), None);
    assert_eq!(path("/a/b.").extension(), Some(b"".to_vec()));
    assert_eq!(path("/a/b").extension(), None);
    assert_eq!(path("/a/..").extension(), None);
    assert_eq!(shown(&path("/a/b.c").with_extension(&path("d"))), "/a/b.d");
    assert_eq!(shown(&path("/a/b").with_extension(&path("d"))), "/a/b.d");
    assert_eq!(shown(&path("/a/b/").with_extension(&path("d"))), "/a/b.d");
    assert_eq!(shown(&path("/a/b.c").with_extension(&path(""))), "/a/b");
    assert_eq!(shown(&path("/a/..").with_extension(&path("d"))), "/a/..");
}

#[test]
fn components_pass_over_what_does_not_matter() {
    assert!(path("/a//b/./c/").same_components(&path("/a/b/c")));
    assert!(!path("/a/b").same_components(&path("a/b")));
    assert!(!path("./a").same_components(&path("a")));
    assert!(!path("/a/../a").same_components(&path("/a")));
    assert_eq!(
        path("/a/b").components(),
        vec![b"/".to_vec(), b"a".to_vec(), b"b".to_vec()]
    );
    assert_eq!(path("./a").components(), vec![b".".to_vec(), b"a".to_vec()]);
}

#[test]
fn only_utf8_paths_are_texts() {
    assert_eq!(path("/\u{e9}").to_text(), Some("/\u{e9}".to_string()));
    let odd = FilePath {
        bytes: vec![47, 255],
    };
    assert_eq!(odd.to_text(), None);
    assert_eq!(odd.copy().bytes, odd.bytes);
}

#[test]
fn the_socket_stands_in_the_runtime_directory() {
    assert_eq!(
        shown(&socket_path(Some(path("/run/user/1000")))),
        "/run/user/1000/wyrd-wallpaper.sock"
    );
    assert_eq!(shown(&socket_path(None)), "/tmp/wyrd-wallpaper.sock");
}

#[test]
fn the_persistent_state_file() {
    let home = || Some(path("/home/u"));
    assert_eq!(
        shown(&persistent_state_file_path(Some(path("/state")), home())),
        "/state/wyrd/wallpaper.toml"
    );
    assert_eq!(
        shown(&persistent_state_file_path(None, home())),
        "/home/u/.local/state/wyrd/wallpaper.toml"
    );
    assert_eq!(
        shown(&persistent_state_file_path(None, None)),
        "/tmp/wyrd-wallpaper-state.toml"
    );
}

#[test]
fn the_config_state_file() {
    let home = || Some(path("/home/u"));
    assert_eq!(
        shown(&config_state_file_path(Some(path("/conf")), home())),
        "/conf/wyrd/wallpaper.toml"
    );
    assert_eq!(
        shown(&config_state_file_path(None, home())),
        "/home/u/.config/wyrd/wallpaper.toml"
    );
    assert_eq!(
        shown(&config_state_file_path(None, None)),
        "/tmp/wyrd-wallpaper-config.toml"
    );
}

#[test]
fn the_runtime_state_file() {
    assert_eq!(
        shown(&runtime_state_file_path(Some(path("/run/x")), 7)),
        "/run/x/wyrd/wallpaper.toml"
    );
    assert_eq!(
        shown(&runtime_state_file_path(None, 1000)),
        "/run/user/1000/wyrd/wallpaper.toml"
    );
    assert_eq!(
        shown(&runtime_state_file_path(None, 4294967295)),
        "/run/user/4294967295/wyrd/wallpaper.toml"
    );
}

#[test]
fn the_temporary_file_stands_beside_the_state_file() {
    let file = runtime_state_file_path(None, 0);
    assert_eq!(
        shown(&temporary_path(&file)),
        "/run/user/0/wyrd/wallpaper.toml.tmp"
    );
}
