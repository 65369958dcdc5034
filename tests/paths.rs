use podcatcher::config::config_path_in;
use podcatcher::paths::{file_name_of, file_name_or_default, join_path};

#[test]
fn join_adds_one_separator() {
    assert_eq!(join_path("/d", "My Show"), "/d/My Show");
    assert_eq!(join_path("/d/", "My Show"), "/d/My Show");
    assert_eq!(join_path("", "x"), "x");
    assert_eq!(join_path("/d", "/abs"), "/abs");
}

#[test]
fn file_names_of_paths() {
    assert_eq!(file_name_of("/ep/42/show.mp3"), Some(String::from("show.mp3")));
    assert_eq!(file_name_of("/ep/42/"), Some(String::from("42")));
    assert_eq!(file_name_of("/ep/42/."), Some(String::from("42")));
    assert_eq!(file_name_of("show.mp3"), Some(String::from("show.mp3")));
    assert_eq!(file_name_of("/"), None);
    assert_eq!(file_name_of(""), None);
    assert_eq!(file_name_of("/ep/.."), None);
    assert_eq!(file_name_of("."), None);
}

#[test]
fn fallback_file_name() {
    assert_eq!(file_name_or_default("/"), "episode.mp3");
    assert_eq!(file_name_or_default("/a/b.ogg"), "b.ogg");
}

#[test]
fn config_path_under_base() {
    assert_eq!(config_path_in("/home/u/.config"), "/home/u/.config/podcatcher-rs/config.toml");
}
