use remiaft::collections::{StringMap, StringSet};
use remiaft::columns::columns_of;
use remiaft::numbers::{decimal_text, parse_u16_text, parse_u32_text, NumberError};
use remiaft::paths::{
    file_name, file_name_on, is_absolute, join_path, join_path_on, path_below, path_parts,
    rooted_path, walk,
};
use remiaft::platform::Platform;
use remiaft::store::ConfigStore;
use remiaft::text::{
    comes_before, contains_text, join, lines, lower_text, rfind_char, same_ignoring_case, split_on,
    split_once, strip_prefix, trim, words,
};
use remiaft::utf8::readable_text;

#[test]
fn texts_are_trimmed_and_split() {
    assert_eq!(trim(" \t a b\u{3000}"), "a b");
    assert_eq!(split_on("a,,b", ','), vec!["a", "", "b"]);
    assert_eq!(join(&split_on("a,,b", ','), ","), "a,,b");
    assert_eq!(split_once("a=b=c", '='), Some(("a", "b=c")));
    assert_eq!(split_once("abc", '='), None);
    assert_eq!(words(" a  b "), vec!["a", "b"]);
    assert_eq!(lines("a\r\nb\n"), vec!["a", "b"]);
    assert_eq!(lines(""), Vec::<String>::new());
}

#[test]
fn texts_are_searched() {
    assert!(contains_text("hello", "ell"));
    assert!(!contains_text("hello", "elo"));
    assert_eq!(rfind_char("a/b/c", '/'), Some(3));
    assert_eq!(strip_prefix("-Xms1G", "-Xms"), Some("1G"));
    assert_eq!(strip_prefix("-Xmx1G", "-Xms"), None);
    assert!(same_ignoring_case("EXIT", "exit"));
    assert_eq!(lower_text("ÀBc"), "Àbc");
    assert!(comes_before("a", "ab"));
    assert!(!comes_before("b", "ab"));
}

#[test]
fn numbers_are_written_and_read() {
    assert_eq!(decimal_text(0), "0");
    assert_eq!(decimal_text(65535), "65535");
    assert_eq!(parse_u16_text("65535").unwrap(), 65535);
    assert!(matches!(parse_u16_text("65536"), Err(NumberError::TooLarge)));
    assert!(matches!(parse_u16_text(""), Err(NumberError::Empty)));
    assert!(matches!(parse_u32_text("1x"), Err(NumberError::InvalidDigit)));
    assert_eq!(parse_u32_text("+7").unwrap(), 7);
}

#[test]
fn paths_are_joined_and_cleaned() {
    assert_eq!(join_path("/a", "b"), "/a/b");
    assert_eq!(join_path("/a", "/b"), "/b");
    assert!(is_absolute("/a"));
    assert!(!is_absolute("a"));
    assert_eq!(file_name("/a/b.txt").as_deref(), Some("b.txt"));
    let clean = |path: &str| rooted_path(&walk(&path_parts(path)));
    assert_eq!(clean("/a/./b/../c"), "/a/c");
    assert_eq!(clean(&clean("/a/./b/../c")), "/a/c");
    assert_eq!(path_below("/a/b/c", "/a").as_deref(), Some("b/c"));
    assert_eq!(path_below("/ab", "/a"), None);
}

#[test]
fn sets_hold_each_text_once() {
    let mut set = StringSet::new();
    assert!(set.is_empty());
    set.insert("a".to_string());
    set.insert("a".to_string());
    assert_eq!(set.len(), 1);
    assert!(set.contains("a"));
    assert!(set.remove("a"));
    assert!(!set.remove("a"));
}

#[test]
fn maps_keep_their_keys_in_order() {
    let mut map = StringMap::new();
    map.insert("b".to_string(), "1".to_string());
    map.insert("a".to_string(), "2".to_string());
    map.insert("b".to_string(), "3".to_string());
    assert_eq!(map.len(), 2);
    assert_eq!(map.entry(0), ("a", "2"));
    assert_eq!(map.entry(1), ("b", "3"));
    assert_eq!(map.get("c"), None);
    assert_eq!(map.duplicate().get("b"), Some("3"));
}

#[test]
fn columns_count_wide_characters_twice() {
    assert_eq!(columns_of('a'), 1);
    assert_eq!(columns_of('服'), 2);
    assert_eq!(columns_of('\u{301}'), 0);
}

#[test]
fn invalid_bytes_are_replaced() {
    assert_eq!(readable_text("日志".as_bytes()), "日志");
    assert_eq!(readable_text(&[b'a', 0xff]), "a\u{fffd}");
}

#[test]
fn stores_stand_below_the_user_directories() {
    let store =
        ConfigStore::new(
            Some("/home/u/.config".to_string()),
            Some("/home/u/.data".to_string()),
            Platform::Unix,
        )
        .unwrap();
    assert_eq!(store.config_path(), "/home/u/.config/remiaft/config.toml");
    assert_eq!(store.runtime_dir(), "/home/u/.data/remiaft/runtime");
    assert_eq!(
        ConfigStore::new(None, None, Platform::Unix).unwrap_err().message,
        "cannot resolve user config directory"
    );
    let store = ConfigStore::new(
        Some("C:\\Users\\u\\Roaming".to_string()),
        None,
        Platform::Windows,
    )
    .unwrap();
    assert_eq!(store.config_path(), "C:\\Users\\u\\Roaming\\remiaft\\config.toml");
    assert_eq!(store.runtime_dir(), "C:\\Users\\u\\Roaming\\remiaft\\remiaft\\runtime");
}

#[test]
fn windows_paths_have_names() {
    let name = |path: &str| file_name_on(path, Platform::Windows);
    assert_eq!(name("C:\\jdk\\bin\\java.exe").as_deref(), Some("java.exe"));
    assert_eq!(name("C:java").as_deref(), Some("java"));
    assert_eq!(name("jdk/bin\\java\\.").as_deref(), Some("java"));
    assert_eq!(name("\\\\host\\share\\java").as_deref(), Some("java"));
    assert_eq!(name("\\\\host\\java"), None);
    assert_eq!(name("\\\\java").as_deref(), Some("java"));
    assert_eq!(name("jdk\\.."), None);
    assert_eq!(name("C:"), None);
    assert_eq!(
        file_name_on("C:\\jdk\\java.exe", Platform::Unix).as_deref(),
        Some("C:\\jdk\\java.exe")
    );
}

#[test]
fn two_separators_alone_name_no_share() {
    let join = |base: &str, rel: &str| join_path_on(base, rel, Platform::Windows);
    assert_eq!(join("D:\\room", "\\\\host\\share"), "\\\\host\\share");
    assert_eq!(join("D:\\room", "\\\\host"), "D:\\\\host");
    assert_eq!(join("\\\\host", "\\srv"), "\\srv");
}
