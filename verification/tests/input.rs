use remiaft::platform::Platform;
use remiaft::tui::input::{
    backspace_at_cursor, complete_word, completion_display_candidates, completion_lookup,
    delete_at_cursor, fallback, input_view, insert_at_cursor, move_cursor_left, move_cursor_right,
    normalized_cursor, Completion, FileEntry, Listing,
};

fn listing(entries: &[(&str, bool)]) -> Listing {
    Listing {
        commands: Vec::new(),
        entries: entries
            .iter()
            .map(|(name, is_dir)| FileEntry { name: name.to_string(), is_dir: *is_dir })
            .collect(),
    }
}

#[test]
fn unique_file_match_appends_space() {
    let found = listing(&[("start.sh", false)]);
    let mut input = "sh sta".to_string();
    let mut cursor = input.len();
    assert!(matches!(
        complete_word(&mut input, &mut cursor, &found, false, Platform::Unix),
        Completion::Unique
    ));
    assert_eq!(input, "sh start.sh ");
    assert_eq!(cursor, input.len());
}

#[test]
fn unique_directory_match_appends_slash_not_space() {
    let found = listing(&[("plugins", true)]);
    let mut input = "cd plu".to_string();
    let mut cursor = input.len();
    assert!(matches!(
        complete_word(&mut input, &mut cursor, &found, false, Platform::Unix),
        Completion::Unique
    ));
    assert_eq!(input, "cd plugins/");
    assert_eq!(cursor, input.len());
}

#[test]
fn ambiguous_match_inserts_longest_common_prefix() {
    let found = listing(&[("start.sh", false), ("start.bak", false)]);
    let mut input = "sta".to_string();
    let mut cursor = input.len();
    assert!(matches!(
        complete_word(&mut input, &mut cursor, &found, false, Platform::Unix),
        Completion::Partial
    ));
    assert_eq!(input, "start.");
    assert_eq!(cursor, input.len());

    assert_eq!(
        completion_display_candidates(&input, cursor, &found, false, Platform::Unix),
        vec!["start.bak", "start.sh"]
    );
}

#[test]
fn empty_word_matches_every_entry() {
    let found = listing(&[("alpha.txt", false), ("world", true)]);
    let mut input = "say ".to_string();
    let mut cursor = input.len();
    assert!(matches!(
        complete_word(&mut input, &mut cursor, &found, false, Platform::Unix),
        Completion::Partial
    ));
    assert_eq!(input, "say ");

    assert_eq!(
        completion_display_candidates(&input, cursor, &found, false, Platform::Unix),
        vec!["alpha.txt", "world/"]
    );
}

#[test]
fn completes_deeper_path_components() {
    let mut input = "load plugins/Ess".to_string();
    let mut cursor = input.len();
    let lookup = completion_lookup(&input, cursor, "/srv/room", None, false, Platform::Unix);
    assert_eq!(lookup.directory, "/srv/room/plugins/");
    assert!(!lookup.commands);
    let found = listing(&[("Essentials.jar", false)]);
    assert!(matches!(
        complete_word(&mut input, &mut cursor, &found, false, Platform::Unix),
        Completion::Unique
    ));
    assert_eq!(input, "load plugins/Essentials.jar ");
}

#[test]
fn quoted_word_completes_and_closes_the_quote() {
    let found = listing(&[("My World.txt", false)]);
    let mut input = "cat \"My Wo".to_string();
    let mut cursor = input.len();
    assert!(matches!(
        complete_word(&mut input, &mut cursor, &found, false, Platform::Unix),
        Completion::Unique
    ));
    assert_eq!(input, "cat \"My World.txt\" ");
    assert_eq!(cursor, input.len());
}

#[test]
fn no_space_appended_when_cursor_is_mid_line() {
    let found = listing(&[("start.sh", false)]);
    let mut input = "sta tail".to_string();
    let mut cursor = 3;
    assert!(matches!(
        complete_word(&mut input, &mut cursor, &found, false, Platform::Unix),
        Completion::Unique
    ));
    assert_eq!(input, "start.sh tail");
    assert_eq!(cursor, "start.sh".len());
}

#[test]
fn unquoted_match_gets_backslash_escapes() {
    let found = listing(&[("My World.txt", false)]);
    let mut input = "cat My".to_string();
    let mut cursor = input.len();
    assert!(matches!(
        complete_word(&mut input, &mut cursor, &found, false, Platform::Unix),
        Completion::Unique
    ));
    assert_eq!(input, "cat My\\ World.txt ");
}

#[test]
fn escaped_prefix_is_dequoted_before_matching() {
    let found = listing(&[("My World.txt", false)]);
    let mut input = "cat My\\ Wo".to_string();
    let mut cursor = input.len();
    assert!(matches!(
        complete_word(&mut input, &mut cursor, &found, false, Platform::Unix),
        Completion::Unique
    ));
    assert_eq!(input, "cat My\\ World.txt ");
}

#[test]
fn windows_match_with_spaces_gets_quoted() {
    let found = listing(&[("My World.txt", false)]);
    let mut input = "cat My".to_string();
    let mut cursor = input.len();
    assert!(matches!(
        complete_word(&mut input, &mut cursor, &found, false, Platform::Windows),
        Completion::Unique
    ));
    assert_eq!(input, "cat \"My World.txt\" ");
}

#[test]
fn windows_accepts_backslash_as_separator() {
    let found = listing(&[("Essentials.jar", false)]);
    let mut input = "load plugins\\Ess".to_string();
    let mut cursor = input.len();
    assert!(matches!(
        complete_word(&mut input, &mut cursor, &found, false, Platform::Windows),
        Completion::Unique
    ));
    assert_eq!(input, "load plugins\\Essentials.jar ");
}

#[test]
fn commands_complete_the_first_word_only() {
    let found = Listing {
        commands: vec!["java".to_string(), "javac".to_string(), "sh".to_string()],
        entries: Vec::new(),
    };
    let mut input = "ja".to_string();
    let mut cursor = input.len();
    assert!(completion_lookup(&input, cursor, "/srv", None, true, Platform::Unix).commands);
    assert!(matches!(
        complete_word(&mut input, &mut cursor, &found, true, Platform::Unix),
        Completion::Partial
    ));
    assert_eq!(input, "java");
    let mut input = "x ja".to_string();
    let mut cursor = input.len();
    assert!(matches!(
        complete_word(&mut input, &mut cursor, &found, true, Platform::Unix),
        Completion::NoMatch
    ));
    assert_eq!(input, "x ja");
}

#[test]
fn edits_keep_whole_characters() {
    let mut input = "日志".to_string();
    let mut cursor = input.len();
    move_cursor_left(&input, &mut cursor);
    assert_eq!(cursor, 3);
    insert_at_cursor(&mut input, &mut cursor, 'x');
    assert_eq!((input.as_str(), cursor), ("日x志", 4));
    backspace_at_cursor(&mut input, &mut cursor);
    assert_eq!((input.as_str(), cursor), ("日志", 3));
    delete_at_cursor(&mut input, cursor);
    assert_eq!(input, "日");
    move_cursor_right(&input, &mut cursor);
    assert_eq!(cursor, 3);
    assert_eq!(normalized_cursor("日志", 4), 3);
}

#[test]
fn blank_text_falls_back() {
    assert_eq!(fallback("  ", "x"), "x");
    assert_eq!(fallback(" a ", "x"), "a");
}

#[test]
fn long_input_shows_the_part_at_the_cursor() {
    let (text, column) = input_view("abcdef", 6, 4);
    assert!("abcdef".ends_with(&text));
    assert_eq!(column as usize, text.len());
    assert_eq!(input_view("abc", 1, 10), ("abc".to_string(), 1));
    let (_, column) = input_view("日志", 3, 10);
    assert_eq!(column, 2);
}

#[test]
fn windows_paths_keep_their_volume() {
    let directory = |input: &str| {
        completion_lookup(input, input.len(), "D:\\room", Some("C:\\Users\\me"), false, Platform::Windows)
            .directory
    };
    assert_eq!(directory("load plugins\\Ess"), "D:\\room\\plugins\\");
    assert_eq!(directory("load C:\\srv\\Ess"), "C:\\srv\\");
    assert_eq!(directory("load \\\\host\\share\\Ess"), "\\\\host\\share\\");
    assert_eq!(directory("load \\srv\\Ess"), "D:\\srv\\");
    assert_eq!(directory("load ~\\srv\\Ess"), "C:\\Users\\me\\srv\\");
    assert_eq!(directory("load Ess"), "D:\\room\\");
}

#[test]
fn windows_paths_from_the_root_stay_on_a_share() {
    let lookup =
        completion_lookup("\\srv\\Ess", 8, "\\\\host\\share\\room", None, false, Platform::Windows);
    assert_eq!(lookup.directory, "\\\\host\\share\\srv\\");
}
