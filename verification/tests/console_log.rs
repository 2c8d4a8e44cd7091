use remiaft::tui::console_log::{ansi_to_line, apply_sgr, wrap_console_lines, Color, Style};

#[test]
fn parses_ansi_color_spans() {
    let line = ansi_to_line("\u{1b}[31mred\u{1b}[0m plain");
    assert_eq!(line.spans.len(), 2);
    assert_eq!(line.spans[0].content, "red");
    assert_eq!(line.spans[0].style.fg, Some(Color::Red));
    assert_eq!(line.spans[1].content, " plain");
}

#[test]
fn strips_non_sgr_terminal_sequences() {
    let line = ansi_to_line("\u{1b}]0;title\u{7}\u{1b}[2K> help");
    assert_eq!(line.spans.len(), 1);
    assert_eq!(line.spans[0].content, "> help");
}

#[test]
fn wraps_long_console_lines_before_rendering() {
    let lines = vec![
        "[00:54:29 INFO]: bStats collects some basic information for plugin authors, like how many people use their plugin and their total player count. It's recommended to keep bStats enabled, but this text must continue."
            .to_string(),
    ];

    let wrapped = wrap_console_lines(&lines, 48);
    let joined = wrapped.join("");

    assert!(wrapped.len() > 1);
    assert!(joined.contains("but this text must continue."));
    assert_eq!(joined, lines[0]);
    assert!(wrapped.iter().all(|row| row.chars().count() <= 48));
}

#[test]
fn wide_characters_take_two_columns() {
    let wrapped = wrap_console_lines(&vec!["服务器日志".to_string()], 4);
    assert_eq!(wrapped, vec!["服务", "器日", "志"]);
}

#[test]
fn styles_follow_the_sequences() {
    let style = apply_sgr(Style::plain(), "1;38;5;208;48;2;1;2;3");
    assert!(style.bold);
    assert_eq!(style.fg, Some(Color::Indexed(208)));
    assert_eq!(style.bg, Some(Color::Rgb(1, 2, 3)));
    assert_eq!(apply_sgr(style, "0"), Style::plain());
    assert_eq!(apply_sgr(Style::plain(), "92").fg, Some(Color::LightGreen));
}
