use remiaft::config::{RemiaftConfig, ServerGroup};
use remiaft::i18n::{Catalog, Language, Text, TextTable};
use remiaft::platform::Platform;
use remiaft::process::RuntimeStatus;
use remiaft::tui::app::{Action, App, Mode};
use remiaft::tui::console::{log_tail_offset, log_tail_text, Console};
use remiaft::tui::input::{FileEntry, Listing};
use remiaft::tui::keys::{KeyCode, KeyEvent, MouseEvent};
use remiaft::tui::layout::{
    centered_fixed_rect, centered_input_rect, centered_rect, compute_regions, help_rect, Rect,
};
use remiaft::tui::ops::{op_done_message, op_message, op_progress_message, PendingOp};
use remiaft::tui::prompt::candidate_status_message;
use remiaft::tui::render::{
    detail_lines, footer_line, header_line, help_lines, input_field, input_title, list_title,
    log_title, server_lines,
};
use remiaft::tui::tree::{TreeItem, TreeRow};

fn table(code: &str, name: &str) -> TextTable {
    TextTable {
        code: code.to_string(),
        display_name: name.to_string(),
        entries: (0..63).map(|i| format!("{code}{i}")).collect(),
    }
}

fn catalog() -> Catalog {
    Catalog { english: table("en", "English"), chinese: table("zh-CN", "简体中文") }
}

fn words(key: Text) -> String {
    catalog().text(Language::English, key).to_string()
}

fn group(id: &str, parent: Option<&str>) -> ServerGroup {
    ServerGroup {
        id: id.to_string(),
        name: id.to_uppercase(),
        parent_id: parent.map(|p| p.to_string()),
    }
}

/// Two groups, one in the other, with a server in each and one beside them.
fn app() -> App {
    let mut config = RemiaftConfig::default();
    config.language = Some("en".to_string());
    config.groups = vec![group("top", None), group("low", Some("top"))];
    for name in ["a", "b", "c"] {
        config.add_server(name.to_string(), "/srv".to_string(), "server.jar".to_string());
    }
    config.servers[0].group_id = Some("top".to_string());
    config.servers[1].group_id = Some("low".to_string());
    App::new(config, &catalog(), Platform::Unix)
}

fn key(code: KeyCode) -> KeyEvent {
    KeyEvent { code, control: false, shift: false, other: false }
}

fn press(app: &mut App, code: KeyCode) -> Action {
    app.handle_key(key(code), &catalog())
}

fn type_text(app: &mut App, text: &str) {
    for c in text.chars() {
        press(app, KeyCode::Char(c));
    }
}

fn shape(rows: &[TreeRow]) -> Vec<(usize, String)> {
    rows.iter()
        .map(|row| {
            let item = match &row.item {
                TreeItem::Group(id) => id.clone(),
                TreeItem::Server(at) => at.to_string(),
            };
            (row.depth, item)
        })
        .collect()
}

fn text_of(line: &remiaft::tui::console_log::StyledLine) -> String {
    line.spans.iter().map(|span| span.content.as_str()).collect()
}

#[test]
fn languages_are_found_by_their_code() {
    let catalog = catalog();
    assert_eq!(catalog.from_code("zh-CN"), Some(Language::ChineseSimplified));
    assert_eq!(catalog.from_code("xx"), None);
    assert_eq!(catalog.code(Language::English), "en");
    assert_eq!(catalog.text(Language::English, Text::AddServerHint), "en0");
    assert_eq!(catalog.text(Language::ChineseSimplified, Text::StoppedState), "zh-CN62");
}

#[test]
fn the_tree_shows_groups_before_servers() {
    let app = app();
    let rows = shape(&app.visible_tree());
    assert_eq!(
        rows,
        vec![
            (0, "top".to_string()),
            (1, "low".to_string()),
            (2, "1".to_string()),
            (1, "0".to_string()),
            (0, "2".to_string()),
        ]
    );
}

#[test]
fn collapsed_groups_hide_what_is_below() {
    let mut app = app();
    press(&mut app, KeyCode::Left);
    assert_eq!(shape(&app.visible_tree()), vec![(0, "top".to_string()), (0, "2".to_string())]);
    press(&mut app, KeyCode::Right);
    assert_eq!(app.visible_tree().len(), 5);
}

#[test]
fn servers_of_unknown_groups_stand_at_the_root() {
    let mut app = app();
    app.config.servers[0].group_id = Some("gone".to_string());
    assert_eq!(shape(&app.visible_tree())[3], (0, "0".to_string()));
}

#[test]
fn an_unknown_language_is_asked_for() {
    let mut app = App::new(RemiaftConfig::default(), &catalog(), Platform::Unix);
    assert_eq!(app.mode, Mode::LanguageSelect);
    assert!(matches!(press(&mut app, KeyCode::Char('2')), Action::Save));
    assert_eq!(app.language, Language::ChineseSimplified);
    assert_eq!(app.config.language.as_deref(), Some("zh-CN"));
    assert_eq!(app.mode, Mode::Normal);
    assert!(app.status.ends_with(": 简体中文"));
}

#[test]
fn the_selection_stays_within_the_rows() {
    let mut app = app();
    press(&mut app, KeyCode::Up);
    assert_eq!(app.selected, 0);
    for _ in 0..10 {
        press(&mut app, KeyCode::Down);
    }
    assert_eq!(app.selected, 4);
    assert_eq!(app.selected().unwrap().name, "c");
}

#[test]
fn marks_come_and_go() {
    let mut app = app();
    press(&mut app, KeyCode::Enter);
    assert_eq!(app.marked_servers.len(), 2);
    assert_eq!(list_title(&app, &catalog()), format!("{} [2]", words(Text::Servers)));
    press(&mut app, KeyCode::Enter);
    assert!(app.marked_servers.is_empty());
    app.selected = 4;
    press(&mut app, KeyCode::Enter);
    press(&mut app, KeyCode::Enter);
    assert!(app.marked_servers.is_empty());
}

#[test]
fn operations_run_once_at_a_time() {
    let mut app = app();
    match press(&mut app, KeyCode::F(5)) {
        Action::Run { op, servers, .. } => {
            assert_eq!(op, PendingOp::Start);
            assert_eq!(servers, vec![0, 1]);
        }
        other => panic!("{other:?}"),
    }
    assert_eq!(app.status, "starting a, b");
    assert!(matches!(press(&mut app, KeyCode::F(6)), Action::Stay));
    let id = app.config.servers[0].id.clone();
    assert_eq!(app.pending_op(&id), Some(PendingOp::Start));
    app.finish_op(&id, "started a".to_string());
    assert_eq!(app.pending_op(&id), None);
    app.drain_op_messages();
    assert_eq!(app.status, "started a");
    match press(&mut app, KeyCode::F(7)) {
        Action::Run { op, servers, .. } => {
            assert_eq!(op, PendingOp::Restart);
            assert_eq!(servers, vec![0]);
        }
        other => panic!("{other:?}"),
    }
}

#[test]
fn operation_messages_are_in_the_language() {
    let names = vec!["a".to_string(), "b".to_string()];
    assert_eq!(
        op_progress_message(Language::ChineseSimplified, PendingOp::Stop, &names),
        "正在停止 a, b"
    );
    assert_eq!(op_done_message(Language::English, PendingOp::Restart, "a"), "restarted a");
    assert_eq!(
        op_message(Language::English, PendingOp::Start, "a", Some("no java")),
        "a: no java"
    );
    assert_eq!(op_message(Language::English, PendingOp::Start, "a", None), "started a");
}

#[test]
fn a_server_is_added_through_the_prompts() {
    let mut app = app();
    press(&mut app, KeyCode::Char('n'));
    type_text(&mut app, "New Room");
    press(&mut app, KeyCode::Enter);
    assert_eq!(app.mode, Mode::AddDir);
    type_text(&mut app, "/srv/new");
    press(&mut app, KeyCode::Enter);
    assert_eq!(app.mode, Mode::AddStartupCommand);
    assert_eq!(app.input, "java -Xms1024M -Xmx4096M -jar server.jar nogui");
    app.clear_input();
    type_text(&mut app, "java25 -Xmx2G -jar paper.jar");
    assert!(matches!(press(&mut app, KeyCode::Enter), Action::Save));
    let server = app.config.servers.last().unwrap();
    assert_eq!(server.name, "New Room");
    assert!(server.id.starts_with("new-room-"));
    assert_eq!(server.directory, "/srv/new");
    assert_eq!(server.jar_path, "paper.jar");
    assert_eq!(server.max_memory_mb, 2048);
    assert_eq!(server.startup_command.as_deref(), Some("java25 -Xmx2G -jar paper.jar"));
    assert_eq!(app.mode, Mode::Normal);
    assert_eq!(app.selected, 3);
    assert_eq!(app.status, words(Text::ServerAdded));
}

#[test]
fn prompts_change_the_selected_server() {
    let mut app = app();
    app.selected = 4;
    press(&mut app, KeyCode::Char('p'));
    assert_eq!(app.input, "/srv");
    type_text(&mut app, "/c");
    assert!(matches!(press(&mut app, KeyCode::Enter), Action::Save));
    assert_eq!(app.config.servers[2].directory, "/srv/c");
    assert_eq!(app.status, words(Text::DirectoryUpdated));

    press(&mut app, KeyCode::Char('y'));
    assert_eq!(app.input, "java");
    app.clear_input();
    press(&mut app, KeyCode::Enter);
    assert_eq!(app.config.servers[2].java_path, None);

    press(&mut app, KeyCode::Char('u'));
    app.clear_input();
    type_text(&mut app, "sh start.sh ");
    press(&mut app, KeyCode::Enter);
    assert_eq!(app.config.servers[2].startup_command.as_deref(), Some("sh start.sh"));
    press(&mut app, KeyCode::Char('u'));
    assert_eq!(app.input, "sh start.sh");
    press(&mut app, KeyCode::Esc);
    assert_eq!(app.mode, Mode::Normal);
    assert_eq!(app.input, "");

    press(&mut app, KeyCode::Char('g'));
    app.clear_input();
    type_text(&mut app, "nogui 'a b'");
    press(&mut app, KeyCode::Enter);
    assert_eq!(app.config.servers[2].server_args, vec!["nogui", "a b"]);

    press(&mut app, KeyCode::Char('e'));
    app.clear_input();
    type_text(&mut app, "-Xmx1G -Da=b -jar x.jar");
    press(&mut app, KeyCode::Enter);
    assert_eq!(app.config.servers[2].java_args, vec!["-Da=b"]);
    assert_eq!(app.config.servers[2].jar_path, "x.jar");
    assert_eq!(app.config.servers[2].max_memory_mb, 1024);
    assert_eq!(app.config.servers[2].server_args, vec!["nogui", "a b"]);
    assert_eq!(app.status, words(Text::StartupCommandNormalized));
    assert_eq!(app.config.servers[0].directory, "/srv");
}

#[test]
fn groups_are_made_and_servers_moved() {
    let mut app = app();
    press(&mut app, KeyCode::F(2));
    type_text(&mut app, "x/y");
    assert!(matches!(press(&mut app, KeyCode::Enter), Action::Save));
    assert_eq!(app.config.groups.len(), 4);
    assert_eq!(app.status, "group created: x/y");

    let id = app.config.servers[2].id.clone();
    app.marked_servers.insert(id);
    press(&mut app, KeyCode::Char('m'));
    assert_eq!(app.mode, Mode::MoveToGroup);
    type_text(&mut app, "x/y");
    press(&mut app, KeyCode::Enter);
    assert_eq!(app.config.servers[2].group_id.as_deref(), Some(app.config.groups[3].id.as_str()));
    assert_eq!(app.status, "moved 1 server(s)");
    assert!(app.marked_servers.is_empty());
}

#[test]
fn deleting_keeps_the_servers_of_a_group() {
    let mut app = app();
    assert!(matches!(press(&mut app, KeyCode::Char('d')), Action::Save));
    assert_eq!(app.config.groups.len(), 0);
    assert_eq!(app.config.servers.len(), 3);
    assert_eq!(app.status, "deleted group TOP; moved 2 server(s)");
    app.selected = 2;
    press(&mut app, KeyCode::Char('d'));
    assert_eq!(app.config.servers.len(), 2);
    assert_eq!(app.selected, 1);
    assert_eq!(app.status, format!("{} c", words(Text::Deleted)));
}

#[test]
fn commands_are_sent_to_the_selected_server() {
    let mut app = app();
    app.selected = 3;
    press(&mut app, KeyCode::Char('c'));
    type_text(&mut app, " say hi ");
    match press(&mut app, KeyCode::Enter) {
        Action::Send { server, text } => assert_eq!((server, text.as_str()), (0, "say hi")),
        other => panic!("{other:?}"),
    }
    assert_eq!(app.status, format!("{} a", words(Text::SentCommand)));
    assert!(matches!(press(&mut app, KeyCode::Char('a')), Action::Save));
    assert!(app.config.servers[0].auto_restart);
}

#[test]
fn keys_leave_and_help_is_hidden_first() {
    let mut app = app();
    press(&mut app, KeyCode::Char('?'));
    assert!(app.show_help);
    assert!(matches!(press(&mut app, KeyCode::Char('q')), Action::Stay));
    assert!(!app.show_help);
    assert!(matches!(press(&mut app, KeyCode::Char('q')), Action::Quit));
    press(&mut app, KeyCode::Char('n'));
    let quit = KeyEvent { code: KeyCode::Char('c'), control: true, shift: false, other: false };
    assert!(matches!(app.handle_key(quit, &catalog()), Action::Quit));
    let back = KeyEvent { code: KeyCode::Char('h'), control: true, shift: false, other: false };
    type_text(&mut app, "ab");
    app.handle_key(back, &catalog());
    assert_eq!(app.input, "a");
}

#[test]
fn consoles_are_attached_where_the_server_runs() {
    let mut app = app();
    app.selected = 4;
    assert!(matches!(press(&mut app, KeyCode::Char('o')), Action::Attach));
    app.request_console_attach(RuntimeStatus::Stopped);
    assert_eq!(app.status, "c is not running");
    assert!(app.take_console_attach_request().is_none());
    app.request_console_attach(RuntimeStatus::Running);
    assert_eq!(app.take_console_attach_request().unwrap().name, "c");
    assert!(app.take_console_attach_request().is_none());
    app.finish_attach(&catalog(), Some("gone"));
    assert_eq!(app.status, "console attach failed: gone");
    assert!(app.take_screen_clear());
    assert!(!app.take_screen_clear());
}

#[test]
fn tab_completes_and_then_lists() {
    let mut app = app();
    app.selected = 4;
    press(&mut app, KeyCode::Char('j'));
    app.clear_input();
    type_text(&mut app, "pa");
    assert!(matches!(press(&mut app, KeyCode::Tab), Action::Complete));
    assert_eq!(app.completion_directory("/here").as_deref(), Some("/srv"));
    let entry = |name: &str| FileEntry { name: name.to_string(), is_dir: false };
    let listing = Listing {
        commands: Vec::new(),
        entries: vec![entry("paper.jar"), entry("patched.jar")],
    };
    app.complete_prompt_input(&catalog(), &listing);
    assert_eq!(app.input, "pa");
    assert_eq!(app.status, words(Text::CompletionAmbiguousHint));
    app.complete_prompt_input(&catalog(), &listing);
    assert_eq!(app.status, "2 matches: paper.jar  patched.jar");
    type_text(&mut app, "p");
    app.complete_prompt_input(&catalog(), &listing);
    assert_eq!(app.input, "paper.jar ");
}

#[test]
fn long_lists_are_cut() {
    let names: Vec<String> = (0..14).map(|i| format!("n{i}")).collect();
    let line = candidate_status_message(Language::English, &names);
    assert!(line.starts_with("14 matches: n0  n1"));
    assert!(line.ends_with("n11  (+2 more)"));
}

#[test]
fn the_panel_scrolls_and_follows() {
    let mut console = Console::new();
    console.target(&Some("id".to_string()));
    assert!(console.note_len(10));
    assert!(!console.note_len(10));
    let text: String = (0..20).map(|i| format!("line {i}\n")).collect();
    console.show(&text);
    console.set_wrap_width(80);
    console.ensure_wrapped();
    let shown = console.visible_lines(3, "empty");
    assert_eq!(shown.len(), 3);
    assert_eq!(text_of(&shown[2]), "line 19");
    console.scroll(-5);
    assert!(!console.follow);
    assert_eq!(text_of(&console.visible_lines(3, "empty")[2]), "line 14");
    console.scroll(100);
    assert!(console.follow);
    console.target(&None);
    console.ensure_wrapped();
    assert_eq!(text_of(&console.visible_lines(3, "empty")[0]), "empty");
}

#[test]
fn only_the_last_lines_are_kept() {
    let mut console = Console::new();
    let text: String = (0..2005).map(|i| format!("{i}\n")).collect();
    console.show(&text);
    assert_eq!(console.lines.len(), 2000);
    assert_eq!(console.lines[0], "5");
}

#[test]
fn log_tails_start_at_a_line() {
    assert_eq!(log_tail_offset(100), 0);
    assert_eq!(log_tail_offset(524_288 + 9), 9);
    assert_eq!(log_tail_text("a\nb".as_bytes(), 0), "a\nb");
    assert_eq!(log_tail_text(&[0x97, 0xa5, b'\n', b'b'], 5), "b");
    assert_eq!(log_tail_text(b"abc", 5), "");
}

#[test]
fn the_mouse_scrolls_the_log() {
    let mut app = app();
    app.console.wrapped = (0..10).map(|i| i.to_string()).collect();
    app.handle_mouse(MouseEvent::ScrollUp);
    assert_eq!(app.console.end, Some(7));
    app.mode = Mode::Command;
    app.handle_mouse(MouseEvent::ScrollUp);
    assert_eq!(app.console.end, Some(7));
}

#[test]
fn the_screen_is_divided() {
    let area = Rect { x: 0, y: 0, width: 100, height: 40 };
    let regions = compute_regions(area, true);
    assert_eq!(regions.header, Rect { x: 0, y: 0, width: 100, height: 1 });
    assert_eq!(regions.footer, Rect { x: 0, y: 39, width: 100, height: 1 });
    assert_eq!(regions.list, Rect { x: 0, y: 1, width: 30, height: 38 });
    assert_eq!(regions.log, Rect { x: 30, y: 1, width: 70, height: 32 });
    assert_eq!(regions.detail, Rect { x: 30, y: 33, width: 70, height: 6 });
    let hidden = compute_regions(area, false);
    assert_eq!(hidden.detail.height, 0);
    assert_eq!(hidden.log.height, 38);
    let narrow = compute_regions(Rect { x: 0, y: 0, width: 50, height: 32 }, false);
    assert_eq!(narrow.list.height, 10);
    assert_eq!(narrow.list.width, 50);
    let middle = centered_rect(50, 50, area);
    assert_eq!((middle.width, middle.height), (50, 20));
}

#[test]
fn shares_of_the_screen_are_rounded() {
    let screen = Rect { x: 3, y: 2, width: 75, height: 24 };
    let regions = compute_regions(screen, true);
    assert_eq!(regions.header, Rect { x: 3, y: 2, width: 75, height: 1 });
    assert_eq!(regions.list, Rect { x: 3, y: 3, width: 23, height: 22 });
    assert_eq!(regions.log, Rect { x: 26, y: 3, width: 52, height: 16 });
    assert_eq!(regions.detail, Rect { x: 26, y: 19, width: 52, height: 6 });
    assert_eq!(regions.footer, Rect { x: 3, y: 25, width: 75, height: 1 });
    let narrow = compute_regions(Rect { x: 0, y: 0, width: 69, height: 3 }, true);
    assert_eq!(narrow.list, Rect { x: 0, y: 1, width: 69, height: 0 });
    assert_eq!(narrow.log, Rect { x: 0, y: 1, width: 69, height: 1 });
    assert_eq!(narrow.detail, Rect { x: 0, y: 2, width: 69, height: 0 });
    assert_eq!(narrow.footer, Rect { x: 0, y: 2, width: 69, height: 1 });
    let popup = centered_rect(70, 45, Rect { x: 0, y: 0, width: 80, height: 24 });
    assert_eq!(popup, Rect { x: 12, y: 6, width: 56, height: 11 });
    let popup = centered_rect(33, 100, Rect { x: 7, y: 1, width: 51, height: 9 });
    assert_eq!(popup, Rect { x: 24, y: 1, width: 17, height: 9 });
    for width in 0..260u16 {
        for percent in [0u16, 1, 30, 33, 45, 50, 70, 99, 100] {
            let part = centered_rect(percent, 100, Rect { x: 5, y: 0, width, height: 1 });
            let margin = u32::from((100 - percent) / 2);
            let edge = |share: u32| (500 + u32::from(width) * share + 50) / 100;
            assert_eq!(u32::from(part.x), edge(margin));
            let end = edge(margin + u32::from(percent));
            assert_eq!(u32::from(part.x + part.width), end);
        }
    }
}

#[test]
fn every_screen_with_three_rows_is_divided_alike() {
    for (x, y) in [(0u16, 0u16), (3, 7), (60000, 50000)] {
        for width in [0u16, 1, 69, 70, 71, 75, 99, 100, 133, 201, 5535] {
            for height in (3u16..40).chain([100, 999, 15535]) {
                let r = compute_regions(Rect { x, y, width, height }, height % 2 == 0);
                assert_eq!(r.header, Rect { x, y, width, height: 1 });
                assert_eq!(r.footer, Rect { x, y: y + height - 1, width, height: 1 });
                let body = Rect { x, y: y + 1, width, height: height - 2 };
                let (list, side) = if width >= 70 {
                    let edge = (100 * u32::from(x) + 30 * u32::from(width) + 50) / 100;
                    let part = edge as u16 - x;
                    (
                        Rect { width: part, ..body },
                        Rect { x: x + part, width: width - part, ..body },
                    )
                } else {
                    let part = body.height / 3;
                    (
                        Rect { height: part, ..body },
                        Rect { y: body.y + part, height: body.height - part, ..body },
                    )
                };
                assert_eq!(r.list, list);
                let below = if height % 2 == 0 && side.height >= 10 { 6 } else { 0 };
                assert_eq!(r.log, Rect { height: side.height - below, ..side });
                let detail = Rect { y: side.y + side.height - below, height: below, ..side };
                assert_eq!(r.detail, detail);
            }
        }
    }
    let wide = Rect { x: 0, y: 0, width: 65535, height: 1 };
    assert_eq!(
        centered_rect(33, 100, wide),
        Rect { x: 21627, y: 0, width: 21626, height: 1 }
    );
}

#[test]
fn popups_are_centered() {
    let area = Rect { x: 0, y: 0, width: 100, height: 40 };
    assert_eq!(
        centered_fixed_rect(20, 10, area),
        Rect { x: 40, y: 15, width: 20, height: 10 }
    );
    assert_eq!(centered_input_rect(area), Rect { x: 15, y: 17, width: 70, height: 5 });
    assert_eq!(help_rect(20, area), Rect { x: 18, y: 9, width: 64, height: 22 });
    let small = Rect { x: 0, y: 0, width: 10, height: 4 };
    assert_eq!(centered_input_rect(small), Rect { x: 1, y: 0, width: 8, height: 3 });
}

#[test]
fn lines_tell_of_the_servers() {
    let app = app();
    let catalog = catalog();
    let statuses = vec![RuntimeStatus::Running, RuntimeStatus::Stopped, RuntimeStatus::Stale];
    let header = text_of(&header_line(&app, &statuses, "/c.toml", &catalog));
    assert_eq!(
        header,
        format!(" remiaft  1/3 running   {}: /c.toml", words(Text::Config))
    );
    let lines: Vec<String> = server_lines(&app, &statuses, &catalog).iter().map(text_of).collect();
    assert_eq!(
        lines,
        vec![
            "  ▾ TOP  1/2",
            "    ▾ LOW  0/1",
            "      ○ b",
            "    ● a",
            "  ◌ c",
        ]
    );
    let details: Vec<String> = detail_lines(&app, &statuses, &catalog).iter().map(text_of).collect();
    assert_eq!(details[0], format!("{}: TOP", words(Text::SelectedServer)));
    assert_eq!(details[1], "Servers: 2 total, 1 running");
    assert_eq!(log_title(&app, &catalog), words(Text::ServerLog));
}

#[test]
fn details_tell_of_the_selected_server() {
    let mut app = app();
    let catalog = catalog();
    app.selected = 4;
    let statuses = vec![RuntimeStatus::Running, RuntimeStatus::Stopped, RuntimeStatus::Stale];
    let details: Vec<String> = detail_lines(&app, &statuses, &catalog).iter().map(text_of).collect();
    assert_eq!(
        details[0],
        format!("c  {}  {}", words(Text::Stale), app.config.servers[2].id)
    );
    assert_eq!(details[1], format!("{}: /srv", words(Text::Directory)));
    assert_eq!(
        details[2],
        format!(
            "{}: java -Xms1024M -Xmx4096M -jar server.jar nogui",
            words(Text::StartupCommand)
        )
    );
    assert_eq!(
        details[3],
        format!(
            "{}: java  {}: 1024M-4096M  {}: {}",
            words(Text::JavaPath),
            words(Text::Memory),
            words(Text::AutoRestartField),
            words(Text::Disabled)
        )
    );
    assert_eq!(
        log_title(&app, &catalog),
        format!("{} - c ({})", words(Text::ServerLog), words(Text::ConsoleFollow))
    );
}

#[test]
fn the_footer_pads_the_status() {
    let mut app = app();
    app.status = "ok".to_string();
    let hints = words(Text::FooterHints);
    let line = footer_line(&app, 30, &catalog());
    let room = 30 - (hints.len() + 2) - 1;
    assert_eq!(text_of(&line), format!(" {:<room$}{hints}", "ok"));
}

#[test]
fn help_lists_every_key() {
    let lines = help_lines(Language::English, &catalog());
    assert_eq!(lines.len(), 20);
    assert_eq!(text_of(&lines[0]), format!("  {:<18}start / stop / restart current", "s / x / r"));
    assert_eq!(text_of(&lines[17]), format!("  {:<18}quit", "q / Esc"));
    let lines = help_lines(Language::ChineseSimplified, &catalog());
    assert_eq!(text_of(&lines[16]), format!("  {:<18}语言", "l"));
}

#[test]
fn prompts_show_the_cursor() {
    let mut app = app();
    press(&mut app, KeyCode::F(2));
    assert_eq!(input_title(&app, &catalog()), "New group path");
    type_text(&mut app, "ab");
    let field = input_field(&app, Rect { x: 10, y: 5, width: 20, height: 5 });
    assert_eq!(field.text, "ab");
    assert_eq!((field.cursor_x, field.cursor_y), (13, 6));
    let field = input_field(&app, Rect { x: 10, y: 5, width: 3, height: 1 });
    assert_eq!((field.cursor_x, field.cursor_y), (12, 5));
}

fn lies_within(part: Rect, area: Rect) -> bool {
    area.x <= part.x
        && part.x + part.width <= area.x + area.width
        && area.y <= part.y
        && part.y + part.height <= area.y + area.height
}

#[test]
fn the_parts_of_the_screen_lie_on_it() {
    for (width, height) in [(120, 40), (60, 20), (10, 5), (1, 1), (0, 0)] {
        for show_details in [true, false] {
            let area = Rect { x: 3, y: 2, width, height };
            let regions = compute_regions(area, show_details);
            for part in
                [regions.header, regions.list, regions.log, regions.detail, regions.footer]
            {
                assert!(lies_within(part, area));
            }
        }
    }
}

#[test]
fn the_log_is_wrapped_to_its_area() {
    let mut app = app();
    let area = Rect { x: 0, y: 0, width: 100, height: 40 };
    let log = compute_regions(area, true).log;
    app.update_console_layout(area);
    assert_eq!(app.console.wrap_width, usize::from(log.width) - 2);
}

#[test]
fn a_chosen_language_is_kept() {
    let mut config = RemiaftConfig::default();
    let catalog = catalog();
    let mut app = App::new(config, &catalog, Platform::Unix);
    assert_eq!(app.mode, Mode::LanguageSelect);
    let action = app.handle_key(key(KeyCode::Char('2')), &catalog);
    assert!(matches!(action, Action::Save));
    config = app.config;
    let next = App::new(config, &catalog, Platform::Unix);
    assert_eq!(next.mode, Mode::Normal);
    assert_eq!(next.language, Language::ChineseSimplified);
}

#[test]
fn leaving_begins_nothing() {
    let mut app = app();
    let action = app.handle_key(key(KeyCode::Char('q')), &catalog());
    assert!(matches!(action, Action::Quit));
    assert!(app.pending_op(&app.config.servers[0].id).is_none());
    assert_eq!(app.mode, Mode::Normal);
}

#[test]
fn entered_java_args_are_taken() {
    let mut app = app();
    app.selected = (0..app.visible_tree().len())
        .find(|at| matches!(app.visible_tree()[*at].item, TreeItem::Server(_)))
        .unwrap();
    let at = app.selected_index().unwrap();
    app.config.servers[at].java_args = vec!["-Dfoo=bar".to_string(), "-server".to_string()];
    app.handle_key(key(KeyCode::Char('e')), &catalog());
    assert_eq!(app.input, "-Dfoo=bar -server");
    app.handle_key(key(KeyCode::Enter), &catalog());
    assert_eq!(app.config.servers[at].java_args, vec!["-Dfoo=bar", "-server"]);
    app.handle_key(key(KeyCode::Char('e')), &catalog());
    app.input = "-Dfoo=baz '-Dname=a b'".to_string();
    app.handle_key(key(KeyCode::Enter), &catalog());
    assert_eq!(app.config.servers[at].java_args, vec!["-Dfoo=baz", "-Dname=a b"]);
    assert_eq!(app.config.servers[at].jar_path, "server.jar");
    app.handle_key(key(KeyCode::Char('e')), &catalog());
    app.input = "java25 -Xmx1G -Dx=y -jar velocity.jar".to_string();
    app.handle_key(key(KeyCode::Enter), &catalog());
    assert_eq!(app.config.servers[at].java_args, vec!["-Dx=y"]);
    assert_eq!(app.config.servers[at].jar_path, "velocity.jar");
    assert_eq!(app.config.servers[at].max_memory_mb, 1024);
}
