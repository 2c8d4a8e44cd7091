use remiaft::config::RemiaftConfig;
use remiaft::platform::Platform;
use remiaft::process::{
    append_command, append_terminal_input, attach_actions, check_attach, idle_step,
    initial_pty_size, java_args, launch_command, pump_terminal_commands, pump_terminal_resize,
    read_pid, read_terminal_size, replay_offset, replay_terminal_output, request_terminal_resize,
    restart_note, restarts, runtime_status, sanitize_terminal_bytes, status_line, supervisor_step, tail_offset,
    AttachAction, IdleStep, RuntimeStatus, SupervisorStep,
};
use remiaft::store::ConfigStore;

fn sanitize_text(input: &str) -> String {
    String::from_utf8_lossy(&sanitize_terminal_bytes(input.as_bytes())).into_owned()
}

fn config() -> RemiaftConfig {
    let mut config = RemiaftConfig::default();
    config.add_server("room".to_string(), "/srv/room".to_string(), "server.jar".to_string());
    config
}

#[test]
fn terminal_input_normalizes_backspace_to_delete() {
    assert_eq!(sanitize_text("sa\u{8}y\r"), "sa\u{7f}y\r");
}

#[test]
fn terminal_input_keeps_known_editing_keys() {
    assert_eq!(
        sanitize_text("\u{1b}[A\u{1b}[B\u{1b}[C\u{1b}[D\u{1b}[H\u{1b}[F\u{1b}[3~\u{1}\u{5}\u{15}\t"),
        "\u{1b}[A\u{1b}[B\u{1b}[C\u{1b}[D\u{1b}[H\u{1b}[F\u{1b}[3~\u{1}\u{5}\u{15}\t"
    );
}

#[test]
fn terminal_input_drops_mouse_and_osc_sequences() {
    assert_eq!(
        sanitize_text("say hi\u{1b}[<64;12;9M\u{1b}]0;title\u{7}\r"),
        "say hi\r"
    );
}

#[test]
fn terminal_input_drops_disallowed_command_text() {
    assert_eq!(
        sanitize_text("say \u{a7}red\u{1b}bad\u{7f}\r"),
        "say redad\u{7f}\r"
    );
}

#[test]
fn plain_terminal_input_is_kept() {
    assert_eq!(sanitize_text("say hello world\r"), "say hello world\r");
}

#[test]
fn states_follow_from_the_process() {
    assert_eq!(runtime_status(None, false), RuntimeStatus::Stopped);
    assert_eq!(runtime_status(Some(7), true), RuntimeStatus::Running);
    assert_eq!(runtime_status(Some(7), false), RuntimeStatus::Stale);
    assert_eq!(read_pid(" 42\n"), Some(42));
    assert_eq!(read_pid("x"), None);
}

#[test]
fn terminal_sizes_read_back() {
    let text = request_terminal_resize(24, 80);
    assert_eq!(read_terminal_size(&text), Some((24, 80)));
    assert_eq!(pump_terminal_resize(&text, Some((24, 80))), None);
    assert_eq!(pump_terminal_resize(&text, None), Some((24, 80)));
    assert_eq!(initial_pty_size(Some("40 120")), (40, 120));
    assert_eq!(initial_pty_size(None), (40, 160));
    assert_eq!(initial_pty_size(Some("nonsense")), (40, 160));
    assert_eq!(read_terminal_size("0 0"), Some((1, 1)));
}

#[test]
fn commands_are_sent_as_lines() {
    assert_eq!(append_command("say hi"), "say hi\n");
    assert_eq!(pump_terminal_commands(b"say hi\nstop\n"), b"say hi\rstop\r");
}

#[test]
fn servers_are_launched_with_their_arguments() {
    let config = config();
    let server = &config.servers[0];
    assert_eq!(
        java_args(server),
        vec!["-Xms1024M", "-Xmx4096M", "-jar", "server.jar", "nogui"]
    );
    let launch = launch_command("java", server, Platform::Unix);
    assert_eq!(launch.program, "java");
    let mut scripted = self::config().servers.remove(0);
    scripted.startup_command = Some("sh start.sh".to_string());
    let launch = launch_command("java", &scripted, Platform::Unix);
    assert_eq!(launch.program, "sh");
    assert_eq!(launch.args, vec!["-c", "sh start.sh"]);
    let launch = launch_command("java", &scripted, Platform::Windows);
    assert_eq!(launch.program, "cmd");
    assert_eq!(launch.args, vec!["/C", "sh start.sh"]);
}

#[test]
fn restarts_are_announced() {
    assert!(restarts(false, true));
    assert!(!restarts(true, true));
    assert!(!restarts(false, false));
    assert_eq!(
        restart_note(Some(-1), 10),
        "server exited with code Some(-1); restarting in 10s\n"
    );
    assert_eq!(restart_note(None, 5), "server exited with code None; restarting in 5s\n");
}

#[test]
fn a_log_is_replayed_however_it_was_read() {
    let text = "服务器日志 🙂\nready\n".repeat(600);
    for size in [1, 2, 3, 7, 8192] {
        let chunks: Vec<Vec<u8>> =
            text.as_bytes().chunks(size).map(|chunk| chunk.to_vec()).collect();
        assert_eq!(replay_terminal_output(&chunks), text);
    }
    assert_eq!(replay_terminal_output(&Vec::new()), "");
    let cut = vec![b"ok ".to_vec(), "日".as_bytes()[..2].to_vec()];
    assert_eq!(replay_terminal_output(&cut), "ok ");
}

#[test]
fn a_supervisor_restarts_or_cleans_up() {
    let store = ConfigStore::new(
        Some("/home/u/.config".to_string()),
        Some("/home/u/.data".to_string()),
        Platform::Unix,
    )
    .unwrap();
    let mut config = config();
    let server = &mut config.servers[0];
    server.id = "room-1".to_string();
    server.auto_restart = true;
    server.restart_delay_secs = 7;
    match supervisor_step(&store, server, false, Some(1)) {
        SupervisorStep::Again { note, delay_secs } => {
            assert_eq!(note, "server exited with code Some(1); restarting in 7s\n");
            assert_eq!(delay_secs, 7);
        }
        SupervisorStep::Done { .. } => panic!("the server was to restart"),
    }
    let dir = "/home/u/.data/remiaft/runtime/room-1";
    let left = ["supervisor.pid", "server.pid", "stop.flag", "terminal.size"]
        .map(|name| format!("{dir}/{name}"));
    assert!(matches!(
        supervisor_step(&store, server, true, Some(1)),
        SupervisorStep::Done { files } if files == left
    ));
    server.auto_restart = false;
    assert!(matches!(
        supervisor_step(&store, server, false, None),
        SupervisorStep::Done { files } if files == left
    ));
}

#[test]
fn attaching_needs_a_running_server() {
    let config = config();
    assert!(check_attach(&config.servers[0], RuntimeStatus::Running).is_ok());
    assert_eq!(
        check_attach(&config.servers[0], RuntimeStatus::Stopped).unwrap_err().message,
        "room is not running"
    );
    assert_eq!(idle_step(RuntimeStatus::Stopped, 24, 80), IdleStep::Exited);
    assert_eq!(
        idle_step(RuntimeStatus::Running, 24, 80),
        IdleStep::Resize { rows: 24, cols: 80 }
    );
}

#[test]
fn attached_keys_are_forwarded_until_detaching() {
    let actions = attach_actions(b"ab\x03c\x15d");
    assert_eq!(actions.len(), 4);
    assert!(matches!(&actions[0], AttachAction::Forward(bytes) if bytes == b"ab"));
    assert!(matches!(&actions[1], AttachAction::Interrupt));
    assert!(matches!(&actions[2], AttachAction::Forward(bytes) if bytes == b"c"));
    assert!(matches!(&actions[3], AttachAction::Detach));
    assert!(attach_actions(b"").is_empty());
}

#[test]
fn replay_starts_near_the_end() {
    assert_eq!(replay_offset(0), 0);
    assert_eq!(replay_offset(65_536 + 7), 7);
    assert_eq!(tail_offset(10, 20), 0);
    assert_eq!(tail_offset(30, 20), 20);
}

#[test]
fn status_lines_are_aligned() {
    let config = config();
    let line = status_line(&config.servers[0], RuntimeStatus::Running);
    assert_eq!(line, format!("{:<20} {:<10} {}", "room", "running", "/srv/room"));
}

fn forwarded(bytes: &[u8]) -> Vec<u8> {
    let mut out = Vec::new();
    for action in attach_actions(bytes) {
        if let AttachAction::Forward(bytes) = action {
            out.extend(bytes);
        }
    }
    out
}

#[test]
fn typed_text_is_forwarded_whole() {
    assert_eq!(forwarded(b"say hi\r"), b"say hi\r");
    assert!(attach_actions(b"").is_empty());
}

#[test]
fn leaving_a_console_does_not_interrupt() {
    let actions = attach_actions(b"say\x15more\x03");
    assert_eq!(actions.len(), 2);
    assert!(matches!(&actions[0], AttachAction::Forward(bytes) if bytes == b"say"));
    assert!(matches!(&actions[1], AttachAction::Detach));
}

#[test]
fn process_numbers_read_back() {
    assert_eq!(read_pid(&4_294_967_295_u32.to_string()), Some(4_294_967_295));
    assert_eq!(read_pid(" 42\n"), Some(42));
    assert_eq!(read_pid("4294967296"), None);
    assert_eq!(read_pid(""), None);
}

#[test]
fn typed_terminal_text_is_sanitized() {
    assert_eq!(append_terminal_input("sa\u{8}y \u{a7}c"), b"sa\x7fy c");
}
