use remiaft::collections::StringMap;
use remiaft::config::{DockerPortMapping, DockerUserMode, RconMode, RemiaftConfig, ServerConfig};
use remiaft::container::{ContainerConfig, ContainerInspect, ContainerState};
use remiaft::docker::{labels, HostPaths, RuntimeStatus};
use remiaft::docker_api::{
    audit_line, decode_chunked, encode_path, encode_query, find_mark, split_image, DockerApiError,
    DockerClient, DockerRequest, DockerResponse,
};
use remiaft::lifecycle::{
    configure_rcon_if_possible, console_answer, inspect_body, inspect_request, log_contents,
    rcon_target, read_console_line, recent_lines, runtime_status, send_rcon_command,
    setup_failed_note, start_server, stop_step, sync_logs, ConsoleLine, RconSetup, StartAction,
    StartEvent, StopStep,
};
use remiaft::manifest::{fetch_versions, package_urls, version_line, ManifestVersion};
use remiaft::platform::Platform;
use remiaft::prepare::{needs_free_port, next_port, prepare_server, prepare_server_with};
use remiaft::stopping::{
    interrupt_server, stop_server, StopAction, StopEvent, StopFlow, StopState,
};

fn server() -> ServerConfig {
    let mut config = RemiaftConfig::default();
    config.add_server("room".to_string(), "/srv/room".to_string(), "server.jar".to_string());
    config.servers.remove(0)
}

fn host() -> HostPaths {
    HostPaths {
        platform: Platform::Unix,
        current_dir: Ok("/work".to_string()),
        resolved: Vec::new(),
    }
}

fn container(labels: StringMap, running: bool) -> ContainerInspect {
    ContainerInspect {
        name: Some("/remiaft-room".to_string()),
        state: Some(ContainerState { running }),
        config: Some(ContainerConfig { labels: Some(labels) }),
        host_config: None,
    }
}

fn reply(status: u16, body: &[u8]) -> DockerResponse {
    DockerResponse { status, body: body.to_vec() }
}

#[test]
fn requests_are_written_as_http() {
    let client = DockerClient::connect(Platform::Unix).unwrap();
    let ping = client.ping();
    assert_eq!(ping.method, "GET");
    assert_eq!(ping.path, "/_ping");
    let bytes = String::from_utf8(ping.to_bytes()).unwrap();
    assert!(bytes.starts_with("GET /_ping HTTP/1.1\r\n"));
    assert!(bytes.ends_with("\r\n\r\n"));
    assert!(matches!(DockerClient::connect(Platform::Windows), Err(DockerApiError::Unsupported)));
}

#[test]
fn image_requests_encode_their_names() {
    let client = DockerClient::connect(Platform::Unix).unwrap();
    assert_eq!(client.image_exists("a b").path, "/images/a%20b/json");
    let pull = client.pull_image("itzg/minecraft-server:java21");
    assert_eq!(pull.method, "POST");
    assert!(pull.path.contains("tag=java21"));
    assert_eq!(client.post_empty("/x").body.len(), 0);
    assert_eq!(DockerRequest::bare("GET", "/y".to_string()).path, "/y");
}

#[test]
fn texts_are_percent_encoded() {
    assert_eq!(encode_path("a/b c"), "a%2Fb%20c");
    assert_eq!(encode_query("a/b:c"), "a/b%3Ac");
}

#[test]
fn images_are_split_at_their_tag() {
    assert_eq!(split_image("a:1"), ("a", Some("1")));
    assert_eq!(split_image("host:5000/a"), ("host:5000/a", None));
    assert_eq!(split_image("a"), ("a", None));
}

#[test]
fn replies_are_read() {
    let raw = b"HTTP/1.1 200 OK\r\nContent-Length: 2\r\n\r\nok";
    assert!(DockerResponse::is_framed(raw));
    let response = DockerResponse::parse(raw).unwrap();
    assert_eq!(response.status, 200);
    assert_eq!(response.body, b"ok");
    assert!(response.ensure_success().is_ok());
}

#[test]
fn chunked_replies_are_put_together() {
    let raw = b"HTTP/1.1 200 OK\r\nTransfer-Encoding: chunked\r\n\r\n3\r\nabc\r\n2\r\nde\r\n0\r\n\r\n";
    assert!(DockerResponse::is_framed(raw));
    assert_eq!(DockerResponse::parse(raw).unwrap().body, b"abcde");
    assert_eq!(decode_chunked(b"1\r\nx\r\n0\r\n\r\n").unwrap(), b"x");
    assert!(matches!(decode_chunked(b"5\r\nab"), Err(DockerApiError::TruncatedChunks)));
    assert!(matches!(decode_chunked(b"zz\r\nab"), Err(DockerApiError::InvalidChunkSize(_))));
    assert!(matches!(decode_chunked(b"5"), Err(DockerApiError::InvalidChunks)));
    assert!(!DockerResponse::is_framed(
        b"HTTP/1.1 200 OK\r\nTransfer-Encoding: chunked\r\n\r\n1\r\nx"
    ));
}

#[test]
fn bad_replies_are_refused() {
    assert!(matches!(DockerResponse::parse(b"nothing"), Err(DockerApiError::InvalidResponse)));
    assert!(matches!(
        DockerResponse::parse(b"HTTP/1.1\r\n\r\n"),
        Err(DockerApiError::MissingStatusCode)
    ));
    assert!(matches!(
        DockerResponse::parse(b"HTTP/1.1 abc\r\n\r\n"),
        Err(DockerApiError::InvalidStatus(_))
    ));
    assert!(matches!(
        DockerResponse::parse(b"\r\n\r\n"),
        Err(DockerApiError::MissingStatusLine) | Err(DockerApiError::MissingStatusCode)
    ));
}

#[test]
fn refusals_carry_the_message_of_the_engine() {
    let refused = reply(409, b"{\"message\":\"name in use\"}");
    assert_eq!(
        refused.ensure_success().unwrap_err().message(),
        "Docker API returned 409: name in use"
    );
    let plain = reply(500, b" broken \n");
    assert_eq!(
        plain.ensure_success().unwrap_err().message(),
        "Docker API returned 500: broken"
    );
    assert_eq!(reply(404, b"").image_found().unwrap(), false);
    assert_eq!(reply(200, b"").image_found().unwrap(), true);
    assert!(reply(500, b"").image_found().is_err());
}

#[test]
fn marks_are_found_from_a_position_on() {
    assert_eq!(find_mark(b"a--b--", b"--", 0), Some(1));
    assert_eq!(find_mark(b"a--b--", b"--", 2), Some(4));
    assert_eq!(find_mark(b"ab", b"--", 0), None);
}

#[test]
fn audit_lines_are_json() {
    let line = audit_line(7, 42, "GET", "/_ping", Some(200), None);
    let value: serde_json::Value = serde_json::from_slice(&line).unwrap();
    assert_eq!(value["timestamp_unix"], 7);
    assert_eq!(value["pid"], 42);
    assert_eq!(value["method"], "GET");
    assert_eq!(value["path"], "/_ping");
    assert_eq!(value["status"], 200);
    assert!(value["error"].is_null());
    assert_eq!(line.last(), Some(&b'\n'));
}

#[test]
fn a_missing_container_is_made_and_started() {
    let server = server();
    let images = vec!["image:1".to_string()];
    let (mut flow, action) =
        start_server(&server, &host(), images).unwrap();
    assert!(matches!(action, StartAction::Send(request) if request.path == "/_ping"));
    let mut next = |event: StartEvent| {
        flow.advance(&server, &host(), "1000:1000", event).unwrap()
    };
    let action = next(StartEvent::Replied(Ok(reply(200, b"OK"))));
    assert!(matches!(action, StartAction::Inspect(_)));
    let action = next(StartEvent::Inspected(Ok(None)));
    assert!(matches!(action, StartAction::SetUp(_)));
    let action = next(StartEvent::Done(Ok(())));
    assert!(matches!(&action, StartAction::Send(request) if request.path == "/images/image%3A1/json"), "{action:?}");
    let action = next(StartEvent::Replied(Ok(reply(200, b"{}"))));
    assert!(matches!(&action, StartAction::Send(_)), "{action:?}");
}

#[test]
fn a_foreign_container_stops_the_start() {
    let server = server();
    let (mut flow, _) = start_server(
        &server,
        &host(),
        vec!["image:1".to_string()],
    )
    .unwrap();
    flow.advance(&server, &host(), "1000:1000", StartEvent::Replied(Ok(reply(200, b"OK")))).unwrap();
    let foreign = container(StringMap::new(), false);
    assert!(flow
        .advance(&server, &host(), "1000:1000", StartEvent::Inspected(Ok(Some(foreign))))
        .is_err());
}

#[test]
fn a_running_container_is_kept() {
    let server = server();
    let (mut flow, _) = start_server(
        &server,
        &host(),
        vec!["image:1".to_string()],
    )
    .unwrap();
    flow.advance(&server, &host(), "1000:1000", StartEvent::Replied(Ok(reply(200, b"OK")))).unwrap();
    let own = container(labels(&server, &flow.config_hash), true);
    let action = flow
        .advance(&server, &host(), "1000:1000", StartEvent::Inspected(Ok(Some(own))))
        .unwrap();
    assert!(matches!(action, StartAction::SyncLogs));
    let action = flow.advance(&server, &host(), "1000:1000", StartEvent::Done(Ok(()))).unwrap();
    assert!(matches!(action, StartAction::Nothing));
}

#[test]
fn a_running_container_with_other_settings_stops_the_start() {
    let server = server();
    let (mut flow, _) = start_server(
        &server,
        &host(),
        vec!["image:1".to_string()],
    )
    .unwrap();
    flow.advance(&server, &host(), "1000:1000", StartEvent::Replied(Ok(reply(200, b"OK")))).unwrap();
    let other = container(labels(&server, "other"), true);
    assert_eq!(
        flow.advance(&server, &host(), "1000:1000", StartEvent::Inspected(Ok(Some(other))))
            .unwrap_err()
            .message,
        "Docker config changed for room; stop it before Remiaft recreates the container"
    );
}

#[test]
fn an_engine_that_refuses_stops_the_start() {
    let server = server();
    let (mut flow, _) = start_server(
        &server,
        &host(),
        vec!["image:1".to_string()],
    )
    .unwrap();
    assert!(flow
        .advance(&server, &host(), "1000:1000", StartEvent::Replied(Err("no socket".to_string())))
        .is_err());
}

#[test]
fn an_engine_is_asked_for_before_the_settings_are_written_down() {
    let mut server = server();
    server.runtime.docker.user.mode = DockerUserMode::Custom;
    let images = vec!["image:1".to_string()];
    let (mut flow, action) =
        start_server(&server, &host(), images).unwrap();
    assert!(matches!(action, StartAction::Send(request) if request.path == "/_ping"));
    let absent = StartEvent::Replied(Err("no socket".to_string()));
    assert_eq!(
        flow.advance(&server, &host(), "1000:1000", absent).unwrap_err().message,
        "no socket"
    );
    let there = StartEvent::Replied(Ok(reply(200, b"OK")));
    let problem = flow.advance(&server, &host(), "1000:1000", there).unwrap_err().message;
    assert!(problem.contains("uid"), "{problem}");
}

#[test]
fn container_states_are_told() {
    let server = server();
    let own = || container(labels(&server, "hash"), true);
    assert_eq!(runtime_status(&server, &host(), &Some(Some(own()))), RuntimeStatus::Running);
    assert_eq!(runtime_status(&server, &host(), &Some(None)), RuntimeStatus::Stopped);
    assert_eq!(runtime_status(&server, &host(), &None), RuntimeStatus::Stopped);
    let foreign = container(StringMap::new(), true);
    assert_eq!(runtime_status(&server, &host(), &Some(Some(foreign))), RuntimeStatus::Stale);
}

#[test]
fn logs_and_inspections_are_read_from_replies() {
    assert_eq!(inspect_body(&reply(404, b"")).unwrap(), None);
    assert_eq!(inspect_body(&reply(200, b"{}")).unwrap(), Some(&b"{}"[..]));
    assert!(inspect_body(&reply(500, b"")).is_err());
    assert_eq!(log_contents(&reply(404, b"")).unwrap(), None);
    assert_eq!(log_contents(&reply(200, b"log")).unwrap().as_deref(), Some(&b"log"[..]));
    assert!(inspect_request("a b").path.contains("a%20b"));
    assert!(sync_logs(&server(), &host(), &None).is_ok());
}

#[test]
fn remote_console_is_set_up_where_possible() {
    let mut server = server();
    assert!(matches!(configure_rcon_if_possible(&server), RconSetup::Note(_)));
    server.runtime.docker.rcon.password = Some("secret".to_string());
    assert!(matches!(
        configure_rcon_if_possible(&server),
        RconSetup::Configure { container_port: 25575, .. }
    ));
    server.runtime.docker.rcon.mode = RconMode::Disabled;
    assert!(matches!(configure_rcon_if_possible(&server), RconSetup::Skip));
}

#[test]
fn remote_console_needs_port_and_password() {
    let mut server = server();
    assert_eq!(rcon_target(&server).unwrap_err().message, "missing RCON password for room");
    server.runtime.docker.rcon.password = Some("secret".to_string());
    assert_eq!(rcon_target(&server).unwrap_err().message, "missing RCON host port for room");
    server.runtime.docker.rcon.host_port = Some(25575);
    let target = rcon_target(&server).unwrap();
    assert_eq!((target.host.as_str(), target.port), ("127.0.0.1", 25575));
    server.runtime.docker.rcon.mode = RconMode::Disabled;
    assert_eq!(rcon_target(&server).unwrap_err().message, "RCON is disabled for room");
}

#[test]
fn stops_are_forced_after_thirty_seconds() {
    assert_eq!(stop_step(0, true), StopStep::Wait);
    assert_eq!(stop_step(10, false), StopStep::Stopped);
    assert_eq!(stop_step(30_000, true), StopStep::Force);
}

#[test]
fn console_lines_are_read() {
    assert!(matches!(read_console_line(" EXIT \n"), ConsoleLine::Leave));
    assert!(matches!(read_console_line("\n"), ConsoleLine::Nothing));
    assert!(matches!(read_console_line(" list \n"), ConsoleLine::Send(line) if line == "list"));
    assert_eq!(console_answer(Ok("done\n".to_string())).as_deref(), Some("done"));
    assert_eq!(console_answer(Ok(" \n".to_string())), None);
    assert_eq!(console_answer(Err("x".to_string())).as_deref(), Some("RCON failed: x"));
}

#[test]
fn preparing_fills_in_port_and_password() {
    let mut server = server();
    assert!(needs_free_port(&server));
    prepare_server_with(&mut server, "abc", Some(25580)).unwrap();
    let docker = &server.runtime.docker;
    assert_eq!(docker.rcon.password.as_deref(), Some("remiaft-abc"));
    assert_eq!(docker.rcon.host_port, Some(25580));
    assert_eq!(docker.ports.len(), 2);
    assert!(!needs_free_port(&server));
    let password = server.runtime.docker.rcon.password.clone();
    prepare_server(&mut server, None).unwrap();
    assert_eq!(server.runtime.docker.rcon.password, password);
    assert_eq!(server.runtime.docker.ports.len(), 2);
}

#[test]
fn preparing_makes_new_passwords() {
    let mut first = server();
    let mut second = server();
    prepare_server(&mut first, Some(1)).unwrap();
    prepare_server(&mut second, Some(1)).unwrap();
    let a = first.runtime.docker.rcon.password.unwrap();
    let b = second.runtime.docker.rcon.password.unwrap();
    assert_ne!(a, b);
    assert_eq!(a.len(), "remiaft-".len() + 32);
}

#[test]
fn preparing_without_a_free_port_fails() {
    let mut server = server();
    assert_eq!(
        prepare_server_with(&mut server, "abc", None).unwrap_err().message,
        "no free RCON port in range 25575-25999"
    );
    let mut mapped = self::server();
    mapped.runtime.docker.ports.push(DockerPortMapping::tcp(
        "rcon".to_string(),
        25575,
        Some(30000),
    ));
    assert!(!needs_free_port(&mapped));
}

#[test]
fn reserved_ports_are_passed_over() {
    assert_eq!(next_port(5, 10, &[5, 6]), Some(7));
    assert_eq!(next_port(5, 6, &[5, 6]), None);
    assert_eq!(next_port(11, 10, &[]), None);
    let search = |free: &[u16]| {
        let mut from = 5u32;
        while let Some(port) = next_port(from, 10, &[6, 8]) {
            if free.contains(&port) {
                return Some(port);
            }
            from = u32::from(port) + 1;
        }
        None
    };
    assert_eq!(search(&[6, 8, 9, 10]), Some(9));
    assert_eq!(search(&[6, 8, 11]), None);
    assert_eq!(next_port(65535, 65535, &[]), Some(65535));
    assert_eq!(next_port(65536, 65535, &[]), None);
}

#[test]
fn versions_are_listed_with_their_servers() {
    let listed = vec![
        ManifestVersion { id: "1.21".to_string(), kind: "release".to_string(), url: "u1".to_string() },
        ManifestVersion { id: "1.20".to_string(), kind: "release".to_string(), url: "u2".to_string() },
    ];
    assert_eq!(package_urls(&listed, 1), vec!["u1"]);
    let versions = fetch_versions(&listed, 5, &vec![Some("s1".to_string()), None]);
    assert_eq!(versions.len(), 2);
    assert_eq!(version_line(&versions[0]), "1.21 release s1");
    assert_eq!(version_line(&versions[1]), "1.20 release ");
}

#[test]
fn failures_of_the_remote_console_are_noted() {
    assert_eq!(
        setup_failed_note("no room"),
        "RCON auto configuration failed; configure manually: no room\n"
    );
}

fn ready_server() -> ServerConfig {
    let mut server = server();
    server.runtime.docker.rcon.password = Some("secret".to_string());
    server.runtime.docker.rcon.host_port = Some(25575);
    server
}

fn own_container(server: &ServerConfig) -> StopEvent {
    StopEvent::Inspected(Ok(Some(container(labels(server, "hash"), true))))
}

#[test]
fn a_server_that_stops_by_itself_is_not_forced() {
    let server = ready_server();
    let (mut flow, action) = stop_server(&server, &host()).unwrap();
    assert!(matches!(
        action,
        StopAction::Inspect { note: None, request }
            if request.method == "GET" && request.path.ends_with("/json")
    ));
    let mut next = |event: StopEvent| flow.advance(&server, &host(), event).unwrap();
    assert!(matches!(
        next(own_container(&server)),
        StopAction::Ask(target) if target.port == 25575 && target.password == "secret"
    ));
    let action = next(StopEvent::Asked(Ok(())));
    assert!(matches!(action, StopAction::Look { note: None, pause: false }));
    let action =
        next(StopEvent::Looked { status: RuntimeStatus::Running, elapsed_ms: 29_999 });
    assert!(matches!(action, StopAction::Look { note: None, pause: true }));
    let action =
        next(StopEvent::Looked { status: RuntimeStatus::Stopped, elapsed_ms: 29_999 });
    assert!(matches!(action, StopAction::SyncLogs));
    assert!(matches!(next(StopEvent::Synced), StopAction::Nothing));
    assert_eq!(flow.state, StopState::Finished);
}

#[test]
fn a_server_that_goes_on_is_stopped_by_the_engine() {
    let server = server();
    let (mut flow, _) = stop_server(&server, &host()).unwrap();
    let action = flow.advance(&server, &host(), own_container(&server)).unwrap();
    assert!(matches!(
        action,
        StopAction::Look { note: Some(note), pause: false }
            if note == "RCON stop failed, falling back to Docker stop: missing RCON password for room\n"
    ));
    let looked = StopEvent::Looked { status: RuntimeStatus::Running, elapsed_ms: 30_000 };
    let action = flow.advance(&server, &host(), looked).unwrap();
    assert!(matches!(
        action,
        StopAction::Send(request)
            if request.method == "POST" && request.path.ends_with("/stop?t=10")
    ));
    let forcing = flow;
    assert!(flow.advance(&server, &host(), StopEvent::Replied(Ok(reply(500, b"no")))).is_err());
    assert_eq!(flow, forcing);
    let action = flow.advance(&server, &host(), StopEvent::Replied(Ok(reply(204, b"")))).unwrap();
    assert!(matches!(action, StopAction::SyncLogs));
}

#[test]
fn an_interruption_ends_once_the_console_was_told() {
    let server = ready_server();
    let (mut flow, _) = interrupt_server(&server, &host()).unwrap();
    flow.advance(&server, &host(), own_container(&server)).unwrap();
    let action = flow.advance(&server, &host(), StopEvent::Asked(Ok(()))).unwrap();
    assert!(matches!(action, StopAction::Nothing));
}

#[test]
fn an_interruption_that_fails_becomes_a_stop() {
    let server = ready_server();
    let (mut flow, _) = interrupt_server(&server, &host()).unwrap();
    flow.advance(&server, &host(), own_container(&server)).unwrap();
    let refused = StopEvent::Asked(Err("refused".to_string()));
    let action = flow.advance(&server, &host(), refused).unwrap();
    assert!(matches!(
        action,
        StopAction::Inspect { note: Some(note), .. }
            if note == "RCON interrupt failed, falling back to Docker stop: refused\n"
    ));
    assert_eq!(flow, StopFlow { state: StopState::Inspecting, interrupting: false });
}

#[test]
fn a_foreign_container_is_not_stopped() {
    let server = ready_server();
    let (mut flow, _) = stop_server(&server, &host()).unwrap();
    let foreign = container(StringMap::new(), true);
    assert!(flow.advance(&server, &host(), StopEvent::Inspected(Ok(Some(foreign)))).is_err());
    let missing = flow.advance(&server, &host(), StopEvent::Inspected(Ok(None))).unwrap_err();
    assert!(missing.message.starts_with("Docker container does not exist: "));
    let unread = StopEvent::Inspected(Err("no socket".to_string()));
    assert_eq!(flow.advance(&server, &host(), unread).unwrap_err().message, "no socket");
    let windows = HostPaths { platform: Platform::Windows, ..host() };
    assert!(stop_server(&server, &windows).is_err());
}

#[test]
fn commands_go_to_the_own_container_only() {
    let mut server = ready_server();
    let own = Some(container(labels(&server, "hash"), true));
    assert_eq!(send_rcon_command(&server, &host(), &own).unwrap().port, 25575);
    let foreign = Some(container(StringMap::new(), true));
    assert!(send_rcon_command(&server, &host(), &foreign).is_err());
    assert!(send_rcon_command(&server, &host(), &None).is_err());
    server.runtime.docker.rcon.mode = RconMode::Disabled;
    assert_eq!(
        send_rcon_command(&server, &host(), &own).unwrap_err().message,
        "RCON is disabled for room"
    );
}

#[test]
fn the_last_lines_of_a_log_are_shown() {
    let raw: String = (0..50).map(|i| format!("line {i}\n")).collect();
    let lines = recent_lines(&raw);
    assert_eq!(lines.len(), 40);
    assert_eq!(lines[0], "line 10");
    assert_eq!(lines[39], "line 49");
}
