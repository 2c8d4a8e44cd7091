use remiaft::rcon::{
    check_login, command_answer, configure_server_properties, property_key, read_length,
    read_packet, send_command, send_command_no_response, upsert_properties, write_packet,
    RconPacket, RconSession, SendAction, SendEvent, SendState,
};

#[test]
fn property_updates_preserve_unrelated_lines() {
    let raw = configure_server_properties(
        "# comment\nenable-rcon=false\nserver-port=25565\n",
        25576,
        "secret",
    );
    assert!(raw.contains("# comment"));
    assert!(raw.contains("server-port=25565"));
    assert!(raw.contains("enable-rcon=true"));
    assert!(raw.contains("rcon.port=25576"));
    assert!(raw.contains("rcon.password=secret"));
    assert_eq!(
        raw,
        "# comment\nenable-rcon=true\nserver-port=25565\nrcon.port=25576\nrcon.password=secret\n"
    );
}

#[test]
fn setting_properties_again_changes_nothing() {
    let once = configure_server_properties("a=1\n", 25575, "p");
    assert_eq!(configure_server_properties(&once, 25575, "p"), once);
    let none: Vec<(String, String)> = Vec::new();
    assert_eq!(upsert_properties("a=1", &none), "a=1\n");
}

#[test]
fn comments_have_no_key() {
    assert_eq!(property_key("# x=1"), None);
    assert_eq!(property_key(" a = 1").as_deref(), Some("a"));
}

#[test]
fn packets_read_back() {
    let bytes = write_packet(7, 2, "say 你好");
    let length = read_length(&bytes).unwrap();
    assert_eq!(length, bytes.len() - 4);
    let packet = read_packet(&bytes[4..]);
    assert_eq!(packet.id, 7);
    assert_eq!(packet.kind, 2);
    assert_eq!(packet.body, "say 你好");
    assert_eq!(&write_packet(1, 3, "x")[..], &[11, 0, 0, 0, 1, 0, 0, 0, 3, 0, 0, 0, b'x', 0, 0]);
}

#[test]
fn short_packets_are_refused() {
    assert_eq!(
        read_length(&[9, 0, 0, 0]).unwrap_err().message,
        "invalid RCON packet length 9"
    );
    assert_eq!(
        read_length(&[0xff, 0xff, 0xff, 0xff]).unwrap_err().message,
        "invalid RCON packet length -1"
    );
}

#[test]
fn invalid_text_in_packets_is_replaced() {
    let packet = read_packet(&[1, 0, 0, 0, 0, 0, 0, 0, 0xff, b'a', 0, 0]);
    assert_eq!(packet.body, "\u{fffd}a");
}

#[test]
fn sessions_number_their_packets() {
    let mut session = RconSession::new();
    let login = session.login("secret");
    assert_eq!(read_packet(&login[4..]).id, 1);
    assert_eq!(read_packet(&login[4..]).kind, 3);
    let (id, bytes) = session.command("list");
    assert_eq!(id, 2);
    assert_eq!(read_packet(&bytes[4..]).body, "list");
}

#[test]
fn answers_are_checked() {
    let packet = |id: i32, kind: i32| RconPacket { id, kind, body: "ok".to_string() };
    assert!(check_login(&packet(1, 2)).is_ok());
    assert_eq!(
        check_login(&packet(-1, 2)).unwrap_err().message,
        "RCON authentication failed"
    );
    assert!(check_login(&packet(1, 0)).is_err());
    assert_eq!(command_answer(4, packet(4, 0)).unwrap(), "ok");
    assert_eq!(
        command_answer(4, packet(5, 0)).unwrap_err().message,
        "unexpected RCON response id 5"
    );
}

#[test]
fn every_property_has_the_value_that_it_was_set_to() {
    let text = configure_server_properties("rcon.port=1\nrcon.port=2\n", 25576, "secret");
    assert_eq!(text, "rcon.port=25576\nrcon.port=2\nenable-rcon=true\nrcon.password=secret\n");
}

fn answer(id: i32, kind: i32, body: &str) -> SendEvent {
    SendEvent::Answered(Ok(RconPacket { id, kind, body: body.to_string() }))
}

#[test]
fn a_command_follows_the_password() {
    let (mut flow, action) = send_command("secret", "list");
    assert!(matches!(action, SendAction::Exchange(bytes) if bytes == write_packet(1, 3, "secret")));
    let action = flow.advance(answer(1, 2, "")).unwrap();
    assert!(matches!(action, SendAction::Exchange(bytes) if bytes == write_packet(2, 2, "list")));
    assert_eq!(flow.state, SendState::Asking(2));
    assert_eq!(
        flow.advance(answer(3, 0, "other")).unwrap_err().message,
        "unexpected RCON response id 3"
    );
    let action = flow.advance(answer(2, 0, "nobody is here")).unwrap();
    assert!(matches!(action, SendAction::Done(Some(text)) if text == "nobody is here"));
    assert_eq!(flow.state, SendState::Finished);
}

#[test]
fn a_refused_password_sends_no_command() {
    for refusal in [answer(-1, 2, ""), answer(1, 0, "")] {
        let (mut flow, _) = send_command_no_response("wrong", "stop");
        let failure = flow.advance(refusal).unwrap_err();
        assert_eq!(failure.message, "RCON authentication failed");
        assert_eq!(flow.state, SendState::LoggingIn);
    }
    let (mut flow, _) = send_command("secret", "list");
    let silent = SendEvent::Answered(Err("timed out".to_string()));
    assert_eq!(flow.advance(silent).unwrap_err().message, "timed out");
}

#[test]
fn a_command_can_go_without_an_answer() {
    let (mut flow, _) = send_command_no_response("secret", "stop");
    let action = flow.advance(answer(1, 2, "")).unwrap();
    assert!(matches!(action, SendAction::Write(bytes) if bytes == write_packet(2, 2, "stop")));
    let broken = SendEvent::Written(Err("closed".to_string()));
    assert_eq!(flow.advance(broken).unwrap_err().message, "closed");
    let action = flow.advance(SendEvent::Written(Ok(()))).unwrap();
    assert!(matches!(action, SendAction::Done(None)));
}
