use remiaft::args::{
    add_server_entry, apply_docker_add_args, apply_docker_edit_args, edit_docker_entry,
    parse_port_mapping, parse_u16, parse_volume_mount, DockerAddArgs, DockerEditArgs,
};
use remiaft::config::{DockerProtocol, RconMode, RemiaftConfig, ServerRuntimeKind};
use remiaft::docker::HostPaths;
use remiaft::platform::Platform;

fn add_args() -> DockerAddArgs {
    DockerAddArgs {
        docker: false,
        image: None,
        no_mount: false,
        use_image_entrypoint: false,
        docker_startup: None,
        network: None,
        rcon: None,
        rcon_host_port: None,
        rcon_port_start: None,
        rcon_port_end: None,
        port: Vec::new(),
        volume: Vec::new(),
        auto_remove: false,
    }
}

fn edit_args() -> DockerEditArgs {
    DockerEditArgs {
        image: None,
        network: None,
        mount: false,
        no_mount: false,
        use_image_entrypoint: false,
        no_image_entrypoint: false,
        docker_startup: None,
        rcon: None,
        rcon_host_port: None,
        rcon_port_start: None,
        rcon_port_end: None,
        clear_ports: false,
        port: Vec::new(),
        clear_volumes: false,
        volume: Vec::new(),
        auto_remove: false,
        no_auto_remove: false,
    }
}

fn host() -> HostPaths {
    HostPaths {
        platform: Platform::Unix,
        current_dir: Ok("/work".to_string()),
        resolved: Vec::new(),
    }
}

#[test]
fn parses_cli_port_mappings() {
    let port = parse_port_mapping("127.0.0.1:25575:25575/tcp").unwrap();
    assert_eq!(port.host_ip.as_deref(), Some("127.0.0.1"));
    assert_eq!(port.host_port, Some(25575));
    assert_eq!(port.container_port, 25575);
    assert_eq!(port.protocol, DockerProtocol::Tcp);

    let port = parse_port_mapping("19132/udp").unwrap();
    assert_eq!(port.host_port, None);
    assert_eq!(port.container_port, 19132);
    assert_eq!(port.protocol, DockerProtocol::Udp);
}

#[test]
fn parses_cli_volume_mounts() {
    let volume = parse_volume_mount("/host/plugins:/server/plugins:ro").unwrap();
    assert_eq!(volume.host, "/host/plugins");
    assert_eq!(volume.container, "/server/plugins");
    assert!(volume.read_only);
}

#[test]
fn bad_port_mappings_are_refused() {
    assert!(parse_port_mapping("").is_err());
    assert!(parse_port_mapping("1:2:3:4").is_err());
    assert!(parse_port_mapping("80/sctp").is_err());
    assert!(parse_port_mapping("70000").is_err());
    assert_eq!(
        parse_u16("x", "port").unwrap_err().message,
        "invalid port x: invalid digit found in string"
    );
    assert_eq!(
        parse_u16("70000", "port").unwrap_err().message,
        "invalid port 70000: number too large to fit in target type"
    );
}

#[test]
fn bad_volume_mounts_are_refused() {
    assert!(parse_volume_mount("/only").is_err());
    assert!(parse_volume_mount("/a:/b:xx").is_err());
}

#[test]
fn docker_settings_are_added() {
    let mut config = RemiaftConfig::default();
    config.add_server("room".to_string(), "/srv/room".to_string(), "server.jar".to_string());
    let mut args = add_args();
    args.docker = true;
    args.image = Some("example/room".to_string());
    args.no_mount = true;
    args.rcon = Some(RconMode::Manual);
    args.port = vec!["25565:25565".to_string()];
    apply_docker_add_args(&mut config.servers[0], args).unwrap();
    let docker = &config.servers[0].runtime.docker;
    assert_eq!(config.servers[0].runtime.kind, ServerRuntimeKind::Docker);
    assert_eq!(docker.image.as_deref(), Some("example/room"));
    assert!(!docker.mount_server_directory);
    assert_eq!(docker.rcon.mode, RconMode::Manual);
    assert_eq!(docker.ports.len(), 1);
}

#[test]
fn docker_settings_are_edited() {
    let mut config = RemiaftConfig::default();
    config.add_server("room".to_string(), "/srv/room".to_string(), "server.jar".to_string());
    let mut args = edit_args();
    assert!(!args.has_any());
    args.no_mount = true;
    args.auto_remove = true;
    args.port = vec!["19132/udp".to_string()];
    assert!(args.has_any());
    apply_docker_edit_args(&mut config.servers[0], args).unwrap();
    assert!(!config.servers[0].runtime.docker.mount_server_directory);
    assert!(config.servers[0].runtime.docker.auto_remove);
    let mut args = edit_args();
    args.clear_ports = true;
    args.mount = true;
    args.no_mount = false;
    apply_docker_edit_args(&mut config.servers[0], args).unwrap();
    assert!(config.servers[0].runtime.docker.ports.is_empty());
    assert!(config.servers[0].runtime.docker.mount_server_directory);
}

#[test]
fn servers_are_added_from_the_command_line() {
    let mut config = RemiaftConfig::default();
    add_server_entry(
        &mut config,
        "room".to_string(),
        "/srv/room".to_string(),
        "server.jar".to_string(),
        Some("sh start.sh".to_string()),
        Some("games/bedwars".to_string()),
        add_args(),
        &host(),
    )
    .unwrap();
    assert_eq!(config.groups.len(), 2);
    assert_eq!(config.servers[0].group_id.as_deref(), Some(config.groups[1].id.as_str()));
    assert_eq!(config.servers[0].startup_command.as_deref(), Some("sh start.sh"));
}

#[test]
fn docker_is_switched_from_the_command_line() {
    let mut config = RemiaftConfig::default();
    config.add_server("room".to_string(), "/srv/room".to_string(), "server.jar".to_string());
    let name = edit_docker_entry(&mut config, "room", true, false, edit_args(), &host()).unwrap();
    assert_eq!(name, "room");
    assert!(config.servers[0].uses_docker());
    assert!(edit_docker_entry(&mut config, "other", true, false, edit_args(), &host()).is_err());
}
