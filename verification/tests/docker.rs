use remiaft::args::parse_volume_mount;
use remiaft::collections::StringMap;
use remiaft::config::{
    DockerPortMapping, DockerProtocol, DockerUserMode, DockerVolumeMount, RconMode, RemiaftConfig,
    ServerConfig, ServerRuntimeKind,
};
use remiaft::container::{
    container_config_hash, create_container, create_network, decode_docker_log,
    ensure_manageable_container, fnv1a64, is_manageable_container, port_key, validate_bind_spec,
    ContainerConfig, ContainerHostConfig, ContainerInspect, ContainerState,
};
use remiaft::docker::{
    bind_mounts, container_command, container_jar_path, container_name, container_user, environment,
    is_dangerous_mount_path, labels, network_name, normalize_absolute_path,
    normalize_container_mount_path, validate_bind_mount, validate_server_config,
    validate_server_security, working_dir, HostPaths,
};
use remiaft::images::{
    contains_china_region_hint, docker_hub_mirror_image, docker_registry_region,
    image_candidates_for_region, minecraft_java_major, parse_registry_region, DockerRegistryRegion,
};
use remiaft::platform::Platform;

fn server_in(name: &str, directory: &str) -> ServerConfig {
    let mut config = RemiaftConfig::default();
    config.add_server(name.to_string(), directory.to_string(), "server.jar".to_string());
    config.servers.remove(0)
}

fn host() -> HostPaths {
    HostPaths {
        platform: Platform::Unix,
        current_dir: Ok("/work".to_string()),
        resolved: Vec::new(),
    }
}

fn required_labels(server: &ServerConfig) -> StringMap {
    let mut labels = StringMap::new();
    labels.insert("remiaft.manager".to_string(), "true".to_string());
    labels.insert("com.remiaft.server_id".to_string(), server.id.clone());
    labels
}

fn inspect_with_labels(labels: StringMap) -> ContainerInspect {
    ContainerInspect {
        name: Some("remiaft-room".to_string()),
        state: Some(ContainerState { running: false }),
        config: Some(ContainerConfig { labels: Some(labels) }),
        host_config: None,
    }
}

#[test]
fn generated_container_name_is_stable_and_scoped() {
    let server = server_in("Bed Wars Room 1", ".");
    assert!(container_name(&server).starts_with("remiaft-bed-wars-room-1-"));
}

#[test]
fn default_image_tracks_minecraft_java_requirement() {
    let mut server = server_in("old", ".");
    server.version = Some("1.16.5".to_string());
    assert_eq!(
        image_candidates_for_region(&server, DockerRegistryRegion::Global)[0],
        "eclipse-temurin:8-jre"
    );

    server.version = Some("1.21.1".to_string());
    assert_eq!(
        image_candidates_for_region(&server, DockerRegistryRegion::Global)[0],
        "eclipse-temurin:21-jre"
    );
}

#[test]
fn java_versions_follow_minecraft_versions() {
    assert_eq!(minecraft_java_major(Some("1.16.5")), 8);
    assert_eq!(minecraft_java_major(Some("1.17")), 16);
    assert_eq!(minecraft_java_major(Some("1.18.2")), 17);
    assert_eq!(minecraft_java_major(Some("1.20.4")), 17);
    assert_eq!(minecraft_java_major(Some("1.21")), 21);
    assert_eq!(minecraft_java_major(None), 21);
}

#[test]
fn china_region_prefers_docker_hub_mirror_then_falls_back() {
    let server = server_in("room", ".");
    let candidates = image_candidates_for_region(&server, DockerRegistryRegion::China);

    assert_eq!(candidates[0], "docker.m.daocloud.io/library/eclipse-temurin:21-jre");
    assert!(candidates.contains(&"eclipse-temurin:21-jre".to_string()));
}

#[test]
fn regions_are_read_from_settings_and_hints() {
    assert_eq!(parse_registry_region(" CN "), Some(DockerRegistryRegion::China));
    assert_eq!(parse_registry_region("nowhere"), None);
    assert!(contains_china_region_hint("zh_CN.UTF-8"));
    assert!(!contains_china_region_hint("en_US.UTF-8"));
    let none: Vec<String> = Vec::new();
    assert_eq!(docker_registry_region(&none, &none), DockerRegistryRegion::Global);
    let hints = vec!["Asia/Shanghai".to_string()];
    assert_eq!(docker_registry_region(&none, &hints), DockerRegistryRegion::China);
    let settings = vec!["global".to_string()];
    assert_eq!(docker_registry_region(&settings, &hints), DockerRegistryRegion::Global);
}

#[test]
fn mirrors_are_offered_for_docker_hub_images_only() {
    assert_eq!(
        docker_hub_mirror_image("eclipse-temurin:21-jre").as_deref(),
        Some("docker.m.daocloud.io/library/eclipse-temurin:21-jre")
    );
    assert_eq!(
        docker_hub_mirror_image("itzg/minecraft-server").as_deref(),
        Some("docker.m.daocloud.io/itzg/minecraft-server")
    );
    assert_eq!(docker_hub_mirror_image("ghcr.io/owner/image:1"), None);
}

#[test]
fn container_config_hash_changes_when_ports_change() {
    let mut server = server_in("room", ".");
    server.runtime.kind = ServerRuntimeKind::Docker;

    let before = container_config_hash(&server, "1000:1000", Platform::Unix).unwrap();
    server.runtime.docker.ports.push(DockerPortMapping::tcp(
        "minecraft".to_string(),
        25565,
        Some(25565),
    ));
    let after = container_config_hash(&server, "1000:1000", Platform::Unix).unwrap();

    assert_ne!(before, after);
    assert_eq!(after.len(), 16);
}

#[test]
fn names_and_password_leave_the_hash_alone() {
    let mut server = server_in("room", ".");
    server.runtime.kind = ServerRuntimeKind::Docker;
    let before = container_config_hash(&server, "1000:1000", Platform::Unix).unwrap();
    assert_eq!(before.len(), 16);
    assert!(before.chars().all(|c| c.is_ascii_digit() || ('a'..='f').contains(&c)));
    server.id = "other-12345678".to_string();
    server.name = "other".to_string();
    server.runtime.docker.rcon.password = Some("secret".to_string());
    assert_eq!(container_config_hash(&server, "1000:1000", Platform::Unix).unwrap(), before);
}

#[test]
fn equal_settings_have_equal_hashes() {
    let server = server_in("room", ".");
    assert_eq!(
        container_config_hash(&server, "1000:1000", Platform::Unix).unwrap(),
        container_config_hash(&server, "1000:1000", Platform::Unix).unwrap()
    );
}

#[test]
fn hash_is_fnv1a() {
    assert_eq!(fnv1a64(b""), 0xcbf29ce484222325);
    assert_eq!(fnv1a64(b"a"), 0xaf63dc4c8601ec8c);
    assert_eq!(fnv1a64(b"foobar"), 0x85944171f73967e8);
}

#[test]
fn docker_log_multiplex_headers_are_removed() {
    let body = [
        &[1, 0, 0, 0, 0, 0, 0, 5][..],
        b"hello",
        &[2, 0, 0, 0, 0, 0, 0, 6][..],
        b" world",
    ]
    .concat();

    assert_eq!(decode_docker_log(&body), b"hello world");
}

#[test]
fn docker_log_without_headers_is_kept() {
    assert_eq!(decode_docker_log(b"plain text"), b"plain text");
}

#[test]
fn labels_include_required_manager_marker() {
    let server = server_in("room", ".");
    let labels = labels(&server, "hash");
    assert_eq!(labels.get("remiaft.manager"), Some("true"));
    assert_eq!(labels.get("com.remiaft.config_hash"), Some("hash"));
    assert_eq!(labels.get("com.remiaft.server_id"), Some(server.id.as_str()));
}

#[test]
fn manageable_container_requires_manager_label() {
    let server = server_in("room", ".");
    let mut labels = StringMap::new();
    labels.insert("com.remiaft.managed".to_string(), "true".to_string());
    labels.insert("com.remiaft.server_id".to_string(), server.id.clone());
    let container = inspect_with_labels(labels);

    assert!(!is_manageable_container(&container, &server));
}

#[test]
fn container_with_own_labels_is_manageable() {
    let server = server_in("room", ".");
    let container = inspect_with_labels(labels(&server, "hash"));
    assert!(is_manageable_container(&container, &server));
    assert_eq!(container.config_hash(), Some("hash"));
    assert!(ensure_manageable_container(&container, &server, &host()).is_ok());
    let other = server_in("room", ".");
    assert!(!is_manageable_container(&container, &other));
}

#[test]
fn rejects_dangerous_custom_mounts() {
    let mut server = server_in("room", "/srv/room");
    server.runtime.docker.volumes.push(DockerVolumeMount {
        host: "/var/run/docker.sock".to_string(),
        container: "/socket".to_string(),
        read_only: true,
    });

    assert!(validate_server_security(&server, &host()).is_err());
}

#[test]
fn rejects_mounts_that_resolve_to_dangerous_paths() {
    let mut server = server_in("room", "/srv/room");
    server.runtime.docker.volumes.push(DockerVolumeMount {
        host: "/srv/link".to_string(),
        container: "/data".to_string(),
        read_only: false,
    });
    assert!(validate_server_security(&server, &host()).is_ok());
    let linked = HostPaths {
        platform: Platform::Unix,
        current_dir: Ok("/work".to_string()),
        resolved: vec![("/srv/link".to_string(), "/etc".to_string())],
    };
    assert!(validate_server_security(&server, &linked).is_err());
}

#[test]
fn rejects_host_network_by_default() {
    let mut server = server_in("room", "/srv/room");
    server.runtime.docker.network = Some("host".to_string());

    assert!(validate_server_security(&server, &host()).is_err());
}

#[test]
fn rejects_privileged_managed_container() {
    let server = server_in("room", ".");
    let mut container = inspect_with_labels(required_labels(&server));
    container.host_config = Some(ContainerHostConfig {
        privileged: Some(true),
        pid_mode: None,
        network_mode: None,
        binds: None,
    });

    assert!(ensure_manageable_container(&container, &server, &host()).is_err());
}

#[test]
fn rejects_host_pid_managed_container() {
    let server = server_in("room", ".");
    let mut container = inspect_with_labels(required_labels(&server));
    container.host_config = Some(ContainerHostConfig {
        privileged: Some(false),
        pid_mode: Some("host".to_string()),
        network_mode: None,
        binds: None,
    });

    assert!(ensure_manageable_container(&container, &server, &host()).is_err());
}

#[test]
fn dangerous_paths_are_known() {
    assert!(is_dangerous_mount_path("/etc", Platform::Unix));
    assert!(is_dangerous_mount_path("/", Platform::Unix));
    assert!(!is_dangerous_mount_path("/srv/minecraft", Platform::Unix));
}

#[test]
fn paths_are_cleaned() {
    assert_eq!(normalize_absolute_path("/srv/../etc/./x", Platform::Unix).unwrap(), "/etc/x");
    assert!(normalize_absolute_path("srv", Platform::Unix).is_err());
    assert!(normalize_container_mount_path("relative", Platform::Unix).is_err());
    assert_eq!(normalize_container_mount_path("/a//b/", Platform::Unix).unwrap(), "/a/b");
}

#[test]
fn windows_mounts_are_not_accepted() {
    let windows = HostPaths {
        platform: Platform::Windows,
        current_dir: Ok("C:\\work".to_string()),
        resolved: Vec::new(),
    };
    let told = |place: &str| {
        validate_bind_mount(place, "/data", "mount", &windows).unwrap_err().message
    };
    assert_eq!(told("/srv"), "unsupported Docker bind mount path: C:/srv");
    assert_eq!(told("srv"), "unsupported Docker bind mount path: C:\\work\\srv");
    assert_eq!(told("D:\\srv"), "unsupported Docker bind mount path: D:\\srv");
    assert_eq!(told("\\\\h\\s"), "unsupported Docker bind mount path: \\\\h\\s");
    assert_eq!(told("D:srv"), "Docker bind mount path must be absolute: D:srv");
    assert_eq!(
        normalize_container_mount_path(" /data ", Platform::Windows).unwrap_err().message,
        "Docker bind mount container path must be absolute: /data"
    );
    assert!(is_dangerous_mount_path("\\etc/x", Platform::Windows));
    assert!(!is_dangerous_mount_path("C:\\etc", Platform::Windows));
    assert!(!is_dangerous_mount_path("\\etc", Platform::Unix));
}

#[test]
fn jars_of_windows_are_found_in_the_container() {
    let jar = |dir: &str, jar: &str| {
        let mut server = server_in("room", dir);
        server.jar_path = jar.to_string();
        server.runtime.docker.server_dir = "/srv/".to_string();
        container_jar_path(&server, Platform::Windows)
    };
    assert_eq!(jar("C:\\room", "paper.jar"), "paper.jar");
    assert_eq!(jar("C:\\room", "C:paper.jar"), "C:paper.jar");
    assert_eq!(jar("C:\\room", "/room/paper.jar"), "/room/paper.jar");
    assert_eq!(jar("C:\\room", "c:/room\\sub\\paper.jar"), "/srv/sub\\paper.jar");
    assert_eq!(jar("C:\\room\\.\\", "C:\\.\\room\\\\.\\paper.jar\\."), "/srv/paper.jar");
    assert_eq!(jar("C:\\room", "C:\\room"), "/srv/");
    assert_eq!(jar("C:\\room", "D:\\room\\paper.jar"), "paper.jar");
    assert_eq!(jar("C:\\roo", "C:\\room\\paper.jar"), "paper.jar");
    assert_eq!(jar("\\room", "C:\\room\\paper.jar"), "paper.jar");
    assert_eq!(jar("C:room", "C:\\room\\paper.jar"), "paper.jar");
    assert_eq!(jar("C:", "C:\\room\\paper.jar"), "/srv/\\room\\paper.jar");
    assert_eq!(jar("", "C:\\paper.jar\\"), "/srv/C:\\paper.jar");
    assert_eq!(jar("\\\\h\\s", "//h/s/paper.jar"), "/srv/paper.jar");
    assert_eq!(jar("\\\\H\\s", "\\\\h\\s\\paper.jar"), "paper.jar");
    assert_eq!(jar("D:\\", "C:\\"), "C:\\");
}

#[test]
fn bind_specs_are_checked() {
    assert!(validate_bind_spec("/srv/room:/server", &host()).is_ok());
    assert!(validate_bind_spec("/etc:/server", &host()).is_err());
    assert!(validate_bind_spec("nothing", &host()).is_err());
}

#[test]
fn container_settings_follow_the_server() {
    let mut server = server_in("room", "/srv/room");
    server.runtime.docker.image = Some("example/room:latest".to_string());
    assert_eq!(environment(&server), vec!["HOME=/home/remiaft"]);
    assert_eq!(bind_mounts(&server).len(), 1);
    assert!(bind_mounts(&server)[0].starts_with("/srv/room:"));
    assert!(container_jar_path(&server, Platform::Unix).ends_with("server.jar"));
    assert!(container_command(&server, Platform::Unix).unwrap().contains("-jar"));
    assert!(!working_dir(&server).is_empty());
    assert!(!network_name(&server).is_empty());
    let request = create_container(
        &server,
        &host(),
        "1000:1000",
        "remiaft-room",
        "example/room:latest",
        "hash",
    )
    .unwrap();
    assert_eq!(request.method, "POST");
    assert!(request.path.starts_with("/containers/create?name=remiaft-room"));
    let network = create_network("rooms");
    assert_eq!(network.path, "/networks/create");
}

#[test]
fn container_users_are_chosen_by_mode() {
    let mut server = server_in("room", "/srv/room");
    server.runtime.docker.user.mode = DockerUserMode::Host;
    assert_eq!(container_user(&server, "1000:1000").unwrap().as_deref(), Some("1000:1000"));
    server.runtime.docker.user.mode = DockerUserMode::Image;
    assert_eq!(container_user(&server, "1000:1000").unwrap(), None);
    server.runtime.docker.user.mode = DockerUserMode::Custom;
    server.runtime.docker.user.uid = Some(5);
    server.runtime.docker.user.gid = Some(6);
    assert_eq!(container_user(&server, "1000:1000").unwrap().as_deref(), Some("5:6"));
}

#[test]
fn port_keys_name_the_protocol() {
    assert_eq!(port_key(25565, DockerProtocol::Tcp), "25565/tcp");
    assert_eq!(port_key(19132, DockerProtocol::Udp), "19132/udp");
}

#[test]
fn image_settings_are_required_without_a_mount() {
    let mut server = server_in("room", "/srv/room");
    server.runtime.docker.rcon.mode = RconMode::Disabled;
    assert!(validate_server_config(&server, &host()).is_ok());
}

#[test]
fn a_container_made_from_a_server_is_accepted() {
    let mut server = server_in("room", "/srv/room");
    server.runtime.kind = ServerRuntimeKind::Docker;
    server.runtime.docker.volumes.push(DockerVolumeMount {
        host: "/srv/plugins".to_string(),
        container: "/plugins".to_string(),
        read_only: true,
    });
    assert!(validate_server_security(&server, &host()).is_ok());
    let mut container = inspect_with_labels(labels(&server, "hash"));
    container.host_config = Some(ContainerHostConfig {
        privileged: Some(false),
        pid_mode: Some(String::new()),
        network_mode: Some(network_name(&server)),
        binds: Some(bind_mounts(&server)),
    });
    assert!(ensure_manageable_container(&container, &server, &host()).is_ok());
}

#[test]
fn mounts_read_back_as_volumes() {
    let mut server = server_in("room", "/srv/room");
    server.runtime.docker.volumes.push(DockerVolumeMount {
        host: "/srv/plugins".to_string(),
        container: "/plugins".to_string(),
        read_only: true,
    });
    let binds = bind_mounts(&server);
    assert_eq!(binds[1], "/srv/plugins:/plugins:ro");
    let volume = parse_volume_mount(&binds[1]).unwrap();
    assert_eq!(volume.host, "/srv/plugins");
    assert_eq!(volume.container, "/plugins");
    assert!(volume.read_only);
}
