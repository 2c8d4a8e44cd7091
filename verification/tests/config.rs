use remiaft::config::{slug, RemiaftConfig, ServerConfig, ServerGroup, ServerRuntimeKind};
use remiaft::platform::Platform;

fn group(id: &str, parent: Option<&str>) -> ServerGroup {
    ServerGroup {
        id: id.to_string(),
        name: id.to_string(),
        parent_id: parent.map(|p| p.to_string()),
    }
}

fn with_servers(names: &[&str]) -> RemiaftConfig {
    let mut config = RemiaftConfig::default();
    for name in names {
        config.add_server(name.to_string(), ".".to_string(), "server.jar".to_string());
    }
    config
}

#[test]
fn slug_has_stable_fallback() {
    assert_eq!(slug("Survival SMP"), "survival-smp");
    assert_eq!(slug("***"), "server");
}

#[test]
fn slug_joins_words_with_single_hyphens() {
    assert_eq!(slug("  Bed__Wars  Room 1! "), "bed-wars-room-1");
    assert_eq!(slug(""), "server");
    assert_eq!(slug("Größe 2_é"), "gre-2");
    assert_eq!(slug("- é -"), "server");
    assert_eq!(slug(&slug("  Bed__Wars  Room 1! ")), "bed-wars-room-1");
}

#[test]
fn deleting_group_preserves_servers_under_parent() {
    let mut config = RemiaftConfig {
        groups: vec![
            group("root", None),
            group("child", Some("root")),
            group("sibling", None),
        ],
        ..Default::default()
    };
    config.add_server("root server".to_string(), ".".to_string(), "server.jar".to_string());
    config.add_server("child server".to_string(), ".".to_string(), "server.jar".to_string());
    config.add_server("sibling server".to_string(), ".".to_string(), "server.jar".to_string());
    config.servers[0].group_id = Some("root".to_string());
    config.servers[1].group_id = Some("child".to_string());
    config.servers[2].group_id = Some("sibling".to_string());

    let deleted = config.delete_group_preserving_servers("root").unwrap();

    assert_eq!(deleted.name, "root");
    assert_eq!(deleted.removed_group_ids, vec!["root", "child"]);
    assert_eq!(deleted.moved_server_count, 2);
    assert_eq!(
        config.groups.iter().map(|group| group.id.as_str()).collect::<Vec<_>>(),
        vec!["sibling"]
    );
    assert_eq!(config.servers[0].group_id, None);
    assert_eq!(config.servers[1].group_id, None);
    assert_eq!(config.servers[2].group_id.as_deref(), Some("sibling"));
}

#[test]
fn deleting_an_unknown_group_changes_nothing() {
    let mut config = RemiaftConfig { groups: vec![group("root", None)], ..Default::default() };
    assert!(config.delete_group_preserving_servers("other").is_none());
    assert_eq!(config.groups.len(), 1);
}

#[test]
fn deleting_a_middle_group_moves_servers_to_its_parent() {
    let mut config = with_servers(&["a"]);
    config.groups = vec![
        group("top", None),
        group("middle", Some("top")),
        group("low", Some("middle")),
    ];
    config.servers[0].group_id = Some("low".to_string());
    let deleted = config.delete_group_preserving_servers("middle").unwrap();
    assert_eq!(deleted.removed_group_ids, vec!["middle", "low"]);
    assert_eq!(config.servers[0].group_id.as_deref(), Some("top"));
    assert_eq!(config.groups.len(), 1);
}

#[test]
fn group_paths_are_made_once() {
    let mut config = RemiaftConfig::default();
    let first = config.ensure_group_path(" proxy / velocity/ ").unwrap();
    assert_eq!(config.groups.len(), 2);
    assert_eq!(config.groups[0].name, "proxy");
    assert_eq!(config.groups[0].parent_id, None);
    assert_eq!(config.groups[1].name, "velocity");
    assert_eq!(config.groups[1].parent_id.as_deref(), Some(config.groups[0].id.as_str()));
    assert_eq!(config.groups[1].id, first);
    assert!(first.starts_with("velocity-"));
    assert_eq!(first.len(), "velocity-".len() + 8);

    let again = config.ensure_group_path("proxy/velocity").unwrap();
    assert_eq!(again, first);
    assert_eq!(config.groups.len(), 2);
    assert!(config.ensure_group_path(" / ").is_none());
}

#[test]
fn new_servers_start_from_the_defaults() {
    let config = with_servers(&["Survival SMP"]);
    let server = &config.servers[0];
    assert!(server.id.starts_with("survival-smp-"));
    assert_eq!(server.id.len(), "survival-smp-".len() + 8);
    assert_eq!(server.min_memory_mb, 1024);
    assert_eq!(server.max_memory_mb, 4096);
    assert_eq!(server.server_args, vec!["nogui"]);
    assert_eq!(server.restart_delay_secs, 10);
    assert_eq!(server.runtime.kind, ServerRuntimeKind::Native);
    assert_eq!(server.runtime.docker.rcon.container_port, 25575);
    assert!(!server.uses_docker());
}

#[test]
fn new_servers_have_identifiers_of_their_own() {
    let config = with_servers(&["room", "room"]);
    assert_ne!(config.servers[0].id, config.servers[1].id);
}

#[test]
fn servers_are_found_by_identifier_or_name() {
    let config = with_servers(&["a", "b"]);
    assert_eq!(config.find_server("b").unwrap().name, "b");
    let id = config.servers[0].id.clone();
    assert_eq!(config.find_server(&id).unwrap().name, "a");
    assert_eq!(config.find_server("c").unwrap_err().message(), "unknown server: c");
}

#[test]
fn startup_command_lists_memory_arguments_and_archive() {
    let mut config = with_servers(&["a"]);
    let server: &mut ServerConfig = &mut config.servers[0];
    server.java_args = vec!["-Dfoo=bar".to_string()];
    assert_eq!(
        server.startup_command("java"),
        "java -Xms1024M -Xmx4096M -Dfoo=bar -jar server.jar nogui"
    );
    server.java_path = Some("java25".to_string());
    assert_eq!(server.java_bin("java"), "java25");
}

#[test]
fn repeated_commands_are_taken_out_of_the_java_arguments() {
    let mut config = with_servers(&["a"]);
    config.servers[0].java_args = "java -Dx=1 -jar velocity.jar nogui"
        .split(' ')
        .map(|part| part.to_string())
        .collect();
    assert!(config.normalize_startup_commands(Platform::Unix));
    assert_eq!(config.servers[0].jar_path, "velocity.jar");
    assert!(!config.normalize_startup_commands(Platform::Unix));
}
