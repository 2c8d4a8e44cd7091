use remiaft::config::{looks_like_java_bin, RemiaftConfig};
use remiaft::platform::Platform;
use remiaft::startup::{
    apply_startup_command, normalize_startup_parts, parse_memory_mb, parse_startup_command,
    split_args,
};

#[test]
fn parses_full_startup_command() {
    let parsed = parse_startup_command(
        "java25 -Xms1G -Xmx4096M -Dfoo=bar -jar velocity.jar nogui",
        ".",
        Platform::Unix,
    );

    assert_eq!(parsed.java_path.as_deref(), Some("java25"));
    assert_eq!(parsed.min_memory_mb, Some(1024));
    assert_eq!(parsed.max_memory_mb, Some(4096));
    assert_eq!(parsed.jar_path.as_deref(), Some("velocity.jar"));
    assert_eq!(parsed.java_args, vec!["-Dfoo=bar"]);
    assert_eq!(parsed.server_args, vec!["nogui"]);
}

#[test]
fn keeps_non_java_startup_command_out_of_java_args() {
    let parsed = parse_startup_command("sh start.sh", ".", Platform::Unix);

    assert_eq!(parsed.java_path, None);
    assert_eq!(parsed.jar_path, None);
    assert_eq!(parsed.java_args, Vec::<String>::new());
    assert_eq!(parsed.server_args, Vec::<String>::new());
    assert!(!parsed.changed);
}

#[test]
fn own_command_line_is_read_back() {
    let mut config = RemiaftConfig::default();
    config.add_server("room".to_string(), ".".to_string(), "paper.jar".to_string());
    config.servers[0].java_args = vec!["-Dfoo=bar".to_string(), "-server".to_string()];
    let line = config.servers[0].startup_command("java");
    let parsed = parse_startup_command(&line, ".", Platform::Unix);
    assert_eq!(parsed.java_path.as_deref(), Some("java"));
    assert_eq!(parsed.jar_path.as_deref(), Some("paper.jar"));
    assert_eq!(parsed.min_memory_mb, Some(1024));
    assert_eq!(parsed.max_memory_mb, Some(4096));
    assert_eq!(parsed.java_args, vec!["-Dfoo=bar", "-server"]);
    assert_eq!(parsed.server_args, vec!["nogui"]);
}

#[test]
fn arguments_are_split_like_a_shell() {
    assert_eq!(split_args("a 'b c' \"d e\" f\\ g"), vec!["a", "b c", "d e", "f g"]);
    assert_eq!(split_args("  "), Vec::<String>::new());
    assert_eq!(split_args("end\\"), vec!["end\\"]);
    assert_eq!(split_args("one  two").join(" "), "one two");
}

#[test]
fn memory_is_read_in_megabytes() {
    assert_eq!(parse_memory_mb("512M"), Some(512));
    assert_eq!(parse_memory_mb("2g"), Some(2048));
    assert_eq!(parse_memory_mb("300"), Some(300));
    assert_eq!(parse_memory_mb(""), None);
    assert_eq!(parse_memory_mb("xM"), None);
    assert_eq!(parse_memory_mb("4194303G"), Some(4294966272));
    assert_eq!(parse_memory_mb("4194304G"), None);
    assert_eq!(parse_memory_mb("4294967296"), None);
}

#[test]
fn too_much_memory_stays_an_argument() {
    let parsed = parse_startup_command("java -Xmx4194304G -jar a.jar", ".", Platform::Unix);
    assert_eq!(parsed.max_memory_mb, None);
    assert_eq!(parsed.java_args, vec!["-Xmx4194304G"]);
}

#[test]
fn java_is_known_by_its_name() {
    assert!(looks_like_java_bin("/usr/bin/java17", Platform::Unix));
    assert!(!looks_like_java_bin("C:\\jdk\\java.exe", Platform::Unix));
    assert!(looks_like_java_bin("C:\\jdk\\java.exe", Platform::Windows));
    assert!(looks_like_java_bin("C:/jdk/javaw.exe", Platform::Windows));
    assert!(!looks_like_java_bin("C:\\java\\sh.exe", Platform::Windows));
}

#[test]
fn a_flag_at_the_end_names_no_archive() {
    let parsed = normalize_startup_parts(
        vec!["java".to_string(), "-jar".to_string()],
        Platform::Unix,
    );
    assert_eq!(parsed.jar_path, None);
    assert!(parsed.changed);
}

#[test]
fn commands_are_taken_over() {
    let mut config = RemiaftConfig::default();
    config.add_server("room".to_string(), ".".to_string(), "server.jar".to_string());
    let server = &mut config.servers[0];
    let command = "java25 -Xmx1G -jar velocity.jar";
    apply_startup_command(server, parse_startup_command(command, ".", Platform::Unix), command);
    assert_eq!(server.java_path.as_deref(), Some("java25"));
    assert_eq!(server.jar_path, "velocity.jar");
    assert_eq!(server.min_memory_mb, 1024);
    assert_eq!(server.max_memory_mb, 1024);
    assert_eq!(server.server_args, Vec::<String>::new());
    assert_eq!(server.startup_command.as_deref(), Some(command));
}
