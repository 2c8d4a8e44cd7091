//! What the Docker engine is told of a container, and what it tells.

use vstd::prelude::*;

use crate::args::volume_mount;
use crate::collections::{entry_of, StringMap};
use crate::config::{
    is_hex_digit, DockerPortMapping, DockerProtocol, DockerServerConfig, DockerUserMode, DockerView,
    PortView, RconMode, RconView, RuntimeView, ServerConfig, ServerView, VolumeView,
};
use crate::docker::{
    bind_failure, bind_mounts, bind_text, binds_of, command_of, container_command, container_user,
    environment, environment_of, labels, labels_of, network_failure, network_name, network_of,
    security_failure, user_of, validate_bind_mount, validate_network_mode, validate_server_security,
    volumes_failure, working_dir, working_dir_of, HostPaths, HostView,
};
use crate::docker_api::{encode_query, percent_encoded, DockerRequest, RequestView};
use crate::failure::{failed, Failure};
use crate::images::{java_major, minecraft_java_major};
use crate::json::{
    json_bool, json_bytes, json_encoding, json_entries, json_insert, json_list, json_map, json_null,
    json_number, json_object, json_text, json_view, json_views, no_entries, JsonView,
};
use crate::numbers::{decimal, decimal_reads_back, decimal_text};
use crate::platform::{version, version_text, Platform};
use crate::text::{
    glue, glue3, joined, nonblank, nonblank_text, opt_text, pieces, same_ignoring_case, same_text,
    split_on, splitting_undoes_joining, texts,
};
use vstd::utf8::encode_utf8;

verus! {

/// A port as Docker names it.
pub open spec fn port_name(port: u16, protocol: DockerProtocol) -> Seq<char> {
    decimal(port as nat) + "/"@ + protocol.name()
}

/// A port as Docker names it.
pub fn port_key(port: u16, protocol: DockerProtocol) -> (r: String)
    ensures
        r@ == port_name(port, protocol),
{
    let digits = decimal_text(port as u64);
    glue3(digits.as_str(), "/", protocol.as_str())
}

/// The ports that the container offers.
pub open spec fn exposed_entries(ports: Seq<PortView>, upto: int) -> Map<Seq<char>, JsonView>
    decreases upto,
{
    if upto <= 0 {
        no_entries()
    } else {
        let port = ports[upto - 1];
        exposed_entries(ports, upto - 1).insert(
            port_name(port.container_port, port.protocol),
            JsonView::Object(no_entries()),
        )
    }
}

/// The ports that the container offers.
pub fn exposed_ports(docker: &DockerServerConfig) -> (r: serde_json::Value)
    ensures
        json_view(r) == JsonView::Object(
            exposed_entries(docker@.ports, docker@.ports.len() as int),
        ),
{
    let ghost ports = docker@.ports;
    let mut exposed = json_map();
    let mut i: usize = 0;
    while i < docker.ports.len()
        invariant
            i <= docker.ports@.len(),
            ports == docker@.ports,
            json_entries(exposed) == exposed_entries(ports, i as int),
        decreases docker.ports@.len() - i,
    {
        assert(ports[i as int] == docker.ports@[i as int]@);
        let port = &docker.ports[i];
        let empty = json_object(json_map());
        json_insert(&mut exposed, port_key(port.container_port, port.protocol), empty);
        i = i + 1;
    }
    json_object(exposed)
}

/// Where the host offers a port.
pub open spec fn binding_of(port: PortView) -> JsonView {
    let host_port = JsonView::Text(
        match port.host_port {
            Some(number) => decimal(number as nat),
            None => Seq::empty(),
        },
    );
    let entries = match port.host_ip {
        Some(ip) => if ip.len() > 0 {
            no_entries().insert("HostIp"@, JsonView::Text(ip))
        } else {
            no_entries()
        },
        None => no_entries(),
    };
    JsonView::List(seq![JsonView::Object(entries.insert("HostPort"@, host_port))])
}

/// Where the host offers the first `upto` ports. Of mappings of one port the
/// last counts.
pub open spec fn binding_entries(ports: Seq<PortView>, upto: int) -> Map<Seq<char>, JsonView>
    decreases upto,
{
    if upto <= 0 {
        no_entries()
    } else {
        let port = ports[upto - 1];
        binding_entries(ports, upto - 1).insert(
            port_name(port.container_port, port.protocol),
            binding_of(port),
        )
    }
}

fn port_binding(port: &DockerPortMapping) -> (r: serde_json::Value)
    ensures
        json_view(r) == binding_of(port@),
{
    let mut binding = json_map();
    if let Some(ip) = &port.host_ip {
        if ip.as_str().unicode_len() > 0 {
            json_insert(&mut binding, "HostIp".to_owned(), json_text(ip.clone()));
        }
    }
    let number = match port.host_port {
        Some(number) => decimal_text(number as u64),
        None => String::new(),
    };
    json_insert(&mut binding, "HostPort".to_owned(), json_text(number));
    let mut list: Vec<serde_json::Value> = Vec::new();
    list.push(json_object(binding));
    assert(json_views(list@) =~= seq![json_view(list@[0])]);
    json_list(list)
}

/// Where the host offers the container's ports.
pub fn port_bindings(docker: &DockerServerConfig) -> (r: serde_json::Value)
    ensures
        json_view(r) == JsonView::Object(
            binding_entries(docker@.ports, docker@.ports.len() as int),
        ),
{
    let ghost ports = docker@.ports;
    let mut bindings = json_map();
    let mut i: usize = 0;
    while i < docker.ports.len()
        invariant
            i <= docker.ports@.len(),
            ports == docker@.ports,
            json_entries(bindings) == binding_entries(ports, i as int),
        decreases docker.ports@.len() - i,
    {
        assert(ports[i as int] == docker.ports@[i as int]@);
        let port = &docker.ports[i];
        json_insert(
            &mut bindings,
            port_key(port.container_port, port.protocol),
            port_binding(port),
        );
        i = i + 1;
    }
    json_object(bindings)
}

/// A list of texts as JSON.
pub open spec fn texts_json(list: Seq<Seq<char>>) -> JsonView {
    JsonView::List(list.map_values(|text: Seq<char>| JsonView::Text(text)))
}

/// A text as JSON, if there is one.
pub open spec fn opt_json(value: Option<Seq<char>>) -> JsonView {
    match value {
        Some(text) => JsonView::Text(text),
        None => JsonView::Null,
    }
}

/// Entries as JSON.
pub open spec fn entries_json(entries: Seq<(Seq<char>, Seq<char>)>, upto: int) -> Map<
    Seq<char>,
    JsonView,
>
    decreases upto,
{
    if upto <= 0 {
        no_entries()
    } else {
        entries_json(entries, upto - 1).insert(
            entries[upto - 1].0,
            JsonView::Text(entries[upto - 1].1),
        )
    }
}

/// All entries as JSON.
pub open spec fn map_json(entries: Seq<(Seq<char>, Seq<char>)>) -> JsonView {
    JsonView::Object(entries_json(entries, entries.len() as int))
}

fn list_value(list: &Vec<String>) -> (r: serde_json::Value)
    ensures
        json_view(r) == texts_json(texts(list@)),
{
    let mut out: Vec<serde_json::Value> = Vec::new();
    let mut i: usize = 0;
    while i < list.len()
        invariant
            i <= list@.len(),
            out@.len() == i,
            forall|k: int| 0 <= k < i ==> json_view(#[trigger] out@[k]) == JsonView::Text(list@[k]@),
        decreases list@.len() - i,
    {
        out.push(json_text(list[i].clone()));
        i = i + 1;
    }
    assert(json_views(out@) =~= texts(list@).map_values(|text: Seq<char>| JsonView::Text(text)));
    json_list(out)
}

fn opt_value(value: &Option<String>) -> (r: serde_json::Value)
    ensures
        json_view(r) == opt_json(opt_text(*value)),
{
    match value {
        Some(text) => json_text(text.clone()),
        None => json_null(),
    }
}

fn map_value(map: &StringMap) -> (r: serde_json::Value)
    ensures
        json_view(r) == map_json(map@),
{
    let mut out = json_map();
    let mut i: usize = 0;
    while i < map.len()
        invariant
            i <= map@.len(),
            json_entries(out) == entries_json(map@, i as int),
        decreases map@.len() - i,
    {
        let (key, value) = map.entry(i);
        json_insert(&mut out, key.to_owned(), json_text(value.to_owned()));
        i = i + 1;
    }
    json_object(out)
}

/// The part of the container's settings that concerns the host.
pub open spec fn host_config(server: ServerView) -> JsonView {
    let docker = server.runtime.docker;
    JsonView::Object(
        map![
            "Binds"@ => texts_json(binds_of(server)),
            "PortBindings"@ => JsonView::Object(
                binding_entries(docker.ports, docker.ports.len() as int),
            ),
            "AutoRemove"@ => JsonView::Bool(docker.auto_remove),
            "NetworkMode"@ => JsonView::Text(network_of(server)),
            "Privileged"@ => JsonView::Bool(false),
            "PidMode"@ => JsonView::Text(""@),
        ],
    )
}

/// The settings of a container, without user and command.
pub open spec fn basic_container(
    server: ServerView,
    image: Seq<char>,
    config_hash: Seq<char>,
) -> Map<Seq<char>, JsonView> {
    let docker = server.runtime.docker;
    map![
        "Image"@ => JsonView::Text(image),
        "Env"@ => texts_json(environment_of(server)),
        "Labels"@ => map_json(labels_of(server, config_hash)),
        "ExposedPorts"@ => JsonView::Object(
            exposed_entries(docker.ports, docker.ports.len() as int),
        ),
        "HostConfig"@ => host_config(server),
        "WorkingDir"@ => JsonView::Text(working_dir_of(server)),
        "Tty"@ => JsonView::Bool(false),
        "OpenStdin"@ => JsonView::Bool(false),
    ]
}

/// The settings of a container that runs as the given user.
pub open spec fn container_settings(
    server: ServerView,
    image: Seq<char>,
    config_hash: Seq<char>,
    user: Option<Seq<char>>,
    platform: Platform,
) -> JsonView {
    let basic = basic_container(server, image, config_hash);
    let owned = match user {
        Some(user) => basic.insert("User"@, JsonView::Text(user)),
        None => basic,
    };
    JsonView::Object(
        match command_of(server, platform) {
            Some(command) => owned.insert("Cmd"@, texts_json(seq!["sh"@, "-lc"@, command])),
            None => owned,
        },
    )
}

/// The request that creates the server's container.
pub open spec fn create_request(
    server: ServerView,
    host: HostView,
    host_user: Seq<char>,
    name: Seq<char>,
    image: Seq<char>,
    config_hash: Seq<char>,
) -> Result<RequestView, Seq<char>> {
    match security_failure(server, host) {
        Some(e) => Err(e),
        None => match user_of(server, host_user) {
            Err(e) => Err(e),
            Ok(user) => Ok(
                RequestView {
                    method: "POST"@,
                    path: "/containers/create?name="@ + percent_encoded(encode_utf8(name), false),
                    body: json_encoding(
                        container_settings(server, image, config_hash, user, host.platform),
                    ),
                },
            ),
        },
    }
}

/// The request that creates the server's container. A server that is refused
/// gets none.
pub fn create_container(
    server: &ServerConfig,
    host: &HostPaths,
    host_user: &str,
    name: &str,
    image: &str,
    config_hash: &str,
) -> (r: Result<DockerRequest, Failure>)
    ensures
        match r {
            Ok(request) => create_request(
                server@,
                host@,
                host_user@,
                name@,
                image@,
                config_hash@,
            ) == Ok::<RequestView, Seq<char>>(request@),
            Err(e) => create_request(server@, host@, host_user@, name@, image@, config_hash@)
                == Err::<RequestView, Seq<char>>(e@),
        },
{
    if let Err(e) = validate_server_security(server, host) {
        return Err(e);
    }
    let docker = &server.runtime.docker;
    let mut inner = json_map();
    let binds = bind_mounts(server);
    json_insert(&mut inner, "Binds".to_owned(), list_value(&binds));
    json_insert(&mut inner, "PortBindings".to_owned(), port_bindings(docker));
    json_insert(&mut inner, "AutoRemove".to_owned(), json_bool(docker.auto_remove));
    json_insert(&mut inner, "NetworkMode".to_owned(), json_text(network_name(server)));
    json_insert(&mut inner, "Privileged".to_owned(), json_bool(false));
    json_insert(&mut inner, "PidMode".to_owned(), json_text("".to_owned()));
    let inner = json_object(inner);

    let mut outer = json_map();
    let env = environment(server);
    let own_labels = labels(server, config_hash);
    json_insert(&mut outer, "Image".to_owned(), json_text(image.to_owned()));
    json_insert(&mut outer, "Env".to_owned(), list_value(&env));
    json_insert(&mut outer, "Labels".to_owned(), map_value(&own_labels));
    json_insert(&mut outer, "ExposedPorts".to_owned(), exposed_ports(docker));
    json_insert(&mut outer, "HostConfig".to_owned(), inner);
    json_insert(&mut outer, "WorkingDir".to_owned(), json_text(working_dir(server)));
    json_insert(&mut outer, "Tty".to_owned(), json_bool(false));
    json_insert(&mut outer, "OpenStdin".to_owned(), json_bool(false));
    assert(json_entries(outer) =~= basic_container(server@, image@, config_hash@));
    let user = match container_user(server, host_user) {
        Ok(user) => user,
        Err(e) => return Err(e),
    };
    if let Some(user) = &user {
        json_insert(&mut outer, "User".to_owned(), json_text(user.clone()));
    }
    if let Some(command) = container_command(server, host.platform) {
        let mut line: Vec<String> = Vec::new();
        line.push("sh".to_owned());
        line.push("-lc".to_owned());
        line.push(command);
        assert(texts(line@) =~= seq!["sh"@, "-lc"@, command@]);
        json_insert(&mut outer, "Cmd".to_owned(), list_value(&line));
    }
    let body = json_object(outer);
    let code = encode_query(name);
    let path = glue("/containers/create?name=", code.as_str());
    Ok(DockerRequest::with_json("POST", path, &body))
}

/// What the network is created with.
pub open spec fn network_settings(network: Seq<char>) -> JsonView {
    JsonView::Object(
        map![
            "Name"@ => JsonView::Text(network),
            "Driver"@ => JsonView::Text("bridge"@),
            "Labels"@ => JsonView::Object(
                map![
                    "remiaft.manager"@ => JsonView::Text("true"@),
                    "com.remiaft.managed"@ => JsonView::Text("true"@),
                    "com.remiaft.version"@ => JsonView::Text(version()),
                ],
            ),
        ],
    )
}

/// The request that creates a network.
pub fn create_network(network: &str) -> (r: DockerRequest)
    ensures
        r@ == (RequestView {
            method: "POST"@,
            path: "/networks/create"@,
            body: json_encoding(network_settings(network@)),
        }),
{
    let mut marks = json_map();
    json_insert(&mut marks, "remiaft.manager".to_owned(), json_text("true".to_owned()));
    json_insert(&mut marks, "com.remiaft.managed".to_owned(), json_text("true".to_owned()));
    json_insert(
        &mut marks,
        "com.remiaft.version".to_owned(),
        json_text(version_text().to_owned()),
    );
    let mut body = json_map();
    json_insert(&mut body, "Name".to_owned(), json_text(network.to_owned()));
    json_insert(&mut body, "Driver".to_owned(), json_text("bridge".to_owned()));
    json_insert(&mut body, "Labels".to_owned(), json_object(marks));
    let body = json_object(body);
    DockerRequest::with_json("POST", "/networks/create".to_owned(), &body)
}

/// What stands for the image in the fingerprint of a container's settings.
pub open spec fn image_identity(server: ServerView) -> JsonView {
    let docker = server.runtime.docker;
    JsonView::Object(
        match nonblank(docker.image) {
            Some(image) => map![
                "kind"@ => JsonView::Text("explicit"@),
                "image"@ => JsonView::Text(image),
            ],
            None => if docker.image_candidates.len() > 0 {
                map![
                    "kind"@ => JsonView::Text("candidates"@),
                    "images"@ => texts_json(docker.image_candidates),
                ]
            } else {
                map![
                    "kind"@ => JsonView::Text("minecraft-java"@),
                    "major"@ => JsonView::Number(decimal(java_major(server.version))),
                ]
            },
        },
    )
}

/// What stands for the image in the fingerprint of a container's settings.
pub fn image_config_identity(server: &ServerConfig) -> (r: serde_json::Value)
    ensures
        json_view(r) == image_identity(server@),
{
    let docker = &server.runtime.docker;
    let mut out = json_map();
    if let Some(image) = nonblank_text(&docker.image) {
        json_insert(&mut out, "kind".to_owned(), json_text("explicit".to_owned()));
        json_insert(&mut out, "image".to_owned(), json_text(image.to_owned()));
    } else if docker.image_candidates.len() > 0 {
        json_insert(&mut out, "kind".to_owned(), json_text("candidates".to_owned()));
        json_insert(&mut out, "images".to_owned(), list_value(&docker.image_candidates));
    } else {
        let version = match &server.version {
            Some(version) => Some(version.as_str()),
            None => None,
        };
        json_insert(&mut out, "kind".to_owned(), json_text("minecraft-java".to_owned()));
        json_insert(
            &mut out,
            "major".to_owned(),
            json_number(minecraft_java_major(version) as u64),
        );
    }
    json_object(out)
}

/// A port mapping as JSON, without what is left at its default.
pub open spec fn port_json(port: PortView) -> JsonView {
    let named = match port.name {
        Some(name) => no_entries().insert("name"@, JsonView::Text(name)),
        None => no_entries(),
    };
    let inner = named.insert(
        "container_port"@,
        JsonView::Number(decimal(port.container_port as nat)),
    );
    let outer = match port.host_port {
        Some(number) => inner.insert("host_port"@, JsonView::Number(decimal(number as nat))),
        None => inner,
    };
    let placed = match port.host_ip {
        Some(ip) => outer.insert("host_ip"@, JsonView::Text(ip)),
        None => outer,
    };
    JsonView::Object(
        if port.protocol == DockerProtocol::Tcp {
            placed
        } else {
            placed.insert("protocol"@, JsonView::Text(port.protocol.name()))
        },
    )
}

fn port_value(port: &DockerPortMapping) -> (r: serde_json::Value)
    ensures
        json_view(r) == port_json(port@),
{
    let mut out = json_map();
    if let Some(name) = &port.name {
        json_insert(&mut out, "name".to_owned(), json_text(name.clone()));
    }
    json_insert(
        &mut out,
        "container_port".to_owned(),
        json_number(port.container_port as u64),
    );
    if let Some(number) = port.host_port {
        json_insert(&mut out, "host_port".to_owned(), json_number(number as u64));
    }
    if let Some(ip) = &port.host_ip {
        json_insert(&mut out, "host_ip".to_owned(), json_text(ip.clone()));
    }
    if port.protocol != DockerProtocol::Tcp {
        json_insert(
            &mut out,
            "protocol".to_owned(),
            json_text(port.protocol.as_str().to_owned()),
        );
    }
    json_object(out)
}

fn ports_value(ports: &Vec<DockerPortMapping>) -> (r: serde_json::Value)
    ensures
        json_view(r) == JsonView::List(
            crate::config::port_views(ports@).map_values(|port: PortView| port_json(port)),
        ),
{
    let mut out: Vec<serde_json::Value> = Vec::new();
    let mut i: usize = 0;
    while i < ports.len()
        invariant
            i <= ports@.len(),
            out@.len() == i,
            forall|k: int| 0 <= k < i ==> json_view(#[trigger] out@[k]) == port_json(ports@[k]@),
        decreases ports@.len() - i,
    {
        out.push(port_value(&ports[i]));
        i = i + 1;
    }
    assert(json_views(out@) =~= crate::config::port_views(ports@).map_values(
        |port: PortView| port_json(port),
    ));
    json_list(out)
}

/// The name of a way to set up the remote console.
pub open spec fn rcon_mode_name(mode: RconMode) -> Seq<char> {
    match mode {
        RconMode::Auto => "auto"@,
        RconMode::Manual => "manual"@,
        RconMode::Disabled => "disabled"@,
    }
}

fn rcon_mode_text(mode: RconMode) -> (r: String)
    ensures
        r@ == rcon_mode_name(mode),
{
    match mode {
        RconMode::Auto => "auto".to_owned(),
        RconMode::Manual => "manual".to_owned(),
        RconMode::Disabled => "disabled".to_owned(),
    }
}

/// All settings that a container is made from.
pub open spec fn fingerprint_source(
    server: ServerView,
    user: Option<Seq<char>>,
    platform: Platform,
) -> JsonView {
    let docker = server.runtime.docker;
    JsonView::Object(
        map![
            "image"@ => image_identity(server),
            "network"@ => JsonView::Text(network_of(server)),
            "labels"@ => map_json(docker.labels),
            "environment"@ => map_json(docker.environment),
            "ports"@ => JsonView::List(docker.ports.map_values(|port: PortView| port_json(port))),
            "binds"@ => texts_json(binds_of(server)),
            "mount_server_directory"@ => JsonView::Bool(docker.mount_server_directory),
            "server_dir"@ => JsonView::Text(docker.server_dir),
            "working_dir"@ => JsonView::Text(working_dir_of(server)),
            "startup_command"@ => opt_json(docker.startup_command),
            "use_image_entrypoint"@ => JsonView::Bool(docker.use_image_entrypoint),
            "user"@ => opt_json(user),
            "auto_remove"@ => JsonView::Bool(docker.auto_remove),
            "command"@ => opt_json(command_of(server, platform)),
            "rcon"@ => JsonView::Object(
                map![
                    "mode"@ => JsonView::Text(rcon_mode_name(docker.rcon.mode)),
                    "container_port"@ => JsonView::Number(
                        decimal(docker.rcon.container_port as nat),
                    ),
                    "host_port"@ => match docker.rcon.host_port {
                        Some(port) => JsonView::Number(decimal(port as nat)),
                        None => JsonView::Null,
                    },
                    "host"@ => JsonView::Text(docker.rcon.host),
                ],
            ),
        ],
    )
}

/// The 64-bit FNV-1a hash of the bytes.
pub open spec fn fnv1a(bytes: Seq<u8>) -> u64
    decreases bytes.len(),
{
    if bytes.len() == 0 {
        0xcbf29ce484222325
    } else {
        let mixed = fnv1a(bytes.drop_last()) ^ (bytes.last() as u64);
        ((mixed * 0x100000001b3) % 0x1_0000_0000_0000_0000) as u64
    }
}

/// The 64-bit FNV-1a hash of the bytes.
pub fn fnv1a64(bytes: &[u8]) -> (r: u64)
    ensures
        r == fnv1a(bytes@),
{
    let mut hash: u64 = 0xcbf29ce484222325;
    let mut i: usize = 0;
    assert(bytes@.take(0).len() == 0);
    while i < bytes.len()
        invariant
            i <= bytes@.len(),
            hash == fnv1a(bytes@.take(i as int)),
        decreases bytes@.len() - i,
    {
        assert(bytes@.take(i + 1).drop_last() =~= bytes@.take(i as int));
        let mixed: u64 = hash ^ (bytes[i] as u64);
        hash = mixed.wrapping_mul(0x100000001b3);
        i = i + 1;
    }
    assert(bytes@.take(i as int) =~= bytes@);
    hash
}

/// The lowest `digits` hexadecimal digits of a number.
pub open spec fn hex_digits(n: u64, digits: nat) -> Seq<char>
    decreases digits,
{
    if digits == 0 {
        Seq::empty()
    } else {
        hex_digits(n / 16, (digits - 1) as nat).push(crate::numbers::digit_char((n % 16) as nat))
    }
}

fn hex_text(n: u64, digits: u8) -> (r: String)
    ensures
        r@ == hex_digits(n, digits as nat),
    decreases digits,
{
    if digits == 0 {
        return String::new();
    }
    let mut out = hex_text(n / 16, digits - 1);
    let low: u8 = (n % 16) as u8;
    if low < 10 {
        out.push((48 + low) as char);
    } else {
        out.push((87 + low) as char);
    }
    out
}

/// The fingerprint of a container's settings.
pub open spec fn config_hash_of(
    server: ServerView,
    host_user: Seq<char>,
    platform: Platform,
) -> Result<Seq<char>, Seq<char>> {
    match user_of(server, host_user) {
        Ok(user) => Ok(
            hex_digits(fnv1a(json_encoding(fingerprint_source(server, user, platform))), 16),
        ),
        Err(e) => Err(e),
    }
}

/// The fingerprint of a container's settings: a hash of them as JSON, in
/// sixteen hexadecimal digits.
pub fn container_config_hash(server: &ServerConfig, host_user: &str, platform: Platform) -> (r:
    Result<String, Failure>)
    ensures
        match r {
            Ok(hash) => config_hash_of(server@, host_user@, platform) == Ok::<
                Seq<char>,
                Seq<char>,
            >(hash@),
            Err(e) => config_hash_of(server@, host_user@, platform) == Err::<
                Seq<char>,
                Seq<char>,
            >(e@),
        },
{
    let docker = &server.runtime.docker;
    let user = match container_user(server, host_user) {
        Ok(user) => user,
        Err(e) => return Err(e),
    };
    let mut rcon = json_map();
    json_insert(&mut rcon, "mode".to_owned(), json_text(rcon_mode_text(docker.rcon.mode)));
    json_insert(
        &mut rcon,
        "container_port".to_owned(),
        json_number(docker.rcon.container_port as u64),
    );
    let host_port = match docker.rcon.host_port {
        Some(port) => json_number(port as u64),
        None => json_null(),
    };
    json_insert(&mut rcon, "host_port".to_owned(), host_port);
    json_insert(&mut rcon, "host".to_owned(), json_text(docker.rcon.host.clone()));

    let mut all = json_map();
    let binds = bind_mounts(server);
    let command = container_command(server, platform);
    json_insert(&mut all, "image".to_owned(), image_config_identity(server));
    json_insert(&mut all, "network".to_owned(), json_text(network_name(server)));
    json_insert(&mut all, "labels".to_owned(), map_value(&docker.labels));
    json_insert(&mut all, "environment".to_owned(), map_value(&docker.environment));
    json_insert(&mut all, "ports".to_owned(), ports_value(&docker.ports));
    json_insert(&mut all, "binds".to_owned(), list_value(&binds));
    json_insert(
        &mut all,
        "mount_server_directory".to_owned(),
        json_bool(docker.mount_server_directory),
    );
    json_insert(&mut all, "server_dir".to_owned(), json_text(docker.server_dir.clone()));
    json_insert(&mut all, "working_dir".to_owned(), json_text(working_dir(server)));
    json_insert(&mut all, "startup_command".to_owned(), opt_value(&docker.startup_command));
    json_insert(
        &mut all,
        "use_image_entrypoint".to_owned(),
        json_bool(docker.use_image_entrypoint),
    );
    json_insert(&mut all, "user".to_owned(), opt_value(&user));
    json_insert(&mut all, "auto_remove".to_owned(), json_bool(docker.auto_remove));
    json_insert(&mut all, "command".to_owned(), opt_value(&command));
    json_insert(&mut all, "rcon".to_owned(), json_object(rcon));
    let value = json_object(all);
    assert(json_view(value) =~= fingerprint_source(server@, opt_text(user), platform));
    let bytes = json_bytes(&value);
    Ok(hex_text(fnv1a64(bytes.as_slice()), 16))
}

/// Whether a container runs.
#[derive(Debug)]
pub struct ContainerState {
    pub running: bool,
}

/// A container's own settings.
#[derive(Debug)]
pub struct ContainerConfig {
    pub labels: Option<StringMap>,
}

/// What a container may do on the host.
#[derive(Debug)]
pub struct ContainerHostConfig {
    pub privileged: Option<bool>,
    pub pid_mode: Option<String>,
    pub network_mode: Option<String>,
    pub binds: Option<Vec<String>>,
}

/// What the engine tells of a container.
#[derive(Debug)]
pub struct ContainerInspect {
    pub name: Option<String>,
    pub state: Option<ContainerState>,
    pub config: Option<ContainerConfig>,
    pub host_config: Option<ContainerHostConfig>,
}

#[verifier::ext_equal]
pub struct HostConfigView {
    pub privileged: Option<bool>,
    pub pid_mode: Option<Seq<char>>,
    pub network_mode: Option<Seq<char>>,
    pub binds: Option<Seq<Seq<char>>>,
}

#[verifier::ext_equal]
pub struct InspectView {
    pub name: Option<Seq<char>>,
    pub running: bool,
    pub labels: Option<Seq<(Seq<char>, Seq<char>)>>,
    pub host_config: Option<HostConfigView>,
}

impl View for ContainerHostConfig {
    type V = HostConfigView;

    open spec fn view(&self) -> HostConfigView {
        HostConfigView {
            privileged: self.privileged,
            pid_mode: opt_text(self.pid_mode),
            network_mode: opt_text(self.network_mode),
            binds: match self.binds {
                Some(binds) => Some(texts(binds@)),
                None => None,
            },
        }
    }
}

impl View for ContainerInspect {
    type V = InspectView;

    open spec fn view(&self) -> InspectView {
        InspectView {
            name: opt_text(self.name),
            running: match self.state {
                Some(state) => state.running,
                None => false,
            },
            labels: match self.config {
                Some(config) => match config.labels {
                    Some(labels) => Some(labels@),
                    None => None,
                },
                None => None,
            },
            host_config: match self.host_config {
                Some(host_config) => Some(host_config@),
                None => None,
            },
        }
    }
}

impl InspectView {
    /// The value of a label.
    pub open spec fn label(self, key: Seq<char>) -> Option<Seq<char>> {
        match self.labels {
            Some(labels) => entry_of(labels, key),
            None => None,
        }
    }

    /// The name to tell the user.
    pub open spec fn shown_name(self) -> Seq<char> {
        match self.name {
            Some(name) => name,
            None => "<unknown>"@,
        }
    }
}

impl ContainerInspect {
    pub fn running(&self) -> (r: bool)
        ensures
            r == self@.running,
    {
        match &self.state {
            Some(state) => state.running,
            None => false,
        }
    }

    /// The value of a label.
    pub fn label(&self, key: &str) -> (r: Option<&str>)
        ensures
            match r {
                Some(value) => self@.label(key@) == Some(value@),
                None => self@.label(key@) is None,
            },
    {
        match &self.config {
            Some(config) => match &config.labels {
                Some(labels) => labels.get(key),
                None => None,
            },
            None => None,
        }
    }

    /// The fingerprint of the settings that the container was made from.
    pub fn config_hash(&self) -> (r: Option<&str>)
        ensures
            match r {
                Some(value) => self@.label("com.remiaft.config_hash"@) == Some(value@),
                None => self@.label("com.remiaft.config_hash"@) is None,
            },
    {
        self.label("com.remiaft.config_hash")
    }

    fn shown_name(&self) -> (r: &str)
        ensures
            r@ == self@.shown_name(),
    {
        match &self.name {
            Some(name) => name.as_str(),
            None => "<unknown>",
        }
    }
}

/// Whether the container was made for this server.
pub open spec fn is_manageable(container: InspectView, server: ServerView) -> bool {
    container.label("remiaft.manager"@) == Some("true"@) && container.label(
        "com.remiaft.server_id"@,
    ) == Some(server.id)
}

/// Whether the container was made for this server.
pub fn is_manageable_container(container: &ContainerInspect, server: &ServerConfig) -> (r: bool)
    ensures
        r == is_manageable(container@, server@),
{
    let marked = match container.label("remiaft.manager") {
        Some(value) => same_text(value, "true"),
        None => false,
    };
    let owned = match container.label("com.remiaft.server_id") {
        Some(value) => same_text(value, server.id.as_str()),
        None => false,
    };
    marked && owned
}

/// Why a mount of an existing container is refused, if it is.
pub open spec fn bind_spec_failure(bind: Seq<char>, host: HostView) -> Option<Seq<char>> {
    let parts = pieces(bind, ':');
    if parts.len() < 2 {
        Some("invalid Docker bind mount: "@ + bind)
    } else {
        bind_failure(parts[0], parts[1], "existing container bind mount"@, host)
    }
}

/// Refuses a mount of an existing container that no container may have.
pub fn validate_bind_spec(bind: &str, host: &HostPaths) -> (r: Result<(), Failure>)
    ensures
        failed(r) == bind_spec_failure(bind@, host@),
{
    let parts = split_on(bind, ':');
    if parts.len() < 2 {
        return Err(Failure { message: glue("invalid Docker bind mount: ", bind) });
    }
    assert(texts(parts@)[0] == parts@[0]@);
    assert(texts(parts@)[1] == parts@[1]@);
    validate_bind_mount(
        parts[0].as_str(),
        parts[1].as_str(),
        "existing container bind mount",
        host,
    )
}

/// Why one of the first `upto` mounts is refused, if one is.
pub open spec fn binds_failure(binds: Seq<Seq<char>>, upto: int, host: HostView) -> Option<Seq<char>>
    decreases upto,
{
    if upto <= 0 {
        None
    } else {
        let earlier = binds_failure(binds, upto - 1, host);
        if earlier is Some {
            earlier
        } else {
            bind_spec_failure(binds[upto - 1], host)
        }
    }
}

/// Why an existing container is refused, if it is.
pub open spec fn container_failure(
    container: InspectView,
    server: ServerView,
    host: HostView,
) -> Option<Seq<char>> {
    match container.host_config {
        None => None,
        Some(config) => if config.privileged == Some(true) {
            Some("refusing to manage privileged Docker container: "@ + container.shown_name())
        } else if config.pid_mode is Some && crate::text::lowered(config.pid_mode->0)
            == crate::text::lowered("host"@) {
            Some(
                "refusing to manage Docker container using host PID namespace: "@
                    + container.shown_name(),
            )
        } else {
            let network = match config.network_mode {
                Some(mode) => network_failure(server, mode),
                None => None,
            };
            if network is Some {
                network
            } else {
                match config.binds {
                    Some(binds) => binds_failure(binds, binds.len() as int, host),
                    None => None,
                }
            }
        },
    }
}

proof fn lemma_first_refusal(binds: Seq<Seq<char>>, upto: int, total: int, host: HostView)
    requires
        0 <= upto <= total,
        binds_failure(binds, upto, host) is Some,
    ensures
        binds_failure(binds, total, host) == binds_failure(binds, upto, host),
    decreases total,
{
    if upto < total {
        lemma_first_refusal(binds, upto, total - 1, host);
    }
}

fn validate_binds(binds: &Vec<String>, host: &HostPaths) -> (r: Result<(), Failure>)
    ensures
        failed(r) == binds_failure(texts(binds@), binds@.len() as int, host@),
{
    let ghost all = texts(binds@);
    let mut i: usize = 0;
    while i < binds.len()
        invariant
            i <= binds@.len(),
            all == texts(binds@),
            binds_failure(all, i as int, host@) is None,
        decreases binds@.len() - i,
    {
        assert(all[i as int] == binds@[i as int]@);
        if let Err(e) = validate_bind_spec(binds[i].as_str(), host) {
            proof {
                lemma_first_refusal(all, i + 1, all.len() as int, host@);
            }
            return Err(e);
        }
        i = i + 1;
    }
    Ok(())
}

/// Refuses an existing container with rights that no container may have.
pub fn validate_container_security(
    container: &ContainerInspect,
    server: &ServerConfig,
    host: &HostPaths,
) -> (r: Result<(), Failure>)
    ensures
        failed(r) == container_failure(container@, server@, host@),
{
    let config = match &container.host_config {
        Some(config) => config,
        None => return Ok(()),
    };
    if let Some(true) = config.privileged {
        return Err(
            Failure {
                message: glue(
                    "refusing to manage privileged Docker container: ",
                    container.shown_name(),
                ),
            },
        );
    }
    if let Some(mode) = &config.pid_mode {
        if same_ignoring_case(mode.as_str(), "host") {
            return Err(
                Failure {
                    message: glue(
                        "refusing to manage Docker container using host PID namespace: ",
                        container.shown_name(),
                    ),
                },
            );
        }
    }
    if let Some(mode) = &config.network_mode {
        if let Err(e) = validate_network_mode(server, mode.as_str()) {
            return Err(e);
        }
    }
    match &config.binds {
        Some(binds) => validate_binds(binds, host),
        None => Ok(()),
    }
}

/// Why an existing container is left alone, if it is.
pub open spec fn manage_failure(
    container: InspectView,
    server: ServerView,
    host: HostView,
) -> Option<Seq<char>> {
    if !is_manageable(container, server) {
        Some(
            "Docker container name conflicts with a container Remiaft is not allowed to manage: "@
                + container.shown_name(),
        )
    } else {
        container_failure(container, server, host)
    }
}

/// Refuses a container that was not made for this server, or has rights that
/// no container may have.
pub fn ensure_manageable_container(
    container: &ContainerInspect,
    server: &ServerConfig,
    host: &HostPaths,
) -> (r: Result<(), Failure>)
    ensures
        failed(r) == manage_failure(container@, server@, host@),
{
    if !is_manageable_container(container, server) {
        return Err(
            Failure {
                message: glue(
                    "Docker container name conflicts with a container Remiaft is not allowed to manage: ",
                    container.shown_name(),
                ),
            },
        );
    }
    validate_container_security(container, server, host)
}

/// A container that was created for a server carries the labels by which it
/// is known as that server's.
pub proof fn created_container_is_manageable(
    server: ServerView,
    config_hash: Seq<char>,
    container: InspectView,
)
    requires
        crate::collections::in_key_order(server.runtime.docker.labels),
        container.labels == Some(labels_of(server, config_hash)),
    ensures
        is_manageable(container, server),
        container.label("com.remiaft.config_hash"@) == Some(config_hash),
{
    reveal_strlit("remiaft.manager");
    reveal_strlit("com.remiaft.managed");
    reveal_strlit("com.remiaft.server_id");
    reveal_strlit("com.remiaft.server_name");
    reveal_strlit("com.remiaft.version");
    reveal_strlit("com.remiaft.config_hash");
    let manager = "remiaft.manager"@;
    let legacy = "com.remiaft.managed"@;
    let id = "com.remiaft.server_id"@;
    let name = "com.remiaft.server_name"@;
    let number = "com.remiaft.version"@;
    let hash = "com.remiaft.config_hash"@;
    assert(manager[0] != legacy[0] && manager[0] != id[0] && manager[0] != name[0] && manager[0]
        != number[0] && manager[0] != hash[0]);
    assert(id.len() != name.len() && id.len() != number.len() && id.len() != hash.len());
    let l0 = server.runtime.docker.labels;
    let l1 = crate::collections::with_entry(l0, manager, "true"@);
    let l2 = crate::collections::with_entry(l1, legacy, "true"@);
    let l3 = crate::collections::with_entry(l2, id, server.id);
    let l4 = crate::collections::with_entry(l3, name, server.name);
    let l5 = crate::collections::with_entry(l4, number, version());
    crate::collections::setting_an_entry(l0, manager, "true"@, manager);
    crate::collections::setting_an_entry(l1, legacy, "true"@, manager);
    crate::collections::setting_an_entry(l2, id, server.id, manager);
    crate::collections::setting_an_entry(l2, id, server.id, id);
    crate::collections::setting_an_entry(l3, name, server.name, manager);
    crate::collections::setting_an_entry(l3, name, server.name, id);
    crate::collections::setting_an_entry(l4, number, version(), manager);
    crate::collections::setting_an_entry(l4, number, version(), id);
    crate::collections::setting_an_entry(l5, hash, config_hash, manager);
    crate::collections::setting_an_entry(l5, hash, config_hash, id);
    crate::collections::setting_an_entry(l5, hash, config_hash, hash);
}

proof fn lemma_bind_pieces(host: Seq<char>, container: Seq<char>, read_only: bool)
    requires
        !host.contains(':'),
        !container.contains(':'),
    ensures
        pieces(bind_text(host, container, read_only), ':') == seq![
            host,
            container,
            if read_only {
                "ro"@
            } else {
                "rw"@
            },
        ],
{
    reveal_strlit(":");
    reveal_strlit("ro");
    reveal_strlit("rw");
    let mode = if read_only {
        "ro"@
    } else {
        "rw"@
    };
    let parts = seq![host, container, mode];
    assert(":"@ =~= seq![':']);
    splitting_undoes_joining(parts, ':');
    assert(parts.drop_last() =~= seq![host, container]);
    assert(parts.drop_last().drop_last() =~= seq![host]);
    reveal_with_fuel(joined, 3);
    assert(joined(parts, seq![':']) =~= bind_text(host, container, read_only));
}

/// A volume as Docker is told of it reads back as the volume, where no path
/// holds a colon.
pub proof fn bind_reads_back(volume: VolumeView)
    requires
        !volume.host.contains(':'),
        !volume.container.contains(':'),
    ensures
        volume_mount(bind_text(volume.host, volume.container, volume.read_only)) == Ok::<
            VolumeView,
            Seq<char>,
        >(volume),
{
    reveal_strlit("ro");
    reveal_strlit("rw");
    lemma_bind_pieces(volume.host, volume.container, volume.read_only);
    assert("ro"@[1] != "rw"@[1]);
}

proof fn lemma_own_bind(host_path: Seq<char>, inside: Seq<char>, read_only: bool, label: Seq<char>, host: HostView)
    requires
        !host_path.contains(':'),
        !inside.contains(':'),
        bind_failure(host_path, inside, label, host) is None,
    ensures
        bind_spec_failure(bind_text(host_path, inside, read_only), host) is None,
{
    lemma_bind_pieces(host_path, inside, read_only);
}

proof fn lemma_each_volume(volumes: Seq<VolumeView>, upto: int, at: int, host: HostView)
    requires
        0 <= at < upto <= volumes.len(),
        volumes_failure(volumes, upto, host) is None,
    ensures
        bind_failure(volumes[at].host, volumes[at].container, "custom volume bind mount"@, host) is None,
    decreases upto,
{
    if at < upto - 1 {
        lemma_each_volume(volumes, upto - 1, at, host);
    }
}

proof fn lemma_no_bind_refused(binds: Seq<Seq<char>>, upto: int, host: HostView)
    requires
        upto <= binds.len(),
        forall|i: int| 0 <= i < binds.len() ==> bind_spec_failure(#[trigger] binds[i], host) is None,
    ensures
        binds_failure(binds, upto, host) is None,
    decreases upto,
{
    if upto > 0 {
        lemma_no_bind_refused(binds, upto - 1, host);
    }
}

/// Whether no path of a server's mounts holds a colon.
pub open spec fn mounts_hold_no_colon(server: ServerView) -> bool {
    let docker = server.runtime.docker;
    &&& docker.mount_server_directory ==> !server.directory.contains(':')
        && !docker.server_dir.contains(':')
    &&& forall|i: int|
        0 <= i < docker.volumes.len() ==> !(#[trigger] docker.volumes[i]).host.contains(':')
            && !docker.volumes[i].container.contains(':')
}

/// A container with the mounts and the network of its server, and with no
/// other rights, is accepted wherever the server itself is, unless a path of a
/// mount holds a colon.
pub proof fn own_container_is_accepted(
    container: InspectView,
    server: ServerView,
    host: HostView,
)
    requires
        security_failure(server, host) is None,
        mounts_hold_no_colon(server),
        container.host_config == Some(
            HostConfigView {
                privileged: Some(false),
                pid_mode: Some(""@),
                network_mode: Some(network_of(server)),
                binds: Some(binds_of(server)),
            },
        ),
    ensures
        container_failure(container, server, host) is None,
{
    reveal_strlit("");
    reveal_strlit("host");
    assert(crate::text::lowered(""@).len() == 0);
    assert(crate::text::lowered("host"@).len() == 4);
    let docker = server.runtime.docker;
    let binds = binds_of(server);
    assert forall|i: int| 0 <= i < binds.len() implies bind_spec_failure(
        #[trigger] binds[i],
        host,
    ) is None by {
        let own: int = if docker.mount_server_directory {
            1
        } else {
            0
        };
        if i < own {
            lemma_own_bind(
                server.directory,
                docker.server_dir,
                false,
                "server directory bind mount"@,
                host,
            );
        } else {
            let mount = docker.volumes[i - own];
            lemma_each_volume(docker.volumes, docker.volumes.len() as int, i - own, host);
            lemma_own_bind(
                mount.host,
                mount.container,
                mount.read_only,
                "custom volume bind mount"@,
                host,
            );
        }
    }
    lemma_no_bind_refused(binds, binds.len() as int, host);
}

/// The length in a frame's header.
pub open spec fn frame_len(body: Seq<u8>, at: int) -> int {
    body[at + 4] * 0x1000000 + body[at + 5] * 0x10000 + body[at + 6] * 0x100 + body[at + 7]
}

/// The data of the frames from a position on, behind the data before them, or
/// nothing where the bytes are no frames.
pub open spec fn frames_from(body: Seq<u8>, index: int, data: Seq<u8>) -> Option<Seq<u8>>
    decreases body.len() - index,
{
    if index < 0 || index + 8 > body.len() {
        if index == body.len() {
            Some(data)
        } else {
            None
        }
    } else if !(body[index] == 1 || body[index] == 2) || body[index + 1] != 0 || body[index + 2]
        != 0 || body[index + 3] != 0 {
        None
    } else {
        let len = frame_len(body, index);
        if index + 8 + len > body.len() {
            None
        } else {
            frames_from(
                body,
                index + 8 + len,
                data + body.subrange(index + 8, index + 8 + len),
            )
        }
    }
}

/// A container's log without the headers of its frames. Bytes that are no
/// frames stay as they are.
pub open spec fn plain_log(body: Seq<u8>) -> Seq<u8> {
    match frames_from(body, 0, Seq::empty()) {
        Some(data) => data,
        None => body,
    }
}

/// Removes the headers from a container's log.
pub fn decode_docker_log(body: &[u8]) -> (r: Vec<u8>)
    ensures
        r@ == plain_log(body@),
{
    let n: usize = body.len();
    let mut index: usize = 0;
    let mut data: Vec<u8> = Vec::new();
    let mut framed = true;
    assert(data@ =~= Seq::<u8>::empty());
    while framed && n - index >= 8
        invariant
            index <= n,
            n == body@.len(),
            framed ==> frames_from(body@, 0, Seq::empty()) == frames_from(
                body@,
                index as int,
                data@,
            ),
            !framed ==> frames_from(body@, 0, Seq::empty()) is None,
        decreases n - index, if framed { 1int } else { 0int },
    {
        let known = (body[index] == 1 || body[index] == 2) && body[index + 1] == 0 && body[index + 2]
            == 0 && body[index + 3] == 0;
        if !known {
            framed = false;
        } else {
            let len: u64 = body[index + 4] as u64 * 0x1000000 + body[index + 5] as u64 * 0x10000
                + body[index + 6] as u64 * 0x100 + body[index + 7] as u64;
            let from: usize = index + 8;
            if len > (n - from) as u64 {
                framed = false;
            } else {
                let to: usize = from + len as usize;
                let ghost before = data@;
                data.extend_from_slice(vstd::slice::slice_subrange(body, from, to));
                assert(data@ =~= before + body@.subrange(from as int, to as int));
                index = to;
            }
        }
    }
    if framed && index == n {
        return data;
    }
    let mut whole: Vec<u8> = Vec::new();
    whole.extend_from_slice(body);
    assert(whole@ =~= body@);
    whole
}

/// A piece of output as the engine frames it: the stream, the length and the
/// bytes.
pub open spec fn frame(stream: u8, data: Seq<u8>) -> Seq<u8> {
    seq![
        stream,
        0,
        0,
        0,
        ((data.len() / 0x1000000) % 0x100) as u8,
        ((data.len() / 0x10000) % 0x100) as u8,
        ((data.len() / 0x100) % 0x100) as u8,
        (data.len() % 0x100) as u8,
    ] + data
}

/// Pieces of output as the engine frames them.
pub open spec fn framed_log(pieces: Seq<(u8, Seq<u8>)>) -> Seq<u8>
    decreases pieces.len(),
{
    if pieces.len() == 0 {
        Seq::empty()
    } else {
        frame(pieces[0].0, pieces[0].1) + framed_log(pieces.drop_first())
    }
}

/// Pieces of output one after the other.
pub open spec fn whole_log(pieces: Seq<(u8, Seq<u8>)>) -> Seq<u8>
    decreases pieces.len(),
{
    if pieces.len() == 0 {
        Seq::empty()
    } else {
        pieces[0].1 + whole_log(pieces.drop_first())
    }
}

proof fn lemma_frames(before: Seq<u8>, pieces: Seq<(u8, Seq<u8>)>, data: Seq<u8>)
    requires
        forall|i: int|
            0 <= i < pieces.len() ==> ((#[trigger] pieces[i]).0 == 1 || pieces[i].0 == 2)
                && pieces[i].1.len() < 0x1_0000_0000,
    ensures
        frames_from(before + framed_log(pieces), before.len() as int, data) == Some(
            data + whole_log(pieces),
        ),
    decreases pieces.len(),
{
    let body = before + framed_log(pieces);
    let index = before.len() as int;
    if pieces.len() == 0 {
        assert(data + whole_log(pieces) =~= data);
    } else {
        let (stream, piece) = pieces[0];
        let first = frame(stream, piece);
        let rest = pieces.drop_first();
        assert(pieces[0].0 == 1 || pieces[0].0 == 2);
        assert(body =~= (before + first) + framed_log(rest));
        assert forall|k: int| 0 <= k < first.len() implies body[index + k] == first[k] by {}
        let n = piece.len() as int;
        assert(first[0] == stream && first[1] == 0 && first[2] == 0 && first[3] == 0);
        assert(body[index + 4] == first[4] && body[index + 5] == first[5] && body[index + 6]
            == first[6] && body[index + 7] == first[7]);
        assert((n / 0x1000000) % 0x100 * 0x1000000 + (n / 0x10000) % 0x100 * 0x10000 + (n / 0x100)
            % 0x100 * 0x100 + n % 0x100 == n) by (nonlinear_arith)
            requires
                0 <= n < 0x1_0000_0000,
        ;
        assert(frame_len(body, index) == n);
        assert(body.subrange(index + 8, index + 8 + n) =~= piece);
        assert forall|i: int| 0 <= i < rest.len() implies ((#[trigger] rest[i]).0 == 1 || rest[i].0
            == 2) && rest[i].1.len() < 0x1_0000_0000 by {
            assert(rest[i] == pieces[i + 1]);
        }
        lemma_frames(before + first, rest, data + piece);
        assert((before + first).len() == index + 8 + n);
        assert(data + piece + whole_log(rest) =~= data + whole_log(pieces));
    }
}

/// Output that the engine framed comes out as it went in: the headers go and
/// the bytes stay, in their order.
pub proof fn framed_output_is_restored(pieces: Seq<(u8, Seq<u8>)>)
    requires
        forall|i: int|
            0 <= i < pieces.len() ==> ((#[trigger] pieces[i]).0 == 1 || pieces[i].0 == 2)
                && pieces[i].1.len() < 0x1_0000_0000,
    ensures
        plain_log(framed_log(pieces)) == whole_log(pieces),
{
    lemma_frames(Seq::empty(), pieces, Seq::empty());
    assert(Seq::<u8>::empty() + framed_log(pieces) =~= framed_log(pieces));
    assert(Seq::<u8>::empty() + whole_log(pieces) =~= whole_log(pieces));
}

/// The server under another identifier, name and password of its remote console.
pub open spec fn relabelled(
    server: ServerView,
    id: Seq<char>,
    name: Seq<char>,
    password: Option<Seq<char>>,
) -> ServerView {
    let docker = server.runtime.docker;
    ServerView {
        id,
        name,
        runtime: RuntimeView {
            docker: DockerView { rcon: RconView { password, ..docker.rcon }, ..docker },
            ..server.runtime
        },
        ..server
    }
}

/// A server's identifier, its name and the password of its remote console leave
/// the fingerprint of the container's settings alone.
pub proof fn fingerprint_leaves_out_names_and_password(
    server: ServerView,
    host_user: Seq<char>,
    id: Seq<char>,
    name: Seq<char>,
    password: Option<Seq<char>>,
    platform: Platform,
)
    ensures
        forall|user: Option<Seq<char>>|
            #[trigger] fingerprint_source(relabelled(server, id, name, password), user, platform)
                == fingerprint_source(server, user, platform),
        config_hash_of(relabelled(server, id, name, password), host_user, platform)
            == config_hash_of(server, host_user, platform),
{
    let other = relabelled(server, id, name, password);
    assert(command_of(other, platform) == command_of(server, platform));
    assert(binds_of(other) == binds_of(server));
    assert(image_identity(other) == image_identity(server));
    assert forall|user: Option<Seq<char>>| #[trigger]
        fingerprint_source(other, user, platform) == fingerprint_source(server, user, platform) by {}
    assert(user_of(other, host_user) == user_of(server, host_user));
}

proof fn lemma_hex_digits(n: u64, digits: nat)
    ensures
        hex_digits(n, digits).len() == digits,
        forall|i: int| 0 <= i < digits ==> is_hex_digit(#[trigger] hex_digits(n, digits)[i]),
    decreases digits,
{
    if digits > 0 {
        lemma_hex_digits(n / 16, (digits - 1) as nat);
    }
}

/// The fingerprint of a container's settings has sixteen lower-case hexadecimal
/// digits. It can be taken unless a user of the container's own lacks a number.
pub proof fn fingerprint_is_hexadecimal(
    server: ServerView,
    host_user: Seq<char>,
    platform: Platform,
)
    ensures
        config_hash_of(server, host_user, platform) is Ok <==> !({
            let user = server.runtime.docker.user;
            user.mode == DockerUserMode::Custom && (user.uid is None || user.gid is None)
        }),
        config_hash_of(server, host_user, platform) matches Ok(hash) ==> hash.len() == 16 && forall|i: int|
            0 <= i < 16 ==> is_hex_digit(#[trigger] hash[i]),
{
    if let Ok(user) = user_of(server, host_user) {
        lemma_hex_digits(fnv1a(json_encoding(fingerprint_source(server, user, platform))), 16);
    }
}

proof fn lemma_decimal_is_injective(a: u16, b: u16)
    requires
        decimal(a as nat) == decimal(b as nat),
    ensures
        a == b,
{
    decimal_reads_back(a as nat, u16::MAX as nat);
    decimal_reads_back(b as nat, u16::MAX as nat);
}

proof fn lemma_port_json_is_injective(a: PortView, b: PortView)
    requires
        port_json(a) == port_json(b),
    ensures
        a == b,
{
    reveal_strlit("name");
    reveal_strlit("container_port");
    reveal_strlit("host_port");
    reveal_strlit("host_ip");
    reveal_strlit("protocol");
    let (x, y) = (port_json(a)->Object_0, port_json(b)->Object_0);
    assert("host_port"@.len() == 9 && "host_ip"@.len() == 7 && "protocol"@.len() == 8);
    assert("name"@.len() == 4 && "container_port"@.len() == 14);
    assert(x["container_port"@] == JsonView::Number(decimal(a.container_port as nat)));
    assert(y["container_port"@] == JsonView::Number(decimal(b.container_port as nat)));
    lemma_decimal_is_injective(a.container_port, b.container_port);
    assert(x.dom().contains("name"@) == a.name is Some);
    assert(y.dom().contains("name"@) == b.name is Some);
    if let Some(name) = a.name {
        assert(x["name"@] == JsonView::Text(name));
        assert(y["name"@] == JsonView::Text(b.name->0));
    }
    assert(x.dom().contains("host_port"@) == a.host_port is Some);
    assert(y.dom().contains("host_port"@) == b.host_port is Some);
    if let Some(port) = a.host_port {
        assert(x["host_port"@] == JsonView::Number(decimal(port as nat)));
        assert(y["host_port"@] == JsonView::Number(decimal(b.host_port->0 as nat)));
        lemma_decimal_is_injective(port, b.host_port->0);
    }
    assert(x.dom().contains("host_ip"@) == a.host_ip is Some);
    assert(y.dom().contains("host_ip"@) == b.host_ip is Some);
    if let Some(ip) = a.host_ip {
        assert(x["host_ip"@] == JsonView::Text(ip));
        assert(y["host_ip"@] == JsonView::Text(b.host_ip->0));
    }
    assert(x.dom().contains("protocol"@) == (a.protocol != DockerProtocol::Tcp));
    assert(y.dom().contains("protocol"@) == (b.protocol != DockerProtocol::Tcp));
}

/// Other ports are other settings to take the fingerprint of.
pub proof fn ports_are_fingerprinted(
    server: ServerView,
    other: ServerView,
    user: Option<Seq<char>>,
    other_user: Option<Seq<char>>,
    platform: Platform,
)
    requires
        server.runtime.docker.ports != other.runtime.docker.ports,
    ensures
        fingerprint_source(server, user, platform) != fingerprint_source(other, other_user, platform),
{
    reveal_strlit("ports");
    reveal_strlit("binds");
    reveal_strlit("mount_server_directory");
    reveal_strlit("server_dir");
    reveal_strlit("working_dir");
    reveal_strlit("startup_command");
    reveal_strlit("use_image_entrypoint");
    reveal_strlit("user");
    reveal_strlit("auto_remove");
    reveal_strlit("command");
    reveal_strlit("rcon");
    assert("ports"@[0] == 'p' && "binds"@[0] == 'b');
    assert("ports"@.len() == 5 && "mount_server_directory"@.len() == 22 && "server_dir"@.len()
        == 10 && "working_dir"@.len() == 11 && "startup_command"@.len() == 15
        && "use_image_entrypoint"@.len() == 20 && "user"@.len() == 4 && "auto_remove"@.len() == 11
        && "command"@.len() == 7 && "rcon"@.len() == 4);
    let (a, b) = (server.runtime.docker.ports, other.runtime.docker.ports);
    let (x, y) = (
        a.map_values(|port: PortView| port_json(port)),
        b.map_values(|port: PortView| port_json(port)),
    );
    assert(fingerprint_source(server, user, platform)->Object_0["ports"@] == JsonView::List(x));
    assert(fingerprint_source(other, other_user, platform)->Object_0["ports"@] == JsonView::List(y));
    if x == y {
        assert(x.len() == a.len() && y.len() == b.len());
        assert forall|i: int| 0 <= i < a.len() implies a[i] == b[i] by {
            assert(x[i] == port_json(a[i]) && y[i] == port_json(b[i]));
            lemma_port_json_is_injective(a[i], b[i]);
        }
        assert(a =~= b);
    }
}

/// What an object holds under a key.
pub open spec fn field(value: JsonView, key: Seq<char>) -> Option<JsonView> {
    match value {
        JsonView::Object(entries) => if entries.contains_key(key) {
            Some(entries[key])
        } else {
            None
        },
        _ => None,
    }
}

/// What an object holds under a key of an object that it holds.
pub open spec fn inner_field(value: JsonView, outer: Seq<char>, key: Seq<char>) -> Option<JsonView> {
    match field(value, outer) {
        Some(inner) => field(inner, key),
        None => None,
    }
}

/// Whether the value is the list of the texts.
pub open spec fn lists(value: Option<JsonView>, list: Seq<Seq<char>>) -> bool {
    match value {
        Some(JsonView::List(items)) => items.len() == list.len() && forall|i: int|
            0 <= i < list.len() ==> items[i] == JsonView::Text(#[trigger] list[i]),
        _ => false,
    }
}

proof fn lemma_host_config(server: ServerView)
    ensures
        ({
            let docker = server.runtime.docker;
            let host = host_config(server);
            &&& lists(field(host, "Binds"@), binds_of(server))
            &&& field(host, "NetworkMode"@) == Some(JsonView::Text(network_of(server)))
            &&& field(host, "AutoRemove"@) == Some(JsonView::Bool(docker.auto_remove))
            &&& field(host, "Privileged"@) == Some(JsonView::Bool(false))
            &&& field(host, "PidMode"@) == Some(JsonView::Text(Seq::empty()))
            &&& field(host, "PortBindings"@) == Some(
                JsonView::Object(binding_entries(docker.ports, docker.ports.len() as int)),
            )
        }),
{
    reveal_strlit("Binds");
    reveal_strlit("PortBindings");
    reveal_strlit("AutoRemove");
    reveal_strlit("NetworkMode");
    reveal_strlit("Privileged");
    reveal_strlit("PidMode");
    reveal_strlit("");
    let binds = "Binds"@;
    let ports = "PortBindings"@;
    let remove = "AutoRemove"@;
    let network = "NetworkMode"@;
    let privileged = "Privileged"@;
    let pid = "PidMode"@;
    assert(binds.len() == 5 && ports.len() == 12 && remove.len() == 10 && network.len() == 11
        && privileged.len() == 10 && pid.len() == 7);
    assert(remove != privileged) by {
        assert(remove[0] == 'A' && privileged[0] == 'P');
    }
    assert(""@ =~= Seq::<char>::empty());
}

/// The container that is asked for has the image, the command, the user, the
/// directory, the mounts and the network that the server calls for; it is not
/// privileged and sees no processes but its own.
pub proof fn container_says_what_the_server_needs(
    server: ServerView,
    image: Seq<char>,
    config_hash: Seq<char>,
    user: Option<Seq<char>>,
    platform: Platform,
)
    ensures
        ({
            let docker = server.runtime.docker;
            let made = container_settings(server, image, config_hash, user, platform);
            let host = "HostConfig"@;
            &&& field(made, "Image"@) == Some(JsonView::Text(image))
            &&& field(made, "WorkingDir"@) == Some(JsonView::Text(working_dir_of(server)))
            &&& lists(field(made, "Env"@), environment_of(server))
            &&& match user {
                Some(user) => field(made, "User"@) == Some(JsonView::Text(user)),
                None => field(made, "User"@) is None,
            }
            &&& match command_of(server, platform) {
                Some(command) => lists(field(made, "Cmd"@), seq!["sh"@, "-lc"@, command]),
                None => field(made, "Cmd"@) is None,
            }
            &&& lists(inner_field(made, host, "Binds"@), binds_of(server))
            &&& inner_field(made, host, "NetworkMode"@) == Some(JsonView::Text(network_of(server)))
            &&& inner_field(made, host, "AutoRemove"@) == Some(JsonView::Bool(docker.auto_remove))
            &&& inner_field(made, host, "Privileged"@) == Some(JsonView::Bool(false))
            &&& inner_field(made, host, "PidMode"@) == Some(JsonView::Text(Seq::empty()))
            &&& field(made, "Tty"@) == Some(JsonView::Bool(false))
            &&& field(made, "OpenStdin"@) == Some(JsonView::Bool(false))
            &&& field(made, "Labels"@) == Some(map_json(labels_of(server, config_hash)))
            &&& field(made, "ExposedPorts"@) == Some(
                JsonView::Object(exposed_entries(docker.ports, docker.ports.len() as int)),
            )
            &&& inner_field(made, host, "PortBindings"@) == Some(
                JsonView::Object(binding_entries(docker.ports, docker.ports.len() as int)),
            )
        }),
{
    lemma_host_config(server);
    reveal_strlit("Image");
    reveal_strlit("Env");
    reveal_strlit("Labels");
    reveal_strlit("ExposedPorts");
    reveal_strlit("HostConfig");
    reveal_strlit("WorkingDir");
    reveal_strlit("Tty");
    reveal_strlit("OpenStdin");
    reveal_strlit("User");
    reveal_strlit("Cmd");
    let env = "Env"@;
    let tty = "Tty"@;
    let cmd = "Cmd"@;
    let config = "HostConfig"@;
    let dir = "WorkingDir"@;
    assert("Image"@.len() == 5 && env.len() == 3 && "Labels"@.len() == 6 && "ExposedPorts"@.len()
        == 12 && config.len() == 10 && dir.len() == 10 && tty.len() == 3 && "OpenStdin"@.len() == 9
        && "User"@.len() == 4 && cmd.len() == 3);
    assert(env[0] == 'E' && tty[0] == 'T' && cmd[0] == 'C');
    assert(env != tty && env != cmd && tty != cmd);
    assert(config[0] == 'H' && dir[0] == 'W');
    assert(config != dir);
}

/// The labels, as they are written, say what they are.
pub proof fn labels_are_written_as_they_are(
    entries: Seq<(Seq<char>, Seq<char>)>,
    key: Seq<char>,
)
    requires
        crate::collections::in_key_order(entries),
    ensures
        field(map_json(entries), key) == match entry_of(entries, key) {
            Some(value) => Some(JsonView::Text(value)),
            None => None,
        },
{
    lemma_written_entries(entries, key, entries.len() as int);
    lemma_entry_stands(entries, key);
    assert forall|i: int, j: int| 0 <= i < j < entries.len() implies entries[i].0
        != entries[j].0 by {
        assert(crate::text::precedes(entries[i].0, entries[j].0));
        crate::text::lemma_precedes_irreflexive(entries[i].0);
    }
    match entry_of(entries, key) {
        Some(value) => {
            let i = choose|i: int|
                0 <= i < entries.len() && #[trigger] entries[i] == (key, value);
            let k = choose|k: int|
                0 <= k < entries.len() && (#[trigger] entries[k]).0 == key && entries_json(
                    entries,
                    entries.len() as int,
                )[key] == JsonView::Text(entries[k].1);
            assert(i == k);
        },
        None => {},
    }
}

proof fn lemma_written_entries(entries: Seq<(Seq<char>, Seq<char>)>, key: Seq<char>, upto: int)
    requires
        0 <= upto <= entries.len(),
    ensures
        entries_json(entries, upto).contains_key(key) ==> exists|k: int|
            0 <= k < upto && (#[trigger] entries[k]).0 == key && entries_json(entries, upto)[key]
                == JsonView::Text(entries[k].1),
        !entries_json(entries, upto).contains_key(key) ==> forall|k: int|
            0 <= k < upto ==> (#[trigger] entries[k]).0 != key,
    decreases upto,
{
    if upto > 0 {
        lemma_written_entries(entries, key, upto - 1);
        let _ = entries[upto - 1];
    }
}

proof fn lemma_entry_stands(entries: Seq<(Seq<char>, Seq<char>)>, key: Seq<char>)
    ensures
        match entry_of(entries, key) {
            Some(value) => exists|i: int|
                0 <= i < entries.len() && #[trigger] entries[i] == (key, value),
            None => forall|i: int| 0 <= i < entries.len() ==> (#[trigger] entries[i]).0 != key,
        },
    decreases entries.len(),
{
    if entries.len() > 0 {
        let rest = entries.drop_first();
        if entries[0].0 == key {
            assert(entries[0] == (key, entries[0].1));
        } else {
            lemma_entry_stands(rest, key);
            match entry_of(rest, key) {
                Some(value) => {
                    let i = choose|i: int|
                        0 <= i < rest.len() && #[trigger] rest[i] == (key, value);
                    assert(entries[i + 1] == (key, value));
                },
                None => {
                    assert forall|i: int| 0 <= i < entries.len() implies (#[trigger] entries[i]).0
                        != key by {
                        if i > 0 {
                            assert(rest[i - 1] == entries[i]);
                        }
                    }
                },
            }
        }
    }
}

/// The name of a port for Docker: its number, a slash and the protocol.
pub open spec fn port_words(port: PortView) -> Seq<char> {
    decimal(port.container_port as nat) + seq!['/'] + match port.protocol {
        DockerProtocol::Tcp => "tcp"@,
        DockerProtocol::Udp => "udp"@,
    }
}

proof fn lemma_ports_are_entered(ports: Seq<PortView>, upto: int, i: int)
    requires
        0 <= i < upto <= ports.len(),
        forall|j: int| i < j < upto ==> port_words(#[trigger] ports[j]) != port_words(ports[i]),
    ensures
        exposed_entries(ports, upto).contains_key(port_words(ports[i])),
        binding_entries(ports, upto).contains_key(port_words(ports[i])),
        binding_entries(ports, upto)[port_words(ports[i])] == binding_of(ports[i]),
    decreases upto,
{
    reveal_strlit("/");
    assert("/"@ =~= seq!['/']);
    let last = ports[upto - 1];
    assert(port_name(last.container_port, last.protocol) == port_words(last));
    if i < upto - 1 {
        lemma_ports_are_entered(ports, upto - 1, i);
    }
}

/// Each port of a server is opened in its container, and reached at the port of
/// the machine that was chosen for it, or at one that Docker picks.
pub proof fn ports_are_published(
    server: ServerView,
    image: Seq<char>,
    config_hash: Seq<char>,
    user: Option<Seq<char>>,
    platform: Platform,
    i: int,
)
    requires
        0 <= i < server.runtime.docker.ports.len(),
        forall|j: int|
            i < j < server.runtime.docker.ports.len() ==> port_words(
                #[trigger] server.runtime.docker.ports[j],
            ) != port_words(server.runtime.docker.ports[i]),
    ensures
        ({
            let made = container_settings(server, image, config_hash, user, platform);
            let port = server.runtime.docker.ports[i];
            let opened = inner_field(made, "ExposedPorts"@, port_words(port));
            let bindings = inner_field(made, "HostConfig"@, "PortBindings"@);
            let bound = field(bindings->0, port_words(port));
            &&& opened is Some
            &&& bindings is Some
            &&& match bound {
                Some(JsonView::List(items)) => {
                    &&& items.len() == 1
                    &&& field(items[0], "HostPort"@) == Some(
                        JsonView::Text(
                            match port.host_port {
                                Some(number) => decimal(number as nat),
                                None => Seq::empty(),
                            },
                        ),
                    )
                    &&& field(items[0], "HostIp"@) == (match port.host_ip {
                        Some(ip) => if ip.len() > 0 {
                            Some(JsonView::Text(ip))
                        } else {
                            None
                        },
                        None => None,
                    })
                },
                _ => false,
            }
        }),
{
    let ports = server.runtime.docker.ports;
    container_says_what_the_server_needs(server, image, config_hash, user, platform);
    lemma_ports_are_entered(ports, ports.len() as int, i);
    reveal_strlit("HostIp");
    reveal_strlit("HostPort");
    assert("HostIp"@.len() == 6 && "HostPort"@.len() == 8);
}

/// A container is asked for by its name, and only where the server may run in
/// one and its user is known.
pub proof fn container_is_asked_for_by_name(
    server: ServerView,
    host: HostView,
    host_user: Seq<char>,
    name: Seq<char>,
    image: Seq<char>,
    config_hash: Seq<char>,
)
    ensures
        ({
            let made = create_request(server, host, host_user, name, image, config_hash);
            &&& made is Ok <==> security_failure(server, host) is None && user_of(server, host_user)
                is Ok
            &&& made matches Ok(request) ==> {
                &&& request.method == "POST"@
                &&& request.path == "/containers/create?name="@ + percent_encoded(
                    encode_utf8(name),
                    false,
                )
                &&& user_of(server, host_user) matches Ok(user) && request.body == json_encoding(
                    container_settings(server, image, config_hash, user, host.platform),
                )
            }
        }),
{
}

/// The network that is asked for has the name that was chosen, keeps its
/// containers apart from the machine, and is labelled as one of this program's.
pub proof fn network_says_what_it_is(network: Seq<char>)
    ensures
        ({
            let made = network_settings(network);
            &&& field(made, "Name"@) == Some(JsonView::Text(network))
            &&& field(made, "Driver"@) == Some(JsonView::Text("bridge"@))
            &&& inner_field(made, "Labels"@, "remiaft.manager"@) == Some(JsonView::Text("true"@))
            &&& inner_field(made, "Labels"@, "com.remiaft.managed"@) == Some(
                JsonView::Text("true"@),
            )
            &&& inner_field(made, "Labels"@, "com.remiaft.version"@) == Some(
                JsonView::Text(version()),
            )
        }),
{
    reveal_strlit("Name");
    reveal_strlit("Driver");
    reveal_strlit("Labels");
    reveal_strlit("remiaft.manager");
    reveal_strlit("com.remiaft.managed");
    reveal_strlit("com.remiaft.version");
    let driver = "Driver"@;
    let labels = "Labels"@;
    let managed = "com.remiaft.managed"@;
    let number = "com.remiaft.version"@;
    assert("Name"@.len() == 4 && driver.len() == 6 && labels.len() == 6);
    assert(driver[0] == 'D' && labels[0] == 'L');
    assert("remiaft.manager"@.len() == 15 && managed.len() == 19 && number.len() == 19);
    assert(managed[12] == 'm' && number[12] == 'v');
    assert(managed != number);
}

/// A container belongs to one server at most.
pub proof fn container_belongs_to_one_server(container: InspectView, a: ServerView, b: ServerView)
    requires
        is_manageable(container, a),
        is_manageable(container, b),
    ensures
        a.id == b.id,
{
}

proof fn lemma_binds_failure(binds: Seq<Seq<char>>, upto: int, host: HostView)
    requires
        0 <= upto <= binds.len(),
    ensures
        binds_failure(binds, upto, host) is None <==> forall|i: int|
            0 <= i < upto ==> bind_spec_failure(#[trigger] binds[i], host) is None,
    decreases upto,
{
    if upto > 0 {
        lemma_binds_failure(binds, upto - 1, host);
        let _ = binds[upto - 1];
    }
}

/// A container is managed exactly where it is labelled as this server's, is not
/// privileged, does not share the processes or the network of the machine, and
/// has no mount that would be refused.
pub proof fn only_safe_containers_are_managed(
    container: InspectView,
    server: ServerView,
    host: HostView,
)
    ensures
        manage_failure(container, server, host) is None <==> {
            &&& container.label("remiaft.manager"@) == Some("true"@)
            &&& container.label("com.remiaft.server_id"@) == Some(server.id)
            &&& container.host_config matches Some(config) ==> {
                &&& config.privileged != Some(true)
                &&& config.pid_mode matches Some(mode) ==> crate::text::lowered(mode)
                    != crate::text::lowered("host"@)
                &&& config.network_mode matches Some(mode) ==> crate::text::lowered(
                    crate::text::trimmed(mode),
                ) != crate::text::lowered("host"@)
                &&& config.binds matches Some(binds) ==> forall|i: int|
                    0 <= i < binds.len() ==> bind_spec_failure(#[trigger] binds[i], host) is None
            }
        },
{
    if let Some(config) = container.host_config {
        if let Some(binds) = config.binds {
            lemma_binds_failure(binds, binds.len() as int, host);
        }
    }
}

/// A mount of a container is judged by its place on the machine and its place in
/// the container, whatever is said behind them.
pub proof fn existing_mounts_are_judged(
    place: Seq<char>,
    inside: Seq<char>,
    rest: Seq<char>,
    host: HostView,
)
    requires
        !place.contains(':'),
        !inside.contains(':'),
        !rest.contains(':'),
    ensures
        bind_spec_failure(place + seq![':'] + inside + seq![':'] + rest, host) == bind_failure(
            place,
            inside,
            "existing container bind mount"@,
            host,
        ),
        bind_spec_failure(place + seq![':'] + inside, host) == bind_failure(
            place,
            inside,
            "existing container bind mount"@,
            host,
        ),
        bind_spec_failure(place, host) is Some,
{
    crate::text::lemma_pieces_plain(place, ':');
    crate::text::lemma_pieces_append(place, inside, ':');
    crate::text::lemma_pieces_append(place + seq![':'] + inside, rest, ':');
}

proof fn lemma_decimal_is_unique(a: nat, b: nat)
    requires
        decimal(a) == decimal(b),
    ensures
        a == b,
{
    let max = if a < b {
        b
    } else {
        a
    };
    decimal_reads_back(a, max);
    decimal_reads_back(b, max);
}

/// Servers of one fingerprint run alike: in all that a container is made of they
/// agree.
pub proof fn one_fingerprint_is_one_container(
    a: ServerView,
    b: ServerView,
    user_a: Option<Seq<char>>,
    user_b: Option<Seq<char>>,
    platform: Platform,
)
    requires
        fingerprint_source(a, user_a, platform) == fingerprint_source(b, user_b, platform),
    ensures
        user_a == user_b,
        network_of(a) == network_of(b),
        working_dir_of(a) == working_dir_of(b),
        command_of(a, platform) == command_of(b, platform),
        a.runtime.docker.startup_command == b.runtime.docker.startup_command,
        a.runtime.docker.use_image_entrypoint == b.runtime.docker.use_image_entrypoint,
        a.runtime.docker.mount_server_directory == b.runtime.docker.mount_server_directory,
        a.runtime.docker.server_dir == b.runtime.docker.server_dir,
        a.runtime.docker.auto_remove == b.runtime.docker.auto_remove,
        a.runtime.docker.rcon.mode == b.runtime.docker.rcon.mode,
        a.runtime.docker.rcon.container_port == b.runtime.docker.rcon.container_port,
        a.runtime.docker.rcon.host_port == b.runtime.docker.rcon.host_port,
        a.runtime.docker.rcon.host == b.runtime.docker.rcon.host,
        image_identity(a) == image_identity(b),
        binds_of(a) == binds_of(b),
        map_json(a.runtime.docker.labels) == map_json(b.runtime.docker.labels),
        map_json(a.runtime.docker.environment) == map_json(b.runtime.docker.environment),
{
    reveal_strlit("image");
    reveal_strlit("network");
    reveal_strlit("labels");
    reveal_strlit("environment");
    reveal_strlit("ports");
    reveal_strlit("binds");
    reveal_strlit("mount_server_directory");
    reveal_strlit("server_dir");
    reveal_strlit("working_dir");
    reveal_strlit("startup_command");
    reveal_strlit("use_image_entrypoint");
    reveal_strlit("user");
    reveal_strlit("auto_remove");
    reveal_strlit("command");
    reveal_strlit("rcon");
    let image = "image"@;
    let network = "network"@;
    let labels = "labels"@;
    let environment = "environment"@;
    let ports = "ports"@;
    let binds = "binds"@;
    let mount = "mount_server_directory"@;
    let server_dir = "server_dir"@;
    let working_dir = "working_dir"@;
    let startup = "startup_command"@;
    let entrypoint = "use_image_entrypoint"@;
    let user = "user"@;
    let remove = "auto_remove"@;
    let command = "command"@;
    let rcon = "rcon"@;
    assert(image.len() == 5 && network.len() == 7 && labels.len() == 6 && environment.len() == 11
        && ports.len() == 5 && binds.len() == 5 && mount.len() == 22 && server_dir.len() == 10
        && working_dir.len() == 11 && startup.len() == 15 && entrypoint.len() == 20 && user.len()
        == 4 && remove.len() == 11 && command.len() == 7 && rcon.len() == 4);
    assert(image[0] == 'i' && ports[0] == 'p' && binds[0] == 'b');
    assert(network[0] == 'n' && command[0] == 'c');
    assert(environment[0] == 'e' && working_dir[0] == 'w' && remove[0] == 'a');
    assert(user[0] == 'u' && rcon[0] == 'r');
    let f = fingerprint_source(a, user_a, platform)->Object_0;
    let g = fingerprint_source(b, user_b, platform)->Object_0;
    let da = a.runtime.docker;
    let db = b.runtime.docker;
    assert(f[image] == image_identity(a) && g[image] == image_identity(b));
    assert(f[network] == JsonView::Text(network_of(a)) && g[network] == JsonView::Text(
        network_of(b),
    ));
    assert(f[labels] == map_json(da.labels) && g[labels] == map_json(db.labels));
    assert(f[environment] == map_json(da.environment) && g[environment] == map_json(
        db.environment,
    ));
    assert(f[binds] == texts_json(binds_of(a)) && g[binds] == texts_json(binds_of(b)));
    lemma_texts_json(binds_of(a), binds_of(b));
    assert(f[mount] == JsonView::Bool(da.mount_server_directory) && g[mount] == JsonView::Bool(
        db.mount_server_directory,
    ));
    assert(f[server_dir] == JsonView::Text(da.server_dir) && g[server_dir] == JsonView::Text(
        db.server_dir,
    ));
    assert(f[working_dir] == JsonView::Text(working_dir_of(a)) && g[working_dir] == JsonView::Text(
        working_dir_of(b),
    ));
    assert(f[startup] == opt_json(da.startup_command) && g[startup] == opt_json(
        db.startup_command,
    ));
    assert(f[entrypoint] == JsonView::Bool(da.use_image_entrypoint) && g[entrypoint]
        == JsonView::Bool(db.use_image_entrypoint));
    assert(f[user] == opt_json(user_a) && g[user] == opt_json(user_b));
    assert(f[remove] == JsonView::Bool(da.auto_remove) && g[remove] == JsonView::Bool(
        db.auto_remove,
    ));
    assert(f[command] == opt_json(command_of(a, platform)) && g[command] == opt_json(
        command_of(b, platform),
    ));
    lemma_rcon_is_fingerprinted(a, b, f[rcon], g[rcon]);
}

proof fn lemma_texts_json(a: Seq<Seq<char>>, b: Seq<Seq<char>>)
    requires
        texts_json(a) == texts_json(b),
    ensures
        a == b,
{
    let x = texts_json(a)->List_0;
    let y = texts_json(b)->List_0;
    assert(x.len() == a.len() && y.len() == b.len());
    assert forall|i: int| 0 <= i < a.len() implies a[i] == b[i] by {
        assert(x[i] == JsonView::Text(a[i]));
        assert(y[i] == JsonView::Text(b[i]));
    }
    assert(a =~= b);
}

proof fn lemma_rcon_is_fingerprinted(a: ServerView, b: ServerView, f: JsonView, g: JsonView)
    requires
        f == g,
        f == (JsonView::Object(
            map![
                "mode"@ => JsonView::Text(rcon_mode_name(a.runtime.docker.rcon.mode)),
                "container_port"@ => JsonView::Number(
                    decimal(a.runtime.docker.rcon.container_port as nat),
                ),
                "host_port"@ => match a.runtime.docker.rcon.host_port {
                    Some(port) => JsonView::Number(decimal(port as nat)),
                    None => JsonView::Null,
                },
                "host"@ => JsonView::Text(a.runtime.docker.rcon.host),
            ],
        )),
        g == (JsonView::Object(
            map![
                "mode"@ => JsonView::Text(rcon_mode_name(b.runtime.docker.rcon.mode)),
                "container_port"@ => JsonView::Number(
                    decimal(b.runtime.docker.rcon.container_port as nat),
                ),
                "host_port"@ => match b.runtime.docker.rcon.host_port {
                    Some(port) => JsonView::Number(decimal(port as nat)),
                    None => JsonView::Null,
                },
                "host"@ => JsonView::Text(b.runtime.docker.rcon.host),
            ],
        )),
    ensures
        a.runtime.docker.rcon.mode == b.runtime.docker.rcon.mode,
        a.runtime.docker.rcon.container_port == b.runtime.docker.rcon.container_port,
        a.runtime.docker.rcon.host_port == b.runtime.docker.rcon.host_port,
        a.runtime.docker.rcon.host == b.runtime.docker.rcon.host,
{
    let ra = a.runtime.docker.rcon;
    let rb = b.runtime.docker.rcon;
    reveal_strlit("mode");
    reveal_strlit("container_port");
    reveal_strlit("host_port");
    reveal_strlit("host");
    reveal_strlit("auto");
    reveal_strlit("manual");
    reveal_strlit("disabled");
    let mode = "mode"@;
    let inside = "container_port"@;
    let outside = "host_port"@;
    let host = "host"@;
    assert(mode.len() == 4 && inside.len() == 14 && outside.len() == 9 && host.len() == 4);
    assert(mode[0] == 'm' && host[0] == 'h');
    assert("auto"@.len() == 4 && "manual"@.len() == 6 && "disabled"@.len() == 8);
    let x = f->Object_0;
    let y = g->Object_0;
    assert(x[mode] == JsonView::Text(rcon_mode_name(ra.mode)));
    assert(y[mode] == JsonView::Text(rcon_mode_name(rb.mode)));
    assert(x[inside] == JsonView::Number(decimal(ra.container_port as nat)));
    assert(y[inside] == JsonView::Number(decimal(rb.container_port as nat)));
    lemma_decimal_is_unique(ra.container_port as nat, rb.container_port as nat);
    assert(x[host] == JsonView::Text(ra.host));
    assert(y[host] == JsonView::Text(rb.host));
    match (ra.host_port, rb.host_port) {
        (Some(p), Some(q)) => {
            assert(x[outside] == JsonView::Number(decimal(p as nat)));
            assert(y[outside] == JsonView::Number(decimal(q as nat)));
            lemma_decimal_is_unique(p as nat, q as nat);
        },
        (Some(p), None) => {
            assert(x[outside] == JsonView::Number(decimal(p as nat)));
            assert(y[outside] == JsonView::Null);
        },
        (None, Some(q)) => {
            assert(x[outside] == JsonView::Null);
            assert(y[outside] == JsonView::Number(decimal(q as nat)));
        },
        (None, None) => {},
    }
}

/// What image a container runs is told by the image that was chosen, by the list
/// that was, or by the Java that the server's release needs.
pub proof fn image_is_identified(server: ServerView, image: Seq<char>)
    ensures
        ({
            let docker = server.runtime.docker;
            let identity = image_identity(server);
            &&& docker.image == Some(image) && crate::text::trimmed(image).len() > 0 ==> field(
                identity,
                "kind"@,
            ) == Some(JsonView::Text("explicit"@)) && field(identity, "image"@) == Some(
                JsonView::Text(crate::text::trimmed(image)),
            )
            &&& docker.image is None && docker.image_candidates.len() > 0 ==> field(
                identity,
                "kind"@,
            ) == Some(JsonView::Text("candidates"@)) && lists(
                field(identity, "images"@),
                docker.image_candidates,
            )
            &&& docker.image is None && docker.image_candidates.len() == 0 ==> field(
                identity,
                "kind"@,
            ) == Some(JsonView::Text("minecraft-java"@)) && field(identity, "major"@) == Some(
                JsonView::Number(decimal(java_major(server.version))),
            )
        }),
{
    reveal_strlit("kind");
    reveal_strlit("image");
    reveal_strlit("images");
    reveal_strlit("major");
    assert("kind"@.len() == 4 && "image"@.len() == 5 && "images"@.len() == 6 && "major"@.len() == 5);
}

/// Output that is not framed is kept as it is.
pub proof fn unframed_output_is_kept(body: Seq<u8>)
    requires
        body.len() >= 8,
        body[0] != 1 && body[0] != 2 || body[1] != 0 || body[2] != 0 || body[3] != 0,
    ensures
        plain_log(body) == body,
{
}

} // verus!
