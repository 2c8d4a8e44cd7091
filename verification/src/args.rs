//! Settings that are given on the command line.

use vstd::prelude::*;

use crate::collections::lemma_first_where;
use crate::config::{
    is_short_id, names_server, new_server, port_views, server_position, short_id, volume_views,
    ConfigView, DockerPortMapping, DockerProtocol, DockerServerConfig, DockerView,
    DockerVolumeMount, PortView, RconMode, RconView, RemiaftConfig, RuntimeView, ServerConfig,
    ServerRuntimeKind, ServerView, VolumeView,
};
use crate::docker::{security_failure, validate_server_config, HostPaths, HostView};
use crate::failure::{failed, Failure};
use crate::groups::{
    are_short_ids, led_to, making_a_path_keeps_groups, path_leads_to_its_group, path_names,
    with_path,
};
use crate::numbers::{
    decimal, decimal_reads_back, lemma_decimal_is_digits, number, parse_u16_text, NumberError,
};
use crate::text::{
    glue, glue3, is_blank, joined, last_at, lemma_pieces_plain, opt_text, pieces, rfind_char,
    same_text, split_on, splitting_undoes_joining, texts, trim, trimmed,
};

verus! {

/// Reads a port number that the label names.
pub open spec fn port_number(value: Seq<char>, label: Seq<char>) -> Result<u16, Seq<char>> {
    match number(value, 10, u16::MAX as nat) {
        Ok(n) => Ok(n as u16),
        Err(e) => Err("invalid "@ + label + " "@ + value + ": "@ + e.words()),
    }
}

/// Reads a port number that the label names.
pub fn parse_u16(value: &str, label: &str) -> (r: Result<u16, Failure>)
    ensures
        match r {
            Ok(n) => port_number(value@, label@) == Ok::<u16, Seq<char>>(n),
            Err(e) => port_number(value@, label@) == Err::<u16, Seq<char>>(e@),
        },
{
    match parse_u16_text(value) {
        Ok(n) => Ok(n),
        Err(e) => {
            let mut message = glue3("invalid ", label, " ");
            message.append(value);
            message.append(": ");
            message.append(e.message());
            Err(Failure { message })
        },
    }
}

/// The ports and the protocol of a mapping. The protocol stands behind the
/// last slash.
pub open spec fn protocol_split(raw: Seq<char>) -> Result<(Seq<char>, DockerProtocol), Seq<char>> {
    match last_at(raw, '/') {
        None => Ok((raw, DockerProtocol::Tcp)),
        Some(at) => {
            let name = raw.skip(at + 1);
            if name == "tcp"@ {
                Ok((raw.take(at), DockerProtocol::Tcp))
            } else if name == "udp"@ {
                Ok((raw.take(at), DockerProtocol::Udp))
            } else {
                Err("unsupported port protocol: "@ + name)
            }
        },
    }
}

/// The mapping of a container port, without name.
pub open spec fn unnamed_port(
    host_ip: Option<Seq<char>>,
    host_port: Option<u16>,
    container_port: u16,
    protocol: DockerProtocol,
) -> PortView {
    PortView { name: None, container_port, host_port, host_ip, protocol }
}

/// A port mapping: a container port, a host port and a container port, or an
/// address, a host port and a container port, with colons between them and an
/// optional protocol.
pub open spec fn port_mapping(raw: Seq<char>) -> Result<PortView, Seq<char>> {
    match protocol_split(raw) {
        Err(e) => Err(e),
        Ok((ports, protocol)) => {
            let parts = pieces(ports, ':');
            if parts.len() == 1 {
                match port_number(parts[0], "container port"@) {
                    Ok(inside) => Ok(unnamed_port(None, None, inside, protocol)),
                    Err(e) => Err(e),
                }
            } else if parts.len() == 2 || parts.len() == 3 {
                let at = parts.len() - 2;
                let ip = if parts.len() == 3 {
                    Some(parts[0])
                } else {
                    None
                };
                match port_number(parts[at], "host port"@) {
                    Err(e) => Err(e),
                    Ok(outside) => match port_number(parts[at + 1], "container port"@) {
                        Err(e) => Err(e),
                        Ok(inside) => Ok(unnamed_port(ip, Some(outside), inside, protocol)),
                    },
                }
            } else {
                Err("invalid port mapping: "@ + raw)
            }
        },
    }
}

/// Reads a port mapping.
pub fn parse_port_mapping(raw: &str) -> (r: Result<DockerPortMapping, Failure>)
    ensures
        match r {
            Ok(port) => port_mapping(raw@) == Ok::<PortView, Seq<char>>(port@),
            Err(e) => port_mapping(raw@) == Err::<PortView, Seq<char>>(e@),
        },
{
    let n: usize = raw.unicode_len();
    let (ports, protocol) = match rfind_char(raw, '/') {
        None => (raw, DockerProtocol::Tcp),
        Some(at) => {
            let name = raw.substring_char(at + 1, n);
            assert(raw@.skip(at + 1) =~= raw@.subrange(at + 1, n as int));
            assert(raw@.take(at as int) =~= raw@.subrange(0, at as int));
            if same_text(name, "tcp") {
                (raw.substring_char(0, at), DockerProtocol::Tcp)
            } else if same_text(name, "udp") {
                (raw.substring_char(0, at), DockerProtocol::Udp)
            } else {
                return Err(Failure { message: glue("unsupported port protocol: ", name) });
            }
        },
    };
    let parts = split_on(ports, ':');
    let ghost all = texts(parts@);
    let count: usize = parts.len();
    if count == 1 {
        assert(all[0] == parts@[0]@);
        return match parse_u16(parts[0].as_str(), "container port") {
            Ok(container_port) => Ok(
                DockerPortMapping {
                    name: None,
                    container_port,
                    host_port: None,
                    host_ip: None,
                    protocol,
                },
            ),
            Err(e) => Err(e),
        };
    }
    if count == 2 || count == 3 {
        let at: usize = count - 2;
        assert(all[at as int] == parts@[at as int]@);
        assert(all[at + 1] == parts@[at + 1]@);
        assert(all[0] == parts@[0]@);
        let host_port: u16 = match parse_u16(parts[at].as_str(), "host port") {
            Ok(port) => port,
            Err(e) => return Err(e),
        };
        let container_port: u16 = match parse_u16(parts[at + 1].as_str(), "container port") {
            Ok(port) => port,
            Err(e) => return Err(e),
        };
        let host_ip = if count == 3 {
            Some(parts[0].clone())
        } else {
            None
        };
        return Ok(
            DockerPortMapping {
                name: None,
                container_port,
                host_port: Some(host_port),
                host_ip,
                protocol,
            },
        );
    }
    Err(Failure { message: glue("invalid port mapping: ", raw) })
}

/// A volume: a host path, a container path and optionally `rw` or `ro`, with
/// colons between them.
pub open spec fn volume_mount(raw: Seq<char>) -> Result<VolumeView, Seq<char>> {
    let parts = pieces(raw, ':');
    if parts.len() == 2 {
        Ok(VolumeView { host: parts[0], container: parts[1], read_only: false })
    } else if parts.len() == 3 {
        if parts[2] == "rw"@ {
            Ok(VolumeView { host: parts[0], container: parts[1], read_only: false })
        } else if parts[2] == "ro"@ {
            Ok(VolumeView { host: parts[0], container: parts[1], read_only: true })
        } else {
            Err("invalid volume mode: "@ + parts[2])
        }
    } else {
        Err("invalid volume mapping: "@ + raw)
    }
}

/// Reads a volume.
pub fn parse_volume_mount(raw: &str) -> (r: Result<DockerVolumeMount, Failure>)
    ensures
        match r {
            Ok(volume) => volume_mount(raw@) == Ok::<VolumeView, Seq<char>>(volume@),
            Err(e) => volume_mount(raw@) == Err::<VolumeView, Seq<char>>(e@),
        },
{
    let parts = split_on(raw, ':');
    let ghost all = texts(parts@);
    let count: usize = parts.len();
    if count != 2 && count != 3 {
        return Err(Failure { message: glue("invalid volume mapping: ", raw) });
    }
    assert(all[0] == parts@[0]@);
    assert(all[1] == parts@[1]@);
    let mut read_only = false;
    if count == 3 {
        assert(all[2] == parts@[2]@);
        if same_text(parts[2].as_str(), "ro") {
            proof {
                reveal_strlit("ro");
                reveal_strlit("rw");
                assert("ro"@[1] != "rw"@[1]);
            }
            read_only = true;
        } else if !same_text(parts[2].as_str(), "rw") {
            return Err(Failure { message: glue("invalid volume mode: ", parts[2].as_str()) });
        }
    }
    Ok(DockerVolumeMount { host: parts[0].clone(), container: parts[1].clone(), read_only })
}

/// The mappings up to the first one that cannot be read, and what is wrong
/// with that one.
pub open spec fn port_list(raw: Seq<Seq<char>>) -> (Seq<PortView>, Option<Seq<char>>)
    decreases raw.len(),
{
    if raw.len() == 0 {
        (Seq::empty(), None)
    } else {
        let (ports, problem) = port_list(raw.drop_last());
        if problem is Some {
            (ports, problem)
        } else {
            match port_mapping(raw.last()) {
                Ok(port) => (ports.push(port), None),
                Err(e) => (ports, Some(e)),
            }
        }
    }
}

/// The volumes up to the first one that cannot be read, and what is wrong
/// with that one.
pub open spec fn volume_list(raw: Seq<Seq<char>>) -> (Seq<VolumeView>, Option<Seq<char>>)
    decreases raw.len(),
{
    if raw.len() == 0 {
        (Seq::empty(), None)
    } else {
        let (volumes, problem) = volume_list(raw.drop_last());
        if problem is Some {
            (volumes, problem)
        } else {
            match volume_mount(raw.last()) {
                Ok(volume) => (volumes.push(volume), None),
                Err(e) => (volumes, Some(e)),
            }
        }
    }
}

proof fn lemma_port_problem_stays(raw: Seq<Seq<char>>, upto: int)
    requires
        0 <= upto <= raw.len(),
        port_list(raw.take(upto)).1 is Some,
    ensures
        port_list(raw) == port_list(raw.take(upto)),
    decreases raw.len(),
{
    if upto < raw.len() {
        assert(raw.drop_last().take(upto) =~= raw.take(upto));
        lemma_port_problem_stays(raw.drop_last(), upto);
    } else {
        assert(raw.take(upto) =~= raw);
    }
}

proof fn lemma_volume_problem_stays(raw: Seq<Seq<char>>, upto: int)
    requires
        0 <= upto <= raw.len(),
        volume_list(raw.take(upto)).1 is Some,
    ensures
        volume_list(raw) == volume_list(raw.take(upto)),
    decreases raw.len(),
{
    if upto < raw.len() {
        assert(raw.drop_last().take(upto) =~= raw.take(upto));
        lemma_volume_problem_stays(raw.drop_last(), upto);
    } else {
        assert(raw.take(upto) =~= raw);
    }
}

fn add_ports(ports: &mut Vec<DockerPortMapping>, raw: &Vec<String>) -> (r: Result<(), Failure>)
    ensures
        port_views(final(ports)@) == port_views(old(ports)@) + port_list(texts(raw@)).0,
        failed(r) == port_list(texts(raw@)).1,
{
    let ghost all = texts(raw@);
    let ghost before = port_views(ports@);
    let mut i: usize = 0;
    assert(all.take(0).len() == 0);
    assert(port_views(ports@) =~= before + Seq::<PortView>::empty());
    while i < raw.len()
        invariant
            i <= raw@.len(),
            all == texts(raw@),
            before == port_views(old(ports)@),
            port_list(all.take(i as int)).1 is None,
            port_views(ports@) == before + port_list(all.take(i as int)).0,
        decreases raw@.len() - i,
    {
        assert(all.take(i + 1).drop_last() =~= all.take(i as int));
        assert(all[i as int] == raw@[i as int]@);
        match parse_port_mapping(raw[i].as_str()) {
            Ok(port) => {
                let ghost prior = port_views(ports@);
                ports.push(port);
                assert(port_views(ports@) =~= prior.push(port@));
                assert(port_views(ports@) =~= before + port_list(all.take(i + 1)).0);
            },
            Err(e) => {
                proof {
                    lemma_port_problem_stays(all, i + 1);
                }
                return Err(e);
            },
        }
        i = i + 1;
    }
    assert(all.take(i as int) =~= all);
    Ok(())
}

fn add_volumes(volumes: &mut Vec<DockerVolumeMount>, raw: &Vec<String>) -> (r: Result<(), Failure>)
    ensures
        volume_views(final(volumes)@) == volume_views(old(volumes)@) + volume_list(texts(raw@)).0,
        failed(r) == volume_list(texts(raw@)).1,
{
    let ghost all = texts(raw@);
    let ghost before = volume_views(volumes@);
    let mut i: usize = 0;
    assert(all.take(0).len() == 0);
    assert(volume_views(volumes@) =~= before + Seq::<VolumeView>::empty());
    while i < raw.len()
        invariant
            i <= raw@.len(),
            all == texts(raw@),
            before == volume_views(old(volumes)@),
            volume_list(all.take(i as int)).1 is None,
            volume_views(volumes@) == before + volume_list(all.take(i as int)).0,
        decreases raw@.len() - i,
    {
        assert(all.take(i + 1).drop_last() =~= all.take(i as int));
        assert(all[i as int] == raw@[i as int]@);
        match parse_volume_mount(raw[i].as_str()) {
            Ok(volume) => {
                let ghost prior = volume_views(volumes@);
                volumes.push(volume);
                assert(volume_views(volumes@) =~= prior.push(volume@));
                assert(volume_views(volumes@) =~= before + volume_list(all.take(i + 1)).0);
            },
            Err(e) => {
                proof {
                    lemma_volume_problem_stays(all, i + 1);
                }
                return Err(e);
            },
        }
        i = i + 1;
    }
    assert(all.take(i as int) =~= all);
    Ok(())
}

/// Container settings for a new server.
#[derive(Debug)]
pub struct DockerAddArgs {
    pub docker: bool,
    pub image: Option<String>,
    pub no_mount: bool,
    pub use_image_entrypoint: bool,
    pub docker_startup: Option<String>,
    pub network: Option<String>,
    pub rcon: Option<RconMode>,
    pub rcon_host_port: Option<u16>,
    pub rcon_port_start: Option<u16>,
    pub rcon_port_end: Option<u16>,
    pub port: Vec<String>,
    pub volume: Vec<String>,
    pub auto_remove: bool,
}

#[verifier::ext_equal]
pub struct AddView {
    pub docker: bool,
    pub image: Option<Seq<char>>,
    pub no_mount: bool,
    pub use_image_entrypoint: bool,
    pub docker_startup: Option<Seq<char>>,
    pub network: Option<Seq<char>>,
    pub rcon: Option<RconMode>,
    pub rcon_host_port: Option<u16>,
    pub rcon_port_start: Option<u16>,
    pub rcon_port_end: Option<u16>,
    pub port: Seq<Seq<char>>,
    pub volume: Seq<Seq<char>>,
    pub auto_remove: bool,
}

impl View for DockerAddArgs {
    type V = AddView;

    open spec fn view(&self) -> AddView {
        AddView {
            docker: self.docker,
            image: opt_text(self.image),
            no_mount: self.no_mount,
            use_image_entrypoint: self.use_image_entrypoint,
            docker_startup: opt_text(self.docker_startup),
            network: opt_text(self.network),
            rcon: self.rcon,
            rcon_host_port: self.rcon_host_port,
            rcon_port_start: self.rcon_port_start,
            rcon_port_end: self.rcon_port_end,
            port: texts(self.port@),
            volume: texts(self.volume@),
            auto_remove: self.auto_remove,
        }
    }
}

/// The value, or the one in place of it.
pub open spec fn or_value<T>(value: Option<T>, other: T) -> T {
    match value {
        Some(value) => value,
        None => other,
    }
}

/// The remote console's settings with those that were given.
pub open spec fn rcon_with(
    rcon: RconView,
    mode: Option<RconMode>,
    host_port: Option<u16>,
    start: Option<u16>,
    end: Option<u16>,
) -> RconView {
    RconView {
        mode: or_value(mode, rcon.mode),
        host_port: if host_port is Some {
            host_port
        } else {
            rcon.host_port
        },
        port_range_start: or_value(start, rcon.port_range_start),
        port_range_end: or_value(end, rcon.port_range_end),
        ..rcon
    }
}

fn set_rcon(
    docker: &mut DockerServerConfig,
    mode: Option<RconMode>,
    host_port: Option<u16>,
    start: Option<u16>,
    end: Option<u16>,
)
    ensures
        final(docker)@ == (DockerView {
            rcon: rcon_with(old(docker)@.rcon, mode, host_port, start, end),
            ..old(docker)@
        }),
{
    if let Some(mode) = mode {
        docker.rcon.mode = mode;
    }
    if host_port.is_some() {
        docker.rcon.host_port = host_port;
    }
    if let Some(start) = start {
        docker.rcon.port_range_start = start;
    }
    if let Some(end) = end {
        docker.rcon.port_range_end = end;
    }
}

impl AddView {
    /// Whether anything asks for a container.
    pub open spec fn asks_for_docker(self) -> bool {
        self.docker || self.image is Some || self.no_mount || self.use_image_entrypoint
            || self.docker_startup is Some || self.network is Some || self.rcon is Some
            || self.rcon_host_port is Some || self.rcon_port_start is Some
            || self.rcon_port_end is Some || self.port.len() > 0 || self.volume.len() > 0
            || self.auto_remove
    }
}

/// The container settings of a new server, and what is wrong with what was
/// given, if anything is.
pub open spec fn added(docker: DockerView, args: AddView) -> (DockerView, Option<Seq<char>>) {
    let basic = DockerView {
        image: args.image,
        network: args.network,
        mount_server_directory: !args.no_mount,
        use_image_entrypoint: args.use_image_entrypoint,
        startup_command: args.docker_startup,
        auto_remove: args.auto_remove,
        rcon: rcon_with(
            docker.rcon,
            args.rcon,
            args.rcon_host_port,
            args.rcon_port_start,
            args.rcon_port_end,
        ),
        ..docker
    };
    let (ports, problem) = port_list(args.port);
    let mapped = DockerView { ports: docker.ports + ports, ..basic };
    if problem is Some {
        (mapped, problem)
    } else {
        let (volumes, problem) = volume_list(args.volume);
        (DockerView { volumes: docker.volumes + volumes, ..mapped }, problem)
    }
}

/// A new server with its container settings.
pub open spec fn server_added(server: ServerView, args: AddView) -> (ServerView, Option<Seq<char>>) {
    if args.asks_for_docker() {
        let (docker, problem) = added(server.runtime.docker, args);
        (
            ServerView {
                runtime: RuntimeView { kind: ServerRuntimeKind::Docker, docker },
                ..server
            },
            problem,
        )
    } else {
        (server, None)
    }
}

/// Gives a new server the container settings from the command line.
pub fn apply_docker_add_args(server: &mut ServerConfig, args: DockerAddArgs) -> (r: Result<
    (),
    Failure,
>)
    ensures
        (final(server)@, failed(r)) == server_added(old(server)@, args@),
{
    let asks = args.docker || args.image.is_some() || args.no_mount || args.use_image_entrypoint
        || args.docker_startup.is_some() || args.network.is_some() || args.rcon.is_some()
        || args.rcon_host_port.is_some() || args.rcon_port_start.is_some()
        || args.rcon_port_end.is_some() || args.port.len() > 0 || args.volume.len() > 0
        || args.auto_remove;
    if !asks {
        return Ok(());
    }
    server.runtime.kind = ServerRuntimeKind::Docker;
    server.runtime.docker.image = args.image;
    server.runtime.docker.network = args.network;
    server.runtime.docker.mount_server_directory = !args.no_mount;
    server.runtime.docker.use_image_entrypoint = args.use_image_entrypoint;
    server.runtime.docker.startup_command = args.docker_startup;
    server.runtime.docker.auto_remove = args.auto_remove;
    set_rcon(
        &mut server.runtime.docker,
        args.rcon,
        args.rcon_host_port,
        args.rcon_port_start,
        args.rcon_port_end,
    );
    if let Err(e) = add_ports(&mut server.runtime.docker.ports, &args.port) {
        return Err(e);
    }
    add_volumes(&mut server.runtime.docker.volumes, &args.volume)
}

/// Changes to the container settings of a server.
#[derive(Debug)]
pub struct DockerEditArgs {
    pub image: Option<String>,
    pub network: Option<String>,
    pub mount: bool,
    pub no_mount: bool,
    pub use_image_entrypoint: bool,
    pub no_image_entrypoint: bool,
    pub docker_startup: Option<String>,
    pub rcon: Option<RconMode>,
    pub rcon_host_port: Option<u16>,
    pub rcon_port_start: Option<u16>,
    pub rcon_port_end: Option<u16>,
    pub clear_ports: bool,
    pub port: Vec<String>,
    pub clear_volumes: bool,
    pub volume: Vec<String>,
    pub auto_remove: bool,
    pub no_auto_remove: bool,
}

#[verifier::ext_equal]
pub struct EditView {
    pub image: Option<Seq<char>>,
    pub network: Option<Seq<char>>,
    pub mount: bool,
    pub no_mount: bool,
    pub use_image_entrypoint: bool,
    pub no_image_entrypoint: bool,
    pub docker_startup: Option<Seq<char>>,
    pub rcon: Option<RconMode>,
    pub rcon_host_port: Option<u16>,
    pub rcon_port_start: Option<u16>,
    pub rcon_port_end: Option<u16>,
    pub clear_ports: bool,
    pub port: Seq<Seq<char>>,
    pub clear_volumes: bool,
    pub volume: Seq<Seq<char>>,
    pub auto_remove: bool,
    pub no_auto_remove: bool,
}

impl View for DockerEditArgs {
    type V = EditView;

    open spec fn view(&self) -> EditView {
        EditView {
            image: opt_text(self.image),
            network: opt_text(self.network),
            mount: self.mount,
            no_mount: self.no_mount,
            use_image_entrypoint: self.use_image_entrypoint,
            no_image_entrypoint: self.no_image_entrypoint,
            docker_startup: opt_text(self.docker_startup),
            rcon: self.rcon,
            rcon_host_port: self.rcon_host_port,
            rcon_port_start: self.rcon_port_start,
            rcon_port_end: self.rcon_port_end,
            clear_ports: self.clear_ports,
            port: texts(self.port@),
            clear_volumes: self.clear_volumes,
            volume: texts(self.volume@),
            auto_remove: self.auto_remove,
            no_auto_remove: self.no_auto_remove,
        }
    }
}

impl EditView {
    /// Whether anything was given.
    pub open spec fn asks_for_anything(self) -> bool {
        self.image is Some || self.network is Some || self.mount || self.no_mount
            || self.use_image_entrypoint || self.no_image_entrypoint || self.docker_startup is Some
            || self.rcon is Some || self.rcon_host_port is Some || self.rcon_port_start is Some
            || self.rcon_port_end is Some || self.clear_ports || self.port.len() > 0
            || self.clear_volumes || self.volume.len() > 0 || self.auto_remove
            || self.no_auto_remove
    }

    /// What cannot be given together, if anything that was given cannot.
    pub open spec fn conflict(self) -> Option<Seq<char>> {
        if self.mount && self.no_mount {
            Some("--mount and --no-mount cannot be used together"@)
        } else if self.use_image_entrypoint && self.no_image_entrypoint {
            Some(
                "--use-image-entrypoint and --no-image-entrypoint cannot be used together"@,
            )
        } else if self.auto_remove && self.no_auto_remove {
            Some("--auto-remove and --no-auto-remove cannot be used together"@)
        } else {
            None
        }
    }
}

impl DockerEditArgs {
    /// Whether anything was given.
    pub fn has_any(&self) -> (r: bool)
        ensures
            r == self@.asks_for_anything(),
    {
        self.image.is_some() || self.network.is_some() || self.mount || self.no_mount
            || self.use_image_entrypoint || self.no_image_entrypoint
            || self.docker_startup.is_some() || self.rcon.is_some() || self.rcon_host_port.is_some()
            || self.rcon_port_start.is_some() || self.rcon_port_end.is_some() || self.clear_ports
            || self.port.len() > 0 || self.clear_volumes || self.volume.len() > 0
            || self.auto_remove || self.no_auto_remove
    }
}

/// The text that was given in place of the one there was. Blank text takes it
/// away.
pub open spec fn replaced(given: Option<Seq<char>>, present: Option<Seq<char>>) -> Option<Seq<char>> {
    match given {
        Some(text) => if is_blank(text) {
            None
        } else {
            Some(text)
        },
        None => present,
    }
}

/// The container settings with the changes to single settings.
pub open spec fn basics_edited(docker: DockerView, args: EditView) -> DockerView {
    DockerView {
        image: replaced(args.image, docker.image),
        network: replaced(args.network, docker.network),
        mount_server_directory: args.mount || (docker.mount_server_directory && !args.no_mount),
        use_image_entrypoint: args.use_image_entrypoint || (docker.use_image_entrypoint
            && !args.no_image_entrypoint),
        startup_command: replaced(args.docker_startup, docker.startup_command),
        rcon: rcon_with(
            docker.rcon,
            args.rcon,
            args.rcon_host_port,
            args.rcon_port_start,
            args.rcon_port_end,
        ),
        ..docker
    }
}

/// The container settings with the changes, and what is wrong with these, if
/// anything is.
pub open spec fn edited(docker: DockerView, args: EditView) -> (DockerView, Option<Seq<char>>) {
    if args.conflict() is Some {
        (docker, args.conflict())
    } else {
        let basic = basics_edited(docker, args);
        let (ports, problem) = port_list(args.port);
        let kept_ports = if args.clear_ports {
            Seq::empty()
        } else {
            docker.ports
        };
        let mapped = DockerView { ports: kept_ports + ports, ..basic };
        if problem is Some {
            (mapped, problem)
        } else {
            let (volumes, problem) = volume_list(args.volume);
            let kept_volumes = if args.clear_volumes {
                Seq::empty()
            } else {
                docker.volumes
            };
            let mounted = DockerView { volumes: kept_volumes + volumes, ..mapped };
            if problem is Some {
                (mounted, problem)
            } else {
                (
                    DockerView {
                        auto_remove: args.auto_remove || (docker.auto_remove
                            && !args.no_auto_remove),
                        ..mounted
                    },
                    None,
                )
            }
        }
    }
}

fn replace(given: &Option<String>, present: &mut Option<String>)
    ensures
        opt_text(*final(present)) == replaced(opt_text(*given), opt_text(*old(present))),
{
    if let Some(text) = given {
        if trim(text.as_str()).unicode_len() == 0 {
            *present = None;
        } else {
            *present = Some(text.clone());
        }
    }
}

fn edit_basics(docker: &mut DockerServerConfig, args: &DockerEditArgs)
    requires
        args@.conflict() is None,
    ensures
        final(docker)@ == basics_edited(old(docker)@, args@),
        final(docker).ports == old(docker).ports,
        final(docker).volumes == old(docker).volumes,
{
    replace(&args.image, &mut docker.image);
    replace(&args.network, &mut docker.network);
    if args.mount {
        docker.mount_server_directory = true;
    }
    if args.no_mount {
        docker.mount_server_directory = false;
    }
    if args.use_image_entrypoint {
        docker.use_image_entrypoint = true;
    }
    if args.no_image_entrypoint {
        docker.use_image_entrypoint = false;
    }
    replace(&args.docker_startup, &mut docker.startup_command);
    if let Some(mode) = args.rcon {
        docker.rcon.mode = mode;
    }
    if args.rcon_host_port.is_some() {
        docker.rcon.host_port = args.rcon_host_port;
    }
    if let Some(start) = args.rcon_port_start {
        docker.rcon.port_range_start = start;
    }
    if let Some(end) = args.rcon_port_end {
        docker.rcon.port_range_end = end;
    }
}

fn edit_docker(docker: &mut DockerServerConfig, args: &DockerEditArgs) -> (r: Result<(), Failure>)
    requires
        args@.conflict() is None,
    ensures
        (final(docker)@, failed(r)) == edited(old(docker)@, args@),
{
    edit_basics(docker, args);
    if args.clear_ports {
        docker.ports = Vec::new();
        assert(docker@.ports =~= Seq::<PortView>::empty());
    }
    if let Err(e) = add_ports(&mut docker.ports, &args.port) {
        return Err(e);
    }
    if args.clear_volumes {
        docker.volumes = Vec::new();
        assert(docker@.volumes =~= Seq::<VolumeView>::empty());
    }
    if let Err(e) = add_volumes(&mut docker.volumes, &args.volume) {
        return Err(e);
    }
    if args.auto_remove {
        docker.auto_remove = true;
    }
    if args.no_auto_remove {
        docker.auto_remove = false;
    }
    Ok(())
}

/// Changes the container settings of a server.
pub fn apply_docker_edit_args(server: &mut ServerConfig, args: DockerEditArgs) -> (r: Result<
    (),
    Failure,
>)
    ensures
        ({
            let (docker, problem) = edited(old(server)@.runtime.docker, args@);
            &&& failed(r) == problem
            &&& final(server)@ == (ServerView {
                runtime: RuntimeView { docker, ..old(server)@.runtime },
                ..old(server)@
            })
        }),
{
    if args.mount && args.no_mount {
        return Err(
            Failure { message: "--mount and --no-mount cannot be used together".to_owned() },
        );
    }
    if args.use_image_entrypoint && args.no_image_entrypoint {
        return Err(
            Failure {
                message:
                    "--use-image-entrypoint and --no-image-entrypoint cannot be used together".to_owned(),
            },
        );
    }
    if args.auto_remove && args.no_auto_remove {
        return Err(
            Failure {
                message: "--auto-remove and --no-auto-remove cannot be used together".to_owned(),
            },
        );
    }
    edit_docker(&mut server.runtime.docker, &args)
}

/// Adds a server, in the group with the given path and with the given
/// container settings. `suffixes` end the identifiers of new groups, and
/// `suffix` that of the server.
pub open spec fn with_server(
    config: ConfigView,
    name: Seq<char>,
    directory: Seq<char>,
    jar_path: Seq<char>,
    startup: Option<Seq<char>>,
    group: Option<Seq<char>>,
    docker: AddView,
    host: HostView,
    suffixes: Seq<Seq<char>>,
    suffix: Seq<char>,
) -> (ConfigView, Option<Seq<char>>) {
    let (groups, group_id) = match group {
        Some(path) => with_path(config.groups, path_names(path), suffixes),
        None => (config.groups, None),
    };
    let fresh = new_server(suffix, name, directory, jar_path);
    let placed = ServerView {
        group_id,
        startup_command: if startup is Some {
            startup
        } else {
            fresh.startup_command
        },
        ..fresh
    };
    let (server, problem) = server_added(placed, docker);
    let problem = if problem is Some {
        problem
    } else if server.runtime.kind == ServerRuntimeKind::Docker {
        security_failure(server, host)
    } else {
        None
    };
    (ConfigView { groups, servers: config.servers.push(server), ..config }, problem)
}

/// Adds a server from the command line. Where this fails, the settings are
/// not to be kept.
pub fn add_server_entry(
    config: &mut RemiaftConfig,
    name: String,
    directory: String,
    jar_path: String,
    startup: Option<String>,
    group: Option<String>,
    docker: DockerAddArgs,
    host: &HostPaths,
) -> (r: Result<(), Failure>)
    ensures
        exists|suffixes: Seq<Seq<char>>, suffix: Seq<char>|
            is_short_id(suffix) && (group is Some ==> are_short_ids(
                suffixes,
                path_names(group->0@).len(),
            )) && (final(config)@, failed(r)) == #[trigger] with_server(
                old(config)@,
                name@,
                directory@,
                jar_path@,
                opt_text(startup),
                opt_text(group),
                docker@,
                host@,
                suffixes,
                suffix,
            ),
{
    let ghost before = config@;
    let ghost mut suffixes: Seq<Seq<char>> = Seq::empty();
    let group_id = match &group {
        Some(path) => {
            let id = config.ensure_group_path(path.as_str());
            proof {
                suffixes = choose|suffixes: Seq<Seq<char>>|
                    are_short_ids(suffixes, path_names(path@).len()) && ({
                        let (groups, last) = #[trigger] with_path(
                            before.groups,
                            path_names(path@),
                            suffixes,
                        );
                        config@ == (ConfigView { groups, ..before }) && opt_text(id) == last
                    });
            }
            id
        },
        None => None,
    };
    let suffix = short_id();
    config.add_server_as(suffix.as_str(), name, directory, jar_path);
    let ghost fresh = new_server(suffix@, name@, directory@, jar_path@);
    let ghost listed = config.servers@;
    assert(config@.servers.len() == listed.len());
    assert(config@.servers.last() == fresh);
    let last: usize = config.servers.len() - 1;
    assert(listed[last as int]@ == fresh);
    config.servers[last].group_id = group_id;
    if startup.is_some() {
        config.servers[last].startup_command = startup;
    }
    let result = apply_docker_add_args(&mut config.servers[last], docker);
    let r = match result {
        Err(e) => Err(e),
        Ok(()) => if config.servers[last].uses_docker() {
            validate_server_config(&config.servers[last], host)
        } else {
            Ok(())
        },
    };
    proof {
        let expected = with_server(
            before,
            name@,
            directory@,
            jar_path@,
            opt_text(startup),
            opt_text(group),
            docker@,
            host@,
            suffixes,
            suffix@,
        );
        assert forall|k: int| 0 <= k < last implies #[trigger] config@.servers[k]
            == expected.0.servers[k] by {
            assert(config.servers@[k] == listed[k]);
            assert(listed[k]@ == before.servers.push(fresh)[k]);
        }
        assert(config@.servers =~= expected.0.servers);
        assert((config@, failed(r)) == expected);
    }
    r
}

/// The settings with changes to how a server runs.
pub open spec fn with_docker_edit(
    config: ConfigView,
    key: Seq<char>,
    enable: bool,
    disable: bool,
    options: EditView,
    host: HostView,
) -> (ConfigView, Option<Seq<char>>) {
    if enable && disable {
        (config, Some("--enable and --disable cannot be used together"@))
    } else {
        match server_position(config.servers, key) {
            None => (config, Some("unknown server: "@ + key)),
            Some(at) => {
                let server = config.servers[at];
                let kind = if enable || options.asks_for_anything() {
                    ServerRuntimeKind::Docker
                } else if disable {
                    ServerRuntimeKind::Native
                } else {
                    server.runtime.kind
                };
                let (docker, problem) = edited(server.runtime.docker, options);
                let changed = ServerView { runtime: RuntimeView { kind, docker }, ..server };
                let problem = if problem is Some {
                    problem
                } else if kind == ServerRuntimeKind::Docker {
                    security_failure(changed, host)
                } else {
                    None
                };
                (ConfigView { servers: config.servers.update(at, changed), ..config }, problem)
            },
        }
    }
}

/// Changes how a server runs, from the command line, and returns the server's
/// name. Where this fails, the settings are not to be kept.
pub fn edit_docker_entry(
    config: &mut RemiaftConfig,
    key: &str,
    enable: bool,
    disable: bool,
    options: DockerEditArgs,
    host: &HostPaths,
) -> (r: Result<String, Failure>)
    ensures
        (final(config)@, failed(r)) == with_docker_edit(
            old(config)@,
            key@,
            enable,
            disable,
            options@,
            host@,
        ),
        r matches Ok(name) ==> server_position(old(config)@.servers, key@) is Some && name@
            == old(config)@.servers[server_position(old(config)@.servers, key@)->0].name,
{
    if enable && disable {
        return Err(
            Failure { message: "--enable and --disable cannot be used together".to_owned() },
        );
    }
    let at: usize = match config.find_server_index(key) {
        Ok(at) => at,
        Err(e) => return Err(Failure { message: e.message() }),
    };
    let ghost before = config@;
    assert(before.servers[at as int] == config.servers@[at as int]@);
    if disable {
        config.servers[at].runtime.kind = ServerRuntimeKind::Native;
    }
    if enable || options.has_any() {
        config.servers[at].runtime.kind = ServerRuntimeKind::Docker;
    }
    let result = apply_docker_edit_args(&mut config.servers[at], options);
    let r = match result {
        Err(e) => Err(e),
        Ok(()) => if config.servers[at].uses_docker() {
            validate_server_config(&config.servers[at], host)
        } else {
            Ok(())
        },
    };
    proof {
        let expected = with_docker_edit(before, key@, enable, disable, options@, host@);
        assert(config@.servers =~= expected.0.servers);
        assert((config@, failed(r)) == expected);
    }
    match r {
        Ok(()) => Ok(config.servers[at].name.clone()),
        Err(e) => Err(e),
    }
}

/// Changing how a server runs changes no other server, and no group.
pub proof fn docker_edit_keeps_other_servers(
    config: ConfigView,
    key: Seq<char>,
    enable: bool,
    disable: bool,
    options: EditView,
    host: HostView,
    i: int,
)
    requires
        0 <= i < config.servers.len(),
        server_position(config.servers, key) != Some(i),
    ensures
        ({
            let after = with_docker_edit(config, key, enable, disable, options, host).0;
            &&& after.groups == config.groups
            &&& after.servers.len() == config.servers.len()
            &&& after.servers[i] == config.servers[i]
        }),
{
    lemma_first_where(config.servers, |server: ServerView| names_server(server, key));
}

proof fn lemma_last_slash(head: Seq<char>, tail: Seq<char>)
    requires
        !tail.contains('/'),
    ensures
        last_at(head + seq!['/'] + tail, '/') == Some(head.len() as int),
    decreases tail.len(),
{
    let all = head + seq!['/'] + tail;
    if tail.len() > 0 {
        let front = tail.drop_last();
        assert forall|k: int| 0 <= k < front.len() implies front[k] != '/' by {
            assert(tail[k] == front[k]);
        }
        lemma_last_slash(head, front);
        assert(tail.contains(tail.last()));
        assert(all.drop_last() =~= head + seq!['/'] + front);
    }
}

proof fn lemma_no_slash(s: Seq<char>)
    requires
        !s.contains('/'),
    ensures
        last_at(s, '/') is None,
    decreases s.len(),
{
    if s.len() > 0 {
        let front = s.drop_last();
        assert forall|k: int| 0 <= k < front.len() implies front[k] != '/' by {
            assert(s[k] == front[k]);
        }
        assert(s.contains(s.last()));
        lemma_no_slash(front);
    }
}

proof fn lemma_port_text(port: u16)
    ensures
        !decimal(port as nat).contains('/'),
        !decimal(port as nat).contains(':'),
        number(decimal(port as nat), 10, u16::MAX as nat) == Ok::<nat, NumberError>(port as nat),
{
    lemma_decimal_is_digits(port as nat);
    decimal_reads_back(port as nat, u16::MAX as nat);
}

/// What stands behind a mapping and names a protocol.
pub open spec fn names_protocol(text: Seq<char>, protocol: DockerProtocol) -> bool {
    match protocol {
        DockerProtocol::Tcp => text == ""@ || text == "/tcp"@,
        DockerProtocol::Udp => text == "/udp"@,
    }
}

proof fn lemma_protocol(ports: Seq<char>, ending: Seq<char>, protocol: DockerProtocol)
    requires
        !ports.contains('/'),
        names_protocol(ending, protocol),
    ensures
        protocol_split(ports + ending) == Ok::<(Seq<char>, DockerProtocol), Seq<char>>(
            (ports, protocol),
        ),
{
    reveal_strlit("");
    reveal_strlit("/tcp");
    reveal_strlit("/udp");
    reveal_strlit("tcp");
    reveal_strlit("udp");
    let raw = ports + ending;
    if ending.len() == 0 {
        assert(raw =~= ports);
        lemma_no_slash(raw);
    } else {
        let name = ending.skip(1);
        assert(raw =~= ports + seq!['/'] + name);
        assert(!name.contains('/'));
        lemma_last_slash(ports, name);
        assert(raw.skip(ports.len() as int + 1) =~= name);
        assert(raw.take(ports.len() as int) =~= ports);
        if protocol == DockerProtocol::Tcp {
            assert(name =~= "tcp"@);
        } else {
            assert(name =~= "udp"@);
            assert(name[0] == 'u' && "tcp"@[0] == 't');
        }
    }
}

/// A port of the container alone is published at no chosen port of the host. In
/// front of it stands the port of the host, and in front of that an address. The
/// protocol stands behind it, and is TCP where none does.
pub proof fn port_mappings_read_as_written(
    ip: Seq<char>,
    host_port: u16,
    container_port: u16,
    ending: Seq<char>,
    protocol: DockerProtocol,
)
    requires
        !ip.contains(':'),
        !ip.contains('/'),
        names_protocol(ending, protocol),
    ensures
        port_mapping(decimal(container_port as nat) + ending) == Ok::<PortView, Seq<char>>(
            PortView { name: None, container_port, host_port: None, host_ip: None, protocol },
        ),
        port_mapping(
            decimal(host_port as nat) + seq![':'] + decimal(container_port as nat) + ending,
        ) == Ok::<PortView, Seq<char>>(
            PortView {
                name: None,
                container_port,
                host_port: Some(host_port),
                host_ip: None,
                protocol,
            },
        ),
        port_mapping(
            ip + seq![':'] + decimal(host_port as nat) + seq![':'] + decimal(container_port as nat)
                + ending,
        ) == Ok::<PortView, Seq<char>>(
            PortView {
                name: None,
                container_port,
                host_port: Some(host_port),
                host_ip: Some(ip),
                protocol,
            },
        ),
{
    let outside = decimal(host_port as nat);
    let inside = decimal(container_port as nat);
    let sep = seq![':'];
    lemma_port_text(host_port);
    lemma_port_text(container_port);
    lemma_protocol(inside, ending, protocol);
    lemma_pieces_plain(inside, ':');
    let two = seq![outside, inside];
    reveal_with_fuel(joined, 3);
    assert(two.drop_last() =~= seq![outside]);
    assert(joined(two, sep) =~= outside + sep + inside);
    splitting_undoes_joining(two, ':');
    let pair = outside + sep + inside;
    assert(!pair.contains('/'));
    lemma_protocol(pair, ending, protocol);
    let three = seq![ip, outside, inside];
    assert(three.drop_last() =~= seq![ip, outside]);
    assert(seq![ip, outside].drop_last() =~= seq![ip]);
    assert(joined(three, sep) =~= ip + sep + outside + sep + inside);
    splitting_undoes_joining(three, ':');
    let triple = ip + sep + outside + sep + inside;
    assert(!triple.contains('/'));
    lemma_protocol(triple, ending, protocol);
}

/// Of the two paths of a volume the first is that of the host. It can be written
/// to, unless `ro` stands behind.
pub proof fn volumes_read_as_written(host: Seq<char>, container: Seq<char>)
    requires
        !host.contains(':'),
        !container.contains(':'),
    ensures
        volume_mount(host + seq![':'] + container) == Ok::<VolumeView, Seq<char>>(
            VolumeView { host, container, read_only: false },
        ),
        volume_mount(host + seq![':'] + container + seq![':', 'r', 'w']) == Ok::<
            VolumeView,
            Seq<char>,
        >(VolumeView { host, container, read_only: false }),
        volume_mount(host + seq![':'] + container + seq![':', 'r', 'o']) == Ok::<
            VolumeView,
            Seq<char>,
        >(VolumeView { host, container, read_only: true }),
{
    let sep = seq![':'];
    reveal_strlit("rw");
    reveal_strlit("ro");
    reveal_with_fuel(joined, 3);
    let two = seq![host, container];
    assert(two.drop_last() =~= seq![host]);
    assert(joined(two, sep) =~= host + sep + container);
    splitting_undoes_joining(two, ':');
    let rw = seq![host, container, "rw"@];
    let ro = seq![host, container, "ro"@];
    assert(rw.drop_last() =~= two && ro.drop_last() =~= two);
    assert(joined(rw, sep) =~= host + sep + container + seq![':', 'r', 'w']);
    assert(joined(ro, sep) =~= host + sep + container + seq![':', 'r', 'o']);
    splitting_undoes_joining(rw, ':');
    splitting_undoes_joining(ro, ':');
    assert("ro"@[1] != "rw"@[1]);
}

/// Every mapping of a list is read, in order, and the first that cannot be read
/// is what is wrong with the list.
pub proof fn lists_are_read_in_order(ports: Seq<Seq<char>>, volumes: Seq<Seq<char>>)
    ensures
        port_list(ports).1 is None <==> forall|i: int|
            0 <= i < ports.len() ==> port_mapping(#[trigger] ports[i]) is Ok,
        port_list(ports).1 is None ==> port_list(ports).0.len() == ports.len(),
        forall|i: int|
            0 <= i < port_list(ports).0.len() ==> i < ports.len() && port_mapping(
                #[trigger] ports[i],
            ) == Ok::<PortView, Seq<char>>(port_list(ports).0[i]),
        volume_list(volumes).1 is None <==> forall|i: int|
            0 <= i < volumes.len() ==> volume_mount(#[trigger] volumes[i]) is Ok,
        volume_list(volumes).1 is None ==> volume_list(volumes).0.len() == volumes.len(),
        forall|i: int|
            0 <= i < volume_list(volumes).0.len() ==> i < volumes.len() && volume_mount(
                #[trigger] volumes[i],
            ) == Ok::<VolumeView, Seq<char>>(volume_list(volumes).0[i]),
    decreases ports.len() + volumes.len(),
{
    if ports.len() > 0 {
        let front = ports.drop_last();
        lists_are_read_in_order(front, Seq::empty());
        assert forall|i: int| 0 <= i < port_list(ports).0.len() implies i < ports.len()
            && port_mapping(#[trigger] ports[i]) == Ok::<PortView, Seq<char>>(
            port_list(ports).0[i],
        ) by {
            if i < port_list(front).0.len() {
                assert(front[i] == ports[i]);
            }
        }
        if port_list(ports).1 is None {
            assert forall|i: int| 0 <= i < ports.len() implies port_mapping(#[trigger] ports[i])
                is Ok by {
                if i < front.len() {
                    assert(front[i] == ports[i]);
                }
            }
        } else if forall|i: int| 0 <= i < ports.len() ==> port_mapping(#[trigger] ports[i]) is Ok {
            assert forall|i: int| 0 <= i < front.len() implies port_mapping(#[trigger] front[i])
                is Ok by {
                assert(front[i] == ports[i]);
            }
            assert(port_mapping(ports[ports.len() - 1]) is Ok);
        }
    }
    if volumes.len() > 0 {
        let front = volumes.drop_last();
        lists_are_read_in_order(Seq::empty(), front);
        assert forall|i: int| 0 <= i < volume_list(volumes).0.len() implies i < volumes.len()
            && volume_mount(#[trigger] volumes[i]) == Ok::<VolumeView, Seq<char>>(
            volume_list(volumes).0[i],
        ) by {
            if i < volume_list(front).0.len() {
                assert(front[i] == volumes[i]);
            }
        }
        if volume_list(volumes).1 is None {
            assert forall|i: int| 0 <= i < volumes.len() implies volume_mount(
                #[trigger] volumes[i],
            ) is Ok by {
                if i < front.len() {
                    assert(front[i] == volumes[i]);
                }
            }
        } else if forall|i: int|
            0 <= i < volumes.len() ==> volume_mount(#[trigger] volumes[i]) is Ok {
            assert forall|i: int| 0 <= i < front.len() implies volume_mount(#[trigger] front[i])
                is Ok by {
                assert(front[i] == volumes[i]);
            }
            assert(volume_mount(volumes[volumes.len() - 1]) is Ok);
        }
    }
}

/// Whether a list has grown by mappings, each read from the text at its place.
pub open spec fn grown_by_ports(
    before: Seq<PortView>,
    after: Seq<PortView>,
    given: Seq<Seq<char>>,
) -> bool {
    &&& after.len() == before.len() + given.len()
    &&& forall|i: int| 0 <= i < before.len() ==> #[trigger] after[i] == before[i]
    &&& forall|i: int|
        0 <= i < given.len() ==> port_mapping(#[trigger] given[i]) == Ok::<PortView, Seq<char>>(
            after[before.len() + i],
        )
}

/// Whether a list has grown by volumes, each read from the text at its place.
pub open spec fn grown_by_volumes(
    before: Seq<VolumeView>,
    after: Seq<VolumeView>,
    given: Seq<Seq<char>>,
) -> bool {
    &&& after.len() == before.len() + given.len()
    &&& forall|i: int| 0 <= i < before.len() ==> #[trigger] after[i] == before[i]
    &&& forall|i: int|
        0 <= i < given.len() ==> volume_mount(#[trigger] given[i]) == Ok::<VolumeView, Seq<char>>(
            after[before.len() + i],
        )
}

/// Every setting that is given for a new server becomes a setting of it, and one
/// that is given at all makes it run in a container. Nothing else of it changes.
pub proof fn given_settings_are_added(server: ServerView, args: AddView)
    requires
        server_added(server, args).1 is None,
    ensures
        ({
            let (after, _) = server_added(server, args);
            let old = server.runtime.docker;
            let new = after.runtime.docker;
            let nothing = !args.docker && args.image is None && !args.no_mount
                && !args.use_image_entrypoint && args.docker_startup is None && args.network is None
                && args.rcon is None && args.rcon_host_port is None && args.rcon_port_start is None
                && args.rcon_port_end is None && args.port.len() == 0 && args.volume.len() == 0
                && !args.auto_remove;
            &&& nothing ==> after == server
            &&& !nothing ==> {
                &&& after.runtime.kind == ServerRuntimeKind::Docker
                &&& new.image == args.image
                &&& new.network == args.network
                &&& new.startup_command == args.docker_startup
                &&& new.mount_server_directory == !args.no_mount
                &&& new.use_image_entrypoint == args.use_image_entrypoint
                &&& new.auto_remove == args.auto_remove
                &&& new.rcon.mode == match args.rcon {
                    Some(mode) => mode,
                    None => old.rcon.mode,
                }
                &&& new.rcon.host_port == match args.rcon_host_port {
                    Some(port) => Some(port),
                    None => old.rcon.host_port,
                }
                &&& new.rcon.port_range_start == match args.rcon_port_start {
                    Some(port) => port,
                    None => old.rcon.port_range_start,
                }
                &&& new.rcon.port_range_end == match args.rcon_port_end {
                    Some(port) => port,
                    None => old.rcon.port_range_end,
                }
                &&& grown_by_ports(old.ports, new.ports, args.port)
                &&& grown_by_volumes(old.volumes, new.volumes, args.volume)
                &&& new.rcon.password == old.rcon.password && new.rcon.host == old.rcon.host
                    && new.rcon.container_port == old.rcon.container_port
                &&& new.container_name == old.container_name && new.labels == old.labels
                    && new.environment == old.environment && new.server_dir == old.server_dir
                    && new.working_dir == old.working_dir && new.user == old.user
                    && new.image_candidates == old.image_candidates && new.image_policy
                    == old.image_policy
            }
            &&& (ServerView { runtime: server.runtime, ..after }) == server
        }),
{
    lists_are_read_in_order(args.port, args.volume);
}

/// What an option does to a setting: text replaces it, blank text takes it away,
/// and no option leaves it.
pub open spec fn changed_by(
    old: Option<Seq<char>>,
    new: Option<Seq<char>>,
    given: Option<Seq<char>>,
) -> bool {
    match given {
        None => new == old,
        Some(text) => if trimmed(text).len() == 0 {
            new is None
        } else {
            new == Some(text)
        },
    }
}

/// What a pair of options does to a setting: the one switches it on, the other
/// switches it off, and neither leaves it.
pub open spec fn switched_by(old: bool, new: bool, on: bool, off: bool) -> bool {
    (on ==> new) && (off ==> !new) && (!on && !off ==> new == old)
}

/// Every setting of a container that an option is given for changes as the
/// option says, and every other stays. Options that contradict each other are
/// refused, and then nothing changes.
pub proof fn given_settings_are_edited(docker: DockerView, args: EditView)
    ensures
        ({
            let (after, problem) = edited(docker, args);
            let contradiction = (args.mount && args.no_mount) || (args.use_image_entrypoint
                && args.no_image_entrypoint) || (args.auto_remove && args.no_auto_remove);
            &&& contradiction ==> problem is Some && after == docker
            &&& problem is None ==> {
                &&& !contradiction
                &&& changed_by(docker.image, after.image, args.image)
                &&& changed_by(docker.network, after.network, args.network)
                &&& changed_by(docker.startup_command, after.startup_command, args.docker_startup)
                &&& switched_by(
                    docker.mount_server_directory,
                    after.mount_server_directory,
                    args.mount,
                    args.no_mount,
                )
                &&& switched_by(
                    docker.use_image_entrypoint,
                    after.use_image_entrypoint,
                    args.use_image_entrypoint,
                    args.no_image_entrypoint,
                )
                &&& switched_by(
                    docker.auto_remove,
                    after.auto_remove,
                    args.auto_remove,
                    args.no_auto_remove,
                )
                &&& after.rcon == (RconView {
                    mode: match args.rcon {
                        Some(mode) => mode,
                        None => docker.rcon.mode,
                    },
                    host_port: match args.rcon_host_port {
                        Some(port) => Some(port),
                        None => docker.rcon.host_port,
                    },
                    port_range_start: match args.rcon_port_start {
                        Some(port) => port,
                        None => docker.rcon.port_range_start,
                    },
                    port_range_end: match args.rcon_port_end {
                        Some(port) => port,
                        None => docker.rcon.port_range_end,
                    },
                    ..docker.rcon
                })
                &&& args.clear_ports ==> grown_by_ports(Seq::empty(), after.ports, args.port)
                &&& !args.clear_ports ==> grown_by_ports(docker.ports, after.ports, args.port)
                &&& args.clear_volumes ==> grown_by_volumes(
                    Seq::empty(),
                    after.volumes,
                    args.volume,
                )
                &&& !args.clear_volumes ==> grown_by_volumes(
                    docker.volumes,
                    after.volumes,
                    args.volume,
                )
                &&& after.container_name == docker.container_name && after.labels == docker.labels
                    && after.environment == docker.environment && after.server_dir
                    == docker.server_dir && after.working_dir == docker.working_dir && after.user
                    == docker.user && after.image_candidates == docker.image_candidates
                    && after.image_policy == docker.image_policy
            }
        }),
{
    lists_are_read_in_order(args.port, args.volume);
}

/// Whether the options change no setting of the container.
pub open spec fn is_idle(args: EditView) -> bool {
    args.image is None && args.network is None && !args.mount && !args.no_mount
        && !args.use_image_entrypoint && !args.no_image_entrypoint && args.docker_startup is None
        && args.rcon is None && args.rcon_host_port is None && args.rcon_port_start is None
        && args.rcon_port_end is None && !args.clear_ports && args.port.len() == 0
        && !args.clear_volumes && args.volume.len() == 0 && !args.auto_remove
        && !args.no_auto_remove
}

/// The server that is named runs in a container from then on where that is asked
/// for, or where a setting of the container is given; it runs natively where
/// only that is asked for. Without either it runs as before. Its other settings
/// stay, and a server that is not known is refused.
pub proof fn named_server_is_edited(
    config: ConfigView,
    key: Seq<char>,
    enable: bool,
    disable: bool,
    options: EditView,
    host: HostView,
)
    ensures
        ({
            let (after, problem) = with_docker_edit(config, key, enable, disable, options, host);
            let known = exists|i: int|
                0 <= i < config.servers.len() && ((#[trigger] config.servers[i]).id == key
                    || config.servers[i].name == key);
            &&& (enable && disable) || !known ==> problem is Some && after == config
            &&& !(enable && disable) && known ==> exists|i: int|
                {
                    &&& 0 <= i < config.servers.len()
                    &&& #[trigger] config.servers[i].id == key || config.servers[i].name == key
                    &&& forall|k: int|
                        0 <= k < i ==> (#[trigger] config.servers[k]).id != key
                            && config.servers[k].name != key
                    &&& after.servers[i].runtime.kind == if enable || !is_idle(options) {
                        ServerRuntimeKind::Docker
                    } else if disable {
                        ServerRuntimeKind::Native
                    } else {
                        config.servers[i].runtime.kind
                    }
                    &&& after.servers[i].runtime.docker == edited(
                        config.servers[i].runtime.docker,
                        options,
                    ).0
                    &&& (ServerView { runtime: config.servers[i].runtime, ..after.servers[i] })
                        == config.servers[i]
                    &&& problem is None ==> edited(
                        config.servers[i].runtime.docker,
                        options,
                    ).1 is None && (after.servers[i].runtime.kind == ServerRuntimeKind::Docker
                        ==> security_failure(after.servers[i], host) is None)
                }
            &&& after.language == config.language && after.java_path == config.java_path
                && after.groups == config.groups
        }),
{
    let cond = |server: ServerView| names_server(server, key);
    lemma_first_where(config.servers, cond);
    match server_position(config.servers, key) {
        Some(at) => {
            assert(cond(config.servers[at]));
            assert forall|k: int| 0 <= k < at implies (#[trigger] config.servers[k]).id != key
                && config.servers[k].name != key by {
                assert(!cond(config.servers[k]));
            }
            if !(enable && disable) {
                let after = with_docker_edit(config, key, enable, disable, options, host).0;
                assert(config.servers[at].id == key || config.servers[at].name == key);
                assert((ServerView {
                    runtime: config.servers[at].runtime,
                    ..after.servers[at]
                }) == config.servers[at]);
            }
        },
        None => {
            assert forall|k: int| 0 <= k < config.servers.len() implies (
            #[trigger] config.servers[k]).id != key && config.servers[k].name != key by {
                assert(!cond(config.servers[k]));
            }
        },
    }
}

/// A server that is added comes last, with the name, directory, archive and
/// command line that were given, in the group that the given path leads to. Every
/// server and group that there was stays.
pub proof fn added_server_comes_last(
    config: ConfigView,
    name: Seq<char>,
    directory: Seq<char>,
    jar_path: Seq<char>,
    startup: Option<Seq<char>>,
    group: Option<Seq<char>>,
    docker: AddView,
    host: HostView,
    suffixes: Seq<Seq<char>>,
    suffix: Seq<char>,
)
    ensures
        ({
            let (after, problem) = with_server(
                config,
                name,
                directory,
                jar_path,
                startup,
                group,
                docker,
                host,
                suffixes,
                suffix,
            );
            let server = after.servers.last();
            &&& after.servers.len() == config.servers.len() + 1
            &&& after.servers.drop_last() == config.servers
            &&& config.groups.is_prefix_of(after.groups)
            &&& after.language == config.language && after.java_path == config.java_path
            &&& server.name == name && server.directory == directory && server.jar_path == jar_path
            &&& server.startup_command == startup
            &&& suffix.len() <= server.id.len() && server.id.skip(server.id.len() - suffix.len())
                == suffix
            &&& group is None ==> server.group_id is None && after.groups == config.groups
            &&& group matches Some(path) ==> led_to(after.groups, path_names(path)) == Some(
                server.group_id,
            )
            &&& problem is None && server.runtime.kind == ServerRuntimeKind::Docker
                ==> security_failure(server, host) is None
        }),
{
    let (after, problem) = with_server(
        config,
        name,
        directory,
        jar_path,
        startup,
        group,
        docker,
        host,
        suffixes,
        suffix,
    );
    let server = after.servers.last();
    assert(after.servers.drop_last() =~= config.servers);
    assert(server.id.skip(server.id.len() - suffix.len()) =~= suffix);
    if let Some(path) = group {
        path_leads_to_its_group(config.groups, path_names(path), suffixes);
        making_a_path_keeps_groups(config.groups, path_names(path), suffixes);
    } else {
        assert(config.groups.subrange(0, config.groups.len() as int) =~= config.groups);
    }
}

} // verus!
