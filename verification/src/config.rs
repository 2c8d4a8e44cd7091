//! The managed servers, their groups and how each server is run.

use vstd::prelude::*;

use crate::collections::{
    first_where, lemma_first_where, lemma_is_absent, lemma_is_first, StringMap,
};
use crate::numbers::{decimal, decimal_text};
use crate::paths::{base_name_on, file_name_on, is_part, parts_of, slashed, volume_end};
use crate::platform::Platform;
use crate::text::{
    chars_of, copy_opt, copy_texts, is_blank, join, joined, lemma_joined_concat, lemma_pieces_plain,
    lemma_trimmed_keeps, lower, lower_char, lowered, opt_text, pieces, same_text, split_on, starts_with,
    texts, trim, trimmed,
};

verus! {

/// How a server is run.
#[derive(Debug, Clone, Copy, PartialEq, Eq, Structural)]
pub enum ServerRuntimeKind {
    Native,
    Docker,
}

impl Default for ServerRuntimeKind {
    fn default() -> (r: Self)
        ensures
            r == ServerRuntimeKind::Native,
    {
        ServerRuntimeKind::Native
    }
}

/// When an image is pulled.
#[derive(Debug, Clone, Copy, PartialEq, Eq, Structural)]
pub enum DockerImagePolicy {
    IfMissing,
    Always,
    Never,
}

impl Default for DockerImagePolicy {
    fn default() -> (r: Self)
        ensures
            r == DockerImagePolicy::IfMissing,
    {
        DockerImagePolicy::IfMissing
    }
}

/// The transport of a mapped port.
#[derive(Debug, Clone, Copy, PartialEq, Eq, PartialOrd, Ord, Structural)]
pub enum DockerProtocol {
    Tcp,
    Udp,
}

impl Default for DockerProtocol {
    fn default() -> (r: Self)
        ensures
            r == DockerProtocol::Tcp,
    {
        DockerProtocol::Tcp
    }
}

impl DockerProtocol {
    /// The name of the protocol.
    pub open spec fn name(self) -> Seq<char> {
        match self {
            DockerProtocol::Tcp => "tcp"@,
            DockerProtocol::Udp => "udp"@,
        }
    }

    pub fn as_str(self) -> (r: &'static str)
        ensures
            r@ == self.name(),
    {
        match self {
            DockerProtocol::Tcp => "tcp",
            DockerProtocol::Udp => "udp",
        }
    }
}

/// As which user the container runs.
#[derive(Debug, Clone, Copy, PartialEq, Eq, Structural)]
pub enum DockerUserMode {
    Auto,
    Host,
    Image,
    Custom,
}

impl Default for DockerUserMode {
    fn default() -> (r: Self)
        ensures
            r == DockerUserMode::Auto,
    {
        DockerUserMode::Auto
    }
}

/// How the remote console is set up.
#[derive(Debug, Clone, Copy, PartialEq, Eq, Structural)]
pub enum RconMode {
    Auto,
    Manual,
    Disabled,
}

impl Default for RconMode {
    fn default() -> (r: Self)
        ensures
            r == RconMode::Auto,
    {
        RconMode::Auto
    }
}

/// A port of the container and where the host offers it.
#[derive(Debug)]
pub struct DockerPortMapping {
    pub name: Option<String>,
    pub container_port: u16,
    pub host_port: Option<u16>,
    pub host_ip: Option<String>,
    pub protocol: DockerProtocol,
}

#[verifier::ext_equal]
pub struct PortView {
    pub name: Option<Seq<char>>,
    pub container_port: u16,
    pub host_port: Option<u16>,
    pub host_ip: Option<Seq<char>>,
    pub protocol: DockerProtocol,
}

impl View for DockerPortMapping {
    type V = PortView;

    open spec fn view(&self) -> PortView {
        PortView {
            name: opt_text(self.name),
            container_port: self.container_port,
            host_port: self.host_port,
            host_ip: opt_text(self.host_ip),
            protocol: self.protocol,
        }
    }
}

impl Clone for DockerPortMapping {
    fn clone(&self) -> (r: Self)
        ensures
            r == *self,
    {
        DockerPortMapping {
            name: copy_opt(&self.name),
            container_port: self.container_port,
            host_port: self.host_port,
            host_ip: copy_opt(&self.host_ip),
            protocol: self.protocol,
        }
    }
}

impl DockerPortMapping {
    /// A named TCP port.
    pub fn tcp(name: String, container_port: u16, host_port: Option<u16>) -> (r: Self)
        ensures
            r@ == (PortView {
                name: Some(name@),
                container_port,
                host_port,
                host_ip: None,
                protocol: DockerProtocol::Tcp,
            }),
    {
        DockerPortMapping {
            name: Some(name),
            container_port,
            host_port,
            host_ip: None,
            protocol: DockerProtocol::Tcp,
        }
    }
}

/// A directory of the host that the container sees.
#[derive(Debug)]
pub struct DockerVolumeMount {
    pub host: String,
    pub container: String,
    pub read_only: bool,
}

#[verifier::ext_equal]
pub struct VolumeView {
    pub host: Seq<char>,
    pub container: Seq<char>,
    pub read_only: bool,
}

impl View for DockerVolumeMount {
    type V = VolumeView;

    open spec fn view(&self) -> VolumeView {
        VolumeView {
            host: self.host@,
            container: self.container@,
            read_only: self.read_only,
        }
    }
}

impl Clone for DockerVolumeMount {
    fn clone(&self) -> (r: Self)
        ensures
            r == *self,
    {
        DockerVolumeMount {
            host: self.host.clone(),
            container: self.container.clone(),
            read_only: self.read_only,
        }
    }
}

/// As which user the container runs, with the ids of a chosen one.
#[derive(Debug, Clone, Copy, PartialEq, Eq, Structural)]
pub struct DockerUserConfig {
    pub mode: DockerUserMode,
    pub uid: Option<u32>,
    pub gid: Option<u32>,
}

impl Default for DockerUserConfig {
    fn default() -> (r: Self)
        ensures
            r == (DockerUserConfig { mode: DockerUserMode::Auto, uid: None, gid: None }),
    {
        DockerUserConfig { mode: DockerUserMode::Auto, uid: None, gid: None }
    }
}

/// Where and how the remote console is reached.
#[derive(Debug)]
pub struct RconConfig {
    pub mode: RconMode,
    pub password: Option<String>,
    pub container_port: u16,
    pub host_port: Option<u16>,
    pub host: String,
    pub port_range_start: u16,
    pub port_range_end: u16,
}

#[verifier::ext_equal]
pub struct RconView {
    pub mode: RconMode,
    pub password: Option<Seq<char>>,
    pub container_port: u16,
    pub host_port: Option<u16>,
    pub host: Seq<char>,
    pub port_range_start: u16,
    pub port_range_end: u16,
}

impl View for RconConfig {
    type V = RconView;

    open spec fn view(&self) -> RconView {
        RconView {
            mode: self.mode,
            password: opt_text(self.password),
            container_port: self.container_port,
            host_port: self.host_port,
            host: self.host@,
            port_range_start: self.port_range_start,
            port_range_end: self.port_range_end,
        }
    }
}

impl Clone for RconConfig {
    fn clone(&self) -> (r: Self)
        ensures
            r == *self,
    {
        RconConfig {
            mode: self.mode,
            password: copy_opt(&self.password),
            container_port: self.container_port,
            host_port: self.host_port,
            host: self.host.clone(),
            port_range_start: self.port_range_start,
            port_range_end: self.port_range_end,
        }
    }
}

/// The remote console settings of a new server.
pub open spec fn default_rcon() -> RconView {
    RconView {
        mode: RconMode::Auto,
        password: None,
        container_port: 25575,
        host_port: None,
        host: "127.0.0.1"@,
        port_range_start: 25575,
        port_range_end: 25999,
    }
}

impl Default for RconConfig {
    fn default() -> (r: Self)
        ensures
            r@ == default_rcon(),
    {
        RconConfig {
            mode: RconMode::Auto,
            password: None,
            container_port: default_rcon_container_port(),
            host_port: None,
            host: default_rcon_host(),
            port_range_start: default_rcon_port_start(),
            port_range_end: default_rcon_port_end(),
        }
    }
}

pub fn default_rcon_container_port() -> (r: u16)
    ensures
        r == 25575,
{
    25575
}

pub fn default_rcon_host() -> (r: String)
    ensures
        r@ == "127.0.0.1"@,
{
    "127.0.0.1".to_owned()
}

pub fn default_rcon_port_start() -> (r: u16)
    ensures
        r == 25575,
{
    25575
}

pub fn default_rcon_port_end() -> (r: u16)
    ensures
        r == 25999,
{
    25999
}

pub fn default_mount_server_directory() -> (r: bool)
    ensures
        r,
{
    true
}

pub fn default_docker_server_dir() -> (r: String)
    ensures
        r@ == "/home/remiaft/server"@,
{
    "/home/remiaft/server".to_owned()
}

/// How a server runs in a container.
#[derive(Debug)]
pub struct DockerServerConfig {
    pub image: Option<String>,
    pub image_candidates: Vec<String>,
    pub image_policy: DockerImagePolicy,
    pub container_name: Option<String>,
    pub network: Option<String>,
    pub labels: StringMap,
    pub environment: StringMap,
    pub ports: Vec<DockerPortMapping>,
    pub volumes: Vec<DockerVolumeMount>,
    pub mount_server_directory: bool,
    pub server_dir: String,
    pub working_dir: Option<String>,
    pub startup_command: Option<String>,
    pub use_image_entrypoint: bool,
    pub user: DockerUserConfig,
    pub rcon: RconConfig,
    pub auto_remove: bool,
}

#[verifier::ext_equal]
pub struct DockerView {
    pub image: Option<Seq<char>>,
    pub image_candidates: Seq<Seq<char>>,
    pub image_policy: DockerImagePolicy,
    pub container_name: Option<Seq<char>>,
    pub network: Option<Seq<char>>,
    pub labels: Seq<(Seq<char>, Seq<char>)>,
    pub environment: Seq<(Seq<char>, Seq<char>)>,
    pub ports: Seq<PortView>,
    pub volumes: Seq<VolumeView>,
    pub mount_server_directory: bool,
    pub server_dir: Seq<char>,
    pub working_dir: Option<Seq<char>>,
    pub startup_command: Option<Seq<char>>,
    pub use_image_entrypoint: bool,
    pub user: DockerUserConfig,
    pub rcon: RconView,
    pub auto_remove: bool,
}

/// The contents of a list of port mappings.
pub open spec fn port_views(list: Seq<DockerPortMapping>) -> Seq<PortView> {
    list.map_values(|p: DockerPortMapping| p@)
}

/// The contents of a list of volumes.
pub open spec fn volume_views(list: Seq<DockerVolumeMount>) -> Seq<VolumeView> {
    list.map_values(|v: DockerVolumeMount| v@)
}

impl View for DockerServerConfig {
    type V = DockerView;

    open spec fn view(&self) -> DockerView {
        DockerView {
            image: opt_text(self.image),
            image_candidates: texts(self.image_candidates@),
            image_policy: self.image_policy,
            container_name: opt_text(self.container_name),
            network: opt_text(self.network),
            labels: self.labels@,
            environment: self.environment@,
            ports: port_views(self.ports@),
            volumes: volume_views(self.volumes@),
            mount_server_directory: self.mount_server_directory,
            server_dir: self.server_dir@,
            working_dir: opt_text(self.working_dir),
            startup_command: opt_text(self.startup_command),
            use_image_entrypoint: self.use_image_entrypoint,
            user: self.user,
            rcon: self.rcon@,
            auto_remove: self.auto_remove,
        }
    }
}

fn copy_ports(list: &Vec<DockerPortMapping>) -> (r: Vec<DockerPortMapping>)
    ensures
        r@ == list@,
{
    let mut out: Vec<DockerPortMapping> = Vec::new();
    let mut i: usize = 0;
    while i < list.len()
        invariant
            i <= list@.len(),
            out@ == list@.take(i as int),
        decreases list@.len() - i,
    {
        out.push(list[i].clone());
        assert(list@.take(i + 1) =~= list@.take(i as int).push(list@[i as int]));
        i = i + 1;
    }
    assert(list@.take(i as int) =~= list@);
    out
}

fn copy_volumes(list: &Vec<DockerVolumeMount>) -> (r: Vec<DockerVolumeMount>)
    ensures
        r@ == list@,
{
    let mut out: Vec<DockerVolumeMount> = Vec::new();
    let mut i: usize = 0;
    while i < list.len()
        invariant
            i <= list@.len(),
            out@ == list@.take(i as int),
        decreases list@.len() - i,
    {
        out.push(list[i].clone());
        assert(list@.take(i + 1) =~= list@.take(i as int).push(list@[i as int]));
        i = i + 1;
    }
    assert(list@.take(i as int) =~= list@);
    out
}

impl Clone for DockerServerConfig {
    fn clone(&self) -> (r: Self)
        ensures
            r@ == self@,
    {
        DockerServerConfig {
            image: copy_opt(&self.image),
            image_candidates: copy_texts(&self.image_candidates),
            image_policy: self.image_policy,
            container_name: copy_opt(&self.container_name),
            network: copy_opt(&self.network),
            labels: self.labels.duplicate(),
            environment: self.environment.duplicate(),
            ports: copy_ports(&self.ports),
            volumes: copy_volumes(&self.volumes),
            mount_server_directory: self.mount_server_directory,
            server_dir: self.server_dir.clone(),
            working_dir: copy_opt(&self.working_dir),
            startup_command: copy_opt(&self.startup_command),
            use_image_entrypoint: self.use_image_entrypoint,
            user: self.user,
            rcon: self.rcon.clone(),
            auto_remove: self.auto_remove,
        }
    }
}

/// The container settings of a new server.
pub open spec fn default_docker() -> DockerView {
    DockerView {
        image: None,
        image_candidates: Seq::empty(),
        image_policy: DockerImagePolicy::IfMissing,
        container_name: None,
        network: None,
        labels: Seq::empty(),
        environment: Seq::empty(),
        ports: Seq::empty(),
        volumes: Seq::empty(),
        mount_server_directory: true,
        server_dir: "/home/remiaft/server"@,
        working_dir: None,
        startup_command: None,
        use_image_entrypoint: false,
        user: DockerUserConfig { mode: DockerUserMode::Auto, uid: None, gid: None },
        rcon: default_rcon(),
        auto_remove: false,
    }
}

impl Default for DockerServerConfig {
    fn default() -> (r: Self)
        ensures
            r@ == default_docker(),
    {
        let r = DockerServerConfig {
            image: None,
            image_candidates: Vec::new(),
            image_policy: DockerImagePolicy::IfMissing,
            container_name: None,
            network: None,
            labels: StringMap::new(),
            environment: StringMap::new(),
            ports: Vec::new(),
            volumes: Vec::new(),
            mount_server_directory: default_mount_server_directory(),
            server_dir: default_docker_server_dir(),
            working_dir: None,
            startup_command: None,
            use_image_entrypoint: false,
            user: DockerUserConfig::default(),
            rcon: RconConfig::default(),
            auto_remove: false,
        };
        assert(r@ =~= default_docker());
        r
    }
}

/// How a server is run, natively or in a container.
#[derive(Debug)]
pub struct ServerRuntimeConfig {
    pub kind: ServerRuntimeKind,
    pub docker: DockerServerConfig,
}

#[verifier::ext_equal]
pub struct RuntimeView {
    pub kind: ServerRuntimeKind,
    pub docker: DockerView,
}

impl View for ServerRuntimeConfig {
    type V = RuntimeView;

    open spec fn view(&self) -> RuntimeView {
        RuntimeView { kind: self.kind, docker: self.docker@ }
    }
}

impl Clone for ServerRuntimeConfig {
    fn clone(&self) -> (r: Self)
        ensures
            r@ == self@,
    {
        ServerRuntimeConfig { kind: self.kind, docker: self.docker.clone() }
    }
}

/// The runtime of a new server.
pub open spec fn default_runtime() -> RuntimeView {
    RuntimeView { kind: ServerRuntimeKind::Native, docker: default_docker() }
}

impl Default for ServerRuntimeConfig {
    fn default() -> (r: Self)
        ensures
            r@ == default_runtime(),
    {
        ServerRuntimeConfig {
            kind: ServerRuntimeKind::Native,
            docker: DockerServerConfig::default(),
        }
    }
}

/// A managed server.
#[derive(Debug)]
pub struct ServerConfig {
    pub id: String,
    pub name: String,
    pub group_id: Option<String>,
    pub directory: String,
    pub startup_command: Option<String>,
    pub jar_path: String,
    pub java_path: Option<String>,
    pub min_memory_mb: u32,
    pub max_memory_mb: u32,
    pub java_args: Vec<String>,
    pub server_args: Vec<String>,
    pub auto_restart: bool,
    pub restart_delay_secs: u64,
    pub version: Option<String>,
    pub runtime: ServerRuntimeConfig,
}

#[verifier::ext_equal]
pub struct ServerView {
    pub id: Seq<char>,
    pub name: Seq<char>,
    pub group_id: Option<Seq<char>>,
    pub directory: Seq<char>,
    pub startup_command: Option<Seq<char>>,
    pub jar_path: Seq<char>,
    pub java_path: Option<Seq<char>>,
    pub min_memory_mb: u32,
    pub max_memory_mb: u32,
    pub java_args: Seq<Seq<char>>,
    pub server_args: Seq<Seq<char>>,
    pub auto_restart: bool,
    pub restart_delay_secs: u64,
    pub version: Option<Seq<char>>,
    pub runtime: RuntimeView,
}

impl View for ServerConfig {
    type V = ServerView;

    open spec fn view(&self) -> ServerView {
        ServerView {
            id: self.id@,
            name: self.name@,
            group_id: opt_text(self.group_id),
            directory: self.directory@,
            startup_command: opt_text(self.startup_command),
            jar_path: self.jar_path@,
            java_path: opt_text(self.java_path),
            min_memory_mb: self.min_memory_mb,
            max_memory_mb: self.max_memory_mb,
            java_args: texts(self.java_args@),
            server_args: texts(self.server_args@),
            auto_restart: self.auto_restart,
            restart_delay_secs: self.restart_delay_secs,
            version: opt_text(self.version),
            runtime: self.runtime@,
        }
    }
}

impl Clone for ServerConfig {
    fn clone(&self) -> (r: Self)
        ensures
            r@ == self@,
    {
        ServerConfig {
            id: self.id.clone(),
            name: self.name.clone(),
            group_id: copy_opt(&self.group_id),
            directory: self.directory.clone(),
            startup_command: copy_opt(&self.startup_command),
            jar_path: self.jar_path.clone(),
            java_path: copy_opt(&self.java_path),
            min_memory_mb: self.min_memory_mb,
            max_memory_mb: self.max_memory_mb,
            java_args: copy_texts(&self.java_args),
            server_args: copy_texts(&self.server_args),
            auto_restart: self.auto_restart,
            restart_delay_secs: self.restart_delay_secs,
            version: copy_opt(&self.version),
            runtime: self.runtime.clone(),
        }
    }
}

impl ServerView {
    /// The java program that the server is started with.
    pub open spec fn java(self, default: Seq<char>) -> Seq<char> {
        match self.java_path {
            Some(path) => path,
            None => default,
        }
    }

    /// The words of the command line that starts the server natively.
    pub open spec fn command_words(self, default_java: Seq<char>) -> Seq<Seq<char>> {
        seq![
            self.java(default_java),
            "-Xms"@ + decimal(self.min_memory_mb as nat) + "M"@,
            "-Xmx"@ + decimal(self.max_memory_mb as nat) + "M"@,
        ] + self.java_args + seq!["-jar"@, self.jar_path] + self.server_args
    }

    /// The command line that starts the server natively.
    pub open spec fn command_line(self, default_java: Seq<char>) -> Seq<char> {
        joined(self.command_words(default_java), " "@)
    }
}

/// Appends copies of the strings of a list.
pub fn append_texts(out: &mut Vec<String>, list: &Vec<String>)
    ensures
        final(out)@ == old(out)@ + list@,
{
    let mut i: usize = 0;
    assert(out@ =~= old(out)@ + list@.take(0));
    while i < list.len()
        invariant
            i <= list@.len(),
            out@ == old(out)@ + list@.take(i as int),
        decreases list@.len() - i,
    {
        out.push(list[i].clone());
        assert(out@ =~= old(out)@ + list@.take(i + 1));
        i = i + 1;
    }
    assert(list@.take(i as int) =~= list@);
}

pub(crate) fn memory_flag(flag: &str, megabytes: u32) -> (r: String)
    ensures
        r@ == flag@ + decimal(megabytes as nat) + "M"@,
{
    let mut out = flag.to_owned();
    let number = decimal_text(megabytes as u64);
    out.append(number.as_str());
    out.append("M");
    out
}

impl ServerConfig {
    /// The java program that the server is started with.
    pub fn java_bin<'a>(&'a self, default: &'a str) -> (r: &'a str)
        ensures
            r@ == self@.java(default@),
    {
        match &self.java_path {
            Some(path) => path.as_str(),
            None => default,
        }
    }

    /// The command line that starts the server natively.
    pub fn startup_command(&self, default_java: &str) -> (r: String)
        ensures
            r@ == self@.command_line(default_java@),
    {
        let mut parts: Vec<String> = Vec::new();
        parts.push(self.java_bin(default_java).to_owned());
        parts.push(memory_flag("-Xms", self.min_memory_mb));
        parts.push(memory_flag("-Xmx", self.max_memory_mb));
        append_texts(&mut parts, &self.java_args);
        parts.push("-jar".to_owned());
        parts.push(self.jar_path.clone());
        append_texts(&mut parts, &self.server_args);
        assert(texts(parts@) =~= self@.command_words(default_java@));
        join(&parts, " ")
    }

    /// Whether the server runs in a container.
    pub fn uses_docker(&self) -> (r: bool)
        ensures
            r == (self@.runtime.kind == ServerRuntimeKind::Docker),
    {
        self.runtime.kind == ServerRuntimeKind::Docker
    }
}

/// A group of servers.
#[derive(Debug)]
pub struct ServerGroup {
    pub id: String,
    pub name: String,
    pub parent_id: Option<String>,
}

#[verifier::ext_equal]
pub struct GroupView {
    pub id: Seq<char>,
    pub name: Seq<char>,
    pub parent_id: Option<Seq<char>>,
}

impl View for ServerGroup {
    type V = GroupView;

    open spec fn view(&self) -> GroupView {
        GroupView { id: self.id@, name: self.name@, parent_id: opt_text(self.parent_id) }
    }
}

impl Clone for ServerGroup {
    fn clone(&self) -> (r: Self)
        ensures
            r == *self,
    {
        ServerGroup {
            id: self.id.clone(),
            name: self.name.clone(),
            parent_id: copy_opt(&self.parent_id),
        }
    }
}

/// All settings.
#[derive(Debug)]
pub struct RemiaftConfig {
    pub language: Option<String>,
    pub java_path: String,
    pub groups: Vec<ServerGroup>,
    pub servers: Vec<ServerConfig>,
}

#[verifier::ext_equal]
pub struct ConfigView {
    pub language: Option<Seq<char>>,
    pub java_path: Seq<char>,
    pub groups: Seq<GroupView>,
    pub servers: Seq<ServerView>,
}

/// The contents of a list of groups.
pub open spec fn group_views(list: Seq<ServerGroup>) -> Seq<GroupView> {
    list.map_values(|g: ServerGroup| g@)
}

/// The contents of a list of servers.
pub open spec fn server_views(list: Seq<ServerConfig>) -> Seq<ServerView> {
    list.map_values(|s: ServerConfig| s@)
}

impl View for RemiaftConfig {
    type V = ConfigView;

    open spec fn view(&self) -> ConfigView {
        ConfigView {
            language: opt_text(self.language),
            java_path: self.java_path@,
            groups: group_views(self.groups@),
            servers: server_views(self.servers@),
        }
    }
}

impl Default for RemiaftConfig {
    fn default() -> (r: Self)
        ensures
            r@ == (ConfigView {
                language: None,
                java_path: "java"@,
                groups: Seq::empty(),
                servers: Seq::empty(),
            }),
    {
        let r = RemiaftConfig {
            language: None,
            java_path: "java".to_owned(),
            groups: Vec::new(),
            servers: Vec::new(),
        };
        assert(r@.groups =~= Seq::<GroupView>::empty());
        assert(r@.servers =~= Seq::<ServerView>::empty());
        r
    }
}

/// The character that stands for `c` in an identifier, if any does.
pub open spec fn slug_char(c: char) -> Option<char> {
    if 'a' <= c <= 'z' || 'A' <= c <= 'Z' || '0' <= c <= '9' {
        Some(lower(c))
    } else if c == ' ' || c == '\t' || c == '\n' || c == '\u{c}' || c == '\r' || c == '-' || c == '_' {
        Some('-')
    } else {
        None
    }
}

/// The characters that stand for the text in an identifier.
pub open spec fn slug_chars(s: Seq<char>) -> Seq<char>
    decreases s.len(),
{
    if s.len() == 0 {
        Seq::empty()
    } else {
        let head = slug_chars(s.drop_last());
        match slug_char(s.last()) {
            Some(c) => head.push(c),
            None => head,
        }
    }
}

/// The identifier made from a name: lower-case letters and digits in runs
/// with single dashes between them, or `server` where nothing is left.
pub open spec fn slug_of(s: Seq<char>) -> Seq<char> {
    let parts = pieces(slug_chars(s), '-').filter(|part: Seq<char>| part.len() > 0);
    let cleaned = joined(parts, "-"@);
    if cleaned.len() == 0 {
        "server"@
    } else {
        cleaned
    }
}

fn slug_char_of(c: char) -> (r: Option<char>)
    ensures
        r == slug_char(c),
{
    if ('a' <= c && c <= 'z') || ('A' <= c && c <= 'Z') || ('0' <= c && c <= '9') {
        Some(lower_char(c))
    } else if c == ' ' || c == '\t' || c == '\n' || c == '\u{c}' || c == '\r' || c == '-' || c == '_' {
        Some('-')
    } else {
        None
    }
}

/// Makes an identifier from a name.
pub fn slug(input: &str) -> (r: String)
    ensures
        r@ == slug_of(input@),
{
    let chars = chars_of(input);
    let mut mapped = String::new();
    let mut i: usize = 0;
    assert(input@.take(0).len() == 0);
    while i < chars.len()
        invariant
            i <= chars@.len(),
            chars@ == input@,
            mapped@ == slug_chars(input@.take(i as int)),
        decreases chars@.len() - i,
    {
        assert(input@.take(i + 1).drop_last() =~= input@.take(i as int));
        if let Some(c) = slug_char_of(chars[i]) {
            mapped.push(c);
        }
        i = i + 1;
    }
    assert(input@.take(i as int) =~= input@);
    let raw = split_on(mapped.as_str(), '-');
    let parts = nonempty_texts(&raw);
    let cleaned = join(&parts, "-");
    if cleaned.as_str().unicode_len() == 0 {
        "server".to_owned()
    } else {
        cleaned
    }
}

/// The strings that are not empty, in order.
pub fn nonempty_texts(raw: &Vec<String>) -> (r: Vec<String>)
    ensures
        texts(r@) == texts(raw@).filter(|part: Seq<char>| part.len() > 0),
{
    let ghost all = texts(raw@);
    let ghost pred = |part: Seq<char>| part.len() > 0;
    let mut out: Vec<String> = Vec::new();
    let mut i: usize = 0;
    proof {
        reveal(Seq::filter);
        assert(texts(out@) =~= all.take(0).filter(pred));
    }
    while i < raw.len()
        invariant
            i <= raw@.len(),
            all == texts(raw@),
            pred == (|part: Seq<char>| part.len() > 0),
            texts(out@) == all.take(i as int).filter(pred),
        decreases raw@.len() - i,
    {
        proof {
            reveal(Seq::filter);
            assert(all.take(i + 1).drop_last() =~= all.take(i as int));
            assert(all[i as int] == raw@[i as int]@);
        }
        if raw[i].as_str().unicode_len() > 0 {
            let ghost before = out@;
            out.push(raw[i].clone());
            assert(texts(out@) =~= texts(before).push(raw@[i as int]@));
        }
        i = i + 1;
    }
    assert(all.take(i as int) =~= all);
    out
}

/// Whether a character is a lower-case hexadecimal digit.
pub open spec fn is_hex_digit(c: char) -> bool {
    '0' <= c <= '9' || 'a' <= c <= 'f'
}

/// Eight lower-case hexadecimal digits.
pub open spec fn is_short_id(s: Seq<char>) -> bool {
    s.len() == 8 && forall|i: int| 0 <= i < 8 ==> is_hex_digit(#[trigger] s[i])
}

/// Whether a hyphen stands at a position of the text of an identifier.
pub open spec fn is_hyphen_place(i: int) -> bool {
    i == 8 || i == 13 || i == 18 || i == 23
}

/// The text of an identifier: 32 lower-case hexadecimal digits in five groups
/// with hyphens between them.
pub open spec fn is_long_id(s: Seq<char>) -> bool {
    s.len() == 36 && forall|i: int|
        0 <= i < 36 ==> if is_hyphen_place(i) {
            #[trigger] s[i] == '-'
        } else {
            is_hex_digit(s[i])
        }
}

/// `uuid::Uuid::new_v4` makes a random identifier, whose text has 32 lower-case
/// hexadecimal digits in groups of eight, four, four, four and twelve. Which
/// ones they are is left to chance.
#[verifier::external_body]
fn long_id() -> (r: String)
    ensures
        is_long_id(r@),
{
    uuid::Uuid::new_v4().to_string()
}

/// The first eight digits of a random identifier.
pub(crate) fn short_id() -> (r: String)
    ensures
        is_short_id(r@),
{
    let id = long_id();
    let digits = id.as_str().substring_char(0, 8).to_owned();
    assert forall|i: int| 0 <= i < 8 implies is_hex_digit(#[trigger] digits@[i]) by {
        assert(digits@[i] == id@[i]);
    }
    digits
}

/// The identifier of something with the given name.
pub open spec fn full_id(name: Seq<char>, suffix: Seq<char>) -> Seq<char> {
    slug_of(name) + "-"@ + suffix
}

pub(crate) fn full_id_text(name: &str, suffix: &str) -> (r: String)
    ensures
        r@ == full_id(name@, suffix@),
{
    let mut id = slug(name);
    id.append("-");
    id.append(suffix);
    id
}

/// A server as it is first added.
pub open spec fn new_server(
    suffix: Seq<char>,
    name: Seq<char>,
    directory: Seq<char>,
    jar_path: Seq<char>,
) -> ServerView {
    ServerView {
        id: full_id(name, suffix),
        name,
        group_id: None,
        directory,
        startup_command: None,
        jar_path,
        java_path: None,
        min_memory_mb: 1024,
        max_memory_mb: 4096,
        java_args: Seq::empty(),
        server_args: seq!["nogui"@],
        auto_restart: false,
        restart_delay_secs: 10,
        version: None,
        runtime: default_runtime(),
    }
}

/// Whether the key names the server, by its identifier or its name.
pub open spec fn names_server(server: ServerView, key: Seq<char>) -> bool {
    server.id == key || server.name == key
}

/// The position of the first server that the key names.
pub open spec fn server_position(servers: Seq<ServerView>, key: Seq<char>) -> Option<int> {
    first_where(servers, |server: ServerView| names_server(server, key))
}

/// No server has this identifier or name.
#[derive(Debug)]
pub struct UnknownServer {
    pub key: String,
}

impl UnknownServer {
    pub fn message(&self) -> (r: String)
        ensures
            r@ == "unknown server: "@ + self.key@,
    {
        let mut out = "unknown server: ".to_owned();
        out.append(self.key.as_str());
        out
    }
}

/// Whether the text reads as a path to a java program.
pub open spec fn java_like(value: Seq<char>, platform: Platform) -> bool {
    let name = match base_name_on(value, platform) {
        Some(name) => name,
        None => value,
    };
    "java"@.is_prefix_of(name)
}

/// Whether the text reads as a path to a java program.
pub fn looks_like_java_bin(value: &str, platform: Platform) -> (r: bool)
    ensures
        r == java_like(value@, platform),
{
    match file_name_on(value, platform) {
        Some(name) => starts_with(name.as_str(), "java"),
        None => starts_with(value, "java"),
    }
}

/// The server after a whole command line that was kept among its java
/// arguments has been taken apart.
pub open spec fn taken_apart(
    server: ServerView,
    jar_index: int,
    java_path: Seq<char>,
    platform: Platform,
) -> ServerView {
    let args = server.java_args;
    let leads = java_like(args[0], platform);
    let parted = ServerView {
        java_path: if leads {
            Some(args[0])
        } else {
            server.java_path
        },
        jar_path: if jar_index + 1 < args.len() {
            args[jar_index + 1]
        } else {
            server.jar_path
        },
        server_args: if jar_index + 2 <= args.len() {
            args.skip(jar_index + 2)
        } else {
            Seq::empty()
        },
        java_args: args.subrange(
            if leads {
                1
            } else {
                0
            },
            jar_index,
        ),
        ..server
    };
    ServerView { startup_command: Some(parted.command_line(java_path)), ..parted }
}

/// Whether the java arguments only repeat the startup command.
pub open spec fn repeats_command(server: ServerView) -> bool {
    match server.startup_command {
        Some(command) => !is_blank(command) && server.java_args.len() > 0
            && server.server_args.len() == 0 && joined(server.java_args, " "@) == trimmed(command),
        None => false,
    }
}

/// The position of `-jar` among the java arguments.
pub open spec fn jar_flag(server: ServerView) -> Option<int> {
    first_where(server.java_args, |part: Seq<char>| part == "-jar"@)
}

/// The server with its command in the present form.
pub open spec fn normalized(server: ServerView, java_path: Seq<char>, platform: Platform) -> ServerView {
    match jar_flag(server) {
        Some(jar_index) => taken_apart(server, jar_index, java_path, platform),
        None => if repeats_command(server) {
            ServerView { java_args: Seq::empty(), ..server }
        } else {
            server
        },
    }
}

/// Whether the server has its command in a form that is rewritten.
pub open spec fn needs_normalizing(server: ServerView) -> bool {
    jar_flag(server) is Some || repeats_command(server)
}

pub(crate) fn find_jar_flag(args: &Vec<String>) -> (r: Option<usize>)
    ensures
        match r {
            Some(i) => i < args@.len() && first_where(
                texts(args@),
                |part: Seq<char>| part == "-jar"@,
            ) == Some(i as int),
            None => first_where(texts(args@), |part: Seq<char>| part == "-jar"@) == None::<int>,
        },
{
    let ghost all = texts(args@);
    let ghost cond = |part: Seq<char>| part == "-jar"@;
    let mut i: usize = 0;
    while i < args.len()
        invariant
            i <= args@.len(),
            all == texts(args@),
            cond == (|part: Seq<char>| part == "-jar"@),
            forall|k: int| 0 <= k < i ==> !cond(#[trigger] all[k]),
        decreases args@.len() - i,
    {
        assert(all[i as int] == args@[i as int]@);
        if same_text(args[i].as_str(), "-jar") {
            proof {
                lemma_is_first(all, cond, i as int);
            }
            return Some(i);
        }
        i = i + 1;
    }
    proof {
        lemma_is_absent(all, cond);
    }
    None
}

/// Copies of the strings from one position up to another.
pub fn copy_range(list: &Vec<String>, from: usize, to: usize) -> (r: Vec<String>)
    requires
        from <= to <= list@.len(),
    ensures
        r@ == list@.subrange(from as int, to as int),
{
    let mut out: Vec<String> = Vec::new();
    let mut i: usize = from;
    while i < to
        invariant
            from <= i <= to <= list@.len(),
            out@ == list@.subrange(from as int, i as int),
        decreases to - i,
    {
        out.push(list[i].clone());
        assert(list@.subrange(from as int, i + 1) =~= list@.subrange(from as int, i as int).push(
            list@[i as int],
        ));
        i = i + 1;
    }
    out
}

fn normalize_server(server: &mut ServerConfig, java_path: &str, platform: Platform) -> (r: bool)
    ensures
        r == needs_normalizing(old(server)@),
        final(server)@ == normalized(old(server)@, java_path@, platform),
{
    let ghost before = server@;
    match find_jar_flag(&server.java_args) {
        Some(jar_index) => {
            let n: usize = server.java_args.len();
            assert(before.java_args[0] == server.java_args@[0]@);
            let leads = looks_like_java_bin(server.java_args[0].as_str(), platform);
            if leads {
                server.java_path = Some(server.java_args[0].clone());
            }
            if n - jar_index > 1 {
                assert(before.java_args[jar_index + 1] == server.java_args@[jar_index + 1]@);
                server.jar_path = server.java_args[jar_index + 1].clone();
            }
            if n - jar_index >= 2 {
                server.server_args = copy_range(&server.java_args, jar_index + 2, n);
                assert(texts(server.server_args@) =~= before.java_args.skip(jar_index + 2));
            } else {
                server.server_args = Vec::new();
                assert(texts(server.server_args@) =~= Seq::<Seq<char>>::empty());
            }
            let start: usize = if leads {
                1
            } else {
                0
            };
            proof {
                lemma_flag_is_not_java(platform);
                lemma_first_where(before.java_args, |part: Seq<char>| part == "-jar"@);
            }
            server.java_args = copy_range(&server.java_args, start, jar_index);
            assert(texts(server.java_args@) =~= before.java_args.subrange(
                start as int,
                jar_index as int,
            ));
            let command = server.startup_command(java_path);
            server.startup_command = Some(command);
            assert(server@ =~= taken_apart(before, jar_index as int, java_path@, platform));
            true
        },
        None => {
            let repeats = match &server.startup_command {
                Some(command) => {
                    let line = trim(command.as_str());
                    if line.unicode_len() > 0 && server.java_args.len() > 0
                        && server.server_args.len() == 0 {
                        let legacy = join(&server.java_args, " ");
                        same_text(legacy.as_str(), line)
                    } else {
                        false
                    }
                },
                None => false,
            };
            if repeats {
                server.java_args = Vec::new();
                assert(texts(server.java_args@) =~= Seq::<Seq<char>>::empty());
            }
            repeats
        },
    }
}

pub proof fn lemma_flag_is_not_java(platform: Platform)
    ensures
        !java_like("-jar"@, platform),
{
    let flag = "-jar"@;
    reveal_strlit("-jar");
    reveal_strlit("java");
    assert(!flag.contains('/'));
    assert(volume_end(flag) == 0);
    assert(slashed(flag.skip(0)) =~= flag);
    lemma_pieces_plain(flag, '/');
    let parts = parts_of(flag);
    if parts.len() > 0 {
        pieces(flag, '/').lemma_filter_contains_rev(|p: Seq<char>| is_part(p), parts.last());
        assert(parts.last() == flag);
    }
    if "java"@.is_prefix_of(flag) {
        assert("java"@[0] == flag.subrange(0, 4)[0]);
    }
}

impl RemiaftConfig {
    /// Adds a server under an identifier that ends in the given text.
    pub fn add_server_as(&mut self, suffix: &str, name: String, directory: String, jar_path: String)
        ensures
            final(self)@ == (ConfigView {
                servers: old(self)@.servers.push(
                    new_server(suffix@, name@, directory@, jar_path@),
                ),
                ..old(self)@
            }),
    {
        let id = full_id_text(name.as_str(), suffix);
        let mut server_args: Vec<String> = Vec::new();
        server_args.push("nogui".to_owned());
        let server = ServerConfig {
            id,
            name,
            group_id: None,
            directory,
            startup_command: None,
            jar_path,
            java_path: None,
            min_memory_mb: 1024,
            max_memory_mb: 4096,
            java_args: Vec::new(),
            server_args,
            auto_restart: false,
            restart_delay_secs: 10,
            version: None,
            runtime: ServerRuntimeConfig::default(),
        };
        assert(server@ =~= new_server(suffix@, name@, directory@, jar_path@));
        self.servers.push(server);
        assert(self@.servers =~= old(self)@.servers.push(server@));
    }

    /// Adds a server under a new identifier.
    pub fn add_server(&mut self, name: String, directory: String, jar_path: String)
        ensures
            exists|suffix: Seq<char>|
                is_short_id(suffix) && final(self)@ == (ConfigView {
                    servers: old(self)@.servers.push(
                        #[trigger] new_server(suffix, name@, directory@, jar_path@),
                    ),
                    ..old(self)@
                }),
    {
        let suffix = short_id();
        self.add_server_as(suffix.as_str(), name, directory, jar_path);
    }

    /// The position of the server with this identifier or name.
    pub fn find_server_index(&self, key: &str) -> (r: Result<usize, UnknownServer>)
        ensures
            match r {
                Ok(i) => server_position(self@.servers, key@) == Some(i as int) && i
                    < self.servers@.len(),
                Err(e) => server_position(self@.servers, key@) == None::<int> && e.key@ == key@,
            },
    {
        let ghost all = self@.servers;
        let ghost cond = |server: ServerView| names_server(server, key@);
        let mut i: usize = 0;
        while i < self.servers.len()
            invariant
                i <= self.servers@.len(),
                all == self@.servers,
                cond == (|server: ServerView| names_server(server, key@)),
                forall|k: int| 0 <= k < i ==> !cond(#[trigger] all[k]),
            decreases self.servers@.len() - i,
        {
            assert(all[i as int] == self.servers@[i as int]@);
            if same_text(self.servers[i].id.as_str(), key) || same_text(
                self.servers[i].name.as_str(),
                key,
            ) {
                proof {
                    lemma_is_first(all, cond, i as int);
                }
                return Ok(i);
            }
            i = i + 1;
        }
        proof {
            lemma_is_absent(all, cond);
        }
        Err(UnknownServer { key: key.to_owned() })
    }

    /// The server with this identifier or name.
    pub fn find_server(&self, key: &str) -> (r: Result<&ServerConfig, UnknownServer>)
        ensures
            match r {
                Ok(server) => match server_position(self@.servers, key@) {
                    Some(i) => *server == self.servers@[i] && server@ == self@.servers[i],
                    None => false,
                },
                Err(e) => server_position(self@.servers, key@) == None::<int> && e.key@ == key@,
            },
    {
        match self.find_server_index(key) {
            Ok(i) => Ok(&self.servers[i]),
            Err(e) => Err(e),
        }
    }

    /// Brings the commands of all servers into the present form, and tells
    /// whether any was not.
    pub fn normalize_startup_commands(&mut self, platform: Platform) -> (r: bool)
        ensures
            final(self)@ == (ConfigView {
                servers: old(self)@.servers.map_values(
                    |server: ServerView| normalized(server, old(self)@.java_path, platform),
                ),
                ..old(self)@
            }),
            r == exists|i: int|
                0 <= i < old(self)@.servers.len() && needs_normalizing(
                    #[trigger] old(self)@.servers[i],
                ),
    {
        let ghost before = self@.servers;
        let mut changed = false;
        let mut i: usize = 0;
        let n: usize = self.servers.len();
        while i < n
            invariant
                i <= n,
                n == before.len(),
                n == self.servers@.len(),
                before == old(self)@.servers,
                self.language == old(self).language,
                self.java_path == old(self).java_path,
                self.groups == old(self).groups,
                forall|k: int|
                    0 <= k < i ==> (#[trigger] self.servers@[k])@ == normalized(
                        before[k],
                        self.java_path@,
                        platform,
                    ),
                forall|k: int| i <= k < n ==> (#[trigger] self.servers@[k])@ == before[k],
                changed == exists|k: int| 0 <= k < i && needs_normalizing(#[trigger] before[k]),
            decreases n - i,
        {
            let ghost prior = self.servers@;
            if normalize_server(&mut self.servers[i], self.java_path.as_str(), platform) {
                changed = true;
            }
            assert(before[i as int] == prior[i as int]@);
            i = i + 1;
        }
        assert(self@.servers =~= before.map_values(
            |server: ServerView| normalized(server, self@.java_path, platform),
        ));
        changed
    }
}

/// The command line of a server without server arguments is longer than its
/// java arguments alone.
proof fn lemma_command_outgrows_args(server: ServerView, java_path: Seq<char>)
    requires
        server.server_args.len() == 0,
        server.java_args.len() > 0,
    ensures
        trimmed(server.command_line(java_path)).len() > joined(server.java_args, " "@).len(),
{
    reveal_strlit(" ");
    reveal_strlit("-Xms");
    reveal_strlit("-Xmx");
    reveal_strlit("M");
    reveal_strlit("-jar");
    let sep = " "@;
    let args = server.java_args;
    let low = "-Xms"@ + decimal(server.min_memory_mb as nat) + "M"@;
    let high = "-Xmx"@ + decimal(server.max_memory_mb as nat) + "M"@;
    let java = server.java(java_path);
    let first = seq![java];
    let memory = seq![low, high];
    let flag = seq!["-jar"@];
    let jar = seq![server.jar_path];
    let words = server.command_words(java_path);
    assert(words =~= first + (memory + (args + (flag + jar))));
    lemma_joined_concat(first, memory + (args + (flag + jar)), sep);
    lemma_joined_concat(memory, args + (flag + jar), sep);
    lemma_joined_concat(args, flag + jar, sep);
    lemma_joined_concat(flag, jar, sep);
    let line = joined(words, sep);
    let head = java + sep;
    let tail = joined(args, sep) + sep + ("-jar"@ + sep + server.jar_path);
    assert(joined(first, sep) == java);
    assert(memory =~= seq![low] + seq![high]);
    lemma_joined_concat(seq![low], seq![high], sep);
    assert(joined(memory, sep) == low + sep + high);
    assert(line == head + (low + sep + high + sep + tail));
    let from = head.len() as int;
    assert(line[from] == low[0]);
    assert(low[0] == '-');
    let into = (joined(args, sep) + sep).len() + 3int;
    let to = from + (low + sep + high + sep).len() + into;
    assert(line[to] == tail[into]);
    assert(tail[into] == ("-jar"@ + sep + server.jar_path)[3]);
    assert(line[to] == 'r');
    lemma_trimmed_keeps(line, from, to);
}

/// A server whose command has been brought into the present form stays as it
/// is from then on.
pub proof fn normalizing_once_suffices(
    server: ServerView,
    java_path: Seq<char>,
    platform: Platform,
)
    ensures
        !needs_normalizing(normalized(server, java_path, platform)),
        normalized(normalized(server, java_path, platform), java_path, platform) == normalized(
            server,
            java_path,
            platform,
        ),
{
    let cond = |part: Seq<char>| part == "-jar"@;
    let result = normalized(server, java_path, platform);
    lemma_first_where(server.java_args, cond);
    match jar_flag(server) {
        Some(jar_index) => {
            lemma_flag_is_not_java(platform);
            assert forall|k: int| 0 <= k < result.java_args.len() implies !cond(
                #[trigger] result.java_args[k],
            ) by {
                let start = if java_like(server.java_args[0], platform) {
                    1int
                } else {
                    0int
                };
                assert(result.java_args[k] == server.java_args[k + start]);
            }
            lemma_is_absent(result.java_args, cond);
            if result.server_args.len() == 0 && result.java_args.len() > 0 {
                let parted = ServerView { startup_command: server.startup_command, ..result };
                lemma_command_outgrows_args(parted, java_path);
                assert(parted.command_words(java_path) == result.command_words(java_path));
            }
        },
        None => {
            lemma_is_absent(result.java_args, cond);
        },
    }
}

/// Whether a character can stand in an identifier.
pub open spec fn is_slug_char(c: char) -> bool {
    'a' <= c <= 'z' || '0' <= c <= '9' || c == '-'
}

/// Whether a text is runs of lower-case letters and digits with single dashes
/// between them.
pub open spec fn is_slug(s: Seq<char>) -> bool {
    &&& forall|i: int| 0 <= i < s.len() ==> is_slug_char(#[trigger] s[i])
    &&& forall|i: int| 0 <= i < pieces(s, '-').len() ==> (#[trigger] pieces(s, '-')[i]).len() > 0
}

proof fn lemma_slug_chars(s: Seq<char>)
    ensures
        forall|i: int| 0 <= i < slug_chars(s).len() ==> is_slug_char(#[trigger] slug_chars(s)[i]),
        (forall|i: int| 0 <= i < s.len() ==> is_slug_char(#[trigger] s[i])) ==> slug_chars(s) == s,
    decreases s.len(),
{
    if s.len() > 0 {
        let front = s.drop_last();
        lemma_slug_chars(front);
        let all = slug_chars(s);
        assert forall|i: int| 0 <= i < all.len() implies is_slug_char(#[trigger] all[i]) by {
            if i < slug_chars(front).len() {
                assert(all[i] == slug_chars(front)[i]);
            }
        }
        if forall|i: int| 0 <= i < s.len() ==> is_slug_char(#[trigger] s[i]) {
            assert forall|i: int| 0 <= i < front.len() implies is_slug_char(#[trigger] front[i]) by {
                assert(front[i] == s[i]);
            }
            assert(is_slug_char(s[s.len() - 1]));
            assert(front.push(s.last()) =~= s);
        }
    } else {
        assert(slug_chars(s) =~= s);
    }
}

proof fn lemma_slug_pieces(s: Seq<char>)
    requires
        forall|i: int| 0 <= i < s.len() ==> is_slug_char(#[trigger] s[i]),
    ensures
        forall|i: int, k: int|
            0 <= i < pieces(s, '-').len() && 0 <= k < pieces(s, '-')[i].len() ==> is_slug_char(
                #[trigger] pieces(s, '-')[i][k],
            ),
    decreases s.len(),
{
    if s.len() > 0 {
        let front = s.drop_last();
        assert forall|i: int| 0 <= i < front.len() implies is_slug_char(#[trigger] front[i]) by {
            assert(front[i] == s[i]);
        }
        lemma_slug_pieces(front);
        crate::text::lemma_pieces_nonempty(front, '-');
        let head = pieces(front, '-');
        let all = pieces(s, '-');
        assert(is_slug_char(s[s.len() - 1]));
        assert forall|i: int, k: int|
            0 <= i < all.len() && 0 <= k < all[i].len() implies is_slug_char(
            #[trigger] all[i][k],
        ) by {
            if i < head.len() && k < head[i].len() {
                assert(all[i][k] == head[i][k]);
            }
        }
    }
}

proof fn lemma_joined_slug_chars(parts: Seq<Seq<char>>)
    requires
        forall|i: int, k: int|
            0 <= i < parts.len() && 0 <= k < parts[i].len() ==> is_slug_char(
                #[trigger] parts[i][k],
            ),
    ensures
        forall|i: int|
            0 <= i < joined(parts, seq!['-']).len() ==> is_slug_char(
                #[trigger] joined(parts, seq!['-'])[i],
            ),
    decreases parts.len(),
{
    let all = joined(parts, seq!['-']);
    if parts.len() == 1 {
        assert forall|i: int| 0 <= i < all.len() implies is_slug_char(#[trigger] all[i]) by {
            assert(all[i] == parts[0][i]);
        }
    } else if parts.len() > 1 {
        let front = parts.drop_last();
        assert forall|i: int, k: int|
            0 <= i < front.len() && 0 <= k < front[i].len() implies is_slug_char(
            #[trigger] front[i][k],
        ) by {
            assert(front[i][k] == parts[i][k]);
        }
        lemma_joined_slug_chars(front);
        let head = joined(front, seq!['-']);
        assert forall|i: int| 0 <= i < all.len() implies is_slug_char(#[trigger] all[i]) by {
            if i < head.len() {
                assert(all[i] == head[i]);
            } else if i > head.len() {
                assert(all[i] == parts[parts.len() - 1][i - head.len() - 1]);
            }
        }
    }
}

proof fn lemma_all_pieces_stay(list: Seq<Seq<char>>)
    requires
        forall|i: int| 0 <= i < list.len() ==> (#[trigger] list[i]).len() > 0,
    ensures
        list.filter(|part: Seq<char>| part.len() > 0) == list,
    decreases list.len(),
{
    reveal(Seq::filter);
    if list.len() > 0 {
        let front = list.drop_last();
        assert forall|i: int| 0 <= i < front.len() implies (#[trigger] front[i]).len() > 0 by {
            assert(front[i] == list[i]);
        }
        lemma_all_pieces_stay(front);
        assert(list[list.len() - 1].len() > 0);
        assert(front.push(list.last()) =~= list);
    }
}

/// Whether a character is an ASCII letter or digit.
pub open spec fn is_letter_or_digit(c: char) -> bool {
    'a' <= c <= 'z' || 'A' <= c <= 'Z' || '0' <= c <= '9'
}

/// The ASCII letters and digits of a text in order, the letters in lower case.
pub open spec fn letters_of(s: Seq<char>) -> Seq<char>
    decreases s.len(),
{
    if s.len() == 0 {
        Seq::empty()
    } else if is_letter_or_digit(s.last()) {
        letters_of(s.drop_last()).push(lower(s.last()))
    } else {
        letters_of(s.drop_last())
    }
}

/// The letters and digits of all parts.
spec fn letters_of_all(parts: Seq<Seq<char>>) -> Seq<char>
    decreases parts.len(),
{
    if parts.len() == 0 {
        Seq::empty()
    } else {
        letters_of_all(parts.drop_last()) + letters_of(parts.last())
    }
}

proof fn lemma_letters_append(a: Seq<char>, b: Seq<char>)
    ensures
        letters_of(a + b) == letters_of(a) + letters_of(b),
    decreases b.len(),
{
    if b.len() == 0 {
        assert(a + b =~= a);
        assert(letters_of(b) =~= Seq::<char>::empty());
    } else {
        lemma_letters_append(a, b.drop_last());
        assert((a + b).drop_last() =~= a + b.drop_last());
        assert(letters_of(a + b) =~= letters_of(a) + letters_of(b));
    }
}

proof fn lemma_slug_keeps_letters(s: Seq<char>)
    ensures
        letters_of(slug_chars(s)) == letters_of(s),
    decreases s.len(),
{
    if s.len() > 0 {
        let head = slug_chars(s.drop_last());
        lemma_slug_keeps_letters(s.drop_last());
        if let Some(c) = slug_char(s.last()) {
            assert(slug_chars(s).drop_last() =~= head);
            assert(lower(lower(s.last())) == lower(s.last()));
        }
    }
}

proof fn lemma_pieces_keep_letters(s: Seq<char>)
    ensures
        letters_of_all(pieces(s, '-')) == letters_of(s),
    decreases s.len(),
{
    reveal_with_fuel(letters_of_all, 2);
    if s.len() == 0 {
        assert(pieces(s, '-').drop_last() =~= Seq::<Seq<char>>::empty());
        assert(letters_of_all(pieces(s, '-')) =~= letters_of(s));
    } else {
        let head = pieces(s.drop_last(), '-');
        lemma_pieces_keep_letters(s.drop_last());
        crate::text::lemma_pieces_nonempty(s.drop_last(), '-');
        let all = pieces(s, '-');
        if s.last() == '-' {
            assert(all.drop_last() =~= head);
        } else {
            assert(all.drop_last() =~= head.drop_last());
            assert(all.last().drop_last() =~= head.last());
        }
        assert(letters_of_all(all) =~= letters_of(s));
    }
}

proof fn lemma_empty_parts_hold_no_letters(parts: Seq<Seq<char>>)
    ensures
        letters_of_all(parts.filter(|part: Seq<char>| part.len() > 0)) == letters_of_all(parts),
    decreases parts.len(),
{
    reveal(Seq::filter);
    let pred = |part: Seq<char>| part.len() > 0;
    if parts.len() > 0 {
        lemma_empty_parts_hold_no_letters(parts.drop_last());
        let head = parts.drop_last().filter(pred);
        if parts.last().len() > 0 {
            assert(head.push(parts.last()).drop_last() =~= head);
        }
        assert(letters_of_all(parts.filter(pred)) =~= letters_of_all(parts));
    }
}

proof fn lemma_joined_letters(parts: Seq<Seq<char>>)
    ensures
        letters_of(joined(parts, seq!['-'])) == letters_of_all(parts),
    decreases parts.len(),
{
    if parts.len() == 1 {
        reveal_with_fuel(letters_of_all, 2);
        assert(letters_of_all(parts) =~= letters_of(parts[0]));
    } else if parts.len() > 1 {
        let head = joined(parts.drop_last(), seq!['-']);
        lemma_joined_letters(parts.drop_last());
        lemma_letters_append(head + seq!['-'], parts.last());
        lemma_letters_append(head, seq!['-']);
        assert(seq!['-'].drop_last() =~= Seq::<char>::empty());
        reveal_with_fuel(letters_of, 2);
        assert(letters_of(seq!['-']) =~= Seq::<char>::empty());
        assert(letters_of(head) + Seq::<char>::empty() =~= letters_of(head));
    }
}

proof fn lemma_part_is_letters(part: Seq<char>)
    requires
        forall|k: int| 0 <= k < part.len() ==> is_slug_char(#[trigger] part[k]) && part[k] != '-',
    ensures
        letters_of(part) == part,
    decreases part.len(),
{
    if part.len() > 0 {
        let front = part.drop_last();
        assert forall|k: int| 0 <= k < front.len() implies is_slug_char(#[trigger] front[k])
            && front[k] != '-' by {
            assert(front[k] == part[k]);
        }
        lemma_part_is_letters(front);
        assert(is_slug_char(part[part.len() - 1]) && part[part.len() - 1] != '-');
        assert(front.push(part.last()) =~= part);
    }
}

/// An identifier made from a name holds nothing but lower-case letters, digits
/// and single dashes between them. Its letters and digits are those of the name,
/// in order and in lower case; a name that has none gives `server`. Made into an
/// identifier again, it stays as it is.
pub proof fn slug_is_plain(name: Seq<char>)
    ensures
        is_slug(slug_of(name)),
        letters_of(name).len() > 0 ==> letters_of(slug_of(name)) == letters_of(name),
        letters_of(name).len() == 0 ==> slug_of(name) == "server"@,
        slug_of(name).len() > 0,
        slug_of(slug_of(name)) == slug_of(name),
{
    let pred = |part: Seq<char>| part.len() > 0;
    let split = pieces(slug_chars(name), '-');
    let parts = split.filter(pred);
    reveal_strlit("-");
    reveal_strlit("server");
    assert("-"@ =~= seq!['-']);
    lemma_slug_chars(name);
    lemma_slug_pieces(slug_chars(name));
    crate::text::lemma_pieces_hold_no_separator(slug_chars(name), '-');
    assert forall|i: int| 0 <= i < parts.len() implies (#[trigger] parts[i]).len() > 0 && !parts[i].contains(
        '-',
    ) && split.contains(parts[i]) by {
        split.lemma_filter_contains_rev(pred, parts[i]);
        split.lemma_filter_pred(pred, i);
    }
    let cleaned = joined(parts, "-"@);
    let slug = slug_of(name);
    lemma_slug_keeps_letters(name);
    lemma_pieces_keep_letters(slug_chars(name));
    lemma_empty_parts_hold_no_letters(split);
    lemma_joined_letters(parts);
    if parts.len() > 0 {
        crate::text::splitting_undoes_joining(parts, '-');
        if cleaned.len() == 0 {
            assert(pieces(cleaned, '-')[0].len() == 0);
            assert(parts[0].len() > 0);
        }
        assert forall|i: int, k: int|
            0 <= i < parts.len() && 0 <= k < parts[i].len() implies is_slug_char(
            #[trigger] parts[i][k],
        ) by {
            let j = choose|j: int| 0 <= j < split.len() && split[j] == parts[i];
            assert(split.contains(parts[i]));
            assert(split[j][k] == parts[i][k]);
        }
        lemma_joined_slug_chars(parts);
        assert(pieces(slug, '-') == parts);
        let last = parts.last();
        assert forall|k: int| 0 <= k < last.len() implies is_slug_char(#[trigger] last[k])
            && last[k] != '-' by {
            assert(parts[parts.len() - 1][k] == last[k]);
            assert(!parts[parts.len() - 1].contains('-'));
        }
        lemma_part_is_letters(last);
        assert(letters_of_all(parts).len() > 0);
    } else {
        assert(!"server"@.contains('-'));
        lemma_pieces_plain("server"@, '-');
        assert(joined(seq!["server"@], "-"@) == "server"@);
        assert(pieces(slug, '-')[0] == "server"@);
    }
    lemma_slug_chars(slug);
    lemma_all_pieces_stay(pieces(slug, '-'));
    assert(joined(pieces(slug, '-'), "-"@) == slug);
}

/// A server is looked up by its identifier or its name; the first one that has
/// either is found.
pub proof fn first_server_of_a_name_is_found(servers: Seq<ServerView>, key: Seq<char>, i: int)
    requires
        0 <= i < servers.len(),
    ensures
        match server_position(servers, key) {
            Some(at) => {
                &&& 0 <= at < servers.len()
                &&& servers[at].id == key || servers[at].name == key
                &&& i < at ==> servers[i].id != key && servers[i].name != key
            },
            None => servers[i].id != key && servers[i].name != key,
        },
{
    lemma_first_where(servers, |server: ServerView| names_server(server, key));
    let _ = names_server(servers[i], key);
}

/// A new server runs natively, on one to four gigabytes, without a window, and
/// does not start again by itself.
pub proof fn new_server_is_modest(
    suffix: Seq<char>,
    name: Seq<char>,
    directory: Seq<char>,
    jar_path: Seq<char>,
)
    ensures
        ({
            let server = new_server(suffix, name, directory, jar_path);
            &&& server.id == slug_of(name) + seq!['-'] + suffix
            &&& server.name == name
            &&& server.directory == directory
            &&& server.jar_path == jar_path
            &&& server.min_memory_mb == 1024
            &&& server.max_memory_mb == 4096
            &&& server.java_args.len() == 0
            &&& server.server_args == seq!["nogui"@]
            &&& !server.auto_restart
            &&& server.restart_delay_secs == 10
            &&& server.group_id is None
            &&& server.startup_command is None
            &&& server.java_path is None
            &&& server.version is None
            &&& server.runtime.kind == ServerRuntimeKind::Native
        }),
{
    reveal_strlit("-");
    assert("-"@ =~= seq!['-']);
}

/// Unless something else is chosen, a container sees the server's directory and
/// nothing more of the machine, is kept when it stops, and has a console that is
/// reached from this machine alone.
pub proof fn containers_are_modest()
    ensures
        ({
            let docker = default_docker();
            &&& docker.mount_server_directory
            &&& docker.server_dir == "/home/remiaft/server"@
            &&& docker.volumes.len() == 0
            &&& docker.ports.len() == 0
            &&& docker.labels.len() == 0
            &&& docker.environment.len() == 0
            &&& docker.image is None
            &&& docker.image_policy == DockerImagePolicy::IfMissing
            &&& docker.network is None
            &&& !docker.use_image_entrypoint
            &&& !docker.auto_remove
            &&& docker.user.mode == DockerUserMode::Auto
            &&& docker.rcon.mode == RconMode::Auto
            &&& docker.rcon.host == "127.0.0.1"@
            &&& docker.rcon.container_port == 25575
            &&& docker.rcon.port_range_start == 25575
            &&& docker.rcon.port_range_end == 25999
            &&& docker.rcon.password is None
            &&& docker.rcon.host_port is None
        }),
{
}

proof fn lemma_slug_of_word(front: Seq<char>, word: Seq<char>)
    requires
        forall|i: int| 0 <= i < word.len() ==> is_letter_or_digit(#[trigger] word[i]),
    ensures
        slug_chars(front + word) == slug_chars(front) + lowered(word),
    decreases word.len(),
{
    if word.len() > 0 {
        let head = word.drop_last();
        assert forall|i: int| 0 <= i < head.len() implies is_letter_or_digit(
            #[trigger] head[i],
        ) by {
            assert(head[i] == word[i]);
        }
        lemma_slug_of_word(front, head);
        assert((front + word).drop_last() =~= front + head);
        assert((front + word).last() == word.last());
        assert(is_letter_or_digit(word[word.len() - 1]));
        assert((slug_chars(front) + lowered(head)).push(lower(word.last())) =~= slug_chars(front)
            + lowered(word));
    } else {
        assert(front + word =~= front);
        assert(slug_chars(front) + lowered(word) =~= slug_chars(front));
    }
}

/// A name of two words becomes the words in small letters with a hyphen between
/// them, and a name of one word that word.
pub proof fn words_of_a_name_are_hyphenated(a: Seq<char>, sep: char, b: Seq<char>)
    requires
        a.len() > 0,
        b.len() > 0,
        forall|i: int| 0 <= i < a.len() ==> is_letter_or_digit(#[trigger] a[i]),
        forall|i: int| 0 <= i < b.len() ==> is_letter_or_digit(#[trigger] b[i]),
        sep == ' ' || sep == '-' || sep == '_',
    ensures
        slug_of(a) == lowered(a),
        slug_of(a.push(sep) + b) == lowered(a) + seq!['-'] + lowered(b),
{
    let none = Seq::<char>::empty();
    let parted = a.push(sep);
    let (x, y) = (lowered(a), lowered(b));
    reveal_strlit("-");
    assert("-"@ =~= seq!['-']);
    lemma_slug_of_word(none, a);
    lemma_slug_of_word(parted, b);
    assert(none + a =~= a);
    assert(none + x =~= x);
    assert(slug_chars(none) + x =~= x);
    assert(parted.drop_last() =~= a);
    assert(slug_chars(parted) == x.push('-'));
    assert(x.push('-') + y =~= x + seq!['-'] + y);
    assert forall|i: int| 0 <= i < x.len() implies x[i] != '-' by {
        assert(is_letter_or_digit(a[i]));
    }
    assert forall|i: int| 0 <= i < y.len() implies y[i] != '-' by {
        assert(is_letter_or_digit(b[i]));
    }
    assert(!x.contains('-') && !y.contains('-'));
    lemma_pieces_plain(x, '-');
    crate::text::lemma_pieces_append(x, y, '-');
    let pred = |part: Seq<char>| part.len() > 0;
    let one = seq![x];
    let two = one.push(y);
    reveal_with_fuel(Seq::filter, 3);
    assert(one.drop_last() =~= Seq::<Seq<char>>::empty());
    assert(two.drop_last() =~= one);
    assert(one.filter(pred) =~= one);
    assert(two.filter(pred) =~= two);
    assert(slug_chars(a) == x);
    assert(slug_chars(parted + b) == x + seq!['-'] + y);
    assert(pieces(x, '-') =~= one);
    assert(pieces(x + seq!['-'] + y, '-') =~= two);
    assert(joined(one, "-"@) == x);
    assert(joined(two, "-"@) == joined(two.drop_last(), "-"@) + "-"@ + y);
    assert(joined(two, "-"@) =~= x + seq!['-'] + y);
}

/// A whole command line that was kept among the java arguments is taken apart:
/// the program before the flag, the arguments up to it, the archive behind it and
/// the rest for the server.
pub proof fn kept_command_is_taken_apart(
    server: ServerView,
    java: Seq<char>,
    args: Seq<Seq<char>>,
    jar: Seq<char>,
    rest: Seq<Seq<char>>,
    java_path: Seq<char>,
    platform: Platform,
)
    requires
        server.java_args == seq![java] + args + seq!["-jar"@, jar] + rest,
        java_like(java, platform),
        !args.contains("-jar"@),
    ensures
        ({
            let after = normalized(server, java_path, platform);
            &&& after.java_path == Some(java)
            &&& after.java_args == args
            &&& after.jar_path == jar
            &&& after.server_args == rest
            &&& after.startup_command == Some(after.command_line(java_path))
            &&& after.id == server.id
            &&& after.name == server.name
            &&& after.directory == server.directory
            &&& after.min_memory_mb == server.min_memory_mb
            &&& after.max_memory_mb == server.max_memory_mb
        }),
{
    let flag = |part: Seq<char>| part == "-jar"@;
    let all = server.java_args;
    let at = args.len() as int + 1;
    lemma_flag_is_not_java(platform);
    assert(all[0] == java);
    assert(all[at] == "-jar"@);
    assert(all[at + 1] == jar);
    assert forall|k: int| 0 <= k < at implies !flag(#[trigger] all[k]) by {
        if k > 0 {
            assert(all[k] == args[k - 1]);
        }
    }
    crate::collections::lemma_is_first(all, flag, at);
    assert(all.skip(at + 2) =~= rest);
    assert(all.subrange(1, at) =~= args);
}

} // verus!
