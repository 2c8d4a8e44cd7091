//! Servers that run in Docker containers.

use vstd::prelude::*;

use crate::collections::{
    entry_of, in_key_order, pair_texts, setting_an_entry, with_entry, StringMap,
};
use crate::config::{
    append_texts, java_like, memory_flag, slug, slug_of, DockerUserMode, ServerConfig, ServerView, VolumeView,
};
use crate::failure::{failed, Failure};
use crate::numbers::{decimal, decimal_text, lemma_decimal_is_digits};
use crate::paths::{
    a_name_adds_a_part, a_name_lies_below_its_directory, a_path_is_called_by_its_last_name,
    absolute, absolute_on, base_name_on, below, below_on_windows, cleaning_is_idempotent,
    file_name_on, find_volume_end, is_absolute, is_absolute_on, is_part, is_separator, join_path_on,
    lies_under, parent_step, parts_of, parts_on, parts_start_with, path_below, path_below_on_windows, path_parts,
    path_parts_on, paths_are_seen_from_a_base, rooted, rooted_path, seen_on, separates, slashed, trim_path_tail, volume_end, walk,
    walked, without_tail,
};
use crate::platform::{version, version_text, Platform};
use crate::startup::{
    command_parts, is_plain_word, own_command_reads_back, sets_memory, startup_of,
};
use crate::text::{
    glue, glue3, join, joined, lemma_pieces_append,
    lemma_pieces_plain, lowered, nonblank, nonblank_text, opt_text, pieces, precedes,
    same_ignoring_case, same_text, split_on, texts, trim, trimmed,
};

verus! {

/// Whether a server runs.
#[derive(Debug, Clone, Copy, PartialEq, Eq, Structural)]
pub enum RuntimeStatus {
    Running,
    Stopped,
    Stale,
}

/// The port that players connect to.
pub const DEFAULT_GAME_PORT: u16 = 25565;

/// The network that the server's container joins.
pub open spec fn network_of(server: ServerView) -> Seq<char> {
    match nonblank(server.runtime.docker.network) {
        Some(network) => network,
        None => "remiaft"@,
    }
}

/// The network that the server's container joins.
pub fn network_name(server: &ServerConfig) -> (r: String)
    ensures
        r@ == network_of(server@),
{
    match nonblank_text(&server.runtime.docker.network) {
        Some(network) => network.to_owned(),
        None => "remiaft".to_owned(),
    }
}

/// The name of the server's container: the chosen one, or one made from the
/// server's name and the last part of its identifier.
pub open spec fn container_name_of(server: ServerView) -> Seq<char> {
    match nonblank(server.runtime.docker.container_name) {
        Some(name) => name,
        None => "remiaft-"@ + slug_of(server.name) + "-"@ + pieces(server.id, '-').last(),
    }
}

/// The name of the server's container.
pub fn container_name(server: &ServerConfig) -> (r: String)
    ensures
        r@ == container_name_of(server@),
{
    if let Some(name) = nonblank_text(&server.runtime.docker.container_name) {
        return name.to_owned();
    }
    let parts = split_on(server.id.as_str(), '-');
    let last: usize = parts.len() - 1;
    assert(texts(parts@).last() == parts@[last as int]@);
    let name = slug(server.name.as_str());
    let mut out = glue3("remiaft-", name.as_str(), "-");
    out.append(parts[last].as_str());
    out
}

/// The labels of the server's container.
pub open spec fn labels_of(server: ServerView, config_hash: Seq<char>) -> Seq<(Seq<char>, Seq<char>)> {
    let own = server.runtime.docker.labels;
    let own = with_entry(own, "remiaft.manager"@, "true"@);
    let own = with_entry(own, "com.remiaft.managed"@, "true"@);
    let own = with_entry(own, "com.remiaft.server_id"@, server.id);
    let own = with_entry(own, "com.remiaft.server_name"@, server.name);
    let own = with_entry(own, "com.remiaft.version"@, version());
    with_entry(own, "com.remiaft.config_hash"@, config_hash)
}

/// The labels of the server's container.
pub fn labels(server: &ServerConfig, config_hash: &str) -> (r: StringMap)
    ensures
        r@ == labels_of(server@, config_hash@),
{
    let mut labels = server.runtime.docker.labels.duplicate();
    labels.insert("remiaft.manager".to_owned(), "true".to_owned());
    labels.insert("com.remiaft.managed".to_owned(), "true".to_owned());
    labels.insert("com.remiaft.server_id".to_owned(), server.id.clone());
    labels.insert("com.remiaft.server_name".to_owned(), server.name.clone());
    labels.insert("com.remiaft.version".to_owned(), version_text().to_owned());
    labels.insert("com.remiaft.config_hash".to_owned(), config_hash.to_owned());
    labels
}

/// A setting of the environment.
pub open spec fn assignment(entry: (Seq<char>, Seq<char>)) -> Seq<char> {
    entry.0 + "="@ + entry.1
}

/// The environment of the server's container, with a home directory.
pub open spec fn environment_of(server: ServerView) -> Seq<Seq<char>> {
    let own = server.runtime.docker.environment;
    let full = if entry_of(own, "HOME"@) is None {
        with_entry(own, "HOME"@, "/home/remiaft"@)
    } else {
        own
    };
    full.map_values(|entry: (Seq<char>, Seq<char>)| assignment(entry))
}

/// The environment of the server's container.
pub fn environment(server: &ServerConfig) -> (r: Vec<String>)
    ensures
        texts(r@) == environment_of(server@),
{
    let mut env = server.runtime.docker.environment.duplicate();
    if env.get("HOME").is_none() {
        env.insert("HOME".to_owned(), "/home/remiaft".to_owned());
    }
    let ghost all = env@.map_values(|entry: (Seq<char>, Seq<char>)| assignment(entry));
    let mut out: Vec<String> = Vec::new();
    let mut i: usize = 0;
    assert(texts(out@) =~= all.take(0));
    while i < env.len()
        invariant
            i <= env@.len(),
            all == env@.map_values(|entry: (Seq<char>, Seq<char>)| assignment(entry)),
            texts(out@) == all.take(i as int),
        decreases env@.len() - i,
    {
        let ghost before = out@;
        let (key, value) = env.entry(i);
        out.push(glue3(key, "=", value));
        assert(texts(out@) =~= texts(before).push(all[i as int]));
        assert(all.take(i + 1) =~= all.take(i as int).push(all[i as int]));
        i = i + 1;
    }
    assert(all.take(i as int) =~= all);
    out
}

/// A mount as Docker is told of it.
pub open spec fn bind_text(host: Seq<char>, container: Seq<char>, read_only: bool) -> Seq<char> {
    host + ":"@ + container + ":"@ + if read_only {
        "ro"@
    } else {
        "rw"@
    }
}

fn bind_line(host: &str, container: &str, read_only: bool) -> (r: String)
    ensures
        r@ == bind_text(host@, container@, read_only),
{
    let mut out = glue3(host, ":", container);
    out.append(":");
    if read_only {
        out.append("ro");
    } else {
        out.append("rw");
    }
    out
}

/// The mounts of the server's container: the server directory, where it is
/// mounted, and the chosen volumes.
pub open spec fn binds_of(server: ServerView) -> Seq<Seq<char>> {
    let docker = server.runtime.docker;
    let own = if docker.mount_server_directory {
        seq![bind_text(server.directory, docker.server_dir, false)]
    } else {
        Seq::empty()
    };
    own + docker.volumes.map_values(
        |mount: VolumeView| bind_text(mount.host, mount.container, mount.read_only),
    )
}

/// The mounts of the server's container.
pub fn bind_mounts(server: &ServerConfig) -> (r: Vec<String>)
    ensures
        texts(r@) == binds_of(server@),
{
    let docker = &server.runtime.docker;
    let ghost listed = docker@.volumes.map_values(
        |mount: VolumeView| bind_text(mount.host, mount.container, mount.read_only),
    );
    let mut out: Vec<String> = Vec::new();
    if docker.mount_server_directory {
        out.push(bind_line(server.directory.as_str(), docker.server_dir.as_str(), false));
    }
    let ghost own = texts(out@);
    assert(own =~= if docker.mount_server_directory {
        seq![bind_text(server@.directory, docker@.server_dir, false)]
    } else {
        Seq::empty()
    });
    let mut i: usize = 0;
    assert(texts(out@) =~= own + listed.take(0));
    while i < docker.volumes.len()
        invariant
            i <= docker.volumes@.len(),
            listed == docker@.volumes.map_values(
                |mount: VolumeView| bind_text(mount.host, mount.container, mount.read_only),
            ),
            texts(out@) == own + listed.take(i as int),
        decreases docker.volumes@.len() - i,
    {
        let ghost before = out@;
        let mount = &docker.volumes[i];
        out.push(bind_line(mount.host.as_str(), mount.container.as_str(), mount.read_only));
        assert(docker@.volumes[i as int] == docker.volumes@[i as int]@);
        assert(texts(out@) =~= texts(before).push(listed[i as int]));
        assert(texts(out@) =~= own + listed.take(i + 1));
        i = i + 1;
    }
    assert(listed.take(i as int) =~= listed);
    out
}

/// The directory that the container starts in.
pub open spec fn working_dir_of(server: ServerView) -> Seq<char> {
    match server.runtime.docker.working_dir {
        Some(dir) => dir,
        None => server.runtime.docker.server_dir,
    }
}

/// The directory that the container starts in.
pub fn working_dir(server: &ServerConfig) -> (r: String)
    ensures
        r@ == working_dir_of(server@),
{
    match &server.runtime.docker.working_dir {
        Some(dir) => dir.clone(),
        None => server.runtime.docker.server_dir.clone(),
    }
}

/// A user and a group by their numbers.
pub open spec fn user_text(uid: u32, gid: u32) -> Seq<char> {
    decimal(uid as nat) + ":"@ + decimal(gid as nat)
}

/// A user and a group by their numbers.
pub fn user_and_group(uid: u32, gid: u32) -> (r: String)
    ensures
        r@ == user_text(uid, gid),
{
    let user = decimal_text(uid as u64);
    let group = decimal_text(gid as u64);
    glue3(user.as_str(), ":", group.as_str())
}

/// The user that the container runs as, if it is not left to the image.
pub open spec fn user_of(server: ServerView, host_user: Seq<char>) -> Result<
    Option<Seq<char>>,
    Seq<char>,
> {
    let docker = server.runtime.docker;
    match docker.user.mode {
        DockerUserMode::Image => Ok(None),
        DockerUserMode::Custom => match (docker.user.uid, docker.user.gid) {
            (Some(uid), Some(gid)) => Ok(Some(user_text(uid, gid))),
            (None, _) => Err("custom Docker user requires uid"@),
            (Some(_), None) => Err("custom Docker user requires gid"@),
        },
        DockerUserMode::Host => Ok(Some(host_user)),
        DockerUserMode::Auto => if docker.mount_server_directory || docker.volumes.len() > 0 {
            Ok(Some(host_user))
        } else {
            Ok(None)
        },
    }
}

/// The user that the container runs as. `host_user` is the one that the
/// manager runs as.
pub fn container_user(server: &ServerConfig, host_user: &str) -> (r: Result<Option<String>, Failure>)
    ensures
        match r {
            Ok(user) => user_of(server@, host_user@) == Ok::<Option<Seq<char>>, Seq<char>>(
                opt_text(user),
            ),
            Err(e) => user_of(server@, host_user@) == Err::<Option<Seq<char>>, Seq<char>>(e@),
        },
{
    let docker = &server.runtime.docker;
    match docker.user.mode {
        DockerUserMode::Image => Ok(None),
        DockerUserMode::Custom => match (docker.user.uid, docker.user.gid) {
            (Some(uid), Some(gid)) => Ok(Some(user_and_group(uid, gid))),
            (None, _) => Err(Failure { message: "custom Docker user requires uid".to_owned() }),
            (Some(_), None) => Err(
                Failure { message: "custom Docker user requires gid".to_owned() },
            ),
        },
        DockerUserMode::Host => Ok(Some(host_user.to_owned())),
        DockerUserMode::Auto => if docker.mount_server_directory || docker.volumes.len() > 0 {
            Ok(Some(host_user.to_owned()))
        } else {
            Ok(None)
        },
    }
}

/// The text without slashes at its end.
pub open spec fn without_end_slashes(s: Seq<char>) -> Seq<char>
    decreases s.len(),
{
    if s.len() > 0 && s.last() == '/' {
        without_end_slashes(s.drop_last())
    } else {
        s
    }
}

fn trim_end_slashes(s: &str) -> (r: &str)
    ensures
        r@ == without_end_slashes(s@),
{
    let mut n: usize = s.unicode_len();
    assert(s@.take(n as int) =~= s@);
    while n > 0 && s.get_char(n - 1) == '/'
        invariant
            n <= s@.len(),
            without_end_slashes(s@) == without_end_slashes(s@.take(n as int)),
        decreases n,
    {
        assert(s@.take(n as int).drop_last() =~= s@.take(n - 1));
        n = n - 1;
    }
    assert(s@.take(n as int) =~= s@.subrange(0, n as int));
    s.substring_char(0, n)
}

/// Where the container finds the server's jar.
pub open spec fn jar_in_container(server: ServerView, platform: Platform) -> Seq<char> {
    let jar = server.jar_path;
    if !absolute_on(jar, platform) {
        jar
    } else {
        match path_under(jar, server.directory, platform) {
            Some(rest) => without_end_slashes(server.runtime.docker.server_dir) + "/"@ + rest,
            None => match base_name_on(jar, platform) {
                Some(name) => name,
                None => jar,
            },
        }
    }
}

/// The part of an absolute path below a directory, if it lies there.
pub open spec fn path_under(path: Seq<char>, dir: Seq<char>, platform: Platform) -> Option<
    Seq<char>,
> {
    if platform == Platform::Windows {
        below_on_windows(path, dir)
    } else if absolute(dir) {
        below(path, dir)
    } else if dir.len() == 0 {
        Some(without_tail(path))
    } else {
        None
    }
}

/// Where the container finds the server's jar.
pub fn container_jar_path(server: &ServerConfig, platform: Platform) -> (r: String)
    ensures
        r@ == jar_in_container(server@, platform),
{
    let jar = server.jar_path.as_str();
    if !is_absolute_on(jar, platform) {
        return jar.to_owned();
    }
    let dir = server.directory.as_str();
    let under = if platform == Platform::Windows {
        path_below_on_windows(jar, dir)
    } else if is_absolute(dir) {
        path_below(jar, dir)
    } else if dir.unicode_len() == 0 {
        Some(trim_path_tail(jar))
    } else {
        None
    };
    if let Some(rest) = under {
        let top = trim_end_slashes(server.runtime.docker.server_dir.as_str());
        return glue3(top, "/", rest.as_str());
    }
    match file_name_on(jar, platform) {
        Some(name) => name,
        None => jar.to_owned(),
    }
}

/// The command that the container runs, if it is not left to the image.
pub open spec fn command_of(server: ServerView, platform: Platform) -> Option<Seq<char>> {
    let docker = server.runtime.docker;
    if docker.use_image_entrypoint {
        None
    } else {
        match nonblank(docker.startup_command) {
            Some(command) => Some(command),
            None => {
                let words = seq![
                    "java"@,
                    "-Xms"@ + decimal(server.min_memory_mb as nat) + "M"@,
                    "-Xmx"@ + decimal(server.max_memory_mb as nat) + "M"@,
                ] + server.java_args + seq!["-jar"@, jar_in_container(server, platform)]
                    + server.server_args;
                Some(joined(words, " "@))
            },
        }
    }
}

/// The command that the container runs.
pub fn container_command(server: &ServerConfig, platform: Platform) -> (r: Option<String>)
    ensures
        opt_text(r) == command_of(server@, platform),
{
    let docker = &server.runtime.docker;
    if docker.use_image_entrypoint {
        return None;
    }
    if let Some(command) = nonblank_text(&docker.startup_command) {
        return Some(command.to_owned());
    }
    let mut parts: Vec<String> = Vec::new();
    parts.push("java".to_owned());
    parts.push(memory_flag("-Xms", server.min_memory_mb));
    parts.push(memory_flag("-Xmx", server.max_memory_mb));
    append_texts(&mut parts, &server.java_args);
    parts.push("-jar".to_owned());
    parts.push(container_jar_path(server, platform));
    append_texts(&mut parts, &server.server_args);
    assert(texts(parts@) =~= seq![
        "java"@,
        "-Xms"@ + decimal(server.min_memory_mb as nat) + "M"@,
        "-Xmx"@ + decimal(server.max_memory_mb as nat) + "M"@,
    ] + server@.java_args + seq!["-jar"@, jar_in_container(server@, platform)] + server@.server_args);
    Some(join(&parts, " "))
}

/// What the host says about paths: which kind of system it is, the directory
/// that the manager runs in, and the paths that others resolve to.
#[derive(Debug)]
pub struct HostPaths {
    pub platform: Platform,
    pub current_dir: Result<String, String>,
    pub resolved: Vec<(String, String)>,
}

#[verifier::ext_equal]
pub struct HostView {
    pub platform: Platform,
    pub current_dir: Result<Seq<char>, Seq<char>>,
    pub resolved: Seq<(Seq<char>, Seq<char>)>,
}

impl View for HostPaths {
    type V = HostView;

    open spec fn view(&self) -> HostView {
        HostView {
            platform: self.platform,
            current_dir: match self.current_dir {
                Ok(dir) => Ok(dir@),
                Err(e) => Err(e@),
            },
            resolved: pair_texts(self.resolved@),
        }
    }
}

impl HostPaths {
    /// What a path resolves to, if it is known.
    pub fn resolve(&self, path: &str) -> (r: Option<&str>)
        ensures
            match r {
                Some(target) => entry_of(self@.resolved, path@) == Some(target@),
                None => entry_of(self@.resolved, path@) is None,
            },
    {
        let ghost all = self@.resolved;
        let mut i: usize = 0;
        assert(all.skip(0) =~= all);
        while i < self.resolved.len()
            invariant
                i <= self.resolved@.len(),
                all == pair_texts(self.resolved@),
                entry_of(all, path@) == entry_of(all.skip(i as int), path@),
            decreases self.resolved@.len() - i,
        {
            assert(all.skip(i as int)[0] == all[i as int]);
            assert(all[i as int] == (self.resolved@[i as int].0@, self.resolved@[i as int].1@));
            assert(all.skip(i as int).drop_first() =~= all.skip(i + 1));
            if same_text(self.resolved[i].0.as_str(), path) {
                return Some(self.resolved[i].1.as_str());
            }
            i = i + 1;
        }
        None
    }
}

/// The place that an absolute path leads to, without steps to a parent.
pub open spec fn clean_path(path: Seq<char>) -> Seq<char> {
    rooted(walked(parts_of(path)))
}

/// The path cleaned up, if it stands for one place. A path with a volume, as
/// each such path of Windows has, is refused.
pub open spec fn normal_path(path: Seq<char>, platform: Platform) -> Result<Seq<char>, Seq<char>> {
    if !absolute_on(path, platform) {
        Err("Docker bind mount path must be absolute: "@ + path)
    } else if platform == Platform::Windows {
        Err("unsupported Docker bind mount path: "@ + path)
    } else {
        Ok(clean_path(path))
    }
}

/// The place on the host that a mount takes.
pub open spec fn host_place(path: Seq<char>, host: HostView) -> Result<Seq<char>, Seq<char>> {
    if absolute_on(path, host.platform) {
        normal_path(path, host.platform)
    } else {
        match host.current_dir {
            Ok(dir) => normal_path(seen_on(dir, path, host.platform), host.platform),
            Err(e) => Err(e),
        }
    }
}

/// The place in the container that a mount appears at.
pub open spec fn container_place(path: Seq<char>, platform: Platform) -> Result<
    Seq<char>,
    Seq<char>,
> {
    if absolute_on(trimmed(path), platform) {
        normal_path(trimmed(path), platform)
    } else {
        Err("Docker bind mount container path must be absolute: "@ + trimmed(path))
    }
}

/// Cleans an absolute path up.
pub fn normalize_absolute_path(path: &str, platform: Platform) -> (r: Result<String, Failure>)
    ensures
        match r {
            Ok(place) => normal_path(path@, platform) == Ok::<Seq<char>, Seq<char>>(place@),
            Err(e) => normal_path(path@, platform) == Err::<Seq<char>, Seq<char>>(e@),
        },
{
    if !is_absolute_on(path, platform) {
        return Err(
            Failure { message: glue("Docker bind mount path must be absolute: ", path) },
        );
    }
    if platform == Platform::Windows {
        return Err(Failure { message: glue("unsupported Docker bind mount path: ", path) });
    }
    let parts = path_parts(path);
    let place = walk(&parts);
    Ok(rooted_path(&place))
}

/// The place on the host that a mount takes.
pub fn normalize_host_mount_path(path: &str, host: &HostPaths) -> (r: Result<String, Failure>)
    ensures
        match r {
            Ok(place) => host_place(path@, host@) == Ok::<Seq<char>, Seq<char>>(place@),
            Err(e) => host_place(path@, host@) == Err::<Seq<char>, Seq<char>>(e@),
        },
{
    if is_absolute_on(path, host.platform) {
        return normalize_absolute_path(path, host.platform);
    }
    match &host.current_dir {
        Ok(dir) => {
            let full = join_path_on(dir.as_str(), path, host.platform);
            normalize_absolute_path(full.as_str(), host.platform)
        },
        Err(e) => Err(Failure { message: e.clone() }),
    }
}

/// The place in the container that a mount appears at.
pub fn normalize_container_mount_path(path: &str, platform: Platform) -> (r: Result<
    String,
    Failure,
>)
    ensures
        match r {
            Ok(place) => container_place(path@, platform) == Ok::<Seq<char>, Seq<char>>(place@),
            Err(e) => container_place(path@, platform) == Err::<Seq<char>, Seq<char>>(e@),
        },
{
    let path = trim(path);
    if !is_absolute_on(path, platform) {
        return Err(
            Failure { message: glue("Docker bind mount container path must be absolute: ", path) },
        );
    }
    normalize_absolute_path(path, platform)
}

/// Whether the parts lead to the root or below a directory that no container
/// may touch.
pub open spec fn is_sensitive(parts: Seq<Seq<char>>) -> bool {
    ||| parts.len() == 0
    ||| lies_under(parts, seq!["etc"@])
    ||| lies_under(parts, seq!["root"@])
    ||| lies_under(parts, seq!["proc"@])
    ||| lies_under(parts, seq!["sys"@])
    ||| lies_under(parts, seq!["dev"@])
    ||| lies_under(parts, seq!["var"@, "run"@, "docker.sock"@])
    ||| lies_under(parts, seq!["run"@, "docker.sock"@])
}

/// Whether the path is one from the root, on no volume, that no container may
/// touch.
pub open spec fn is_dangerous(path: Seq<char>, platform: Platform) -> bool {
    &&& path.len() > 0 && separates(path[0], platform)
    &&& platform == Platform::Windows ==> volume_end(path) == 0
    &&& is_sensitive(parts_on(path, platform))
}

fn starts_with_one(parts: &Vec<String>, a: &str) -> (r: bool)
    ensures
        r == lies_under(texts(parts@), seq![a@]),
{
    let mut top: Vec<String> = Vec::new();
    top.push(a.to_owned());
    assert(texts(top@) =~= seq![a@]);
    parts_start_with(parts, &top)
}

/// Whether the path is one from the root, on no volume, that no container may
/// touch.
pub fn is_dangerous_mount_path(path: &str, platform: Platform) -> (r: bool)
    ensures
        r == is_dangerous(path@, platform),
{
    if path.unicode_len() == 0 || !is_separator(path.get_char(0), platform) {
        return false;
    }
    if platform == Platform::Windows && find_volume_end(path) > 0 {
        return false;
    }
    let parts = path_parts_on(path, platform);
    if parts.len() == 0 {
        return true;
    }
    let mut socket: Vec<String> = Vec::new();
    socket.push("run".to_owned());
    socket.push("docker.sock".to_owned());
    assert(texts(socket@) =~= seq!["run"@, "docker.sock"@]);
    let mut var_socket: Vec<String> = Vec::new();
    var_socket.push("var".to_owned());
    var_socket.push("run".to_owned());
    var_socket.push("docker.sock".to_owned());
    assert(texts(var_socket@) =~= seq!["var"@, "run"@, "docker.sock"@]);
    starts_with_one(&parts, "etc") || starts_with_one(&parts, "root") || starts_with_one(
        &parts,
        "proc",
    ) || starts_with_one(&parts, "sys") || starts_with_one(&parts, "dev") || parts_start_with(
        &parts,
        &var_socket,
    ) || parts_start_with(&parts, &socket)
}

/// A path cannot hide where it leads: steps to a parent, empty parts and `.`
/// change nothing in whether the cleaned path is dangerous.
pub proof fn danger_cannot_hide(path: Seq<char>)
    ensures
        is_dangerous(clean_path(path), Platform::Unix) == is_sensitive(
            walked(parts_of(clean_path(path))),
        ),
        walked(parts_of(clean_path(path))) == walked(parts_of(path)),
        is_dangerous(clean_path(path), Platform::Unix) == is_sensitive(walked(parts_of(path))),
{
    cleaning_is_idempotent(path);
    crate::paths::lemma_rooted_parts(path);
    assert(clean_path(path)[0] == '/');
}

/// Why a mount is refused, if it is.
pub open spec fn bind_failure(
    place: Seq<char>,
    container: Seq<char>,
    label: Seq<char>,
    host: HostView,
) -> Option<Seq<char>> {
    match host_place(place, host) {
        Err(e) => Some(e),
        Ok(place) => if is_dangerous(place, host.platform) {
            Some(label + " uses a dangerous host path: "@ + place)
        } else {
            let target = match entry_of(host.resolved, place) {
                Some(target) => resolved_failure(target, label, host.platform),
                None => None,
            };
            if target is Some {
                target
            } else {
                match container_place(container, host.platform) {
                    Err(e) => Some(e),
                    Ok(inside) => if is_dangerous(inside, host.platform) {
                        Some(label + " uses a dangerous container path: "@ + inside)
                    } else {
                        None
                    },
                }
            }
        },
    }
}

/// Why a mount is refused for what its path resolves to, if it is.
pub open spec fn resolved_failure(
    target: Seq<char>,
    label: Seq<char>,
    platform: Platform,
) -> Option<Seq<char>> {
    match normal_path(target, platform) {
        Err(e) => Some(e),
        Ok(place) => if is_dangerous(place, platform) {
            Some(label + " resolves to a dangerous host path: "@ + place)
        } else {
            None
        },
    }
}

/// No mount is accepted on Windows.
pub proof fn windows_mounts_are_refused(
    place: Seq<char>,
    container: Seq<char>,
    label: Seq<char>,
    host: HostView,
)
    requires
        host.platform == Platform::Windows,
    ensures
        bind_failure(place, container, label, host) is Some,
{
}

/// Refuses a mount of, or onto, a path that no container may touch.
pub fn validate_bind_mount(place: &str, container: &str, label: &str, host: &HostPaths) -> (r:
    Result<(), Failure>)
    ensures
        failed(r) == bind_failure(place@, container@, label@, host@),
{
    let place = match normalize_host_mount_path(place, host) {
        Ok(place) => place,
        Err(e) => return Err(e),
    };
    if is_dangerous_mount_path(place.as_str(), host.platform) {
        return Err(
            Failure { message: glue3(label, " uses a dangerous host path: ", place.as_str()) },
        );
    }
    if let Some(target) = host.resolve(place.as_str()) {
        let target = match normalize_absolute_path(target, host.platform) {
            Ok(target) => target,
            Err(e) => return Err(e),
        };
        if is_dangerous_mount_path(target.as_str(), host.platform) {
            return Err(
                Failure {
                    message: glue3(label, " resolves to a dangerous host path: ", target.as_str()),
                },
            );
        }
    }
    let inside = match normalize_container_mount_path(container, host.platform) {
        Ok(inside) => inside,
        Err(e) => return Err(e),
    };
    if is_dangerous_mount_path(inside.as_str(), host.platform) {
        return Err(
            Failure { message: glue3(label, " uses a dangerous container path: ", inside.as_str()) },
        );
    }
    Ok(())
}

/// Why a network is refused, if it is.
pub open spec fn network_failure(server: ServerView, network: Seq<char>) -> Option<Seq<char>> {
    if lowered(trimmed(network)) == lowered("host"@) {
        Some("Docker host networking is not allowed for "@ + server.name)
    } else {
        None
    }
}

/// Whether the server may use the host's network. No server may.
pub fn backend_allows_host_network(_server: &ServerConfig) -> (r: bool)
    ensures
        !r,
{
    false
}

/// Refuses the host's own network.
pub fn validate_network_mode(server: &ServerConfig, network: &str) -> (r: Result<(), Failure>)
    ensures
        failed(r) == network_failure(server@, network@),
{
    if same_ignoring_case(trim(network), "host") && !backend_allows_host_network(server) {
        return Err(
            Failure {
                message: glue("Docker host networking is not allowed for ", server.name.as_str()),
            },
        );
    }
    Ok(())
}

/// Why one of the first `upto` volumes is refused, if one is.
pub open spec fn volumes_failure(volumes: Seq<VolumeView>, upto: int, host: HostView) -> Option<
    Seq<char>,
>
    decreases upto,
{
    if upto <= 0 {
        None
    } else {
        let earlier = volumes_failure(volumes, upto - 1, host);
        if earlier is Some {
            earlier
        } else {
            let mount = volumes[upto - 1];
            bind_failure(mount.host, mount.container, "custom volume bind mount"@, host)
        }
    }
}

/// Why the server is refused as a container, if it is.
pub open spec fn security_failure(server: ServerView, host: HostView) -> Option<Seq<char>> {
    let docker = server.runtime.docker;
    let network = network_failure(server, network_of(server));
    let directory = if docker.mount_server_directory {
        bind_failure(server.directory, docker.server_dir, "server directory bind mount"@, host)
    } else {
        None
    };
    if network is Some {
        network
    } else if directory is Some {
        directory
    } else {
        volumes_failure(docker.volumes, docker.volumes.len() as int, host)
    }
}

proof fn lemma_first_refusal(volumes: Seq<VolumeView>, upto: int, total: int, host: HostView)
    requires
        0 <= upto <= total,
        volumes_failure(volumes, upto, host) is Some,
    ensures
        volumes_failure(volumes, total, host) == volumes_failure(volumes, upto, host),
    decreases total,
{
    if upto < total {
        lemma_first_refusal(volumes, upto, total - 1, host);
    }
}

/// Refuses a server whose network or mounts no container may have.
pub fn validate_server_security(server: &ServerConfig, host: &HostPaths) -> (r: Result<(), Failure>)
    ensures
        failed(r) == security_failure(server@, host@),
{
    let network = network_name(server);
    if let Err(e) = validate_network_mode(server, network.as_str()) {
        return Err(e);
    }
    let docker = &server.runtime.docker;
    if docker.mount_server_directory {
        if let Err(e) = validate_bind_mount(
            server.directory.as_str(),
            docker.server_dir.as_str(),
            "server directory bind mount",
            host,
        ) {
            return Err(e);
        }
    }
    let ghost volumes = docker@.volumes;
    let mut i: usize = 0;
    while i < docker.volumes.len()
        invariant
            i <= docker.volumes@.len(),
            volumes == docker@.volumes,
            docker@ == server@.runtime.docker,
            network_failure(server@, network_of(server@)) is None,
            docker.mount_server_directory ==> bind_failure(
                server@.directory,
                docker@.server_dir,
                "server directory bind mount"@,
                host@,
            ) is None,
            volumes_failure(volumes, i as int, host@) is None,
        decreases docker.volumes@.len() - i,
    {
        assert(volumes[i as int] == docker.volumes@[i as int]@);
        let mount = &docker.volumes[i];
        if let Err(e) = validate_bind_mount(
            mount.host.as_str(),
            mount.container.as_str(),
            "custom volume bind mount",
            host,
        ) {
            proof {
                lemma_first_refusal(volumes, i + 1, volumes.len() as int, host@);
            }
            return Err(e);
        }
        i = i + 1;
    }
    Ok(())
}

/// Refuses a server that no container may be made for.
pub fn validate_server_config(server: &ServerConfig, host: &HostPaths) -> (r: Result<(), Failure>)
    ensures
        failed(r) == security_failure(server@, host@),
{
    validate_server_security(server, host)
}

proof fn lemma_java_is_java(platform: Platform)
    ensures
        java_like("java"@, platform),
{
    let java = "java"@;
    reveal_strlit("java");
    assert(!java.contains('/'));
    assert(volume_end(java) == 0);
    assert(slashed(java.skip(0)) =~= java);
    lemma_pieces_plain(java, '/');
    let parts = parts_of(java);
    if parts.len() > 0 {
        pieces(java, '/').lemma_filter_contains_rev(|p: Seq<char>| is_part(p), parts.last());
        assert(parts.last() == java);
    }
}

/// The command that a container runs reads back as the server's memory,
/// arguments and archive, where the image does not start by itself and no command
/// was chosen, each word is plain, and the java arguments neither name an archive
/// nor set the memory.
pub proof fn container_command_reads_back(server: ServerView, platform: Platform)
    requires
        !server.runtime.docker.use_image_entrypoint,
        server.runtime.docker.startup_command is None,
        is_plain_word(jar_in_container(server, platform)),
        forall|i: int|
            0 <= i < server.java_args.len() ==> is_plain_word(#[trigger] server.java_args[i]),
        forall|i: int|
            0 <= i < server.server_args.len() ==> is_plain_word(#[trigger] server.server_args[i]),
        forall|i: int|
            0 <= i < server.java_args.len() ==> (#[trigger] server.java_args[i]) != "-jar"@
                && !sets_memory(server.java_args[i]),
    ensures
        command_of(server, platform) is Some,
        ({
            let said = startup_of(command_parts(command_of(server, platform)->0), platform);
            &&& said.changed
            &&& said.java_path == Some("java"@)
            &&& said.min_memory_mb == Some(server.min_memory_mb)
            &&& said.max_memory_mb == Some(server.max_memory_mb)
            &&& said.java_args == server.java_args
            &&& said.server_args == server.server_args
            &&& said.jar_path == Some(jar_in_container(server, platform))
        }),
{
    let inside = ServerView {
        java_path: Some("java"@),
        jar_path: jar_in_container(server, platform),
        ..server
    };
    let words = inside.command_words("java"@);
    let java = "java"@;
    reveal_strlit("java");
    reveal_strlit("-Xms");
    reveal_strlit("-Xmx");
    reveal_strlit("M");
    reveal_strlit("-jar");
    lemma_java_is_java(platform);
    assert(trimmed(java) == java);
    assert(inside.java("java"@) == java);
    lemma_decimal_is_digits(server.min_memory_mb as nat);
    lemma_decimal_is_digits(server.max_memory_mb as nat);
    let n = server.java_args.len();
    assert forall|i: int| 0 <= i < words.len() implies is_plain_word(#[trigger] words[i]) by {
        if i < 3 {
        } else if i < 3 + n {
            assert(words[i] == server.java_args[i - 3]);
        } else if i == 3 + n {
            assert(words[i] == "-jar"@);
        } else if i == 4 + n {
            assert(words[i] == inside.jar_path);
        } else {
            assert(words[i] == server.server_args[i - 5 - n]);
        }
    }
    own_command_reads_back(inside, "java"@, platform);
    assert(command_of(server, platform) == Some(inside.command_line("java"@)));
}

/// An image that starts by itself is given no command, and a command that was
/// chosen is used as it is, without the white space around it.
pub proof fn chosen_command_is_used(server: ServerView, platform: Platform, command: Seq<char>)
    ensures
        server.runtime.docker.use_image_entrypoint ==> command_of(server, platform) is None,
        !server.runtime.docker.use_image_entrypoint ==> command_of(server, platform) is Some,
        !server.runtime.docker.use_image_entrypoint && server.runtime.docker.startup_command == Some(
            command,
        ) && trimmed(command).len() > 0 ==> command_of(server, platform) == Some(trimmed(command)),
{
}

/// A relative archive is named as it is; one that lies in the server's directory
/// is found there under its own name in the container's directory; and one from
/// elsewhere goes by its name alone.
pub proof fn archive_is_found_in_the_container(
    server: ServerView,
    inner: Seq<char>,
    name: Seq<char>,
    place: Seq<char>,
)
    requires
        inner.len() > 0,
        inner.last() != '/',
        is_part(name),
        name != parent_step(),
        !name.contains('/'),
    ensures
        !(server.jar_path.len() > 0 && server.jar_path[0] == '/') ==> jar_in_container(
            server,
            Platform::Unix,
        ) == server.jar_path,
        absolute(server.directory) && server.jar_path == server.directory + seq!['/'] + name
            && server.runtime.docker.server_dir == inner ==> jar_in_container(server, Platform::Unix)
            == inner + seq!['/'] + name,
        absolute(server.directory) && server.jar_path == server.directory + seq!['/'] + name
            && server.runtime.docker.server_dir == inner.push('/') ==> jar_in_container(
            server,
            Platform::Unix,
        ) == inner + seq!['/'] + name,
        absolute(server.directory) && absolute(place) && server.jar_path == place + seq!['/'] + name
            && !lies_under(parts_of(place).push(name), parts_of(server.directory))
            ==> jar_in_container(server, Platform::Unix) == name,
{
    let jar = server.jar_path;
    reveal_strlit("/");
    assert("/"@ =~= seq!['/']);
    assert(inner.push('/').drop_last() =~= inner);
    assert(without_end_slashes(inner) == inner);
    assert(without_end_slashes(inner.push('/')) == inner);
    if absolute(server.directory) && jar == server.directory + seq!['/'] + name {
        a_name_lies_below_its_directory(server.directory, name);
        assert(jar[0] == server.directory[0]);
    }
    if absolute(place) && jar == place + seq!['/'] + name {
        a_name_adds_a_part(place, name);
        a_path_is_called_by_its_last_name(place, name);
        assert(jar[0] == place[0]);
    }
}

/// The server's directory is mounted first and can be written, where it is
/// mounted at all; behind it each volume is mounted where it was asked for, in
/// the order they were given, and nothing else is.
pub proof fn volumes_are_mounted_as_given(server: ServerView, i: int)
    requires
        0 <= i < server.runtime.docker.volumes.len(),
    ensures
        ({
            let docker = server.runtime.docker;
            let mount = docker.volumes[i];
            let binds = binds_of(server);
            let first: int = if docker.mount_server_directory {
                1
            } else {
                0
            };
            &&& binds.len() == first + docker.volumes.len()
            &&& docker.mount_server_directory ==> binds[0] == server.directory + seq![':']
                + docker.server_dir + seq![':', 'r', 'w']
            &&& mount.read_only ==> binds[first + i] == mount.host + seq![':'] + mount.container
                + seq![':', 'r', 'o']
            &&& !mount.read_only ==> binds[first + i] == mount.host + seq![':'] + mount.container
                + seq![':', 'r', 'w']
        }),
{
    let docker = server.runtime.docker;
    let mount = docker.volumes[i];
    reveal_strlit(":");
    reveal_strlit("ro");
    reveal_strlit("rw");
    assert(":"@ =~= seq![':']);
    assert(mount.host + ":"@ + mount.container + ":"@ + "ro"@ =~= mount.host + seq![':']
        + mount.container + seq![':', 'r', 'o']);
    assert(mount.host + ":"@ + mount.container + ":"@ + "rw"@ =~= mount.host + seq![':']
        + mount.container + seq![':', 'r', 'w']);
    assert(server.directory + ":"@ + docker.server_dir + ":"@ + "rw"@ =~= server.directory
        + seq![':'] + docker.server_dir + seq![':', 'r', 'w']);
}

/// A container is labelled as one of this program's, with the server that it is
/// for and with the hash of its settings, and it keeps the labels that were
/// chosen under other keys.
pub proof fn container_is_labelled(server: ServerView, config_hash: Seq<char>, key: Seq<char>)
    requires
        in_key_order(server.runtime.docker.labels),
    ensures
        ({
            let labels = labels_of(server, config_hash);
            &&& entry_of(labels, "remiaft.manager"@) == Some("true"@)
            &&& entry_of(labels, "com.remiaft.managed"@) == Some("true"@)
            &&& entry_of(labels, "com.remiaft.server_id"@) == Some(server.id)
            &&& entry_of(labels, "com.remiaft.server_name"@) == Some(server.name)
            &&& entry_of(labels, "com.remiaft.version"@) == Some(version())
            &&& entry_of(labels, "com.remiaft.config_hash"@) == Some(config_hash)
            &&& key != "remiaft.manager"@ && key != "com.remiaft.managed"@ && key
                != "com.remiaft.server_id"@ && key != "com.remiaft.server_name"@ && key
                != "com.remiaft.version"@ && key != "com.remiaft.config_hash"@ ==> entry_of(
                labels,
                key,
            ) == entry_of(server.runtime.docker.labels, key)
        }),
{
    let a = server.runtime.docker.labels;
    let k1 = "remiaft.manager"@;
    let k2 = "com.remiaft.managed"@;
    let k3 = "com.remiaft.server_id"@;
    let k4 = "com.remiaft.server_name"@;
    let k5 = "com.remiaft.version"@;
    let k6 = "com.remiaft.config_hash"@;
    reveal_strlit("remiaft.manager");
    reveal_strlit("com.remiaft.managed");
    reveal_strlit("com.remiaft.server_id");
    reveal_strlit("com.remiaft.server_name");
    reveal_strlit("com.remiaft.version");
    reveal_strlit("com.remiaft.config_hash");
    assert(k1.len() == 15 && k2.len() == 19 && k3.len() == 21 && k4.len() == 23 && k5.len() == 19
        && k6.len() == 23);
    assert(k2 != k5) by {
        assert(k2[12] == 'm' && k5[12] == 'v');
    }
    assert(k4 != k6) by {
        assert(k4[12] == 's' && k6[12] == 'c');
    }
    let b = with_entry(a, k1, "true"@);
    let c = with_entry(b, k2, "true"@);
    let d = with_entry(c, k3, server.id);
    let e = with_entry(d, k4, server.name);
    let f = with_entry(e, k5, version());
    let keys = seq![k1, k2, k3, k4, k5, k6, key];
    lemma_entry_set(a, k1, "true"@, keys);
    lemma_entry_set(b, k2, "true"@, keys);
    lemma_entry_set(c, k3, server.id, keys);
    lemma_entry_set(d, k4, server.name, keys);
    lemma_entry_set(e, k5, version(), keys);
    lemma_entry_set(f, k6, config_hash, keys);
    assert(keys[0] == k1 && keys[1] == k2 && keys[2] == k3 && keys[3] == k4 && keys[4] == k5
        && keys[5] == k6 && keys[6] == key);
}

proof fn lemma_entry_set(
    map: Seq<(Seq<char>, Seq<char>)>,
    key: Seq<char>,
    value: Seq<char>,
    others: Seq<Seq<char>>,
)
    requires
        in_key_order(map),
    ensures
        in_key_order(with_entry(map, key, value)),
        entry_of(with_entry(map, key, value), key) == Some(value),
        forall|i: int|
            0 <= i < others.len() && (#[trigger] others[i]) != key ==> entry_of(
                with_entry(map, key, value),
                others[i],
            ) == entry_of(map, others[i]),
{
    assert forall|i: int| 0 <= i < others.len() && (#[trigger] others[i]) != key implies entry_of(
        with_entry(map, key, value),
        others[i],
    ) == entry_of(map, others[i]) by {
        setting_an_entry(map, key, value, others[i]);
    }
    setting_an_entry(map, key, value, key);
}

/// Each variable that was chosen is given to the container, as its name, an
/// equals sign and its value, and `HOME` is set where it was not chosen.
pub proof fn variables_are_given(server: ServerView, i: int)
    requires
        0 <= i < server.runtime.docker.environment.len(),
        entry_of(server.runtime.docker.environment, "HOME"@) is Some,
    ensures
        environment_of(server).len() == server.runtime.docker.environment.len(),
        environment_of(server)[i] == server.runtime.docker.environment[i].0 + seq!['=']
            + server.runtime.docker.environment[i].1,
{
    reveal_strlit("=");
    assert("="@ =~= seq!['=']);
}

proof fn lemma_absent_entry_is_added(
    entries: Seq<(Seq<char>, Seq<char>)>,
    key: Seq<char>,
    value: Seq<char>,
)
    requires
        entry_of(entries, key) is None,
    ensures
        with_entry(entries, key, value).contains((key, value)),
        forall|i: int|
            0 <= i < entries.len() ==> with_entry(entries, key, value).contains(
                #[trigger] entries[i],
            ),
    decreases entries.len(),
{
    let result = with_entry(entries, key, value);
    if entries.len() == 0 || precedes(key, entries[0].0) {
        assert(result[0] == (key, value));
        assert forall|i: int| 0 <= i < entries.len() implies result.contains(
            #[trigger] entries[i],
        ) by {
            assert(result[i + 1] == entries[i]);
        }
    } else {
        let tail = entries.drop_first();
        let rest = with_entry(tail, key, value);
        lemma_absent_entry_is_added(tail, key, value);
        let at = rest.index_of((key, value));
        assert(result[at + 1] == rest[at]);
        assert forall|i: int| 0 <= i < entries.len() implies result.contains(
            #[trigger] entries[i],
        ) by {
            if i == 0 {
                assert(result[0] == entries[0]);
            } else {
                assert(rest.contains(tail[i - 1]));
                let k = rest.index_of(tail[i - 1]);
                assert(result[k + 1] == rest[k]);
            }
        }
    }
}

/// A server in a container has its home directory there unless another one was
/// chosen for it.
pub proof fn home_is_given(server: ServerView)
    requires
        entry_of(server.runtime.docker.environment, "HOME"@) is None,
    ensures
        environment_of(server).contains("HOME=/home/remiaft"@),
        forall|i: int|
            0 <= i < server.runtime.docker.environment.len() ==> environment_of(server).contains(
                (#[trigger] server.runtime.docker.environment[i]).0 + seq!['=']
                    + server.runtime.docker.environment[i].1,
            ),
{
    let own = server.runtime.docker.environment;
    let full = with_entry(own, "HOME"@, "/home/remiaft"@);
    let made = environment_of(server);
    reveal_strlit("=");
    assert("="@ =~= seq!['=']);
    reveal_strlit("HOME");
    reveal_strlit("/home/remiaft");
    reveal_strlit("HOME=/home/remiaft");
    assert("HOME=/home/remiaft"@ =~= "HOME"@ + "="@ + "/home/remiaft"@);
    lemma_absent_entry_is_added(own, "HOME"@, "/home/remiaft"@);
    let at = full.index_of(("HOME"@, "/home/remiaft"@));
    assert(made[at] == "HOME"@ + "="@ + "/home/remiaft"@);
    assert forall|i: int| 0 <= i < own.len() implies made.contains(
        (#[trigger] own[i]).0 + seq!['='] + own[i].1,
    ) by {
        assert(full.contains(own[i]));
        let k = full.index_of(own[i]);
        assert(made[k] == own[i].0 + "="@ + own[i].1);
    }
}

/// Whether a walk from the root ends where the machine keeps what no server may
/// touch: the root itself, `/etc`, `/root`, `/proc`, `/sys`, `/dev` and what lies
/// in them, and the socket of Docker.
pub open spec fn is_off_limits(parts: Seq<Seq<char>>) -> bool {
    ||| parts.len() == 0
    ||| parts[0] == "etc"@
    ||| parts[0] == "root"@
    ||| parts[0] == "proc"@
    ||| parts[0] == "sys"@
    ||| parts[0] == "dev"@
    ||| parts.len() >= 2 && parts[0] == "run"@ && parts[1] == "docker.sock"@
    ||| parts.len() >= 3 && parts[0] == "var"@ && parts[1] == "run"@ && parts[2] == "docker.sock"@
}

proof fn lemma_off_limits(parts: Seq<Seq<char>>)
    ensures
        is_sensitive(parts) == is_off_limits(parts),
{
    lemma_starts_with_one(parts, "etc"@);
    lemma_starts_with_one(parts, "root"@);
    lemma_starts_with_one(parts, "proc"@);
    lemma_starts_with_one(parts, "sys"@);
    lemma_starts_with_one(parts, "dev"@);
    let two = seq!["run"@, "docker.sock"@];
    let three = seq!["var"@, "run"@, "docker.sock"@];
    if parts.len() >= 2 {
        let head = parts.subrange(0, 2);
        assert(head[0] == parts[0] && head[1] == parts[1]);
        assert(two[0] == "run"@ && two[1] == "docker.sock"@);
        if parts[0] == "run"@ && parts[1] == "docker.sock"@ {
            assert(head =~= two);
        }
    }
    if parts.len() >= 3 {
        let head = parts.subrange(0, 3);
        assert(head[0] == parts[0] && head[1] == parts[1] && head[2] == parts[2]);
        assert(three[0] == "var"@ && three[1] == "run"@ && three[2] == "docker.sock"@);
        if parts[0] == "var"@ && parts[1] == "run"@ && parts[2] == "docker.sock"@ {
            assert(head =~= three);
        }
    }
}

proof fn lemma_starts_with_one(parts: Seq<Seq<char>>, name: Seq<char>)
    ensures
        lies_under(parts, seq![name]) == (parts.len() > 0 && parts[0] == name),
{
    let one = seq![name];
    assert(one[0] == name);
    if parts.len() >= 1 {
        let head = parts.subrange(0, 1);
        assert(head[0] == parts[0]);
        if parts[0] == name {
            assert(head =~= one);
        }
    }
}

/// A mount is allowed exactly where neither its place on the machine, nor what
/// that place is a link to, nor its place in the container is off limits.
pub proof fn mounts_off_limits_are_refused(
    place: Seq<char>,
    container: Seq<char>,
    label: Seq<char>,
    host: HostView,
)
    requires
        host.platform == Platform::Unix,
        absolute(place),
        absolute(trimmed(container)),
    ensures
        ({
            let link = entry_of(host.resolved, clean_path(place));
            bind_failure(place, container, label, host) is None <==> !is_off_limits(
                walked(parts_of(place)),
            ) && !is_off_limits(walked(parts_of(trimmed(container)))) && (link matches Some(target)
                ==> absolute(target) && !is_off_limits(walked(parts_of(target))))
        }),
{
    danger_cannot_hide(place);
    danger_cannot_hide(trimmed(container));
    lemma_off_limits(walked(parts_of(place)));
    lemma_off_limits(walked(parts_of(trimmed(container))));
    if let Some(target) = entry_of(host.resolved, clean_path(place)) {
        danger_cannot_hide(target);
        lemma_off_limits(walked(parts_of(target)));
    }
}

/// A relative place in the container is refused, and a relative one on the
/// machine is seen from the directory that the program runs in.
pub proof fn relative_mounts(
    place: Seq<char>,
    container: Seq<char>,
    label: Seq<char>,
    host: HostView,
    dir: Seq<char>,
)
    requires
        host.platform == Platform::Unix,
    ensures
        !absolute(trimmed(container)) ==> bind_failure(place, container, label, host) is Some,
        !absolute(place) && host.current_dir is Err ==> bind_failure(place, container, label, host)
            is Some,
        !absolute(place) && host.current_dir == Ok::<Seq<char>, Seq<char>>(dir) && absolute(dir)
            && dir.last() != '/' ==> bind_failure(place, container, label, host) == bind_failure(
            dir + seq!['/'] + place,
            container,
            label,
            host,
        ),
{
    if absolute(dir) {
        paths_are_seen_from_a_base(dir, place);
        assert((dir + seq!['/'] + place)[0] == '/');
    }
}

proof fn lemma_volumes_failure(volumes: Seq<VolumeView>, upto: int, host: HostView)
    requires
        0 <= upto <= volumes.len(),
    ensures
        volumes_failure(volumes, upto, host) is None <==> forall|i: int|
            0 <= i < upto ==> bind_failure(
                (#[trigger] volumes[i]).host,
                volumes[i].container,
                "custom volume bind mount"@,
                host,
            ) is None,
    decreases upto,
{
    if upto > 0 {
        lemma_volumes_failure(volumes, upto - 1, host);
        let _ = volumes[upto - 1];
    }
}

/// A server may run in a container exactly where it does not join the network of
/// the machine, its directory may be mounted, where it is, and each of its
/// volumes may be.
pub proof fn safe_servers_are_allowed(server: ServerView, host: HostView)
    ensures
        ({
            let docker = server.runtime.docker;
            security_failure(server, host) is None <==> {
                &&& lowered(trimmed(network_of(server))) != lowered("host"@)
                &&& docker.mount_server_directory ==> bind_failure(
                    server.directory,
                    docker.server_dir,
                    "server directory bind mount"@,
                    host,
                ) is None
                &&& forall|i: int|
                    0 <= i < docker.volumes.len() ==> bind_failure(
                        (#[trigger] docker.volumes[i]).host,
                        docker.volumes[i].container,
                        "custom volume bind mount"@,
                        host,
                    ) is None
            }
        }),
{
    let docker = server.runtime.docker;
    lemma_volumes_failure(docker.volumes, docker.volumes.len() as int, host);
}

/// A container runs as the user of its image, as the user that was chosen, as
/// the machine's user, or, where that is left open, as the machine's user exactly
/// where something of the machine is mounted.
pub proof fn user_is_chosen(server: ServerView, host_user: Seq<char>, uid: u32, gid: u32)
    ensures
        ({
            let docker = server.runtime.docker;
            let user = user_of(server, host_user);
            &&& docker.user.mode == DockerUserMode::Image ==> user == Ok::<
                Option<Seq<char>>,
                Seq<char>,
            >(None)
            &&& docker.user.mode == DockerUserMode::Host ==> user == Ok::<
                Option<Seq<char>>,
                Seq<char>,
            >(Some(host_user))
            &&& docker.user.mode == DockerUserMode::Custom && docker.user.uid == Some(uid)
                && docker.user.gid == Some(gid) ==> user == Ok::<Option<Seq<char>>, Seq<char>>(
                Some(decimal(uid as nat) + seq![':'] + decimal(gid as nat)),
            )
            &&& docker.user.mode == DockerUserMode::Custom && (docker.user.uid is None
                || docker.user.gid is None) ==> user is Err
            &&& docker.user.mode == DockerUserMode::Auto ==> user == Ok::<
                Option<Seq<char>>,
                Seq<char>,
            >(
                if docker.mount_server_directory || docker.volumes.len() > 0 {
                    Some(host_user)
                } else {
                    None
                },
            )
        }),
{
    reveal_strlit(":");
    assert(":"@ =~= seq![':']);
}

/// The network and the name of a container are those that were chosen, without
/// the white space around them; else the network is the program's own, and the
/// name tells the program, the server's name and the end of its identifier.
pub proof fn chosen_names_are_used(server: ServerView, chosen: Seq<char>, front: Seq<char>, end: Seq<char>)
    requires
        !end.contains('-'),
    ensures
        server.runtime.docker.network == Some(chosen) && trimmed(chosen).len() > 0 ==> network_of(
            server,
        ) == trimmed(chosen),
        server.runtime.docker.network is None ==> network_of(server) == "remiaft"@,
        server.runtime.docker.container_name == Some(chosen) && trimmed(chosen).len() > 0
            ==> container_name_of(server) == trimmed(chosen),
        server.runtime.docker.container_name is None && server.id == front + seq!['-'] + end
            ==> container_name_of(server) == "remiaft-"@ + slug_of(server.name) + seq!['-'] + end,
        server.runtime.docker.working_dir is None ==> working_dir_of(server)
            == server.runtime.docker.server_dir,
        server.runtime.docker.working_dir == Some(chosen) ==> working_dir_of(server) == chosen,
{
    reveal_strlit("-");
    assert("-"@ =~= seq!['-']);
    if server.id == front + seq!['-'] + end {
        lemma_pieces_append(front, end, '-');
    }
}

} // verus!
