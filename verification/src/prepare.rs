//! Completing the settings of a server before its container is made.

use vstd::prelude::*;

use crate::collections::{first_where, lemma_first_where, lemma_is_absent, lemma_is_first};
use crate::config::{
    port_views, DockerPortMapping, DockerProtocol, DockerServerConfig, DockerView, PortView,
    RconMode, RconView, RuntimeView, ServerConfig, ServerView,
};
use crate::docker::DEFAULT_GAME_PORT;
use crate::failure::{failed, Failure};
use crate::numbers::{decimal, decimal_text};
use crate::text::{glue, glue3};

verus! {

/// The first TCP mapping of a port of the container.
pub open spec fn tcp_mapping(ports: Seq<PortView>, container_port: u16) -> Option<int> {
    first_where(
        ports,
        |port: PortView| port.container_port == container_port && port.protocol == DockerProtocol::Tcp,
    )
}

fn find_tcp_mapping(ports: &Vec<DockerPortMapping>, container_port: u16) -> (r: Option<usize>)
    ensures
        match r {
            Some(i) => i < ports@.len() && tcp_mapping(port_views(ports@), container_port) == Some(
                i as int,
            ),
            None => tcp_mapping(port_views(ports@), container_port) == None::<int>,
        },
{
    let ghost all = port_views(ports@);
    let ghost cond = |port: PortView|
        port.container_port == container_port && port.protocol == DockerProtocol::Tcp;
    let mut i: usize = 0;
    while i < ports.len()
        invariant
            i <= ports@.len(),
            all == port_views(ports@),
            cond == (|port: PortView|
                port.container_port == container_port && port.protocol == DockerProtocol::Tcp),
            forall|k: int| 0 <= k < i ==> !cond(#[trigger] all[k]),
        decreases ports@.len() - i,
    {
        assert(all[i as int] == ports@[i as int]@);
        if ports[i].container_port == container_port && ports[i].protocol == DockerProtocol::Tcp {
            proof {
                lemma_is_first(all, cond, i as int);
            }
            return Some(i);
        }
        i = i + 1;
    }
    proof {
        lemma_is_absent(all, cond);
    }
    None
}

/// The host port of the first TCP mapping of a port of the container.
pub open spec fn mapped_port(docker: DockerView, container_port: u16) -> Option<u16> {
    match tcp_mapping(docker.ports, container_port) {
        Some(i) => docker.ports[i].host_port,
        None => None,
    }
}

/// The host port of the first TCP mapping of a port of the container.
pub fn find_existing_port_mapping(docker: &DockerServerConfig, container_port: u16) -> (r: Option<
    u16,
>)
    ensures
        r == mapped_port(docker@, container_port),
{
    match find_tcp_mapping(&docker.ports, container_port) {
        Some(i) => {
            assert(docker@.ports[i as int] == docker.ports@[i as int]@);
            docker.ports[i].host_port
        },
        None => None,
    }
}

/// The settings with the game's port among the mappings.
pub open spec fn with_game_port(docker: DockerView) -> DockerView {
    if tcp_mapping(docker.ports, DEFAULT_GAME_PORT) is Some {
        docker
    } else {
        DockerView {
            ports: docker.ports.push(
                PortView {
                    name: Some("minecraft"@),
                    container_port: DEFAULT_GAME_PORT,
                    host_port: None,
                    host_ip: None,
                    protocol: DockerProtocol::Tcp,
                },
            ),
            ..docker
        }
    }
}

/// The settings with a password for a remote console that is set up
/// automatically.
pub open spec fn with_password(docker: DockerView, secret: Seq<char>) -> DockerView {
    if docker.rcon.mode == RconMode::Auto && docker.rcon.password is None {
        DockerView {
            rcon: RconView { password: Some("remiaft-"@ + secret), ..docker.rcon },
            ..docker
        }
    } else {
        docker
    }
}

/// The mapping with what it lacks of host port, address and name.
pub open spec fn completed_mapping(port: PortView, host_port: u16, host: Seq<char>) -> PortView {
    PortView {
        host_port: if port.host_port is Some {
            port.host_port
        } else {
            Some(host_port)
        },
        host_ip: if port.host_ip is Some {
            port.host_ip
        } else {
            Some(host)
        },
        name: if port.name is Some {
            port.name
        } else {
            Some("rcon"@)
        },
        ..port
    }
}

/// The settings with the remote console's port among the mappings.
pub open spec fn with_rcon_mapping(docker: DockerView, host_port: u16) -> DockerView {
    match tcp_mapping(docker.ports, docker.rcon.container_port) {
        Some(i) => DockerView {
            ports: docker.ports.update(
                i,
                completed_mapping(docker.ports[i], host_port, docker.rcon.host),
            ),
            ..docker
        },
        None => DockerView {
            ports: docker.ports.push(
                PortView {
                    name: Some("rcon"@),
                    container_port: docker.rcon.container_port,
                    host_port: Some(host_port),
                    host_ip: Some(docker.rcon.host),
                    protocol: DockerProtocol::Tcp,
                },
            ),
            ..docker
        },
    }
}

/// Makes sure that the remote console's port is mapped.
pub fn ensure_rcon_port_mapping(docker: &mut DockerServerConfig, host_port: u16)
    ensures
        final(docker)@ == with_rcon_mapping(old(docker)@, host_port),
{
    let ghost before = docker@;
    let container_port: u16 = docker.rcon.container_port;
    match find_tcp_mapping(&docker.ports, container_port) {
        Some(i) => {
            let mut port = docker.ports[i].clone();
            assert(before.ports[i as int] == port@);
            if port.host_port.is_none() {
                port.host_port = Some(host_port);
            }
            if port.host_ip.is_none() {
                port.host_ip = Some(docker.rcon.host.clone());
            }
            if port.name.is_none() {
                port.name = Some("rcon".to_owned());
            }
            docker.ports.set(i, port);
            assert(docker@.ports =~= before.ports.update(i as int, port@));
        },
        None => {
            let mut port = DockerPortMapping::tcp("rcon".to_owned(), container_port, Some(host_port));
            port.host_ip = Some(docker.rcon.host.clone());
            docker.ports.push(port);
            assert(docker@.ports =~= before.ports.push(port@));
        },
    }
}

/// Whether a free port of the host has to be found for the remote console.
pub open spec fn wants_port(docker: DockerView) -> bool {
    docker.rcon.mode == RconMode::Auto && docker.rcon.host_port is None && mapped_port(
        docker,
        docker.rcon.container_port,
    ) is None
}

/// Whether a free port of the host has to be found for the remote console.
pub fn needs_free_port(server: &ServerConfig) -> (r: bool)
    ensures
        r == wants_port(server@.runtime.docker),
{
    let docker = &server.runtime.docker;
    docker.rcon.mode == RconMode::Auto && docker.rcon.host_port.is_none()
        && find_existing_port_mapping(docker, docker.rcon.container_port).is_none()
}

/// What is said where no port is free.
pub open spec fn no_port_message(start: u16, end: u16) -> Seq<char> {
    "no free RCON port in range "@ + decimal(start as nat) + "-"@ + decimal(end as nat)
}

/// The completed settings, and what went wrong, if anything did. `secret` is
/// fresh random text, and `free` a free port of the host, if one was found.
pub open spec fn prepared(docker: DockerView, secret: Seq<char>, free: Option<u16>) -> (
    DockerView,
    Option<Seq<char>>,
) {
    let ready = with_password(with_game_port(docker), secret);
    if ready.rcon.mode == RconMode::Disabled {
        (ready, None)
    } else {
        let known = if ready.rcon.host_port is Some {
            ready.rcon.host_port
        } else {
            mapped_port(ready, ready.rcon.container_port)
        };
        let port = if known is Some {
            known
        } else if ready.rcon.mode == RconMode::Auto {
            free
        } else {
            None
        };
        match port {
            Some(port) => (
                with_rcon_mapping(
                    DockerView {
                        rcon: RconView { host_port: Some(port), ..ready.rcon },
                        ..ready
                    },
                    port,
                ),
                None,
            ),
            None => if ready.rcon.mode == RconMode::Auto {
                (
                    ready,
                    Some(no_port_message(ready.rcon.port_range_start, ready.rcon.port_range_end)),
                )
            } else {
                (ready, None)
            },
        }
    }
}

/// Completes the settings with the given random text and free port.
pub fn prepare_server_with(server: &mut ServerConfig, secret: &str, free: Option<u16>) -> (r: Result<
    (),
    Failure,
>)
    ensures
        ({
            let (docker, problem) = prepared(old(server)@.runtime.docker, secret@, free);
            &&& failed(r) == problem
            &&& final(server)@ == (ServerView {
                runtime: RuntimeView { docker, ..old(server)@.runtime },
                ..old(server)@
            })
        }),
{
    let ghost before = server@.runtime.docker;
    if find_tcp_mapping(&server.runtime.docker.ports, DEFAULT_GAME_PORT).is_none() {
        let port = DockerPortMapping::tcp("minecraft".to_owned(), DEFAULT_GAME_PORT, None);
        server.runtime.docker.ports.push(port);
        assert(server@.runtime.docker.ports =~= before.ports.push(port@));
    }
    assert(server@.runtime.docker =~= with_game_port(before));
    if server.runtime.docker.rcon.mode == RconMode::Auto
        && server.runtime.docker.rcon.password.is_none() {
        server.runtime.docker.rcon.password = Some(glue("remiaft-", secret));
    }
    let ghost ready = with_password(with_game_port(before), secret@);
    assert(server@.runtime.docker =~= ready);
    if server.runtime.docker.rcon.mode == RconMode::Disabled {
        return Ok(());
    }
    let known = match server.runtime.docker.rcon.host_port {
        Some(port) => Some(port),
        None => find_existing_port_mapping(
            &server.runtime.docker,
            server.runtime.docker.rcon.container_port,
        ),
    };
    let auto = server.runtime.docker.rcon.mode == RconMode::Auto;
    let port: u16 = match known {
        Some(port) => port,
        None => {
            if !auto {
                return Ok(());
            }
            match free {
                Some(port) => port,
                None => {
                    let start = decimal_text(server.runtime.docker.rcon.port_range_start as u64);
                    let end = decimal_text(server.runtime.docker.rcon.port_range_end as u64);
                    let mut message = glue3("no free RCON port in range ", start.as_str(), "-");
                    message.append(end.as_str());
                    return Err(Failure { message });
                },
            }
        },
    };
    server.runtime.docker.rcon.host_port = Some(port);
    ensure_rcon_port_mapping(&mut server.runtime.docker, port);
    Ok(())
}

/// Thirty-two lower-case hexadecimal digits.
pub open spec fn is_secret(s: Seq<char>) -> bool {
    s.len() == 32 && forall|i: int|
        0 <= i < 32 ==> ('0' <= #[trigger] s[i] <= '9' || 'a' <= s[i] <= 'f')
}

/// `uuid::Uuid::new_v4` makes a random identifier, which `simple` writes as
/// thirty-two lower-case hexadecimal digits. Which ones they are is left to
/// chance.
#[verifier::external_body]
fn new_secret() -> (r: String)
    ensures
        is_secret(r@),
{
    uuid::Uuid::new_v4().simple().to_string()
}

/// Completes the settings with a new password, where one is wanted, and the
/// given free port, where one is wanted.
pub fn prepare_server(server: &mut ServerConfig, free: Option<u16>) -> (r: Result<(), Failure>)
    ensures
        exists|secret: Seq<char>|
            is_secret(secret) && ({
                let (docker, problem) = #[trigger] prepared(
                    old(server)@.runtime.docker,
                    secret,
                    free,
                );
                &&& failed(r) == problem
                &&& final(server)@ == (ServerView {
                    runtime: RuntimeView { docker, ..old(server)@.runtime },
                    ..old(server)@
                })
            }),
{
    let secret = new_secret();
    prepare_server_with(server, secret.as_str(), free)
}

/// Settings that have been completed stay as they are from then on.
pub proof fn preparing_once_suffices(
    docker: DockerView,
    secret: Seq<char>,
    free: Option<u16>,
    other_secret: Seq<char>,
    other_free: Option<u16>,
)
    requires
        prepared(docker, secret, free).1 is None,
    ensures
        prepared(prepared(docker, secret, free).0, other_secret, other_free) == prepared(
            docker,
            secret,
            free,
        ),
{
    let game = |port: PortView|
        port.container_port == DEFAULT_GAME_PORT && port.protocol == DockerProtocol::Tcp;
    let ready = with_password(with_game_port(docker), secret);
    let done = prepared(docker, secret, free).0;
    let number = ready.rcon.container_port;
    let rcon = |port: PortView|
        port.container_port == number && port.protocol == DockerProtocol::Tcp;
    lemma_first_where(docker.ports, game);
    lemma_first_where(ready.ports, rcon);
    lemma_first_where(ready.ports, game);
    lemma_first_where(done.ports, game);
    lemma_first_where(done.ports, rcon);
    if tcp_mapping(docker.ports, DEFAULT_GAME_PORT) is None {
        let last = docker.ports.len() as int;
        assert(game(ready.ports[last]));
    }
    assert(tcp_mapping(ready.ports, DEFAULT_GAME_PORT) is Some);
    let at = tcp_mapping(ready.ports, DEFAULT_GAME_PORT)->0;
    assert(game(done.ports[at]));
    assert(tcp_mapping(done.ports, DEFAULT_GAME_PORT) is Some);
    assert(with_password(with_game_port(done), other_secret) == done);
    if done.rcon.mode != RconMode::Disabled && done.rcon.host_port is Some {
        let port = done.rcon.host_port->0;
        let i = match tcp_mapping(ready.ports, number) {
            Some(i) => i,
            None => ready.ports.len() as int,
        };
        assert forall|k: int| 0 <= k < i implies !rcon(#[trigger] done.ports[k]) by {
            assert(done.ports[k] == ready.ports[k]);
        }
        assert(rcon(done.ports[i]));
        lemma_is_first(done.ports, rcon, i);
        assert(completed_mapping(done.ports[i], port, done.rcon.host) == done.ports[i]);
        assert(done.ports.update(i, done.ports[i]) =~= done.ports);
        assert(with_rcon_mapping(done, port) == done);
    } else if done.rcon.mode != RconMode::Disabled {
        assert(done == ready);
    }
}

/// The next port to try from `from` on: the first one up to `end` that is not
/// reserved.
pub open spec fn port_from(from: int, end: u16, reserved: Seq<u16>) -> Option<u16>
    decreases end + 1 - from,
{
    if from > end {
        None
    } else if reserved.contains(from as u16) {
        port_from(from + 1, end, reserved)
    } else {
        Some(from as u16)
    }
}

/// The next port to try from `from` on: the first one up to `end` that is not
/// reserved.
pub fn next_port(from: u32, end: u16, reserved: &[u16]) -> (r: Option<u16>)
    ensures
        r == port_from(from as int, end, reserved@),
        match r {
            Some(port) => from <= port <= end && !reserved@.contains(port) && forall|p: u16|
                from <= p < port ==> #[trigger] reserved@.contains(p),
            None => forall|p: u16| from <= p <= end ==> #[trigger] reserved@.contains(p),
        },
{
    let mut port: u32 = from;
    while port <= end as u32
        invariant
            from <= port,
            forall|p: u16| from <= p < port && p <= end ==> #[trigger] reserved@.contains(p),
            port_from(from as int, end, reserved@) == port_from(port as int, end, reserved@),
        decreases end as int + 1 - port,
    {
        let candidate: u16 = port as u16;
        if !is_reserved(reserved, candidate) {
            return Some(candidate);
        }
        assert(candidate == port);
        port = port + 1;
    }
    None
}

/// The port that is found where the next port to try is asked for again behind
/// each one that is not free.
pub open spec fn allocated_port(
    from: int,
    end: u16,
    reserved: Seq<u16>,
    free: spec_fn(u16) -> bool,
) -> Option<u16>
    decreases end + 1 - from,
{
    match port_from(from, end, reserved) {
        None => None,
        Some(port) => if free(port) {
            Some(port)
        } else if from <= port <= end {
            allocated_port(port + 1, end, reserved, free)
        } else {
            None
        },
    }
}

proof fn lemma_port_from(from: int, end: u16, reserved: Seq<u16>)
    requires
        0 <= from,
    ensures
        match port_from(from, end, reserved) {
            Some(port) => from <= port <= end && !reserved.contains(port) && forall|p: u16|
                from <= p < port ==> #[trigger] reserved.contains(p),
            None => forall|p: u16| from <= p <= end ==> #[trigger] reserved.contains(p),
        },
    decreases end + 1 - from,
{
    if from <= end && reserved.contains(from as u16) {
        lemma_port_from(from + 1, end, reserved);
        assert forall|p: u16| from <= p < from + 1 implies #[trigger] reserved.contains(p) by {
            assert(p == from as u16);
        }
    }
}

/// The port that is found is the lowest one of the range that is neither
/// reserved nor in use. None is found only where there is none.
pub proof fn lowest_free_port_is_found(
    from: int,
    end: u16,
    reserved: Seq<u16>,
    free: spec_fn(u16) -> bool,
)
    requires
        0 <= from,
    ensures
        match allocated_port(from, end, reserved, free) {
            Some(port) => {
                &&& from <= port <= end && !reserved.contains(port) && free(port)
                &&& forall|p: u16| from <= p < port ==> #[trigger] reserved.contains(p) || !free(p)
            },
            None => forall|p: u16| from <= p <= end ==> #[trigger] reserved.contains(p) || !free(p),
        },
    decreases end + 1 - from,
{
    lemma_port_from(from, end, reserved);
    if let Some(port) = port_from(from, end, reserved) {
        if !free(port) {
            lowest_free_port_is_found(port + 1, end, reserved, free);
        }
    }
}

fn is_reserved(reserved: &[u16], port: u16) -> (r: bool)
    ensures
        r == reserved@.contains(port),
{
    let mut i: usize = 0;
    while i < reserved.len()
        invariant
            i <= reserved@.len(),
            forall|k: int| 0 <= k < i ==> reserved@[k] != port,
        decreases reserved@.len() - i,
    {
        if reserved[i] == port {
            return true;
        }
        i = i + 1;
    }
    false
}

/// Players can reach a prepared server: a mapping of the game's port stands among
/// the ports, those that were chosen are kept before it, and one that is added
/// leaves the machine's port open.
pub proof fn game_port_is_mapped(docker: DockerView)
    ensures
        ({
            let after = with_game_port(docker);
            let n = docker.ports.len() as int;
            &&& exists|i: int|
                0 <= i < after.ports.len() && (#[trigger] after.ports[i]).container_port == 25565
                    && after.ports[i].protocol == DockerProtocol::Tcp
            &&& after.ports.len() == n || after.ports.len() == n + 1
            &&& after.ports.take(n) == docker.ports
            &&& after.ports.len() == n + 1 ==> after.ports[n].host_port is None && after.ports[n].host_ip
                is None && after.ports[n].container_port == 25565
            &&& after.rcon == docker.rcon
            &&& after.volumes == docker.volumes
            &&& after.image == docker.image
        }),
{
    let game = |port: PortView|
        port.container_port == DEFAULT_GAME_PORT && port.protocol == DockerProtocol::Tcp;
    lemma_first_where(docker.ports, game);
    let after = with_game_port(docker);
    let n = docker.ports.len() as int;
    match tcp_mapping(docker.ports, DEFAULT_GAME_PORT) {
        Some(i) => {
            assert(after.ports[i].container_port == 25565);
        },
        None => {
            assert(after.ports[n].container_port == 25565);
        },
    }
    assert(after.ports.take(n) =~= docker.ports);
}

/// A password is made up only where the console is set up by itself and none was
/// chosen.
pub proof fn chosen_password_is_kept(docker: DockerView, secret: Seq<char>)
    ensures
        with_password(docker, secret).ports == docker.ports,
        with_password(docker, secret).rcon.password == if docker.rcon.mode == RconMode::Auto
            && docker.rcon.password is None {
            Some("remiaft-"@ + secret)
        } else {
            docker.rcon.password
        },
        with_password(docker, secret).rcon.mode == docker.rcon.mode,
        with_password(docker, secret).rcon.host_port == docker.rcon.host_port,
        with_password(docker, secret).rcon.container_port == docker.rcon.container_port,
{
}

/// The console of a prepared server is reached at the port that was chosen for
/// it, else at the one that its mapping has, else at a free one where it is set
/// up by itself; that port is then mapped to the console's. One that is switched
/// off is not mapped.
pub proof fn console_port_is_settled(
    docker: DockerView,
    secret: Seq<char>,
    free: Option<u16>,
    port: u16,
)
    requires
        docker.rcon.container_port != 25565,
    ensures
        ({
            let (after, failure) = prepared(docker, secret, free);
            let mapped = mapped_port(docker, docker.rcon.container_port);
            &&& docker.rcon.mode == RconMode::Disabled ==> failure is None && after.rcon == docker.rcon
                && after.ports == with_game_port(docker).ports
            &&& docker.rcon.mode != RconMode::Disabled && docker.rcon.host_port == Some(port)
                ==> failure is None && after.rcon.host_port == Some(port)
            &&& docker.rcon.mode != RconMode::Disabled && docker.rcon.host_port is None && mapped
                == Some(port) ==> failure is None && after.rcon.host_port == Some(port)
            &&& docker.rcon.mode == RconMode::Auto && docker.rcon.host_port is None && mapped is None
                && free == Some(port) ==> failure is None && after.rcon.host_port == Some(port)
            &&& docker.rcon.mode == RconMode::Auto && docker.rcon.host_port is None && mapped is None
                && free is None ==> failure is Some
            &&& docker.rcon.mode == RconMode::Manual ==> failure is None
            &&& docker.rcon.mode == RconMode::Manual && docker.rcon.host_port is None && mapped
                is None ==> after.rcon == docker.rcon && after.ports == with_game_port(docker).ports
            &&& docker.rcon.mode != RconMode::Disabled && after.rcon.host_port is Some
                ==> exists|i: int|
                0 <= i < after.ports.len() && (#[trigger] after.ports[i]).container_port
                    == docker.rcon.container_port && after.ports[i].protocol == DockerProtocol::Tcp
                    && after.ports[i].host_port is Some && after.ports[i].host_ip is Some && (mapped
                    is None ==> after.ports[i].host_port == after.rcon.host_port)
        }),
{
    let cport = docker.rcon.container_port;
    let own = |port: PortView| port.container_port == cport && port.protocol == DockerProtocol::Tcp;
    let game = with_game_port(docker);
    let (after, failure) = prepared(docker, secret, free);
    lemma_first_where(docker.ports, own);
    lemma_first_where(game.ports, own);
    assert(tcp_mapping(game.ports, cport) == tcp_mapping(docker.ports, cport)) by {
        match tcp_mapping(docker.ports, cport) {
            Some(i) => {
                assert(game.ports[i] == docker.ports[i]);
                assert forall|k: int| 0 <= k < i implies !own(#[trigger] game.ports[k]) by {
                    assert(!own(docker.ports[k]));
                }
                lemma_is_first(game.ports, own, i);
            },
            None => {
                assert forall|k: int| 0 <= k < game.ports.len() implies !own(
                    #[trigger] game.ports[k],
                ) by {
                    if k < docker.ports.len() {
                        assert(!own(docker.ports[k]));
                    }
                }
                lemma_is_absent(game.ports, own);
            },
        }
    }
    if after.rcon.host_port is Some && docker.rcon.mode != RconMode::Disabled {
        match tcp_mapping(game.ports, cport) {
            Some(i) => {
                assert(after.ports[i].container_port == cport);
            },
            None => {
                assert(after.ports[game.ports.len() as int].container_port == cport);
            },
        }
    }
}

/// A console that is mapped anew is reached at its own address alone.
pub proof fn console_is_mapped_to_its_address(docker: DockerView, host_port: u16)
    requires
        tcp_mapping(docker.ports, docker.rcon.container_port) is None,
    ensures
        ({
            let after = with_rcon_mapping(docker, host_port);
            let n = docker.ports.len() as int;
            &&& after.ports.len() == n + 1
            &&& after.ports.take(n) == docker.ports
            &&& after.ports[n].container_port == docker.rcon.container_port
            &&& after.ports[n].host_port == Some(host_port)
            &&& after.ports[n].host_ip == Some(docker.rcon.host)
            &&& after.ports[n].protocol == DockerProtocol::Tcp
        }),
{
    let after = with_rcon_mapping(docker, host_port);
    assert(after.ports.take(docker.ports.len() as int) =~= docker.ports);
}

/// Where no port is free, the range that was looked through is told.
pub proof fn missing_port_is_told(docker: DockerView, secret: Seq<char>)
    requires
        docker.rcon.mode == RconMode::Auto,
        docker.rcon.host_port is None,
        mapped_port(with_game_port(docker), docker.rcon.container_port) is None,
    ensures
        prepared(docker, secret, None).1 == Some(
            "no free RCON port in range "@ + decimal(docker.rcon.port_range_start as nat) + "-"@
                + decimal(docker.rcon.port_range_end as nat),
        ),
{
}

} // verus!
