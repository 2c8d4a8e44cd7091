//! Asking about a server's container, and starting it step by step. Each step
//! says what to do next; the outcome is handed to the step after it.

use vstd::prelude::*;
use vstd::utf8::encode_utf8;

use crate::config::{copy_range, DockerImagePolicy, RconMode, ServerConfig, ServerView};
use crate::container::{
    config_hash_of, container_config_hash, container_failure, container_settings,
    create_container, create_network,
    create_request, ensure_manageable_container, is_manageable, is_manageable_container,
    manage_failure, network_settings, plain_log, decode_docker_log, validate_container_security,
    ContainerInspect, InspectView,
};
use crate::docker::{
    container_name, container_name_of, network_name, network_of, security_failure,
    user_of, validate_server_security, HostPaths, HostView, RuntimeStatus,
};
use crate::docker_api::{
    bare_request, encode_path, failure_of, image_path, percent_encoded, pull_path, ApiErrorView,
    DockerApiError, DockerClient, DockerRequest, DockerResponse, RequestView, ResponseView,
};
use crate::failure::{failed, Failure};
use crate::json::json_encoding;
use crate::numbers::decimal;
use crate::platform::Platform;
use crate::text::{
    glue, glue3, is_blank, is_white, lines, lines_of, lowered, opt_text, same_ignoring_case, same_text, texts,
    trim, trim_end, trimmed, trimmed_end, trimming_takes_white_space_off,
};

verus! {

/// The path of a container, followed by more.
pub open spec fn container_path(name: Seq<char>, more: Seq<char>) -> Seq<char> {
    "/containers/"@ + percent_encoded(encode_utf8(name), true) + more
}

fn container_path_text(name: &str, more: &str) -> (r: String)
    ensures
        r@ == container_path(name@, more@),
{
    let code = encode_path(name);
    glue3("/containers/", code.as_str(), more)
}

/// The request that asks about the server's container.
pub fn inspect_request(name: &str) -> (r: DockerRequest)
    ensures
        r@ == bare_request("GET"@, container_path(name@, "/json"@)),
{
    DockerRequest::bare("GET", container_path_text(name, "/json"))
}

/// The request for the last lines of the container's output.
pub fn logs_request(name: &str) -> (r: DockerRequest)
    ensures
        r@ == bare_request(
            "GET"@,
            container_path(name@, "/logs?stdout=1&stderr=1&tail=5000&timestamps=0"@),
        ),
{
    DockerRequest::bare(
        "GET",
        container_path_text(name, "/logs?stdout=1&stderr=1&tail=5000&timestamps=0"),
    )
}

/// The request that stops the container, by force after ten seconds.
pub fn stop_request(name: &str) -> (r: DockerRequest)
    ensures
        r@ == bare_request("POST"@, container_path(name@, "/stop?t=10"@)),
{
    DockerRequest::bare("POST", container_path_text(name, "/stop?t=10"))
}

fn api_failure(e: DockerApiError) -> (r: Failure)
    ensures
        r@ == e@.words(),
{
    Failure { message: e.message() }
}

/// What went wrong with a reply, in words, if anything did.
pub open spec fn reply_failure(response: ResponseView) -> Option<Seq<char>> {
    match failure_of(response) {
        Some(e) => Some(e.words()),
        None => None,
    }
}

fn check_reply(response: &DockerResponse) -> (r: Result<(), Failure>)
    ensures
        failed(r) == reply_failure(response@),
{
    match response.ensure_success() {
        Ok(()) => Ok(()),
        Err(e) => Err(api_failure(e)),
    }
}

/// The part of a reply about a container that describes it: nothing where
/// there is no such container.
pub fn inspect_body(response: &DockerResponse) -> (r: Result<Option<&[u8]>, Failure>)
    ensures
        match r {
            Ok(None) => response@.status == 404,
            Ok(Some(body)) => response@.status != 404 && reply_failure(response@) is None && body@
                == response@.body,
            Err(e) => response@.status != 404 && reply_failure(response@) == Some(e@),
        },
{
    if response.status == 404 {
        return Ok(None);
    }
    match check_reply(response) {
        Ok(()) => Ok(Some(response.body.as_slice())),
        Err(e) => Err(e),
    }
}

/// What to write into the log file after the engine was asked for the
/// container's output: nothing where there is no such container.
pub fn log_contents(response: &DockerResponse) -> (r: Result<Option<Vec<u8>>, Failure>)
    ensures
        match r {
            Ok(None) => response@.status == 404,
            Ok(Some(log)) => response@.status != 404 && reply_failure(response@) is None && log@
                == plain_log(response@.body),
            Err(e) => response@.status != 404 && reply_failure(response@) == Some(e@),
        },
{
    if response.status == 404 {
        return Ok(None);
    }
    match check_reply(response) {
        Ok(()) => Ok(Some(decode_docker_log(response.body.as_slice()))),
        Err(e) => Err(e),
    }
}

/// The request for the container's output, where there is a container. One
/// that was not made for the server is refused.
pub fn sync_logs(server: &ServerConfig, host: &HostPaths, container: &Option<ContainerInspect>) -> (r:
    Result<Option<DockerRequest>, Failure>)
    ensures
        match container {
            None => r matches Ok(None),
            Some(found) => match manage_failure(found@, server@, host@) {
                Some(problem) => r matches Err(e) && e@ == problem,
                None => r matches Ok(Some(request)) && request@ == bare_request(
                    "GET"@,
                    container_path(
                        container_name_of(server@),
                        "/logs?stdout=1&stderr=1&tail=5000&timestamps=0"@,
                    ),
                ),
            },
        },
{
    match container {
        None => Ok(None),
        Some(found) => match ensure_manageable_container(found, server, host) {
            Err(e) => Err(e),
            Ok(()) => {
                let name = container_name(server);
                Ok(Some(logs_request(name.as_str())))
            },
        },
    }
}

/// Whether the server's container runs. `found` is what the engine tells of
/// it, or nothing where the engine could not be asked.
pub open spec fn status_of(
    server: ServerView,
    host: HostView,
    found: Option<Option<InspectView>>,
) -> RuntimeStatus {
    if security_failure(server, host) is Some {
        RuntimeStatus::Stale
    } else {
        match found {
            Some(Some(container)) => if !is_manageable(container, server) || container_failure(
                container,
                server,
                host,
            ) is Some {
                RuntimeStatus::Stale
            } else if container.running {
                RuntimeStatus::Running
            } else {
                RuntimeStatus::Stopped
            },
            _ => RuntimeStatus::Stopped,
        }
    }
}

/// What the engine tells of a container.
pub open spec fn found_view(found: Option<Option<ContainerInspect>>) -> Option<Option<InspectView>> {
    match found {
        Some(Some(container)) => Some(Some(container@)),
        Some(None) => Some(None),
        None => None,
    }
}

/// Whether the server's container runs.
pub fn runtime_status(
    server: &ServerConfig,
    host: &HostPaths,
    found: &Option<Option<ContainerInspect>>,
) -> (r: RuntimeStatus)
    ensures
        r == status_of(server@, host@, found_view(*found)),
{
    if validate_server_security(server, host).is_err() {
        return RuntimeStatus::Stale;
    }
    match found {
        Some(Some(container)) => {
            if !is_manageable_container(container, server) {
                RuntimeStatus::Stale
            } else if validate_container_security(container, server, host).is_err() {
                RuntimeStatus::Stale
            } else if container.running() {
                RuntimeStatus::Running
            } else {
                RuntimeStatus::Stopped
            }
        },
        _ => RuntimeStatus::Stopped,
    }
}

/// Why the server's container cannot be used, if it cannot.
pub open spec fn existing_failure(
    server: ServerView,
    host: HostView,
    found: Option<InspectView>,
) -> Option<Seq<char>> {
    match security_failure(server, host) {
        Some(e) => Some(e),
        None => match found {
            None => Some("Docker container does not exist: "@ + container_name_of(server)),
            Some(container) => manage_failure(container, server, host),
        },
    }
}

/// Refuses a server without a container that was made for it.
pub fn ensure_existing_manageable_container(
    server: &ServerConfig,
    host: &HostPaths,
    found: &Option<ContainerInspect>,
) -> (r: Result<(), Failure>)
    ensures
        failed(r) == existing_failure(
            server@,
            host@,
            match found {
                Some(container) => Some(container@),
                None => None,
            },
        ),
{
    if let Err(e) = validate_server_security(server, host) {
        return Err(e);
    }
    match found {
        None => {
            let name = container_name(server);
            Err(Failure { message: glue("Docker container does not exist: ", name.as_str()) })
        },
        Some(container) => ensure_manageable_container(container, server, host),
    }
}

/// What is done about the remote console before a container is made.
#[derive(Debug)]
pub enum RconSetup {
    Skip,
    Note(String),
    Configure { container_port: u16, password: String },
}

#[verifier::ext_equal]
pub enum SetupView {
    Skip,
    Note(Seq<char>),
    Configure { container_port: u16, password: Seq<char> },
}

impl View for RconSetup {
    type V = SetupView;

    open spec fn view(&self) -> SetupView {
        match self {
            RconSetup::Skip => SetupView::Skip,
            RconSetup::Note(text) => SetupView::Note(text@),
            RconSetup::Configure { container_port, password } => SetupView::Configure {
                container_port: *container_port,
                password: password@,
            },
        }
    }
}

/// What is done about the remote console before a container is made.
pub open spec fn setup_of(server: ServerView) -> SetupView {
    let docker = server.runtime.docker;
    if docker.rcon.mode != RconMode::Auto {
        SetupView::Skip
    } else if !docker.mount_server_directory {
        SetupView::Note(
            "RCON auto configuration skipped: server directory is not bind-mounted\n"@,
        )
    } else {
        match docker.rcon.password {
            None => SetupView::Note("RCON auto configuration skipped: missing generated password\n"@),
            Some(password) => SetupView::Configure {
                container_port: docker.rcon.container_port,
                password,
            },
        }
    }
}

/// What is done about the remote console before a container is made.
pub fn configure_rcon_if_possible(server: &ServerConfig) -> (r: RconSetup)
    ensures
        r@ == setup_of(server@),
{
    let docker = &server.runtime.docker;
    if docker.rcon.mode != RconMode::Auto {
        return RconSetup::Skip;
    }
    if !docker.mount_server_directory {
        return RconSetup::Note(
            "RCON auto configuration skipped: server directory is not bind-mounted\n".to_owned(),
        );
    }
    match &docker.rcon.password {
        None => RconSetup::Note(
            "RCON auto configuration skipped: missing generated password\n".to_owned(),
        ),
        Some(password) => RconSetup::Configure {
            container_port: docker.rcon.container_port,
            password: password.clone(),
        },
    }
}

/// What is noted where the remote console could not be set up.
pub fn setup_failed_note(error: &str) -> (r: String)
    ensures
        r@ == "RCON auto configuration failed; configure manually: "@ + error@ + "\n"@,
{
    glue3("RCON auto configuration failed; configure manually: ", error, "\n")
}

/// Where the start of a server stands.
#[derive(Debug)]
pub enum StartState {
    Pinging,
    Inspecting,
    Removing,
    SettingUp,
    LookingForImage(usize),
    Pulling(usize),
    LookingForNetwork(usize),
    MakingNetwork(usize),
    Creating,
    Starting,
    Syncing,
    Finished,
}

/// What to do next.
#[derive(Debug)]
pub enum StartAction {
    /// Send a request, and hand back the reply.
    Send(DockerRequest),
    /// Send a request about a container, and hand back what it tells.
    Inspect(DockerRequest),
    /// Set the remote console up.
    SetUp(RconSetup),
    /// Bring the log file up to date.
    SyncLogs,
    /// Nothing: the server was started.
    Nothing,
}

#[verifier::ext_equal]
pub enum ActionView {
    Send(RequestView),
    Inspect(RequestView),
    SetUp(SetupView),
    SyncLogs,
    Nothing,
}

impl View for StartAction {
    type V = ActionView;

    open spec fn view(&self) -> ActionView {
        match self {
            StartAction::Send(request) => ActionView::Send(request@),
            StartAction::Inspect(request) => ActionView::Inspect(request@),
            StartAction::SetUp(setup) => ActionView::SetUp(setup@),
            StartAction::SyncLogs => ActionView::SyncLogs,
            StartAction::Nothing => ActionView::Nothing,
        }
    }
}

/// What came of it.
#[derive(Debug)]
pub enum StartEvent {
    Replied(Result<DockerResponse, String>),
    Inspected(Result<Option<ContainerInspect>, String>),
    Done(Result<(), String>),
}

#[verifier::ext_equal]
pub enum EventView {
    Replied(Result<ResponseView, Seq<char>>),
    Inspected(Result<Option<InspectView>, Seq<char>>),
    Done(Result<(), Seq<char>>),
}

impl View for StartEvent {
    type V = EventView;

    open spec fn view(&self) -> EventView {
        match self {
            StartEvent::Replied(Ok(response)) => EventView::Replied(Ok(response@)),
            StartEvent::Replied(Err(e)) => EventView::Replied(Err(e@)),
            StartEvent::Inspected(Ok(Some(container))) => EventView::Inspected(
                Ok(Some(container@)),
            ),
            StartEvent::Inspected(Ok(None)) => EventView::Inspected(Ok(None)),
            StartEvent::Inspected(Err(e)) => EventView::Inspected(Err(e@)),
            StartEvent::Done(Ok(())) => EventView::Done(Ok(())),
            StartEvent::Done(Err(e)) => EventView::Done(Err(e@)),
        }
    }
}

/// The start of one server: where it stands, the name of the container, the
/// fingerprint of its settings and the images to try.
#[derive(Debug)]
pub struct StartFlow {
    pub state: StartState,
    pub name: String,
    pub config_hash: String,
    pub images: Vec<String>,
}

#[verifier::ext_equal]
pub struct FlowView {
    pub state: StartState,
    pub name: Seq<char>,
    pub config_hash: Seq<char>,
    pub images: Seq<Seq<char>>,
}

impl View for StartFlow {
    type V = FlowView;

    open spec fn view(&self) -> FlowView {
        FlowView {
            state: self.state,
            name: self.name@,
            config_hash: self.config_hash@,
            images: texts(self.images@),
        }
    }
}

/// A step of the start: the next state and action, or what went wrong.
pub type StepView = Result<(StartState, ActionView), Seq<char>>;

/// Whether the event is what the state waits for.
pub open spec fn fits(state: StartState, event: EventView) -> bool {
    match state {
        StartState::Inspecting => event is Inspected,
        StartState::SettingUp => event is Done,
        StartState::Syncing => event is Done,
        StartState::Finished => false,
        _ => event is Replied,
    }
}

/// Whether the image that the state speaks of is among those to try.
pub open spec fn names_an_image(flow: FlowView) -> bool {
    match flow.state {
        StartState::LookingForImage(at) => at < flow.images.len(),
        StartState::Pulling(at) => at < flow.images.len(),
        StartState::LookingForNetwork(at) => at < flow.images.len(),
        StartState::MakingNetwork(at) => at < flow.images.len(),
        _ => true,
    }
}

/// Looking for the image at a position.
pub open spec fn look_for_image(images: Seq<Seq<char>>, at: int) -> StepView {
    Ok(
        (
            StartState::LookingForImage(at as usize),
            ActionView::Send(bare_request("GET"@, image_path(images[at]))),
        ),
    )
}

/// Looking for the network, once an image is there.
pub open spec fn look_for_network(server: ServerView, at: int) -> StepView {
    Ok(
        (
            StartState::LookingForNetwork(at as usize),
            ActionView::Send(
                bare_request(
                    "GET"@,
                    "/networks/"@ + percent_encoded(encode_utf8(network_of(server)), true),
                ),
            ),
        ),
    )
}

/// Creating the container, once an image and the network are there.
pub open spec fn create_step(
    flow: FlowView,
    server: ServerView,
    host: HostView,
    host_user: Seq<char>,
    at: int,
) -> StepView {
    match create_request(server, host, host_user, flow.name, flow.images[at], flow.config_hash) {
        Ok(request) => Ok((StartState::Creating, ActionView::Send(request))),
        Err(e) => Err(e),
    }
}

/// Setting the remote console up.
pub open spec fn set_up_step(server: ServerView) -> StepView {
    Ok((StartState::SettingUp, ActionView::SetUp(setup_of(server))))
}

/// Starting the container.
pub open spec fn start_step(flow: FlowView) -> StepView {
    Ok(
        (
            StartState::Starting,
            ActionView::Send(bare_request("POST"@, container_path(flow.name, "/start"@))),
        ),
    )
}

/// What follows once the engine has told of the container.
pub open spec fn after_inspecting(
    flow: FlowView,
    server: ServerView,
    host: HostView,
    found: Option<InspectView>,
) -> StepView {
    match found {
        None => set_up_step(server),
        Some(container) => match manage_failure(container, server, host) {
            Some(e) => Err(e),
            None => if container.label("com.remiaft.config_hash"@) != Some(flow.config_hash) {
                if container.running {
                    Err(
                        "Docker config changed for "@ + server.name
                            + "; stop it before Remiaft recreates the container"@,
                    )
                } else {
                    Ok(
                        (
                            StartState::Removing,
                            ActionView::Send(
                                bare_request("DELETE"@, container_path(flow.name, "?v=0"@)),
                            ),
                        ),
                    )
                }
            } else if container.running {
                Ok((StartState::Syncing, ActionView::SyncLogs))
            } else {
                start_step(flow)
            },
        },
    }
}

/// What follows once the engine has told whether it has an image.
pub open spec fn after_looking(
    flow: FlowView,
    server: ServerView,
    at: int,
    response: ResponseView,
) -> StepView {
    let policy = server.runtime.docker.image_policy;
    let image = flow.images[at];
    if response.status != 404 && reply_failure(response) is Some {
        Err(reply_failure(response)->0)
    } else if response.status != 404 && policy != DockerImagePolicy::Always {
        look_for_network(server, at)
    } else if policy == DockerImagePolicy::Never {
        Err("Docker image not present and pull policy is never: "@ + image)
    } else {
        Ok(
            (
                StartState::Pulling(at as usize),
                ActionView::Send(bare_request("POST"@, pull_path(image))),
            ),
        )
    }
}

/// What follows once the engine has tried to pull an image. Where it could
/// not, the next image is looked for.
pub open spec fn after_pulling(
    flow: FlowView,
    server: ServerView,
    at: int,
    problem: Option<Seq<char>>,
) -> StepView {
    match problem {
        None => look_for_network(server, at),
        Some(e) => if at + 1 < flow.images.len() {
            look_for_image(flow.images, at + 1)
        } else {
            Err(e)
        },
    }
}

/// What is wrong with a reply, if anything is, or that there was none.
pub open spec fn send_failure(reply: Result<ResponseView, Seq<char>>) -> Option<Seq<char>> {
    match reply {
        Ok(response) => reply_failure(response),
        Err(e) => Some(e),
    }
}

/// The step that follows on an event, where the settings can be written down.
pub open spec fn plain_step(
    flow: FlowView,
    server: ServerView,
    host: HostView,
    host_user: Seq<char>,
    event: EventView,
) -> StepView {
    match (flow.state, event) {
        (StartState::Pinging, EventView::Replied(reply)) => match send_failure(reply) {
            Some(e) => Err(e),
            None => Ok(
                (
                    StartState::Inspecting,
                    ActionView::Inspect(bare_request("GET"@, container_path(flow.name, "/json"@))),
                ),
            ),
        },
        (StartState::Inspecting, EventView::Inspected(Ok(found))) => after_inspecting(
            flow,
            server,
            host,
            found,
        ),
        (StartState::Inspecting, EventView::Inspected(Err(e))) => Err(e),
        (StartState::Removing, EventView::Replied(Ok(response))) => if response.status != 404
            && reply_failure(response) is Some {
            Err(reply_failure(response)->0)
        } else {
            set_up_step(server)
        },
        (StartState::SettingUp, EventView::Done(_)) => if flow.images.len() == 0 {
            Err("no Docker image candidates configured"@)
        } else {
            look_for_image(flow.images, 0)
        },
        (StartState::LookingForImage(at), EventView::Replied(Ok(response))) => after_looking(
            flow,
            server,
            at as int,
            response,
        ),
        (StartState::Pulling(at), EventView::Replied(reply)) => after_pulling(
            flow,
            server,
            at as int,
            send_failure(reply),
        ),
        (StartState::LookingForNetwork(at), EventView::Replied(Ok(response))) => if response.status
            == 200 {
            create_step(flow, server, host, host_user, at as int)
        } else if response.status != 404 && reply_failure(response) is Some {
            Err(reply_failure(response)->0)
        } else {
            Ok(
                (
                    StartState::MakingNetwork(at),
                    ActionView::Send(
                        RequestView {
                            method: "POST"@,
                            path: "/networks/create"@,
                            body: json_encoding(network_settings(network_of(server))),
                        },
                    ),
                ),
            )
        },
        (StartState::MakingNetwork(at), EventView::Replied(reply)) => match send_failure(reply) {
            Some(e) => Err(e),
            None => create_step(flow, server, host, host_user, at as int),
        },
        (StartState::Creating, EventView::Replied(Ok(response))) => if response.status == 409 {
            Err("Docker container name already exists: "@ + flow.name)
        } else if reply_failure(response) is Some {
            Err(reply_failure(response)->0)
        } else {
            start_step(flow)
        },
        (StartState::Starting, EventView::Replied(reply)) => match send_failure(reply) {
            Some(e) => Err(e),
            None => Ok((StartState::Syncing, ActionView::SyncLogs)),
        },
        (StartState::Syncing, EventView::Done(Ok(()))) => Ok(
            (StartState::Finished, ActionView::Nothing),
        ),
        (StartState::Syncing, EventView::Done(Err(e))) => Err(e),
        (_, EventView::Replied(Err(e))) => Err(e),
        _ => Err(Seq::empty()),
    }
}

/// The step that follows on an event. The settings are written down once the
/// engine is there; a server for which that fails is not started.
pub open spec fn next_step(
    flow: FlowView,
    server: ServerView,
    host: HostView,
    host_user: Seq<char>,
    event: EventView,
) -> StepView {
    match (plain_step(flow, server, host, host_user, event), flow.state, config_hash_of(
        server,
        host_user,
        host.platform,
    )) {
        (Ok(_), StartState::Pinging, Err(e)) => Err(e),
        (step, _, _) => step,
    }
}

/// The fingerprint of the settings, which is taken once the engine is there.
pub open spec fn known_hash(
    flow: FlowView,
    server: ServerView,
    host: HostView,
    host_user: Seq<char>,
) -> Seq<char> {
    match (flow.state, config_hash_of(server, host_user, host.platform)) {
        (StartState::Pinging, Ok(config_hash)) => config_hash,
        _ => flow.config_hash,
    }
}

/// Why the start of a server does not begin, if it does not: a server that is
/// refused, or on a system without an engine, is not started.
pub open spec fn start_failure(server: ServerView, host: HostView) -> Option<Seq<char>> {
    match security_failure(server, host) {
        Some(e) => Some(e),
        None => if host.platform == Platform::Windows {
            Some(ApiErrorView::Unsupported.words())
        } else {
            None
        },
    }
}

fn bad_reply(response: &DockerResponse) -> (r: Option<Failure>)
    ensures
        match r {
            Some(e) => reply_failure(response@) == Some(e@),
            None => reply_failure(response@) is None,
        },
{
    match check_reply(response) {
        Ok(()) => None,
        Err(e) => Some(e),
    }
}

/// Begins the start of a server with a request whether the engine is
/// there.
pub fn start_server(
    server: &ServerConfig,
    host: &HostPaths,
    images: Vec<String>,
) -> (r: Result<(StartFlow, StartAction), Failure>)
    ensures
        match r {
            Ok((flow, action)) => {
                &&& start_failure(server@, host@) is None
                &&& flow@ == (FlowView {
                    state: StartState::Pinging,
                    name: container_name_of(server@),
                    config_hash: Seq::empty(),
                    images: texts(images@),
                })
                &&& action@ == ActionView::Send(bare_request("GET"@, "/_ping"@))
            },
            Err(e) => start_failure(server@, host@) == Some(e@),
        },
{
    if let Err(e) = validate_server_security(server, host) {
        return Err(e);
    }
    let client = match DockerClient::connect(host.platform) {
        Ok(client) => client,
        Err(e) => return Err(api_failure(e)),
    };
    let flow = StartFlow {
        state: StartState::Pinging,
        name: container_name(server),
        config_hash: String::new(),
        images,
    };
    assert(flow.config_hash@ =~= Seq::<char>::empty());
    Ok((flow, StartAction::Send(client.ping())))
}

impl StartFlow {
    fn image_step(&self, at: usize) -> (r: (StartState, StartAction))
        requires
            at < self.images@.len(),
        ensures
            look_for_image(self@.images, at as int) == Ok::<(StartState, ActionView), Seq<char>>(
                (r.0, r.1@),
            ),
    {
        assert(self@.images[at as int] == self.images@[at as int]@);
        let client = DockerClient { socket_path: String::new() };
        (
            StartState::LookingForImage(at),
            StartAction::Send(client.image_exists(self.images[at].as_str())),
        )
    }

    fn network_step(&self, server: &ServerConfig, at: usize) -> (r: (StartState, StartAction))
        ensures
            look_for_network(server@, at as int) == Ok::<(StartState, ActionView), Seq<char>>(
                (r.0, r.1@),
            ),
    {
        let network = network_name(server);
        let code = encode_path(network.as_str());
        let path = glue("/networks/", code.as_str());
        (StartState::LookingForNetwork(at), StartAction::Send(DockerRequest::bare("GET", path)))
    }

    fn creation_step(&self, server: &ServerConfig, host: &HostPaths, host_user: &str, at: usize) -> (r:
        Result<(StartState, StartAction), Failure>)
        requires
            at < self.images@.len(),
        ensures
            match r {
                Ok((state, action)) => create_step(self@, server@, host@, host_user@, at as int)
                    == Ok::<(StartState, ActionView), Seq<char>>((state, action@)),
                Err(e) => create_step(self@, server@, host@, host_user@, at as int) == Err::<
                    (StartState, ActionView),
                    Seq<char>,
                >(e@),
            },
    {
        assert(self@.images[at as int] == self.images@[at as int]@);
        match create_container(
            server,
            host,
            host_user,
            self.name.as_str(),
            self.images[at].as_str(),
            self.config_hash.as_str(),
        ) {
            Ok(request) => Ok((StartState::Creating, StartAction::Send(request))),
            Err(e) => Err(e),
        }
    }

    fn starting_step(&self) -> (r: (StartState, StartAction))
        ensures
            start_step(self@) == Ok::<(StartState, ActionView), Seq<char>>((r.0, r.1@)),
    {
        let path = container_path_text(self.name.as_str(), "/start");
        (StartState::Starting, StartAction::Send(DockerRequest::bare("POST", path)))
    }

    fn inspected_step(
        &self,
        server: &ServerConfig,
        host: &HostPaths,
        found: Option<ContainerInspect>,
    ) -> (r: Result<(StartState, StartAction), Failure>)
        ensures
            ({
                let step = after_inspecting(
                    self@,
                    server@,
                    host@,
                    match found {
                        Some(container) => Some(container@),
                        None => None,
                    },
                );
                match r {
                    Ok((state, action)) => step == Ok::<(StartState, ActionView), Seq<char>>(
                        (state, action@),
                    ),
                    Err(e) => step == Err::<(StartState, ActionView), Seq<char>>(e@),
                }
            }),
    {
        let container = match found {
            None => return Ok(
                (StartState::SettingUp, StartAction::SetUp(configure_rcon_if_possible(server))),
            ),
            Some(container) => container,
        };
        if let Err(e) = ensure_manageable_container(&container, server, host) {
            return Err(e);
        }
        let current = match container.config_hash() {
            Some(hash) => same_text(hash, self.config_hash.as_str()),
            None => false,
        };
        if !current {
            if container.running() {
                return Err(
                    Failure {
                        message: glue3(
                            "Docker config changed for ",
                            server.name.as_str(),
                            "; stop it before Remiaft recreates the container",
                        ),
                    },
                );
            }
            let path = container_path_text(self.name.as_str(), "?v=0");
            return Ok(
                (StartState::Removing, StartAction::Send(DockerRequest::bare("DELETE", path))),
            );
        }
        if container.running() {
            return Ok((StartState::Syncing, StartAction::SyncLogs));
        }
        Ok(self.starting_step())
    }

    fn looked_step(&self, server: &ServerConfig, at: usize, response: &DockerResponse) -> (r: Result<
        (StartState, StartAction),
        Failure,
    >)
        requires
            at < self.images@.len(),
        ensures
            match r {
                Ok((state, action)) => after_looking(self@, server@, at as int, response@) == Ok::<
                    (StartState, ActionView),
                    Seq<char>,
                >((state, action@)),
                Err(e) => after_looking(self@, server@, at as int, response@) == Err::<
                    (StartState, ActionView),
                    Seq<char>,
                >(e@),
            },
    {
        let policy = server.runtime.docker.image_policy;
        let present = match response.image_found() {
            Ok(present) => present,
            Err(e) => return Err(api_failure(e)),
        };
        assert(self@.images[at as int] == self.images@[at as int]@);
        if present && policy != DockerImagePolicy::Always {
            return Ok(self.network_step(server, at));
        }
        if policy == DockerImagePolicy::Never {
            return Err(
                Failure {
                    message: glue(
                        "Docker image not present and pull policy is never: ",
                        self.images[at].as_str(),
                    ),
                },
            );
        }
        let client = DockerClient { socket_path: String::new() };
        Ok(
            (
                StartState::Pulling(at),
                StartAction::Send(client.pull_image(self.images[at].as_str())),
            ),
        )
    }

    fn replied_step(
        &self,
        server: &ServerConfig,
        host: &HostPaths,
        host_user: &str,
        response: DockerResponse,
    ) -> (r: Result<(StartState, StartAction), Failure>)
        requires
            names_an_image(self@),
            fits(self.state, EventView::Replied(Ok(response@))),
        ensures
            ({
                let step = plain_step(
                    self@,
                    server@,
                    host@,
                    host_user@,
                    EventView::Replied(Ok(response@)),
                );
                match r {
                    Ok((state, action)) => step == Ok::<(StartState, ActionView), Seq<char>>(
                        (state, action@),
                    ),
                    Err(e) => step == Err::<(StartState, ActionView), Seq<char>>(e@),
                }
            }),
    {
        match &self.state {
            StartState::Pinging => match bad_reply(&response) {
                Some(e) => Err(e),
                None => Ok(
                    (
                        StartState::Inspecting,
                        StartAction::Inspect(inspect_request(self.name.as_str())),
                    ),
                ),
            },
            StartState::Removing => {
                if response.status != 404 {
                    if let Some(e) = bad_reply(&response) {
                        return Err(e);
                    }
                }
                Ok((StartState::SettingUp, StartAction::SetUp(configure_rcon_if_possible(server))))
            },
            StartState::LookingForImage(at) => self.looked_step(server, *at, &response),
            StartState::Pulling(at) => match bad_reply(&response) {
                None => Ok(self.network_step(server, *at)),
                Some(e) => if self.images.len() - *at > 1 {
                    Ok(self.image_step(*at + 1))
                } else {
                    Err(e)
                },
            },
            StartState::LookingForNetwork(at) => {
                if response.status == 200 {
                    return self.creation_step(server, host, host_user, *at);
                }
                if response.status != 404 {
                    if let Some(e) = bad_reply(&response) {
                        return Err(e);
                    }
                }
                let network = network_name(server);
                Ok(
                    (
                        StartState::MakingNetwork(*at),
                        StartAction::Send(create_network(network.as_str())),
                    ),
                )
            },
            StartState::MakingNetwork(at) => match bad_reply(&response) {
                Some(e) => Err(e),
                None => self.creation_step(server, host, host_user, *at),
            },
            StartState::Creating => {
                if response.status == 409 {
                    return Err(
                        Failure {
                            message: glue(
                                "Docker container name already exists: ",
                                self.name.as_str(),
                            ),
                        },
                    );
                }
                match bad_reply(&response) {
                    Some(e) => Err(e),
                    None => Ok(self.starting_step()),
                }
            },
            _ => match bad_reply(&response) {
                Some(e) => Err(e),
                None => Ok((StartState::Syncing, StartAction::SyncLogs)),
            },
        }
    }

    fn step(
        &self,
        server: &ServerConfig,
        host: &HostPaths,
        host_user: &str,
        event: StartEvent,
    ) -> (r: Result<(StartState, StartAction), Failure>)
        requires
            names_an_image(self@),
            fits(self.state, event@),
        ensures
            ({
                let step = plain_step(self@, server@, host@, host_user@, event@);
                match r {
                    Ok((state, action)) => step == Ok::<(StartState, ActionView), Seq<char>>(
                        (state, action@),
                    ),
                    Err(e) => step == Err::<(StartState, ActionView), Seq<char>>(e@),
                }
            }),
    {
        match event {
            StartEvent::Replied(Ok(response)) => self.replied_step(
                server,
                host,
                host_user,
                response,
            ),
            StartEvent::Replied(Err(message)) => {
                if let StartState::Pulling(at) = &self.state {
                    if self.images.len() - *at > 1 {
                        return Ok(self.image_step(*at + 1));
                    }
                }
                Err(Failure { message })
            },
            StartEvent::Inspected(Ok(found)) => self.inspected_step(server, host, found),
            StartEvent::Inspected(Err(message)) => Err(Failure { message }),
            StartEvent::Done(done) => {
                if let StartState::SettingUp = &self.state {
                    if self.images.len() == 0 {
                        return Err(
                            Failure {
                                message: "no Docker image candidates configured".to_owned(),
                            },
                        );
                    }
                    return Ok(self.image_step(0));
                }
                match done {
                    Ok(()) => Ok((StartState::Finished, StartAction::Nothing)),
                    Err(message) => Err(Failure { message }),
                }
            },
        }
    }

    /// Takes the outcome of an action and says what to do next.
    pub fn advance(
        &mut self,
        server: &ServerConfig,
        host: &HostPaths,
        host_user: &str,
        event: StartEvent,
    ) -> (r: Result<StartAction, Failure>)
        requires
            names_an_image(old(self)@),
            fits(old(self).state, event@),
        ensures
            names_an_image(final(self)@),
            match next_step(old(self)@, server@, host@, host_user@, event@) {
                Ok((state, action)) => r matches Ok(next) && next@ == action && final(self)@ == (
                FlowView {
                    state,
                    config_hash: known_hash(old(self)@, server@, host@, host_user@),
                    ..old(self)@
                }),
                Err(problem) => r matches Err(e) && e@ == problem && final(self)@ == old(self)@,
            },
    {
        let (state, action) = match self.step(server, host, host_user, event) {
            Ok(step) => step,
            Err(e) => return Err(e),
        };
        if let StartState::Pinging = &self.state {
            match container_config_hash(server, host_user, host.platform) {
                Ok(config_hash) => {
                    self.config_hash = config_hash;
                },
                Err(e) => return Err(e),
            }
        }
        self.state = state;
        Ok(action)
    }
}

/// Where the remote console is reached, and the password.
#[derive(Debug)]
pub struct RconTarget {
    pub host: String,
    pub port: u16,
    pub password: String,
}

#[verifier::ext_equal]
pub struct TargetView {
    pub host: Seq<char>,
    pub port: u16,
    pub password: Seq<char>,
}

impl View for RconTarget {
    type V = TargetView;

    open spec fn view(&self) -> TargetView {
        TargetView { host: self.host@, port: self.port, password: self.password@ }
    }
}

/// Where the remote console is reached, or why it is not.
pub open spec fn target_of(server: ServerView) -> Result<TargetView, Seq<char>> {
    let rcon = server.runtime.docker.rcon;
    if rcon.mode == RconMode::Disabled {
        Err("RCON is disabled for "@ + server.name)
    } else {
        match rcon.password {
            None => Err("missing RCON password for "@ + server.name),
            Some(password) => match rcon.host_port {
                None => Err("missing RCON host port for "@ + server.name),
                Some(port) => Ok(TargetView { host: rcon.host, port, password }),
            },
        }
    }
}

/// Where the remote console is reached.
pub fn rcon_target(server: &ServerConfig) -> (r: Result<RconTarget, Failure>)
    ensures
        match r {
            Ok(target) => target_of(server@) == Ok::<TargetView, Seq<char>>(target@),
            Err(e) => target_of(server@) == Err::<TargetView, Seq<char>>(e@),
        },
{
    let rcon = &server.runtime.docker.rcon;
    if rcon.mode == RconMode::Disabled {
        return Err(Failure { message: glue("RCON is disabled for ", server.name.as_str()) });
    }
    match &rcon.password {
        None => Err(Failure { message: glue("missing RCON password for ", server.name.as_str()) }),
        Some(password) => match rcon.host_port {
            None => Err(
                Failure { message: glue("missing RCON host port for ", server.name.as_str()) },
            ),
            Some(port) => Ok(
                RconTarget { host: rcon.host.clone(), port, password: password.clone() },
            ),
        },
    }
}

/// Where a command for the server's remote console is sent. A server without a
/// container that was made for it is refused.
pub fn send_rcon_command(
    server: &ServerConfig,
    host: &HostPaths,
    found: &Option<ContainerInspect>,
) -> (r: Result<RconTarget, Failure>)
    ensures
        ({
            let container = match found {
                Some(container) => Some(container@),
                None => None,
            };
            match existing_failure(server@, host@, container) {
                Some(problem) => r matches Err(e) && e@ == problem,
                None => match r {
                    Ok(target) => target_of(server@) == Ok::<TargetView, Seq<char>>(target@),
                    Err(e) => target_of(server@) == Err::<TargetView, Seq<char>>(e@),
                },
            }
        }),
{
    if let Err(e) = ensure_existing_manageable_container(server, host, found) {
        return Err(e);
    }
    rcon_target(server)
}

/// How a stop goes on.
#[derive(Debug, Clone, Copy, PartialEq, Eq, Structural)]
pub enum StopStep {
    /// The server has stopped.
    Stopped,
    /// Wait and look again.
    Wait,
    /// The time is up: stop it by force.
    Force,
}

/// How a stop goes on after the given time: a server has thirty seconds to
/// stop by itself.
pub fn stop_step(elapsed_ms: u64, running: bool) -> (r: StopStep)
    ensures
        r == (if elapsed_ms >= 30000 {
            StopStep::Force
        } else if running {
            StopStep::Wait
        } else {
            StopStep::Stopped
        }),
{
    if elapsed_ms >= 30000 {
        StopStep::Force
    } else if running {
        StopStep::Wait
    } else {
        StopStep::Stopped
    }
}

/// A line that was typed at the remote console.
#[derive(Debug)]
pub enum ConsoleLine {
    Leave,
    Nothing,
    Send(String),
}

/// Whether the line asks to leave the console.
pub open spec fn asks_to_leave(line: Seq<char>) -> bool {
    lowered(trimmed(line)) == lowered("exit"@) || lowered(trimmed(line)) == lowered("quit"@)
}

/// What to do with a line that was typed at the remote console.
pub fn read_console_line(input: &str) -> (r: ConsoleLine)
    ensures
        match r {
            ConsoleLine::Leave => asks_to_leave(input@),
            ConsoleLine::Nothing => !asks_to_leave(input@) && is_blank(input@),
            ConsoleLine::Send(command) => !asks_to_leave(input@) && !is_blank(input@) && command@
                == trimmed(input@),
        },
{
    let command = trim(input);
    if same_ignoring_case(command, "exit") || same_ignoring_case(command, "quit") {
        ConsoleLine::Leave
    } else if command.unicode_len() == 0 {
        ConsoleLine::Nothing
    } else {
        ConsoleLine::Send(command.to_owned())
    }
}

/// What to show of the answer to a command, if anything.
pub fn console_answer(answer: Result<String, String>) -> (r: Option<String>)
    ensures
        match answer {
            Ok(text) => opt_text(r) == if is_blank(text@) {
                None
            } else {
                Some(trimmed_end(text@))
            },
            Err(e) => opt_text(r) == Some("RCON failed: "@ + e@),
        },
{
    match answer {
        Ok(text) => {
            if trim(text.as_str()).unicode_len() == 0 {
                None
            } else {
                Some(trim_end(text.as_str()).to_owned())
            }
        },
        Err(e) => Some(glue("RCON failed: ", e.as_str())),
    }
}

/// The last forty lines of a log.
pub open spec fn recent(raw: Seq<char>) -> Seq<Seq<char>> {
    let all = lines_of(raw);
    if all.len() > 40 {
        all.skip(all.len() - 40)
    } else {
        all
    }
}

/// The last forty lines of a log.
pub fn recent_lines(raw: &str) -> (r: Vec<String>)
    ensures
        texts(r@) == recent(raw@),
{
    let all = lines(raw);
    let n: usize = all.len();
    assert(texts(all@).len() == n);
    if n > 40 {
        let kept = copy_range(&all, n - 40, n);
        assert(texts(kept@) =~= texts(all@).skip(n - 40));
        kept
    } else {
        all
    }
}

/// A container that was not made for the server is left alone: nothing is
/// sent to the engine about it.
pub proof fn foreign_container_is_left_alone(
    flow: FlowView,
    server: ServerView,
    host: HostView,
    host_user: Seq<char>,
    container: InspectView,
)
    requires
        flow.state == StartState::Inspecting,
        !is_manageable(container, server),
    ensures
        next_step(flow, server, host, host_user, EventView::Inspected(Ok(Some(container)))) is Err,
{
}

/// An engine that is not there is told of before anything that is wrong with the
/// settings: the start fails with what the engine said, or that it said nothing.
pub proof fn missing_engine_is_told_of_first(
    flow: FlowView,
    server: ServerView,
    host: HostView,
    host_user: Seq<char>,
    reply: Result<ResponseView, Seq<char>>,
)
    requires
        flow.state == StartState::Pinging,
        send_failure(reply) is Some,
    ensures
        next_step(flow, server, host, host_user, EventView::Replied(reply)) == Err::<
            (StartState, ActionView),
            Seq<char>,
        >(send_failure(reply)->0),
{
}

/// A container that runs is neither removed nor started: its log is brought
/// up to date, or the start fails.
pub proof fn running_container_is_kept(
    flow: FlowView,
    server: ServerView,
    host: HostView,
    host_user: Seq<char>,
    container: InspectView,
)
    requires
        flow.state == StartState::Inspecting,
        container.running,
    ensures
        match next_step(
            flow,
            server,
            host,
            host_user,
            EventView::Inspected(Ok(Some(container))),
        ) {
            Ok((state, action)) => state == StartState::Syncing && action == ActionView::SyncLogs,
            Err(_) => true,
        },
{
}

/// A stopped container that was made from the present settings is started
/// again as it is.
pub proof fn own_container_is_started_again(
    flow: FlowView,
    server: ServerView,
    host: HostView,
    host_user: Seq<char>,
    container: InspectView,
)
    requires
        flow.state == StartState::Inspecting,
        !container.running,
        crate::collections::in_key_order(server.runtime.docker.labels),
        container.labels == Some(crate::docker::labels_of(server, flow.config_hash)),
        container_failure(container, server, host) is None,
    ensures
        next_step(flow, server, host, host_user, EventView::Inspected(Ok(Some(container))))
            == start_step(flow),
{
    crate::container::created_container_is_manageable(server, flow.config_hash, container);
}

/// Whether the engine did what it was asked for.
pub open spec fn went_well(response: ResponseView) -> bool {
    200 <= response.status <= 299 || response.status == 304
}

/// A reply is a failure exactly where its status says so, and the failure tells
/// the status.
pub proof fn status_tells_of_failure(response: ResponseView)
    ensures
        reply_failure(response) is None <==> went_well(response),
        reply_failure(response) matches Some(words) ==> ("Docker API returned "@ + decimal(
            response.status as nat,
        ) + ": "@).is_prefix_of(words),
{
    if let Some(words) = reply_failure(response) {
        let head = "Docker API returned "@ + decimal(response.status as nat) + ": "@;
        assert(words.subrange(0, head.len() as int) =~= head);
    }
}

/// A request that sends no settings.
pub open spec fn asks(
    action: ActionView,
    method: Seq<char>,
    before: Seq<char>,
    name: Seq<char>,
    behind: Seq<char>,
) -> bool {
    action matches ActionView::Send(request) && request.method == method && request.path == before
        + percent_encoded(encode_utf8(name), true) + behind && request.body.len() == 0
}

/// Whether an action starts the container.
pub open spec fn starts(action: ActionView, name: Seq<char>) -> bool {
    asks(action, "POST"@, "/containers/"@, name, "/start"@)
}

/// A container that was just made is started: the reply that it was made is
/// followed by the request that starts it, and any other reply ends the start.
pub proof fn created_container_is_started(
    flow: FlowView,
    server: ServerView,
    host: HostView,
    host_user: Seq<char>,
    response: ResponseView,
)
    requires
        flow.state == StartState::Creating,
    ensures
        match next_step(flow, server, host, host_user, EventView::Replied(Ok(response))) {
            Ok((state, action)) => went_well(response) && state == StartState::Starting && starts(
                action,
                flow.name,
            ),
            Err(_) => !went_well(response),
        },
{
}

/// Logs are read, and the start ends, only behind a start of the container that
/// went well, or where it was found running. The state of starting is entered
/// only with the request that starts the container.
#[verifier::rlimit(60)]
pub proof fn nothing_ends_without_a_start(
    flow: FlowView,
    server: ServerView,
    host: HostView,
    host_user: Seq<char>,
    event: EventView,
)
    ensures
        next_step(flow, server, host, host_user, event) matches Ok((state, action)) ==> {
            &&& state is Syncing ==> action is SyncLogs && {
                ||| flow.state is Starting && (event matches EventView::Replied(
                    Ok(response),
                ) && went_well(response))
                ||| flow.state is Inspecting && (event matches EventView::Inspected(
                    Ok(Some(container)),
                ) && container.running)
            }
            &&& state is Starting ==> starts(action, flow.name)
            &&& state is Finished ==> flow.state is Syncing && (event matches EventView::Done(
                Ok(()),
            ))
            &&& action is Nothing <==> state is Finished
        },
{
}

/// A start from event to event: where it stands then, and every action so far.
/// Nothing where a step failed.
pub open spec fn run_of(
    flow: FlowView,
    server: ServerView,
    host_user: Seq<char>,
    events: Seq<(HostView, EventView)>,
) -> Option<(FlowView, Seq<ActionView>)>
    decreases events.len(),
{
    if events.len() == 0 {
        Some((flow, Seq::empty()))
    } else {
        match run_of(flow, server, host_user, events.drop_last()) {
            None => None,
            Some((before, actions)) => {
                let (host, event) = events.last();
                match next_step(before, server, host, host_user, event) {
                    Ok((state, action)) => Some(
                        (
                            FlowView {
                                state,
                                config_hash: known_hash(before, server, host, host_user),
                                ..before
                            },
                            actions.push(action),
                        ),
                    ),
                    Err(_) => None,
                }
            },
        }
    }
}

/// Whether the container was found running.
pub open spec fn found_running(events: Seq<(HostView, EventView)>) -> bool {
    exists|i: int|
        0 <= i < events.len() && ((#[trigger] events[i]).1 matches EventView::Inspected(
            Ok(Some(container)),
        ) && container.running)
}

/// Whether the container was started at a position, and that went well.
pub open spec fn started_at(
    actions: Seq<ActionView>,
    events: Seq<(HostView, EventView)>,
    name: Seq<char>,
    i: int,
) -> bool {
    &&& 0 <= i < actions.len() && i + 1 < events.len()
    &&& starts(actions[i], name)
    &&& events[i + 1].1 matches EventView::Replied(Ok(response)) && went_well(response)
}

/// Whether the container was started, and that went well.
pub open spec fn was_started(
    actions: Seq<ActionView>,
    events: Seq<(HostView, EventView)>,
    name: Seq<char>,
) -> bool {
    exists|i: int| started_at(actions, events, name, i)
}

proof fn lemma_run(
    flow: FlowView,
    server: ServerView,
    host_user: Seq<char>,
    events: Seq<(HostView, EventView)>,
)
    requires
        flow.state == StartState::Pinging,
        run_of(flow, server, host_user, events) is Some,
    ensures
        ({
            let (end, actions) = run_of(flow, server, host_user, events)->0;
            &&& actions.len() == events.len()
            &&& end.name == flow.name
            &&& end.state == StartState::Starting ==> actions.len() > 0 && starts(
                actions.last(),
                flow.name,
            )
            &&& end.state == StartState::Syncing || end.state == StartState::Finished
                ==> found_running(events) || was_started(actions, events, flow.name)
        }),
    decreases events.len(),
{
    if events.len() > 0 {
        let front = events.drop_last();
        lemma_run(flow, server, host_user, front);
        let (before, earlier) = run_of(flow, server, host_user, front)->0;
        let (end, actions) = run_of(flow, server, host_user, events)->0;
        let (host, event) = events.last();
        nothing_ends_without_a_start(before, server, host, host_user, event);
        let n = events.len() as int;
        if end.state == StartState::Syncing {
            if before.state == StartState::Starting {
                assert(actions[n - 2] == earlier.last());
                assert(events[n - 1].1 == event);
                assert(started_at(actions, events, flow.name, n - 2));
            } else {
                assert(events[n - 1].1 == event);
            }
        } else if end.state == StartState::Finished {
            if found_running(front) {
                let i = choose|i: int|
                    0 <= i < front.len() && ((#[trigger] front[i]).1 matches EventView::Inspected(
                        Ok(Some(container)),
                    ) && container.running);
                assert(events[i] == front[i]);
            } else {
                let i = choose|i: int| started_at(earlier, front, flow.name, i);
                assert(actions[i] == earlier[i] && events[i + 1] == front[i + 1]);
                assert(started_at(actions, events, flow.name, i));
            }
        }
    }
}

/// A start that comes to its end has started the container, unless that was
/// found running: the request that starts it was sent, and the engine said that
/// it went well.
pub proof fn finished_start_has_started(
    flow: FlowView,
    server: ServerView,
    host_user: Seq<char>,
    events: Seq<(HostView, EventView)>,
)
    requires
        flow.state == StartState::Pinging,
        run_of(flow, server, host_user, events) matches Some((end, _)) && end.state
            == StartState::Finished,
    ensures
        run_of(flow, server, host_user, events) matches Some((_, actions)) && (found_running(
            events,
        ) || was_started(actions, events, flow.name)),
{
    lemma_run(flow, server, host_user, events);
}

/// An engine that is there is asked about the server's container next.
pub proof fn container_is_looked_for(
    flow: FlowView,
    server: ServerView,
    host: HostView,
    host_user: Seq<char>,
    response: ResponseView,
)
    requires
        flow.state == StartState::Pinging,
        went_well(response),
    ensures
        match next_step(flow, server, host, host_user, EventView::Replied(Ok(response))) {
            Ok((state, action)) => state == StartState::Inspecting && action == ActionView::Inspect(
                RequestView {
                    method: "GET"@,
                    path: "/containers/"@ + percent_encoded(encode_utf8(flow.name), true)
                        + "/json"@,
                    body: Seq::empty(),
                },
            ) && config_hash_of(server, host_user, host.platform) == Ok::<Seq<char>, Seq<char>>(
                known_hash(flow, server, host, host_user),
            ),
            Err(e) => config_hash_of(server, host_user, host.platform) == Err::<
                Seq<char>,
                Seq<char>,
            >(e),
        },
{
}

/// What is done about a container of the server's own: one that was made from
/// other settings is removed, or left alone where it runs. One that was made
/// from these runs on, or is started.
pub proof fn own_container_is_kept_or_replaced(
    flow: FlowView,
    server: ServerView,
    host: HostView,
    host_user: Seq<char>,
    container: InspectView,
)
    requires
        flow.state == StartState::Inspecting,
        is_manageable(container, server),
        container_failure(container, server, host) is None,
    ensures
        ({
            let current = container.label("com.remiaft.config_hash"@) == Some(flow.config_hash);
            match next_step(
                flow,
                server,
                host,
                host_user,
                EventView::Inspected(Ok(Some(container))),
            ) {
                Ok((state, action)) => if !current {
                    !container.running && state == StartState::Removing && asks(
                        action,
                        "DELETE"@,
                        "/containers/"@,
                        flow.name,
                        "?v=0"@,
                    )
                } else if container.running {
                    state == StartState::Syncing && action == ActionView::SyncLogs
                } else {
                    state == StartState::Starting && starts(action, flow.name)
                },
                Err(_) => !current && container.running,
            }
        }),
{
}

/// A container that is missing, or was removed, is made anew: the remote console
/// is set up first.
pub proof fn missing_container_is_set_up_for(
    flow: FlowView,
    server: ServerView,
    host: HostView,
    host_user: Seq<char>,
    event: EventView,
)
    requires
        ({
            ||| flow.state == StartState::Inspecting && event == EventView::Inspected(Ok(None))
            ||| flow.state == StartState::Removing && (event matches EventView::Replied(
                Ok(response),
            ) && (went_well(response) || response.status == 404))
        }),
    ensures
        next_step(flow, server, host, host_user, event) matches Ok((state, action)) && state
            == StartState::SettingUp && (action matches ActionView::SetUp(setup) && ({
            let rcon = server.runtime.docker.rcon;
            match setup {
                SetupView::Skip => rcon.mode != RconMode::Auto,
                SetupView::Note(_) => rcon.mode == RconMode::Auto && (rcon.password is None
                    || !server.runtime.docker.mount_server_directory),
                SetupView::Configure { container_port, password } => rcon.mode == RconMode::Auto
                    && server.runtime.docker.mount_server_directory && container_port
                    == rcon.container_port && rcon.password == Some(password),
            }
        })),
{
}

/// The images are tried from the first on: one that the engine has is used, and
/// one that it lacks, or that is always to be pulled, is pulled, unless none is
/// to be.
pub proof fn images_are_tried_in_order(
    flow: FlowView,
    server: ServerView,
    host: HostView,
    host_user: Seq<char>,
    event: EventView,
)
    requires
        names_an_image(flow),
        fits(flow.state, event),
        flow.images.len() <= usize::MAX,
    ensures
        ({
            let policy = server.runtime.docker.image_policy;
            let step = next_step(flow, server, host, host_user, event);
            match (flow.state, event) {
                (StartState::SettingUp, EventView::Done(_)) => match step {
                    Ok((state, action)) => state == StartState::LookingForImage(0) && asks(
                        action,
                        "GET"@,
                        "/images/"@,
                        flow.images[0],
                        "/json"@,
                    ),
                    Err(_) => flow.images.len() == 0,
                },
                (StartState::LookingForImage(at), EventView::Replied(Ok(response))) => match step {
                    Ok((StartState::LookingForNetwork(i), _)) => i == at && went_well(response)
                        && policy != DockerImagePolicy::Always,
                    Ok((StartState::Pulling(i), action)) => i == at && policy
                        != DockerImagePolicy::Never && (response.status == 404 || policy
                        == DockerImagePolicy::Always && went_well(response))
                        && action == ActionView::Send(
                        RequestView {
                            method: "POST"@,
                            path: pull_path(flow.images[at as int]),
                            body: Seq::empty(),
                        },
                    ),
                    Ok(_) => false,
                    Err(_) => if response.status == 404 {
                        policy == DockerImagePolicy::Never
                    } else {
                        !went_well(response)
                    },
                },
                (StartState::Pulling(at), EventView::Replied(reply)) => {
                    let pulled = reply matches Ok(response) && went_well(response);
                    match step {
                        Ok((StartState::LookingForNetwork(i), _)) => pulled && i == at,
                        Ok((StartState::LookingForImage(i), action)) => !pulled && i == at + 1
                            && asks(
                            action,
                            "GET"@,
                            "/images/"@,
                            flow.images[at + 1],
                            "/json"@,
                        ),
                        Ok(_) => false,
                        Err(_) => !pulled && at + 1 == flow.images.len(),
                    }
                },
                _ => true,
            }
        }),
{
}

/// The network is looked for once there is an image, and made where it is
/// missing. Then the container is made from that image, unless it is refused.
pub proof fn container_joins_its_network(
    flow: FlowView,
    server: ServerView,
    host: HostView,
    host_user: Seq<char>,
    event: EventView,
)
    requires
        names_an_image(flow),
        fits(flow.state, event),
    ensures
        next_step(flow, server, host, host_user, event) matches Ok((state, action)) ==> {
            &&& state is LookingForNetwork ==> asks(
                action,
                "GET"@,
                "/networks/"@,
                network_of(server),
                ""@,
            )
            &&& state is MakingNetwork ==> {
                &&& flow.state is LookingForNetwork
                &&& event matches EventView::Replied(Ok(response)) && response.status != 200 && (
                response.status == 404 || went_well(response))
                &&& action matches ActionView::Send(request) && request.method == "POST"@
                    && request.path == "/networks/create"@ && request.body == json_encoding(
                    network_settings(network_of(server)),
                )
            }
            &&& state == StartState::Creating ==> {
                let at = match flow.state {
                    StartState::LookingForNetwork(at) => at as int,
                    StartState::MakingNetwork(at) => at as int,
                    _ => -1,
                };
                &&& 0 <= at < flow.images.len()
                &&& event matches EventView::Replied(Ok(response)) && went_well(response)
                &&& security_failure(server, host) is None
                &&& user_of(server, host_user) matches Ok(user) && action
                    matches ActionView::Send(request) && request.method == "POST"@ && request.path
                    == "/containers/create?name="@ + percent_encoded(encode_utf8(flow.name), false)
                    && request.body == json_encoding(
                    container_settings(
                        server,
                        flow.images[at],
                        flow.config_hash,
                        user,
                        host.platform,
                    ),
                )
            }
        },
{
    reveal_strlit("");
    let path = "/networks/"@ + percent_encoded(encode_utf8(network_of(server)), true);
    assert(path + ""@ =~= path);
}

/// A server runs where its container may be managed and runs, and has stopped
/// where there is none or it may be managed and does not run; all else is stale.
pub proof fn status_is_that_of_the_container(
    server: ServerView,
    host: HostView,
    container: InspectView,
)
    ensures
        ({
            let status = status_of(server, host, Some(Some(container)));
            let allowed = security_failure(server, host) is None;
            &&& status == RuntimeStatus::Running <==> allowed && manage_failure(
                container,
                server,
                host,
            ) is None && container.running
            &&& status == RuntimeStatus::Stopped <==> allowed && manage_failure(
                container,
                server,
                host,
            ) is None && !container.running
            &&& allowed ==> status_of(server, host, Some(None)) == RuntimeStatus::Stopped
            &&& allowed ==> status_of(server, host, None) == RuntimeStatus::Stopped
            &&& !allowed ==> status_of(server, host, None) == RuntimeStatus::Stale
        }),
{
}

/// The console of a server is reached at its address and port, with its
/// password, where all of these are known and it is not switched off.
pub proof fn console_is_reached_where_it_is(server: ServerView)
    ensures
        ({
            let rcon = server.runtime.docker.rcon;
            let target = target_of(server);
            &&& target is Ok <==> rcon.mode != RconMode::Disabled && rcon.password is Some
                && rcon.host_port is Some
            &&& target matches Ok(target) ==> target.host == rcon.host && Some(target.port)
                == rcon.host_port && Some(target.password) == rcon.password
        }),
{
}

/// The console is set up for a server only where it is set up by itself, and
/// where the server's directory is at hand and a password is known.
pub proof fn console_is_set_up_where_it_can_be(server: ServerView)
    ensures
        ({
            let docker = server.runtime.docker;
            let setup = setup_of(server);
            &&& setup == SetupView::Skip <==> docker.rcon.mode != RconMode::Auto
            &&& setup is Configure <==> docker.rcon.mode == RconMode::Auto
                && docker.mount_server_directory && docker.rcon.password is Some
            &&& setup matches SetupView::Configure { container_port, password } ==> container_port
                == docker.rcon.container_port && Some(password) == docker.rcon.password
        }),
{
}

/// An image that is there is used, unless it is always to be pulled; one that is
/// not is pulled, unless it never is to be.
pub proof fn image_policy_is_followed(
    flow: FlowView,
    server: ServerView,
    host: HostView,
    host_user: Seq<char>,
    at: usize,
    response: ResponseView,
)
    requires
        flow.state == StartState::LookingForImage(at),
        at < flow.images.len(),
        response.status == 200 || response.status == 404,
    ensures
        ({
            let policy = server.runtime.docker.image_policy;
            let step = next_step(flow, server, host, host_user, EventView::Replied(Ok(response)));
            let there = response.status == 200;
            &&& there && policy != DockerImagePolicy::Always ==> (step matches Ok((state, _))
                && state == StartState::LookingForNetwork(at))
            &&& !there && policy == DockerImagePolicy::Never ==> step is Err
            &&& policy == DockerImagePolicy::Always ==> (step matches Ok((state, action)) && state
                == StartState::Pulling(at) && (action matches ActionView::Send(request)
                && request.method == "POST"@ && request.path == pull_path(flow.images[at as int])))
            &&& !there && policy == DockerImagePolicy::IfMissing ==> (step matches Ok(
                (state, action),
            ) && state == StartState::Pulling(at) && (action matches ActionView::Send(request)
                && request.method == "POST"@ && request.path == pull_path(flow.images[at as int])))
        }),
{
}

/// What is read of a log are its last forty lines, all of them where there are
/// fewer.
pub proof fn last_lines_are_recent(raw: Seq<char>, i: int)
    ensures
        lines_of(raw).len() <= 40 ==> recent(raw) == lines_of(raw),
        lines_of(raw).len() > 40 ==> recent(raw).len() == 40,
        lines_of(raw).len() > 40 && 0 <= i < 40 ==> recent(raw)[i] == lines_of(
            raw,
        )[lines_of(raw).len() - 40 + i],
{
}

/// The console is left by `exit` or `quit`, in any case and with white space
/// around it, and by nothing of another length.
pub proof fn console_is_left_by_a_word(front: Seq<char>, back: Seq<char>, line: Seq<char>)
    requires
        forall|i: int| 0 <= i < front.len() ==> is_white(#[trigger] front[i]),
        forall|i: int| 0 <= i < back.len() ==> is_white(#[trigger] back[i]),
    ensures
        asks_to_leave(front + "exit"@ + back),
        asks_to_leave(front + "Quit"@ + back),
        trimmed(line).len() != 4 ==> !asks_to_leave(line),
{
    reveal_strlit("exit");
    reveal_strlit("quit");
    reveal_strlit("Quit");
    assert(lowered("Quit"@) =~= lowered("quit"@));
    trimming_takes_white_space_off(front, "exit"@, back);
    trimming_takes_white_space_off(front, "Quit"@, back);
    assert(lowered("exit"@).len() == 4 && lowered("quit"@).len() == 4);
    assert(lowered(trimmed(line)).len() == trimmed(line).len());
}

/// What is refused on the way to a start is told: a name that another container
/// has, settings that changed while the container runs, an image that is not
/// there and is not to be pulled, and that there is no image to try.
pub proof fn refusals_are_told(
    flow: FlowView,
    server: ServerView,
    host: HostView,
    host_user: Seq<char>,
    response: ResponseView,
    container: InspectView,
    at: usize,
)
    ensures
        flow.state == StartState::Creating && response.status == 409 ==> next_step(
            flow,
            server,
            host,
            host_user,
            EventView::Replied(Ok(response)),
        ) == Err::<(StartState, ActionView), Seq<char>>(
            "Docker container name already exists: "@ + flow.name,
        ),
        flow.state == StartState::Inspecting && manage_failure(container, server, host) is None
            && container.running && container.label("com.remiaft.config_hash"@) != Some(
            flow.config_hash,
        ) ==> next_step(flow, server, host, host_user, EventView::Inspected(Ok(Some(container))))
            == Err::<(StartState, ActionView), Seq<char>>(
            "Docker config changed for "@ + server.name
                + "; stop it before Remiaft recreates the container"@,
        ),
        flow.state == StartState::LookingForImage(at) && at < flow.images.len() && response.status
            == 404 && server.runtime.docker.image_policy == DockerImagePolicy::Never ==> next_step(
            flow,
            server,
            host,
            host_user,
            EventView::Replied(Ok(response)),
        ) == Err::<(StartState, ActionView), Seq<char>>(
            "Docker image not present and pull policy is never: "@ + flow.images[at as int],
        ),
        flow.state == StartState::SettingUp && flow.images.len() == 0 ==> next_step(
            flow,
            server,
            host,
            host_user,
            EventView::Done(Ok(())),
        ) == Err::<(StartState, ActionView), Seq<char>>("no Docker image candidates configured"@),
{
}

} // verus!
