//! Stopping a server's container, step by step. Each step says what to do
//! next; the outcome is handed to the step after it.

use vstd::prelude::*;
use vstd::utf8::encode_utf8;

use crate::config::{ServerConfig, ServerView};
use crate::container::{is_manageable, ContainerInspect, InspectView};
use crate::docker::{
    container_name, container_name_of, security_failure, validate_server_security, HostPaths,
    HostView, RuntimeStatus,
};
use crate::docker_api::{
    bare_request, percent_encoded, ApiErrorView, DockerClient, DockerRequest, DockerResponse,
    RequestView, ResponseView,
};
use crate::failure::Failure;
use crate::lifecycle::{
    container_path, ensure_existing_manageable_container, existing_failure, inspect_request,
    rcon_target, send_failure, stop_request, stop_step, target_of, RconTarget, StopStep, TargetView,
};
use crate::platform::Platform;
use crate::text::{glue3, opt_text};

verus! {

/// Where the stop of a server stands.
#[derive(Debug, Clone, Copy, PartialEq, Eq, Structural)]
pub enum StopState {
    Inspecting,
    Asking,
    Waiting,
    Forcing,
    Syncing,
    Finished,
}

/// The stop of one server: where it stands, and whether the server is only to
/// be interrupted.
#[derive(Debug, Clone, Copy, PartialEq, Eq, Structural)]
pub struct StopFlow {
    pub state: StopState,
    pub interrupting: bool,
}

/// What to do next.
#[derive(Debug)]
pub enum StopAction {
    /// Keep a note, if there is one. Then send a request about the container,
    /// and hand back what it tells.
    Inspect { note: Option<String>, request: DockerRequest },
    /// Send `stop` to the remote console, without waiting for an answer.
    Ask(RconTarget),
    /// Keep a note, if there is one, and wait a moment, if so told. Then look
    /// whether the server is running, and for how long it has been stopping.
    Look { note: Option<String>, pause: bool },
    /// Send a request, and hand back the reply.
    Send(DockerRequest),
    /// Bring the log file up to date.
    SyncLogs,
    /// Nothing: the stop has come to its end.
    Nothing,
}

#[verifier::ext_equal]
pub enum StopActionView {
    Inspect { note: Option<Seq<char>>, request: RequestView },
    Ask(TargetView),
    Look { note: Option<Seq<char>>, pause: bool },
    Send(RequestView),
    SyncLogs,
    Nothing,
}

impl View for StopAction {
    type V = StopActionView;

    open spec fn view(&self) -> StopActionView {
        match self {
            StopAction::Inspect { note, request } => StopActionView::Inspect {
                note: opt_text(*note),
                request: request@,
            },
            StopAction::Ask(target) => StopActionView::Ask(target@),
            StopAction::Look { note, pause } => StopActionView::Look {
                note: opt_text(*note),
                pause: *pause,
            },
            StopAction::Send(request) => StopActionView::Send(request@),
            StopAction::SyncLogs => StopActionView::SyncLogs,
            StopAction::Nothing => StopActionView::Nothing,
        }
    }
}

/// What came of it.
#[derive(Debug)]
pub enum StopEvent {
    Inspected(Result<Option<ContainerInspect>, String>),
    Asked(Result<(), String>),
    Looked { status: RuntimeStatus, elapsed_ms: u64 },
    Replied(Result<DockerResponse, String>),
    Synced,
}

#[verifier::ext_equal]
pub enum StopEventView {
    Inspected(Result<Option<InspectView>, Seq<char>>),
    Asked(Result<(), Seq<char>>),
    Looked { status: RuntimeStatus, elapsed_ms: u64 },
    Replied(Result<ResponseView, Seq<char>>),
    Synced,
}

impl View for StopEvent {
    type V = StopEventView;

    open spec fn view(&self) -> StopEventView {
        match self {
            StopEvent::Inspected(Ok(Some(container))) => StopEventView::Inspected(
                Ok(Some(container@)),
            ),
            StopEvent::Inspected(Ok(None)) => StopEventView::Inspected(Ok(None)),
            StopEvent::Inspected(Err(e)) => StopEventView::Inspected(Err(e@)),
            StopEvent::Asked(Ok(())) => StopEventView::Asked(Ok(())),
            StopEvent::Asked(Err(e)) => StopEventView::Asked(Err(e@)),
            StopEvent::Looked { status, elapsed_ms } => StopEventView::Looked {
                status: *status,
                elapsed_ms: *elapsed_ms,
            },
            StopEvent::Replied(Ok(response)) => StopEventView::Replied(Ok(response@)),
            StopEvent::Replied(Err(e)) => StopEventView::Replied(Err(e@)),
            StopEvent::Synced => StopEventView::Synced,
        }
    }
}

/// A step of the stop: where it stands then and what to do, or what went
/// wrong.
pub type StopView = Result<(StopFlow, StopActionView), Seq<char>>;

/// Whether the event is what the state waits for.
pub open spec fn fits(state: StopState, event: StopEventView) -> bool {
    match state {
        StopState::Inspecting => event is Inspected,
        StopState::Asking => event is Asked,
        StopState::Waiting => event is Looked,
        StopState::Forcing => event is Replied,
        StopState::Syncing => event is Synced,
        StopState::Finished => false,
    }
}

/// What is noted where a server could not be stopped by its remote console.
pub open spec fn stop_note(error: Seq<char>) -> Seq<char> {
    "RCON stop failed, falling back to Docker stop: "@ + error + "\n"@
}

/// What is noted where a server could not be interrupted by its remote
/// console.
pub open spec fn interrupt_note(error: Seq<char>) -> Seq<char> {
    "RCON interrupt failed, falling back to Docker stop: "@ + error + "\n"@
}

/// The request that asks about the server's container.
pub open spec fn inspection(server: ServerView) -> RequestView {
    bare_request("GET"@, container_path(container_name_of(server), "/json"@))
}

/// What follows where the remote console could not be told to stop: a stop
/// goes on without it, and an interruption becomes a stop.
pub open spec fn after_failed_ask(flow: StopFlow, server: ServerView, error: Seq<char>) -> StopView {
    if flow.interrupting {
        Ok(
            (
                StopFlow { state: StopState::Inspecting, interrupting: false },
                StopActionView::Inspect {
                    note: Some(interrupt_note(error)),
                    request: inspection(server),
                },
            ),
        )
    } else {
        Ok(
            (
                StopFlow { state: StopState::Waiting, ..flow },
                StopActionView::Look { note: Some(stop_note(error)), pause: false },
            ),
        )
    }
}

/// What follows once the engine has told of the container.
pub open spec fn after_inspection(
    flow: StopFlow,
    server: ServerView,
    host: HostView,
    found: Option<InspectView>,
) -> StopView {
    match existing_failure(server, host, found) {
        Some(e) => Err(e),
        None => match target_of(server) {
            Ok(target) => Ok(
                (StopFlow { state: StopState::Asking, ..flow }, StopActionView::Ask(target)),
            ),
            Err(e) => after_failed_ask(flow, server, e),
        },
    }
}

/// What follows once it was looked whether the server is running: one that has
/// not stopped by itself in thirty seconds is stopped by the engine.
pub open spec fn after_look(
    flow: StopFlow,
    server: ServerView,
    status: RuntimeStatus,
    elapsed_ms: u64,
) -> StopView {
    if elapsed_ms >= 30000 {
        Ok(
            (
                StopFlow { state: StopState::Forcing, ..flow },
                StopActionView::Send(
                    bare_request(
                        "POST"@,
                        container_path(container_name_of(server), "/stop?t=10"@),
                    ),
                ),
            ),
        )
    } else if status == RuntimeStatus::Running {
        Ok((flow, StopActionView::Look { note: None, pause: true }))
    } else {
        Ok((StopFlow { state: StopState::Syncing, ..flow }, StopActionView::SyncLogs))
    }
}

/// The step that follows on an event.
pub open spec fn next_stop(
    flow: StopFlow,
    server: ServerView,
    host: HostView,
    event: StopEventView,
) -> StopView {
    match (flow.state, event) {
        (StopState::Inspecting, StopEventView::Inspected(Ok(found))) => after_inspection(
            flow,
            server,
            host,
            found,
        ),
        (StopState::Inspecting, StopEventView::Inspected(Err(e))) => Err(e),
        (StopState::Asking, StopEventView::Asked(Ok(()))) => if flow.interrupting {
            Ok((StopFlow { state: StopState::Finished, ..flow }, StopActionView::Nothing))
        } else {
            Ok(
                (
                    StopFlow { state: StopState::Waiting, ..flow },
                    StopActionView::Look { note: None, pause: false },
                ),
            )
        },
        (StopState::Asking, StopEventView::Asked(Err(e))) => after_failed_ask(flow, server, e),
        (StopState::Waiting, StopEventView::Looked { status, elapsed_ms }) => after_look(
            flow,
            server,
            status,
            elapsed_ms,
        ),
        (StopState::Forcing, StopEventView::Replied(reply)) => match send_failure(reply) {
            Some(e) => Err(e),
            None => Ok(
                (StopFlow { state: StopState::Syncing, ..flow }, StopActionView::SyncLogs),
            ),
        },
        (StopState::Syncing, StopEventView::Synced) => Ok(
            (StopFlow { state: StopState::Finished, ..flow }, StopActionView::Nothing),
        ),
        _ => Err(Seq::empty()),
    }
}

/// How a stop begins: a server that is refused, or on a system without an
/// engine, is not stopped.
pub open spec fn first_stop(
    server: ServerView,
    host: HostView,
    interrupting: bool,
) -> StopView {
    match security_failure(server, host) {
        Some(e) => Err(e),
        None => if host.platform == Platform::Windows {
            Err(ApiErrorView::Unsupported.words())
        } else {
            Ok(
                (
                    StopFlow { state: StopState::Inspecting, interrupting },
                    StopActionView::Inspect { note: None, request: inspection(server) },
                ),
            )
        },
    }
}

/// Whether a result is the step.
pub open spec fn is_step(r: Result<(StopFlow, StopAction), Failure>, step: StopView) -> bool {
    match r {
        Ok((flow, action)) => step == Ok::<(StopFlow, StopActionView), Seq<char>>((flow, action@)),
        Err(e) => step == Err::<(StopFlow, StopActionView), Seq<char>>(e@),
    }
}

fn begin(server: &ServerConfig, host: &HostPaths, interrupting: bool) -> (r:
    Result<(StopFlow, StopAction), Failure>)
    ensures
        is_step(r, first_stop(server@, host@, interrupting)),
{
    if let Err(e) = validate_server_security(server, host) {
        return Err(e);
    }
    if let Err(e) = DockerClient::connect(host.platform) {
        return Err(Failure { message: e.message() });
    }
    let name = container_name(server);
    let request = inspect_request(name.as_str());
    Ok(
        (
            StopFlow { state: StopState::Inspecting, interrupting },
            StopAction::Inspect { note: None, request },
        ),
    )
}

/// Begins the stop of a server.
pub fn stop_server(server: &ServerConfig, host: &HostPaths) -> (r: Result<
    (StopFlow, StopAction),
    Failure,
>)
    ensures
        is_step(r, first_stop(server@, host@, false)),
{
    begin(server, host, false)
}

/// Begins the interruption of a server.
pub fn interrupt_server(server: &ServerConfig, host: &HostPaths) -> (r: Result<
    (StopFlow, StopAction),
    Failure,
>)
    ensures
        is_step(r, first_stop(server@, host@, true)),
{
    begin(server, host, true)
}

impl StopFlow {
    fn failed_ask(self, server: &ServerConfig, error: &str) -> (r: (StopFlow, StopAction))
        ensures
            is_step(Ok(r), after_failed_ask(self, server@, error@)),
    {
        if self.interrupting {
            let name = container_name(server);
            let note = glue3("RCON interrupt failed, falling back to Docker stop: ", error, "\n");
            (
                StopFlow { state: StopState::Inspecting, interrupting: false },
                StopAction::Inspect { note: Some(note), request: inspect_request(name.as_str()) },
            )
        } else {
            let note = glue3("RCON stop failed, falling back to Docker stop: ", error, "\n");
            (
                StopFlow { state: StopState::Waiting, interrupting: self.interrupting },
                StopAction::Look { note: Some(note), pause: false },
            )
        }
    }

    fn inspected(self, server: &ServerConfig, host: &HostPaths, found: &Option<ContainerInspect>) -> (r:
        Result<(StopFlow, StopAction), Failure>)
        ensures
            is_step(
                r,
                after_inspection(
                    self,
                    server@,
                    host@,
                    match found {
                        Some(container) => Some(container@),
                        None => None,
                    },
                ),
            ),
    {
        if let Err(e) = ensure_existing_manageable_container(server, host, found) {
            return Err(e);
        }
        match rcon_target(server) {
            Ok(target) => Ok(
                (
                    StopFlow { state: StopState::Asking, interrupting: self.interrupting },
                    StopAction::Ask(target),
                ),
            ),
            Err(e) => Ok(self.failed_ask(server, e.message.as_str())),
        }
    }

    fn looked(self, server: &ServerConfig, status: RuntimeStatus, elapsed_ms: u64) -> (r: (
        StopFlow,
        StopAction,
    ))
        ensures
            is_step(Ok(r), after_look(self, server@, status, elapsed_ms)),
    {
        match stop_step(elapsed_ms, status == RuntimeStatus::Running) {
            StopStep::Force => {
                let name = container_name(server);
                (
                    StopFlow { state: StopState::Forcing, interrupting: self.interrupting },
                    StopAction::Send(stop_request(name.as_str())),
                )
            },
            StopStep::Wait => (self, StopAction::Look { note: None, pause: true }),
            StopStep::Stopped => (
                StopFlow { state: StopState::Syncing, interrupting: self.interrupting },
                StopAction::SyncLogs,
            ),
        }
    }

    fn step(self, server: &ServerConfig, host: &HostPaths, event: StopEvent) -> (r: Result<
        (StopFlow, StopAction),
        Failure,
    >)
        requires
            fits(self.state, event@),
        ensures
            is_step(r, next_stop(self, server@, host@, event@)),
    {
        match event {
            StopEvent::Inspected(Ok(found)) => self.inspected(server, host, &found),
            StopEvent::Inspected(Err(message)) => Err(Failure { message }),
            StopEvent::Asked(Ok(())) => if self.interrupting {
                Ok(
                    (
                        StopFlow { state: StopState::Finished, interrupting: self.interrupting },
                        StopAction::Nothing,
                    ),
                )
            } else {
                Ok(
                    (
                        StopFlow { state: StopState::Waiting, interrupting: self.interrupting },
                        StopAction::Look { note: None, pause: false },
                    ),
                )
            },
            StopEvent::Asked(Err(message)) => Ok(self.failed_ask(server, message.as_str())),
            StopEvent::Looked { status, elapsed_ms } => Ok(self.looked(server, status, elapsed_ms)),
            StopEvent::Replied(Ok(response)) => match response.ensure_success() {
                Ok(()) => Ok(
                    (
                        StopFlow { state: StopState::Syncing, interrupting: self.interrupting },
                        StopAction::SyncLogs,
                    ),
                ),
                Err(e) => Err(Failure { message: e.message() }),
            },
            StopEvent::Replied(Err(message)) => Err(Failure { message }),
            StopEvent::Synced => Ok(
                (
                    StopFlow { state: StopState::Finished, interrupting: self.interrupting },
                    StopAction::Nothing,
                ),
            ),
        }
    }

    /// Takes the outcome of an action and says what to do next.
    pub fn advance(&mut self, server: &ServerConfig, host: &HostPaths, event: StopEvent) -> (r: Result<
        StopAction,
        Failure,
    >)
        requires
            fits(old(self).state, event@),
        ensures
            match next_stop(*old(self), server@, host@, event@) {
                Ok((flow, action)) => r matches Ok(next) && next@ == action && *final(self) == flow,
                Err(problem) => r matches Err(e) && e@ == problem && *final(self) == *old(self),
            },
    {
        match self.step(server, host, event) {
            Ok((flow, action)) => {
                *self = flow;
                Ok(action)
            },
            Err(e) => Err(e),
        }
    }
}

/// A container that was not made for the server is left alone: nothing is
/// sent to it, nor to the engine about it.
pub proof fn foreign_container_is_not_stopped(
    flow: StopFlow,
    server: ServerView,
    host: HostView,
    container: InspectView,
)
    requires
        flow.state == StopState::Inspecting,
        !is_manageable(container, server),
    ensures
        next_stop(flow, server, host, StopEventView::Inspected(Ok(Some(container)))) is Err,
{
}

/// The engine is told to stop a container only after the server had thirty
/// seconds to stop by itself.
pub proof fn force_comes_last(
    flow: StopFlow,
    server: ServerView,
    host: HostView,
    event: StopEventView,
)
    requires
        next_stop(flow, server, host, event) matches Ok((_, StopActionView::Send(_))),
    ensures
        flow.state == StopState::Waiting,
        event matches StopEventView::Looked { elapsed_ms, .. } && elapsed_ms >= 30000,
{
}

/// A server that stops by itself in time is not stopped by the engine: its log
/// is brought up to date, and the stop has come to its end.
pub proof fn stopped_server_is_not_forced(
    flow: StopFlow,
    server: ServerView,
    host: HostView,
    status: RuntimeStatus,
    elapsed_ms: u64,
)
    requires
        flow.state == StopState::Waiting,
        status != RuntimeStatus::Running,
        elapsed_ms < 30000,
    ensures
        ({
            let synced = StopFlow { state: StopState::Syncing, ..flow };
            let finished = StopFlow { state: StopState::Finished, ..flow };
            &&& next_stop(flow, server, host, StopEventView::Looked { status, elapsed_ms }) == Ok::<
                (StopFlow, StopActionView),
                Seq<char>,
            >((synced, StopActionView::SyncLogs))
            &&& next_stop(synced, server, host, StopEventView::Synced) == Ok::<
                (StopFlow, StopActionView),
                Seq<char>,
            >((finished, StopActionView::Nothing))
        }),
{
}

/// Whether the request is a bare one about the server's container.
pub open spec fn is_about(
    request: RequestView,
    method: Seq<char>,
    server: ServerView,
    behind: Seq<char>,
) -> bool {
    request.method == method && request.path == "/containers/"@ + percent_encoded(
        encode_utf8(container_name_of(server)),
        true,
    ) + behind && request.body.len() == 0
}

/// A stop begins by looking at the server's container, and only where the server
/// may run in one.
pub proof fn stop_begins_with_a_look(server: ServerView, host: HostView, interrupting: bool)
    ensures
        ({
            let step = first_stop(server, host, interrupting);
            &&& step is Ok <==> security_failure(server, host) is None && host.platform
                == Platform::Unix
            &&& step matches Ok((flow, action)) ==> flow.state == StopState::Inspecting
                && flow.interrupting == interrupting && (action matches StopActionView::Inspect {
                note,
                request,
            } && note is None && is_about(request, "GET"@, server, "/json"@))
        }),
{
}

/// A container that may be managed is asked to stop through its console; where
/// that cannot be done, a stop goes on to wait and an interruption looks again,
/// to stop the container instead. What went wrong is noted.
pub proof fn console_is_asked_first(
    flow: StopFlow,
    server: ServerView,
    host: HostView,
    found: Option<InspectView>,
    e: Seq<char>,
)
    requires
        flow.state == StopState::Inspecting,
    ensures
        ({
            let step = next_stop(flow, server, host, StopEventView::Inspected(Ok(found)));
            &&& existing_failure(server, host, found) is Some ==> step is Err
            &&& existing_failure(server, host, found) is None && target_of(server) is Ok ==> (
            step matches Ok((next, action)) && next.state == StopState::Asking && next.interrupting
                == flow.interrupting && action == StopActionView::Ask(target_of(server)->Ok_0))
            &&& existing_failure(server, host, found) is None && target_of(server) == Err::<
                TargetView,
                Seq<char>,
            >(e) && !flow.interrupting ==> (step matches Ok((next, action)) && next.state
                == StopState::Waiting && action == StopActionView::Look {
                note: Some("RCON stop failed, falling back to Docker stop: "@ + e + "\n"@),
                pause: false,
            })
            &&& next_stop(flow, server, host, StopEventView::Inspected(Err(e))) == Err::<
                (StopFlow, StopActionView),
                Seq<char>,
            >(e)
        }),
{
}

/// What follows on the answer of the console: an interruption is done, a stop
/// waits for the server; a refusal is noted, and the container is stopped.
pub proof fn answer_of_the_console_counts(
    flow: StopFlow,
    server: ServerView,
    host: HostView,
    e: Seq<char>,
)
    requires
        flow.state == StopState::Asking,
    ensures
        ({
            let heard = next_stop(flow, server, host, StopEventView::Asked(Ok(())));
            let refused = next_stop(flow, server, host, StopEventView::Asked(Err(e)));
            if flow.interrupting {
                &&& (heard matches Ok((next, action)) && next.state == StopState::Finished && action
                    == StopActionView::Nothing)
                &&& (refused matches Ok((next, action)) && next.state == StopState::Inspecting
                    && !next.interrupting && (action matches StopActionView::Inspect {
                    note,
                    request,
                } && note == Some(
                    "RCON interrupt failed, falling back to Docker stop: "@ + e + "\n"@,
                ) && is_about(request, "GET"@, server, "/json"@)))
            } else {
                &&& (heard matches Ok((next, action)) && next.state == StopState::Waiting && action
                    == StopActionView::Look { note: None, pause: false })
                &&& (refused matches Ok((next, action)) && next.state == StopState::Waiting && action
                    == StopActionView::Look {
                    note: Some("RCON stop failed, falling back to Docker stop: "@ + e + "\n"@),
                    pause: false,
                })
            }
        }),
{
}

/// A server that runs is waited for, for up to half a minute; then its container
/// is stopped. Once it has stopped, its log is read to the end, and that is all.
pub proof fn server_is_waited_for(
    flow: StopFlow,
    server: ServerView,
    host: HostView,
    status: RuntimeStatus,
    elapsed_ms: u64,
)
    requires
        flow.state == StopState::Waiting,
    ensures
        ({
            let step = next_stop(
                flow,
                server,
                host,
                StopEventView::Looked { status, elapsed_ms },
            );
            &&& elapsed_ms >= 30000 ==> (step matches Ok((next, action)) && next.state
                == StopState::Forcing && (action matches StopActionView::Send(request) && is_about(
                request,
                "POST"@,
                server,
                "/stop?t=10"@,
            )))
            &&& elapsed_ms < 30000 && status == RuntimeStatus::Running ==> (step matches Ok(
                (next, action),
            ) && next == flow && action == StopActionView::Look { note: None, pause: true })
            &&& elapsed_ms < 30000 && status != RuntimeStatus::Running ==> (step matches Ok(
                (next, action),
            ) && next.state == StopState::Syncing && action == StopActionView::SyncLogs)
        }),
{
}

/// A container that was stopped has its log read, one that could not be stopped
/// is a failure, and a log that was read ends the stop.
pub proof fn stop_ends_with_the_log(
    flow: StopFlow,
    server: ServerView,
    host: HostView,
    response: ResponseView,
    e: Seq<char>,
)
    ensures
        flow.state == StopState::Forcing ==> {
            let step = next_stop(flow, server, host, StopEventView::Replied(Ok(response)));
            let lost = next_stop(flow, server, host, StopEventView::Replied(Err(e)));
            let well = 200 <= response.status <= 299 || response.status == 304;
            &&& well ==> (step matches Ok((next, action)) && next.state == StopState::Syncing
                && action == StopActionView::SyncLogs)
            &&& !well ==> step is Err
            &&& lost == Err::<(StopFlow, StopActionView), Seq<char>>(e)
        },
        flow.state == StopState::Syncing ==> (next_stop(
            flow,
            server,
            host,
            StopEventView::Synced,
        ) matches Ok((next, action)) && next.state == StopState::Finished && action
            == StopActionView::Nothing),
{
}

} // verus!
