//! The agent that connects the daemon to the cloud.

use vstd::prelude::*;
use crate::protocol::{
    infos, opt_texts, ProcessInfo, ProcessInfoView, Request, RequestView, Response, ResponseView,
    UpdateView,
};
use crate::text::{cat2, opt_text};

verus! {

/// The seconds between two heartbeats.
pub const HEARTBEAT_INTERVAL: u64 = 30;

/// The seconds between two reports of the processes.
pub const STATUS_INTERVAL: u64 = 10;

/// The longest wait before a new connection, in seconds.
pub const MAX_BACKOFF: u64 = 300;

/// The first wait before a new connection, in seconds.
pub const INITIAL_BACKOFF: u64 = 1;

/// Where the agent connects to.
pub const DEFAULT_CLOUD_URL: &'static str = "wss://cloud.nyrun.dev/agent/ws";

/// The key under which the store keeps the key of the account.
pub const CLOUD_API_KEY: &'static str = "cloud:api_key";

/// The key under which the store keeps the address of the cloud.
pub const CLOUD_SERVER_URL: &'static str = "cloud:server_url";

// ---------------------------------------------------------------------------
// Messages
// ---------------------------------------------------------------------------

/// A message between the agent and the cloud.
#[derive(Debug, PartialEq, Eq)]
pub enum CloudMessage {
    /// To the cloud: who the agent is.
    Auth { api_key: String },
    /// To the cloud: the agent is there.
    Heartbeat,
    /// To the cloud: the processes.
    Status { processes: Vec<ProcessInfo> },
    /// To the cloud: a part of a log.
    Logs { name: String, data: String },
    /// From the cloud: a command.
    Command { action: CloudAction },
    /// From the cloud: the agent is welcome.
    AuthOk,
    /// From the cloud: something is wrong.
    Error { message: String },
}

/// A command of the cloud.
#[derive(Debug, PartialEq, Eq)]
pub enum CloudAction {
    Restart { name: String },
    Reload { name: String },
    Del { name: String },
    Update {
        name: String,
        port: Option<String>,
        ssl: Option<Vec<String>>,
        acme: Option<String>,
        env_file: Option<String>,
        args: Option<String>,
        image: Option<String>,
    },
}

/// The contents of a `CloudMessage`.
#[verifier::ext_equal]
pub enum CloudMessageView {
    Auth(Seq<char>),
    Heartbeat,
    Status(Seq<ProcessInfoView>),
    Logs(Seq<char>, Seq<char>),
    Command(RequestView),
    AuthOk,
    Error(Seq<char>),
}

/// The request that a command stands for.
pub open spec fn action_request(action: CloudAction) -> RequestView {
    match action {
        CloudAction::Restart { name } => RequestView::Restart(name@),
        CloudAction::Reload { name } => RequestView::Reload(name@),
        CloudAction::Del { name } => RequestView::Del(name@),
        CloudAction::Update { name, port, ssl, acme, env_file, args, image } => RequestView::Update(
            UpdateView {
                name: name@,
                port: opt_text(port),
                ssl: opt_texts(ssl),
                acme: opt_text(acme),
                env_file: opt_text(env_file),
                args: opt_text(args),
                image: opt_text(image),
            },
        ),
    }
}

impl View for CloudMessage {
    type V = CloudMessageView;

    open spec fn view(&self) -> CloudMessageView {
        match *self {
            CloudMessage::Auth { api_key } => CloudMessageView::Auth(api_key@),
            CloudMessage::Heartbeat => CloudMessageView::Heartbeat,
            CloudMessage::Status { processes } => CloudMessageView::Status(infos(processes@)),
            CloudMessage::Logs { name, data } => CloudMessageView::Logs(name@, data@),
            CloudMessage::Command { action } => CloudMessageView::Command(action_request(action)),
            CloudMessage::AuthOk => CloudMessageView::AuthOk,
            CloudMessage::Error { message } => CloudMessageView::Error(message@),
        }
    }
}

/// The request that a command of the cloud stands for.
pub fn cloud_request(action: CloudAction) -> (r: Request)
    ensures
        r@ == action_request(action),
{
    match action {
        CloudAction::Restart { name } => Request::Restart { name },
        CloudAction::Reload { name } => Request::Reload { name },
        CloudAction::Del { name } => Request::Del { name },
        CloudAction::Update { name, port, ssl, acme, env_file, args, image } => {
            Request::Update { name, port, ssl, acme, env_file, args, image }
        },
    }
}

/// The contents of what sending a request gave.
pub open spec fn sent_view(sent: Result<Response, String>) -> ResponseView {
    match sent {
        Ok(r) => r@,
        Err(e) => ResponseView::Error("IPC error: "@ + e@),
    }
}

/// What the cloud is answered, from what sending the request to the daemon gave.
pub fn cloud_response(sent: Result<Response, String>) -> (r: Response)
    ensures
        r@ == sent_view(sent),
{
    match sent {
        Ok(r) => r,
        Err(e) => Response::Error(cat2("IPC error: ", e.as_str())),
    }
}

// ---------------------------------------------------------------------------
// Connections
// ---------------------------------------------------------------------------

/// The agent.
#[derive(Debug, PartialEq, Eq)]
pub struct CloudAgent {
    pub api_key: String,
    pub server_url: String,
    /// The seconds that the next wait takes, should the connection fail.
    pub backoff: u64,
}

/// What happened to a connection.
#[derive(Debug, PartialEq, Eq)]
pub enum AgentEvent {
    /// The agent is asked to stop.
    Shutdown,
    /// The connection was closed in good order.
    Closed,
    /// The connection failed.
    Failed,
    /// The wait is over.
    Waited,
}

/// What the agent does next.
#[derive(Clone, Copy, Debug, PartialEq, Eq, Structural)]
pub enum AgentAction {
    Connect,
    /// Wait some seconds.
    Wait(u64),
    Stop,
}

/// The wait after the next one: twice as long, up to the longest.
pub open spec fn longer(backoff: int) -> int {
    if 2 * backoff <= MAX_BACKOFF {
        2 * backoff
    } else {
        MAX_BACKOFF as int
    }
}

impl CloudAgent {
    /// A wait is neither shorter than the first nor longer than the longest.
    pub open spec fn valid(self) -> bool {
        INITIAL_BACKOFF <= self.backoff <= MAX_BACKOFF
    }

    /// An agent that has not connected yet.
    pub fn new(api_key: String, server_url: String) -> (r: CloudAgent)
        ensures
            r.valid(),
            r == (CloudAgent { api_key, server_url, backoff: INITIAL_BACKOFF }),
    {
        CloudAgent { api_key, server_url, backoff: INITIAL_BACKOFF }
    }

    /// What the agent does after an event. A connection that was closed in good order
    /// makes the waits short again; every wait makes the next one twice as long.
    pub fn run(&mut self, event: AgentEvent) -> (r: AgentAction)
        requires
            old(self).valid(),
        ensures
            final(self).valid(),
            final(self).api_key == old(self).api_key,
            final(self).server_url == old(self).server_url,
            match event {
                AgentEvent::Shutdown => {
                    &&& r == AgentAction::Stop
                    &&& final(self).backoff == old(self).backoff
                },
                AgentEvent::Closed => {
                    &&& r == AgentAction::Wait(INITIAL_BACKOFF)
                    &&& final(self).backoff == INITIAL_BACKOFF
                },
                AgentEvent::Failed => {
                    &&& r == AgentAction::Wait(old(self).backoff)
                    &&& final(self).backoff == old(self).backoff
                },
                AgentEvent::Waited => {
                    &&& r == AgentAction::Connect
                    &&& final(self).backoff == longer(old(self).backoff as int)
                },
            },
    {
        match event {
            AgentEvent::Shutdown => AgentAction::Stop,
            AgentEvent::Closed => {
                self.backoff = INITIAL_BACKOFF;
                AgentAction::Wait(self.backoff)
            },
            AgentEvent::Failed => AgentAction::Wait(self.backoff),
            AgentEvent::Waited => {
                let doubled = self.backoff * 2;
                self.backoff = if doubled <= MAX_BACKOFF {
                    doubled
                } else {
                    MAX_BACKOFF
                };
                AgentAction::Connect
            },
        }
    }
}

/// The wait after `n` connections in a row have failed.
pub open spec fn backoff_after(n: nat) -> int
    decreases n,
{
    if n == 0 {
        INITIAL_BACKOFF as int
    } else {
        longer(backoff_after((n - 1) as nat))
    }
}

/// The waits grow as powers of two, and stay at the longest from the ninth failure on.
pub proof fn law_backoff(n: nat)
    ensures
        n <= 8 ==> backoff_after(n) == vstd::arithmetic::power2::pow2(n),
        n >= 9 ==> backoff_after(n) == MAX_BACKOFF,
    decreases n,
{
    vstd::arithmetic::power2::lemma2_to64();
    if n > 0 {
        law_backoff((n - 1) as nat);
    }
}

// ---------------------------------------------------------------------------
// A session
// ---------------------------------------------------------------------------

/// What the agent is sending.
#[derive(Clone, Copy, Debug, PartialEq, Eq, Structural)]
pub enum Outgoing {
    Heartbeat,
    Status,
    Reply,
}

/// Where a session stands.
#[derive(Clone, Copy, Debug, PartialEq, Eq, Structural)]
pub enum SessionState {
    Connecting,
    SendingAuth,
    /// Waiting for the answer to who the agent is.
    Authenticating,
    /// Waiting for a timer or a message.
    Ready,
    Sending(Outgoing),
    /// Waiting for the daemon's answer to a command.
    Executing,
}

/// What happens in a session.
#[derive(Debug, PartialEq, Eq)]
pub enum SessionEvent {
    Connected,
    /// What was sent is on its way.
    Sent,
    /// The step under way failed.
    Failed(String),
    /// A text came: the message that it was read as, where it is one.
    Text { raw: String, message: Option<CloudMessage> },
    /// A ping came, and how it is printed.
    Ping(String),
    /// The cloud closes the connection, and how that is printed.
    Close(String),
    /// Another kind of message came, and how it is printed.
    Other(String),
    /// The connection ended.
    Ended,
    HeartbeatDue,
    StatusDue(Vec<ProcessInfo>),
    /// The daemon answered.
    Executed(Response),
}

/// The contents of a `SessionEvent`.
#[verifier::ext_equal]
pub enum SessionEventView {
    Connected,
    Sent,
    Failed(Seq<char>),
    Text(Seq<char>, Option<CloudMessageView>),
    Ping(Seq<char>),
    Close(Seq<char>),
    Other(Seq<char>),
    Ended,
    HeartbeatDue,
    StatusDue(Seq<ProcessInfoView>),
    Executed(ResponseView),
}

impl View for SessionEvent {
    type V = SessionEventView;

    open spec fn view(&self) -> SessionEventView {
        match *self {
            SessionEvent::Connected => SessionEventView::Connected,
            SessionEvent::Sent => SessionEventView::Sent,
            SessionEvent::Failed(e) => SessionEventView::Failed(e@),
            SessionEvent::Text { raw, message } => SessionEventView::Text(
                raw@,
                match message {
                    Some(m) => Some(m@),
                    None => None,
                },
            ),
            SessionEvent::Ping(d) => SessionEventView::Ping(d@),
            SessionEvent::Close(d) => SessionEventView::Close(d@),
            SessionEvent::Other(d) => SessionEventView::Other(d@),
            SessionEvent::Ended => SessionEventView::Ended,
            SessionEvent::HeartbeatDue => SessionEventView::HeartbeatDue,
            SessionEvent::StatusDue(p) => SessionEventView::StatusDue(infos(p@)),
            SessionEvent::Executed(r) => SessionEventView::Executed(r@),
        }
    }
}

/// What a session does next.
#[derive(Debug, PartialEq, Eq)]
pub enum SessionAction {
    /// Wait for what happens.
    Await,
    Send(CloudMessage),
    /// Answer a ping; whether that succeeds does not matter.
    Pong,
    /// Hand a request to the daemon.
    Execute(Request),
    /// Send the daemon's answer.
    Reply(Response),
    /// The session is over.
    Finish(Result<(), String>),
}

/// The contents of a `SessionAction`.
#[verifier::ext_equal]
pub enum SessionActionView {
    Await,
    Send(CloudMessageView),
    Pong,
    Execute(RequestView),
    Reply(ResponseView),
    Finish(Result<(), Seq<char>>),
}

impl View for SessionAction {
    type V = SessionActionView;

    open spec fn view(&self) -> SessionActionView {
        match *self {
            SessionAction::Await => SessionActionView::Await,
            SessionAction::Send(m) => SessionActionView::Send(m@),
            SessionAction::Pong => SessionActionView::Pong,
            SessionAction::Execute(q) => SessionActionView::Execute(q@),
            SessionAction::Reply(r) => SessionActionView::Reply(r@),
            SessionAction::Finish(Ok(())) => SessionActionView::Finish(Ok(())),
            SessionAction::Finish(Err(e)) => SessionActionView::Finish(Err(e@)),
        }
    }
}

/// The end of a session that failed.
pub open spec fn failed(e: Seq<char>) -> SessionActionView {
    SessionActionView::Finish(Err(e))
}

/// How the failure of what was being sent is reported.
pub open spec fn send_failure(what: Outgoing, e: Seq<char>) -> Seq<char> {
    match what {
        Outgoing::Heartbeat => "heartbeat send failed: "@ + e,
        Outgoing::Status => "status push failed: "@ + e,
        Outgoing::Reply => "command response send failed: "@ + e,
    }
}

/// What a session does on an event. Events that mean nothing to the present state
/// leave it as it is.
pub open spec fn session_next(
    state: SessionState,
    api_key: Seq<char>,
    event: SessionEventView,
) -> (SessionState, SessionActionView) {
    match state {
        SessionState::Connecting => match event {
            SessionEventView::Connected => (
                SessionState::SendingAuth,
                SessionActionView::Send(CloudMessageView::Auth(api_key)),
            ),
            SessionEventView::Failed(e) => (state, failed("WebSocket connect failed: "@ + e)),
            _ => (state, SessionActionView::Await),
        },
        SessionState::SendingAuth => match event {
            SessionEventView::Sent => (SessionState::Authenticating, SessionActionView::Await),
            SessionEventView::Failed(e) => (state, failed("failed to send auth: "@ + e)),
            _ => (state, SessionActionView::Await),
        },
        SessionState::Authenticating => match event {
            SessionEventView::Text(_, Some(CloudMessageView::AuthOk)) => (
                SessionState::Ready,
                SessionActionView::Await,
            ),
            SessionEventView::Text(_, Some(CloudMessageView::Error(m))) => (
                state,
                failed("cloud auth rejected: "@ + m),
            ),
            SessionEventView::Text(raw, _) => (state, failed("unexpected auth response: "@ + raw)),
            SessionEventView::Ping(d) => (
                state,
                failed("unexpected message type during auth: "@ + d),
            ),
            SessionEventView::Close(d) => (
                state,
                failed("unexpected message type during auth: "@ + d),
            ),
            SessionEventView::Other(d) => (
                state,
                failed("unexpected message type during auth: "@ + d),
            ),
            SessionEventView::Failed(e) => (state, failed("WebSocket error during auth: "@ + e)),
            SessionEventView::Ended => (state, failed("connection closed during auth"@)),
            _ => (state, SessionActionView::Await),
        },
        SessionState::Ready => match event {
            SessionEventView::HeartbeatDue => (
                SessionState::Sending(Outgoing::Heartbeat),
                SessionActionView::Send(CloudMessageView::Heartbeat),
            ),
            SessionEventView::StatusDue(p) => (
                SessionState::Sending(Outgoing::Status),
                SessionActionView::Send(CloudMessageView::Status(p)),
            ),
            SessionEventView::Text(_, Some(CloudMessageView::Command(q))) => (
                SessionState::Executing,
                SessionActionView::Execute(q),
            ),
            SessionEventView::Ping(_) => (state, SessionActionView::Pong),
            SessionEventView::Close(_) => (state, SessionActionView::Finish(Ok(()))),
            SessionEventView::Failed(e) => (state, failed("WebSocket error: "@ + e)),
            SessionEventView::Ended => (state, SessionActionView::Finish(Ok(()))),
            _ => (state, SessionActionView::Await),
        },
        SessionState::Sending(what) => match event {
            SessionEventView::Sent => (SessionState::Ready, SessionActionView::Await),
            SessionEventView::Failed(e) => (state, failed(send_failure(what, e))),
            _ => (state, SessionActionView::Await),
        },
        SessionState::Executing => match event {
            SessionEventView::Executed(r) => (
                SessionState::Sending(Outgoing::Reply),
                SessionActionView::Reply(r),
            ),
            _ => (state, SessionActionView::Await),
        },
    }
}

fn fail(prefix: &str, e: &str) -> (r: SessionAction)
    ensures
        r@ == failed(prefix@ + e@),
{
    SessionAction::Finish(Err(cat2(prefix, e)))
}

fn authenticated(event: SessionEvent) -> (r: (SessionState, SessionAction))
    ensures
        (r.0, r.1@) == session_next(SessionState::Authenticating, Seq::empty(), event@),
{
    let state = SessionState::Authenticating;
    match event {
        SessionEvent::Text { raw, message } => match message {
            Some(CloudMessage::AuthOk) => (SessionState::Ready, SessionAction::Await),
            Some(CloudMessage::Error { message }) => (
                state,
                fail("cloud auth rejected: ", message.as_str()),
            ),
            _ => (state, fail("unexpected auth response: ", raw.as_str())),
        },
        SessionEvent::Ping(d) => (
            state,
            fail("unexpected message type during auth: ", d.as_str()),
        ),
        SessionEvent::Close(d) => (
            state,
            fail("unexpected message type during auth: ", d.as_str()),
        ),
        SessionEvent::Other(d) => (
            state,
            fail("unexpected message type during auth: ", d.as_str()),
        ),
        SessionEvent::Failed(e) => (state, fail("WebSocket error during auth: ", e.as_str())),
        SessionEvent::Ended => (
            state,
            SessionAction::Finish(Err("connection closed during auth".to_string())),
        ),
        _ => (state, SessionAction::Await),
    }
}

fn ready(event: SessionEvent) -> (r: (SessionState, SessionAction))
    ensures
        (r.0, r.1@) == session_next(SessionState::Ready, Seq::empty(), event@),
{
    let state = SessionState::Ready;
    match event {
        SessionEvent::HeartbeatDue => (
            SessionState::Sending(Outgoing::Heartbeat),
            SessionAction::Send(CloudMessage::Heartbeat),
        ),
        SessionEvent::StatusDue(processes) => (
            SessionState::Sending(Outgoing::Status),
            SessionAction::Send(CloudMessage::Status { processes }),
        ),
        SessionEvent::Text { raw: _, message } => match message {
            Some(CloudMessage::Command { action }) => (
                SessionState::Executing,
                SessionAction::Execute(cloud_request(action)),
            ),
            _ => (state, SessionAction::Await),
        },
        SessionEvent::Ping(_) => (state, SessionAction::Pong),
        SessionEvent::Close(_) => (state, SessionAction::Finish(Ok(()))),
        SessionEvent::Failed(e) => (state, fail("WebSocket error: ", e.as_str())),
        SessionEvent::Ended => (state, SessionAction::Finish(Ok(()))),
        _ => (state, SessionAction::Await),
    }
}

/// What a session does on an event: who the agent is goes first, then the cloud's
/// answer, then heartbeats, reports and commands.
pub fn connect_and_run(state: SessionState, api_key: &str, event: SessionEvent) -> (r: (
    SessionState,
    SessionAction,
))
    ensures
        (r.0, r.1@) == session_next(state, api_key@, event@),
{
    match state {
        SessionState::Connecting => match event {
            SessionEvent::Connected => (
                SessionState::SendingAuth,
                SessionAction::Send(CloudMessage::Auth { api_key: api_key.to_string() }),
            ),
            SessionEvent::Failed(e) => (state, fail("WebSocket connect failed: ", e.as_str())),
            _ => (state, SessionAction::Await),
        },
        SessionState::SendingAuth => match event {
            SessionEvent::Sent => (SessionState::Authenticating, SessionAction::Await),
            SessionEvent::Failed(e) => (state, fail("failed to send auth: ", e.as_str())),
            _ => (state, SessionAction::Await),
        },
        SessionState::Authenticating => authenticated(event),
        SessionState::Ready => ready(event),
        SessionState::Sending(what) => match event {
            SessionEvent::Sent => (SessionState::Ready, SessionAction::Await),
            SessionEvent::Failed(e) => (
                state,
                match what {
                    Outgoing::Heartbeat => fail("heartbeat send failed: ", e.as_str()),
                    Outgoing::Status => fail("status push failed: ", e.as_str()),
                    Outgoing::Reply => fail("command response send failed: ", e.as_str()),
                },
            ),
            _ => (state, SessionAction::Await),
        },
        SessionState::Executing => match event {
            SessionEvent::Executed(r) => (
                SessionState::Sending(Outgoing::Reply),
                SessionAction::Reply(r),
            ),
            _ => (state, SessionAction::Await),
        },
    }
}

/// Whether an event is the cloud's answer that the agent is welcome.
pub open spec fn accepts(event: SessionEventView) -> bool {
    match event {
        SessionEventView::Text(_, Some(m)) => m == CloudMessageView::AuthOk,
        _ => false,
    }
}

/// No command is executed and nothing is reported before the cloud has accepted the
/// agent: a session gets past the authentication only on that answer.
pub proof fn law_auth_first(state: SessionState, api_key: Seq<char>, event: SessionEventView)
    requires
        state == SessionState::Connecting || state == SessionState::SendingAuth || state
            == SessionState::Authenticating,
    ensures
        ({
            let (next, action) = session_next(state, api_key, event);
            &&& action !is Execute && action !is Reply && action !is Pong
            &&& action is Send ==> action == SessionActionView::Send(
                CloudMessageView::Auth(api_key),
            )
            &&& next == SessionState::Connecting || next == SessionState::SendingAuth || next
                == SessionState::Authenticating || (state == SessionState::Authenticating && next
                == SessionState::Ready && accepts(event))
        }),
{
}

// ---------------------------------------------------------------------------
// What the store keeps
// ---------------------------------------------------------------------------

/// One operation on the store's texts.
#[derive(Debug, PartialEq, Eq)]
pub enum TextOp {
    Put { key: String, value: String },
    Delete { key: String },
}

/// The contents of a `TextOp`.
#[verifier::ext_equal]
pub enum TextOpView {
    Put(Seq<char>, Seq<char>),
    Delete(Seq<char>),
}

impl View for TextOp {
    type V = TextOpView;

    open spec fn view(&self) -> TextOpView {
        match *self {
            TextOp::Put { key, value } => TextOpView::Put(key@, value@),
            TextOp::Delete { key } => TextOpView::Delete(key@),
        }
    }
}

/// The contents of a list of operations.
pub open spec fn text_ops_view(v: Seq<TextOp>) -> Seq<TextOpView> {
    v.map_values(|o: TextOp| o@)
}

/// The store's texts after an operation.
pub open spec fn apply_text_op(store: Map<Seq<char>, Seq<char>>, op: TextOpView) -> Map<
    Seq<char>,
    Seq<char>,
> {
    match op {
        TextOpView::Put(k, v) => store.insert(k, v),
        TextOpView::Delete(k) => store.remove(k),
    }
}

/// The store's texts after two operations.
pub open spec fn apply_two(store: Map<Seq<char>, Seq<char>>, ops: Seq<TextOpView>) -> Map<
    Seq<char>,
    Seq<char>,
> {
    apply_text_op(apply_text_op(store, ops[0]), ops[1])
}

/// The operations that keep the connection to the cloud.
pub open spec fn link_ops(api_key: Seq<char>) -> Seq<TextOpView> {
    seq![
        TextOpView::Put(CLOUD_API_KEY@, api_key),
        TextOpView::Put(CLOUD_SERVER_URL@, DEFAULT_CLOUD_URL@),
    ]
}

/// The operations that forget the connection to the cloud.
pub open spec fn unlink_ops() -> Seq<TextOpView> {
    seq![TextOpView::Delete(CLOUD_API_KEY@), TextOpView::Delete(CLOUD_SERVER_URL@)]
}

/// A connection, from what the store holds under the two keys: the key of the account and
/// the address, which is the usual one where none is kept.
pub open spec fn link_of(api_key: Option<Seq<char>>, url: Option<Seq<char>>) -> Option<
    (Seq<char>, Seq<char>),
> {
    match api_key {
        Some(k) => Some(
            (
                k,
                match url {
                    Some(u) => u,
                    None => DEFAULT_CLOUD_URL@,
                },
            ),
        ),
        None => None,
    }
}

/// What the store holds under a key.
pub open spec fn kept(store: Map<Seq<char>, Seq<char>>, key: Seq<char>) -> Option<Seq<char>> {
    if store.contains_key(key) {
        Some(store[key])
    } else {
        None
    }
}

/// The connection that the store keeps.
pub open spec fn linked(store: Map<Seq<char>, Seq<char>>) -> Option<(Seq<char>, Seq<char>)> {
    link_of(kept(store, CLOUD_API_KEY@), kept(store, CLOUD_SERVER_URL@))
}

/// The operations that keep the connection to the cloud.
pub fn save_cloud_config(api_key: &str) -> (r: Vec<TextOp>)
    ensures
        text_ops_view(r@) == link_ops(api_key@),
{
    let mut out: Vec<TextOp> = Vec::new();
    out.push(TextOp::Put { key: CLOUD_API_KEY.to_string(), value: api_key.to_string() });
    out.push(
        TextOp::Put { key: CLOUD_SERVER_URL.to_string(), value: DEFAULT_CLOUD_URL.to_string() },
    );
    assert(text_ops_view(out@) =~= link_ops(api_key@));
    out
}

/// The operations that forget the connection to the cloud.
pub fn remove_cloud_config() -> (r: Vec<TextOp>)
    ensures
        text_ops_view(r@) == unlink_ops(),
{
    let mut out: Vec<TextOp> = Vec::new();
    out.push(TextOp::Delete { key: CLOUD_API_KEY.to_string() });
    out.push(TextOp::Delete { key: CLOUD_SERVER_URL.to_string() });
    assert(text_ops_view(out@) =~= unlink_ops());
    out
}

/// The contents of an optional connection.
pub open spec fn link_view(o: Option<(String, String)>) -> Option<(Seq<char>, Seq<char>)> {
    match o {
        Some((k, u)) => Some((k@, u@)),
        None => None,
    }
}

/// The key and the address of a connection, from what the store holds under the two keys.
pub fn load_cloud_config(api_key: Option<String>, url: Option<String>) -> (r: Option<
    (String, String),
>)
    ensures
        link_view(r) == link_of(opt_text(api_key), opt_text(url)),
{
    match api_key {
        Some(k) => match url {
            Some(u) => Some((k, u)),
            None => Some((k, DEFAULT_CLOUD_URL.to_string())),
        },
        None => None,
    }
}

/// A link that was kept is found again, and after an unlink there is none.
pub proof fn law_link_unlink(store: Map<Seq<char>, Seq<char>>, api_key: Seq<char>)
    ensures
        linked(apply_two(store, link_ops(api_key))) == Some((api_key, DEFAULT_CLOUD_URL@)),
        linked(apply_two(store, unlink_ops())) is None,
{
    reveal_strlit("cloud:api_key");
    reveal_strlit("cloud:server_url");
    assert(CLOUD_API_KEY@.len() != CLOUD_SERVER_URL@.len());
}

// ---------------------------------------------------------------------------
// Laws of a session
// ---------------------------------------------------------------------------

/// A command of the cloud is the request of the same kind, for the same process and with the same
/// values.
pub proof fn law_commands(action: CloudAction)
    ensures
        action matches CloudAction::Restart { name } ==> action_request(action)
            == RequestView::Restart(name@),
        action matches CloudAction::Reload { name } ==> action_request(action)
            == RequestView::Reload(name@),
        action matches CloudAction::Del { name } ==> action_request(action) == RequestView::Del(
            name@,
        ),
        action matches CloudAction::Update { name, port, ssl, acme, env_file, args, image } ==> (
        action_request(action) matches RequestView::Update(u) && {
            &&& u.name == name@
            &&& u.port == opt_text(port)
            &&& u.ssl == opt_texts(ssl)
            &&& u.acme == opt_text(acme)
            &&& u.env_file == opt_text(env_file)
            &&& u.args == opt_text(args)
            &&& u.image == opt_text(image)
        }),
{
}

/// The daemon's answer is passed on as it is, and that there was none is told as an error.
pub proof fn law_answers(sent: Result<Response, String>)
    ensures
        sent matches Ok(r) ==> sent_view(sent) == r@,
        sent matches Err(e) ==> sent_view(sent) == ResponseView::Error("IPC error: "@ + e@),
{
}

/// A session that is connected says who it is, and is ready once that is accepted; any other
/// answer, and an end, finish it with what was wrong.
pub proof fn law_session_opened(api_key: Seq<char>, raw: Seq<char>, e: Seq<char>)
    ensures
        session_next(SessionState::Connecting, api_key, SessionEventView::Connected) == (
            SessionState::SendingAuth,
            SessionActionView::Send(CloudMessageView::Auth(api_key)),
        ),
        session_next(SessionState::SendingAuth, api_key, SessionEventView::Sent) == (
            SessionState::Authenticating,
            SessionActionView::Await,
        ),
        session_next(
            SessionState::Authenticating,
            api_key,
            SessionEventView::Text(raw, Some(CloudMessageView::AuthOk)),
        ) == (SessionState::Ready, SessionActionView::Await),
        session_next(
            SessionState::Authenticating,
            api_key,
            SessionEventView::Text(raw, Some(CloudMessageView::Error(e))),
        ).1 == SessionActionView::Finish(Err("cloud auth rejected: "@ + e)),
        session_next(SessionState::Authenticating, api_key, SessionEventView::Text(raw, None)).1
            == SessionActionView::Finish(Err("unexpected auth response: "@ + raw)),
        session_next(SessionState::Authenticating, api_key, SessionEventView::Ended).1
            == SessionActionView::Finish(Err("connection closed during auth"@)),
        session_next(SessionState::Connecting, api_key, SessionEventView::Failed(e)).1
            == SessionActionView::Finish(Err("WebSocket connect failed: "@ + e)),
        session_next(SessionState::SendingAuth, api_key, SessionEventView::Failed(e)).1
            == SessionActionView::Finish(Err("failed to send auth: "@ + e)),
        session_next(SessionState::Authenticating, api_key, SessionEventView::Failed(e)).1
            == SessionActionView::Finish(Err("WebSocket error during auth: "@ + e)),
        session_next(SessionState::Authenticating, api_key, SessionEventView::Ping(e)).1
            == SessionActionView::Finish(Err("unexpected message type during auth: "@ + e)),
        session_next(SessionState::Authenticating, api_key, SessionEventView::Close(e)).1
            == SessionActionView::Finish(Err("unexpected message type during auth: "@ + e)),
        session_next(SessionState::Authenticating, api_key, SessionEventView::Other(e)).1
            == SessionActionView::Finish(Err("unexpected message type during auth: "@ + e)),
{
}

/// While it waits for an answer to who it is, any message but an acceptance finishes a session.
pub proof fn law_only_acceptance(api_key: Seq<char>, raw: Seq<char>, m: CloudMessageView)
    requires
        m != CloudMessageView::AuthOk,
        m !is Error,
    ensures
        session_next(
            SessionState::Authenticating,
            api_key,
            SessionEventView::Text(raw, Some(m)),
        ).1 == SessionActionView::Finish(Err("unexpected auth response: "@ + raw)),
{
}

/// A session that is ready sends what is due, carries out each command and replies with the
/// daemon's own answer, answers a ping, and passes over other messages; a close and an end finish
/// it well, and an error does not.
pub proof fn law_session_ready(
    api_key: Seq<char>,
    raw: Seq<char>,
    e: Seq<char>,
    list: Seq<ProcessInfoView>,
    q: RequestView,
    r: ResponseView,
)
    ensures
        session_next(SessionState::Ready, api_key, SessionEventView::HeartbeatDue) == (
            SessionState::Sending(Outgoing::Heartbeat),
            SessionActionView::Send(CloudMessageView::Heartbeat),
        ),
        session_next(SessionState::Ready, api_key, SessionEventView::StatusDue(list)) == (
            SessionState::Sending(Outgoing::Status),
            SessionActionView::Send(CloudMessageView::Status(list)),
        ),
        session_next(
            SessionState::Ready,
            api_key,
            SessionEventView::Text(raw, Some(CloudMessageView::Command(q))),
        ) == (SessionState::Executing, SessionActionView::Execute(q)),
        session_next(SessionState::Executing, api_key, SessionEventView::Executed(r)) == (
            SessionState::Sending(Outgoing::Reply),
            SessionActionView::Reply(r),
        ),
        forall|what: Outgoing| #[trigger]
            session_next(SessionState::Sending(what), api_key, SessionEventView::Sent) == (
                SessionState::Ready,
                SessionActionView::Await,
            ),
        session_next(SessionState::Ready, api_key, SessionEventView::Text(raw, None)) == (
            SessionState::Ready,
            SessionActionView::Await,
        ),
        session_next(SessionState::Ready, api_key, SessionEventView::Ping(e)) == (
            SessionState::Ready,
            SessionActionView::Pong,
        ),
        session_next(SessionState::Ready, api_key, SessionEventView::Close(e)).1
            == SessionActionView::Finish(Ok(())),
        session_next(SessionState::Ready, api_key, SessionEventView::Ended).1
            == SessionActionView::Finish(Ok(())),
        session_next(SessionState::Ready, api_key, SessionEventView::Failed(e)).1
            == SessionActionView::Finish(Err("WebSocket error: "@ + e)),
        session_next(
            SessionState::Sending(Outgoing::Heartbeat),
            api_key,
            SessionEventView::Failed(e),
        ).1 == SessionActionView::Finish(Err("heartbeat send failed: "@ + e)),
        session_next(
            SessionState::Sending(Outgoing::Status),
            api_key,
            SessionEventView::Failed(e),
        ).1 == SessionActionView::Finish(Err("status push failed: "@ + e)),
        session_next(
            SessionState::Sending(Outgoing::Reply),
            api_key,
            SessionEventView::Failed(e),
        ).1 == SessionActionView::Finish(Err("command response send failed: "@ + e)),
{
}

/// A command is carried out only where the cloud sends one to a session that is ready, and what is
/// carried out is that command; a reply follows only the daemon's answer.
pub proof fn law_nothing_unasked(state: SessionState, api_key: Seq<char>, event: SessionEventView)
    ensures
        session_next(state, api_key, event).1 matches SessionActionView::Execute(q) ==> state
            == SessionState::Ready && (event matches SessionEventView::Text(_, Some(m)) && m
            == CloudMessageView::Command(q)),
        session_next(state, api_key, event).1 matches SessionActionView::Reply(r) ==> state
            == SessionState::Executing && event == SessionEventView::Executed(r),
        session_next(state, api_key, event).0 == SessionState::Executing ==> state
            == SessionState::Executing || session_next(state, api_key, event).1 is Execute,
{
}

/// A link is kept as the key and the address of the cloud, and what else is stored stays.
pub proof fn law_link_kept(
    store: Map<Seq<char>, Seq<char>>,
    api_key: Seq<char>,
    url: Seq<char>,
    other: Seq<char>,
)
    requires
        other != "cloud:api_key"@ && other != "cloud:server_url"@,
    ensures
        ({
            let a = apply_two(store, link_ops(api_key));
            let b = apply_two(store, unlink_ops());
            &&& a.contains_key("cloud:api_key"@) && a["cloud:api_key"@] == api_key
            &&& a.contains_key("cloud:server_url"@) && a["cloud:server_url"@]
                == "wss://cloud.nyrun.dev/agent/ws"@
            &&& !b.contains_key("cloud:api_key"@) && !b.contains_key("cloud:server_url"@)
            &&& kept(a, other) == kept(store, other) && kept(b, other) == kept(store, other)
        }),
        link_of(Some(api_key), Some(url)) == Some((api_key, url)),
        link_of(Some(api_key), None) == Some((api_key, "wss://cloud.nyrun.dev/agent/ws"@)),
        link_of(None, Some(url)) is None,
        link_of(None, None) is None,
{
    reveal_strlit("cloud:api_key");
    reveal_strlit("cloud:server_url");
    assert("cloud:api_key"@.len() != "cloud:server_url"@.len());
}

/// The wait before a new connection doubles from one second up to five minutes.
pub proof fn law_longer_wait(backoff: int)
    requires
        1 <= backoff <= 300,
    ensures
        2 * backoff <= 300 ==> longer(backoff) == 2 * backoff,
        2 * backoff > 300 ==> longer(backoff) == 300,
        backoff_after(0) == 1,
{
}

} // verus!
