use nyrun::cloud::{
    cloud_request, cloud_response, connect_and_run, load_cloud_config, remove_cloud_config, save_cloud_config,
    AgentAction, AgentEvent, CloudAction, CloudAgent, CloudMessage, Outgoing, SessionAction, SessionEvent,
    SessionState, TextOp,
};
use nyrun::protocol::{Request, Response};
use std::collections::HashMap;

fn step(state: SessionState, event: SessionEvent) -> (SessionState, SessionAction) {
    connect_and_run(state, "key", event)
}

fn text(message: Option<CloudMessage>) -> SessionEvent {
    SessionEvent::Text { raw: "raw".to_string(), message }
}

fn failed(message: &str) -> SessionAction {
    SessionAction::Finish(Err(message.to_string()))
}

#[test]
fn waits_grow_up_to_the_longest() {
    let mut agent = CloudAgent::new("key".to_string(), "wss://x".to_string());
    for want in [1, 2, 4, 8, 16, 32, 64, 128, 256, 300, 300] {
        assert_eq!(agent.run(AgentEvent::Failed), AgentAction::Wait(want));
        assert_eq!(agent.run(AgentEvent::Waited), AgentAction::Connect);
    }
    assert_eq!(agent.run(AgentEvent::Closed), AgentAction::Wait(1));
    assert_eq!(agent.run(AgentEvent::Waited), AgentAction::Connect);
    assert_eq!(agent.run(AgentEvent::Failed), AgentAction::Wait(2));
    assert_eq!(agent.run(AgentEvent::Shutdown), AgentAction::Stop);
}

#[test]
fn a_session() {
    let (s, a) = step(SessionState::Connecting, SessionEvent::Connected);
    assert_eq!(s, SessionState::SendingAuth);
    assert_eq!(a, SessionAction::Send(CloudMessage::Auth { api_key: "key".to_string() }));
    let (s, a) = step(s, SessionEvent::Sent);
    assert_eq!((s, a), (SessionState::Authenticating, SessionAction::Await));
    let (s, a) = step(s, text(Some(CloudMessage::AuthOk)));
    assert_eq!((s, a), (SessionState::Ready, SessionAction::Await));
    let (s, a) = step(s, SessionEvent::HeartbeatDue);
    assert_eq!((s, a), (SessionState::Sending(Outgoing::Heartbeat), SessionAction::Send(CloudMessage::Heartbeat)));
    let (s, _) = step(s, SessionEvent::Sent);
    let (s, a) = step(s, SessionEvent::StatusDue(Vec::new()));
    assert_eq!(a, SessionAction::Send(CloudMessage::Status { processes: Vec::new() }));
    let (s, _) = step(s, SessionEvent::Sent);
    let command = CloudMessage::Command { action: CloudAction::Reload { name: "api".to_string() } };
    let (s, a) = step(s, text(Some(command)));
    assert_eq!(s, SessionState::Executing);
    assert_eq!(a, SessionAction::Execute(Request::Reload { name: "api".to_string() }));
    let (s, a) = step(s, SessionEvent::Executed(Response::Success("ok".to_string())));
    assert_eq!(s, SessionState::Sending(Outgoing::Reply));
    assert_eq!(a, SessionAction::Reply(Response::Success("ok".to_string())));
    let (s, _) = step(s, SessionEvent::Sent);
    assert_eq!(step(s, SessionEvent::Ping("p".to_string())), (SessionState::Ready, SessionAction::Pong));
    assert_eq!(step(s, text(None)), (SessionState::Ready, SessionAction::Await));
    assert_eq!(step(s, text(Some(CloudMessage::AuthOk))), (SessionState::Ready, SessionAction::Await));
    assert_eq!(step(s, SessionEvent::Other("b".to_string())), (SessionState::Ready, SessionAction::Await));
    assert_eq!(step(s, SessionEvent::Close("c".to_string())).1, SessionAction::Finish(Ok(())));
    assert_eq!(step(s, SessionEvent::Ended).1, SessionAction::Finish(Ok(())));
}

#[test]
fn a_session_that_fails() {
    let e = || SessionEvent::Failed("e".to_string());
    assert_eq!(step(SessionState::Connecting, e()).1, failed("WebSocket connect failed: e"));
    assert_eq!(step(SessionState::SendingAuth, e()).1, failed("failed to send auth: e"));
    assert_eq!(step(SessionState::Authenticating, e()).1, failed("WebSocket error during auth: e"));
    assert_eq!(step(SessionState::Authenticating, SessionEvent::Ended).1, failed("connection closed during auth"));
    let rejected = CloudMessage::Error { message: "bad key".to_string() };
    assert_eq!(step(SessionState::Authenticating, text(Some(rejected))).1, failed("cloud auth rejected: bad key"));
    assert_eq!(step(SessionState::Authenticating, text(None)).1, failed("unexpected auth response: raw"));
    let command = CloudMessage::Command { action: CloudAction::Del { name: "api".to_string() } };
    assert_eq!(step(SessionState::Authenticating, text(Some(command))).1, failed("unexpected auth response: raw"));
    for event in [
        SessionEvent::Ping("m".to_string()),
        SessionEvent::Close("m".to_string()),
        SessionEvent::Other("m".to_string()),
    ] {
        assert_eq!(
            step(SessionState::Authenticating, event).1,
            failed("unexpected message type during auth: m")
        );
    }
    assert_eq!(step(SessionState::Ready, e()).1, failed("WebSocket error: e"));
    for (what, message) in [
        (Outgoing::Heartbeat, "heartbeat send failed: e"),
        (Outgoing::Status, "status push failed: e"),
        (Outgoing::Reply, "command response send failed: e"),
    ] {
        assert_eq!(step(SessionState::Sending(what), e()).1, failed(message));
    }
}

#[test]
fn commands_of_the_cloud() {
    let name = || "api".to_string();
    assert_eq!(cloud_request(CloudAction::Restart { name: name() }), Request::Restart { name: name() });
    assert_eq!(cloud_request(CloudAction::Del { name: name() }), Request::Del { name: name() });
    assert_eq!(
        cloud_request(CloudAction::Update {
            name: name(),
            port: Some("80".to_string()),
            ssl: None,
            acme: None,
            env_file: None,
            args: None,
            image: Some("nginx:2".to_string()),
        }),
        Request::Update {
            name: name(),
            port: Some("80".to_string()),
            ssl: None,
            acme: None,
            env_file: None,
            args: None,
            image: Some("nginx:2".to_string()),
        }
    );
    assert_eq!(cloud_response(Ok(Response::Logs("x".to_string()))), Response::Logs("x".to_string()));
    assert_eq!(cloud_response(Err("gone".to_string())), Response::Error("IPC error: gone".to_string()));
}

#[test]
fn a_link_is_kept_and_forgotten() {
    let mut store: HashMap<String, String> = HashMap::new();
    let mut apply = |ops: Vec<TextOp>| {
        for op in ops {
            match op {
                TextOp::Put { key, value } => {
                    store.insert(key, value);
                }
                TextOp::Delete { key } => {
                    store.remove(&key);
                }
            }
        }
        load_cloud_config(store.get("cloud:api_key").cloned(), store.get("cloud:server_url").cloned())
    };
    assert_eq!(
        apply(save_cloud_config("secret")),
        Some(("secret".to_string(), "wss://cloud.nyrun.dev/agent/ws".to_string()))
    );
    assert_eq!(apply(remove_cloud_config()), None);
    assert_eq!(
        load_cloud_config(Some("k".to_string()), None),
        Some(("k".to_string(), "wss://cloud.nyrun.dev/agent/ws".to_string()))
    );
    assert_eq!(
        load_cloud_config(Some("k".to_string()), Some("u".to_string())),
        Some(("k".to_string(), "u".to_string()))
    );
    assert_eq!(load_cloud_config(None, Some("u".to_string())), None);
}
