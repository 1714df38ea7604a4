//! Frames, requests and who may ask for what.
use railwatch::alerts::Policy;
use railwatch::device::simulated_sample;
use railwatch::ipc::{
    acknowledge, admits, adopt_policy, dispatch, frame, freshness, is_described, is_watch, permit,
    read_frame, FrameError, Method, Request, INTERFACE, MAX_REQUEST,
};
use railwatch::runtime::Snapshot;

fn request(method: &str) -> Request {
    Request {
        method: format!("{INTERFACE}.{method}"),
        more: false,
        oneway: false,
    }
}

fn answer(method: &str, admin: bool) -> Result<Method, String> {
    dispatch(&request(method), admin).map_err(|e| e.message())
}

#[test]
fn frames_come_back_as_they_were_sent() {
    let message = b"{\"method\":\"x\"}".to_vec();
    let bytes = frame(message.clone());
    assert_eq!(bytes.len(), message.len() + 1);
    assert_eq!(read_frame(bytes, MAX_REQUEST), Ok(Some(message)));
    assert_eq!(read_frame(vec![], 5), Ok(None));
    assert_eq!(read_frame(vec![0], 5), Ok(Some(vec![])));
    assert_eq!(read_frame(vec![1, 2], 5), Err(FrameError::Unterminated));
    assert_eq!(
        read_frame(vec![1, 2, 3, 4, 5, 0], 5),
        Err(FrameError::TooLarge)
    );
    assert_eq!(FrameError::TooLarge.message(), "message exceeds size limit");
    assert_eq!(FrameError::Unterminated.message(), "unterminated message");
}

#[test]
fn methods_are_found_by_their_names() {
    for (name, method) in [
        ("Snapshot", Method::Snapshot),
        ("Devices", Method::Devices),
        ("Incidents", Method::Incidents),
        ("Evidence", Method::Evidence),
        ("Samples", Method::Samples),
        ("Energy", Method::Energy),
        ("Tariffs", Method::Tariffs),
        ("Policy", Method::Policy),
        ("Inspect", Method::Inspect),
    ] {
        assert_eq!(answer(name, false), Ok(method));
        assert_eq!(answer(name, true), Ok(method));
    }
    assert_eq!(answer("Watch", false), Err("unknown method: Watch".into()));
    let mut info = request("");
    info.method = "org.varlink.service.GetInfo".into();
    assert!(matches!(dispatch(&info, false), Ok(Method::GetInfo)));
    info.method = "org.varlink.service.GetInterfaceDescription".into();
    assert!(matches!(
        dispatch(&info, false),
        Ok(Method::GetInterfaceDescription)
    ));
    info.method = "io.example.Other.Snapshot".into();
    assert_eq!(
        dispatch(&info, false).unwrap_err().message(),
        "unknown interface"
    );
    assert!(is_described("io.github.railwatch.Monitor1"));
    assert!(!is_described("io.github.railwatch.Monitor2"));
}

#[test]
fn the_read_socket_changes_nothing() {
    for (name, method) in [
        ("Acknowledge", Method::Acknowledge),
        ("SetTariff", Method::SetTariff),
        ("SetPolicy", Method::SetPolicy),
    ] {
        assert_eq!(answer(name, false), Err("control socket required".into()));
        assert_eq!(answer(name, true), Ok(method));
        assert!(permit(method, true).is_ok());
    }
    assert_eq!(
        permit(Method::Inspect, false).unwrap_err().message(),
        "control socket required for device diagnostic transactions"
    );
    assert!(permit(Method::Inspect, true).is_ok());
    assert!(permit(Method::Snapshot, false).is_ok());
}

#[test]
fn only_a_watch_is_streamed() {
    let mut watch = request("Watch");
    assert!(!is_watch(&watch));
    watch.more = true;
    assert!(is_watch(&watch));
    watch.oneway = true;
    assert!(!is_watch(&watch));
    let mut snapshot = request("Snapshot");
    snapshot.more = true;
    assert_eq!(
        dispatch(&snapshot, true).unwrap_err().message(),
        "this method requires a regular request; Watch supports streaming"
    );
}

#[test]
fn snapshots_grow_stale() {
    let mut s = Snapshot::default();
    assert_eq!(freshness(&s, 9), (None, true));
    let mut t = simulated_sample(0, false);
    t.monotonic_ms = 1000;
    s.telemetry = Some(t);
    s.connected = true;
    assert_eq!(freshness(&s, 4500), (Some(3500), false));
    assert_eq!(freshness(&s, 4501), (Some(3501), true));
    assert_eq!(freshness(&s, 10), (Some(0), false));
    s.connected = false;
    assert_eq!(freshness(&s, 1000), (Some(0), true));
}

#[test]
fn acknowledgements_and_policies_are_shown() {
    let mut engine = railwatch::alerts::AlertEngine::default();
    let mut s = Snapshot::default();
    s.active_incidents = engine.observe(&simulated_sample(0, true), &Policy::default(), 3500);
    let id = s.active_incidents[1].id.clone();
    acknowledge(&mut s, &id, 77);
    assert_eq!(s.active_incidents[0].acknowledged_at_ms, None);
    assert_eq!(s.active_incidents[1].acknowledged_at_ms, Some(77));
    let mut p = Policy::default();
    p.trigger_ms = 4000;
    adopt_policy(&mut s, p, 6);
    assert_eq!((s.policy.trigger_ms, s.policy_revision), (4000, 6));
}

#[test]
fn clients_are_admitted_by_number_and_user() {
    assert!(admits(31, false, false, None, 1000));
    assert!(!admits(32, false, false, None, 1000));
    assert!(admits(0, true, false, Some(0), 1000));
    assert!(admits(0, true, false, Some(1000), 1000));
    assert!(!admits(0, true, false, Some(1001), 1000));
    assert!(!admits(0, true, false, None, 1000));
    assert!(admits(0, true, true, Some(1001), 1000));
}
