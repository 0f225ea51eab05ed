use cassette_proxy::cassette::Mode;
use cassette_proxy::codec::decode_cassette;
use cassette_proxy::engine::MismatchKind;
use cassette_proxy::engine::ProxyError;
use cassette_proxy::lifecycle::teardown_action;
use cassette_proxy::lifecycle::worker_result;
use cassette_proxy::lifecycle::TeardownAction;
use cassette_proxy::lifecycle::WorkerOutcome;
use cassette_proxy::paths::cache_file;
use cassette_proxy::paths::normalize_test_name;
use cassette_proxy::proxy::capture_step;
use cassette_proxy::proxy::plan_cassette;
use cassette_proxy::proxy::replay_step;
use cassette_proxy::types::Request;
use cassette_proxy::types::Response;

fn hdr(name: &str, value: &str) -> (String, String) {
    (String::from(name), String::from(value))
}

fn get_foo(test_header_value: &str) -> Request {
    Request::new(
        String::from("http://127.0.0.1:7777/foo"),
        String::from("GET"),
        vec![hdr("X-Test", test_header_value)],
        Vec::new(),
    )
}

/// Runs one capture of `GET /foo` and returns the cassette bytes the worker
/// would persist at teardown.
fn captured_cassette_bytes() -> Vec<u8> {
    let path = cache_file("capture_scenario");
    let mut cassette = plan_cassette(true, None, path.clone()).unwrap();
    assert_eq!(cassette.mode(), Mode::Capturing);

    // The client's request, and the upstream's answer as the worker saw it.
    let request = get_foo("1");
    let response = Response::new(200, vec![hdr("Content-Type", "text/plain")], b"ok".to_vec());
    capture_step(&mut cassette, request, response);

    let payload = worker_result(cassette).expect("a capture run persists its cassette");
    assert_eq!(payload.1, path);
    match teardown_action(WorkerOutcome::Finished(Some(payload)), false, String::new()) {
        TeardownAction::Persist(bytes, file) => {
            assert_eq!(file, path);
            bytes
        }
        _ => panic!("a finished capture run must persist"),
    }
}

#[test]
fn scenario_capture_writes_one_exchange() {
    let bytes = captured_cassette_bytes();
    let exchanges = decode_cassette(&bytes).unwrap();
    assert_eq!(exchanges.len(), 1);
    let e = &exchanges[0];
    assert_eq!(e.request.method, "GET");
    assert_eq!(e.request.uri, "http://127.0.0.1:7777/foo");
    assert!(e.request.headers.contains(&hdr("X-Test", "1")));
    assert_eq!(e.response.status, 200);
    assert_eq!(e.response.body, b"ok".to_vec());
}

#[test]
fn scenario_replay_answers_matching_request() {
    let bytes = captured_cassette_bytes();
    let exchanges = decode_cassette(&bytes).unwrap();
    let mut cassette = plan_cassette(true, Some(bytes), cache_file("capture_scenario")).unwrap();
    // An existing cassette always replays, even when capture was requested.
    assert_eq!(cassette.mode(), Mode::Replaying);
    assert_eq!(exchanges.len(), 1);

    let incoming = get_foo("1");
    let response = replay_step(&mut cassette, &incoming).unwrap();
    assert_eq!(response.status, 200);
    assert_eq!(response.body, b"ok".to_vec());
}

#[test]
fn scenario_replay_rejects_changed_header() {
    let bytes = captured_cassette_bytes();
    let mut cassette = plan_cassette(false, Some(bytes), cache_file("capture_scenario")).unwrap();
    let incoming = get_foo("2");
    let err = replay_step(&mut cassette, &incoming).unwrap_err();
    assert_eq!(err, ProxyError::RequestMismatch(MismatchKind::UnexpectedHeader));
}

#[test]
fn scenario_second_request_exhausts_single_exchange_cassette() {
    let bytes = captured_cassette_bytes();
    let mut cassette = plan_cassette(false, Some(bytes), cache_file("capture_scenario")).unwrap();
    let incoming = get_foo("1");
    assert!(replay_step(&mut cassette, &incoming).is_ok());
    let err = replay_step(&mut cassette, &incoming).unwrap_err();
    assert_eq!(err, ProxyError::ExhaustedCassette);
}

#[test]
fn teardown_decides_like_the_guard() {
    let diag = String::from("expecting: ...");
    match teardown_action(WorkerOutcome::Failed, false, diag.clone()) {
        TeardownAction::RaiseFailure(d) => assert_eq!(d, diag),
        _ => panic!("a worker failure re-raises when the foreground is healthy"),
    }
    match teardown_action(WorkerOutcome::Failed, true, diag.clone()) {
        TeardownAction::LogDiagnostics(d) => assert_eq!(d, diag),
        _ => panic!("a worker failure only logs when the foreground already fails"),
    }
    match teardown_action(WorkerOutcome::Failed, true, String::new()) {
        TeardownAction::Nothing => {}
        _ => panic!("empty diagnostics are dropped silently"),
    }
    match teardown_action(WorkerOutcome::Finished(None), false, String::new()) {
        TeardownAction::Nothing => {}
        _ => panic!("a finished replay run owes nothing"),
    }
    match teardown_action(WorkerOutcome::Finished(None), true, String::new()) {
        TeardownAction::Nothing => {}
        _ => panic!("a finished replay run owes nothing either way"),
    }
    // The worker's outcome is the only gate on persistence: a capture run
    // that finished normally is written even while the foreground fails.
    match teardown_action(
        WorkerOutcome::Finished(Some((vec![1u8], String::from("p")))),
        true,
        String::new(),
    ) {
        TeardownAction::Persist(bytes, file) => {
            assert_eq!(bytes, vec![1u8]);
            assert_eq!(file, "p");
        }
        _ => panic!("a finished capture run always persists"),
    }
}

#[test]
fn cassette_files_are_named_from_the_test() {
    let stem = normalize_test_name(&String::from("http::proxy::records_a_get"));
    assert_eq!(stem, "http_proxy_records_a_get");
    assert_eq!(cache_file(&stem), "src/http-data/http_proxy_records_a_get");
    assert_eq!(normalize_test_name(&String::from("plain")), "plain");
    assert_eq!(normalize_test_name(&String::from(":::")), "_:");
}
