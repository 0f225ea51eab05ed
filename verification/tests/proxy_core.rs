use cassette_proxy::cassette::Cassette;
use cassette_proxy::cassette::Mode;
use cassette_proxy::codec::decode_cassette;
use cassette_proxy::codec::encode_cassette;
use cassette_proxy::codec::DecodeError;
use cassette_proxy::engine::check_request;
use cassette_proxy::engine::match_headers;
use cassette_proxy::engine::rewrite_scheme;
use cassette_proxy::engine::upstream_request;
use cassette_proxy::engine::MismatchKind;
use cassette_proxy::engine::ProxyError;
use cassette_proxy::proxy::capture_step;
use cassette_proxy::proxy::plan_cassette;
use cassette_proxy::proxy::replay_step;
use cassette_proxy::types::Exchange;
use cassette_proxy::types::Request;
use cassette_proxy::types::Response;

fn hdr(name: &str, value: &str) -> (String, String) {
    (String::from(name), String::from(value))
}

fn sample_request() -> Request {
    Request::new(
        String::from("http://127.0.0.1:7777/foo"),
        String::from("GET"),
        vec![hdr("X-Test", "1"), hdr("Host", "127.0.0.1:7777")],
        b"hello".to_vec(),
    )
}

fn sample_response() -> Response {
    Response::new(200, vec![hdr("Content-Type", "text/plain")], b"ok".to_vec())
}

fn sample_exchange() -> Exchange {
    Exchange::new(sample_request(), sample_response())
}

fn assert_same_exchange(a: &Exchange, b: &Exchange) {
    assert_eq!(a.request.uri, b.request.uri);
    assert_eq!(a.request.method, b.request.method);
    assert_eq!(a.request.body, b.request.body);
    assert_eq!(a.response.status, b.response.status);
    assert_eq!(a.response.body, b.response.body);
    let mut ha: Vec<(String, String)> = a.request.headers.clone();
    let mut hb: Vec<(String, String)> = b.request.headers.clone();
    ha.sort();
    hb.sort();
    assert_eq!(ha, hb);
    let mut ra: Vec<(String, String)> = a.response.headers.clone();
    let mut rb: Vec<(String, String)> = b.response.headers.clone();
    ra.sort();
    rb.sort();
    assert_eq!(ra, rb);
}

#[test]
fn round_trip_preserves_exchanges() {
    let exchanges = vec![
        sample_exchange(),
        Exchange::new(
            Request::new(
                String::from("http://127.0.0.1:7777/bar?q=caf\u{e9}"),
                String::from("POST"),
                vec![hdr("X-Unicode", "h\u{e9}llo")],
                vec![0u8, 1, 2, 255],
            ),
            Response::new(404, vec![], b"missing".to_vec()),
        ),
    ];
    let bytes = encode_cassette(&exchanges);
    let decoded = decode_cassette(&bytes).expect("round trip must decode");
    assert_eq!(decoded.len(), 2);
    assert_same_exchange(&decoded[0], &exchanges[0]);
    assert_same_exchange(&decoded[1], &exchanges[1]);
}

#[test]
fn round_trip_of_empty_list_decodes() {
    let exchanges: Vec<Exchange> = Vec::new();
    let bytes = encode_cassette(&exchanges);
    let decoded = decode_cassette(&bytes).expect("empty cassette must decode");
    assert_eq!(decoded.len(), 0);
}

#[test]
fn decoding_empty_input_yields_empty_cassette() {
    let decoded = decode_cassette(&Vec::new()).expect("empty input is a valid cassette");
    assert_eq!(decoded.len(), 0);
}

#[test]
fn decoding_garbage_is_malformed() {
    let garbage = vec![1u8, 2, 3];
    assert_eq!(decode_cassette(&garbage).unwrap_err(), DecodeError::Malformed);
}

#[test]
fn decoding_rejects_trailing_bytes() {
    let mut bytes = encode_cassette(&vec![sample_exchange()]);
    bytes.push(0);
    assert_eq!(decode_cassette(&bytes).unwrap_err(), DecodeError::Malformed);
}

#[test]
fn decoding_rejects_invalid_utf8_strings() {
    // A cassette claiming one exchange whose URI bytes are not UTF-8.
    let mut bytes: Vec<u8> = Vec::new();
    bytes.extend_from_slice(&1u64.to_le_bytes());
    bytes.extend_from_slice(&2u64.to_le_bytes());
    bytes.extend_from_slice(&[0xff, 0xfe]);
    assert_eq!(decode_cassette(&bytes).unwrap_err(), DecodeError::Malformed);
}

#[test]
fn first_request_against_empty_replay_is_exhausted() {
    let mut cassette = plan_cassette(false, None, String::from("unused")).unwrap();
    assert_eq!(cassette.mode(), Mode::Replaying);
    let incoming = sample_request();
    let err = replay_step(&mut cassette, &incoming).unwrap_err();
    assert_eq!(err, ProxyError::ExhaustedCassette);
}

#[test]
fn exempt_headers_never_break_replay() {
    // The two sets differ only in Date and Authorization entries.
    let incoming = vec![
        hdr("Date", "Tue, 01 Jan 2030 00:00:00 GMT"),
        hdr("X-Test", "1"),
        hdr("Authorization", "token new-secret"),
    ];
    let recorded = vec![
        hdr("X-Test", "1"),
        hdr("Date", "Mon, 01 Jan 2024 00:00:00 GMT"),
        hdr("Authorization-Signature", "old"),
    ];
    assert!(match_headers(&incoming, &recorded).is_ok());
}

#[test]
fn exemption_ignores_header_name_case() {
    // Transports differ in how they case header names; the exemption holds
    // for any ASCII casing.
    let incoming = vec![
        hdr("date", "Tue, 01 Jan 2030 00:00:00 GMT"),
        hdr("x-test", "1"),
        hdr("AUTHORIZATION", "token new-secret"),
    ];
    let recorded = vec![
        hdr("x-test", "1"),
        hdr("Date", "Mon, 01 Jan 2024 00:00:00 GMT"),
    ];
    assert!(match_headers(&incoming, &recorded).is_ok());
    // Case still counts for significant names: "x-test" and "X-Test" are
    // different pairs to the matcher.
    let cased = vec![hdr("X-Test", "1")];
    assert_eq!(
        match_headers(&cased, &recorded).unwrap_err(),
        MismatchKind::UnexpectedHeader
    );
}

#[test]
fn unexpected_significant_header_fails_replay() {
    let incoming = vec![hdr("X-Test", "2")];
    let recorded = vec![hdr("X-Test", "1")];
    assert_eq!(
        match_headers(&incoming, &recorded).unwrap_err(),
        MismatchKind::UnexpectedHeader
    );
}

#[test]
fn missing_recorded_header_fails_replay() {
    let incoming: Vec<(String, String)> = Vec::new();
    let recorded = vec![hdr("X-Test", "1")];
    assert_eq!(
        match_headers(&incoming, &recorded).unwrap_err(),
        MismatchKind::MissingHeader
    );
}

#[test]
fn duplicate_incoming_header_fails_replay() {
    let incoming = vec![hdr("X-Test", "1"), hdr("X-Test", "1")];
    let recorded = vec![hdr("X-Test", "1")];
    assert_eq!(
        match_headers(&incoming, &recorded).unwrap_err(),
        MismatchKind::UnexpectedHeader
    );
}

#[test]
fn body_differing_by_one_byte_is_a_mismatch() {
    let recorded = sample_request();
    let incoming = Request::new(
        String::from("http://127.0.0.1:7777/foo"),
        String::from("GET"),
        vec![hdr("X-Test", "1"), hdr("Host", "127.0.0.1:7777")],
        b"hellp".to_vec(),
    );
    assert_eq!(
        check_request(&incoming, &recorded).unwrap_err(),
        MismatchKind::Body
    );
}

#[test]
fn uri_and_method_mismatches_are_detected() {
    let recorded = sample_request();
    let other_uri = Request::new(
        String::from("http://127.0.0.1:7777/bar"),
        String::from("GET"),
        vec![hdr("X-Test", "1"), hdr("Host", "127.0.0.1:7777")],
        b"hello".to_vec(),
    );
    assert_eq!(check_request(&other_uri, &recorded).unwrap_err(), MismatchKind::Uri);
    let other_method = Request::new(
        String::from("http://127.0.0.1:7777/foo"),
        String::from("PUT"),
        vec![hdr("X-Test", "1"), hdr("Host", "127.0.0.1:7777")],
        b"hello".to_vec(),
    );
    assert_eq!(
        check_request(&other_method, &recorded).unwrap_err(),
        MismatchKind::Method
    );
}

#[test]
fn capture_appends_exactly_once_per_exchange() {
    let mut cassette = Cassette::new_capturing(String::from("src/http-data/case"));
    assert_eq!(cassette.mode(), Mode::Capturing);
    for i in 0..3u16 {
        let request = Request::new(
            format!("http://127.0.0.1:7777/item/{}", i),
            String::from("GET"),
            vec![hdr("X-Test", "1")],
            Vec::new(),
        );
        let response = Response::new(200 + i, Vec::new(), vec![i as u8]);
        capture_step(&mut cassette, request, response);
    }
    let log = cassette.snapshot();
    assert_eq!(log.len(), 3);
    assert_eq!(log[0].request.uri, "http://127.0.0.1:7777/item/0");
    assert_eq!(log[1].request.uri, "http://127.0.0.1:7777/item/1");
    assert_eq!(log[2].request.uri, "http://127.0.0.1:7777/item/2");
    assert_eq!(log[2].response.status, 202);
}

#[test]
fn upstream_request_turns_scheme_secure() {
    let request = sample_request();
    let upstream = upstream_request(&request);
    assert_eq!(upstream.uri, "https://127.0.0.1:7777/foo");
    assert_eq!(upstream.method, "GET");
    assert_eq!(upstream.body, request.body);
    assert_eq!(rewrite_scheme(&String::from("ftp://x")), "ftp://x");
}

#[test]
fn peek_shows_the_next_exchange_without_consuming_it() {
    let mut cassette = Cassette::new_replaying(vec![sample_exchange()]);
    assert_eq!(
        cassette.peek().unwrap().request.uri,
        "http://127.0.0.1:7777/foo"
    );
    let incoming = sample_request();
    assert!(replay_step(&mut cassette, &incoming).is_ok());
    assert!(cassette.peek().is_none());
}

#[test]
fn request_constructor_collapses_duplicate_headers() {
    let request = Request::new(
        String::from("http://h/"),
        String::from("GET"),
        vec![hdr("A", "1"), hdr("A", "1"), hdr("B", "2")],
        Vec::new(),
    );
    assert_eq!(request.headers.len(), 2);
}
