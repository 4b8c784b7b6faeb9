use imds_get::client::{feed, get_imds_url, imdsv2_handle, start, Outcome, Phase, Step};
use imds_get::codec::{encode, Method};
use imds_get::error::ImdsError;
use imds_get::headers::HeaderMap;

fn response(status_line: &str, body: &[u8]) -> Vec<u8> {
    let mut out: Vec<u8> = Vec::new();
    out.extend_from_slice(status_line.as_bytes());
    out.extend_from_slice(b"\r\n\r\n");
    out.extend_from_slice(body);
    out
}

fn reply(status_line: &str, body: &[u8]) -> Outcome {
    Outcome::Reply { raw: response(status_line, body) }
}

#[test]
fn endpoint_selection() {
    assert_eq!(get_imds_url(true), "169.254.169.254:80");
    assert_eq!(get_imds_url(false), "[fd00:ec2::254]:80");
}

#[test]
fn scenario_token_regime_full_fetch() {
    let (client, probe_frame) = start(String::from("some/path"));
    assert_eq!(probe_frame, "GET / HTTP/1.1\r\n\r\n");

    let step = feed(client, reply("HTTP/1.1 401 Unauthorized", b""));
    let (client, put_frame) = match step {
        Step::Send { client, frame } => (client, frame),
        _ => panic!("expected the token PUT to be sent"),
    };
    assert_eq!(client.phase, Phase::Acquire);
    assert_eq!(
        put_frame,
        "PUT /latest/api/token HTTP/1.1\r\nX-aws-ec2-metadata-token-ttl-seconds: 1\r\n\r\n"
    );

    let step = feed(client, reply("HTTP/1.1 200 OK", b"tok123"));
    let (client, get_frame) = match step {
        Step::Send { client, frame } => (client, frame),
        _ => panic!("expected the final GET to be sent"),
    };
    assert_eq!(client.phase, Phase::Fetch);
    assert_eq!(get_frame, "GET /some/path HTTP/1.1\r\nX-aws-ec2-metadata-token: tok123\r\n\r\n");

    let step = feed(client, reply("HTTP/1.1 200 OK", b"{\"a\":1}"));
    match step {
        Step::Done { status, body } => {
            assert_eq!(status, 200);
            assert_eq!(body, b"{\"a\":1}");
        },
        _ => panic!("expected the fetch to complete"),
    }
}

#[test]
fn scenario_anonymous_regime_single_get() {
    let (client, _probe_frame) = start(String::from("x"));
    let step = feed(client, reply("HTTP/1.1 200 OK", b"root listing"));
    let (client, get_frame) = match step {
        Step::Send { client, frame } => (client, frame),
        _ => panic!("expected the final GET to be sent"),
    };
    // token not required: exactly one more request, the final GET, no
    // PUT and no token header
    assert_eq!(client.phase, Phase::Fetch);
    assert_eq!(get_frame, "GET /x HTTP/1.1\r\n\r\n");
    let step = feed(client, reply("HTTP/1.1 200 OK", b"value"));
    match step {
        Step::Done { status, body } => {
            assert_eq!(status, 200);
            assert_eq!(body, b"value");
        },
        _ => panic!("expected the fetch to complete"),
    }
}

#[test]
fn probe_non_401_status_means_anonymous() {
    for status_line in ["HTTP/1.1 200 OK", "HTTP/1.1 403 Forbidden", "HTTP/1.1 500 Oops"] {
        let (client, _) = start(String::from("p"));
        let step = feed(client, reply(status_line, b""));
        match step {
            Step::Send { client, frame } => {
                assert_eq!(client.phase, Phase::Fetch);
                assert_eq!(frame, "GET /p HTTP/1.1\r\n\r\n");
            },
            _ => panic!("probing must never abort the fetch"),
        }
    }
}

#[test]
fn probe_transport_failure_without_auth_signal_means_anonymous() {
    let (client, _) = start(String::from("p"));
    let step = feed(
        client,
        Outcome::Failed { auth_rejection: false, error: ImdsError::TransportFailure },
    );
    match step {
        Step::Send { client, frame } => {
            assert_eq!(client.phase, Phase::Fetch);
            assert_eq!(frame, "GET /p HTTP/1.1\r\n\r\n");
        },
        _ => panic!("probing must never abort the fetch"),
    }
}

#[test]
fn probe_auth_rejection_signal_means_token_required() {
    let (client, _) = start(String::from("p"));
    let step = feed(
        client,
        Outcome::Failed { auth_rejection: true, error: ImdsError::TransportFailure },
    );
    match step {
        Step::Send { client, frame } => {
            assert_eq!(client.phase, Phase::Acquire);
            assert!(frame.starts_with("PUT /latest/api/token HTTP/1.1\r\n"));
        },
        _ => panic!("expected the token PUT to be sent"),
    }
}

#[test]
fn scenario_acquire_non_200_is_fatal_and_sends_no_get() {
    let (client, _) = start(String::from("p"));
    let step = feed(client, reply("HTTP/1.1 401 Unauthorized", b""));
    let client = match step {
        Step::Send { client, .. } => client,
        _ => panic!("expected the token PUT to be sent"),
    };
    let step = feed(client, reply("HTTP/1.1 403 Forbidden", b"denied"));
    match step {
        Step::Fail { error } => assert_eq!(error, ImdsError::TokenAcquisitionFailure),
        _ => panic!("a failed acquisition must end the fetch"),
    }
}

#[test]
fn acquire_non_text_token_is_encoding_error() {
    let (client, _) = start(String::from("p"));
    let step = feed(client, reply("HTTP/1.1 401 Unauthorized", b""));
    let client = match step {
        Step::Send { client, .. } => client,
        _ => panic!("expected the token PUT to be sent"),
    };
    let step = feed(client, reply("HTTP/1.1 200 OK", &[0xff, 0xfe, 0x01]));
    match step {
        Step::Fail { error } => assert_eq!(error, ImdsError::EncodingError),
        _ => panic!("a non-text token must end the fetch"),
    }
}

#[test]
fn acquire_transport_failure_is_fatal() {
    let (client, _) = start(String::from("p"));
    let step = feed(client, reply("HTTP/1.1 401 Unauthorized", b""));
    let client = match step {
        Step::Send { client, .. } => client,
        _ => panic!("expected the token PUT to be sent"),
    };
    let step = feed(
        client,
        Outcome::Failed { auth_rejection: false, error: ImdsError::TransportFailure },
    );
    match step {
        Step::Fail { error } => assert_eq!(error, ImdsError::TransportFailure),
        _ => panic!("a transport failure during acquisition must end the fetch"),
    }
}

#[test]
fn scenario_malformed_reply_is_framing_error_on_every_step() {
    // no blank-line boundary anywhere in the reply
    let malformed = b"HTTP/1.1 200 OK\r\nServer: EC2ws".to_vec();

    // probe step
    let (client, _) = start(String::from("p"));
    match feed(client, Outcome::Reply { raw: malformed.clone() }) {
        Step::Fail { error } => assert_eq!(error, ImdsError::FramingError),
        _ => panic!("a malformed probe reply must end the fetch"),
    }

    // acquire step
    let (client, _) = start(String::from("p"));
    let client = match feed(client, reply("HTTP/1.1 401 Unauthorized", b"")) {
        Step::Send { client, .. } => client,
        _ => panic!("expected the token PUT to be sent"),
    };
    match feed(client, Outcome::Reply { raw: malformed.clone() }) {
        Step::Fail { error } => assert_eq!(error, ImdsError::FramingError),
        _ => panic!("a malformed acquire reply must end the fetch"),
    }

    // fetch step
    let (client, _) = start(String::from("p"));
    let client = match feed(client, reply("HTTP/1.1 200 OK", b"")) {
        Step::Send { client, .. } => client,
        _ => panic!("expected the final GET to be sent"),
    };
    match feed(client, Outcome::Reply { raw: malformed }) {
        Step::Fail { error } => assert_eq!(error, ImdsError::FramingError),
        _ => panic!("a malformed fetch reply must end the fetch"),
    }
}

#[test]
fn fetch_transport_failure_keeps_its_kind() {
    // a refused connection at the final GET surfaces as the endpoint
    // being unreachable, the kind the transport layer classified it as
    let (client, _) = start(String::from("p"));
    let client = match feed(client, reply("HTTP/1.1 200 OK", b"")) {
        Step::Send { client, .. } => client,
        _ => panic!("expected the final GET to be sent"),
    };
    let step = feed(
        client,
        Outcome::Failed { auth_rejection: false, error: ImdsError::EndpointUnreachable },
    );
    match step {
        Step::Fail { error } => assert_eq!(error, ImdsError::EndpointUnreachable),
        _ => panic!("a transport failure on the final GET must end the fetch"),
    }
}

#[test]
fn fetch_hands_status_through_unjudged() {
    // non-2xx statuses of the final GET are the caller's business
    let (client, _) = start(String::from("missing"));
    let client = match feed(client, reply("HTTP/1.1 200 OK", b"")) {
        Step::Send { client, .. } => client,
        _ => panic!("expected the final GET to be sent"),
    };
    match feed(client, reply("HTTP/1.1 404 Not Found", b"nope")) {
        Step::Done { status, body } => {
            assert_eq!(status, 404);
            assert_eq!(body, b"nope");
        },
        _ => panic!("expected the fetch to complete"),
    }
}

#[test]
fn imdsv2_handle_success_injects_token_header() {
    let mut headers = HeaderMap::new();
    let r = imdsv2_handle(&mut headers, 200, b"tok456".to_vec());
    assert!(r.is_ok());
    let frame = encode(Method::Get, "p", &headers);
    assert_eq!(frame, "GET /p HTTP/1.1\r\nX-aws-ec2-metadata-token: tok456\r\n\r\n");
}

#[test]
fn imdsv2_handle_rejects_non_200() {
    let mut headers = HeaderMap::new();
    let r = imdsv2_handle(&mut headers, 503, b"tok".to_vec());
    assert_eq!(r.unwrap_err(), ImdsError::TokenAcquisitionFailure);
    // nothing was injected
    let frame = encode(Method::Get, "p", &headers);
    assert_eq!(frame, "GET /p HTTP/1.1\r\n\r\n");
}

#[test]
fn imdsv2_handle_rejects_non_text_token() {
    let mut headers = HeaderMap::new();
    let r = imdsv2_handle(&mut headers, 200, vec![0x80, 0x81]);
    assert_eq!(r.unwrap_err(), ImdsError::EncodingError);
}

#[test]
fn error_descriptions_are_distinct() {
    let kinds = [
        ImdsError::EndpointUnreachable,
        ImdsError::TransportFailure,
        ImdsError::FramingError,
        ImdsError::EncodingError,
        ImdsError::TokenAcquisitionFailure,
    ];
    for (i, a) in kinds.iter().enumerate() {
        for (j, b) in kinds.iter().enumerate() {
            assert_eq!(i == j, a.describe() == b.describe());
        }
    }
    assert_eq!(ImdsError::TokenAcquisitionFailure.describe(), "failed to fetch token");
}
