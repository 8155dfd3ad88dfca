use petbuddy::notify::server::{
    accepted_response, check_notify_text, decide_notify, json_response, status_response,
    ConnEvent, ConnStep, HttpStatus, NotifyConn, NotifyOutcome, MAX_BODY_BYTES, MAX_HEADER_BYTES,
    MAX_LEN,
};

fn request(host: &str, body: &str) -> String {
    format!(
        "POST /notify HTTP/1.1\r\nHost: {host}\r\nContent-Type: application/json\r\nContent-Length: {}\r\n\r\n{body}",
        body.len()
    )
}

fn run(req: &[u8]) -> (ConnStep, NotifyConn) {
    let mut c = NotifyConn::new();
    let step = c.on_event(ConnEvent::Data(req));
    (step, c)
}

#[test]
fn accepts_a_notification_in_one_read() {
    let (step, c) = run(request("127.0.0.1:8756", r#"{"text":"你好","action":"wave","duration":6000}"#).as_bytes());
    assert_eq!(step, ConnStep::Complete);
    match c.finish() {
        NotifyOutcome::Accept(p) => {
            assert_eq!(p.text, "你好");
            assert_eq!(p.action.as_deref(), Some("wave"));
            assert_eq!(p.duration, Some(6000));
        }
        _ => panic!("expected accept"),
    }
}

#[test]
fn accepts_across_several_reads() {
    let req = request("localhost", r#"{"text":"split"}"#);
    let bytes = req.as_bytes();
    let mut c = NotifyConn::new();
    assert_eq!(c.on_event(ConnEvent::Data(&bytes[..10])), ConnStep::ReadMore);
    let header_end = req.find("\r\n\r\n").unwrap() + 4;
    assert_eq!(c.on_event(ConnEvent::Data(&bytes[10..header_end])), ConnStep::ReadMore);
    assert_eq!(c.on_event(ConnEvent::Data(&bytes[header_end..])), ConnStep::Complete);
    match c.finish() {
        NotifyOutcome::Accept(p) => {
            assert_eq!(p.text, "split");
            assert_eq!(p.action, None);
            assert_eq!(p.duration, None);
        }
        _ => panic!("expected accept"),
    }
}

#[test]
fn foreign_or_missing_host_is_forbidden() {
    let (step, _) = run(request("evil.com", r#"{"text":"x"}"#).as_bytes());
    assert_eq!(step, ConnStep::Respond(HttpStatus::Forbidden));
    let (step, _) = run(b"POST /notify HTTP/1.1\r\nContent-Length: 0\r\n\r\n");
    assert_eq!(step, ConnStep::Respond(HttpStatus::Forbidden));
}

#[test]
fn oversized_header_is_431() {
    let mut req = String::from("POST /notify HTTP/1.1\r\nHost: localhost\r\nX-Pad: ");
    req.push_str(&"a".repeat(MAX_HEADER_BYTES));
    req.push_str("\r\n\r\n");
    let (step, _) = run(req.as_bytes());
    assert_eq!(step, ConnStep::Respond(HttpStatus::HeaderFieldsTooLarge));
}

#[test]
fn oversized_declared_body_is_413() {
    let req = format!(
        "POST /notify HTTP/1.1\r\nHost: localhost\r\nContent-Length: {}\r\n\r\n",
        MAX_BODY_BYTES + 1
    );
    let (step, _) = run(req.as_bytes());
    assert_eq!(step, ConnStep::Respond(HttpStatus::PayloadTooLarge));
}

#[test]
fn too_many_bytes_in_total_is_413() {
    let big = vec![b'a'; MAX_HEADER_BYTES + MAX_BODY_BYTES + 1];
    let (step, c) = run(&big);
    assert_eq!(step, ConnStep::Respond(HttpStatus::PayloadTooLarge));
    let _ = c;
    let mut c = NotifyConn::new();
    assert_eq!(c.on_event(ConnEvent::Data(&big[..MAX_HEADER_BYTES])), ConnStep::ReadMore);
    assert_eq!(
        c.on_event(ConnEvent::Data(&big[..MAX_BODY_BYTES + 1])),
        ConnStep::Respond(HttpStatus::PayloadTooLarge)
    );
}

#[test]
fn timeouts_are_408() {
    let mut c = NotifyConn::new();
    assert_eq!(c.on_event(ConnEvent::TimedOut), ConnStep::Respond(HttpStatus::RequestTimeout));
    assert_eq!(HttpStatus::RequestTimeout.status_line(), "408 Request Timeout");
}

#[test]
fn eof_before_header_end_closes_silently() {
    let mut c = NotifyConn::new();
    assert_eq!(c.on_event(ConnEvent::Data(b"POST /notify HTTP/1.1\r\n")), ConnStep::ReadMore);
    assert_eq!(c.on_event(ConnEvent::Eof), ConnStep::Close);
}

#[test]
fn eof_during_body_decides_what_came() {
    let mut c = NotifyConn::new();
    let head = "POST /notify HTTP/1.1\r\nHost: localhost\r\nContent-Length: 50\r\n\r\n{\"text\":";
    assert_eq!(c.on_event(ConnEvent::Data(head.as_bytes())), ConnStep::ReadMore);
    assert_eq!(c.on_event(ConnEvent::Eof), ConnStep::Complete);
    match c.finish() {
        NotifyOutcome::Refuse(s) => assert_eq!(s, HttpStatus::BadRequest),
        _ => panic!("expected 400"),
    }
}

#[test]
fn other_routes_are_404() {
    let req = "GET /notify HTTP/1.1\r\nHost: localhost\r\nContent-Length: 0\r\n\r\n";
    let (step, c) = run(req.as_bytes());
    assert_eq!(step, ConnStep::Complete);
    match c.finish() {
        NotifyOutcome::Refuse(s) => assert_eq!(s.status_line(), "404 Not Found"),
        _ => panic!("expected 404"),
    }
    let req = "POST /other HTTP/1.1\r\nHost: localhost\r\n\r\n";
    let (_, c) = run(req.as_bytes());
    assert!(matches!(c.finish(), NotifyOutcome::Refuse(HttpStatus::NotFound)));
}

#[test]
fn bad_json_and_empty_text_are_400() {
    let (_, c) = run(request("localhost", "not json").as_bytes());
    assert!(matches!(c.finish(), NotifyOutcome::Refuse(HttpStatus::BadRequest)));
    let (_, c) = run(request("localhost", r#"{"text":""}"#).as_bytes());
    assert!(matches!(c.finish(), NotifyOutcome::Refuse(HttpStatus::BadRequest)));
    let (_, c) = run(request("localhost", r#"{"text":5}"#).as_bytes());
    assert!(matches!(c.finish(), NotifyOutcome::Refuse(HttpStatus::BadRequest)));
    let (_, c) = run(request("localhost", r#"["text"]"#).as_bytes());
    assert!(matches!(c.finish(), NotifyOutcome::Refuse(HttpStatus::BadRequest)));
}

#[test]
fn too_long_text_gets_json_error() {
    let text = "字".repeat(MAX_LEN + 1);
    let body = format!(r#"{{"text":"{text}"}}"#);
    let (_, c) = run(request("localhost", &body).as_bytes());
    match c.finish() {
        NotifyOutcome::TooLong { message } => {
            assert_eq!(message, "通知文本超限：最多 120 字，当前 121 字")
        }
        _ => panic!("expected too long"),
    }
}

#[test]
fn non_string_action_and_non_integer_duration_are_dropped() {
    let (_, c) = run(request("localhost", r#"{"text":"t","action":3,"duration":-1}"#).as_bytes());
    match c.finish() {
        NotifyOutcome::Accept(p) => {
            assert_eq!(p.action, None);
            assert_eq!(p.duration, None);
        }
        _ => panic!("expected accept"),
    }
}

#[test]
fn check_notify_text_rules() {
    assert!(check_notify_text("hi").is_ok());
    assert!(check_notify_text(&"字".repeat(MAX_LEN)).is_ok());
    assert_eq!(check_notify_text("").unwrap_err(), "通知文本不能为空");
    assert_eq!(
        check_notify_text(&"a".repeat(130)).unwrap_err(),
        "通知文本超限：最多 120 字，当前 130 字"
    );
}

#[test]
fn decide_notify_passes_fields_through() {
    match decide_notify(Some("x".into()), Some("jump".into()), Some(4000)) {
        NotifyOutcome::Accept(p) => {
            assert_eq!(p.text, "x");
            assert_eq!(p.action.as_deref(), Some("jump"));
            assert_eq!(p.duration, Some(4000));
        }
        _ => panic!("expected accept"),
    }
    assert!(matches!(decide_notify(None, None, None), NotifyOutcome::Refuse(HttpStatus::BadRequest)));
}

#[test]
fn responses_are_framed_with_their_length() {
    assert_eq!(
        status_response(HttpStatus::Forbidden),
        "HTTP/1.1 403 Forbidden\r\nContent-Length: 0\r\nConnection: close\r\n\r\n"
    );
    let body = r#"{"error":"超限","ok":false}"#;
    assert_eq!(
        json_response(HttpStatus::BadRequest, body),
        format!(
            "HTTP/1.1 400 Bad Request\r\nContent-Type: application/json\r\nContent-Length: {}\r\nConnection: close\r\n\r\n{}",
            body.len(),
            body
        )
    );
    assert_eq!(
        accepted_response(),
        "HTTP/1.1 200 OK\r\nContent-Length: 2\r\nConnection: close\r\n\r\nok"
    );
}

#[test]
fn parse_content_length_smaller_than_body() {
    let req = "POST /notify HTTP/1.1\r\nHost: localhost\r\nContent-Length: 13\r\n\r\n{\"text\":\"hi\"}garbage";
    let (step, c) = run(req.as_bytes());
    assert_eq!(step, ConnStep::Complete);
    match c.finish() {
        NotifyOutcome::Accept(p) => assert_eq!(p.text, "hi"),
        _ => panic!("expected accept"),
    }
}
