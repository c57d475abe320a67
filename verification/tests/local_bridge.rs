use devflow_recorder::bridge::{
    accept_gnome_payload, bridge_token_is_valid, reply_text, route_bridge_request, route_reply,
    BridgeReply, BridgeRoute, GnomeAcceptance,
};
use devflow_recorder::http::{
    find_header_end, header_value, http_response, parse_content_length, split_lines, ReadProgress,
    RequestReader,
};
use devflow_recorder::ingest::GnomeWindowPayload;

const TOKEN: &str = "18c2f-4d2";

fn post(token: Option<&str>, body: &str) -> String {
    let mut r = String::from("POST /v1/gnome/window HTTP/1.1\r\nHost: 127.0.0.1\r\n");
    if let Some(t) = token {
        r.push_str(&format!("X-DevFlow-Token: {t}\r\n"));
    }
    r.push_str(&format!("Content-Length: {}\r\n\r\n{body}", body.len()));
    r
}

fn payload(title: &str, focused_at: Option<u128>) -> GnomeWindowPayload {
    GnomeWindowPayload {
        title: title.to_string(),
        app: None,
        app_id: Some("org.gnome.Nautilus".to_string()),
        wm_class: Some("Nautilus".to_string()),
        pid: Some(77),
        workspace: Some(1),
        focused_at,
    }
}

#[test]
fn lines_split_like_str_lines() {
    assert_eq!(split_lines("a\r\nb\nc"), vec!["a", "b", "c"]);
    assert_eq!(split_lines("a\n"), vec!["a"]);
    assert_eq!(split_lines("\n\n"), vec!["", ""]);
    assert_eq!(split_lines("x\r"), vec!["x\r"]);
    assert_eq!(split_lines(""), Vec::<String>::new());
    for s in ["GET / HTTP/1.1\r\nA: b\r\n\r\nbody", "one\ntwo\r\n\r\r\n"] {
        let expected: Vec<String> = s.lines().map(|l| l.to_string()).collect();
        assert_eq!(split_lines(s), expected);
    }
}

#[test]
fn header_lookup_ignores_case_and_skips_request_line() {
    let req = "X-Devflow-Token: fake HTTP/1.1\r\nx-devflow-token:  abc \r\nOther: 1\r\n\r\nX-DevFlow-Token: body";
    assert_eq!(header_value(req, "X-DEVFLOW-TOKEN"), Some("abc".to_string()));
    assert_eq!(header_value(req, "other"), Some("1".to_string()));
    assert_eq!(header_value(req, "missing"), None);
    assert_eq!(header_value("GET / HTTP/1.1\r\nnocolon\r\nA:b:c", "a"), Some("b:c".to_string()));
}

#[test]
fn content_length_takes_first_numeric_value() {
    assert_eq!(parse_content_length("POST / HTTP/1.1\r\nContent-Length: 12"), Some(12));
    assert_eq!(parse_content_length("content-length: x\r\nCONTENT-LENGTH: +7"), Some(7));
    assert_eq!(parse_content_length("Content-Length: -1"), None);
    assert_eq!(parse_content_length("Host: a"), None);
    assert_eq!(parse_content_length("Content-Length: 99999999999999999999999"), None);
}

#[test]
fn header_end_is_the_first_blank_line() {
    assert_eq!(find_header_end(b"GET / HTTP/1.1\r\n\r\nbody\r\n\r\n"), Some(14));
    assert_eq!(find_header_end(b"\r\n\r"), None);
    assert_eq!(find_header_end(b"\r\n\r\n"), Some(0));
    assert_eq!(find_header_end(b"abc\n\n"), None);
}

#[test]
fn reader_returns_exactly_the_declared_request() {
    let req = post(Some(TOKEN), "{\"title\":\"x\"}");
    let mut reader = RequestReader::new();
    let mut bytes = req.clone().into_bytes();
    bytes.extend_from_slice(b"trailing garbage");
    let (a, b) = bytes.split_at(10);
    assert_eq!(reader.feed(a), ReadProgress::NeedMore);
    assert_eq!(reader.feed(b), ReadProgress::Complete);
    assert_eq!(reader.finish(), Ok(req));
}

#[test]
fn reader_waits_for_the_body() {
    let mut reader = RequestReader::new();
    assert_eq!(reader.feed(b"POST / HTTP/1.1\r\nContent-Length: 4\r\n\r\nab"), ReadProgress::NeedMore);
    assert_eq!(reader.feed(b"cdef"), ReadProgress::Complete);
    assert_eq!(reader.finish(), Ok("POST / HTTP/1.1\r\nContent-Length: 4\r\n\r\nabcd".to_string()));
}

#[test]
fn reader_refuses_oversized_headers() {
    let mut reader = RequestReader::new();
    let big = vec![b'a'; 65_537];
    assert_eq!(reader.feed(&big), ReadProgress::TooLarge);
    let mut ok = RequestReader::new();
    assert_eq!(ok.feed(&vec![b'a'; 65_536]), ReadProgress::NeedMore);
}

#[test]
fn reader_at_end_of_stream_reports_bad_utf8() {
    let mut reader = RequestReader::new();
    assert_eq!(reader.feed(&[0xff, 0xfe]), ReadProgress::NeedMore);
    let r = reader.finish();
    assert!(r.is_err());
    let mut plain = RequestReader::new();
    plain.feed(b"GET /health HTTP/1.1\r\n");
    assert_eq!(plain.finish(), Ok("GET /health HTTP/1.1\r\n".to_string()));
}

#[test]
fn responses_carry_byte_length_and_cors_headers() {
    let r = http_response(200, "OK", "application/json", "{\"ok\":true}");
    assert_eq!(
        r,
        "HTTP/1.1 200 OK\r\nContent-Type: application/json; charset=utf-8\r\nContent-Length: 11\r\nAccess-Control-Allow-Origin: http://localhost:1421\r\nAccess-Control-Allow-Methods: GET, POST, OPTIONS\r\nAccess-Control-Allow-Headers: content-type, x-devflow-token\r\nConnection: close\r\n\r\n{\"ok\":true}"
    );
    let r = http_response(400, "Bad Request", "text/plain", "é");
    assert!(r.contains("Content-Length: 2\r\n"));
    assert!(r.ends_with("\r\n\r\né"));
}

#[test]
fn token_must_be_set_and_match() {
    assert!(bridge_token_is_valid(&post(Some(TOKEN), ""), TOKEN));
    assert!(!bridge_token_is_valid(&post(Some("other"), ""), TOKEN));
    assert!(!bridge_token_is_valid(&post(None, ""), TOKEN));
    assert!(!bridge_token_is_valid(&post(Some(""), ""), ""));
}

#[test]
fn requests_are_routed_by_their_first_line() {
    assert!(matches!(route_bridge_request("GET /health HTTP/1.1\r\n\r\n", TOKEN), BridgeRoute::Health));
    assert!(matches!(route_bridge_request("OPTIONS /v1/gnome/window HTTP/1.1\r\n\r\n", TOKEN), BridgeRoute::Preflight));
    assert!(matches!(route_bridge_request("GET /other HTTP/1.1\r\n\r\n", TOKEN), BridgeRoute::NotFound));
    assert!(matches!(route_bridge_request("GET /health\r\n\r\n", TOKEN), BridgeRoute::NotFound));
    assert!(matches!(route_bridge_request(&post(None, "{}"), TOKEN), BridgeRoute::Unauthorized));
    assert!(matches!(route_bridge_request(&post(Some(TOKEN), "{}"), ""), BridgeRoute::Unauthorized));
    match route_bridge_request(&post(Some(TOKEN), "{\"title\":\"t\"}"), TOKEN) {
        BridgeRoute::GnomeWindow { body } => assert_eq!(body, "{\"title\":\"t\"}"),
        other => panic!("unexpected route {other:?}"),
    }
}

#[test]
fn routes_get_their_replies() {
    assert!(matches!(route_reply(&BridgeRoute::Health), Some(BridgeReply::Healthy)));
    assert!(matches!(route_reply(&BridgeRoute::Preflight), Some(BridgeReply::NoContent)));
    assert!(matches!(route_reply(&BridgeRoute::NotFound), Some(BridgeReply::NotFound)));
    assert!(matches!(route_reply(&BridgeRoute::Unauthorized), Some(BridgeReply::Unauthorized)));
    assert!(route_reply(&BridgeRoute::GnomeWindow { body: String::new() }).is_none());
}

#[test]
fn reply_texts_hold_status_and_body() {
    assert!(reply_text(&BridgeReply::NoContent).starts_with("HTTP/1.1 204 No Content\r\n"));
    assert!(reply_text(&BridgeReply::NoContent).ends_with("Content-Length: 0\r\nAccess-Control-Allow-Origin: http://localhost:1421\r\nAccess-Control-Allow-Methods: GET, POST, OPTIONS\r\nAccess-Control-Allow-Headers: content-type, x-devflow-token\r\nConnection: close\r\n\r\n"));
    assert!(reply_text(&BridgeReply::NotFound).ends_with("\r\n\r\nnot found"));
    assert!(reply_text(&BridgeReply::Unauthorized).starts_with("HTTP/1.1 401 Unauthorized\r\n"));
    let r = reply_text(&BridgeReply::InvalidJson { message: "EOF".to_string() });
    assert!(r.starts_with("HTTP/1.1 400 Bad Request\r\n"));
    assert!(r.ends_with("\r\n\r\ninvalid json: EOF"));
    assert!(reply_text(&BridgeReply::EmptyTitle).starts_with("HTTP/1.1 422 Unprocessable Entity\r\n"));
    let r = reply_text(&BridgeReply::BadRequest { reason: "request too large".to_string() });
    assert!(r.ends_with("Content-Length: 17\r\nAccess-Control-Allow-Origin: http://localhost:1421\r\nAccess-Control-Allow-Methods: GET, POST, OPTIONS\r\nAccess-Control-Allow-Headers: content-type, x-devflow-token\r\nConnection: close\r\n\r\nrequest too large"));
    assert!(reply_text(&BridgeReply::Healthy).ends_with("{\"ok\":true}"));
}

#[test]
fn blank_gnome_titles_are_refused() {
    assert!(matches!(accept_gnome_payload(payload("  \t", None), 5), GnomeAcceptance::EmptyTitle));
}

#[test]
fn gnome_reports_are_kept_and_timed() {
    match accept_gnome_payload(payload("  Files  ", None), 5_000) {
        GnomeAcceptance::Accepted { received, window, timestamp_ms } => {
            assert_eq!(received.received_at_ms, 5_000);
            assert_eq!(received.payload.title, "  Files  ");
            assert_eq!(window.app, "org.gnome.Nautilus");
            assert_eq!(window.title, "Files");
            assert_eq!(window.source, "gnome-shell-extension");
            assert_eq!(window.pid, Some(77));
            assert_eq!(timestamp_ms, 5_000);
        }
        other => panic!("unexpected {other:?}"),
    }
    match accept_gnome_payload(payload("Files", Some(4_200)), 5_000) {
        GnomeAcceptance::Accepted { timestamp_ms, .. } => assert_eq!(timestamp_ms, 4_200),
        other => panic!("unexpected {other:?}"),
    }
}
