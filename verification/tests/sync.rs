use omniclip::sync::pairing::sync_autostart;
use omniclip::sync::broadcast::{
    connected_event, format_event, keepalive_comment, sse_headers, sse_next, EventBroadcaster,
    SseAction, SseEvent,
};
use omniclip::sync::http::{
    error_json, format_response, ip_json, pair_code_json, parse_request_line, read_header_line,
    render_web_ui, route, star_json, status_text, sync_text_from_body, verify_response,
    HeaderLine, HttpRoute,
};
use omniclip::sync::pairing::{generate_pair_code, get_pair_code, SyncServer};
use omniclip::sync::peer::{
    classify_tcp_message, data_reply, error_reply, http_send_succeeded, http_sync_request,
    mdns_message, mdns_payload, parse_mdns_announcement, parse_records_response, peer_addr,
    peer_transport, tcp_text_message, PeerTransport, TcpCommand,
};

#[test]
fn pair_code_is_six_digits_from_the_seed() {
    assert_eq!(generate_pair_code(0), (7654321 % 900000 + 100000) as u32);
    assert_eq!(generate_pair_code(0), 554321);
    let seed: u64 = 1_700_000_000;
    let code = generate_pair_code(seed);
    assert_eq!(code as u64, (seed * 1234567 + 7654321) % 900000 + 100000);
    assert!((100000..=999999).contains(&code));
}

#[test]
fn pair_code_text_is_zero_padded() {
    assert_eq!(get_pair_code(0), "000000");
    assert_eq!(get_pair_code(42), "000042");
    assert_eq!(get_pair_code(554321), "554321");
}

#[test]
fn pair_code_check() {
    let server = SyncServer { tcp_port: 18910, http_port: 18911, pair_code: 123456 };
    assert_eq!(server.get_pair_code(), "123456");
    assert!(server.verify_pair_code("123456"));
    assert!(!server.verify_pair_code("654321"));
    assert!(!server.verify_pair_code("000000"));
    assert!(!server.verify_pair_code("12345"));
    assert!(!server.verify_pair_code("1234567"));
    assert!(!server.verify_pair_code("12a456"));
    assert!(!server.verify_pair_code("１２３４５６"));
    let undrawn = SyncServer { tcp_port: 18910, http_port: 18911, pair_code: 0 };
    assert!(!undrawn.verify_pair_code("000000"));
}

#[test]
fn generated_codes_pass_the_check() {
    for seed in [0u64, 1, 99, 1_700_000_000, 1_800_000_123] {
        let server = SyncServer::new(0, seed);
        assert!(server.verify_pair_code(&server.get_pair_code()));
    }
}

#[test]
fn server_ports() {
    let s = SyncServer::new(0, 5);
    assert_eq!((s.tcp_port, s.http_port), (18910, 18911));
    let s = SyncServer::new(20000, 5);
    assert_eq!((s.tcp_port, s.http_port), (20000, 18911));
    assert_eq!(s.pair_code, generate_pair_code(5));
}

#[test]
fn events_are_formatted() {
    assert_eq!(format_event("clipboard-update", "{}"), "event: clipboard-update\ndata: {}\n\n");
    assert_eq!(connected_event(7), "event: connected\ndata: {\"id\":7}\n\n");
    assert_eq!(keepalive_comment(), ": keepalive\n\n");
    assert!(sse_headers().starts_with("HTTP/1.1 200 OK\r\nContent-Type: text/event-stream\r\n"));
    assert!(sse_headers().ends_with("X-Accel-Buffering: no\r\n\r\n"));
}

#[test]
fn broadcaster_delivers_to_every_listener() {
    let mut b = EventBroadcaster::new();
    let (id1, rx1) = b.subscribe();
    let (id2, rx2) = b.subscribe();
    assert_eq!((id1, id2), (1, 2));
    b.broadcast("ping", "x");
    assert_eq!(rx1.try_recv().unwrap(), "event: ping\ndata: x\n\n");
    assert_eq!(rx2.try_recv().unwrap(), "event: ping\ndata: x\n\n");
}

#[test]
fn broadcaster_forgets_unsubscribed_and_dead_listeners() {
    let mut b = EventBroadcaster::new();
    let (id1, rx1) = b.subscribe();
    let (_id2, rx2) = b.subscribe();
    b.unsubscribe(id1);
    assert!(rx1.recv().is_err());
    drop(rx2);
    b.broadcast("a", "1");
    let (id3, rx3) = b.subscribe();
    assert_eq!(id3, 3);
    b.broadcast("b", "2");
    assert_eq!(rx3.try_recv().unwrap(), "event: b\ndata: 2\n\n");
}

#[test]
fn stalled_listener_is_dropped_after_its_buffer_fills() {
    let mut b = EventBroadcaster::new();
    let (_id, rx) = b.subscribe();
    for i in 0..40 {
        b.broadcast("n", &i.to_string());
    }
    let mut got = 0;
    while rx.try_recv().is_ok() {
        got += 1;
    }
    assert_eq!(got, 32);
    assert!(rx.recv().is_err());
}

#[test]
fn stream_writer_decisions() {
    assert!(matches!(sse_next(SseEvent::Message("e".to_string())), SseAction::Write(t) if t == "e"));
    assert!(matches!(sse_next(SseEvent::Timeout { idle_nanos: 300_000_000_000 }), SseAction::KeepAlive { close: false }));
    assert!(matches!(sse_next(SseEvent::Timeout { idle_nanos: 300_000_000_001 }), SseAction::KeepAlive { close: true }));
    assert!(matches!(sse_next(SseEvent::Closed), SseAction::Close));
}

#[test]
fn request_lines() {
    assert_eq!(
        parse_request_line("GET /api/records HTTP/1.1\r\n"),
        Some(("GET".to_string(), "/api/records".to_string()))
    );
    assert_eq!(parse_request_line("  POST   /x"), Some(("POST".to_string(), "/x".to_string())));
    assert_eq!(parse_request_line("GET"), None);
    assert_eq!(parse_request_line(""), None);
}

#[test]
fn header_lines() {
    assert!(matches!(read_header_line("\r\n"), HeaderLine::End));
    assert!(matches!(read_header_line("Content-Length: 42\r\n"), HeaderLine::ContentLength(42)));
    assert!(matches!(read_header_line("content-length:7"), HeaderLine::ContentLength(7)));
    assert!(matches!(read_header_line("CONTENT-LENGTH: +9"), HeaderLine::ContentLength(9)));
    assert!(matches!(read_header_line("Content-Length: abc"), HeaderLine::ContentLength(0)));
    assert!(matches!(read_header_line("Content-Length: 1:2"), HeaderLine::ContentLength(1)));
    assert!(matches!(read_header_line("Host: x"), HeaderLine::Other));
}

fn route_of(method: &str, target: &str) -> HttpRoute {
    route(method, target)
}

#[test]
fn routes() {
    assert!(matches!(route_of("GET", "/"), HttpRoute::Index));
    assert!(matches!(route_of("POST", "/index.html?x"), HttpRoute::Index));
    assert!(matches!(route_of("GET", "/api/pair-code"), HttpRoute::PairCode));
    assert!(matches!(route_of("POST", "/api/pair-code"), HttpRoute::NotFound));
    assert!(matches!(route_of("POST", "/api/verify"), HttpRoute::Verify));
    assert!(matches!(route_of("GET", "/api/events"), HttpRoute::Events));
    assert!(matches!(route_of("GET", "/api/records?limit=3"), HttpRoute::Records));
    assert!(matches!(route_of("GET", "/api/ip"), HttpRoute::LocalIp));
    assert!(matches!(route_of("POST", "/api/sync"), HttpRoute::Sync));
    assert!(matches!(route_of("POST", "/api/star/abc"), HttpRoute::Star(id) if id == "abc"));
    assert!(matches!(route_of("GET", "/api/star/abc"), HttpRoute::NotFound));
    assert!(matches!(route_of("DELETE", "/api/delete/7"), HttpRoute::Delete(id) if id == "7"));
    assert!(matches!(route_of("POST", "/api/delete/7"), HttpRoute::Delete(id) if id == "7"));
    assert!(matches!(route_of("PUT", "/api/paste/9"), HttpRoute::Paste(id) if id == "9"));
    assert!(matches!(route_of("POST", "/api/paste/9?x=1"), HttpRoute::Paste(id) if id == "9"));
    assert!(matches!(route_of("GET", "/nothing"), HttpRoute::NotFound));
}

#[test]
fn search_route_reads_the_query() {
    assert!(matches!(route_of("GET", "/api/search?q=hello%20world"), HttpRoute::Search(q) if q == "hello world"));
    assert!(matches!(route_of("GET", "/api/search?x=1"), HttpRoute::Search(q) if q.is_empty()));
    assert!(matches!(route_of("GET", "/api/search"), HttpRoute::Search(q) if q.is_empty()));
    assert!(matches!(route_of("GET", "/api/search?q=a?b"), HttpRoute::Search(q) if q == "a"));
}

#[test]
fn responses() {
    assert_eq!(status_text(200), "OK");
    assert_eq!(status_text(400), "Bad Request");
    assert_eq!(status_text(404), "Not Found");
    assert_eq!(status_text(500), "Internal Server Error");
    assert_eq!(status_text(302), "Unknown");
    let r = format_response(404, "text/plain", "Not Found");
    assert_eq!(
        r,
        "HTTP/1.1 404 Not Found\r\nContent-Type: text/plain\r\nContent-Length: 9\r\nConnection: close\r\nAccess-Control-Allow-Origin: *\r\nAccess-Control-Allow-Methods: GET, POST, DELETE, PUT, OPTIONS\r\nAccess-Control-Allow-Headers: Content-Type\r\n\r\nNot Found"
    );
    assert!(format_response(200, "application/json", "你好").contains("Content-Length: 6\r\n"));
}

#[test]
fn json_bodies() {
    assert_eq!(pair_code_json("012345"), "{\"code\":\"012345\",\"port\":18911}");
    assert_eq!(error_json("db locked"), "{\"error\":\"db locked\"}");
    assert_eq!(star_json(true), "{\"status\":\"ok\",\"starred\":true}");
    assert_eq!(star_json(false), "{\"status\":\"ok\",\"starred\":false}");
    assert_eq!(ip_json("10.0.0.2"), "{\"ip\":\"10.0.0.2\"}");
}

#[test]
fn verify_endpoint() {
    let server = SyncServer { tcp_port: 18910, http_port: 18911, pair_code: 123456 };
    assert_eq!(verify_response(&server, "{\"code\":\"654321\"}"), (400, "{\"success\":false,\"message\":\"Invalid pair code\"}".to_string()));
    assert_eq!(verify_response(&server, "{\"code\":\"123456\"}"), (200, "{\"success\":true,\"message\":\"Paired successfully\"}".to_string()));
    assert_eq!(verify_response(&server, "{\"code\":\"000000\"}"), (400, "{\"success\":false,\"message\":\"Invalid pair code\"}".to_string()));
    assert_eq!(verify_response(&server, "{\"code\":123456}"), (400, "{\"success\":false,\"message\":\"no code\"}".to_string()));
    assert_eq!(verify_response(&server, "{}"), (400, "{\"success\":false,\"message\":\"no code\"}".to_string()));
    assert_eq!(verify_response(&server, "nope"), (400, "{\"success\":false,\"message\":\"invalid json\"}".to_string()));
}

#[test]
fn sync_endpoint_body() {
    assert_eq!(sync_text_from_body("{\"text\":\"hi\\nthere\"}"), Ok("hi\nthere".to_string()));
    assert_eq!(sync_text_from_body("{\"other\":1}"), Err("{\"error\":\"no text field\"}".to_string()));
    assert_eq!(sync_text_from_body("{"), Err("{\"error\":\"invalid json\"}".to_string()));
}

#[test]
fn web_page() {
    let page = render_web_ui();
    assert!(page.starts_with("<!DOCTYPE html>"));
    assert!(page.contains("/api/pair-code"));
    assert!(page.ends_with("</html>"));
}

#[test]
fn announcements() {
    assert_eq!(mdns_payload("desk", 18910), "1:desk:18910");
    assert_eq!(mdns_message("desk", 18910), "1:desk:18910\0");
    let peer = parse_mdns_announcement(mdns_message("desk", 18910).as_bytes(), "192.168.1.5").unwrap();
    assert_eq!((peer.name.as_str(), peer.ip.as_str(), peer.port), ("desk", "192.168.1.5", 18910));
    let peer = parse_mdns_announcement(b"1:phone:notaport\0", "10.0.0.1").unwrap();
    assert_eq!(peer.port, 0);
    assert!(parse_mdns_announcement(b"1:desk:18910", "1.1.1.1").is_none());
    assert!(parse_mdns_announcement(b"2:desk:18910\0", "1.1.1.1").is_none());
    assert!(parse_mdns_announcement(b"1:a:b:1\0", "1.1.1.1").is_none());
    assert!(parse_mdns_announcement(b"1:desk\0", "1.1.1.1").is_none());
    assert!(parse_mdns_announcement(b"1:desk:70000\0", "1.1.1.1").unwrap().port == 0);
}

#[test]
fn tcp_messages() {
    assert!(matches!(classify_tcp_message(tcp_text_message("hello there").as_bytes()), TcpCommand::StoreText(t) if t == "hello there"));
    assert!(matches!(classify_tcp_message(b"  SYNC:TEXT:  padded  \n"), TcpCommand::StoreText(t) if t == "  padded"));
    assert!(matches!(classify_tcp_message(b"SYNC:TEXT:"), TcpCommand::Ignore));
    assert!(matches!(classify_tcp_message(b"SYNC:REQUEST:RECORDS\n"), TcpCommand::RequestRecords));
    assert!(matches!(classify_tcp_message(b"PING"), TcpCommand::Ping));
    assert!(matches!(classify_tcp_message(b"ping"), TcpCommand::Ignore));
    assert_eq!(tcp_text_message("x"), "SYNC:TEXT:x");
    assert_eq!(data_reply("[]"), "DATA:[]");
    assert_eq!(error_reply("locked"), "ERR:locked");
}

#[test]
fn records_responses() {
    assert_eq!(parse_records_response("DATA:[1]"), Ok("[1]".to_string()));
    assert_eq!(parse_records_response("ERR:x"), Err("Peer returned invalid data".to_string()));
    assert_eq!(parse_records_response(""), Err("Peer returned invalid data".to_string()));
}

#[test]
fn sending_to_a_peer() {
    assert!(matches!(peer_transport(18910), PeerTransport::Tcp));
    assert!(matches!(peer_transport(18911), PeerTransport::LocalOnly));
    assert!(matches!(peer_transport(8080), PeerTransport::Http));
    assert_eq!(peer_addr("10.0.0.3", 8080), "10.0.0.3:8080");
    assert_eq!(
        http_sync_request("10.0.0.3:8080", "a\"b"),
        "POST /api/sync HTTP/1.1\r\nHost: 10.0.0.3:8080\r\nContent-Type: application/json\r\nContent-Length: 15\r\nConnection: close\r\n\r\n{\"text\":\"a\\\"b\"}"
    );
    assert!(http_sync_request("h:1", "\u{1}").ends_with("{\"text\":\"\\u0001\"}"));
    assert!(http_send_succeeded("HTTP/1.1 200 OK"));
    assert!(http_send_succeeded("{\"status\":\"ok\"}"));
    assert!(!http_send_succeeded("HTTP/1.1 404 Not Found"));
}

#[test]
fn sync_starts_with_the_stored_settings() {
    assert_eq!(sync_autostart(Some("true"), Some("20000")), Some(20000));
    assert_eq!(sync_autostart(Some("true"), Some("not a port")), Some(18910));
    assert_eq!(sync_autostart(Some("true"), Some("70000")), Some(18910));
    assert_eq!(sync_autostart(Some("true"), None), Some(18910));
    assert_eq!(sync_autostart(Some("false"), Some("20000")), None);
    assert_eq!(sync_autostart(Some("TRUE"), None), None);
    assert_eq!(sync_autostart(None, Some("20000")), Some(20000));
    assert_eq!(sync_autostart(None, None), Some(18910));
}

#[test]
fn posted_text_is_read_back_by_the_sync_endpoint() {
    for text in ["plain", "quote \" and backslash \\", "line\nbreak\ttab", "中文", "\u{1}"] {
        let request = http_sync_request("h:1", text);
        let body = request.split("\r\n\r\n").nth(1).unwrap();
        assert_eq!(sync_text_from_body(body), Ok(text.to_string()));
        assert!(matches!(route_of("POST", "/api/sync"), HttpRoute::Sync));
    }
}

#[test]
fn the_code_on_screen_pairs() {
    let server = SyncServer::new(0, 1_700_000_000);
    let body = format!("{{\"code\":\"{}\"}}", server.get_pair_code());
    assert_eq!(verify_response(&server, &body).0, 200);
}

#[test]
fn announcement_round_trip() {
    let peer = parse_mdns_announcement(mdns_message("omniclip-pc", 1).as_bytes(), "::1").unwrap();
    assert_eq!((peer.name.as_str(), peer.ip.as_str(), peer.port), ("omniclip-pc", "::1", 1));
}

#[test]
fn datagrams_are_read_as_lossy_utf8() {
    let peer = parse_mdns_announcement(b"1:\xffdesk:9\0", "10.0.0.9").unwrap();
    assert_eq!(peer.name, "\u{fffd}desk");
    assert!(matches!(classify_tcp_message(b"SYNC:TEXT:a\xffb"), TcpCommand::StoreText(t) if t == "a\u{fffd}b"));
}

#[test]
fn store_answers() {
    assert_eq!(omniclip::sync::http::store_answer(Ok("[]".to_string())), (200, "[]".to_string()));
    assert_eq!(
        omniclip::sync::http::store_answer(Err("database is locked".to_string())),
        (500, "{\"error\":\"database is locked\"}".to_string())
    );
    assert_eq!(omniclip::sync::http::ok_json(), "{\"status\":\"ok\"}");
    assert_eq!(omniclip::sync::http::not_found_json(), "{\"error\":\"not found\"}");
}
