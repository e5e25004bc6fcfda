use darkdm::proxy::{
    analyze_response_head, capture_name, content_type_contains, head_complete, is_video_request,
    origin_of, parse_request_line, rewrite_request, route_request, segment_extension, tunnel_target,
    DarkDMProxy, ProxyRoute,
};

#[test]
fn request_heads() {
    assert!(head_complete(b"GET / HTTP/1.1\r\nHost: a\r\n\r\n"));
    assert!(!head_complete(b"GET / HTTP/1.1\r\nHost: a\r\n"));
    assert_eq!(
        parse_request_line("GET http://a/b?c=1 HTTP/1.1\r\nHost: a\r\n\r\n"),
        Some(("GET".to_string(), "http://a/b?c=1".to_string()))
    );
    assert_eq!(parse_request_line("GET /only-two\r\n"), None);
    assert_eq!(parse_request_line("  CONNECT   host:443   HTTP/1.1"), Some(("CONNECT".to_string(), "host:443".to_string())));
}

#[test]
fn routing_and_rewriting() {
    assert!(matches!(route_request("CONNECT", "h:443"), ProxyRoute::Tunnel(t) if t == "h:443"));
    assert!(matches!(route_request("GET", "http://h/x"), ProxyRoute::Forward(_)));
    assert!(matches!(route_request("GET", "/x"), ProxyRoute::Drop));
    let o = origin_of("http://example.com:8080/a/b.ts?x=1").unwrap();
    assert_eq!(o.host, "example.com");
    assert_eq!(o.port, 8080);
    assert_eq!(o.request_target, "/a/b.ts?x=1");
    let o = origin_of("http://example.com").unwrap();
    assert_eq!(o.port, 80);
    assert_eq!(o.request_target, "/");
    assert!(origin_of("not a url").is_none());
    assert_eq!(
        rewrite_request("GET http://h/a HTTP/1.1\r\nX: http://h/a\r\n", "http://h/a", "/a"),
        "GET /a HTTP/1.1\r\nX: http://h/a\r\n"
    );
}

#[test]
fn response_heads() {
    let head = "HTTP/1.1 200 OK\r\nContent-Length: 1234\r\nContent-Type: Video/MP2T\r\n\r\n";
    let h = analyze_response_head(head, "http://h/x");
    assert_eq!(h.content_length, 1234);
    assert_eq!(h.content_type, "video/mp2t");
    assert!(h.is_video);
    let h = analyze_response_head("HTTP/1.1 200 OK\r\ncontent-length: x\r\n\r\n", "http://h/seg-1.bin");
    assert_eq!(h.content_length, -1);
    assert!(h.is_video);
    let h = analyze_response_head("HTTP/1.1 200 OK\r\nContent-Type: text/html\r\n\r\n", "http://h/page");
    assert!(!h.is_video);
    assert_eq!(segment_extension("application/vnd.apple.mpegurl", "http://h/x"), "m3u8");
    assert_eq!(segment_extension("application/dash+xml", "http://h/x"), "mpd");
    assert_eq!(segment_extension("", "http://h/x.ts"), "ts");
    assert_eq!(segment_extension("", "http://h/x.m4s"), "m4s");
    assert_eq!(segment_extension("video/mp4", "http://h/x"), "bin");
    assert_eq!(capture_name(42, "ts"), "00042.ts");
    assert!(content_type_contains("HTTP/1.1 200\r\nCONTENT-TYPE: application/x-mpegURL\r\n", "mpegurl"));
    assert!(!content_type_contains("HTTP/1.1 200\r\nX-Type: mpegurl\r\n", "mpegurl"));
    assert!(is_video_request("http://h/Chunk/1"));
    assert!(!is_video_request("http://h/index.html"));
}

#[test]
fn tunnels_and_state() {
    assert_eq!(tunnel_target("example.com:8443"), ("example.com".to_string(), 8443));
    assert_eq!(tunnel_target("example.com"), ("example.com".to_string(), 443));
    assert_eq!(tunnel_target("example.com:bad"), ("example.com".to_string(), 443));
    let mut p = DarkDMProxy::new("/tmp/out", "s1");
    assert_eq!(p.listen_address(), Ok("127.0.0.1:8899".to_string()));
    p.mark_started();
    assert!(p.is_running());
    assert_eq!(p.listen_address(), Err("Proxy already running".to_string()));
    assert_eq!(p.next_segment(), 0);
    assert_eq!(p.next_segment(), 1);
    assert_eq!(p.get_segment_count(), 2);
    p.stop();
    assert!(!p.is_running());
}

#[test]
fn proxy_counts_only_captured_bodies() {
    let mut p = DarkDMProxy::new("/tmp/out", "s2");
    let page = analyze_response_head("HTTP/1.1 200 OK\r\nContent-Type: text/html\r\n\r\n", "http://h/index.html");
    assert_eq!(p.capture(&page, "http://h/index.html"), None);
    assert_eq!(p.get_segment_count(), 0);
    let seg = analyze_response_head("HTTP/1.1 200 OK\r\nContent-Type: video/mp2t\r\nContent-Length: 10\r\n\r\n", "http://h/a");
    assert_eq!(p.capture(&seg, "http://h/a"), Some("00000.ts".to_string()));
    assert_eq!(p.get_segment_count(), 1);
    let list = analyze_response_head("HTTP/1.1 200 OK\r\n\r\n", "http://h/v/seg-2.m4s");
    assert_eq!(p.capture(&list, "http://h/v/seg-2.m4s"), Some("00001.m4s".to_string()));
    assert_eq!(p.get_segment_count(), 2);
}
