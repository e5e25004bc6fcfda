use darkdm::dash::{parse_dash_manifest, try_parse_dash_manifest};
use darkdm::host_log::{app_log_dir, app_log_file};
use darkdm::host_server::server_port;
use darkdm::proxy::{absolute_target, connect_head_target, port_or};
use darkdm::stream::{
    detect_stream_type, extract_xml_tag, find_best_variant, get_base_url, parse_hls_playlist, StreamType,
};
use darkdm::transacted_io::{
    frame_state, read_order, unframe_state, write_ops, FileOp, StateFileError, StateSlot, TransactedIO,
};

#[test]
fn stream_types() {
    assert_eq!(StreamType::from_url("https://a/B.M3U8?x"), StreamType::HLS);
    assert_eq!(StreamType::from_url("https://a/manifest.mpd"), StreamType::DASH);
    assert_eq!(StreamType::from_url("https://a/v.mp4"), StreamType::Direct);
    assert_eq!(detect_stream_type("https://a/v.mp4", Some("application/x-mpegURL")), StreamType::HLS);
    assert_eq!(detect_stream_type("https://a/x.m3u8", Some("video/mp4")), StreamType::Direct);
    assert_eq!(detect_stream_type("https://a/x.mpd", Some("text/plain")), StreamType::DASH);
    assert_eq!(detect_stream_type("https://a/x", Some("application/dash+xml")), StreamType::DASH);
}

#[test]
fn hls_playlists() {
    assert_eq!(get_base_url("https://h/a/b/index.m3u8"), "https://h/a/b/");
    assert_eq!(get_base_url("index.m3u8"), "index.m3u8");
    let p = "#EXTM3U\n#EXT-X-TARGETDURATION:4\n#EXTINF:4.0,\n  //seg0.ts  \nnot-a-segment.ts\n#EXTINF:4.0,\n#EXT-X-DISCONTINUITY\nhttp://cdn/seg1.ts\n";
    assert_eq!(parse_hls_playlist(p, "https://h/a/"), vec!["https://h/a/seg0.ts", "http://cdn/seg1.ts"]);
    let master = "#EXTM3U\n#EXT-X-STREAM-INF:PROGRAM-ID=1,BANDWIDTH=800000,RESOLUTION=640x360\n/low/index.m3u8\n#EXT-X-STREAM-INF:PROGRAM-ID=1,BANDWIDTH=2500000\nhigh/index.m3u8\n#EXT-X-STREAM-INF:PROGRAM-ID=1,BANDWIDTH=x\nbad.m3u8\n";
    assert_eq!(find_best_variant(master, "https://h/"), Some("https://h/high/index.m3u8".to_string()));
    assert_eq!(find_best_variant("#EXTM3U\n", "https://h/"), None);
    // BANDWIDTH as the first attribute, right after the tag
    let first = "#EXTM3U\n#EXT-X-STREAM-INF:BANDWIDTH=3000000,RESOLUTION=1920x1080\nhd.m3u8\n#EXT-X-STREAM-INF:PROGRAM-ID=1,BANDWIDTH=900000\nsd.m3u8\n";
    assert_eq!(find_best_variant(first, "https://h/"), Some("https://h/hd.m3u8".to_string()));
    let avg = "#EXTM3U\n#EXT-X-STREAM-INF:AVERAGE-BANDWIDTH=9000000,BANDWIDTH=100\na.m3u8\n#EXT-X-STREAM-INF:BANDWIDTH=200\nb.m3u8\n";
    assert_eq!(find_best_variant(avg, "https://h/"), Some("https://h/b.m3u8".to_string()));
    // equal bandwidths: the first one listed wins
    let tie = "#EXTM3U\n#EXT-X-STREAM-INF:BANDWIDTH=500\none.m3u8\n#EXT-X-STREAM-INF:BANDWIDTH=500\ntwo.m3u8\n";
    assert_eq!(find_best_variant(tie, "https://h/"), Some("https://h/one.m3u8".to_string()));
    let zero = "#EXTM3U\n#EXT-X-STREAM-INF:BANDWIDTH=0\nz.m3u8\n";
    assert_eq!(find_best_variant(zero, "https://h/"), None);
}

#[test]
fn xml_and_dash() {
    let xml = r#"<MPD><SegmentTemplate timescale="1" media="seg-$Number$.m4s" initialization="init.mp4"/></MPD>"#;
    assert_eq!(extract_xml_tag(xml, "SegmentTemplate", "media"), "seg-$Number$.m4s");
    assert_eq!(extract_xml_tag(xml, "SegmentTemplate", "missing"), "");
    let list = r#"<MPD><BaseURL>video/</BaseURL><SegmentList><SegmentURL media="s1.m4s"/><SegmentURL media="/s2.m4s"/></SegmentList></MPD>"#;
    // one URL per SegmentURL, in document order
    assert_eq!(
        parse_dash_manifest(list, "https://h/d/"),
        vec!["https://h/d/video/s1.m4s", "https://h/d/video/s2.m4s"]
    );
    let mixed = r#"<MPD><BaseURL>media/</BaseURL><SegmentList><SegmentURL media="s1.m4s"/><SegmentURL media="http://cdn/s2.m4s"/></SegmentList></MPD>"#;
    assert_eq!(parse_dash_manifest(mixed, "https://h/v/"), vec!["https://h/v/media/s1.m4s", "http://cdn/s2.m4s"]);
    let tmpl = r#"<MPD><SegmentTemplate media="seg-$Number$.m4s" initialization="init.mp4"/><SegmentTimeline><S d="1"/><S d="1"/></SegmentTimeline></MPD>"#;
    let segs = try_parse_dash_manifest(tmpl, "https://h/d/").unwrap();
    assert_eq!(segs.len(), 101);
    assert_eq!(segs[0], "https://h/d/init.mp4");
    assert_eq!(segs[1], "https://h/d/seg-1.m4s");
    assert_eq!(segs[100], "https://h/d/seg-100.m4s");
}

#[test]
fn state_files() {
    let framed = frame_state(b"{\"a\":1}");
    assert_eq!(framed, b"{\"a\":1}END\n".to_vec());
    assert_eq!(unframe_state(&framed), Ok(b"{\"a\":1}".to_vec()));
    assert_eq!(unframe_state(b"{\"a\":1}EN"), Err(StateFileError::MissingEndMarker));
    assert_eq!(
        write_ops(true),
        vec![FileOp::CreateTmp, FileOp::RemoveState2, FileOp::RenameState1ToState2, FileOp::RenameTmpToState1]
    );
    assert_eq!(write_ops(false), vec![FileOp::CreateTmp, FileOp::RenameTmpToState1]);
    assert_eq!(read_order(true, true), vec![StateSlot::State1, StateSlot::State2]);
    assert_eq!(read_order(false, true), vec![StateSlot::State2]);
    assert_eq!(read_order(false, false), vec![]);
    let io = TransactedIO::new("/tmp/dl/file.zip");
    assert_eq!(io.state_1(), "/tmp/dl/file.state.1");
    assert_eq!(io.state_2(), "/tmp/dl/file.state.2");
    assert_eq!(io.state_tmp(), "/tmp/dl/file.state.tmp");
    assert_eq!(io.path_of(StateSlot::Tmp), io.state_tmp());
}

#[test]
fn ports_targets_and_logs() {
    assert_eq!(port_or(Some("9000"), 8899), 9000);
    assert_eq!(port_or(Some("70000"), 8899), 8899);
    assert_eq!(port_or(None, 8899), 8899);
    assert_eq!(server_port(Some("+8080")), 8080);
    assert_eq!(server_port(Some("x")), 8765);
    assert_eq!(connect_head_target("CONNECT example.com:8443 HTTP/1.1\r\nHost: x\r\n"), ("example.com".to_string(), 8443));
    assert_eq!(connect_head_target("CONNECT example.com HTTP/1.1\r\n"), ("example.com".to_string(), 443));
    assert_eq!(absolute_target("GET /a HTTP/1.1\r\nHost: h.test\r\n\r\n", "/a"), Some("http://h.test/a".to_string()));
    assert_eq!(absolute_target("GET /a HTTP/1.1\r\n\r\n", "/a"), Some("http://localhost/a".to_string()));
    assert_eq!(absolute_target("GET http://x/y HTTP/1.1\r\n", "http://x/y"), Some("http://x/y".to_string()));
    assert_eq!(absolute_target("GET x HTTP/1.1\r\n", "x"), None);
    assert_eq!(app_log_dir(Some("/d"), Some("/h")), "/d/darkdm");
    assert_eq!(app_log_dir(None, Some("/h")), "/h/.local/share/darkdm");
    assert_eq!(app_log_dir(None, None), "/tmp/darkdm");
    assert_eq!(app_log_file("/d/darkdm", "2024-01-02"), "/d/darkdm/darkdm.2024-01-02.log");
}

#[test]
fn test_log_dir() {
    let dir = app_log_dir(None, Some("/home/user"));
    assert!(dir.contains("darkdm"));
    assert!(app_log_dir(Some("/home/user/.data"), Some("/home/user")).contains("darkdm"));
    assert!(app_log_dir(None, None).contains("darkdm"));
}

#[test]
fn test_log_file() {
    let file = app_log_file(&app_log_dir(None, Some("/home/user")), "2025-03-14");
    let filename = file.rsplit('/').next().unwrap();
    // Should be darkdm.YYYY-MM-DD.log
    assert!(filename.starts_with("darkdm."));
    assert!(filename.ends_with(".log"));
}
