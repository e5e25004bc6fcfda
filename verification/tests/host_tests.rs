use darkdm::host_log::{init, log_line};
use darkdm::host_server::{
    clean_manifest_content, concat_list, curl_args, ffmpeg_copy_args, is_image_content_type,
    manifest_segments, plan_host_download, route, safe_title, segment_name, DownloadRequest, Route,
};
use darkdm::native_cli::{get_flag, get_flag_opt, page_url_for, payload_offset, png_strip_offset};

fn request(url: Option<&str>) -> DownloadRequest {
    DownloadRequest {
        manifest_url: url.map(|s| s.to_string()),
        title: None,
        page_url: None,
        user_agent: None,
        referer: None,
        manifest_body: None,
    }
}

#[test]
fn routes_of_the_server() {
    assert_eq!(route("OPTIONS", "/anything"), Route::Options);
    assert_eq!(route("GET", "/health"), Route::Health);
    assert_eq!(route("POST", "/download"), Route::Download);
    assert_eq!(route("GET", "/download"), Route::NotFound);
    assert_eq!(route("POST", "/health"), Route::NotFound);
}

#[test]
fn download_request_needs_manifest() {
    let err = plan_host_download(&request(None)).err().unwrap();
    assert_eq!(err, r#"{"success":false,"error":"manifest_url is required"}"#);
    let err = plan_host_download(&request(Some(""))).err().unwrap();
    assert_eq!(err, r#"{"success":false,"error":"manifest_url is required"}"#);
}

#[test]
fn download_request_defaults() {
    let mut req = request(Some("https://cdn/x.m3u8"));
    req.page_url = Some("https://site/page".to_string());
    req.manifest_body = Some(String::new());
    let job = plan_host_download(&req).ok().unwrap();
    assert_eq!(job.manifest_url, "https://cdn/x.m3u8");
    assert_eq!(job.file_name, "video.mp4");
    assert_eq!(job.referer, "https://site/page");
    assert!(job.user_agent.starts_with("Mozilla/5.0 (X11; Linux x86_64)"));
    assert!(job.manifest_body.is_none());
    req.title = Some("  My: Show / Ep. 1!  ".to_string());
    req.referer = Some("https://ref/".to_string());
    req.manifest_body = Some("#EXTM3U".to_string());
    let job = plan_host_download(&req).ok().unwrap();
    assert_eq!(job.file_name, "My Show  Ep 1.mp4");
    assert_eq!(job.referer, "https://ref/");
    assert_eq!(job.manifest_body, Some("#EXTM3U".to_string()));
}

#[test]
fn safe_titles() {
    assert_eq!(safe_title("???"), "darkdm_video");
    assert_eq!(safe_title("Ünïcödé-title_1"), "Ünïcödé-title_1");
    let long: String = "a".repeat(100);
    assert_eq!(safe_title(&long).len(), 80);
}

#[test]
fn command_lines() {
    assert_eq!(
        ffmpeg_copy_args("UA", "", "in.m3u8", "out.mp4"),
        vec!["-y", "-hide_banner", "-loglevel", "error", "-user_agent", "UA", "-i", "in.m3u8", "-c", "copy", "-movflags", "+faststart", "out.mp4"]
    );
    assert_eq!(
        ffmpeg_copy_args("UA", "R", "in", "out")[6..8].to_vec(),
        vec!["-referer", "R"]
    );
    assert_eq!(curl_args("UA", "R", "u"), vec!["-s", "-L", "-A", "UA", "-H", "Referer: R", "u"]);
}

#[test]
fn segments_of_a_manifest() {
    let m = "#EXTM3U\n#EXTINF:4,\nseg1.ts\n\n#EXTINF:4,\nhttps://other/seg2.ts\n   \n";
    assert_eq!(
        manifest_segments(m, "https://cdn.example.com/path/index.m3u8?x=1"),
        vec!["https://cdn.example.com/path/seg1.ts", "https://other/seg2.ts"]
    );
    assert!(is_image_content_type("image/png"));
    assert!(!is_image_content_type("video/mp2t"));
    assert_eq!(segment_name(7), "00007.ts");
    assert_eq!(concat_list(&[true, false, true]), "file '00000.ts'\nfile '00002.ts'\n");
}

#[test]
fn cleaning_removes_ads_and_their_tags() {
    let m = "#EXTM3U\n#EXTINF:5,\nhttps://ads.doubleclick.net/a.ts\n#EXTINF:4,\nvideo1.ts\n#EXTINF:4,\nhttps://x.TIKTOKCDN.com/b.ts";
    let (c, refusal) = clean_manifest_content(m, "https://cdn/v/master.m3u8");
    assert_eq!(refusal, None);
    assert_eq!(c.text, "#EXTM3U\n#EXTINF:4,\nhttps://cdn/v/video1.ts");
    assert_eq!(c.filtered, 2);
    assert_eq!(c.real_segments, 1);
    assert_eq!(c.line_count, 7);
    assert_eq!(c.examples.len(), 2);
    let only_ads = "#EXTM3U\n#EXTINF:5,\nhttps://ads.doubleclick.net/a.ts";
    let (c, refusal) = clean_manifest_content(only_ads, "https://cdn/v/master.m3u8");
    assert_eq!(c.text, "#EXTM3U");
    assert!(refusal.unwrap().starts_with("Ad is still playing"));
    // under a manifest URL that starts with '#', a relative segment becomes a tag
    let (_, refusal) = clean_manifest_content("#EXTM3U\na.ts", "#x/m.m3u8");
    assert!(refusal.is_some());
    let (c, refusal) = clean_manifest_content("#EXTM3U\nhttp://cdn/a.ts", "#x/m.m3u8");
    assert_eq!(refusal, None);
    assert_eq!(c.real_segments, 1);
}

#[test]
fn cli_flags_and_referer() {
    let args: Vec<String> = vec!["cli", "u", "--referer", "https://r", "--user-agent"]
        .into_iter()
        .map(|s| s.to_string())
        .collect();
    assert_eq!(get_flag(&args, "--referer"), "https://r");
    assert_eq!(get_flag_opt(&args, "--user-agent"), None);
    assert_eq!(get_flag(&args, "--missing"), "");
    assert_eq!(page_url_for("https://a/hls/x.m3u8?v=3&t=1", ""), "https://a/hls/x.m3u8");
    assert_eq!(page_url_for("https://a/x.m3u8?v=3", ""), "https://a/x.m3u8?v=3");
    assert_eq!(page_url_for("https://a/hls/x.m3u8", "https://ref"), "https://ref");
}

#[test]
fn png_wrapped_segments() {
    let mut d: Vec<u8> = vec![0x89, b'P', b'N', b'G', 0, 0, b'I', b'E', b'N', b'D'];
    d.extend_from_slice(&[1, 2, 3, 4, 5, 6, 7, 8, 0x47, 0x40]);
    assert_eq!(png_strip_offset(&d), 18);
    assert_eq!(payload_offset(d.len(), 18), 18);
    assert_eq!(payload_offset(10, 18), 0);
    assert_eq!(png_strip_offset(&[0x47, 1, 2, 3, 4, 5]), 0);
}

#[test]
fn log_lines() {
    assert_eq!(log_line(17, "hello"), "[17] hello\n");
    assert_eq!(init("/tmp/x"), "/tmp/x/_darkdm_debug.log");
}
