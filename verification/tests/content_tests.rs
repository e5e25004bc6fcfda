use darkdm::content_type::{is_downloadable, is_hls, needs_extraction};

#[test]
fn test_is_downloadable() {
    assert!(is_downloadable("video/mp4"));
    assert!(is_downloadable("video/x-matroska"));
    assert!(is_downloadable("video/webm"));

    assert!(is_downloadable("audio/mpeg"));
    assert!(is_downloadable("audio/mp4"));

    assert!(is_downloadable("application/zip"));
    assert!(is_downloadable("application/pdf"));
    assert!(is_downloadable("application/octet-stream"));

    assert!(!is_downloadable("text/html"));
    assert!(!is_downloadable("text/plain"));
    assert!(!is_downloadable("application/xhtml+xml"));
}

#[test]
fn test_needs_extraction() {
    assert!(needs_extraction("text/html"));
    assert!(needs_extraction("text/html; charset=utf-8"));
    assert!(needs_extraction("application/xhtml+xml"));

    assert!(!needs_extraction("video/mp4"));
    assert!(!needs_extraction("application/zip"));
}

#[test]
fn test_is_hls() {
    assert!(is_hls("https://example.com/stream.m3u8"));
    assert!(is_hls("https://example.com/hls/master.m3u8"));
    assert!(is_hls("https://manifest.googlevideo.com/.../playlist/index.m3u8"));

    assert!(!is_hls("https://example.com/video.mp4"));
    assert!(!is_hls("https://example.com/page.html"));
}

#[test]
fn content_type_case_and_images() {
    assert!(is_downloadable("VIDEO/MP4"));
    assert!(is_downloadable("image/png"));
    assert!(is_downloadable("binary/octet-stream"));
    assert!(!is_downloadable("application/rss+xml"));
    assert!(needs_extraction("TEXT/PLAIN"));
}
