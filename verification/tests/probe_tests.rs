use darkdm::probe::{ProbeResult, ResponseHeaders};

fn no_headers() -> ResponseHeaders {
    ResponseHeaders { content_length: None, accept_ranges: None, content_type: None, content_disposition: None }
}

#[test]
fn test_probe_basic() {
    let mut headers = no_headers();
    headers.content_length = Some("1024".to_string());
    headers.accept_ranges = Some("bytes".to_string());

    let probe = ProbeResult::from_headers(&headers, "https://example.com/file.mp4".to_string());

    assert_eq!(probe.resource_size, Some(1024));
    assert!(probe.resumable);
    assert_eq!(probe.filename, Some("file.mp4".to_string()));
}

#[test]
fn test_probe_content_disposition() {
    let mut headers = no_headers();
    headers.content_disposition = Some(r#"attachment; filename="video.mp4""#.to_string());

    let probe = ProbeResult::from_headers(&headers, "https://example.com/download?id=123".to_string());

    assert_eq!(probe.filename, Some("video.mp4".to_string()));
}

#[test]
fn test_probe_no_resume() {
    let headers = no_headers();

    let probe = ProbeResult::from_headers(&headers, "https://example.com/stream.m3u8".to_string());

    assert!(!probe.resumable);
    assert_eq!(probe.filename, Some("stream.m3u8".to_string()));
}

#[test]
fn probe_encoded_names_and_defaults() {
    let mut headers = no_headers();
    headers.content_disposition = Some("attachment; filename*=UTF-8''na%C3%AFve%20file.txt".to_string());
    headers.content_type = Some("text/plain; charset=utf-8".to_string());
    let probe = ProbeResult::from_headers(&headers, "https://example.com/".to_string());
    assert_eq!(probe.filename, Some("naïve file.txt".to_string()));
    assert!(probe.is_text_redirect);
    assert!(!probe.is_valid());
    let plain = ProbeResult::from_headers(&no_headers(), "https://example.com/".to_string());
    assert_eq!(plain.filename, None);
    assert_eq!(plain.filename_or_default(), "download");
    assert!(plain.is_valid());
}
