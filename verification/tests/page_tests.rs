use darkdm::page_analyzer::{
    analyze_page, detect_type_from_url, extract_url_from_text, is_downloadable_extension, ResourceType,
};

#[test]
fn test_detect_video_tag() {
    let html = r#"<video src="/video.mp4"></video>"#;
    let resources = analyze_page(html, "https://example.com");

    assert_eq!(resources.len(), 1);
    assert_eq!(resources[0].url, "https://example.com/video.mp4");
    assert_eq!(resources[0].resource_type, ResourceType::Video);
}

#[test]
fn test_detect_source_tag() {
    let html = r#"<video><source src="movie.mp4" type="video/mp4"></video>"#;
    let resources = analyze_page(html, "https://example.com/page/");

    assert_eq!(resources.len(), 1);
    assert_eq!(resources[0].url, "https://example.com/page/movie.mp4");
}

#[test]
fn test_detect_download_links() {
    let html = r#"<a href="/files/video.mp4">Download Video</a>"#;
    let resources = analyze_page(html, "https://example.com");

    assert_eq!(resources.len(), 1);
    assert_eq!(resources[0].url, "https://example.com/files/video.mp4");
    assert_eq!(resources[0].title, Some("Download Video".to_string()));
}

#[test]
fn test_detect_hls() {
    let html = r#"<script>var url = "https://cdn.example.com/stream.m3u8";</script>"#;
    let resources = analyze_page(html, "https://example.com");

    assert!(resources.iter().any(|r| r.url.contains("stream.m3u8")));
}

#[test]
fn test_is_downloadable_extension() {
    assert!(is_downloadable_extension("video.mp4"));
    assert!(is_downloadable_extension("/path/to/file.mkv"));
    assert!(is_downloadable_extension("https://example.com/audio.mp3"));
    assert!(is_downloadable_extension("archive.zip"));

    assert!(!is_downloadable_extension("page.html"));
    assert!(!is_downloadable_extension("style.css"));
}

#[test]
fn page_resources_sorted_and_unique() {
    let html = r#"<video src="/b.mp4"></video><audio src="/a.mp3"></audio><a href="/b.mp4">again</a><a href="/doc.PDF"> </a>"#;
    let resources = analyze_page(html, "https://example.com/");
    let urls: Vec<&str> = resources.iter().map(|r| r.url.as_str()).collect();
    assert_eq!(urls, vec!["https://example.com/a.mp3", "https://example.com/b.mp4", "https://example.com/doc.PDF"]);
    assert_eq!(resources[0].resource_type, ResourceType::Audio);
    assert_eq!(resources[1].resource_type, ResourceType::Video);
    assert_eq!(resources[1].title, None);
    assert_eq!(resources[2].resource_type, ResourceType::Document);
    assert_eq!(resources[2].title, None);
}

#[test]
fn url_in_text_and_types() {
    assert_eq!(
        extract_url_from_text(r#"x = 'https://h/p/master.m3u8?t=1', y"#, ".m3u8"),
        Some("https://h/p/master.m3u8?t=1".to_string())
    );
    assert_eq!(extract_url_from_text("see /v/list.mpd)", ".mpd"), Some("/list.mpd".to_string()));
    assert_eq!(extract_url_from_text("no manifest here", ".mpd"), None);
    assert_eq!(detect_type_from_url("https://x/y.ZIP"), ResourceType::Archive);
    assert_eq!(detect_type_from_url("https://x/y.flac"), ResourceType::Audio);
    assert_eq!(detect_type_from_url("https://x/y.html"), ResourceType::Unknown);
}
