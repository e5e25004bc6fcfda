use darkdm::plugins::{
    DetectedLink, ExtractError, ExtractorRegistry, MediaFireExtractor, NetflixExtractor, NetflixStep,
    ProcessOutput, YouTubeExtractor,
};

#[test]
fn mediafire_test_can_handle() {
    let extractor = MediaFireExtractor::new();
    assert!(extractor.can_handle("https://www.mediafire.com/file/abc123/test.zip"));
    assert!(extractor.can_handle("https://download1350.mediafire.com/xyz/test.zip"));
    assert!(!extractor.can_handle("https://example.com/file.zip"));
}

#[test]
fn mediafire_test_metadata() {
    assert_eq!(MediaFireExtractor::new().id(), "mediafire");
    assert_eq!(MediaFireExtractor::new().name(), "MediaFire");
    assert_eq!(MediaFireExtractor::new().priority(), 100);
}

#[test]
fn youtube_test_can_handle() {
    let extractor = YouTubeExtractor::new();
    assert!(extractor.can_handle("https://www.youtube.com/watch?v=dQw4w9WgXcQ"));
    assert!(extractor.can_handle("https://youtu.be/dQw4w9WgXcQ"));
    assert!(extractor.can_handle("https://vimeo.com/123456"));
    assert!(!extractor.can_handle("https://example.com/video.mp4"));
}

#[test]
fn youtube_test_metadata() {
    assert_eq!(YouTubeExtractor::new().id(), "youtube");
    assert_eq!(YouTubeExtractor::new().name(), "YouTube (yt-dlp)");
    assert_eq!(YouTubeExtractor::new().priority(), 95);
}

#[test]
fn test_detect_netflix_cdn() {
    let urls = vec![
        "https://occ-0-3967-1740.1.nflxso.net/so/soa7/717/1684335598036192513.mp4?v=1&e=1782452026&t=8OjWXQoPBaR5ja_X4WW92TNMRGk",
        "https://test.nflxvideo.net/video.mp4?e=1234567890&t=token",
        "https://cdn.nflxext.com/asset.mpd",
    ];
    for url_str in urls {
        assert!(NetflixExtractor::is_cdn_url(url_str), "Should detect: {}", url_str);
    }
}

#[test]
fn test_detect_netflix_page() {
    let urls = vec!["https://www.netflix.com/watch/81280744", "https://netflix.com/title/81280744"];
    for url_str in urls {
        assert!(NetflixExtractor::is_page_url(url_str), "Should detect: {}", url_str);
    }
}

#[test]
fn test_reject_non_netflix() {
    let urls = vec![
        "https://www.youtube.com/watch?v=dQw4w9WgXcQ",
        "https://example.com/file.mp4",
        "https://mediafire.com/file/test.rar",
    ];
    for url_str in urls {
        assert!(!NetflixExtractor::is_cdn_url(url_str), "Should reject: {}", url_str);
        assert!(!NetflixExtractor::is_page_url(url_str), "Should reject: {}", url_str);
    }
}

#[test]
fn test_filename_extraction() {
    let filename = NetflixExtractor::cdn_filename(
        "https://occ-0-3967-1740.1.nflxso.net/so/soa7/717/1684335598036192513.mp4?v=1&e=1782452026&t=token",
    );
    assert_eq!(filename, Some("1684335598036192513.mp4".to_string()));
}

#[test]
fn test_cdn_url_returns_as_is() {
    let extractor = NetflixExtractor::new();
    let url = "https://occ-0-3967-1740.1.nflxso.net/so/soa7/717/test.mp4?v=1&e=1782452026&t=token";
    match extractor.begin_extract(url) {
        NetflixStep::Done(Ok(links)) => {
            assert_eq!(links.len(), 1);
            assert_eq!(links[0].url, url);
            assert_eq!(links[0].filename, Some("test.mp4".to_string()));
        }
        _ => panic!("a CDN URL is its own link"),
    }
}

#[test]
fn netflix_page_runs_ytdlp_with_cookies() {
    let extractor = NetflixExtractor::new().with_cookies("/tmp/cookies.txt".to_string());
    match extractor.begin_extract("https://www.netflix.com/watch/81280744") {
        NetflixStep::RunYtDlp(args) => {
            assert_eq!(
                args,
                vec![
                    "--get-url", "--format", "best", "https://www.netflix.com/watch/81280744",
                    "--cookies", "/tmp/cookies.txt",
                ]
            );
        }
        _ => panic!("a page needs yt-dlp"),
    }
    match extractor.begin_extract("https://example.com/x") {
        NetflixStep::Done(Err(e)) => assert_eq!(e.message(), "Not found: Unknown Netflix URL format"),
        _ => panic!("not a Netflix URL"),
    }
}

#[test]
fn netflix_ytdlp_output_lines() {
    let out = ProcessOutput {
        success: true,
        stdout: "  https://a.nflxvideo.net/1.mp4 \n\n https://b.nflxvideo.net/2.mp4\r\n".to_string(),
        stderr: String::new(),
    };
    let links = NetflixExtractor::ytdlp_result(&Ok(out)).ok().unwrap();
    assert_eq!(links.len(), 2);
    assert_eq!(links[0].url, "https://a.nflxvideo.net/1.mp4");
    assert_eq!(links[1].url, "https://b.nflxvideo.net/2.mp4");
    let empty = ProcessOutput { success: true, stdout: " \n".to_string(), stderr: String::new() };
    let err = NetflixExtractor::ytdlp_result(&Ok(empty)).err().unwrap();
    assert!(matches!(err, ExtractError::NotFound(_)));
    let failed = ProcessOutput { success: false, stdout: String::new(), stderr: "denied".to_string() };
    let err = NetflixExtractor::ytdlp_result(&Ok(failed)).err().unwrap();
    assert_eq!(
        err.message(),
        "Network error: yt-dlp extraction failed. Ensure Netflix cookies are valid.\ndenied"
    );
}

#[test]
fn youtube_output_to_link() {
    let out = ProcessOutput { success: true, stdout: " https://cdn/v.mp4\n".to_string(), stderr: String::new() };
    let links = YouTubeExtractor::links_from_output(true, &Ok(out), Some(" Title \n".to_string())).ok().unwrap();
    assert_eq!(links.len(), 1);
    assert_eq!(links[0].url, "https://cdn/v.mp4");
    assert_eq!(links[0].filename, Some("Title".to_string()));
    assert_eq!(links[0].size, None);
    let err = YouTubeExtractor::links_from_output(false, &Err("x".to_string()), None).err().unwrap();
    assert_eq!(err.message(), "Not found: yt-dlp not found. Install with: pip install yt-dlp");
    let err = YouTubeExtractor::links_from_output(true, &Err("no such file".to_string()), None).err().unwrap();
    assert_eq!(err.message(), "Network error: Failed to run yt-dlp: no such file");
    let bad = ProcessOutput { success: false, stdout: String::new(), stderr: "boom".to_string() };
    let err = YouTubeExtractor::links_from_output(true, &Ok(bad), None).err().unwrap();
    assert_eq!(err.message(), "Parse error: yt-dlp failed: boom");
}

#[test]
fn mediafire_page_links() {
    let extractor = MediaFireExtractor::new();
    let page = r#"<html><body><a id="downloadButton" href="https://download9.mediafire.com/f/x.zip">Download</a></body></html>"#;
    let links = extractor.link_from_page(page).ok().unwrap();
    assert_eq!(links[0].url, "https://download9.mediafire.com/f/x.zip");
    let page2 = r#"<a href="/download/other">x</a><a href="https://download2.mediafire.com/download/y.rar">y</a>"#;
    let links = extractor.link_from_page(page2).ok().unwrap();
    assert_eq!(links[0].url, "https://download2.mediafire.com/download/y.rar");
    let err = extractor.link_from_page("<p>nothing</p>").err().unwrap();
    assert_eq!(err.message(), "Not found: No download button found on MediaFire page");
}

#[test]
fn test_registry_priority() {
    let mut registry = ExtractorRegistry::new();

    registry.register("low", "Test", 10);
    registry.register("high", "Test", 100);
    registry.register("mid", "Test", 50);

    let list = registry.list_extractors();
    assert_eq!(list.len(), 3);
    assert_eq!(list[0].0, "high");
    assert_eq!(list[1].0, "mid");
    assert_eq!(list[2].0, "low");
}

#[test]
fn registry_keeps_order_of_equal_priorities() {
    let mut registry = ExtractorRegistry::new();
    assert_eq!(registry.register("a", "A", 50), 0);
    assert_eq!(registry.register("b", "B", 50), 1);
    assert_eq!(registry.register("c", "C", 90), 0);
    let ids: Vec<String> = registry.list_extractors().into_iter().map(|e| e.0).collect();
    assert_eq!(ids, vec!["c", "a", "b"]);
    assert_eq!(registry.find_extractor(&[false, true, true]), Some(1));
    assert_eq!(registry.find_extractor(&[false, false, false]), None);
}

#[test]
fn links_and_errors() {
    let l = DetectedLink::direct("http://x/y".to_string());
    assert_eq!(l.url, "http://x/y");
    assert_eq!(l.filename, None);
    let m = DetectedLink::with_metadata("u".to_string(), Some("f".to_string()), Some(3));
    assert_eq!(m.size, Some(3));
    assert_eq!(ExtractError::network("down").message(), "Network error: down");
    assert_eq!(ExtractError::parse("bad").message(), "Parse error: bad");
    assert_eq!(ExtractError::not_found("none").message(), "Not found: none");
}

#[test]
fn registry_extractor_for_url() {
    let mut registry = ExtractorRegistry::new();
    registry.register("low", "Low", 10);
    registry.register("high", "High", 100);
    assert!(matches!(registry.extractor_for(&[false, true]), Ok(1)));
    assert!(matches!(registry.extractor_for(&[true, true]), Ok(0)));
    match registry.extractor_for(&[false, false]) {
        Err(e) => assert_eq!(e.message(), "Not found: No extractor found for this URL"),
        Ok(_) => panic!("an extractor was chosen"),
    }
}
