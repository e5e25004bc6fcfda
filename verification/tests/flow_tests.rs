use darkdm::cli_flow::{
    batch_urls, choose_extracted, choose_resource, concat_args, concat_file_list, concat_output_name,
    concat_plan, default_registry, needs_page_extraction, stream_file_name, ConcatPlan, ExtractedTarget,
};
use darkdm::engine::{
    begin_pieces, check_disk_space, on_piece_complete, output_path_for, range_header, status_accepted,
    text_redirect_target, transfer_mode, DownloadConfig, TransferMode,
};
use darkdm::library::{age_label, download_file, downloads_path, format_size, is_listed, is_video_ext, sort_newest_first};
use darkdm::piece::Piece;
use darkdm::piece_manager::PieceManager;
use darkdm::plugins::DetectedLink;
use darkdm::probe::{ProbeResult, ResponseHeaders};
use darkdm::stream_download::{dash_outcome, hls_outcome, plan_hls, stream_file_names, temp_segment_name, HlsPlan};

fn probe(resumable: bool, size: Option<u64>, ct: Option<&str>) -> ProbeResult {
    let headers = ResponseHeaders {
        content_length: size.map(|s| s.to_string()),
        accept_ranges: if resumable { Some("bytes".to_string()) } else { None },
        content_type: ct.map(|c| c.to_string()),
        content_disposition: None,
    };
    ProbeResult::from_headers(&headers, "https://example.com/f.bin".to_string())
}

#[test]
fn engine_decisions() {
    assert_eq!(transfer_mode(&probe(false, Some(5), None)), Ok(TransferMode::SingleStream));
    assert_eq!(transfer_mode(&probe(true, Some(5), None)), Ok(TransferMode::Pieces(5)));
    assert_eq!(transfer_mode(&probe(true, None, None)), Err("Cannot determine resource size".to_string()));
    assert!(check_disk_space(10, 4096, 40960).is_ok());
    assert_eq!(
        check_disk_space(1024, 1024, 3 * 1024 * 1024).err().unwrap(),
        "Not enough disk space: 1 MB available, 3 MB required"
    );
    assert_eq!(range_header(&Piece::new(0, 100, 199)), "bytes=100-199");
    assert!(status_accepted(206));
    assert!(status_accepted(200));
    assert!(!status_accepted(404));
    assert_eq!(text_redirect_target(" https://x"), None);
    assert_eq!(text_redirect_target("https://x/y \n"), Some("https://x/y".to_string()));
    assert_eq!(output_path_for("/tmp/d", None), "/tmp/d/download.tmp");
    assert_eq!(output_path_for("/tmp/d", Some("a.zip")), "/tmp/d/a.zip");
    let c = DownloadConfig::with_home(Some("/home/u"));
    assert_eq!(c.output_dir, "/home/u/Descargas/DarkDM");
    assert_eq!(c.max_workers, 8);
    assert!(c.resume);
    assert_eq!(DownloadConfig::with_home(None).output_dir, "/tmp/Descargas/DarkDM");
}

#[test]
fn piece_completion_refills_workers() {
    let mut m = PieceManager::new(2);
    let id = begin_pieces(&mut m, 4 * 1024 * 1024);
    assert_eq!(id, 0);
    let first = m.try_create_piece().unwrap();
    assert_eq!(first, 1);
    let done = on_piece_complete(&mut m, 1);
    assert_eq!(done.created, Some(2));
    assert_eq!(done.next.unwrap().id, 2);
    assert!(!done.finished);
    let mut small = PieceManager::new(2);
    let id = begin_pieces(&mut small, 100);
    small.set_downloaded(id, 100);
    let done = on_piece_complete(&mut small, id);
    assert_eq!(done.created, None);
    assert!(done.finished);
}

#[test]
fn descargar_choices() {
    assert!(needs_page_extraction(&probe(true, None, Some("text/html; charset=utf-8"))));
    assert!(!needs_page_extraction(&probe(true, None, None)));
    let reg = default_registry();
    let ids: Vec<String> = reg.list_extractors().into_iter().map(|e| e.0).collect();
    assert_eq!(ids, vec!["mediafire", "youtube", "netflix"]);
    assert_eq!(choose_extracted(&vec![]).err().unwrap(), "No videos found");
    let hls = DetectedLink::with_metadata("https://c/x.m3u8".to_string(), Some(" a/b: c ".to_string()), None);
    match choose_extracted(&vec![hls]).ok().unwrap() {
        ExtractedTarget::Stream { url, file_name } => {
            assert_eq!(url, "https://c/x.m3u8");
            assert_eq!(file_name, "a_b_ c.mp4");
        }
        _ => panic!("an HLS link is a stream"),
    }
    let file = DetectedLink::direct("https://c/x.zip".to_string());
    assert!(matches!(choose_extracted(&vec![file]).ok().unwrap(), ExtractedTarget::File { .. }));
    assert_eq!(stream_file_name(None), "video.mp4");
    assert_eq!(stream_file_name(Some("clip.MKV".to_string())), "clip.MKV.mp4");
    assert_eq!(stream_file_name(Some("clip.mkv".to_string())), "clip.mkv");
    assert_eq!(choose_resource(&vec![]).err().unwrap(), "No videos, audios, or files detected");
}

#[test]
fn batch_files() {
    assert_eq!(batch_urls("# list\nhttps://a\n\n  https://b  \n#c\n"), vec!["https://a", "https://b"]);
    assert_eq!(concat_plan(true, 2), ConcatPlan::Join);
    assert_eq!(concat_plan(true, 1), ConcatPlan::TooFew);
    assert_eq!(concat_plan(false, 5), ConcatPlan::Skip);
    assert_eq!(concat_file_list(&["/a/1.mp4".to_string(), "/a/2.mp4".to_string()]), "file '/a/1.mp4'\nfile '/a/2.mp4'\n");
    assert_eq!(concat_output_name(None), "output.mp4");
    assert_eq!(concat_args("l.txt", "o.mp4"), vec!["-f", "concat", "-safe", "0", "-i", "l.txt", "-c", "copy", "-y", "o.mp4"]);
}

#[test]
fn stream_downloads() {
    let media = "#EXTM3U\n#EXTINF:4,\n/a.ts\n";
    match plan_hls(media, "https://h/p/index.m3u8") {
        HlsPlan::Segments(s) => assert_eq!(s, vec!["https://h/p/a.ts"]),
        _ => panic!("media playlist"),
    }
    let master = "#EXTM3U\n#EXT-X-STREAM-INF:PROGRAM-ID=1,BANDWIDTH=100\nlow.m3u8\n#EXT-X-STREAM-INF:PROGRAM-ID=1,BANDWIDTH=900\nhigh.m3u8\n";
    match plan_hls(master, "https://h/p/index.m3u8") {
        HlsPlan::Variant(u) => assert_eq!(u, "https://h/p/high.m3u8"),
        _ => panic!("master playlist"),
    }
    assert!(matches!(plan_hls("#EXTM3U\n", "https://h/x.m3u8"), HlsPlan::Empty));
    assert_eq!(stream_file_names(None, "darkdm_hls_video", "ts"), ("darkdm_hls_video.ts".to_string(), "darkdm_hls_video_segments".to_string()));
    assert_eq!(temp_segment_name(3, "m4s"), "seg_00003.m4s");
    assert_eq!(hls_outcome(true, 3, 3), (true, None));
    assert_eq!(hls_outcome(false, 2, 3), (false, Some("Only 2/3 segments downloaded".to_string())));
    assert_eq!(dash_outcome(3, 3), (true, None));
    assert_eq!(dash_outcome(2, 3), (true, Some("2/3 segments".to_string())));
    assert_eq!(dash_outcome(0, 3).0, false);
}

#[test]
fn download_list() {
    assert_eq!(format_size(512), "512.0 B");
    assert_eq!(format_size(1024), "1024.0 B");
    assert_eq!(format_size(1536), "1.5 KB");
    assert_eq!(format_size(3 * 1024 * 1024 * 1024), "3.0 GB");
    assert_eq!(format_size(5 * 1024 * 1024 * 1024 * 1024), "5120.0 GB");
    assert!(is_video_ext("Movie.MP4"));
    assert!(!is_video_ext("notes.txt"));
    assert_eq!(age_label(0), "just now");
    assert_eq!(age_label(125), "2m ago");
    assert_eq!(age_label(3 * 3600 + 5 * 60), "3h 5m ago");
    assert_eq!(age_label(2 * 86400 + 3600), "2d 1h ago");
    assert!(is_listed("a.mp4", 10));
    assert!(!is_listed(".hidden", 10));
    assert!(!is_listed("a.mp4", 0));
    assert_eq!(downloads_path(Some("/home/u")), "/home/u/Descargas/DarkDM");
    let files = vec![
        download_file("a".to_string(), 1, 60),
        download_file("b".to_string(), 2, 3600),
        download_file("c".to_string(), 3, 120),
        download_file("d".to_string(), 4, 60),
    ];
    let sorted = sort_newest_first(&files);
    let names: Vec<&str> = sorted.iter().map(|f| f.name.as_str()).collect();
    assert_eq!(names, vec!["c", "a", "d", "b"]);
}

#[test]
fn test_disk_space_check() {
    // A disk with 25 million free blocks of 4 KiB.
    let (blocks, block_size) = (25_000_000u64, 4096u64);
    // Should succeed for small file
    assert!(check_disk_space(blocks, block_size, 1024).is_ok());
    // Should fail for impossibly large file (1 PB)
    assert!(check_disk_space(blocks, block_size, 1024 * 1024 * 1024 * 1024 * 1024).is_err());
}
