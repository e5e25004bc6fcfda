use darkdm::progress::{format_size, format_time, ProgressBar};

#[test]
fn test_format_size() {
    assert_eq!(format_size(512), "512 B");
    assert_eq!(format_size(1024), "1.0 KiB");
    assert_eq!(format_size(1536), "1.5 KiB");
    assert_eq!(format_size(1024 * 1024), "1.0 MiB");
    assert_eq!(format_size(1024 * 1024 * 1024), "1.0 GiB");
}

#[test]
fn test_format_time() {
    assert_eq!(format_time(0), "00:00");
    assert_eq!(format_time(30), "00:30");
    assert_eq!(format_time(90), "01:30");
    assert_eq!(format_time(3661), "61:01");
}

#[test]
fn format_size_matches_float_formatting() {
    let cases: [u64; 9] = [0, 1023, 1075, 1127, 1048575, 1024 * 1024 * 1024 * 1024, u64::MAX, 123456789, 9_007_199_254_740_993];
    for b in cases {
        let expected = {
            let units = ["B", "KiB", "MiB", "GiB", "TiB"];
            let mut size = b as f64;
            let mut unit = 0;
            while size >= 1024.0 && unit < units.len() - 1 {
                size /= 1024.0;
                unit += 1;
            }
            if unit == 0 {
                format!("{} {}", size as u64, units[unit])
            } else {
                format!("{:.1} {}", size, units[unit])
            }
        };
        assert_eq!(format_size(b), expected, "bytes = {}", b);
    }
}

#[test]
fn progress_bar_redraws_every_hundred_ms() {
    let mut bar = ProgressBar::new("file.mp4".to_string(), 1000, 5000);
    assert_eq!(bar.filename(), "file.mp4");
    assert_eq!(bar.total_size(), 1000);
    assert!(!bar.update(10, 5050));
    assert_eq!(bar.downloaded(), 10);
    assert!(bar.update(20, 5100));
    assert!(!bar.update(30, 5199));
    assert!(bar.update(40, 5200));
    assert_eq!(bar.elapsed_ms(6000), 1000);
    assert_eq!(bar.width(), 40);
}
