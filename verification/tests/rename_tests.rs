use darkdm::auto_rename::{auto_rename, choose_name, numbered_name, numbered_path, split_name_ext, try_auto_rename};

#[test]
fn test_split_name_ext() {
    assert_eq!(split_name_ext("file.mp4"), ("file".to_string(), ".mp4".to_string()));
    assert_eq!(split_name_ext("file.tar.gz"), ("file".to_string(), ".tar.gz".to_string()));
    assert_eq!(split_name_ext("file"), ("file".to_string(), "".to_string()));
    assert_eq!(split_name_ext("my.file.mp4"), ("my.file".to_string(), ".mp4".to_string()));
}

#[test]
fn test_auto_rename_nonexistent() {
    let path = "/tmp/nonexistent_file_12345.mp4";
    assert_eq!(auto_rename(path), path);
}

#[test]
fn numbered_names() {
    assert_eq!(numbered_name("file", 1, ".mp4"), "file (1).mp4");
    assert_eq!(numbered_name("file", 12, ""), "file (12)");
    assert_eq!(numbered_path("/tmp/a/file.tar.xz", 3), "/tmp/a/file (3).tar.xz");
    assert_eq!(numbered_path("file.bin", 2), "file (2).bin");
    assert_eq!(try_auto_rename("/"), None);
    assert_eq!(split_name_ext(".hidden"), ("".to_string(), ".hidden".to_string()));
    assert_eq!(split_name_ext("a.tar.zst"), ("a".to_string(), ".tar.zst".to_string()));
}

#[test]
fn choosing_a_free_name() {
    let mut free = vec![false; 999];
    // a free path comes back unchanged
    assert_eq!(choose_name("/d/file.mp4", true, &free, 7), "/d/file.mp4");
    // file.mp4 and "file (1).mp4" exist, "file (2).mp4" does not
    free[1] = true;
    free[5] = true;
    assert_eq!(choose_name("/d/file.mp4", false, &free, 7), "/d/file (2).mp4");
    // the double extension stays together
    let mut tar = vec![false; 999];
    tar[0] = true;
    assert_eq!(choose_name("/d/file.tar.gz", false, &tar, 7), "/d/file (1).tar.gz");
    // every candidate taken: the clock value numbers the name
    assert_eq!(choose_name("/d/file.mp4", false, &vec![false; 999], 1700000000), "/d/file (1700000000).mp4");
}

#[test]
fn a_missing_path_without_name_comes_back() {
    assert_eq!(try_auto_rename("/tmp/nonexistent_dir_12345/.."), Some("/tmp/nonexistent_dir_12345/..".to_string()));
    assert_eq!(try_auto_rename("/tmp/nonexistent_file_12345.mp4"), Some("/tmp/nonexistent_file_12345.mp4".to_string()));
}
