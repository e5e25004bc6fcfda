use darkdm::piece::Piece;
use darkdm::piece_manager::PieceManager;

#[test]
fn test_piece_basic() {
    let piece = Piece::new(0, 0, 1023);
    assert_eq!(piece.size(), 1024);
    assert_eq!(piece.remaining(), 1024);
    assert_eq!(piece.downloaded(), 0);
}

#[test]
fn test_piece_split() {
    let mut piece = Piece::new(0, 0, 1024 * 1024 - 1);
    piece.add_downloaded(256 * 1024);

    let new_piece = piece.split(256 * 1024).unwrap();

    let remaining = piece.remaining();
    let expected_start = piece.start + piece.downloaded() + remaining / 2;
    assert_eq!(new_piece.start, expected_start);
    assert_eq!(new_piece.end, piece.end);
}

#[test]
fn test_piece_split_too_small() {
    let piece = Piece::new(0, 0, 100 * 1024 - 1);
    assert!(piece.split(256 * 1024).is_none());
}

#[test]
fn piece_progress_counts_bytes() {
    let mut piece = Piece::new(0, 0, 999);
    piece.add_downloaded(500);
    assert_eq!(piece.downloaded(), 500);
    assert_eq!(piece.remaining(), 500);
    piece.set_downloaded(1000);
    assert_eq!(piece.remaining(), 0);
}

#[test]
fn test_piece_manager_init() {
    let mut manager = PieceManager::new(8);
    let id = manager.init_single_piece(1024 * 1024);

    assert_eq!(id, 0);
    assert_eq!(manager.total_size(), 1024 * 1024);
    assert_eq!(manager.total_downloaded(), 0);
}

#[test]
fn test_piece_manager_split() {
    let mut manager = PieceManager::new(8);
    let id = manager.init_single_piece(1024 * 1024);

    manager.mark_active(id);

    manager.add_downloaded(id, 256 * 1024);

    let new_id = manager.try_create_piece();
    assert!(new_id.is_some());
    assert_eq!(new_id.unwrap(), 1);

    assert_eq!(manager.piece_count(), 2);
    assert_eq!(manager.active_count(), 2);
}

#[test]
fn test_piece_manager_no_split_too_small() {
    let mut manager = PieceManager::new(8);
    let id = manager.init_single_piece(100 * 1024);

    manager.mark_active(id);

    let new_id = manager.try_create_piece();
    assert!(new_id.is_none());
}

#[test]
fn test_piece_manager_max_active() {
    let mut manager = PieceManager::new(2);
    let id = manager.init_single_piece(10 * 1024 * 1024);

    manager.mark_active(id);

    let id1 = manager.try_create_piece();
    assert!(id1.is_some());
    assert_eq!(manager.active_count(), 2);

    let id2 = manager.try_create_piece();
    assert!(id2.is_none());
}

#[test]
fn test_piece_manager_retry_failed() {
    let mut manager = PieceManager::new(8);
    let id = manager.init_single_piece(1024 * 1024);

    manager.mark_active(id);
    manager.mark_failed(id);

    assert_eq!(manager.active_count(), 0);
    assert!(manager.is_failed(id));

    let retry_id = manager.try_create_piece();
    assert_eq!(retry_id, Some(id));
    assert!(!manager.is_failed(id));
    assert!(manager.is_active(id));
}

#[test]
fn manager_split_halves_target() {
    let mut manager = PieceManager::new(4);
    let id = manager.init_single_piece(4 * 1024 * 1024);
    manager.mark_active(id);
    let new_id = manager.try_create_piece().unwrap();
    // the split piece now ends where the new piece starts: the two cover the file once
    assert_eq!(manager.total_size(), 4 * 1024 * 1024);
    let first = manager.get_piece(id).unwrap();
    let added = manager.get_piece(new_id).unwrap();
    assert_eq!(first.start, 0);
    assert_eq!(first.end, 2 * 1024 * 1024 - 1);
    assert_eq!(added.start, 2 * 1024 * 1024);
    assert_eq!(added.end, 4 * 1024 * 1024 - 1);
}

#[test]
fn manager_complete_after_all_bytes() {
    let mut manager = PieceManager::new(4);
    let id = manager.init_single_piece(2048);
    manager.mark_active(id);
    assert!(!manager.is_complete());
    manager.set_downloaded(id, 2048);
    assert!(!manager.get_piece(id).unwrap().complete);
    manager.mark_complete(id);
    assert!(manager.get_piece(id).unwrap().complete);
    assert!(manager.is_complete());
    assert_eq!(manager.total_downloaded(), 2048);
    assert_eq!(manager.piece_ids(), vec![0]);
}

#[test]
fn manager_splits_tile_the_file() {
    let size: u64 = 10 * 1024 * 1024;
    let mut manager = PieceManager::new(4);
    let id = manager.init_single_piece(size);
    manager.mark_active(id);
    manager.add_downloaded(id, 1000);
    while manager.try_create_piece().is_some() {}
    assert_eq!(manager.active_count(), 4);
    assert_eq!(manager.total_size(), size);
    let mut ranges: Vec<(u64, u64)> = manager
        .piece_ids()
        .iter()
        .map(|&i| {
            let p = manager.get_piece(i).unwrap();
            (p.start, p.end)
        })
        .collect();
    ranges.sort();
    assert_eq!(ranges[0].0, 0);
    for w in ranges.windows(2) {
        assert_eq!(w[0].1 + 1, w[1].0);
    }
    assert_eq!(ranges.last().unwrap().1, size - 1);
}
