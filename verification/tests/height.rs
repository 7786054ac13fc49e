use snarkvm_app::height::HeightFile;

#[test]
fn a_missing_file_is_created_at_zero() {
    let mut file = HeightFile::new(None);
    assert_eq!(file.height(), None);
    assert_eq!(file.read_or_create(), 0);
    assert_eq!(file.contents(), Some(vec![0u8; 8]));
    assert_eq!(file.height(), Some(0));
    assert_eq!(file.read_or_create(), 0);
}

#[test]
fn a_height_is_eight_little_endian_bytes() {
    let mut file = HeightFile::new(Some(vec![0x39, 0x30, 0, 0, 0, 0, 0, 0]));
    assert_eq!(file.read_or_create(), 12345);
    assert_eq!(file.contents(), Some(vec![0x39, 0x30, 0, 0, 0, 0, 0, 0]));
    assert_eq!(HeightFile::new(Some(vec![0xff; 8])).height(), Some(-1));
    assert_eq!(HeightFile::new(Some(vec![0, 0, 0, 0, 0, 0, 0, 0x80])).height(), Some(i64::MIN));
    assert_eq!(
        HeightFile::new(Some(vec![0xff, 0xff, 0xff, 0xff, 0xff, 0xff, 0xff, 0x7f])).height(),
        Some(i64::MAX)
    );
}

#[test]
fn bytes_after_the_height_do_not_count() {
    let file = HeightFile::new(Some(vec![7, 0, 0, 0, 0, 0, 0, 0, 0xaa, 0xbb]));
    assert_eq!(file.height(), Some(7));
}

#[test]
fn fewer_than_eight_bytes_hold_no_height() {
    assert_eq!(HeightFile::new(Some(vec![])).height(), None);
    assert_eq!(HeightFile::new(Some(vec![1, 0, 0, 0, 0, 0, 0])).height(), None);
}

#[test]
fn increment_raises_the_height_by_one() {
    let mut file = HeightFile::new(None);
    file.read_or_create();
    assert_eq!(file.increment(), 1);
    assert_eq!(file.contents(), Some(vec![1, 0, 0, 0, 0, 0, 0, 0]));
    assert_eq!(file.increment(), 2);
    assert_eq!(file.height(), Some(2));
    let mut file = HeightFile::new(Some(vec![0xff, 0, 0, 0, 0, 0, 0, 0, 9, 9]));
    assert_eq!(file.increment(), 256);
    assert_eq!(file.contents(), Some(vec![0, 1, 0, 0, 0, 0, 0, 0]));
    let mut file = HeightFile::new(Some(vec![0xff; 8]));
    assert_eq!(file.increment(), 0);
    assert_eq!(file.contents(), Some(vec![0; 8]));
}

#[test]
fn what_is_written_is_read_back() {
    for start in [0i64, 1, 255, 256, 65_535, 1 << 40, i64::MAX - 1, -2, i64::MIN] {
        let mut file = HeightFile::new(Some(start.to_le_bytes().to_vec()));
        assert_eq!(file.height(), Some(start));
        let next = file.increment();
        assert_eq!(next, start + 1);
        let reread = HeightFile::new(file.contents());
        assert_eq!(reread.height(), Some(start + 1));
        assert_eq!(file.contents(), Some((start + 1).to_le_bytes().to_vec()));
    }
}
