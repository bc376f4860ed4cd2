use ncmdump::Reader;

#[test]
fn reader_reads_in_order() {
    let mut reader = Reader::new(vec![1, 2, 3, 4, 5]);
    assert_eq!(reader.stream_position(), 0);
    assert_eq!(reader.remaining(), 5);
    assert_eq!(reader.read(2), [1, 2]);
    assert_eq!(reader.stream_position(), 2);
    assert_eq!(reader.read(0), Vec::<u8>::new());
    assert_eq!(reader.read(2), [3, 4]);
    assert_eq!(reader.remaining(), 1);
}

#[test]
fn reader_short_read_at_the_end() {
    let mut reader = Reader::new(vec![1, 2, 3]);
    assert_eq!(reader.read(2), [1, 2]);
    assert_eq!(reader.read(4), [3]);
    assert_eq!(reader.stream_position(), 3);
    assert_eq!(reader.read(4), Vec::<u8>::new());
    assert_eq!(reader.read(u64::MAX), Vec::<u8>::new());
}

#[test]
fn reader_seek_and_skip_stay_within_the_source() {
    let mut reader = Reader::new(vec![9, 8, 7, 6]);
    assert!(reader.seek(3));
    assert_eq!(reader.read(1), [6]);
    assert!(reader.seek(4));
    assert!(!reader.seek(5));
    assert_eq!(reader.stream_position(), 4);
    assert!(reader.seek(1));
    assert!(reader.skip(2));
    assert_eq!(reader.stream_position(), 3);
    assert!(!reader.skip(2));
    assert!(!reader.skip(u64::MAX));
    assert_eq!(reader.stream_position(), 3);
    assert!(reader.skip(1));
    assert!(reader.skip(0));
    assert_eq!(reader.stream_position(), 4);
}

#[test]
fn reader_read_to_end() {
    let mut reader = Reader::new(vec![9, 8, 7, 6]);
    assert!(reader.seek(1));
    assert_eq!(reader.read_to_end(), [8, 7, 6]);
    assert_eq!(reader.read_to_end(), Vec::<u8>::new());
    assert_eq!(reader.remaining(), 0);
    let mut empty = Reader::new(Vec::new());
    assert_eq!(empty.read_to_end(), Vec::<u8>::new());
    assert_eq!(empty.read(10), Vec::<u8>::new());
}
