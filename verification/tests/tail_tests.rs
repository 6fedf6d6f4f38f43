use resgen::tail::TailBuffer;

#[test]
fn tail_short_stream_kept_whole() {
    let mut t = TailBuffer::new(4);
    t.push(&[1, 2, 3]);
    assert_eq!(t.finish(), vec![1, 2, 3]);
}

#[test]
fn tail_keeps_last_window_and_remainder() {
    let mut t = TailBuffer::new(4);
    let data: Vec<u8> = (0..10).collect();
    t.push(&data);
    // 10 bytes through a 4-byte window: 4 + 10 % 4 == 6 trailing bytes.
    assert_eq!(t.finish(), vec![4, 5, 6, 7, 8, 9]);
}

#[test]
fn tail_exact_multiple_of_window() {
    let mut t = TailBuffer::new(4);
    let data: Vec<u8> = (0..8).collect();
    t.push(&data);
    assert_eq!(t.finish(), vec![4, 5, 6, 7]);
}

#[test]
fn tail_chunked_feeding_matches_single_feed() {
    let data: Vec<u8> = (0..23).collect();
    let mut one = TailBuffer::new(5);
    one.push(&data);
    let mut many = TailBuffer::new(5);
    for chunk in data.chunks(3) {
        many.push(chunk);
    }
    assert_eq!(one.finish(), many.finish());
}

#[test]
fn tail_window_of_one() {
    let mut t = TailBuffer::new(1);
    t.push(&[10, 20, 30, 40, 50]);
    assert_eq!(t.finish(), vec![50]);
}

#[test]
fn tail_empty_stream() {
    let t = TailBuffer::new(8);
    assert_eq!(t.finish(), Vec::<u8>::new());
}
