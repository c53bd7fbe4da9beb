use http_body::{Body, Cursor, Progress, Source};

fn source(text: &str) -> Source {
    Source::Cursor(Cursor::new(text.as_bytes().to_vec()))
}

fn drain(body: &mut Body, size: usize) -> Vec<u8> {
    let mut all = Vec::new();
    loop {
        let mut buf = vec![0; size];
        let n = body.read(&mut buf);
        if n == 0 {
            return all;
        }
        all.extend_from_slice(&buf[..n]);
    }
}

#[test]
fn cursor_read_fills_what_fits() {
    let mut cursor = Cursor::new(vec![1, 2, 3, 4, 5]);
    assert_eq!(cursor.remaining(), 5);
    let mut buf = [0u8; 3];
    assert_eq!(cursor.read(&mut buf), 3);
    assert_eq!(buf, [1, 2, 3]);
    assert_eq!(cursor.remaining(), 2);
    let mut buf = [9u8; 3];
    assert_eq!(cursor.read(&mut buf), 2);
    assert_eq!(buf, [4, 5, 9]);
    assert_eq!(cursor.read(&mut buf), 0);
    assert_eq!(buf, [4, 5, 9]);
}

#[test]
fn cursor_peek_and_consume() {
    let mut cursor = Cursor::new(b"abcdef".to_vec());
    assert_eq!(cursor.fill_buf(), b"abcdef");
    cursor.consume(2);
    assert_eq!(cursor.fill_buf(), b"cdef");
    cursor.consume(100);
    assert_eq!(cursor.fill_buf(), b"");
    assert_eq!(cursor.remaining(), 0);
}

#[test]
fn read_into_an_empty_buffer_gives_nothing_and_counts_nothing() {
    let mut body = Body::from_bytes(vec![1, 2, 3]);
    let mut buf = [0u8; 0];
    assert_eq!(body.read(&mut buf), 0);
    assert_eq!(body.bytes_read(), 0);
    assert_eq!(drain(&mut body, 2), vec![1, 2, 3]);
}

#[test]
fn read_leaves_the_rest_of_the_buffer_alone() {
    let mut body = Body::from_reader(source("hello world"), Some(5));
    let mut buf = [b'.'; 8];
    assert_eq!(body.read(&mut buf), 5);
    assert_eq!(&buf, b"hello...");
    assert_eq!(body.bytes_read(), 5);
}

#[test]
fn read_after_the_end_keeps_returning_zero() {
    let mut body = Body::from_reader(source("hello world"), Some(5));
    assert_eq!(drain(&mut body, 3), b"hello");
    for _ in 0..4 {
        let mut buf = [0u8; 4];
        assert_eq!(body.read(&mut buf), 0);
        assert_eq!(body.bytes_read(), 5);
    }
}

#[test]
fn declared_length_of_zero_reads_nothing() {
    let mut body = Body::from_reader(source("hello"), Some(0));
    assert_eq!(drain(&mut body, 4), b"");
    assert_eq!(body.bytes_read(), 0);
    assert_eq!(body.is_empty(), Some(true));
}

#[test]
fn empty_body_reads_nothing() {
    let mut body = Body::empty();
    assert_eq!(body.len(), Some(0));
    assert_eq!(body.is_empty(), Some(true));
    assert_eq!(drain(&mut body, 4), b"");
    assert_eq!(body.bytes_read(), 0);
}

#[test]
fn empty_source_reads_nothing() {
    let mut body = Body::from_reader(Source::Empty, None);
    assert_eq!(body.len(), None);
    assert_eq!(body.is_empty(), None);
    assert_eq!(drain(&mut body, 4), b"");
}

#[test]
fn reads_with_changing_buffer_sizes_give_the_whole_content() {
    let mut body = Body::from_reader(source("hello world"), None);
    let mut all = Vec::new();
    for size in [1usize, 4, 2, 7, 3, 5] {
        let mut buf = vec![0; size];
        let n = body.read(&mut buf);
        all.extend_from_slice(&buf[..n]);
    }
    assert_eq!(all, b"hello world");
    assert_eq!(body.bytes_read(), 11);
}

#[test]
fn a_plain_body_fills_the_buffer_as_far_as_bytes_are_pending() {
    let mut body = Body::from_reader(source("hello world"), Some(9));
    let mut buf = [0u8; 4];
    assert_eq!(body.read(&mut buf), 4);
    assert_eq!(body.read(&mut buf), 4);
    assert_eq!(body.read(&mut buf), 1);
    assert_eq!(body.read(&mut buf), 0);
}

#[test]
fn a_chain_reads_short_at_the_seam() {
    let mut body = Body::from("ab").chain(Body::from("cdef"));
    let mut buf = [0u8; 3];
    assert_eq!(body.read(&mut buf), 2);
    assert_eq!(&buf[..2], b"ab");
    assert_eq!(body.read(&mut buf), 3);
    assert_eq!(&buf, b"cde");
    assert_eq!(body.read(&mut buf), 1);
    assert_eq!(&buf[..1], b"f");
    assert_eq!(body.read(&mut buf), 0);
    assert_eq!(body.bytes_read(), 6);
}

#[test]
fn peek_is_not_cut_off_at_the_declared_length() {
    let mut body = Body::from_reader(source("hello world"), Some(5));
    assert_eq!(body.fill_buf(), b"hello world");
    assert_eq!(body.bytes_read(), 0);
    body.consume(6);
    assert_eq!(body.bytes_read(), 0);
    assert_eq!(body.fill_buf(), b"world");
    assert_eq!(drain(&mut body, 16), b"world");
    assert_eq!(body.bytes_read(), 5);
}

#[test]
fn peek_walks_through_a_chain() {
    let mut body =
        Body::from_reader(source("ab"), None).chain(Body::from_reader(source("cd"), None));
    assert_eq!(body.fill_buf(), b"ab");
    body.consume(2);
    assert_eq!(body.fill_buf(), b"cd");
    body.consume(1);
    assert_eq!(body.fill_buf(), b"d");
    body.consume(5);
    assert_eq!(body.fill_buf(), b"");
}

#[test]
fn consume_before_a_peek_acts_on_the_first_part() {
    let mut body =
        Body::from_reader(Source::Empty, None).chain(Body::from_reader(source("cd"), None));
    body.consume(1);
    assert_eq!(body.fill_buf(), b"cd");
}

#[test]
fn source_read_peek_consume() {
    let mut src = source("abc");
    assert_eq!(src.fill_buf(), b"abc");
    src.consume(1);
    let mut buf = [0u8; 8];
    assert_eq!(src.read(&mut buf), 2);
    assert_eq!(&buf[..2], b"bc");
    assert_eq!(src.read(&mut buf), 0);
    let mut none = Source::Empty;
    assert_eq!(none.fill_buf(), b"");
    none.consume(3);
    assert_eq!(none.read(&mut buf), 0);
}

#[test]
fn into_reader_gives_back_the_unread_source() {
    let mut body = Body::from_reader(source("hello world"), Some(5));
    let mut buf = [0u8; 3];
    assert_eq!(body.read(&mut buf), 3);
    let mut rest = body.into_reader();
    let mut buf = [0u8; 16];
    assert_eq!(rest.read(&mut buf), 8);
    assert_eq!(&buf[..8], b"lo world");
}

#[test]
fn window_is_the_smaller_of_capacity_and_what_is_left() {
    let mut progress = Progress::new(Some(5));
    assert_eq!(progress.length, Some(5));
    assert_eq!(progress.bytes_read, 0);
    assert_eq!(progress.window(8), Some(5));
    assert_eq!(progress.window(3), Some(3));
    assert_eq!(progress.window(0), Some(0));
    progress.advance(3);
    assert_eq!(progress.bytes_read, 3);
    assert_eq!(progress.window(8), Some(2));
    progress.advance(2);
    assert_eq!(progress.window(8), None);
    assert_eq!(progress.window(0), None);
}

#[test]
fn window_without_a_length_is_the_capacity() {
    let mut progress = Progress::new(None);
    assert_eq!(progress.window(8), Some(8));
    progress.advance(8);
    assert_eq!(progress.bytes_read, 8);
    assert_eq!(progress.window(usize::MAX), Some(usize::MAX));
}

#[test]
fn zero_length_is_used_up_from_the_start() {
    let progress = Progress::new(Some(0));
    assert_eq!(progress.window(8), None);
}

#[test]
fn consume_slides_the_window_of_the_first_part_of_a_chain() {
    let first = Body::from_reader(source("hello xyz"), Some(6));
    let second = Body::from_reader(source("abcd"), None);
    let mut body = first.chain(second);
    body.consume(3);
    assert_eq!(body.bytes_read(), 0);
    assert_eq!(body.fill_buf(), b"lo xyz");
    assert_eq!(body.pending_len(), 10);
    assert_eq!(drain(&mut body, 4), b"lo xyzabcd");
}

#[test]
fn consume_after_the_first_part_is_done_takes_from_the_second() {
    let first = Body::from_reader(source("hello xyz"), Some(2));
    let second = Body::from_reader(source("abcd"), None);
    let mut body = first.chain(second);
    let mut buf = [0u8; 8];
    assert_eq!(body.read(&mut buf), 2);
    assert_eq!(body.read(&mut buf), 4);
    assert_eq!(&buf[..4], b"abcd");
    let first = Body::from_reader(source("hello xyz"), Some(2));
    let second = Body::from_reader(source("abcd"), None);
    let mut body = first.chain(second);
    assert_eq!(body.read(&mut buf), 2);
    assert_eq!(body.read(&mut buf[..0]), 0);
    assert_eq!(body.fill_buf(), b"llo xyz");
    assert_eq!(body.read(&mut buf[..1]), 1);
    assert_eq!(buf[0], b'a');
    assert_eq!(body.fill_buf(), b"bcd");
    body.consume(2);
    assert_eq!(drain(&mut body, 4), b"d");
}
