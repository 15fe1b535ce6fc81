use toygrep::line_buffer::{AsyncLineBufferBuilder, MemoryReader};
use toygrep::line_reader::{AsyncLineBufferReader, LineResult};

fn reader_over(text: &[u8], capacity: usize, chunk_len: usize) -> AsyncLineBufferReader {
    let line_buf = AsyncLineBufferBuilder::new()
        .with_read_capacity(capacity)
        .build();
    let source = MemoryReader::new(text.to_vec()).with_chunk_len(chunk_len);
    AsyncLineBufferReader::new(source, line_buf)
}

#[test]
fn a_line_result_keeps_what_it_was_given() {
    let line = LineResult::new(b"text\n", 7);
    assert_eq!(7, line.line_num());
    assert_eq!(b"text\n", line.text());
}

#[test]
fn lines_are_numbered_from_one() {
    let mut reader = reader_over(b"a\nb\nc", 2, 1);
    let first = reader.read_line().unwrap();
    assert_eq!((1, &b"a\n"[..]), (first.line_num(), first.text()));
    let second = reader.read_line().unwrap();
    assert_eq!((2, &b"b\n"[..]), (second.line_num(), second.text()));
    let third = reader.read_line().unwrap();
    assert_eq!((3, &b"c"[..]), (third.line_num(), third.text()));
    assert!(reader.read_line().is_none());
}

#[test]
fn lines_keep_their_numbers_when_numbers_are_not_asked_for() {
    let mut reader = reader_over(b"a\nb\n", 8, 8).line_nums(false);
    assert_eq!(1, reader.read_line().unwrap().line_num());
    assert_eq!(2, reader.read_line().unwrap().line_num());
}

#[test]
fn the_buffer_grows_with_the_longest_line() {
    let mut reader = reader_over(b"0123456789\nab\n", 4, 3);
    assert_eq!(4, reader.inner_buf_len());
    assert_eq!(b"0123456789\n", reader.read_line().unwrap().text());
    assert_eq!(16, reader.inner_buf_len());
    assert_eq!(b"ab\n", reader.read_line().unwrap().text());
    assert_eq!(16, reader.inner_buf_len());
}

#[test]
fn the_buffer_can_be_taken_back() {
    let mut reader = reader_over(b"one\ntwo", 32, 32);
    assert_eq!(b"one\n", reader.read_line().unwrap().text());
    let mut buffer = reader.take_line_buffer();
    assert_eq!(32, buffer.len());
    assert_eq!(Some(&b"two"[..]), buffer.consume_remaining());
}

#[test]
fn a_reader_can_start_from_a_buffer_that_holds_bytes() {
    let mut line_buf = AsyncLineBufferBuilder::new()
        .with_read_capacity(8)
        .build();
    line_buf.fill(b"ab");
    let source = MemoryReader::new(b"cd\nef".to_vec());
    let mut reader = AsyncLineBufferReader::new(source, line_buf);
    assert_eq!(b"abcd\n", reader.read_line().unwrap().text());
    assert_eq!(b"ef", reader.read_line().unwrap().text());
    assert!(reader.read_line().is_none());
}

#[test]
fn a_reader_says_whether_it_can_read_and_search() {
    let mut reader = reader_over(b"a\nb", 4, 4);
    assert!(reader.can_read());
    assert!(reader.can_search());
    assert_eq!(b"a\n", reader.read_line().unwrap().text());
    assert!(reader.can_read());
    assert!(reader.can_search());
}
