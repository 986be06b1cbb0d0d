use rust_chat::framing::{line_text, LineReader};
use rust_chat::protocol::MAX_LINE_LEN;

fn lines_of(bytes: &[u8], max_len: usize, step: usize) -> Vec<Vec<u8>> {
    let mut reader = LineReader::new(max_len);
    let mut lines = vec![];
    for chunk in bytes.chunks(step) {
        let mut rest = chunk;
        while !rest.is_empty() {
            let (n, line) = reader.feed(rest);
            if let Some(line) = line {
                lines.push(line);
            }
            rest = &rest[n..];
        }
    }
    if let Some(line) = reader.finish() {
        lines.push(line);
    }
    lines
}

#[test]
fn lines_end_at_newlines() {
    assert_eq!(
        lines_of(b"one\ntwo\r\n\nlast", 100, 100),
        vec![b"one".to_vec(), b"two".to_vec(), b"".to_vec(), b"last".to_vec()]
    );
}

#[test]
fn nothing_is_left_after_a_newline() {
    assert_eq!(lines_of(b"one\n", 100, 100), vec![b"one".to_vec()]);
    assert_eq!(lines_of(b"", 100, 100), Vec::<Vec<u8>>::new());
}

#[test]
fn a_carriage_return_stays_on_an_unfinished_line() {
    assert_eq!(lines_of(b"one\r", 100, 100), vec![b"one\r".to_vec()]);
    assert_eq!(lines_of(b"a\rb\r\r\n", 100, 100), vec![b"a\rb\r".to_vec()]);
}

#[test]
fn long_lines_come_out_empty() {
    assert_eq!(
        lines_of(b"12345\n123456\nok\n", 5, 100),
        vec![b"12345".to_vec(), b"".to_vec(), b"ok".to_vec()]
    );
    assert_eq!(lines_of(b"1234\r\n12345\r\n", 5, 100), vec![b"1234".to_vec(), b"".to_vec()]);
    assert_eq!(lines_of(b"123456", 5, 100), vec![b"".to_vec()]);
}

#[test]
fn chunks_do_not_matter() {
    let bytes = b"hello\r\nworld, this is too long\n\nx\r\ny";
    let whole = lines_of(bytes, 10, bytes.len());
    for step in 1..bytes.len() {
        assert_eq!(lines_of(bytes, 10, step), whole);
    }
}

#[test]
fn the_longest_line_is_let_through() {
    let mut bytes = vec![b'a'; MAX_LINE_LEN];
    bytes.push(b'\n');
    let lines = lines_of(&bytes, MAX_LINE_LEN, 4096);
    assert_eq!(lines.len(), 1);
    assert_eq!(lines[0].len(), 65536);
}

#[test]
fn a_feed_says_how_much_it_took() {
    let mut reader = LineReader::new(10);
    assert_eq!(reader.feed(b"ab"), (2, None));
    assert_eq!(reader.feed(b"c\nrest"), (2, Some(b"abc".to_vec())));
    assert_eq!(reader.feed(b"rest"), (4, None));
    assert_eq!(reader.finish(), Some(b"rest".to_vec()));
    assert_eq!(reader.finish(), None);
}

#[test]
fn text_is_decoded_and_mended() {
    assert_eq!(line_text(&"안녕 chat".as_bytes().to_vec()), "안녕 chat");
    assert_eq!(line_text(&vec![b'a', 0xff, b'b']), "a\u{fffd}b");
    assert_eq!(line_text(&vec![]), "");
}
