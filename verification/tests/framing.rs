use networking_basic::framing::frame;
use networking_basic::framing::LineBuffer;
use networking_basic::framing::LINE_END;

#[test]
fn frame_appends_the_line_end() {
    assert_eq!(LINE_END, b'\n');
    assert_eq!(frame(b"{\"Join\":null}"), b"{\"Join\":null}\n".to_vec());
    assert_eq!(frame(b""), b"\n".to_vec());
}

#[test]
fn feed_hands_out_whole_lines_and_keeps_the_rest() {
    let mut buffer = LineBuffer::new();
    assert_eq!(buffer.feed(b"abc"), Vec::<Vec<u8>>::new());
    assert_eq!(buffer.feed(b"de\nfg\n\nhi"), vec![b"abcde\n".to_vec(), b"fg\n".to_vec(), b"\n".to_vec()]);
    assert_eq!(buffer.feed(b""), Vec::<Vec<u8>>::new());
    assert_eq!(buffer.feed(b"\n"), vec![b"hi\n".to_vec()]);
    assert_eq!(buffer.feed(b"\n"), vec![b"\n".to_vec()]);
}

#[test]
fn framed_messages_come_back_whatever_the_chunks() {
    let messages: Vec<&[u8]> = vec![b"{\"Join\":null}", b"", b"{\"Move\":{\"direction\":{\"x\":1.0,\"y\":0.0}}}"];
    let mut stream = Vec::new();
    for m in &messages {
        stream.extend(frame(m));
    }
    for chunk in 1..stream.len() + 1 {
        let mut buffer = LineBuffer::new();
        let mut lines = Vec::new();
        for piece in stream.chunks(chunk) {
            lines.extend(buffer.feed(piece));
        }
        let expected: Vec<Vec<u8>> = messages.iter().map(|m| frame(m)).collect();
        assert_eq!(lines, expected);
        assert_eq!(buffer.feed(b"\n"), vec![b"\n".to_vec()]);
    }
}
