use kv_transport::protocol::connection::{find_delimiter, frame, Connection, FrameReader, DELIMITER};
use kv_transport::protocol::response::{Outcome, Response};
use kv_transport::protocol::Hasher;

#[test]
fn delimiter_is_a_line_feed() {
    assert_eq!(DELIMITER, b'\n');
}

#[test]
fn frame_appends_one_delimiter() {
    assert_eq!(frame(b"hello"), b"hello\n".to_vec());
    assert_eq!(frame(b""), b"\n".to_vec());
}

#[test]
fn find_delimiter_gives_the_first_one() {
    assert_eq!(find_delimiter(b"ab\ncd\n"), Some(2));
    assert_eq!(find_delimiter(b"\n"), Some(0));
    assert_eq!(find_delimiter(b"abcd"), None);
    assert_eq!(find_delimiter(b""), None);
}

#[test]
fn reader_hands_out_frames_in_order() {
    let mut reader = FrameReader::new();
    assert_eq!(reader.next_frame(), None);
    reader.receive(b"one\ntwo\nthr");
    assert_eq!(reader.next_frame(), Some(b"one".to_vec()));
    assert_eq!(reader.next_frame(), Some(b"two".to_vec()));
    assert_eq!(reader.next_frame(), None);
    reader.receive(b"ee\n");
    assert_eq!(reader.next_frame(), Some(b"three".to_vec()));
    assert_eq!(reader.next_frame(), None);
}

#[test]
fn reader_joins_a_frame_that_arrives_byte_by_byte() {
    let mut reader = FrameReader::new();
    for byte in b"hello".iter() {
        reader.receive(&[*byte]);
        assert_eq!(reader.next_frame(), None);
    }
    reader.receive(b"\n");
    assert_eq!(reader.next_frame(), Some(b"hello".to_vec()));
}

#[test]
fn reader_hands_out_an_empty_frame() {
    let mut reader = FrameReader::new();
    reader.receive(b"\n\nx\n");
    assert_eq!(reader.next_frame(), Some(Vec::new()));
    assert_eq!(reader.next_frame(), Some(Vec::new()));
    assert_eq!(reader.next_frame(), Some(b"x".to_vec()));
    assert_eq!(reader.next_frame(), None);
}

#[test]
fn reader_at_the_end_of_the_stream() {
    let mut reader = FrameReader::new();
    assert_eq!(reader.finish(), None);
    reader.receive(b"whole\npart");
    assert_eq!(reader.finish(), Some(b"whole".to_vec()));
    assert_eq!(reader.finish(), Some(b"part".to_vec()));
    assert_eq!(reader.finish(), None);
}

#[test]
fn framed_messages_read_back() {
    let messages: Vec<Vec<u8>> = vec![b"hello".to_vec(), Vec::new(), b"{\"id\":1}".to_vec()];
    let mut stream: Vec<u8> = Vec::new();
    for message in messages.iter() {
        stream.extend(frame(message));
    }
    let mut reader = FrameReader::new();
    reader.receive(&stream);
    let mut read: Vec<Vec<u8>> = Vec::new();
    while let Some(message) = reader.next_frame() {
        read.push(message);
    }
    assert_eq!(read, messages);
    assert_eq!(reader.finish(), None);
}

#[test]
fn connection_writes_a_response_as_one_frame() {
    let connection: Connection<Response, Response> = Connection::new();
    let response = Response { id: 42, outcome: Outcome::OfSet { was_modified: true } };
    assert_eq!(
        connection.write(response),
        b"{\"id\":42,\"outcome\":{\"type\":\"OfSet\",\"was_modified\":true}}\n".to_vec()
    );
}

#[test]
fn connection_reads_what_a_connection_wrote() {
    let sender: Connection<Response, Response> = Connection::new();
    let mut receiver: Connection<Response, Response> = Connection::new();
    let first = Response { id: 1, outcome: Outcome::OfGet { value: Some("a\nb".to_string()) } };
    let second = Response { id: 2, outcome: Outcome::Error { msg: "whoops!".to_string() } };
    assert_eq!(receiver.read(), None);
    receiver.receive(&sender.write(first.clone()));
    receiver.receive(&sender.write(second.clone()));
    assert_eq!(receiver.read(), Some(first));
    assert_eq!(receiver.read(), Some(second));
    assert_eq!(receiver.read(), None);
    assert_eq!(receiver.read_at_end(), None);
}

#[test]
fn connection_goes_on_after_a_frame_that_holds_no_response() {
    let mut receiver: Connection<Response, Response> = Connection::new();
    receiver.receive(b"garbage\n{\"id\":3,\"outcome\":{\"type\":\"OfSet\",\"was_modified\":false}}\n");
    let first = receiver.read().unwrap();
    assert_eq!(first.id, Hasher::hash(b"garbage"));
    assert!(matches!(first.outcome, Outcome::Invalid { .. }));
    assert_eq!(
        receiver.read(),
        Some(Response { id: 3, outcome: Outcome::OfSet { was_modified: false } })
    );
}

#[test]
fn connection_of_raw_bytes() {
    let mut connection: Connection<Vec<u8>, Vec<u8>> = Connection::new();
    assert_eq!(connection.write(b"hello".to_vec()), b"hello\n".to_vec());
    connection.receive(b"hello\nwor");
    assert_eq!(connection.read(), Some(b"hello".to_vec()));
    assert_eq!(connection.read(), None);
    assert_eq!(connection.read_at_end(), Some(b"wor".to_vec()));
    assert_eq!(connection.read_at_end(), None);
}

#[test]
fn reader_hands_out_all_whole_frames_at_once() {
    let mut reader = FrameReader::new();
    assert_eq!(reader.next_frames(), Vec::<Vec<u8>>::new());
    reader.receive(b"one\n\ntwo\nthr");
    assert_eq!(reader.next_frames(), vec![b"one".to_vec(), Vec::new(), b"two".to_vec()]);
    assert_eq!(reader.next_frames(), Vec::<Vec<u8>>::new());
    reader.receive(b"ee\n");
    assert_eq!(reader.next_frames(), vec![b"three".to_vec()]);
    assert_eq!(reader.finish(), None);
}
