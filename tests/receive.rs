use web_socket::decode::FrameError;
use web_socket::frame::encode_with_key;
use web_socket::ws::{DataType, Websocket};
use web_socket::{CLIENT, SERVER};

fn read_all(ws: &mut Websocket<CLIENT>) -> (DataType, Vec<u8>) {
    let mut data = ws.recv().unwrap();
    let ty = data.ty;
    let mut out = vec![];
    let mut buf = [0u8; 2];
    loop {
        let n = data.read(&mut buf).unwrap();
        if n == 0 {
            break;
        }
        out.extend_from_slice(&buf[..n]);
    }
    (ty, out)
}

#[test]
fn fragmented_message_is_reassembled() {
    let mut bytes = vec![];
    encode_with_key::<SERVER>(&mut bytes, false, 1, b"Hel", [0; 4]);
    encode_with_key::<SERVER>(&mut bytes, true, 0, b"lo", [0; 4]);
    let mut ws = Websocket::<CLIENT>::new();
    ws.feed(&bytes);
    let (ty, out) = read_all(&mut ws);
    assert_eq!(ty, DataType::Text);
    assert_eq!(out, b"Hello");
}

#[test]
fn masked_fragments_are_unmasked() {
    let mut bytes = vec![];
    encode_with_key::<CLIENT>(&mut bytes, false, 2, b"abcde", [1, 2, 3, 4]);
    encode_with_key::<CLIENT>(&mut bytes, false, 0, b"", [5, 6, 7, 8]);
    encode_with_key::<CLIENT>(&mut bytes, true, 0, b"fgh", [9, 10, 11, 12]);
    let mut ws = Websocket::<CLIENT>::new();
    ws.feed(&bytes);
    let (ty, out) = read_all(&mut ws);
    assert_eq!(ty, DataType::Binary);
    assert_eq!(out, b"abcdefgh");
}

#[test]
fn two_messages_in_a_row() {
    let mut bytes = vec![];
    encode_with_key::<SERVER>(&mut bytes, true, 1, b"one", [0; 4]);
    encode_with_key::<SERVER>(&mut bytes, true, 2, b"two", [0; 4]);
    let mut ws = Websocket::<CLIENT>::new();
    ws.feed(&bytes);
    assert_eq!(read_all(&mut ws), (DataType::Text, b"one".to_vec()));
    assert_eq!(read_all(&mut ws), (DataType::Binary, b"two".to_vec()));
}

#[test]
fn partial_input_asks_for_more() {
    let mut bytes = vec![];
    encode_with_key::<SERVER>(&mut bytes, false, 1, b"Hel", [0; 4]);
    encode_with_key::<SERVER>(&mut bytes, true, 0, b"lo", [0; 4]);
    let mut ws = Websocket::<CLIENT>::new();
    assert_eq!(ws.recv().err(), Some(FrameError::Incomplete));
    ws.feed(&bytes[..4]);
    let mut data = ws.recv().unwrap();
    assert_eq!(data.ty, DataType::Text);
    let mut buf = [0u8; 8];
    assert_eq!(data.read(&mut buf), Ok(2));
    assert_eq!(&buf[..2], b"He");
    assert_eq!(data.read(&mut buf), Err(FrameError::Incomplete));
    data.ws.feed(&bytes[4..6]);
    assert_eq!(data.read(&mut buf), Ok(1));
    assert_eq!(buf[0], b'l');
    assert_eq!(data.read(&mut buf), Err(FrameError::Incomplete));
    data.ws.feed(&bytes[6..]);
    assert_eq!(data.read(&mut buf), Ok(2));
    assert_eq!(&buf[..2], b"lo");
    assert_eq!(data.read(&mut buf), Ok(0));
}

#[test]
fn unexpected_opcodes() {
    let mut ws = Websocket::<CLIENT>::new();
    ws.feed(&[0x80, 0x00]);
    assert_eq!(ws.recv().err(), Some(FrameError::UnexpectedOpcode));
    let mut ws = Websocket::<CLIENT>::new();
    ws.feed(&[0x89, 0x00]);
    assert_eq!(ws.recv().err(), Some(FrameError::UnexpectedOpcode));
    let mut ws = Websocket::<CLIENT>::new();
    ws.feed(&[0x01, 0x01, b'a', 0x81, 0x01, b'b']);
    let mut data = ws.recv().unwrap();
    let mut buf = [0u8; 4];
    assert_eq!(data.read(&mut buf), Ok(1));
    assert_eq!(data.read(&mut buf), Err(FrameError::UnexpectedOpcode));
}

#[test]
fn empty_buffer_reads_nothing() {
    let mut ws = Websocket::<CLIENT>::new();
    ws.feed(&[0x81, 0x01, b'a']);
    let mut data = ws.recv().unwrap();
    assert_eq!(data.read(&mut []), Ok(0));
    let mut buf = [0u8; 1];
    assert_eq!(data.read(&mut buf), Ok(1));
    assert_eq!(buf, [b'a']);
}

#[test]
fn direct_header_and_payload_reads() {
    let mut ws = Websocket::<SERVER>::new();
    ws.feed(&[0x82, 0x82, 1, 2, 3, 4, 1 ^ 10, 2 ^ 20]);
    assert_eq!(ws.read_data_frame_header(), Ok(DataType::Binary));
    let mut buf = [0u8; 4];
    assert_eq!(ws.read_payload(&mut buf), Ok(2));
    assert_eq!(&buf[..2], &[10, 20]);
    assert_eq!(ws.read_payload(&mut buf), Ok(0));
}
