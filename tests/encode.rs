use web_socket::frame::{encode, encode_with_key, Close, Event, Frame, RandKey, RandMask};
use web_socket::{CLIENT, SERVER};

const DATA: &[u8] = b"Hello";

struct DefaultMask;

impl RandKey for DefaultMask {
    fn key() -> [u8; 4] {
        [55, 250, 33, 61]
    }
}

fn encode_fixed<const S: bool>(writer: &mut Vec<u8>, fin: bool, opcode: u8, data: &[u8]) {
    encode::<S, DefaultMask>(writer, fin, opcode, data);
}

#[test]
fn unmasked_txt_msg() {
    let mut bytes = vec![];
    encode_fixed::<SERVER>(&mut bytes, true, 1, DATA);
    assert_eq!(bytes, [0x81, 0x05, 0x48, 0x65, 0x6c, 0x6c, 0x6f]);
}

#[test]
fn masked_txt_msg() {
    let mut bytes = vec![];
    encode_fixed::<CLIENT>(&mut bytes, true, 1, DATA);
    assert_eq!(
        bytes,
        [0x81, 0x85, 0x37, 0xfa, 0x21, 0x3d, 0x7f, 0x9f, 0x4d, 0x51, 0x58]
    );
}

#[test]
fn fragmented_unmasked_txt_msg() {
    let mut bytes = vec![];
    encode_fixed::<SERVER>(&mut bytes, false, 1, b"Hel");
    encode_fixed::<SERVER>(&mut bytes, true, 0, b"lo");
    assert_eq!(
        bytes,
        [
            0x01, 0x03, 0x48, 0x65, 0x6c, // fragmented frame
            0x80, 0x02, 0x6c, 0x6f, // final frame
        ]
    );
}

#[test]
fn unmasked_ping_req_and_masked_pong_res() {
    let mut bytes = vec![];
    encode_fixed::<SERVER>(&mut bytes, true, 9, DATA);
    encode_fixed::<CLIENT>(&mut bytes, true, 10, DATA);
    assert_eq!(
        bytes,
        [
            // unmasked ping request
            0x89, 0x05, 0x48, 0x65, 0x6c, 0x6c, 0x6f, //
            // masked pong response
            0x8a, 0x85, 0x37, 0xfa, 0x21, 0x3d, 0x7f, 0x9f, 0x4d, 0x51, 0x58,
        ]
    );
}

#[test]
fn key_is_used_as_given() {
    let mut bytes = vec![];
    encode_with_key::<CLIENT>(&mut bytes, true, 1, DATA, [0x37, 0xfa, 0x21, 0x3d]);
    assert_eq!(
        bytes,
        [0x81, 0x85, 0x37, 0xfa, 0x21, 0x3d, 0x7f, 0x9f, 0x4d, 0x51, 0x58]
    );
}

#[test]
fn server_ignores_key() {
    let mut bytes = vec![];
    encode_with_key::<SERVER>(&mut bytes, true, 1, DATA, [1, 2, 3, 4]);
    assert_eq!(bytes, [0x81, 0x05, 0x48, 0x65, 0x6c, 0x6c, 0x6f]);
}

#[test]
fn appends_after_existing_bytes() {
    let mut bytes = vec![0xaa];
    encode_fixed::<SERVER>(&mut bytes, true, 2, &[]);
    assert_eq!(bytes, [0xaa, 0x82, 0x00]);
}

fn header_len_for(n: usize) -> Vec<u8> {
    let payload = vec![7u8; n];
    let mut bytes = vec![];
    encode_fixed::<SERVER>(&mut bytes, true, 2, &payload);
    assert_eq!(bytes.len() - n, expected_header_len(n));
    assert!(bytes[expected_header_len(n)..].iter().all(|b| *b == 7));
    bytes[..expected_header_len(n)].to_vec()
}

fn expected_header_len(n: usize) -> usize {
    if n < 126 {
        2
    } else if n < 65536 {
        4
    } else {
        10
    }
}

#[test]
fn canonical_length_boundaries() {
    assert_eq!(header_len_for(0), [0x82, 0]);
    assert_eq!(header_len_for(125), [0x82, 125]);
    assert_eq!(header_len_for(126), [0x82, 126, 0, 126]);
    assert_eq!(header_len_for(65535), [0x82, 126, 0xff, 0xff]);
    assert_eq!(header_len_for(65536), [0x82, 127, 0, 0, 0, 0, 0, 1, 0, 0]);
}

#[test]
fn masked_long_header() {
    let payload = vec![0u8; 300];
    let mut bytes = vec![];
    encode_fixed::<CLIENT>(&mut bytes, true, 2, &payload);
    assert_eq!(&bytes[..8], &[0x82, 0xfe, 0x01, 0x2c, 55, 250, 33, 61]);
    assert_eq!(bytes.len(), 8 + 300);
    assert_eq!(&bytes[8..12], &[55, 250, 33, 61]);
}

#[test]
fn side_asymmetry() {
    let mut c = vec![];
    let mut s = vec![];
    encode_fixed::<CLIENT>(&mut c, false, 2, DATA);
    encode_fixed::<SERVER>(&mut s, false, 2, DATA);
    assert_eq!(c[1] & 0x80, 0x80);
    assert_eq!(s[1] & 0x80, 0);
    assert_eq!(c.len(), s.len() + 4);
    assert_eq!(&c[2..6], &[55, 250, 33, 61]);
    assert_eq!(&s[2..], DATA);
}

#[test]
fn close_frame() {
    let mut bytes = vec![];
    Close { code: 1000, reason: b"bye" }.encode::<SERVER>(&mut bytes);
    assert_eq!(bytes, [0x88, 0x05, 0x03, 0xe8, 0x62, 0x79, 0x65]);
}

#[test]
fn typed_frames() {
    let mut bytes = vec![];
    "Hi".encode::<SERVER>(&mut bytes);
    b"ab"[..].encode::<SERVER>(&mut bytes);
    [1u8, 2].encode::<SERVER>(&mut bytes);
    Event::Ping(b"p").encode::<SERVER>(&mut bytes);
    Event::Pong(b"q").encode::<SERVER>(&mut bytes);
    Box::new(Event::Ping(b"")).encode::<SERVER>(&mut bytes);
    (&"x").encode::<SERVER>(&mut bytes);
    assert_eq!(
        bytes,
        [
            0x81, 2, b'H', b'i', //
            0x82, 2, b'a', b'b', //
            0x82, 2, 1, 2, //
            0x89, 1, b'p', //
            0x8a, 1, b'q', //
            0x89, 0, //
            0x81, 1, b'x',
        ]
    );
}

#[test]
fn random_key_frame_carries_its_key() {
    let mut bytes = vec![];
    encode::<CLIENT, RandMask>(&mut bytes, true, 1, DATA);
    assert_eq!(&bytes[..2], &[0x81, 0x85]);
    assert_eq!(bytes.len(), 11);
    let key = [bytes[2], bytes[3], bytes[4], bytes[5]];
    let unmasked: Vec<u8> = bytes[6..].iter().enumerate().map(|(i, b)| b ^ key[i % 4]).collect();
    assert_eq!(unmasked, DATA);
}

#[test]
fn random_keys_vary() {
    let first = RandMask::key();
    let differs = (0..64).any(|_| RandMask::key() != first);
    assert!(differs);
}
