use web_socket::decode::{decode_frame, read_header, unmask, FrameError};
use web_socket::frame::{encode_with_key, Close, Frame};
use web_socket::{CLIENT, SERVER};

#[test]
fn header_of_masked_frame() {
    let bytes = [0x81, 0x85, 0x37, 0xfa, 0x21, 0x3d, 0x7f, 0x9f, 0x4d, 0x51, 0x58];
    let h = read_header(&bytes).unwrap();
    assert!(h.fin);
    assert_eq!(h.opcode, 1);
    assert_eq!(h.key, Some([0x37, 0xfa, 0x21, 0x3d]));
    assert_eq!(h.len, 5);
    assert_eq!(h.size, 6);
}

#[test]
fn header_extended_lengths() {
    let h = read_header(&[0x02, 126, 0x01, 0x00]).unwrap();
    assert!(!h.fin);
    assert_eq!(h.opcode, 2);
    assert_eq!(h.key, None);
    assert_eq!(h.len, 256);
    assert_eq!(h.size, 4);
    let h = read_header(&[0x80, 127, 0, 0, 0, 1, 0, 0, 0, 2]).unwrap();
    assert_eq!(h.len, (1u64 << 32) + 2);
    assert_eq!(h.size, 10);
}

#[test]
fn incomplete_header() {
    assert_eq!(read_header(&[]).unwrap_err(), FrameError::Incomplete);
    assert_eq!(read_header(&[0x81]).unwrap_err(), FrameError::Incomplete);
    assert_eq!(read_header(&[0x81, 126, 0]).unwrap_err(), FrameError::Incomplete);
    assert_eq!(read_header(&[0x81, 0x85, 1, 2, 3]).unwrap_err(), FrameError::Incomplete);
}

#[test]
fn incomplete_frame() {
    assert_eq!(decode_frame(&[0x81, 0x05, b'H']).unwrap_err(), FrameError::Incomplete);
}

#[test]
fn round_trip_both_sides() {
    for opcode in [1u8, 2, 9, 10] {
        for n in [0usize, 1, 5, 125, 126, 300, 65535, 65536] {
            let payload: Vec<u8> = (0..n).map(|i| (i * 7 + 3) as u8).collect();
            for side in [CLIENT, SERVER] {
                let mut bytes = vec![];
                if side == CLIENT {
                    encode_with_key::<CLIENT>(&mut bytes, true, opcode, &payload, [9, 8, 7, 6]);
                } else {
                    encode_with_key::<SERVER>(&mut bytes, true, opcode, &payload, [9, 8, 7, 6]);
                }
                let (h, p) = decode_frame(&bytes).unwrap();
                assert!(h.fin);
                assert_eq!(h.opcode, opcode);
                assert_eq!(h.size + h.len as usize, bytes.len());
                assert_eq!(p, payload);
            }
        }
    }
}

#[test]
fn decode_concrete_masked_vector() {
    let bytes = [0x81, 0x85, 0x37, 0xfa, 0x21, 0x3d, 0x7f, 0x9f, 0x4d, 0x51, 0x58];
    let (h, p) = decode_frame(&bytes).unwrap();
    assert_eq!(h.opcode, 1);
    assert_eq!(p, b"Hello");
}

#[test]
fn decode_close_frame() {
    let mut bytes = vec![];
    Close { code: 1000, reason: b"bye" }.encode::<CLIENT>(&mut bytes);
    let (h, p) = decode_frame(&bytes).unwrap();
    assert_eq!(h.opcode, 8);
    assert_eq!(p, [0x03, 0xe8, 0x62, 0x79, 0x65]);
}

#[test]
fn masking_is_invertible() {
    let key = [0x37, 0xfa, 0x21, 0x3d];
    let mut data = b"Hello, world".to_vec();
    unmask(&mut data, key, 0);
    assert_ne!(data, b"Hello, world");
    unmask(&mut data, key, 0);
    assert_eq!(data, b"Hello, world");
    let mut empty: Vec<u8> = vec![];
    unmask(&mut empty, key, 0);
    unmask(&mut empty, key, 0);
    assert!(empty.is_empty());
}

#[test]
fn unmask_from_offset() {
    let key = [1, 2, 3, 4];
    let mut data = [0u8, 0, 0];
    unmask(&mut data, key, 2);
    assert_eq!(data, [3, 4, 1]);
}
