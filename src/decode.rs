//! Parsing of WebSocket frame headers and frames.
use vstd::prelude::*;

use crate::frame::apply_mask;

verus! {

/// Why bytes could not be read as a frame or a message.
#[derive(Clone, Copy, Debug, PartialEq, Eq, Structural)]
pub enum FrameError {
    /// The bytes end before the frame or header they begin is complete.
    Incomplete,
    /// A frame has an opcode that is not allowed where it stands.
    UnexpectedOpcode,
    /// A frame declares a payload longer than this machine can address.
    TooLarge,
}

/// The fields of a frame header.
#[derive(Clone, Copy, Debug)]
pub struct Header {
    pub fin: bool,
    pub opcode: u8,
    /// The masking key, present exactly when the frame is masked.
    pub key: Option<[u8; 4]>,
    /// The payload length.
    pub len: u64,
    /// The number of header bytes, masking key included.
    pub size: usize,
}

/// The 7-bit length indicator of a header whose second byte is `b1`.
pub open spec fn indicator(b1: u8) -> u8 {
    b1 & 0x7f
}

/// Whether a header whose second byte is `b1` declares a masked frame.
pub open spec fn mask_flag(b1: u8) -> bool {
    b1 & 0x80 == 0x80
}

/// Bytes of extended length that follow the second header byte.
pub open spec fn ext_len(b1: u8) -> nat {
    if indicator(b1) < 126 { 0 } else if indicator(b1) == 126 { 2 } else { 8 }
}

/// The number of header bytes that a header beginning with `b` occupies.
pub open spec fn header_size(b: Seq<u8>) -> nat
    recommends b.len() >= 2,
{
    2 + ext_len(b[1]) + if mask_flag(b[1]) { 4nat } else { 0nat }
}

/// Whether `b` begins with a complete header.
pub open spec fn header_fits(b: Seq<u8>) -> bool {
    b.len() >= 2 && b.len() >= header_size(b)
}

/// The value of two big-endian bytes.
pub open spec fn be16_value(b0: u8, b1: u8) -> u64 {
    ((b0 as u64) << 8u64) | (b1 as u64)
}

/// The value of the eight big-endian bytes of `b` from `i` on.
pub open spec fn be64_value(b: Seq<u8>, i: int) -> u64 {
    ((b[i] as u64) << 56u64) | ((b[i + 1] as u64) << 48u64) | ((b[i + 2] as u64) << 40u64)
        | ((b[i + 3] as u64) << 32u64) | ((b[i + 4] as u64) << 24u64) | ((b[i + 5] as u64)
        << 16u64) | ((b[i + 6] as u64) << 8u64) | (b[i + 7] as u64)
}

/// The payload length that a complete header at the start of `b` declares.
pub open spec fn payload_len(b: Seq<u8>) -> u64 {
    let ind = indicator(b[1]);
    if ind < 126 {
        ind as u64
    } else if ind == 126 {
        be16_value(b[2], b[3])
    } else {
        be64_value(b, 2)
    }
}

/// The masking key of a complete, masked header at the start of `b`.
pub open spec fn header_key(b: Seq<u8>) -> Seq<u8> {
    b.subrange(header_size(b) - 4, header_size(b) as int)
}

/// `h` holds the fields of the complete header at the start of `b`.
pub open spec fn describes(h: Header, b: Seq<u8>) -> bool {
    &&& h.fin == (b[0] & 0x80 == 0x80)
    &&& h.opcode == b[0] & 0x0f
    &&& h.len == payload_len(b)
    &&& h.size == header_size(b)
    &&& h.key.is_some() == mask_flag(b[1])
    &&& h.key.is_some() ==> h.key.unwrap()@ == header_key(b)
}

/// Reads the header at the start of `buf`. The three reserved bits and the
/// reserved opcodes are passed through, not rejected; whether the mask bit
/// suits the sending side is left to the caller.
pub fn read_header(buf: &[u8]) -> (r: Result<Header, FrameError>)
    ensures
        match r {
            Ok(h) => header_fits(buf@) && describes(h, buf@),
            Err(e) => !header_fits(buf@) && e == FrameError::Incomplete,
        },
{
    if buf.len() < 2 {
        return Err(FrameError::Incomplete);
    }
    let b0 = buf[0];
    let b1 = buf[1];
    let ind = b1 & 0x7f;
    let masked = b1 & 0x80 == 0x80;
    let ext: usize = if ind < 126 { 0 } else if ind == 126 { 2 } else { 8 };
    let size: usize = 2 + ext + if masked { 4 } else { 0 };
    if buf.len() < size {
        return Err(FrameError::Incomplete);
    }
    let len: u64 = if ind < 126 {
        ind as u64
    } else if ind == 126 {
        ((buf[2] as u64) << 8u64) | (buf[3] as u64)
    } else {
        ((buf[2] as u64) << 56u64) | ((buf[3] as u64) << 48u64) | ((buf[4] as u64) << 40u64)
            | ((buf[5] as u64) << 32u64) | ((buf[6] as u64) << 24u64) | ((buf[7] as u64)
            << 16u64) | ((buf[8] as u64) << 8u64) | (buf[9] as u64)
    };
    let key = if masked {
        let k = size - 4;
        let key = [buf[k], buf[k + 1], buf[k + 2], buf[k + 3]];
        assert(key@ =~= buf@.subrange(k as int, size as int));
        Some(key)
    } else {
        None
    };
    Ok(Header { fin: b0 & 0x80 == 0x80, opcode: b0 & 0x0f, key, len, size })
}


/// Whether `b` begins with a complete frame.
pub open spec fn frame_fits(b: Seq<u8>) -> bool {
    header_fits(b) && b.len() >= header_size(b) + payload_len(b)
}

/// The number of bytes of the complete frame at the start of `b`.
pub open spec fn frame_size(b: Seq<u8>) -> nat {
    header_size(b) + payload_len(b) as nat
}

/// The payload of the complete frame at the start of `b`, unmasked.
pub open spec fn frame_payload(b: Seq<u8>) -> Seq<u8> {
    let raw = b.subrange(header_size(b) as int, frame_size(b) as int);
    if mask_flag(b[1]) {
        apply_mask(raw, header_key(b))
    } else {
        raw
    }
}

/// Unmasks `data` in place with `key`, the first byte of `data` standing at
/// index `offset` of its frame's payload.
pub fn unmask(data: &mut [u8], key: [u8; 4], offset: usize)
    requires
        offset + old(data)@.len() <= usize::MAX,
    ensures
        final(data)@ == apply_mask_from(old(data)@, key@, offset as int),
{
    let n = data.len();
    let mut i: usize = 0;
    while i < n
        invariant
            0 <= i <= n,
            n == data@.len(),
            offset + n <= usize::MAX,
            forall|j: int| 0 <= j < i ==> data@[j] == old(data)@[j] ^ key@[(offset + j) % 4],
            forall|j: int| i <= j < n ==> data@[j] == old(data)@[j],
        decreases n - i,
    {
        let b = data[i] ^ key[(offset + i) % 4];
        data[i] = b;
        i = i + 1;
    }
    assert(data@ =~= apply_mask_from(old(data)@, key@, offset as int));
}

/// `data` with each byte XORed with the key byte at its position in the
/// frame's payload, modulo four; `data` begins at position `offset`.
pub open spec fn apply_mask_from(data: Seq<u8>, key: Seq<u8>, offset: int) -> Seq<u8> {
    Seq::new(data.len(), |i: int| data[i] ^ key[(offset + i) % 4])
}

/// Reads the frame at the start of `buf`, unmasking its payload.
pub fn decode_frame(buf: &[u8]) -> (r: Result<(Header, Vec<u8>), FrameError>)
    ensures
        match r {
            Ok((h, p)) => frame_fits(buf@) && describes(h, buf@) && p@ == frame_payload(buf@),
            Err(e) => !frame_fits(buf@) && e == FrameError::Incomplete,
        },
{
    let h = read_header(buf)?;
    if ((buf.len() - h.size) as u64) < h.len {
        return Err(FrameError::Incomplete);
    }
    let end = h.size + h.len as usize;
    let mut payload: Vec<u8> = Vec::with_capacity(h.len as usize);
    payload.extend_from_slice(slice_range(buf, h.size, end));
    assert(payload@ =~= buf@.subrange(h.size as int, end as int));
    match h.key {
        Some(key) => {
            unmask(payload.as_mut_slice(), key, 0);
            assert(payload@ =~= frame_payload(buf@));
        },
        None => {},
    }
    Ok((h, payload))
}

/// `buf[start..end]`.
pub(crate) fn slice_range(buf: &[u8], start: usize, end: usize) -> (r: &[u8])
    requires
        start <= end <= buf@.len(),
    ensures
        r@ == buf@.subrange(start as int, end as int),
{
    &buf[start..end]
}

} // verus!
