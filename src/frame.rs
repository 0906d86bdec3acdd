//! Encoding of WebSocket frames.
use vstd::prelude::*;

use vstd::string::StringSliceAdditionalSpecFns;

use crate::SERVER;

verus! {

/// First header byte: the FIN flag in the high bit, the opcode below it.
pub open spec fn first_byte(fin: bool, opcode: u8) -> u8 {
    (if fin { 0x80u8 } else { 0u8 }) | opcode
}

/// The eight big-endian bytes of `n`.
pub open spec fn be_u64(n: u64) -> Seq<u8> {
    seq![
        (n >> 56u64) as u8, (n >> 48u64) as u8, (n >> 40u64) as u8, (n >> 32u64) as u8,
        (n >> 24u64) as u8, (n >> 16u64) as u8, (n >> 8u64) as u8, n as u8,
    ]
}

/// The two big-endian bytes of `n`.
pub open spec fn be_u16(n: u16) -> Seq<u8> {
    seq![(n >> 8u16) as u8, n as u8]
}

/// Second header byte and extended length, in the shortest form for `n`.
pub open spec fn length_field(masked: bool, n: nat) -> Seq<u8> {
    let m: u8 = if masked { 0x80u8 } else { 0u8 };
    if n < 126 {
        seq![m | (n as u8)]
    } else if n < 65536 {
        seq![m | 126u8] + be_u16(n as u16)
    } else {
        seq![m | 127u8] + be_u64(n as u64)
    }
}

/// The header of a frame, up to and excluding the masking key.
pub open spec fn base_header(masked: bool, fin: bool, opcode: u8, n: nat) -> Seq<u8> {
    seq![first_byte(fin, opcode)] + length_field(masked, n)
}

/// `payload` with each byte XORed with the key byte at its index modulo four.
pub open spec fn apply_mask(payload: Seq<u8>, key: Seq<u8>) -> Seq<u8> {
    Seq::new(payload.len(), |i: int| payload[i] ^ key[i % 4])
}

/// Whether frames sent from `side` are masked: only a client masks.
pub open spec fn side_masks(side: bool) -> bool {
    side != SERVER
}

/// The whole frame that `side` sends for `payload`; `key` is used only when
/// the side masks.
pub open spec fn frame_bytes(side: bool, fin: bool, opcode: u8, payload: Seq<u8>, key: [u8; 4]) -> Seq<u8> {
    if side_masks(side) {
        base_header(true, fin, opcode, payload.len()) + key@ + apply_mask(payload, key@)
    } else {
        base_header(false, fin, opcode, payload.len()) + payload
    }
}

/// Encodes one frame of `data` for `SIDE` and appends it to `writer`,
/// masking with `key` when `SIDE` is the client. Any opcode is written as
/// given, and the 125-byte limit on control frames is left to the caller.
pub fn encode_with_key<const SIDE: bool>(
    writer: &mut Vec<u8>,
    fin: bool,
    opcode: u8,
    data: &[u8],
    key: [u8; 4],
)
    requires
        old(writer)@.len() + data@.len() + 14 <= usize::MAX,
    ensures
        final(writer)@ == old(writer)@ + frame_bytes(SIDE, fin, opcode, data@, key),
{
    let data_len = data.len();
    let masks = SIDE != SERVER;
    writer.reserve(if masks { 14 } else { 10 } + data_len);
    let mask_bit: u8 = if masks { 0x80 } else { 0 };
    let fin_bit: u8 = if fin { 0x80 } else { 0 };
    let ghost start = writer@;
    writer.push(fin_bit | opcode);
    if data_len < 126 {
        writer.push(mask_bit | data_len as u8);
    } else if data_len < 65536 {
        let n = data_len as u16;
        writer.push(mask_bit | 126);
        writer.push((n >> 8u16) as u8);
        writer.push(n as u8);
    } else {
        let n = data_len as u64;
        writer.push(mask_bit | 127);
        writer.push((n >> 56u64) as u8);
        writer.push((n >> 48u64) as u8);
        writer.push((n >> 40u64) as u8);
        writer.push((n >> 32u64) as u8);
        writer.push((n >> 24u64) as u8);
        writer.push((n >> 16u64) as u8);
        writer.push((n >> 8u64) as u8);
        writer.push(n as u8);
    }
    assert(writer@ == start + base_header(masks, fin, opcode, data@.len()));
    let ghost head = writer@;
    if masks {
        writer.push(key[0]);
        writer.push(key[1]);
        writer.push(key[2]);
        writer.push(key[3]);
        assert(writer@ == head + key@);
        let ghost keyed = writer@;
        let mut i: usize = 0;
        while i < data_len
            invariant
                0 <= i <= data_len,
                data_len == data@.len(),
                keyed.len() + data_len <= usize::MAX,
                writer@ == keyed + apply_mask(data@, key@).subrange(0, i as int),
            decreases data_len - i,
        {
            writer.push(data[i] ^ key[i % 4]);
            i = i + 1;
            assert(writer@ =~= keyed + apply_mask(data@, key@).subrange(0, i as int));
        }
        assert(apply_mask(data@, key@).subrange(0, data_len as int) =~= apply_mask(data@, key@));
    } else {
        writer.extend_from_slice(data);
        assert(writer@ =~= head + data@);
    }
    assert(writer@ =~= start + frame_bytes(SIDE, fin, opcode, data@, key));
}


/// `after` is `before` followed by one frame that `side` sends, masked with
/// some key when the side masks.
pub open spec fn appends_frame(
    before: Seq<u8>,
    after: Seq<u8>,
    side: bool,
    fin: bool,
    opcode: u8,
    payload: Seq<u8>,
) -> bool {
    exists|key: [u8; 4]| after == before + #[trigger] frame_bytes(side, fin, opcode, payload, key)
}

/// Encodes one frame of `data` for `SIDE` and appends it to `writer`; when
/// `SIDE` is the client, the frame is masked with a fresh key from `Mask`.
pub fn encode<const SIDE: bool, Mask: RandKey>(
    writer: &mut Vec<u8>,
    fin: bool,
    opcode: u8,
    data: &[u8],
)
    requires
        old(writer)@.len() + data@.len() + 14 <= usize::MAX,
    ensures
        appends_frame(old(writer)@, final(writer)@, SIDE, fin, opcode, data@),
{
    let key = if SIDE == SERVER { [0u8; 4] } else { Mask::key() };
    encode_with_key::<SIDE>(writer, fin, opcode, data, key);
}

/// A source of masking keys for frames that a client sends.
pub trait RandKey {
    /// A fresh four-byte masking key.
    fn key() -> [u8; 4];
}

/// The default source of masking keys: a fast, non-cryptographic generator.
pub struct RandMask;

/// Relies on fastrand::u32 over its full range, which never panics, and on
/// u32::to_ne_bytes to turn the drawn number into four bytes in native byte
/// order; nothing is known of the number drawn, so any four bytes can come
/// out.
#[verifier::external_body]
fn random_key() -> [u8; 4] {
    fastrand::u32(..).to_ne_bytes()
}

impl RandKey for RandMask {
    fn key() -> [u8; 4] {
        random_key()
    }
}

/// Opcode of a text frame.
pub const TEXT: u8 = 1;
/// Opcode of a binary frame.
pub const BINARY: u8 = 2;
/// Opcode of a close frame.
pub const CLOSE: u8 = 8;
/// Opcode of a ping frame.
pub const PING: u8 = 9;
/// Opcode of a pong frame.
pub const PONG: u8 = 10;

/// A value that is sent as one final frame.
pub trait Frame {
    /// The opcode that the value is sent with.
    spec fn frame_opcode(&self) -> u8;

    /// The payload that the value is sent as.
    spec fn frame_payload(&self) -> Seq<u8>;

    /// Appends the value to `writer` as one final frame sent from `SIDE`.
    fn encode<const SIDE: bool>(&self, writer: &mut Vec<u8>)
        requires
            old(writer)@.len() + self.frame_payload().len() + 14 <= usize::MAX,
        ensures
            appends_frame(
                old(writer)@,
                final(writer)@,
                SIDE,
                true,
                self.frame_opcode(),
                self.frame_payload(),
            ),
    ;
}

impl Frame for str {
    open spec fn frame_opcode(&self) -> u8 {
        TEXT
    }

    open spec fn frame_payload(&self) -> Seq<u8> {
        self.spec_bytes()
    }

    fn encode<const SIDE: bool>(&self, writer: &mut Vec<u8>) {
        encode::<SIDE, RandMask>(writer, true, TEXT, self.as_bytes());
    }
}

impl Frame for [u8] {
    open spec fn frame_opcode(&self) -> u8 {
        BINARY
    }

    open spec fn frame_payload(&self) -> Seq<u8> {
        self@
    }

    fn encode<const SIDE: bool>(&self, writer: &mut Vec<u8>) {
        encode::<SIDE, RandMask>(writer, true, BINARY, self);
    }
}

impl<const N: usize> Frame for [u8; N] {
    open spec fn frame_opcode(&self) -> u8 {
        BINARY
    }

    open spec fn frame_payload(&self) -> Seq<u8> {
        self@
    }

    fn encode<const SIDE: bool>(&self, writer: &mut Vec<u8>) {
        encode::<SIDE, RandMask>(writer, true, BINARY, self.as_slice());
    }
}

impl<T: Frame + ?Sized> Frame for &T {
    open spec fn frame_opcode(&self) -> u8 {
        (**self).frame_opcode()
    }

    open spec fn frame_payload(&self) -> Seq<u8> {
        (**self).frame_payload()
    }

    fn encode<const SIDE: bool>(&self, writer: &mut Vec<u8>) {
        T::encode::<SIDE>(*self, writer)
    }
}

impl<T: Frame + ?Sized> Frame for Box<T> {
    open spec fn frame_opcode(&self) -> u8 {
        (**self).frame_opcode()
    }

    open spec fn frame_payload(&self) -> Seq<u8> {
        (**self).frame_payload()
    }

    fn encode<const SIDE: bool>(&self, writer: &mut Vec<u8>) {
        T::encode::<SIDE>(&**self, writer)
    }
}

/// A control message.
pub enum Event<'a> {
    Ping(&'a [u8]),
    Pong(&'a [u8]),
}

impl Frame for Event<'_> {
    open spec fn frame_opcode(&self) -> u8 {
        match self {
            Event::Ping(_) => PING,
            Event::Pong(_) => PONG,
        }
    }

    open spec fn frame_payload(&self) -> Seq<u8> {
        match self {
            Event::Ping(data) => data@,
            Event::Pong(data) => data@,
        }
    }

    fn encode<const SIDE: bool>(&self, writer: &mut Vec<u8>) {
        match self {
            Event::Ping(data) => encode::<SIDE, RandMask>(writer, true, PING, data),
            Event::Pong(data) => encode::<SIDE, RandMask>(writer, true, PONG, data),
        }
    }
}

/// The payload of a close frame: the status code in two big-endian bytes,
/// then the reason.
pub open spec fn close_payload(code: u16, reason: Seq<u8>) -> Seq<u8> {
    be_u16(code) + reason
}

/// A report that closes a connection: a status code and a reason.
pub struct Close<'a> {
    pub code: u16,
    pub reason: &'a [u8],
}

impl<'a> Frame for Close<'a> {
    open spec fn frame_opcode(&self) -> u8 {
        CLOSE
    }

    open spec fn frame_payload(&self) -> Seq<u8> {
        close_payload(self.code, self.reason@)
    }

    fn encode<const SIDE: bool>(&self, writer: &mut Vec<u8>) {
        let mut data: Vec<u8> = Vec::with_capacity(2 + self.reason.len());
        data.push(#[verifier::truncate] ((self.code >> 8u16) as u8));
        data.push(#[verifier::truncate] (self.code as u8));
        data.extend_from_slice(self.reason);
        assert(data@ =~= close_payload(self.code, self.reason@));
        encode::<SIDE, RandMask>(writer, true, CLOSE, data.as_slice());
    }
}

} // verus!
