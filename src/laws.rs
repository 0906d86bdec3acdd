//! Laws that relate the encoder and the decoder.
use vstd::prelude::*;

use crate::decode::{
    be16_value, be64_value, frame_fits, frame_payload, frame_size, header_fits, header_key,
    header_size, indicator, mask_flag, payload_len,
};
use crate::decode::apply_mask_from;
use crate::frame::{apply_mask, base_header, be_u16, be_u64, first_byte, frame_bytes, side_masks};
use crate::ws::WsView;
use crate::{CLIENT, SERVER};

verus! {

proof fn lemma_first_byte(fin: bool, opcode: u8)
    requires
        opcode < 16,
    ensures
        (first_byte(fin, opcode) & 0x80 == 0x80) == fin,
        first_byte(fin, opcode) & 0x0f == opcode,
{
    let f: u8 = if fin { 0x80u8 } else { 0u8 };
    assert(f == 0x80 || f == 0);
    assert((f | opcode) & 0x80 == f & 0x80 && (f | opcode) & 0x0f == opcode) by (bit_vector)
        requires opcode < 16, f == 0x80 || f == 0;
    assert(0x80u8 & 0x80u8 == 0x80u8 && 0u8 & 0x80u8 == 0u8) by (bit_vector);
}

proof fn lemma_second_byte(masked: bool, x: u8)
    requires
        x < 128,
    ensures
        mask_flag((if masked { 0x80u8 } else { 0u8 }) | x) == masked,
        indicator((if masked { 0x80u8 } else { 0u8 }) | x) == x,
{
    let m: u8 = if masked { 0x80u8 } else { 0u8 };
    assert(((m | x) & 0x80 == 0x80) == (m == 0x80) && (m | x) & 0x7f == x) by (bit_vector)
        requires x < 128, m == 0x80 || m == 0;
}

proof fn lemma_be16(n: u16)
    ensures
        be16_value(be_u16(n)[0], be_u16(n)[1]) == n as u64,
{
    assert(((((n >> 8u16) as u8) as u64) << 8u64) | ((n as u8) as u64) == n as u64) by (bit_vector);
}

proof fn lemma_be64(n: u64, b: Seq<u8>, i: int)
    requires
        0 <= i,
        i + 8 <= b.len(),
        b.subrange(i, i + 8) == be_u64(n),
    ensures
        be64_value(b, i) == n,
{
    assert(b[i] == b.subrange(i, i + 8)[0]);
    assert(b[i + 1] == b.subrange(i, i + 8)[1]);
    assert(b[i + 2] == b.subrange(i, i + 8)[2]);
    assert(b[i + 3] == b.subrange(i, i + 8)[3]);
    assert(b[i + 4] == b.subrange(i, i + 8)[4]);
    assert(b[i + 5] == b.subrange(i, i + 8)[5]);
    assert(b[i + 6] == b.subrange(i, i + 8)[6]);
    assert(b[i + 7] == b.subrange(i, i + 8)[7]);
    assert(((((n >> 56u64) as u8) as u64) << 56u64) | ((((n >> 48u64) as u8) as u64) << 48u64)
        | ((((n >> 40u64) as u8) as u64) << 40u64) | ((((n >> 32u64) as u8) as u64) << 32u64)
        | ((((n >> 24u64) as u8) as u64) << 24u64) | ((((n >> 16u64) as u8) as u64) << 16u64)
        | ((((n >> 8u64) as u8) as u64) << 8u64) | ((n as u8) as u64) == n) by (bit_vector);
}

/// What the header that `base_header` writes reads back as, followed by any
/// bytes `rest`.
proof fn lemma_base_header(masked: bool, fin: bool, opcode: u8, n: nat, rest: Seq<u8>)
    requires
        opcode < 16,
        n <= u64::MAX,
    ensures
        ({
            let b = base_header(masked, fin, opcode, n) + rest;
            let h = base_header(masked, fin, opcode, n);
            &&& b.len() >= 2
            &&& (b[0] & 0x80 == 0x80) == fin
            &&& b[0] & 0x0f == opcode
            &&& mask_flag(b[1]) == masked
            &&& header_size(b) == h.len() + if masked { 4nat } else { 0nat }
            &&& (b.len() >= header_size(b) ==> payload_len(b) == n)
        }),
{
    let b = base_header(masked, fin, opcode, n) + rest;
    lemma_first_byte(fin, opcode);
    if n < 126 {
        lemma_second_byte(masked, n as u8);
    } else if n < 65536 {
        lemma_second_byte(masked, 126u8);
        lemma_be16(n as u16);
    } else {
        lemma_second_byte(masked, 127u8);
        if b.len() >= header_size(b) {
            assert(b.subrange(2, 10) =~= be_u64(n as u64));
            lemma_be64(n as u64, b, 2);
        }
    }
}

/// Masking then unmasking with the same key gives back the payload, whatever
/// its length.
pub proof fn lemma_mask_involution(payload: Seq<u8>, key: [u8; 4])
    ensures
        apply_mask(apply_mask(payload, key@), key@) == payload,
{
    assert forall|i: int| 0 <= i < payload.len() implies #[trigger] apply_mask(
        apply_mask(payload, key@),
        key@,
    )[i] == payload[i] by {
        let x = payload[i];
        let k = key@[i % 4];
        assert((x ^ k) ^ k == x) by (bit_vector);
    }
    assert(apply_mask(apply_mask(payload, key@), key@) =~= payload);
}

/// Decoding a frame that either side encoded gives back its FIN flag, its
/// opcode and its payload, and takes exactly the frame's bytes.
pub proof fn lemma_round_trip(side: bool, fin: bool, opcode: u8, payload: Seq<u8>, key: [u8; 4])
    requires
        opcode < 16,
        payload.len() <= u64::MAX,
    ensures
        ({
            let b = frame_bytes(side, fin, opcode, payload, key);
            &&& frame_fits(b)
            &&& frame_size(b) == b.len()
            &&& (b[0] & 0x80 == 0x80) == fin
            &&& b[0] & 0x0f == opcode
            &&& frame_payload(b) == payload
        }),
{
    let b = frame_bytes(side, fin, opcode, payload, key);
    if side == SERVER {
        let h = base_header(false, fin, opcode, payload.len());
        lemma_base_header(false, fin, opcode, payload.len(), payload);
        assert(b.subrange(h.len() as int, b.len() as int) =~= payload);
    } else {
        let h = base_header(true, fin, opcode, payload.len());
        lemma_base_header(true, fin, opcode, payload.len(), key@ + apply_mask(payload, key@));
        assert(b =~= h + (key@ + apply_mask(payload, key@)));
        assert(header_key(b) =~= key@);
        assert(b.subrange(h.len() + 4int, b.len() as int) =~= apply_mask(payload, key@));
        lemma_mask_involution(payload, key);
    }
}

/// A frame's header takes the shortest length form: two bytes before the
/// payload (and any masking key) for fewer than 126 bytes, four for fewer than
/// 65536, ten otherwise.
pub proof fn lemma_canonical_length(side: bool, fin: bool, opcode: u8, payload: Seq<u8>, key: [u8; 4])
    ensures
        base_header(side != SERVER, fin, opcode, payload.len()).len() == if payload.len() < 126 {
            2nat
        } else if payload.len() < 65536 {
            4nat
        } else {
            10nat
        },
        frame_bytes(side, fin, opcode, payload, key).len() == base_header(
            side != SERVER,
            fin,
            opcode,
            payload.len(),
        ).len() + (if side != SERVER { 4nat } else { 0nat }) + payload.len(),
{
}

/// For the same FIN flag, opcode and payload, a client's frame has the mask
/// bit set and carries the key after the length, while a server's frame has
/// it clear and carries the payload right after the length.
pub proof fn lemma_side_asymmetry(fin: bool, opcode: u8, payload: Seq<u8>, key: [u8; 4])
    requires
        opcode < 16,
        payload.len() <= u64::MAX,
    ensures
        ({
            let c = frame_bytes(CLIENT, fin, opcode, payload, key);
            let s = frame_bytes(SERVER, fin, opcode, payload, key);
            &&& header_fits(c) && header_fits(s)
            &&& mask_flag(c[1])
            &&& !mask_flag(s[1])
            &&& header_size(c) == header_size(s) + 4
            &&& header_key(c) == key@
            &&& c.len() == s.len() + 4
            &&& s.subrange(header_size(s) as int, s.len() as int) == payload
        }),
{
    let hc = base_header(true, fin, opcode, payload.len());
    let hs = base_header(false, fin, opcode, payload.len());
    let c = frame_bytes(CLIENT, fin, opcode, payload, key);
    let s = frame_bytes(SERVER, fin, opcode, payload, key);
    lemma_base_header(true, fin, opcode, payload.len(), key@ + apply_mask(payload, key@));
    lemma_base_header(false, fin, opcode, payload.len(), payload);
    assert(c =~= hc + (key@ + apply_mask(payload, key@)));
    assert(header_key(c) =~= key@);
    assert(s.subrange(hs.len() as int, s.len() as int) =~= payload);
}

/// What the header of a frame that `side` encoded reads back as, when more
/// bytes `rest` follow the frame.
proof fn lemma_frame_prefix(
    side: bool,
    fin: bool,
    opcode: u8,
    payload: Seq<u8>,
    key: [u8; 4],
    rest: Seq<u8>,
)
    requires
        opcode < 16,
        payload.len() <= u64::MAX,
    ensures
        ({
            let f = frame_bytes(side, fin, opcode, payload, key);
            let b = f + rest;
            &&& header_fits(b)
            &&& header_size(b) + payload.len() == f.len()
            &&& payload_len(b) == payload.len()
            &&& (b[0] & 0x80 == 0x80) == fin
            &&& b[0] & 0x0f == opcode
            &&& mask_flag(b[1]) == side_masks(side)
            &&& (side_masks(side) ==> header_key(b) == key@)
            &&& b.subrange(header_size(b) as int, f.len() as int) == if side_masks(side) {
                apply_mask(payload, key@)
            } else {
                payload
            }
            &&& b.skip(f.len() as int) == rest
        }),
{
    let f = frame_bytes(side, fin, opcode, payload, key);
    let b = f + rest;
    if side_masks(side) {
        let h = base_header(true, fin, opcode, payload.len());
        lemma_base_header(true, fin, opcode, payload.len(), key@ + apply_mask(payload, key@) + rest);
        assert(b =~= h + (key@ + apply_mask(payload, key@) + rest));
        assert(header_key(b) =~= key@);
        assert(b.subrange(h.len() + 4int, f.len() as int) =~= apply_mask(payload, key@));
    } else {
        let h = base_header(false, fin, opcode, payload.len());
        lemma_base_header(false, fin, opcode, payload.len(), payload + rest);
        assert(b =~= h + (payload + rest));
        assert(b.subrange(h.len() as int, f.len() as int) =~= payload);
    }
    assert(b.skip(f.len() as int) =~= rest);
}

/// The state that a frame of `payload`, encoded by `side` and followed by
/// `rest`, leaves a reader in once its header is taken: its payload is
/// delivered unmasked, and what follows it is `rest`.
proof fn lemma_enter_encoded(
    side: bool,
    fin: bool,
    opcode: u8,
    payload: Seq<u8>,
    key: [u8; 4],
    rest: Seq<u8>,
    v: WsView,
)
    requires
        opcode < 16,
        payload.len() <= u64::MAX,
        v.input == frame_bytes(side, fin, opcode, payload, key) + rest,
    ensures
        ({
            let e = v.enter_frame();
            &&& header_fits(v.input)
            &&& v.input[0] & 0x0f == opcode
            &&& payload_len(v.input) == payload.len()
            &&& e.len == payload.len()
            &&& e.fin == fin
            &&& e.offset == 0
            &&& e.unmasked(e.input.take(payload.len() as int)) == payload
            &&& e.input.skip(payload.len() as int) == rest
        }),
{
    let f = frame_bytes(side, fin, opcode, payload, key);
    lemma_frame_prefix(side, fin, opcode, payload, key, rest);
    let e = v.enter_frame();
    assert(e.input.take(payload.len() as int) =~= v.input.subrange(
        header_size(v.input) as int,
        f.len() as int,
    ));
    assert(e.input.skip(payload.len() as int) =~= v.input.skip(f.len() as int));
    if side_masks(side) {
        lemma_mask_involution(payload, key);
        assert(apply_mask_from(apply_mask(payload, key@), key@, 0) =~= apply_mask(
            apply_mask(payload, key@),
            key@,
        ));
    }
}

/// A text message sent as a first frame with `first` and a final
/// continuation frame with `second` is read back as one text message: its
/// first frame delivers `first`; once that is consumed, the reader moves on
/// to the continuation frame, which delivers `second`; and nothing of the two
/// frames is left behind.
pub proof fn lemma_fragments_reassemble(
    side: bool,
    first: Seq<u8>,
    second: Seq<u8>,
    key1: [u8; 4],
    key2: [u8; 4],
)
    requires
        first.len() <= usize::MAX,
        second.len() <= usize::MAX,
    ensures
        ({
            let input = frame_bytes(side, false, 1, first, key1) + frame_bytes(
                side,
                true,
                0,
                second,
                key2,
            );
            let v0 = WsView { input, len: 0, fin: true, key: None, offset: 0 };
            let v1 = v0.enter_frame();
            let v2 = v1.consume(first.len());
            &&& header_fits(input)
            &&& input[0] & 0x0f == 1
            &&& payload_len(input) == first.len()
            &&& v1.len == first.len()
            &&& v1.unmasked(v1.input.take(first.len() as int)) == first
            &&& v2.next_frame() is Ok
            &&& v2.next_frame()->Ok_0.len == second.len()
            &&& v2.next_frame()->Ok_0.fin
            &&& v2.next_frame()->Ok_0.unmasked(
                v2.next_frame()->Ok_0.input.take(second.len() as int),
            ) == second
            &&& v2.next_frame()->Ok_0.input.skip(second.len() as int).len() == 0
        }),
{
    let f2 = frame_bytes(side, true, 0, second, key2);
    let input = frame_bytes(side, false, 1, first, key1) + f2;
    let v0 = WsView { input, len: 0, fin: true, key: None, offset: 0 };
    lemma_enter_encoded(side, false, 1, first, key1, f2, v0);
    let v1 = v0.enter_frame();
    let v2 = v1.consume(first.len());
    assert(v2.input == f2 + Seq::<u8>::empty()) by {
        assert(f2 + Seq::<u8>::empty() =~= f2);
    }
    lemma_enter_encoded(side, true, 0, second, key2, Seq::empty(), v2);
    lemma_frame_prefix(side, true, 0, second, key2, Seq::empty());
    let v3 = v2.enter_frame();
    assert(v3.next_frame() == Ok::<WsView, crate::decode::FrameError>(v3)) by {
        if second.len() == 0 {
            assert(v3.fin);
        }
    }
    assert(v2.next_frame() == v3.next_frame());
}

/// Reading payload bytes of a frame in two steps, `a` bytes then `b`,
/// delivers the same bytes and leaves the same state as reading `a + b`
/// bytes at once: unmasking keeps its place across reads.
pub proof fn lemma_reads_compose(v: WsView, a: nat, b: nat)
    requires
        a + b <= v.len,
        a + b <= v.input.len(),
    ensures
        v.unmasked(v.input.take(a as int)) + v.consume(a).unmasked(
            v.consume(a).input.take(b as int),
        ) == v.unmasked(v.input.take((a + b) as int)),
        v.consume(a).consume(b) == v.consume(a + b),
{
    let w = v.consume(a);
    let whole = v.unmasked(v.input.take((a + b) as int));
    let parts = v.unmasked(v.input.take(a as int)) + w.unmasked(w.input.take(b as int));
    assert forall|j: int| 0 <= j < whole.len() implies #[trigger] parts[j] == whole[j] by {
        if j >= a {
            assert(w.input.take(b as int)[j - a] == v.input.take((a + b) as int)[j]);
            assert(w.offset + (j - a) == v.offset + j);
        }
    }
    assert(parts =~= whole);
    assert(v.consume(a).consume(b).input =~= v.consume(a + b).input);
}

} // verus!
