//! The read side of a connection: message headers, fragment reassembly and
//! unmasking, over bytes that the transport has delivered.
//!
//! The connection does no I/O: its owner hands it the bytes that arrive with
//! `feed`. A read that needs bytes that have not arrived, or that meets a
//! framing error, changes nothing, so it can be retried after more bytes
//! are fed; a read is never left half done.
use vstd::prelude::*;

use crate::decode::{
    apply_mask_from, describes, header_fits, header_key, header_size, mask_flag, payload_len,
    read_header, slice_range, FrameError,
};
use crate::CLIENT;

verus! {

/// The kind of a received message, from the opcode of its first frame.
#[derive(Clone, Copy, Debug, PartialEq, Eq, Structural)]
pub enum DataType {
    Text,
    Binary,
}

/// The read state of a connection, as a mathematical value.
pub struct WsView {
    /// Bytes delivered by the transport and not consumed yet.
    pub input: Seq<u8>,
    /// Payload bytes of the current frame not delivered yet.
    pub len: nat,
    /// Whether the current frame is the last of its message.
    pub fin: bool,
    /// The masking key of the current frame, if it is masked.
    pub key: Option<Seq<u8>>,
    /// Payload bytes of the current frame delivered already.
    pub offset: nat,
}

/// One end of a WebSocket connection, on side `SIDE`, holding the bytes that
/// its transport has delivered and the state of the message being read.
pub struct Websocket<const SIDE: bool> {
    input: Vec<u8>,
    len: usize,
    fin: bool,
    key: Option<[u8; 4]>,
    offset: usize,
}

impl<const SIDE: bool> View for Websocket<SIDE> {
    type V = WsView;

    closed spec fn view(&self) -> WsView {
        WsView {
            input: self.input@,
            len: self.len as nat,
            fin: self.fin,
            key: match self.key {
                Some(k) => Some(k@),
                None => None,
            },
            offset: self.offset as nat,
        }
    }
}

/// The view of a key that a header holds.
pub open spec fn key_view(key: Option<[u8; 4]>) -> Option<Seq<u8>> {
    match key {
        Some(k) => Some(k@),
        None => None,
    }
}

impl WsView {
    /// The counts fit the machine and a key has four bytes.
    pub open spec fn wf(self) -> bool {
        &&& self.offset + self.len <= usize::MAX
        &&& self.input.len() <= usize::MAX
        &&& (self.key.is_some() ==> self.key.unwrap().len() == 4)
    }

    /// The state after taking the header at the start of the input as the
    /// current frame.
    pub open spec fn enter_frame(self) -> WsView {
        WsView {
            input: self.input.skip(header_size(self.input) as int),
            len: payload_len(self.input) as nat,
            fin: self.input[0] & 0x80 == 0x80,
            key: if mask_flag(self.input[1]) { Some(header_key(self.input)) } else { None },
            offset: 0,
        }
    }

    /// The state in which payload bytes can be delivered: past any
    /// continuation headers that follow an exhausted, non-final frame.
    pub open spec fn next_frame(self) -> Result<WsView, FrameError>
        decreases self.input.len(),
    {
        if self.len > 0 || self.fin {
            Ok(self)
        } else if !header_fits(self.input) {
            Err(FrameError::Incomplete)
        } else if self.input[0] & 0x0f != 0 {
            Err(FrameError::UnexpectedOpcode)
        } else if payload_len(self.input) > usize::MAX {
            Err(FrameError::TooLarge)
        } else {
            self.enter_frame().next_frame()
        }
    }

    /// `data` unmasked with this state's key, if any, from its offset.
    pub open spec fn unmasked(self, data: Seq<u8>) -> Seq<u8> {
        match self.key {
            Some(k) => apply_mask_from(data, k, self.offset as int),
            None => data,
        }
    }

    /// The state after delivering `amt` payload bytes of the current frame.
    pub open spec fn consume(self, amt: nat) -> WsView {
        WsView {
            input: self.input.skip(amt as int),
            len: (self.len - amt) as nat,
            offset: self.offset + amt,
            ..self
        }
    }
}

/// The least of three counts.
pub open spec fn min3(a: nat, b: nat, c: nat) -> nat {
    if a <= b && a <= c { a } else if b <= c { b } else { c }
}

impl<const SIDE: bool> Websocket<SIDE> {
    /// A connection with nothing received and no message in progress.
    pub fn new() -> (r: Self)
        ensures
            r@ == (WsView { input: Seq::empty(), len: 0, fin: true, key: None, offset: 0 }),
    {
        Websocket { input: Vec::new(), len: 0, fin: true, key: None, offset: 0 }
    }

    /// Payload bytes of the current frame not delivered yet.
    pub fn frame_remaining(&self) -> (r: usize)
        ensures
            r == self@.len,
    {
        self.len
    }

    /// The number of bytes delivered by the transport and not consumed yet.
    pub fn buffered(&self) -> (r: usize)
        ensures
            r == self@.input.len(),
    {
        self.input.len()
    }

    /// Appends bytes that the transport delivered.
    pub fn feed(&mut self, bytes: &[u8])
        requires
            old(self)@.wf(),
            old(self)@.input.len() + bytes@.len() <= usize::MAX,
        ensures
            final(self)@ == (WsView { input: old(self)@.input + bytes@, ..old(self)@ }),
            final(self)@.wf(),
    {
        self.input.extend_from_slice(bytes);
        assert(self.input@ =~= old(self)@.input + bytes@);
    }

    /// Drops the first `n` buffered bytes.
    fn skip_input(&mut self, n: usize)
        requires
            n <= old(self).input@.len(),
        ensures
            final(self).input@ == old(self).input@.skip(n as int),
            final(self).len == old(self).len,
            final(self).fin == old(self).fin,
            final(self).key == old(self).key,
            final(self).offset == old(self).offset,
    {
        let rest = self.input.split_off(n);
        self.input = rest;
    }

    /// Reads the header of the first frame of a message, which must be a text
    /// or a binary frame, and makes it the current frame. On an error nothing
    /// changes.
    ///
    /// The mask bit is taken as the peer declared it: a masked frame is
    /// unmasked and an unmasked one is read as it is, whichever side this
    /// connection is on; holding the peer to its side's convention is left
    /// to the caller.
    pub fn read_data_frame_header(&mut self) -> (r: Result<DataType, FrameError>)
        requires
            old(self)@.wf(),
            old(self)@.len == 0,
        ensures
            final(self)@.wf(),
            ({
                let v = old(self)@;
                if !header_fits(v.input) {
                    r == Err::<DataType, FrameError>(FrameError::Incomplete) && final(self)@ == v
                } else if v.input[0] & 0x0f != 1 && v.input[0] & 0x0f != 2 {
                    r == Err::<DataType, FrameError>(FrameError::UnexpectedOpcode) && final(self)@ == v
                } else if payload_len(v.input) > usize::MAX {
                    r == Err::<DataType, FrameError>(FrameError::TooLarge) && final(self)@ == v
                } else {
                    &&& r == Ok::<DataType, FrameError>(
                        if v.input[0] & 0x0f == 1 { DataType::Text } else { DataType::Binary },
                    )
                    &&& final(self)@ == v.enter_frame()
                }
            }),
    {
        let h = read_header(self.input.as_slice())?;
        let ty = if h.opcode == 1 {
            DataType::Text
        } else if h.opcode == 2 {
            DataType::Binary
        } else {
            return Err(FrameError::UnexpectedOpcode);
        };
        if h.len > usize::MAX as u64 {
            return Err(FrameError::TooLarge);
        }
        self.skip_input(h.size);
        self.len = h.len as usize;
        self.fin = h.fin;
        self.key = h.key;
        self.offset = 0;
        proof {
            assert(describes(h, old(self)@.input));
            assert(self@ == old(self)@.enter_frame());
        }
        Ok(ty)
    }

    /// Where the next payload bytes come from: the position in the input
    /// past any continuation headers, and the state of the frame there.
    fn locate_payload(&self) -> (r: Result<(usize, usize, bool, Option<[u8; 4]>, usize), FrameError>)
        requires
            self@.wf(),
        ensures
            match r {
                Ok((pos, len, fin, key, offset)) => {
                    let v = WsView {
                        input: self@.input.skip(pos as int),
                        len: len as nat,
                        fin,
                        key: key_view(key),
                        offset: offset as nat,
                    };
                    &&& pos <= self@.input.len()
                    &&& v.wf()
                    &&& self@.next_frame() == Ok::<WsView, FrameError>(v)
                },
                Err(e) => self@.next_frame() == Err::<WsView, FrameError>(e),
            },
    {
        let mut pos: usize = 0;
        let mut len = self.len;
        let mut fin = self.fin;
        let mut key = self.key;
        let mut offset = self.offset;
        assert(self.input@.skip(0) =~= self.input@);
        while len == 0 && !fin
            invariant
                self@.wf(),
                pos <= self.input@.len(),
                ({
                    let cur = WsView {
                        input: self.input@.skip(pos as int),
                        len: len as nat,
                        fin,
                        key: key_view(key),
                        offset: offset as nat,
                    };
                    cur.wf() && cur.next_frame() == self@.next_frame()
                }),
            decreases self.input@.len() - pos,
        {
            let ghost cur = WsView {
                input: self.input@.skip(pos as int),
                len: len as nat,
                fin,
                key: key_view(key),
                offset: offset as nat,
            };
            let rest = slice_range(self.input.as_slice(), pos, self.input.len());
            assert(rest@ == cur.input);
            let h = read_header(rest)?;
            if h.opcode != 0 {
                return Err(FrameError::UnexpectedOpcode);
            }
            if h.len > usize::MAX as u64 {
                return Err(FrameError::TooLarge);
            }
            pos = pos + h.size;
            len = h.len as usize;
            fin = h.fin;
            key = h.key;
            offset = 0;
            proof {
                assert(self.input@.skip(pos as int) =~= cur.input.skip(h.size as int));
                assert(key_view(key) == cur.enter_frame().key);
            }
        }
        Ok((pos, len, fin, key, offset))
    }

    /// Delivers up to `buf.len()` payload bytes of the message being read
    /// into the front of `buf`, unmasked, and returns their number. When the
    /// current frame is exhausted and is not the last of its message, the
    /// headers of the continuation frames that follow are read first. Zero
    /// bytes are returned once the message is complete (or when `buf` is
    /// empty). When more input is needed, or on a framing error, nothing
    /// changes.
    ///
    /// The mask bit is taken as the peer declared it: a masked frame is
    /// unmasked and an unmasked one is read as it is, whichever side this
    /// connection is on; holding the peer to its side's convention is left
    /// to the caller.
    pub fn read_payload(&mut self, buf: &mut [u8]) -> (r: Result<usize, FrameError>)
        requires
            old(self)@.wf(),
        ensures
            final(self)@.wf(),
            match old(self)@.next_frame() {
                Err(e) => r == Err::<usize, FrameError>(e) && final(self)@ == old(self)@
                    && final(buf)@ == old(buf)@,
                Ok(v) => if v.len > 0 && old(buf)@.len() > 0 && v.input.len() == 0 {
                    &&& r == Err::<usize, FrameError>(FrameError::Incomplete)
                    &&& final(self)@ == old(self)@
                    &&& final(buf)@ == old(buf)@
                } else {
                    let amt = min3(old(buf)@.len(), v.len, v.input.len());
                    &&& r == Ok::<usize, FrameError>(amt as usize)
                    &&& final(self)@ == v.consume(amt)
                    &&& final(buf)@ == v.unmasked(v.input.take(amt as int)) + old(buf)@.skip(
                        amt as int,
                    )
                },
            },
    {
        let (pos, len, fin, key, offset) = self.locate_payload()?;
        let ghost v = WsView {
            input: self.input@.skip(pos as int),
            len: len as nat,
            fin,
            key: key_view(key),
            offset: offset as nat,
        };
        let avail = self.input.len() - pos;
        if len > 0 && buf.len() > 0 && avail == 0 {
            return Err(FrameError::Incomplete);
        }
        let mut amt = buf.len();
        if len < amt {
            amt = len;
        }
        if avail < amt {
            amt = avail;
        }
        let mut i: usize = 0;
        while i < amt
            invariant
                0 <= i <= amt,
                self.input@.len() <= usize::MAX,
                amt <= buf@.len(),
                buf@.len() == old(buf)@.len(),
                pos + amt <= self.input@.len(),
                offset + amt <= usize::MAX,
                v.input == self.input@.skip(pos as int),
                v.key == key_view(key),
                v.offset == offset,
                forall|j: int| 0 <= j < i ==> buf@[j] == v.unmasked(v.input.take(amt as int))[j],
                forall|j: int| i <= j < buf@.len() ==> buf@[j] == old(buf)@[j],
            decreases amt - i,
        {
            let b = self.input[pos + i];
            let b = match key {
                Some(k) => b ^ k[(offset + i) % 4],
                None => b,
            };
            buf[i] = b;
            i = i + 1;
        }
        assert(buf@ =~= v.unmasked(v.input.take(amt as int)) + old(buf)@.skip(amt as int));
        self.skip_input(pos + amt);
        self.len = len - amt;
        self.fin = fin;
        self.key = key;
        self.offset = offset + amt;
        assert(self.input@ =~= v.input.skip(amt as int));
        Ok(amt)
    }
}

impl Websocket<CLIENT> {
    /// Starts receiving a message: reads the header of its first frame and
    /// returns the message's kind with a handle that reads its payload.
    ///
    /// The mask bit is taken as the peer declared it: a masked frame is
    /// unmasked and an unmasked one is read as it is, whichever side this
    /// connection is on; holding the peer to its side's convention is left
    /// to the caller.
    pub fn recv(&mut self) -> (r: Result<Data<'_>, FrameError>)
        requires
            old(self)@.wf(),
            old(self)@.len == 0,
        ensures
            match r {
                Ok(d) => {
                    &&& header_fits(old(self)@.input)
                    &&& (old(self)@.input[0] & 0x0f == 1 ==> d.ty == DataType::Text)
                    &&& (old(self)@.input[0] & 0x0f == 2 ==> d.ty == DataType::Binary)
                    &&& (old(self)@.input[0] & 0x0f == 1 || old(self)@.input[0] & 0x0f == 2)
                    &&& payload_len(old(self)@.input) <= usize::MAX
                    &&& d.view() == old(self)@.enter_frame()
                    &&& d.view().wf()
                    &&& final(self)@ == final(d.ws)@
                },
                Err(e) => {
                    &&& final(self)@ == old(self)@
                    &&& (e == FrameError::Incomplete <==> !header_fits(old(self)@.input))
                    &&& (e == FrameError::UnexpectedOpcode <==> header_fits(old(self)@.input)
                        && old(self)@.input[0] & 0x0f != 1 && old(self)@.input[0] & 0x0f != 2)
                    &&& (e == FrameError::TooLarge <==> header_fits(old(self)@.input) && (
                    old(self)@.input[0] & 0x0f == 1 || old(self)@.input[0] & 0x0f == 2)
                        && payload_len(old(self)@.input) > usize::MAX)
                },
            },
    {
        let ty = self.read_data_frame_header()?;
        Ok(Data { ty, ws: self })
    }
}

/// A message being received: its kind, and the connection that its payload
/// is read from.
pub struct Data<'a> {
    pub ty: DataType,
    /// The connection, positioned in the message's payload.
    pub ws: &'a mut Websocket<CLIENT>,
}

impl Data<'_> {
    /// The read state of the connection that the payload is read from.
    pub open spec fn view(&self) -> WsView {
        (*self.ws)@
    }

    /// Reads payload bytes of the message into `buf`, as
    /// `Websocket::read_payload` does.
    pub fn read(&mut self, buf: &mut [u8]) -> (r: Result<usize, FrameError>)
        requires
            old(self).view().wf(),
        ensures
            final(self).view().wf(),
            final(self).ty == old(self).ty,
            match old(self).view().next_frame() {
                Err(e) => r == Err::<usize, FrameError>(e) && final(self).view() == old(self).view()
                    && final(buf)@ == old(buf)@,
                Ok(v) => if v.len > 0 && old(buf)@.len() > 0 && v.input.len() == 0 {
                    &&& r == Err::<usize, FrameError>(FrameError::Incomplete)
                    &&& final(self).view() == old(self).view()
                    &&& final(buf)@ == old(buf)@
                } else {
                    let amt = min3(old(buf)@.len(), v.len, v.input.len());
                    &&& r == Ok::<usize, FrameError>(amt as usize)
                    &&& final(self).view() == v.consume(amt)
                    &&& final(buf)@ == v.unmasked(v.input.take(amt as int)) + old(buf)@.skip(
                        amt as int,
                    )
                },
            },
    {
        self.ws.read_payload(buf)
    }
}

} // verus!
