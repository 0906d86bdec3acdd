//! Checks on the server's answer to an upgrade request.
use vstd::prelude::*;
use vstd::string::StringSliceAdditionalSpecFns;

verus! {

/// Whether `b` begins with `prefix`.
pub open spec fn starts_with(b: Seq<u8>, prefix: Seq<u8>) -> bool {
    prefix.len() <= b.len() && b.take(prefix.len() as int) == prefix
}

/// Whether `buf` begins with `prefix`.
pub fn has_prefix(buf: &[u8], prefix: &[u8]) -> (r: bool)
    ensures
        r == starts_with(buf@, prefix@),
{
    if prefix.len() > buf.len() {
        return false;
    }
    let mut i: usize = 0;
    while i < prefix.len()
        invariant
            i <= prefix@.len() <= buf@.len(),
            forall|j: int| 0 <= j < i ==> buf@[j] == prefix@[j],
        decreases prefix@.len() - i,
    {
        if buf[i] != prefix[i] {
            return false;
        }
        i = i + 1;
    }
    assert(buf@.take(prefix@.len() as int) =~= prefix@);
    true
}

/// The status line of a successful upgrade.
pub const SWITCHING_PROTOCOLS: &'static str = "HTTP/1.1 101 Switching Protocols\r\n";

/// Whether `head` begins with the status line of a successful upgrade.
pub fn is_switching_protocols(head: &[u8]) -> (r: bool)
    ensures
        r == starts_with(head@, SWITCHING_PROTOCOLS.spec_bytes()),
{
    has_prefix(head, SWITCHING_PROTOCOLS.as_bytes())
}

/// The name of the field that carries the server's accept key, in lower
/// case, with its colon.
pub const ACCEPT_FIELD: &'static str = "sec-websocket-accept:";

/// `c` in lower case, where it is an ASCII capital.
pub open spec fn ascii_lower(c: u8) -> u8 {
    if 65 <= c <= 90 { (c + 32) as u8 } else { c }
}

/// Whether a header line starts at index `i` of `b` and begins with `name`,
/// ignoring ASCII case.
pub open spec fn field_at(b: Seq<u8>, i: int, name: Seq<u8>) -> bool {
    &&& 2 <= i
    &&& i + name.len() <= b.len()
    &&& b[i - 2] == 13 && b[i - 1] == 10
    &&& forall|j: int| 0 <= j < name.len() ==> ascii_lower(#[trigger] b[i + j]) == name[j]
}

/// Whether `b` has, at index `i`, a header line that begins with `name`
/// ignoring ASCII case; `name` is in lower case.
fn field_starts_at(b: &[u8], i: usize, name: &[u8]) -> (r: bool)
    requires
        2 <= i <= b@.len(),
    ensures
        r == field_at(b@, i as int, name@),
{
    if b[i - 2] != 13 || b[i - 1] != 10 || name.len() > b.len() - i {
        return false;
    }
    let len = b.len();
    let mut j: usize = 0;
    while j < name.len()
        invariant
            len == b@.len(),
            2 <= i,
            j <= name@.len(),
            i + name@.len() <= b@.len(),
            forall|k: int| 0 <= k < j ==> ascii_lower(#[trigger] b@[i + k]) == name@[k],
        decreases name@.len() - j,
    {
        let c = b[i + j];
        let lower = if 65 <= c && c <= 90 { c + 32 } else { c };
        if lower != name[j] {
            return false;
        }
        j = j + 1;
    }
    true
}

/// Whether `head` has a header line that carries the server's accept key.
pub fn has_accept_field(head: &[u8]) -> (r: bool)
    ensures
        r == exists|i: int| field_at(head@, i, ACCEPT_FIELD.spec_bytes()),
{
    let name = ACCEPT_FIELD.as_bytes();
    let len = head.len();
    let mut i: usize = 2;
    while i < len
        invariant
            2 <= i,
            len == head@.len(),
            name@ == ACCEPT_FIELD.spec_bytes(),
            forall|k: int| 2 <= k < i ==> !field_at(head@, k, name@),
        decreases len - i,
    {
        if field_starts_at(head, i, name) {
            return true;
        }
        i = i + 1;
    }
    if len >= 2 && field_starts_at(head, len, name) {
        return true;
    }
    assert forall|k: int| !field_at(head@, k, name@) by {
        if 2 <= k < i {
        }
    }
    false
}

/// Whether the blank line that ends a response head ends at index `n` of `b`.
pub open spec fn head_ends_at(b: Seq<u8>, n: int) -> bool {
    4 <= n <= b.len() && b[n - 4] == 13 && b[n - 3] == 10 && b[n - 2] == 13 && b[n - 1] == 10
}

/// The length of the response head at the start of `buf`, blank line
/// included; `None` while the blank line has not arrived.
pub fn head_len(buf: &[u8]) -> (r: Option<usize>)
    ensures
        match r {
            Some(n) => head_ends_at(buf@, n as int) && forall|m: int|
                m < n ==> !#[trigger] head_ends_at(buf@, m),
            None => forall|m: int| !#[trigger] head_ends_at(buf@, m),
        },
{
    let len = buf.len();
    let mut n: usize = 4;
    while n < len
        invariant
            4 <= n,
            len == buf@.len(),
            forall|m: int| m < n ==> !#[trigger] head_ends_at(buf@, m),
        decreases len - n,
    {
        if buf[n - 4] == 13 && buf[n - 3] == 10 && buf[n - 2] == 13 && buf[n - 1] == 10 {
            return Some(n);
        }
        n = n + 1;
    }
    if n == len && buf[n - 4] == 13 && buf[n - 3] == 10 && buf[n - 2] == 13 && buf[n - 1] == 10 {
        return Some(n);
    }
    None
}

/// Why a server's answer to an upgrade request was refused.
#[derive(Clone, Copy, Debug, PartialEq, Eq, Structural)]
pub enum HandshakeError {
    /// The response head has not fully arrived.
    Incomplete,
    /// The response does not begin with the status line of an upgrade.
    InvalidResponse,
    /// The response carries no accept key.
    MissingAcceptKey,
}

/// Checks the server's answer to an upgrade request, at the start of `buf`,
/// and returns the length of its head: the frames begin right after it.
///
/// The head is not required to be UTF-8: HTTP lets field values carry
/// opaque bytes outside ASCII, and the check reads only the ASCII status
/// line and field name. Only the head is looked at, so frame bytes that
/// arrived with it do not decide the outcome.
pub fn check_response(buf: &[u8]) -> (r: Result<usize, HandshakeError>)
    ensures
        match r {
            Ok(n) => {
                &&& head_ends_at(buf@, n as int)
                &&& forall|m: int| m < n ==> !#[trigger] head_ends_at(buf@, m)
                &&& starts_with(buf@, SWITCHING_PROTOCOLS.spec_bytes())
                &&& exists|i: int| field_at(buf@.take(n as int), i, ACCEPT_FIELD.spec_bytes())
            },
            Err(HandshakeError::Incomplete) => forall|m: int| !#[trigger] head_ends_at(buf@, m),
            Err(HandshakeError::InvalidResponse) => exists|n: int| #[trigger]
                head_ends_at(buf@, n) && !starts_with(buf@, SWITCHING_PROTOCOLS.spec_bytes()),
            Err(HandshakeError::MissingAcceptKey) => exists|n: int|
                {
                    &&& #[trigger] head_ends_at(buf@, n)
                    &&& forall|m: int| m < n ==> !#[trigger] head_ends_at(buf@, m)
                    &&& starts_with(buf@, SWITCHING_PROTOCOLS.spec_bytes())
                    &&& !exists|i: int| field_at(buf@.take(n), i, ACCEPT_FIELD.spec_bytes())
                },
        },
{
    let n = match head_len(buf) {
        Some(n) => n,
        None => return Err(HandshakeError::Incomplete),
    };
    if !is_switching_protocols(buf) {
        return Err(HandshakeError::InvalidResponse);
    }
    let head = crate::decode::slice_range(buf, 0, n);
    assert(head@ == buf@.take(n as int));
    if !has_accept_field(head) {
        return Err(HandshakeError::MissingAcceptKey);
    }
    Ok(n)
}

/// The base64 digit for a six-bit value.
pub open spec fn b64_digit(v: u8) -> u8 {
    if v < 26 {
        (65 + v) as u8
    } else if v < 52 {
        (97 + v - 26) as u8
    } else if v < 62 {
        (48 + v - 52) as u8
    } else if v == 62 {
        43
    } else {
        47
    }
}

/// The four base64 digits of three bytes.
pub open spec fn b64_group(a: u8, b: u8, c: u8) -> Seq<u8> {
    seq![
        b64_digit(a >> 2u8),
        b64_digit(((a & 3) << 4u8) | (b >> 4u8)),
        b64_digit(((b & 15) << 2u8) | (c >> 6u8)),
        b64_digit(c & 63),
    ]
}

/// The base64 digits of the first `n` three-byte groups of `k`.
pub open spec fn b64_groups(k: Seq<u8>, n: nat) -> Seq<u8>
    decreases n,
{
    if n == 0 {
        Seq::empty()
    } else {
        let i = 3 * (n - 1);
        b64_groups(k, (n - 1) as nat) + b64_group(k[i], k[i + 1], k[i + 2])
    }
}

/// The base64 encoding, with padding, of a sixteen-byte key.
pub open spec fn b64_key(k: Seq<u8>) -> Seq<u8> {
    b64_groups(k, 5) + seq![b64_digit(k[15] >> 2u8), b64_digit((k[15] & 3) << 4u8), 61u8, 61u8]
}

fn b64_digit_of(v: u8) -> (r: u8)
    ensures
        r == b64_digit(v),
{
    if v < 26 {
        65 + v
    } else if v < 52 {
        97 + v - 26
    } else if v < 62 {
        48 + v - 52
    } else if v == 62 {
        43
    } else {
        47
    }
}

/// The value of the key field of an upgrade request: the base64 encoding of
/// sixteen (random) bytes.
pub fn sec_websocket_key(key: [u8; 16]) -> (r: Vec<u8>)
    ensures
        r@ == b64_key(key@),
{
    let mut out: Vec<u8> = Vec::with_capacity(24);
    let mut g: usize = 0;
    while g < 5
        invariant
            g <= 5,
            out@ == b64_groups(key@, g as nat),
        decreases 5 - g,
    {
        let a = key[3 * g];
        let b = key[3 * g + 1];
        let c = key[3 * g + 2];
        out.push(b64_digit_of(a >> 2u8));
        out.push(b64_digit_of(((a & 3) << 4u8) | (b >> 4u8)));
        out.push(b64_digit_of(((b & 15) << 2u8) | (c >> 6u8)));
        out.push(b64_digit_of(c & 63));
        g = g + 1;
        assert(out@ =~= b64_groups(key@, g as nat));
    }
    out.push(b64_digit_of(key[15] >> 2u8));
    out.push(b64_digit_of((key[15] & 3) << 4u8));
    out.push(61);
    out.push(61);
    assert(out@ =~= b64_key(key@));
    out
}

} // verus!
