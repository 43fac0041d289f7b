//! The binary envelope: a self-describing table with two optional string
//! slots, `app` (the source tag) and `payload`.
//!
//! Layout of an encoded envelope, all integers little-endian:
//!
//! | offset | bytes                                   |
//! |--------|-----------------------------------------|
//! | 0      | `u32` offset of the table (12)          |
//! | 4      | vtable: `u16` 8, 12, 4, 8               |
//! | 12     | table: `i32` 8 (back to the vtable)     |
//! | 16     | `u32` forward offset to the app string  |
//! | 20     | `u32` forward offset to the payload     |
//! | 24     | payload string block, then app block    |
//!
//! A string block is a `u32` byte length, the UTF-8 bytes, a zero byte and
//! zero padding up to a multiple of four.
use vstd::prelude::*;
use vstd::arithmetic::div_mod::*;
use vstd::utf8::*;

verus! {

/// Largest accepted byte length of the `app` field.
pub const MAX_APP_LEN: usize = 32;

/// Largest accepted byte length of the `payload` field.
pub const MAX_PAYLOAD_LEN: usize = 1024;

/// Slot of the `app` field: its byte position inside the vtable.
pub const VT_APP: usize = 4;

/// Slot of the `payload` field: its byte position inside the vtable.
pub const VT_PAYLOAD: usize = 6;

/// Why an envelope could not be encoded.
#[derive(Debug, Clone, Copy, PartialEq, Eq, Structural)]
pub enum MessageError {
    AppNameTooLong,
    PayloadTooLong,
}

/// Two little-endian bytes of `x`.
pub open spec fn le16(x: nat) -> Seq<u8> {
    seq![(x % 256) as u8, ((x / 256) % 256) as u8]
}

/// Four little-endian bytes of `x`.
pub open spec fn le32(x: nat) -> Seq<u8> {
    seq![
        (x % 256) as u8,
        ((x / 256) % 256) as u8,
        ((x / 65536) % 256) as u8,
        ((x / 16777216) % 256) as u8,
    ]
}

/// Zero bytes that follow the terminator of a string of `len` bytes, so
/// that the block ends on a multiple of four.
pub open spec fn string_padding(len: nat) -> nat {
    (3 - (len % 4)) as nat
}

/// A string as stored in the buffer: length, bytes, terminator, padding.
pub open spec fn string_block(bytes: Seq<u8>) -> Seq<u8> {
    le32(bytes.len()) + bytes + Seq::new(1 + string_padding(bytes.len()), |i: int| 0u8)
}

/// The bytes of an envelope whose two fields hold `app` and `payload`.
pub open spec fn envelope_bytes(app: Seq<u8>, payload: Seq<u8>) -> Seq<u8> {
    le32(12) + le16(8) + le16(12) + le16(4) + le16(8) + le32(8)
        + le32(string_block(payload).len() + 8) + le32(4) + string_block(payload)
        + string_block(app)
}

/// What encoding `app` and `payload` yields: the first field over its bound
/// decides the error.
pub open spec fn encode_result(app: Seq<char>, payload: Seq<char>) -> Result<Seq<u8>, MessageError> {
    if encode_utf8(app).len() > MAX_APP_LEN {
        Err(MessageError::AppNameTooLong)
    } else if encode_utf8(payload).len() > MAX_PAYLOAD_LEN {
        Err(MessageError::PayloadTooLong)
    } else {
        Ok(envelope_bytes(encode_utf8(app), encode_utf8(payload)))
    }
}

fn push_u16(out: &mut Vec<u8>, x: u16)
    ensures
        final(out)@ == old(out)@ + le16(x as nat),
{
    out.push((x % 256) as u8);
    out.push(((x / 256) % 256) as u8);
    assert(final(out)@ =~= old(out)@ + le16(x as nat));
}

fn push_u32(out: &mut Vec<u8>, x: u32)
    ensures
        final(out)@ == old(out)@ + le32(x as nat),
{
    out.push((x % 256) as u8);
    out.push(((x / 256) % 256) as u8);
    out.push(((x / 65536) % 256) as u8);
    out.push(((x / 16777216) % 256) as u8);
    assert(final(out)@ =~= old(out)@ + le32(x as nat));
}

/// Appends the string block of `bytes`.
fn push_string_block(out: &mut Vec<u8>, bytes: &[u8])
    requires
        bytes@.len() <= MAX_PAYLOAD_LEN,
    ensures
        final(out)@ == old(out)@ + string_block(bytes@),
{
    let n = bytes.len();
    push_u32(out, n as u32);
    let ghost start = out@;
    let mut i: usize = 0;
    while i < n
        invariant
            n == bytes@.len(),
            i <= n,
            out@ == start + bytes@.subrange(0, i as int),
        decreases n - i,
    {
        out.push(bytes[i]);
        i = i + 1;
        assert(out@ =~= start + bytes@.subrange(0, i as int));
    }
    let ghost with_bytes = out@;
    let pad = 3 - n % 4;
    out.push(0u8);
    let mut j: usize = 0;
    while j < pad
        invariant
            pad == 3 - n % 4,
            j <= pad,
            out@ == with_bytes + Seq::new(1 + j as nat, |k: int| 0u8),
        decreases pad - j,
    {
        out.push(0u8);
        j = j + 1;
        assert(out@ =~= with_bytes + Seq::new(1 + j as nat, |k: int| 0u8));
    }
    assert(bytes@.subrange(0, n as int) =~= bytes@);
    assert(final(out)@ =~= old(out)@ + string_block(bytes@));
}

/// Encodes `app` and `payload` into an envelope.
///
/// Byte lengths (not character counts) are checked before anything is built:
/// `app` may hold at most 32 bytes and `payload` at most 1024.
pub fn send_message(app: &str, payload: &str) -> (r: Result<Vec<u8>, MessageError>)
    ensures
        match (r, encode_result(app@, payload@)) {
            (Ok(v), Ok(b)) => v@ == b,
            (Err(e), Err(f)) => e == f,
            _ => false,
        },
{
    let app_bytes = app.as_bytes();
    let payload_bytes = payload.as_bytes();
    if app_bytes.len() > MAX_APP_LEN {
        return Err(MessageError::AppNameTooLong);
    }
    if payload_bytes.len() > MAX_PAYLOAD_LEN {
        return Err(MessageError::PayloadTooLong);
    }
    let n = payload_bytes.len();
    let payload_block_len = (8 + n - n % 4) as u32;
    let mut out: Vec<u8> = Vec::new();
    push_u32(&mut out, 12);
    push_u16(&mut out, 8);
    push_u16(&mut out, 12);
    push_u16(&mut out, 4);
    push_u16(&mut out, 8);
    push_u32(&mut out, 8);
    push_u32(&mut out, payload_block_len + 8);
    push_u32(&mut out, 4);
    push_string_block(&mut out, payload_bytes);
    push_string_block(&mut out, app_bytes);
    assert(string_block(payload_bytes@).len() == payload_block_len);
    assert(out@ =~= envelope_bytes(app_bytes@, payload_bytes@));
    Ok(out)
}

/// Why a buffer could not be read as an envelope.
#[derive(Debug, Clone, Copy, PartialEq, Eq, Structural)]
pub enum DecodeError {
    Malformed,
}

/// A decoded envelope. Either field may be absent.
#[derive(Debug)]
pub struct Message {
    pub app: Option<String>,
    pub payload: Option<String>,
}

/// The characters of an optional string.
pub open spec fn opt_chars(s: Option<String>) -> Option<Seq<char>> {
    match s {
        Some(t) => Some(t@),
        None => None,
    }
}

impl View for Message {
    type V = (Option<Seq<char>>, Option<Seq<char>>);

    open spec fn view(&self) -> (Option<Seq<char>>, Option<Seq<char>>) {
        (opt_chars(self.app), opt_chars(self.payload))
    }
}

impl Message {
    /// The `app` field, if present.
    pub fn app(&self) -> (r: Option<&str>)
        ensures
            r.is_some() == self.app.is_some(),
            r matches Some(s) ==> s@ == self.app.unwrap()@,
    {
        match &self.app {
            Some(s) => Some(s.as_str()),
            None => None,
        }
    }

    /// The `payload` field, if present.
    pub fn payload(&self) -> (r: Option<&str>)
        ensures
            r.is_some() == self.payload.is_some(),
            r matches Some(s) ==> s@ == self.payload.unwrap()@,
    {
        match &self.payload {
            Some(s) => Some(s.as_str()),
            None => None,
        }
    }
}

/// A scalar of `size` bytes at `pos` is aligned and lies inside `b`.
pub open spec fn fits(b: Seq<u8>, pos: int, size: int) -> bool {
    0 <= pos && pos % size == 0 && pos + size <= b.len()
}

/// The little-endian `u16` at `pos`.
pub open spec fn u16_at(b: Seq<u8>, pos: int) -> int {
    b[pos] as int + 256 * b[pos + 1] as int
}

/// The little-endian `u32` at `pos`.
pub open spec fn u32_at(b: Seq<u8>, pos: int) -> int {
    b[pos] as int + 256 * b[pos + 1] as int + 65536 * b[pos + 2] as int + 16777216 * b[pos
        + 3] as int
}

/// A `u32` read as a two's complement `i32`.
pub open spec fn as_i32(u: int) -> int {
    if u >= 0x8000_0000 {
        u - 0x1_0000_0000
    } else {
        u
    }
}

/// The string referenced by the forward offset stored at `pos`: it must lie
/// inside `b`, be followed by a zero byte and be well-formed UTF-8.
pub open spec fn string_at(b: Seq<u8>, pos: int) -> Option<Seq<char>> {
    if !fits(b, pos, 4) {
        None
    } else {
        let start = pos + u32_at(b, pos);
        if !fits(b, start, 4) {
            None
        } else {
            let len = u32_at(b, start);
            let data = start + 4;
            if data + len < b.len() && b[data + len] == 0 && valid_utf8(
                b.subrange(data, data + len),
            ) {
                Some(decode_utf8(b.subrange(data, data + len)))
            } else {
                None
            }
        }
    }
}

/// The string field in vtable slot `slot` of the table at `table`:
/// `Some(None)` when the vtable does not list it, `None` when it is listed
/// but does not hold a valid string.
pub open spec fn field_at(b: Seq<u8>, table: int, vtable: int, vtable_len: int, slot: int) -> Option<
    Option<Seq<char>>,
> {
    if slot < vtable_len && u16_at(b, vtable + slot) > 0 {
        match string_at(b, table + u16_at(b, vtable + slot)) {
            Some(s) => Some(Some(s)),
            None => None,
        }
    } else {
        Some(None)
    }
}

/// The fields of the table reached through the root offset at `root`, or
/// `None` when the bytes there do not form a well-formed envelope.
pub open spec fn decode_from(b: Seq<u8>, root: int) -> Option<
    (Option<Seq<char>>, Option<Seq<char>>),
> {
    if !fits(b, root, 4) {
        None
    } else {
        let table = root + u32_at(b, root);
        if !fits(b, table, 4) {
            None
        } else {
            let vtable = table - as_i32(u32_at(b, table));
            if !fits(b, vtable, 2) {
                None
            } else {
                let vlen = u16_at(b, vtable);
                if (vtable + vlen) % 2 != 0 || vtable + vlen > b.len() {
                    None
                } else {
                    match (
                        field_at(b, table, vtable, vlen, VT_APP as int),
                        field_at(b, table, vtable, vlen, VT_PAYLOAD as int),
                    ) {
                        (Some(a), Some(p)) => Some((a, p)),
                        _ => None,
                    }
                }
            }
        }
    }
}

/// The fields of the envelope in `b`, or `None` when `b` is not a
/// well-formed envelope.
pub open spec fn decode_fields(b: Seq<u8>) -> Option<(Option<Seq<char>>, Option<Seq<char>>)> {
    decode_from(b, 0)
}

/// The fields of a size-prefixed envelope: a `u32` holding the length of
/// the rest of `b`, then an envelope whose offsets count from `b`'s start.
pub open spec fn decode_size_prefixed(b: Seq<u8>) -> Option<
    (Option<Seq<char>>, Option<Seq<char>>),
> {
    if fits(b, 0, 4) && u32_at(b, 0) == b.len() - 4 {
        decode_from(b, 4)
    } else {
        None
    }
}

fn read_u16(b: &[u8], pos: usize) -> (r: Option<u16>)
    ensures
        r.is_some() == fits(b@, pos as int, 2),
        r matches Some(x) ==> x as int == u16_at(b@, pos as int),
{
    if pos % 2 != 0 || b.len() < 2 || pos > b.len() - 2 {
        return None;
    }
    let lo = b[pos] as u16;
    let hi = b[pos + 1] as u16;
    assert(lo + 256 * hi <= 65535) by (nonlinear_arith)
        requires
            lo <= 255,
            hi <= 255,
    ;
    Some(lo + 256 * hi)
}

fn read_u32(b: &[u8], pos: usize) -> (r: Option<u32>)
    ensures
        r.is_some() == fits(b@, pos as int, 4),
        r matches Some(x) ==> x as int == u32_at(b@, pos as int),
{
    if pos % 4 != 0 || b.len() < 4 || pos > b.len() - 4 {
        return None;
    }
    let b0 = b[pos] as u32;
    let b1 = b[pos + 1] as u32;
    let b2 = b[pos + 2] as u32;
    let b3 = b[pos + 3] as u32;
    assert(b0 + 256 * b1 + 65536 * b2 + 16777216 * b3 <= 0xffff_ffff) by (nonlinear_arith)
        requires
            b0 <= 255,
            b1 <= 255,
            b2 <= 255,
            b3 <= 255,
    ;
    Some(b0 + 256 * b1 + 65536 * b2 + 16777216 * b3)
}

/// Relies on `String::from_utf8`: it accepts exactly the well-formed UTF-8
/// sequences and returns the characters they encode.
#[verifier::external_body]
fn string_from_utf8(bytes: Vec<u8>) -> (r: Option<String>)
    ensures
        r.is_some() == valid_utf8(bytes@),
        r matches Some(s) ==> s@ == decode_utf8(bytes@),
{
    String::from_utf8(bytes).ok()
}

fn read_string(b: &[u8], pos: usize) -> (r: Option<String>)
    ensures
        opt_chars(r) == string_at(b@, pos as int),
{
    let off = match read_u32(b, pos) {
        Some(x) => x,
        None => return None,
    };
    let len = b.len();
    if off as usize > len - pos {
        return None;
    }
    let start = pos + off as usize;
    let slen = match read_u32(b, start) {
        Some(x) => x,
        None => return None,
    };
    let data = start + 4;
    if slen as usize >= len - data {
        return None;
    }
    let end = data + slen as usize;
    if b[end] != 0 {
        return None;
    }
    let mut bytes: Vec<u8> = Vec::new();
    let mut i: usize = data;
    while i < end
        invariant
            data <= i <= end,
            end < b@.len(),
            bytes@ == b@.subrange(data as int, i as int),
        decreases end - i,
    {
        bytes.push(b[i]);
        i = i + 1;
        assert(bytes@ =~= b@.subrange(data as int, i as int));
    }
    string_from_utf8(bytes)
}

fn read_field(b: &[u8], table: usize, vtable: usize, vlen: usize, slot: usize) -> (r: Option<
    Option<String>,
>)
    requires
        fits(b@, table as int, 4),
        fits(b@, vtable as int, 2),
        vlen as int == u16_at(b@, vtable as int),
        (vtable + vlen) % 2 == 0,
        vtable + vlen <= b@.len(),
        slot % 2 == 0,
    ensures
        match (r, field_at(b@, table as int, vtable as int, vlen as int, slot as int)) {
            (Some(x), Some(y)) => opt_chars(x) == y,
            (None, None) => true,
            _ => false,
        },
{
    if slot >= vlen {
        return Some(None);
    }
    assert(vtable + slot < b.len());
    let fo = match read_u16(b, vtable + slot) {
        Some(x) => x,
        None => return None,
    };
    if fo == 0 {
        return Some(None);
    }
    if fo as usize > b.len() - table {
        return None;
    }
    match read_string(b, table + fo as usize) {
        Some(s) => Some(Some(s)),
        None => None,
    }
}

fn decode_at(buf: &[u8], root: usize) -> (r: Result<Message, DecodeError>)
    ensures
        match (r, decode_from(buf@, root as int)) {
            (Ok(m), Some(f)) => m@ == f,
            (Err(_), None) => true,
            _ => false,
        },
{
    let len = buf.len();
    let off = match read_u32(buf, root) {
        Some(x) => x as usize,
        None => return Err(DecodeError::Malformed),
    };
    if off > len - root {
        return Err(DecodeError::Malformed);
    }
    let table = root + off;
    let soff = match read_u32(buf, table) {
        Some(x) => x,
        None => return Err(DecodeError::Malformed),
    };
    let vtable = if soff < 0x8000_0000 {
        if soff as usize > table {
            return Err(DecodeError::Malformed);
        }
        table - soff as usize
    } else {
        let back = (0xffff_ffffu32 - soff) + 1;
        if back as usize >= len - table {
            return Err(DecodeError::Malformed);
        }
        table + back as usize
    };
    let vlen = match read_u16(buf, vtable) {
        Some(x) => x as usize,
        None => return Err(DecodeError::Malformed),
    };
    if vlen > len - vtable || (vtable + vlen) % 2 != 0 {
        return Err(DecodeError::Malformed);
    }
    let app = match read_field(buf, table, vtable, vlen, VT_APP) {
        Some(x) => x,
        None => return Err(DecodeError::Malformed),
    };
    let payload = match read_field(buf, table, vtable, vlen, VT_PAYLOAD) {
        Some(x) => x,
        None => return Err(DecodeError::Malformed),
    };
    Ok(Message { app, payload })
}

/// Reads an envelope from untrusted bytes.
///
/// Every offset is checked against the buffer before it is followed, and
/// strings must be well-formed UTF-8 with a zero terminator: a buffer that
/// is not a well-formed envelope gives `DecodeError::Malformed`.
pub fn root_as_message(buf: &[u8]) -> (r: Result<Message, DecodeError>)
    ensures
        match (r, decode_fields(buf@)) {
            (Ok(m), Some(f)) => m@ == f,
            (Err(_), None) => true,
            _ => false,
        },
{
    decode_at(buf, 0)
}

/// Reads an envelope preceded by its length, as framed on a byte stream.
/// The prefix must hold exactly the number of bytes that follow it.
pub fn size_prefixed_root_as_message(buf: &[u8]) -> (r: Result<Message, DecodeError>)
    ensures
        match (r, decode_size_prefixed(buf@)) {
            (Ok(m), Some(f)) => m@ == f,
            (Err(_), None) => true,
            _ => false,
        },
{
    match read_u32(buf, 0) {
        Some(n) => {
            if n as usize != buf.len() - 4 {
                return Err(DecodeError::Malformed);
            }
        },
        None => return Err(DecodeError::Malformed),
    }
    decode_at(buf, 4)
}

proof fn lemma_le32_value(x: nat)
    requires
        x < 0x1_0000_0000,
    ensures
        u32_at(le32(x), 0) == x,
{
    let q1 = x / 256;
    let q2 = q1 / 256;
    let q3 = q2 / 256;
    lemma_fundamental_div_mod(x as int, 256);
    lemma_fundamental_div_mod(q1 as int, 256);
    lemma_fundamental_div_mod(q2 as int, 256);
    lemma_div_denominator(x as int, 256, 256);
    lemma_div_denominator(x as int, 65536, 256);
    assert(q3 < 256);
}

proof fn lemma_le16_value(x: nat)
    requires
        x < 0x1_0000,
    ensures
        u16_at(le16(x), 0) == x,
{
    lemma_fundamental_div_mod(x as int, 256);
}

/// Reading a `u32` back from the middle of a sequence.
proof fn lemma_u32_in(pre: Seq<u8>, x: nat, post: Seq<u8>)
    requires
        x < 0x1_0000_0000,
    ensures
        u32_at(pre + le32(x) + post, pre.len() as int) == x,
{
    let s = pre + le32(x) + post;
    let k = pre.len() as int;
    lemma_le32_value(x);
    assert(s[k] == le32(x)[0]);
    assert(s[k + 1] == le32(x)[1]);
    assert(s[k + 2] == le32(x)[2]);
    assert(s[k + 3] == le32(x)[3]);
}

/// Reading a `u16` back from the middle of a sequence.
proof fn lemma_u16_in(pre: Seq<u8>, x: nat, post: Seq<u8>)
    requires
        x < 0x1_0000,
    ensures
        u16_at(pre + le16(x) + post, pre.len() as int) == x,
{
    let s = pre + le16(x) + post;
    let k = pre.len() as int;
    lemma_le16_value(x);
    assert(s[k] == le16(x)[0]);
    assert(s[k + 1] == le16(x)[1]);
}

proof fn lemma_block_len(bytes: Seq<u8>)
    ensures
        string_block(bytes).len() == 8 + bytes.len() - bytes.len() % 4,
        string_block(bytes).len() % 4 == 0,
{
    let n = bytes.len() as int;
    lemma_fundamental_div_mod(n, 4);
    assert((8 + n - n % 4) == 4 * (2 + n / 4));
}

/// A string block placed at a multiple of four reads back as its string.
proof fn lemma_block_reads_back(pre: Seq<u8>, chars: Seq<char>, post: Seq<u8>, field: int)
    requires
        pre.len() % 4 == 0,
        encode_utf8(chars).len() < 0x1_0000_0000,
        fits(pre + string_block(encode_utf8(chars)) + post, field, 4),
        u32_at(pre + string_block(encode_utf8(chars)) + post, field) + field == pre.len(),
    ensures
        string_at(pre + string_block(encode_utf8(chars)) + post, field) == Some(chars),
{
    let bytes = encode_utf8(chars);
    let n = bytes.len();
    let zeros = Seq::new(1 + string_padding(n), |i: int| 0u8);
    let s = pre + string_block(bytes) + post;
    let k = pre.len() as int;
    assert(s =~= pre + le32(n) + (bytes + zeros + post));
    lemma_u32_in(pre, n, bytes + zeros + post);
    let data = k + 4;
    assert(s.subrange(data, data + n) =~= bytes);
    assert(s[data + n] == zeros[0]);
    encode_utf8_valid_utf8(chars);
    encode_utf8_decode_utf8(chars);
}

/// The header in front of the two string blocks, for a payload block of
/// `payload_block` bytes.
spec fn header(payload_block: nat) -> Seq<u8> {
    le32(12) + le16(8) + le16(12) + le16(4) + le16(8) + le32(8) + le32(payload_block + 8) + le32(4)
}

/// The fixed reads of the header, whatever follows it.
proof fn lemma_header_reads(pbl: nat, tail: Seq<u8>)
    requires
        pbl + 8 < 0x1_0000_0000,
    ensures
        header(pbl).len() == 24,
        u32_at(header(pbl) + tail, 0) == 12,
        u32_at(header(pbl) + tail, 12) == 8,
        u16_at(header(pbl) + tail, 4) == 8,
        u16_at(header(pbl) + tail, 8) == 4,
        u16_at(header(pbl) + tail, 10) == 8,
        u32_at(header(pbl) + tail, 16) == pbl + 8,
        u32_at(header(pbl) + tail, 20) == 4,
{
    let b = header(pbl) + tail;
    let n = b.len() as int;
    assert(u32_at(b, 0) == 12) by {
        assert(b =~= Seq::<u8>::empty() + le32(12) + b.subrange(4, n));
        lemma_u32_in(Seq::<u8>::empty(), 12, b.subrange(4, n));
    }
    assert(u32_at(b, 12) == 8) by {
        assert(b =~= b.subrange(0, 12) + le32(8) + b.subrange(16, n));
        lemma_u32_in(b.subrange(0, 12), 8, b.subrange(16, n));
    }
    assert(u16_at(b, 4) == 8) by {
        assert(b =~= b.subrange(0, 4) + le16(8) + b.subrange(6, n));
        lemma_u16_in(b.subrange(0, 4), 8, b.subrange(6, n));
    }
    assert(u16_at(b, 8) == 4) by {
        assert(b =~= b.subrange(0, 8) + le16(4) + b.subrange(10, n));
        lemma_u16_in(b.subrange(0, 8), 4, b.subrange(10, n));
    }
    assert(u16_at(b, 10) == 8) by {
        assert(b =~= b.subrange(0, 10) + le16(8) + b.subrange(12, n));
        lemma_u16_in(b.subrange(0, 10), 8, b.subrange(12, n));
    }
    assert(u32_at(b, 16) == pbl + 8) by {
        assert(b =~= b.subrange(0, 16) + le32(pbl + 8) + b.subrange(20, n));
        lemma_u32_in(b.subrange(0, 16), pbl + 8, b.subrange(20, n));
    }
    assert(u32_at(b, 20) == 4) by {
        assert(b =~= b.subrange(0, 20) + le32(4) + b.subrange(24, n));
        lemma_u32_in(b.subrange(0, 20), 4, b.subrange(24, n));
    }
}

/// Decoding an encoded envelope gives back the two fields it was made of.
pub proof fn lemma_round_trip(app: Seq<char>, payload: Seq<char>)
    requires
        encode_utf8(app).len() <= MAX_APP_LEN,
        encode_utf8(payload).len() <= MAX_PAYLOAD_LEN,
    ensures
        encode_result(app, payload) matches Ok(b) && decode_fields(b) == Some(
            (Some(app), Some(payload)),
        ),
{
    let a = encode_utf8(app);
    let p = encode_utf8(payload);
    let bp = string_block(p);
    let ba = string_block(a);
    lemma_block_len(p);
    lemma_block_len(a);
    let h = header(bp.len());
    let b = envelope_bytes(a, p);
    assert(b =~= h + (bp + ba));
    lemma_header_reads(bp.len(), bp + ba);
    assert(string_at(b, 16) == Some(app)) by {
        assert(b =~= (h + bp) + ba + Seq::<u8>::empty());
        lemma_block_reads_back(h + bp, app, Seq::<u8>::empty(), 16);
    }
    assert(string_at(b, 20) == Some(payload)) by {
        assert(b =~= h + bp + ba);
        lemma_block_reads_back(h, payload, ba, 20);
    }
    assert(field_at(b, 12, 4, 8, 4) == Some(Some(app)));
    assert(field_at(b, 12, 4, 8, 6) == Some(Some(payload)));
}

/// Encoding fails exactly when a field is over its bound, and never
/// truncates: 32 app bytes and 1024 payload bytes are accepted, one more
/// byte in either is not.
pub proof fn lemma_rejection_boundary(app: Seq<char>, payload: Seq<char>)
    ensures
        encode_result(app, payload).is_err() <==> (encode_utf8(app).len() > MAX_APP_LEN
            || encode_utf8(payload).len() > MAX_PAYLOAD_LEN),
{
}

} // verus!
