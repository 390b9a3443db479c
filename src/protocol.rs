//! Framing of the messages exchanged with the peer: every relay or control
//! payload starts with the 4-byte big-endian id of its stream.
use crate::text::{chars_of, string_of};
use vstd::prelude::*;
use vstd::string::*;
use vstd::utf8::{decode_utf8, encode_utf8, valid_utf8};

verus! {

/// Largest payload, before framing, that one message carries.
pub const MAX_SIZE_IOBUF: usize = 61440;

/// Commands of the forward protocol, and the two neighbours it sends.
#[derive(Clone, Copy, Debug, PartialEq, Eq, Structural)]
pub enum HdcCommand {
    ForwardInit,
    ForwardCheck,
    ForwardCheckResult,
    ForwardActiveSlave,
    ForwardActiveMaster,
    ForwardData,
    ForwardFreeContext,
    ForwardSuccess,
    KernelWakeupSlavetask,
    /// Any command that the forward protocol does not handle.
    Other,
}

/// One message for the session transport.
#[derive(Clone, Debug)]
pub struct TaskMessage {
    pub channel_id: u32,
    pub command: HdcCommand,
    pub payload: Vec<u8>,
}

/// The four bytes of `x`, most significant first.
pub open spec fn be_bytes(x: u32) -> Seq<u8> {
    seq![(x >> 24u32) as u8, ((x >> 16u32) & 0xffu32) as u8, ((x >> 8u32) & 0xffu32) as u8, (x & 0xffu32) as u8]
}

/// The number that four bytes write, most significant first.
pub open spec fn be_value(b: Seq<u8>) -> u32 {
    ((b[0] as u32) << 24u32) | ((b[1] as u32) << 16u32) | ((b[2] as u32) << 8u32) | (b[3] as u32)
}

/// The stream id that a framed payload starts with.
pub open spec fn cid_of(payload: Seq<u8>) -> u32 {
    be_value(payload.subrange(0, 4))
}

/// The framed form of `data` for stream `cid`.
pub open spec fn framed(cid: u32, data: Seq<u8>) -> Seq<u8> {
    be_bytes(cid) + data
}

proof fn lemma_be_round_trip(x: u32)
    ensures
        be_value(be_bytes(x)) == x,
{
    let b0 = (x >> 24u32) as u8;
    let b1 = ((x >> 16u32) & 0xffu32) as u8;
    let b2 = ((x >> 8u32) & 0xffu32) as u8;
    let b3 = (x & 0xffu32) as u8;
    assert(((b0 as u32) << 24u32) | ((b1 as u32) << 16u32) | ((b2 as u32) << 8u32) | (b3 as u32)
        == x) by (bit_vector)
        requires
            b0 == (x >> 24u32) as u8,
            b1 == ((x >> 16u32) & 0xffu32) as u8,
            b2 == ((x >> 8u32) & 0xffu32) as u8,
            b3 == (x & 0xffu32) as u8,
    ;
}

/// Framing then reading back gives the stream id and the payload that
/// were framed.
pub proof fn lemma_frame_round_trip(cid: u32, data: Seq<u8>)
    ensures
        framed(cid, data).len() == data.len() + 4,
        cid_of(framed(cid, data)) == cid,
        framed(cid, data).subrange(4, framed(cid, data).len() as int) == data,
{
    lemma_be_round_trip(cid);
    assert(framed(cid, data).subrange(0, 4) =~= be_bytes(cid));
    assert(framed(cid, data).subrange(4, framed(cid, data).len() as int) =~= data);
}

/// The stream id at the head of a framed payload.
pub fn get_cid(payload: &[u8]) -> (r: u32)
    requires
        payload@.len() >= 4,
    ensures
        r == cid_of(payload@),
{
    let b0 = payload[0] as u32;
    let b1 = payload[1] as u32;
    let b2 = payload[2] as u32;
    let b3 = payload[3] as u32;
    (b0 << 24u32) | (b1 << 16u32) | (b2 << 8u32) | b3
}

/// The bytes that follow the stream id of a framed payload.
pub fn payload_body(payload: &[u8]) -> (r: Vec<u8>)
    requires
        payload@.len() >= 4,
    ensures
        r@ == payload@.subrange(4, payload@.len() as int),
{
    let mut r: Vec<u8> = Vec::new();
    let mut i: usize = 4;
    while i < payload.len()
        invariant
            4 <= i <= payload@.len(),
            r@ == payload@.subrange(4, i as int),
        decreases payload@.len() - i,
    {
        r.push(payload[i]);
        i = i + 1;
        assert(r@ =~= payload@.subrange(4, i as int));
    }
    r
}

/// Frames `data` for stream `cid`.
pub fn frame(cid: u32, data: &[u8]) -> (r: Vec<u8>)
    ensures
        r@ == framed(cid, data@),
{
    let mut r: Vec<u8> = Vec::new();
    r.push((cid >> 24u32) as u8);
    r.push(((cid >> 16u32) & 0xffu32) as u8);
    r.push(((cid >> 8u32) & 0xffu32) as u8);
    r.push((cid & 0xffu32) as u8);
    assert(r@ =~= be_bytes(cid));
    let mut i: usize = 0;
    while i < data.len()
        invariant
            i <= data@.len(),
            r@ == be_bytes(cid) + data@.subrange(0, i as int),
        decreases data@.len() - i,
    {
        r.push(data[i]);
        i = i + 1;
        assert(r@ =~= be_bytes(cid) + data@.subrange(0, i as int));
    }
    assert(data@.subrange(0, data@.len() as int) =~= data@);
    r
}

/// Frames `data` for stream `cid`; `None` when `data` is larger than two
/// transport buffers.
pub fn frame_payload(cid: u32, data: &[u8]) -> (r: Option<Vec<u8>>)
    ensures
        r is None <==> data@.len() > 2 * MAX_SIZE_IOBUF,
        r is Some ==> r->0@ == framed(cid, data@),
{
    if data.len() > MAX_SIZE_IOBUF * 2 {
        return None;
    }
    Some(frame(cid, data))
}

/// Relies on `String::from_utf8`: `Ok` exactly on valid UTF-8, holding the
/// characters that the bytes encode.
#[verifier::external_body]
fn utf8_string(b: &[u8]) -> (r: Option<String>)
    ensures
        r is Some <==> valid_utf8(b@),
        r is Some ==> r->0@ == decode_utf8(b@),
{
    String::from_utf8(b.to_vec()).ok()
}

/// The text that a byte payload holds, if it is UTF-8.
pub fn text_of(b: &[u8]) -> (r: Option<String>)
    ensures
        r is Some <==> valid_utf8(b@),
        r is Some ==> r->0@ == decode_utf8(b@),
{
    utf8_string(b)
}

/// Why a framed command payload was refused.
#[derive(Clone, Copy, Debug, PartialEq, Eq, Structural)]
pub enum FilterError {
    /// The bytes after the stream id are not UTF-8.
    NotText,
}

/// Splits a framed payload into its text and its stream id.
pub fn filter_command(payload: &[u8]) -> (r: Result<(String, u32), FilterError>)
    requires
        payload@.len() >= 4,
    ensures
        r is Ok <==> valid_utf8(payload@.subrange(4, payload@.len() as int)),
        r is Ok ==> r->Ok_0.0@ == decode_utf8(payload@.subrange(4, payload@.len() as int))
            && r->Ok_0.1 == cid_of(payload@),
{
    let body = payload_body(payload);
    match utf8_string(body.as_slice()) {
        Some(content) => Ok((content, get_cid(payload))),
        None => Err(FilterError::NotText),
    }
}

/// The bytes of `s`, as UTF-8.
pub fn text_bytes(s: &String) -> (r: Vec<u8>)
    ensures
        r@ == encode_utf8(s@),
{
    s.as_str().as_bytes_vec()
}

/// The body of a `Check` or `ActiveSlave` request: eight zero bytes, the
/// remote endpoint spec, and a closing zero byte.
pub open spec fn check_body(params: Seq<u8>) -> Seq<u8> {
    Seq::new(8, |i: int| 0u8) + params + seq![0u8]
}

pub fn build_check_body(params: &String) -> (r: Vec<u8>)
    ensures
        r@ == check_body(encode_utf8(params@)),
{
    let bytes = text_bytes(params);
    let mut r: Vec<u8> = Vec::new();
    let mut i: usize = 0;
    while i < 8
        invariant
            i <= 8,
            r@ == Seq::new(i as nat, |k: int| 0u8),
        decreases 8 - i,
    {
        r.push(0u8);
        i = i + 1;
        assert(r@ =~= Seq::new(i as nat, |k: int| 0u8));
    }
    let mut j: usize = 0;
    while j < bytes.len()
        invariant
            j <= bytes@.len(),
            r@ == Seq::new(8, |k: int| 0u8) + bytes@.subrange(0, j as int),
        decreases bytes@.len() - j,
    {
        r.push(bytes[j]);
        j = j + 1;
        assert(r@ =~= Seq::new(8, |k: int| 0u8) + bytes@.subrange(0, j as int));
    }
    r.push(0u8);
    assert(bytes@.subrange(0, bytes@.len() as int) =~= bytes@);
    assert(r@ =~= check_body(encode_utf8(params@)));
    r
}

/// `s` without the zero characters at its end.
pub open spec fn trim_nul(s: Seq<char>) -> Seq<char>
    decreases s.len(),
{
    if s.len() > 0 && s.last() == '\0' {
        trim_nul(s.drop_last())
    } else {
        s
    }
}

/// The endpoint spec that a `Check` or `ActiveSlave` text carries: what
/// follows its first eight characters, trailing zeros dropped.
pub open spec fn requested_target(content: Seq<char>) -> Seq<char> {
    trim_nul(content.subrange(8, content.len() as int))
}

pub fn request_target(content: &String) -> (r: String)
    requires
        content@.len() >= 8,
    ensures
        r@ == requested_target(content@),
{
    let cs = chars_of(content.as_str());
    let mut end: usize = cs.len();
    while end > 8 && cs[end - 1] == '\0'
        invariant
            cs@ == content@,
            8 <= end <= cs@.len(),
            trim_nul(cs@.subrange(8, end as int)) == requested_target(content@),
        decreases end,
    {
        let ghost s = cs@.subrange(8, end as int);
        assert(s.drop_last() =~= cs@.subrange(8, end - 1));
        end = end - 1;
    }
    proof {
        let s = cs@.subrange(8, end as int);
        if s.len() > 0 {
            assert(s.last() == cs@[end - 1]);
        }
    }
    string_of(&cs, 8, end)
}

} // verus!
