//! Length-prefixed framing: a 4-byte big-endian length, then the payload.
use vstd::prelude::*;

verus! {

/// The value of four bytes read as a big-endian unsigned integer.
pub open spec fn be_value(h: Seq<u8>) -> int
    recommends
        h.len() == 4,
{
    h[0] as int * 16777216 + h[1] as int * 65536 + h[2] as int * 256 + h[3] as int
}

/// The four big-endian bytes of `n`.
pub open spec fn be_bytes(n: int) -> Seq<u8> {
    seq![
        (n / 16777216) as u8,
        ((n / 65536) % 256) as u8,
        ((n / 256) % 256) as u8,
        (n % 256) as u8,
    ]
}

/// The frame that carries `payload`.
pub open spec fn encode_spec(payload: Seq<u8>) -> Seq<u8> {
    be_bytes(payload.len() as int) + payload
}

/// The first frame of `buf`, with the number of bytes it spans; `None` when
/// `buf` does not yet hold a whole frame.
pub open spec fn decode_spec(buf: Seq<u8>) -> Option<(Seq<u8>, int)> {
    if buf.len() < 4 {
        None
    } else {
        let n = be_value(buf.subrange(0, 4));
        if buf.len() - 4 < n {
            None
        } else {
            Some((buf.subrange(4, 4 + n), 4 + n))
        }
    }
}

proof fn lemma_be_round_trip(n: int)
    requires
        0 <= n <= u32::MAX,
    ensures
        be_bytes(n).len() == 4,
        be_value(be_bytes(n)) == n,
{
    let b = be_bytes(n);
    assert(b[0] as int == n / 16777216);
    assert(b[1] as int == (n / 65536) % 256);
    assert(b[2] as int == (n / 256) % 256);
    assert(b[3] as int == n % 256);
    assert(n / 16777216 * 16777216 + (n / 65536) % 256 * 65536 + (n / 256) % 256 * 256 + n % 256
        == n) by (nonlinear_arith)
        requires
            0 <= n,
    ;
}

/// Decoding the frame of a payload gives the payload back, and the frame is
/// exactly four bytes longer than the payload, whatever bytes follow it.
pub proof fn lemma_frame_round_trip(payload: Seq<u8>, rest: Seq<u8>)
    requires
        payload.len() <= u32::MAX,
    ensures
        encode_spec(payload).len() == payload.len() + 4,
        decode_spec(encode_spec(payload) + rest) == Some((payload, payload.len() + 4int)),
{
    let n = payload.len() as int;
    lemma_be_round_trip(n);
    let buf = encode_spec(payload) + rest;
    assert(buf.subrange(0, 4) =~= be_bytes(n));
    assert(buf.subrange(4, 4 + n) =~= payload);
}

/// The length that a frame header announces.
pub fn header_value(h: &[u8; 4]) -> (r: u32)
    ensures
        r as int == be_value(h@),
{
    (h[0] as u32) * 16777216 + (h[1] as u32) * 65536 + (h[2] as u32) * 256 + (h[3] as u32)
}

/// The header of a frame whose payload is `len` bytes long.
pub fn header_of(len: u32) -> (r: [u8; 4])
    ensures
        r@ == be_bytes(len as int),
{
    let r = [
        (len / 16777216) as u8,
        ((len / 65536) % 256) as u8,
        ((len / 256) % 256) as u8,
        (len % 256) as u8,
    ];
    assert(r@ =~= be_bytes(len as int));
    r
}

/// The frame that carries `payload`: its length prefix, then the payload.
pub fn encode_frame(payload: &[u8]) -> (r: Vec<u8>)
    requires
        payload@.len() <= u32::MAX,
    ensures
        r@ == encode_spec(payload@),
{
    let h = header_of(payload.len() as u32);
    let mut r: Vec<u8> = Vec::new();
    r.push(h[0]);
    r.push(h[1]);
    r.push(h[2]);
    r.push(h[3]);
    let mut i: usize = 0;
    while i < payload.len()
        invariant
            i <= payload@.len(),
            r@ == h@ + payload@.subrange(0, i as int),
            h@ == be_bytes(payload@.len() as int),
        decreases payload@.len() - i,
    {
        r.push(payload[i]);
        i = i + 1;
        assert(r@ =~= h@ + payload@.subrange(0, i as int));
    }
    assert(payload@.subrange(0, payload@.len() as int) =~= payload@);
    r
}

/// The first whole frame at the start of `buf`: its payload and the number
/// of bytes the frame spans. `None` when `buf` holds less than a whole frame.
pub fn decode_frame(buf: &[u8]) -> (r: Option<(Vec<u8>, usize)>)
    ensures
        r matches Some((p, used)) ==> decode_spec(buf@) == Some((p@, used as int)),
        r is None ==> decode_spec(buf@) is None,
{
    if buf.len() < 4 {
        return None;
    }
    let h: [u8; 4] = [buf[0], buf[1], buf[2], buf[3]];
    assert(h@ =~= buf@.subrange(0, 4));
    let n = header_value(&h) as usize;
    if buf.len() - 4 < n {
        return None;
    }
    let mut p: Vec<u8> = Vec::with_capacity(n);
    let mut i: usize = 0;
    while i < n
        invariant
            i <= n,
            4 + n <= buf@.len() <= usize::MAX,
            p@ == buf@.subrange(4, 4 + i),
        decreases n - i,
    {
        p.push(buf[4 + i]);
        i = i + 1;
        assert(p@ =~= buf@.subrange(4, 4 + i));
    }
    Some((p, 4 + n))
}

} // verus!
