//! The on-disk cassette schema: a length-prefixed binary encoding of an
//! ordered exchange list, with a decoder that is its exact inverse.
//!
//! Every length is a little-endian 64-bit count. A string is the length of
//! its UTF-8 encoding followed by those bytes; a byte string is its length
//! followed by its bytes; a header is its name then its value; a header list,
//! request, response, exchange and exchange list are the concatenations of
//! their parts, each list prefixed by its entry count.

use vstd::prelude::*;
use vstd::bytes::*;
use vstd::slice::slice_to_vec;
use vstd::string::StrSliceExecFns;
use vstd::utf8::encode_utf8;
use vstd::utf8::decode_utf8;
use vstd::utf8::valid_utf8;
use vstd::utf8::encode_utf8_valid_utf8;
use vstd::utf8::encode_utf8_decode_utf8;

use crate::types::exchanges_model;
use crate::types::headers_model;
use crate::types::Exchange;
use crate::types::ExchangeModel;
use crate::types::Header;
use crate::types::HeaderModel;
use crate::types::Request;
use crate::types::RequestModel;
use crate::types::Response;
use crate::types::ResponseModel;

verus! {

/// Decoding failed: the bytes are not a serialized cassette.
#[derive(Clone, Copy, Debug, PartialEq, Eq, Structural)]
pub enum DecodeError {
    /// The input is not a complete, well-formed cassette encoding.
    Malformed,
}

// ---------------------------------------------------------------------------
// The encoding, as spec functions over the models.
// ---------------------------------------------------------------------------

/// A 64-bit little-endian length or count.
pub open spec fn enc_u64(n: u64) -> Seq<u8> {
    spec_u64_to_le_bytes(n)
}

/// A byte string: its length, then its bytes.
pub open spec fn enc_bytes(data: Seq<u8>) -> Seq<u8> {
    enc_u64(data.len() as u64) + data
}

/// A string: the byte string of its UTF-8 encoding.
pub open spec fn enc_str(s: Seq<char>) -> Seq<u8> {
    enc_bytes(encode_utf8(s))
}

/// A header pair: name, then value.
pub open spec fn enc_header(h: HeaderModel) -> Seq<u8> {
    enc_str(h.0) + enc_str(h.1)
}

/// The body of a header list: its entries, in order.
pub open spec fn enc_header_seq(hs: Seq<HeaderModel>) -> Seq<u8>
    decreases hs.len(),
{
    if hs.len() == 0 {
        Seq::empty()
    } else {
        enc_header(hs[0]) + enc_header_seq(hs.drop_first())
    }
}

/// A header list: its entry count, then its entries.
pub open spec fn enc_headers(hs: Seq<HeaderModel>) -> Seq<u8> {
    enc_u64(hs.len() as u64) + enc_header_seq(hs)
}

/// A request: URI, method, headers, body.
pub open spec fn enc_request(r: RequestModel) -> Seq<u8> {
    enc_str(r.uri) + enc_str(r.method) + enc_headers(r.headers) + enc_bytes(r.body)
}

/// A response: status, headers, body.
pub open spec fn enc_response(r: ResponseModel) -> Seq<u8> {
    enc_u64(r.status as u64) + enc_headers(r.headers) + enc_bytes(r.body)
}

/// An exchange: its request, then its response.
pub open spec fn enc_exchange(e: ExchangeModel) -> Seq<u8> {
    enc_request(e.request) + enc_response(e.response)
}

/// The body of an exchange list: its entries, in order.
pub open spec fn enc_exchange_seq(xs: Seq<ExchangeModel>) -> Seq<u8>
    decreases xs.len(),
{
    if xs.len() == 0 {
        Seq::empty()
    } else {
        enc_exchange(xs[0]) + enc_exchange_seq(xs.drop_first())
    }
}

/// A whole cassette: its exchange count, then its exchanges.
pub open spec fn enc_cassette(xs: Seq<ExchangeModel>) -> Seq<u8> {
    enc_u64(xs.len() as u64) + enc_exchange_seq(xs)
}

// ---------------------------------------------------------------------------
// What the machine can encode: every count fits a 64-bit length.
// ---------------------------------------------------------------------------

/// The string's UTF-8 encoding fits a 64-bit length.
pub open spec fn encodable_str(s: Seq<char>) -> bool {
    encode_utf8(s).len() <= u64::MAX
}

/// Both parts of the header are encodable.
pub open spec fn encodable_header(h: HeaderModel) -> bool {
    encodable_str(h.0) && encodable_str(h.1)
}

/// The list and each entry are encodable.
pub open spec fn encodable_headers(hs: Seq<HeaderModel>) -> bool {
    hs.len() <= u64::MAX && forall|i: int| 0 <= i < hs.len() ==> encodable_header(#[trigger] hs[i])
}

/// Every part of the request is encodable.
pub open spec fn encodable_request(r: RequestModel) -> bool {
    encodable_str(r.uri) && encodable_str(r.method) && encodable_headers(r.headers)
        && r.body.len() <= u64::MAX
}

/// Every part of the response is encodable.
pub open spec fn encodable_response(r: ResponseModel) -> bool {
    encodable_headers(r.headers) && r.body.len() <= u64::MAX
}

/// Both halves of the exchange are encodable.
pub open spec fn encodable_exchange(e: ExchangeModel) -> bool {
    encodable_request(e.request) && encodable_response(e.response)
}

/// The list and each exchange are encodable.
pub open spec fn encodable_cassette(xs: Seq<ExchangeModel>) -> bool {
    xs.len() <= u64::MAX && forall|i: int|
        0 <= i < xs.len() ==> encodable_exchange(#[trigger] xs[i])
}

// ---------------------------------------------------------------------------
// The decoding, as spec functions over byte sequences and positions.
// ---------------------------------------------------------------------------

/// Reads a 64-bit length at `pos`.
pub open spec fn dec_u64(b: Seq<u8>, pos: int) -> Option<(u64, int)> {
    if 0 <= pos && pos + 8 <= b.len() {
        Some((spec_u64_from_le_bytes(b.subrange(pos, pos + 8)), pos + 8))
    } else {
        None
    }
}

/// Reads a byte string at `pos`.
pub open spec fn dec_bytes(b: Seq<u8>, pos: int) -> Option<(Seq<u8>, int)> {
    match dec_u64(b, pos) {
        Some((n, p)) => if p + n <= b.len() {
            Some((b.subrange(p, p + n), p + n))
        } else {
            None
        },
        None => None,
    }
}

/// Reads a string at `pos`: its bytes must be valid UTF-8.
pub open spec fn dec_str(b: Seq<u8>, pos: int) -> Option<(Seq<char>, int)> {
    match dec_bytes(b, pos) {
        Some((data, p)) => if valid_utf8(data) {
            Some((decode_utf8(data), p))
        } else {
            None
        },
        None => None,
    }
}

/// Reads a header pair at `pos`.
pub open spec fn dec_header(b: Seq<u8>, pos: int) -> Option<(HeaderModel, int)> {
    match dec_str(b, pos) {
        Some((name, p)) => match dec_str(b, p) {
            Some((value, p2)) => Some(((name, value), p2)),
            None => None,
        },
        None => None,
    }
}

/// Reads `n` header pairs at `pos`.
pub open spec fn dec_header_list(b: Seq<u8>, pos: int, n: nat) -> Option<(Seq<HeaderModel>, int)>
    decreases n,
{
    if n == 0 {
        Some((Seq::empty(), pos))
    } else {
        match dec_header(b, pos) {
            Some((h, p)) => match dec_header_list(b, p, (n - 1) as nat) {
                Some((hs, p2)) => Some((seq![h] + hs, p2)),
                None => None,
            },
            None => None,
        }
    }
}

/// Reads a header list at `pos`: a count, then that many pairs.
pub open spec fn dec_headers(b: Seq<u8>, pos: int) -> Option<(Seq<HeaderModel>, int)> {
    match dec_u64(b, pos) {
        Some((n, p)) => dec_header_list(b, p, n as nat),
        None => None,
    }
}

/// Reads a request at `pos`.
pub open spec fn dec_request(b: Seq<u8>, pos: int) -> Option<(RequestModel, int)> {
    match dec_str(b, pos) {
        Some((uri, p1)) => match dec_str(b, p1) {
            Some((method, p2)) => match dec_headers(b, p2) {
                Some((headers, p3)) => match dec_bytes(b, p3) {
                    Some((body, p4)) => Some((RequestModel { uri, method, headers, body }, p4)),
                    None => None,
                },
                None => None,
            },
            None => None,
        },
        None => None,
    }
}

/// Reads a response at `pos`: its status must fit a 16-bit code.
pub open spec fn dec_response(b: Seq<u8>, pos: int) -> Option<(ResponseModel, int)> {
    match dec_u64(b, pos) {
        Some((status, p1)) => if status <= u16::MAX {
            match dec_headers(b, p1) {
                Some((headers, p2)) => match dec_bytes(b, p2) {
                    Some((body, p3)) => Some(
                        (ResponseModel { status: status as u16, headers, body }, p3),
                    ),
                    None => None,
                },
                None => None,
            }
        } else {
            None
        },
        None => None,
    }
}

/// Reads an exchange at `pos`.
pub open spec fn dec_exchange(b: Seq<u8>, pos: int) -> Option<(ExchangeModel, int)> {
    match dec_request(b, pos) {
        Some((request, p1)) => match dec_response(b, p1) {
            Some((response, p2)) => Some((ExchangeModel { request, response }, p2)),
            None => None,
        },
        None => None,
    }
}

/// Reads `n` exchanges at `pos`.
pub open spec fn dec_exchange_list(b: Seq<u8>, pos: int, n: nat) -> Option<(
    Seq<ExchangeModel>,
    int,
)>
    decreases n,
{
    if n == 0 {
        Some((Seq::empty(), pos))
    } else {
        match dec_exchange(b, pos) {
            Some((e, p)) => match dec_exchange_list(b, p, (n - 1) as nat) {
                Some((xs, p2)) => Some((seq![e] + xs, p2)),
                None => None,
            },
            None => None,
        }
    }
}

/// What a byte string denotes as a cassette: an empty input denotes the empty
/// exchange list; otherwise the count and the exchanges must parse and use up
/// the whole input.
pub open spec fn dec_cassette(b: Seq<u8>) -> Option<Seq<ExchangeModel>> {
    if b.len() == 0 {
        Some(Seq::empty())
    } else {
        match dec_u64(b, 0) {
            Some((n, p)) => match dec_exchange_list(b, p, n as nat) {
                Some((xs, p2)) => if p2 == b.len() {
                    Some(xs)
                } else {
                    None
                },
                None => None,
            },
            None => None,
        }
    }
}

/// Decoding an empty cassette yields the empty exchange sequence, never an
/// error.
pub proof fn lemma_decode_empty()
    ensures
        dec_cassette(Seq::empty()) == Some(Seq::<ExchangeModel>::empty()),
{
}

// ---------------------------------------------------------------------------
// Decoding inverts encoding.
// ---------------------------------------------------------------------------

/// The bytes of `b` from `pos` on.
pub open spec fn tail(b: Seq<u8>, pos: int) -> Seq<u8> {
    b.subrange(pos, b.len() as int)
}

proof fn lemma_dec_u64_after(b: Seq<u8>, pos: int, n: u64, rest: Seq<u8>)
    requires
        0 <= pos <= b.len(),
        tail(b, pos) == enc_u64(n) + rest,
    ensures
        dec_u64(b, pos) == Some((n, pos + 8)),
        pos + 8 <= b.len(),
        tail(b, pos + 8) == rest,
{
    lemma_auto_spec_u64_to_from_le_bytes();
    assert(enc_u64(n).len() == 8);
    assert(tail(b, pos).len() == b.len() - pos);
    assert(b.subrange(pos, pos + 8) =~= tail(b, pos).subrange(0, 8));
    assert(tail(b, pos).subrange(0, 8) =~= enc_u64(n));
    assert(tail(b, pos + 8) =~= rest) by {
        assert(rest.len() == tail(b, pos).len() - 8);
        assert forall|i: int| 0 <= i < rest.len() implies tail(b, pos + 8)[i] == rest[i] by {
            assert(tail(b, pos + 8)[i] == b[pos + 8 + i]);
            assert(tail(b, pos)[8 + i] == b[pos + 8 + i]);
            assert(tail(b, pos)[8 + i] == (enc_u64(n) + rest)[8 + i]);
        }
    }
}

proof fn lemma_dec_bytes_after(b: Seq<u8>, pos: int, data: Seq<u8>, rest: Seq<u8>)
    requires
        0 <= pos <= b.len(),
        data.len() <= u64::MAX,
        tail(b, pos) == enc_bytes(data) + rest,
    ensures
        dec_bytes(b, pos) == Some((data, pos + enc_bytes(data).len())),
        pos + enc_bytes(data).len() <= b.len(),
        tail(b, pos + enc_bytes(data).len()) == rest,
{
    let n = data.len() as u64;
    assert(enc_bytes(data) + rest =~= enc_u64(n) + (data + rest));
    lemma_dec_u64_after(b, pos, n, data + rest);
    let p = pos + 8;
    assert(tail(b, p).len() == b.len() - p);
    assert(p + n <= b.len());
    assert(b.subrange(p, p + n) =~= tail(b, p).subrange(0, data.len() as int));
    assert(tail(b, p).subrange(0, data.len() as int) =~= data);
    assert(tail(b, p + data.len()) =~= rest) by {
        assert forall|i: int| 0 <= i < b.len() - (p + data.len())
            implies tail(b, p + data.len())[i] == rest[i] by {
            assert(tail(b, p + data.len())[i] == b[p + data.len() + i]);
            assert(tail(b, p)[data.len() + i] == b[p + data.len() + i]);
            assert(tail(b, p)[data.len() + i] == (data + rest)[data.len() + i]);
        }
        assert(rest.len() == b.len() - (p + data.len()));
    }
    assert(pos + enc_bytes(data).len() == p + data.len());
}

proof fn lemma_dec_str_after(b: Seq<u8>, pos: int, s: Seq<char>, rest: Seq<u8>)
    requires
        0 <= pos <= b.len(),
        encodable_str(s),
        tail(b, pos) == enc_str(s) + rest,
    ensures
        dec_str(b, pos) == Some((s, pos + enc_str(s).len())),
        pos + enc_str(s).len() <= b.len(),
        tail(b, pos + enc_str(s).len()) == rest,
{
    lemma_dec_bytes_after(b, pos, encode_utf8(s), rest);
    encode_utf8_valid_utf8(s);
    encode_utf8_decode_utf8(s);
}

proof fn lemma_dec_header_after(b: Seq<u8>, pos: int, h: HeaderModel, rest: Seq<u8>)
    requires
        0 <= pos <= b.len(),
        encodable_header(h),
        tail(b, pos) == enc_header(h) + rest,
    ensures
        dec_header(b, pos) == Some((h, pos + enc_header(h).len())),
        pos + enc_header(h).len() <= b.len(),
        tail(b, pos + enc_header(h).len()) == rest,
{
    assert(enc_header(h) + rest =~= enc_str(h.0) + (enc_str(h.1) + rest));
    lemma_dec_str_after(b, pos, h.0, enc_str(h.1) + rest);
    let p = pos + enc_str(h.0).len();
    lemma_dec_str_after(b, p, h.1, rest);
    assert(((h.0, h.1)) == h);
}

proof fn lemma_dec_header_list_after(b: Seq<u8>, pos: int, hs: Seq<HeaderModel>, rest: Seq<u8>)
    requires
        0 <= pos <= b.len(),
        encodable_headers(hs),
        tail(b, pos) == enc_header_seq(hs) + rest,
    ensures
        dec_header_list(b, pos, hs.len()) == Some((hs, pos + enc_header_seq(hs).len())),
        pos + enc_header_seq(hs).len() <= b.len(),
        tail(b, pos + enc_header_seq(hs).len()) == rest,
    decreases hs.len(),
{
    if hs.len() == 0 {
        assert(enc_header_seq(hs) =~= Seq::<u8>::empty());
        assert(enc_header_seq(hs) + rest =~= rest);
        assert(dec_header_list(b, pos, 0) == Some((Seq::<HeaderModel>::empty(), pos)));
        assert(hs =~= Seq::<HeaderModel>::empty());
    } else {
        let h = hs[0];
        let hrest = hs.drop_first();
        assert(enc_header_seq(hs) == enc_header(h) + enc_header_seq(hrest));
        assert(enc_header_seq(hs) + rest =~= enc_header(h) + (enc_header_seq(hrest) + rest));
        lemma_dec_header_after(b, pos, h, enc_header_seq(hrest) + rest);
        let p = pos + enc_header(h).len();
        assert(encodable_headers(hrest)) by {
            assert(forall|i: int|
                0 <= i < hrest.len() ==> #[trigger] hrest[i] == hs[i + 1]);
        }
        lemma_dec_header_list_after(b, p, hrest, rest);
        assert(seq![h] + hrest =~= hs);
        assert(pos + enc_header_seq(hs).len() == p + enc_header_seq(hrest).len());
    }
}

proof fn lemma_dec_headers_after(b: Seq<u8>, pos: int, hs: Seq<HeaderModel>, rest: Seq<u8>)
    requires
        0 <= pos <= b.len(),
        encodable_headers(hs),
        tail(b, pos) == enc_headers(hs) + rest,
    ensures
        dec_headers(b, pos) == Some((hs, pos + enc_headers(hs).len())),
        pos + enc_headers(hs).len() <= b.len(),
        tail(b, pos + enc_headers(hs).len()) == rest,
{
    let n = hs.len() as u64;
    assert(enc_headers(hs) + rest =~= enc_u64(n) + (enc_header_seq(hs) + rest));
    lemma_dec_u64_after(b, pos, n, enc_header_seq(hs) + rest);
    lemma_dec_header_list_after(b, pos + 8, hs, rest);
    assert(n as nat == hs.len());
}

proof fn lemma_dec_request_after(b: Seq<u8>, pos: int, r: RequestModel, rest: Seq<u8>)
    requires
        0 <= pos <= b.len(),
        encodable_request(r),
        tail(b, pos) == enc_request(r) + rest,
    ensures
        dec_request(b, pos) == Some((r, pos + enc_request(r).len())),
        pos + enc_request(r).len() <= b.len(),
        tail(b, pos + enc_request(r).len()) == rest,
{
    let r1 = enc_str(r.method) + (enc_headers(r.headers) + (enc_bytes(r.body) + rest));
    assert(enc_request(r) + rest =~= enc_str(r.uri) + r1);
    lemma_dec_str_after(b, pos, r.uri, r1);
    let p1 = pos + enc_str(r.uri).len();
    lemma_dec_str_after(b, p1, r.method, enc_headers(r.headers) + (enc_bytes(r.body) + rest));
    let p2 = p1 + enc_str(r.method).len();
    lemma_dec_headers_after(b, p2, r.headers, enc_bytes(r.body) + rest);
    let p3 = p2 + enc_headers(r.headers).len();
    lemma_dec_bytes_after(b, p3, r.body, rest);
    assert(RequestModel { uri: r.uri, method: r.method, headers: r.headers, body: r.body } == r);
    assert(pos + enc_request(r).len() == p3 + enc_bytes(r.body).len());
}

proof fn lemma_dec_response_after(b: Seq<u8>, pos: int, r: ResponseModel, rest: Seq<u8>)
    requires
        0 <= pos <= b.len(),
        encodable_response(r),
        tail(b, pos) == enc_response(r) + rest,
    ensures
        dec_response(b, pos) == Some((r, pos + enc_response(r).len())),
        pos + enc_response(r).len() <= b.len(),
        tail(b, pos + enc_response(r).len()) == rest,
{
    let n = r.status as u64;
    assert(enc_response(r) + rest =~= enc_u64(n) + (enc_headers(r.headers) + (enc_bytes(r.body)
        + rest)));
    lemma_dec_u64_after(b, pos, n, enc_headers(r.headers) + (enc_bytes(r.body) + rest));
    let p1 = pos + 8;
    lemma_dec_headers_after(b, p1, r.headers, enc_bytes(r.body) + rest);
    let p2 = p1 + enc_headers(r.headers).len();
    lemma_dec_bytes_after(b, p2, r.body, rest);
    assert(n as u16 == r.status);
    assert(ResponseModel { status: r.status, headers: r.headers, body: r.body } == r);
    assert(pos + enc_response(r).len() == p2 + enc_bytes(r.body).len());
}

proof fn lemma_dec_exchange_after(b: Seq<u8>, pos: int, e: ExchangeModel, rest: Seq<u8>)
    requires
        0 <= pos <= b.len(),
        encodable_exchange(e),
        tail(b, pos) == enc_exchange(e) + rest,
    ensures
        dec_exchange(b, pos) == Some((e, pos + enc_exchange(e).len())),
        pos + enc_exchange(e).len() <= b.len(),
        tail(b, pos + enc_exchange(e).len()) == rest,
{
    assert(enc_exchange(e) + rest =~= enc_request(e.request) + (enc_response(e.response) + rest));
    lemma_dec_request_after(b, pos, e.request, enc_response(e.response) + rest);
    let p1 = pos + enc_request(e.request).len();
    lemma_dec_response_after(b, p1, e.response, rest);
    assert(ExchangeModel { request: e.request, response: e.response } == e);
    assert(pos + enc_exchange(e).len() == p1 + enc_response(e.response).len());
}

proof fn lemma_dec_exchange_list_after(b: Seq<u8>, pos: int, xs: Seq<ExchangeModel>, rest: Seq<u8>)
    requires
        0 <= pos <= b.len(),
        encodable_cassette(xs),
        tail(b, pos) == enc_exchange_seq(xs) + rest,
    ensures
        dec_exchange_list(b, pos, xs.len()) == Some((xs, pos + enc_exchange_seq(xs).len())),
        pos + enc_exchange_seq(xs).len() <= b.len(),
        tail(b, pos + enc_exchange_seq(xs).len()) == rest,
    decreases xs.len(),
{
    if xs.len() == 0 {
        assert(enc_exchange_seq(xs) =~= Seq::<u8>::empty());
        assert(enc_exchange_seq(xs) + rest =~= rest);
        assert(xs =~= Seq::<ExchangeModel>::empty());
    } else {
        let e = xs[0];
        let xrest = xs.drop_first();
        assert(enc_exchange_seq(xs) == enc_exchange(e) + enc_exchange_seq(xrest));
        assert(enc_exchange_seq(xs) + rest =~= enc_exchange(e) + (enc_exchange_seq(xrest) + rest));
        lemma_dec_exchange_after(b, pos, e, enc_exchange_seq(xrest) + rest);
        let p = pos + enc_exchange(e).len();
        assert(encodable_cassette(xrest)) by {
            assert(forall|i: int|
                0 <= i < xrest.len() ==> #[trigger] xrest[i] == xs[i + 1]);
        }
        lemma_dec_exchange_list_after(b, p, xrest, rest);
        assert(seq![e] + xrest =~= xs);
        assert(pos + enc_exchange_seq(xs).len() == p + enc_exchange_seq(xrest).len());
    }
}

/// The codec round-trips: decoding an encoded exchange sequence yields that
/// sequence back exactly, headers in their stored order and all other fields
/// byte for byte.
pub proof fn lemma_codec_round_trip(xs: Seq<ExchangeModel>)
    requires
        encodable_cassette(xs),
    ensures
        dec_cassette(enc_cassette(xs)) == Some(xs),
{
    let b = enc_cassette(xs);
    lemma_auto_spec_u64_to_from_le_bytes();
    assert(b.len() >= 8);
    assert(tail(b, 0) =~= b);
    assert(b =~= enc_u64(xs.len() as u64) + (enc_exchange_seq(xs) + Seq::<u8>::empty()));
    lemma_dec_u64_after(b, 0, xs.len() as u64, enc_exchange_seq(xs) + Seq::<u8>::empty());
    assert(tail(b, 8) =~= enc_exchange_seq(xs) + Seq::<u8>::empty());
    lemma_dec_exchange_list_after(b, 8, xs, Seq::<u8>::empty());
    assert(8 + enc_exchange_seq(xs).len() == b.len());
}

// ---------------------------------------------------------------------------
// The executable encoder.
// ---------------------------------------------------------------------------

/// Appends a 64-bit little-endian value.
fn put_u64(out: &mut Vec<u8>, n: u64)
    ensures
        final(out)@ == old(out)@ + enc_u64(n),
{
    let mut b = u64_to_le_bytes(n);
    out.append(&mut b);
}

/// Appends a length-prefixed byte string.
fn put_bytes(out: &mut Vec<u8>, data: &Vec<u8>)
    ensures
        final(out)@ == old(out)@ + enc_bytes(data@),
        data@.len() <= u64::MAX,
{
    let n = data.len();
    put_u64(out, n as u64);
    let mut copy = slice_to_vec(data.as_slice());
    out.append(&mut copy);
    proof {
        assert(out@ =~= old(out)@ + enc_bytes(data@));
    }
}

/// Appends a length-prefixed string as UTF-8.
fn put_str(out: &mut Vec<u8>, s: &String)
    ensures
        final(out)@ == old(out)@ + enc_str(s@),
        encodable_str(s@),
{
    let bytes = s.as_str().as_bytes_vec();
    put_bytes(out, &bytes);
}

/// Appends a header pair.
fn put_header(out: &mut Vec<u8>, h: &Header)
    ensures
        final(out)@ == old(out)@ + enc_header((h.0@, h.1@)),
        encodable_header((h.0@, h.1@)),
{
    put_str(out, &h.0);
    put_str(out, &h.1);
    proof {
        assert(out@ =~= old(out)@ + enc_header((h.0@, h.1@)));
    }
}

/// One more entry extends the encoded list body at its end.
proof fn lemma_enc_header_seq_push(hs: Seq<HeaderModel>, h: HeaderModel)
    ensures
        enc_header_seq(hs.push(h)) =~= enc_header_seq(hs) + enc_header(h),
    decreases hs.len(),
{
    if hs.len() == 0 {
        assert(hs.push(h)[0] == h);
        assert(hs.push(h).drop_first() =~= Seq::<HeaderModel>::empty());
        assert(enc_header_seq(hs.push(h)) =~= enc_header(h) + Seq::<u8>::empty());
        assert(enc_header_seq(hs) =~= Seq::<u8>::empty());
    } else {
        assert(hs.push(h)[0] == hs[0]);
        assert(hs.push(h).drop_first() =~= hs.drop_first().push(h));
        lemma_enc_header_seq_push(hs.drop_first(), h);
        assert(enc_header_seq(hs.push(h)) == enc_header(hs[0]) + enc_header_seq(
            hs.push(h).drop_first(),
        ));
    }
}

/// Appends a header list: count, then entries.
fn put_headers(out: &mut Vec<u8>, hs: &Vec<Header>)
    ensures
        final(out)@ == old(out)@ + enc_headers(headers_model(hs@)),
        encodable_headers(headers_model(hs@)),
{
    let ghost ms = headers_model(hs@);
    let n = hs.len();
    put_u64(out, n as u64);
    let mut i: usize = 0;
    while i < hs.len()
        invariant
            i <= hs@.len(),
            ms == headers_model(hs@),
            out@ == old(out)@ + enc_u64(hs@.len() as u64) + enc_header_seq(ms.take(i as int)),
            forall|k: int| 0 <= k < i ==> encodable_header(#[trigger] ms[k]),
        decreases hs@.len() - i,
    {
        put_header(out, &hs[i]);
        proof {
            assert(ms[i as int] == (hs@[i as int].0@, hs@[i as int].1@));
            assert(ms.take(i + 1) =~= ms.take(i as int).push(ms[i as int]));
            lemma_enc_header_seq_push(ms.take(i as int), ms[i as int]);
            assert(out@ =~= old(out)@ + enc_u64(hs@.len() as u64) + enc_header_seq(
                ms.take(i + 1),
            ));
        }
        i += 1;
    }
    proof {
        assert(ms.take(ms.len() as int) =~= ms);
        assert(out@ =~= old(out)@ + enc_headers(ms));
    }
}

/// Appends a request.
fn put_request(out: &mut Vec<u8>, r: &Request)
    ensures
        final(out)@ == old(out)@ + enc_request(r@),
        encodable_request(r@),
{
    put_str(out, &r.uri);
    put_str(out, &r.method);
    put_headers(out, &r.headers);
    put_bytes(out, &r.body);
    proof {
        assert(out@ =~= old(out)@ + enc_request(r@));
    }
}

/// Appends a response.
fn put_response(out: &mut Vec<u8>, r: &Response)
    ensures
        final(out)@ == old(out)@ + enc_response(r@),
        encodable_response(r@),
{
    put_u64(out, r.status as u64);
    put_headers(out, &r.headers);
    put_bytes(out, &r.body);
    proof {
        assert(out@ =~= old(out)@ + enc_response(r@));
    }
}

/// Appends an exchange.
fn put_exchange(out: &mut Vec<u8>, e: &Exchange)
    ensures
        final(out)@ == old(out)@ + enc_exchange(e@),
        encodable_exchange(e@),
{
    put_request(out, &e.request);
    put_response(out, &e.response);
    proof {
        assert(out@ =~= old(out)@ + enc_exchange(e@));
    }
}

/// One more exchange extends the encoded list body at its end.
proof fn lemma_enc_exchange_seq_push(xs: Seq<ExchangeModel>, e: ExchangeModel)
    ensures
        enc_exchange_seq(xs.push(e)) =~= enc_exchange_seq(xs) + enc_exchange(e),
    decreases xs.len(),
{
    if xs.len() == 0 {
        assert(xs.push(e)[0] == e);
        assert(xs.push(e).drop_first() =~= Seq::<ExchangeModel>::empty());
        assert(enc_exchange_seq(Seq::<ExchangeModel>::empty()) == Seq::<u8>::empty());
        assert(enc_exchange_seq(xs.push(e)) =~= enc_exchange(e) + Seq::<u8>::empty());
        assert(enc_exchange_seq(xs) =~= Seq::<u8>::empty());
    } else {
        assert(xs.push(e)[0] == xs[0]);
        assert(xs.push(e).drop_first() =~= xs.drop_first().push(e));
        lemma_enc_exchange_seq_push(xs.drop_first(), e);
        assert(enc_exchange_seq(xs.push(e)) == enc_exchange(xs[0]) + enc_exchange_seq(
            xs.push(e).drop_first(),
        ));
    }
}

/// Serializes an ordered exchange list to its on-disk bytes.
pub fn encode_cassette(xs: &Vec<Exchange>) -> (r: Vec<u8>)
    ensures
        r@ == enc_cassette(exchanges_model(xs@)),
        encodable_cassette(exchanges_model(xs@)),
{
    let ghost ms = exchanges_model(xs@);
    let mut out: Vec<u8> = Vec::new();
    let n = xs.len();
    put_u64(&mut out, n as u64);
    let mut i: usize = 0;
    while i < xs.len()
        invariant
            i <= xs@.len(),
            ms == exchanges_model(xs@),
            out@ == enc_u64(xs@.len() as u64) + enc_exchange_seq(ms.take(i as int)),
            forall|k: int| 0 <= k < i ==> encodable_exchange(#[trigger] ms[k]),
        decreases xs@.len() - i,
    {
        put_exchange(&mut out, &xs[i]);
        proof {
            assert(ms[i as int] == xs@[i as int]@);
            assert(ms.take(i + 1) =~= ms.take(i as int).push(ms[i as int]));
            lemma_enc_exchange_seq_push(ms.take(i as int), ms[i as int]);
            assert(out@ =~= enc_u64(xs@.len() as u64) + enc_exchange_seq(ms.take(i + 1)));
        }
        i += 1;
    }
    proof {
        assert(ms.take(ms.len() as int) =~= ms);
        assert(out@ =~= enc_cassette(ms));
    }
    out
}

// ---------------------------------------------------------------------------
// The executable decoder.
// ---------------------------------------------------------------------------

/// Relies on `String::from_utf8`: it succeeds exactly on valid UTF-8 input
/// and yields the string those bytes encode.
#[verifier::external_body]
fn string_from_utf8(bytes: Vec<u8>) -> (r: Option<String>)
    ensures
        r is Some <==> valid_utf8(bytes@),
        r matches Some(s) ==> s@ == decode_utf8(bytes@) && encode_utf8(s@) == bytes@,
{
    match String::from_utf8(bytes) {
        Ok(s) => Some(s),
        Err(_) => None,
    }
}

/// Reads a 64-bit length.
fn read_u64(buf: &Vec<u8>, pos: usize) -> (r: Option<(u64, usize)>)
    requires
        pos <= buf@.len(),
    ensures
        match r {
            Some((n, p)) => dec_u64(buf@, pos as int) == Some((n, p as int)) && p <= buf@.len(),
            None => dec_u64(buf@, pos as int) is None,
        },
{
    if buf.len() - pos >= 8 {
        let s = buf.as_slice();
        let piece = &s[pos..pos + 8];
        let n = u64_from_le_bytes(piece);
        Some((n, pos + 8))
    } else {
        None
    }
}

/// Reads a length-prefixed byte string.
fn read_bytes(buf: &Vec<u8>, pos: usize) -> (r: Option<(Vec<u8>, usize)>)
    requires
        pos <= buf@.len(),
    ensures
        match r {
            Some((data, p)) => dec_bytes(buf@, pos as int) == Some((data@, p as int)) && p
                <= buf@.len(),
            None => dec_bytes(buf@, pos as int) is None,
        },
{
    match read_u64(buf, pos) {
        Some((n, p)) => {
            if n <= (buf.len() - p) as u64 {
                let n_us = n as usize;
                let s = buf.as_slice();
                let piece = &s[p..p + n_us];
                let data = slice_to_vec(piece);
                Some((data, p + n_us))
            } else {
                None
            }
        }
        None => None,
    }
}

/// Reads a length-prefixed UTF-8 string.
fn read_str(buf: &Vec<u8>, pos: usize) -> (r: Option<(String, usize)>)
    requires
        pos <= buf@.len(),
    ensures
        match r {
            Some((s, p)) => dec_str(buf@, pos as int) == Some((s@, p as int)) && p <= buf@.len(),
            None => dec_str(buf@, pos as int) is None,
        },
{
    match read_bytes(buf, pos) {
        Some((data, p)) => match string_from_utf8(data) {
            Some(s) => Some((s, p)),
            None => None,
        },
        None => None,
    }
}

/// Reads a header pair.
fn read_header(buf: &Vec<u8>, pos: usize) -> (r: Option<(Header, usize)>)
    requires
        pos <= buf@.len(),
    ensures
        match r {
            Some((h, p)) => dec_header(buf@, pos as int) == Some(((h.0@, h.1@), p as int)) && p
                <= buf@.len(),
            None => dec_header(buf@, pos as int) is None,
        },
{
    match read_str(buf, pos) {
        Some((name, p)) => match read_str(buf, p) {
            Some((value, p2)) => Some(((name, value), p2)),
            None => None,
        },
        None => None,
    }
}

/// Reads a count-prefixed header list.
fn read_headers(buf: &Vec<u8>, pos: usize) -> (r: Option<(Vec<Header>, usize)>)
    requires
        pos <= buf@.len(),
    ensures
        match r {
            Some((hs, p)) => dec_headers(buf@, pos as int) == Some((headers_model(hs@), p as int))
                && p <= buf@.len(),
            None => dec_headers(buf@, pos as int) is None,
        },
{
    match read_u64(buf, pos) {
        Some((n, p0)) => {
            let mut hs: Vec<Header> = Vec::new();
            let mut cur = p0;
            let mut j: u64 = 0;
            proof {
                assert(headers_model(hs@) =~= Seq::<HeaderModel>::empty());
                assert(Seq::<HeaderModel>::empty() + dec_header_list(
                    buf@,
                    cur as int,
                    n as nat,
                )->Some_0.0 =~= dec_header_list(buf@, cur as int, n as nat)->Some_0.0);
                assert(dec_header_list(buf@, p0 as int, n as nat) == compose_headers(
                    headers_model(hs@),
                    dec_header_list(buf@, cur as int, (n - j) as nat),
                ));
            }
            while j < n
                invariant
                    j <= n,
                    cur <= buf@.len(),
                    dec_headers(buf@, pos as int) == dec_header_list(buf@, p0 as int, n as nat),
                    dec_header_list(buf@, p0 as int, n as nat) == compose_headers(
                        headers_model(hs@),
                        dec_header_list(buf@, cur as int, (n - j) as nat),
                    ),
                decreases n - j,
            {
                let ghost pre_hs = headers_model(hs@);
                match read_header(buf, cur) {
                    Some((h, p)) => {
                        let ghost hm = (h.0@, h.1@);
                        hs.push(h);
                        proof {
                            assert(headers_model(hs@) =~= pre_hs.push(hm));
                            lemma_header_list_step(buf@, cur as int, (n - j) as nat, hm, p as int);
                            let rest = dec_header_list(buf@, p as int, (n - j - 1) as nat);
                            match rest {
                                Some(pr) => {
                                    assert(pre_hs + (seq![hm] + pr.0) =~= pre_hs.push(hm) + pr.0);
                                }
                                None => {}
                            }
                        }
                        cur = p;
                        j += 1;
                    }
                    None => {
                        proof {
                            assert((n - j) as nat != 0);
                            assert(dec_header_list(buf@, cur as int, (n - j) as nat) is None);
                        }
                        return None;
                    }
                }
            }
            proof {
                assert(dec_header_list(buf@, cur as int, 0) == Some::<(Seq<HeaderModel>, int)>((
                    Seq::empty(),
                    cur as int,
                )));
                assert(headers_model(hs@) + Seq::<HeaderModel>::empty() =~= headers_model(hs@));
            }
            Some((hs, cur))
        }
        None => None,
    }
}

/// Prepends already-decoded entries to a decoder outcome.
pub open spec fn compose_headers(acc: Seq<HeaderModel>, r: Option<(Seq<HeaderModel>, int)>) -> Option<(Seq<HeaderModel>, int)> {
    match r {
        Some((hs, p)) => Some((acc + hs, p)),
        None => None,
    }
}

/// Unfolding one step of the header-list decoder.
proof fn lemma_header_list_step(b: Seq<u8>, pos: int, n: nat, h: HeaderModel, p: int)
    requires
        n > 0,
        dec_header(b, pos) == Some((h, p)),
    ensures
        dec_header_list(b, pos, n) == (match dec_header_list(b, p, (n - 1) as nat) {
            Some((hs, p2)) => Some::<(Seq<HeaderModel>, int)>((seq![h] + hs, p2)),
            None => None,
        }),
{
}

/// Reads a request.
fn read_request(buf: &Vec<u8>, pos: usize) -> (r: Option<(Request, usize)>)
    requires
        pos <= buf@.len(),
    ensures
        match r {
            Some((req, p)) => dec_request(buf@, pos as int) == Some((req@, p as int)) && p
                <= buf@.len(),
            None => dec_request(buf@, pos as int) is None,
        },
{
    match read_str(buf, pos) {
        Some((uri, p1)) => match read_str(buf, p1) {
            Some((method, p2)) => match read_headers(buf, p2) {
                Some((headers, p3)) => match read_bytes(buf, p3) {
                    Some((body, p4)) => Some((Request { uri, method, headers, body }, p4)),
                    None => None,
                },
                None => None,
            },
            None => None,
        },
        None => None,
    }
}

/// Reads a response.
fn read_response(buf: &Vec<u8>, pos: usize) -> (r: Option<(Response, usize)>)
    requires
        pos <= buf@.len(),
    ensures
        match r {
            Some((resp, p)) => dec_response(buf@, pos as int) == Some((resp@, p as int)) && p
                <= buf@.len(),
            None => dec_response(buf@, pos as int) is None,
        },
{
    match read_u64(buf, pos) {
        Some((status, p1)) => {
            if status <= u16::MAX as u64 {
                match read_headers(buf, p1) {
                    Some((headers, p2)) => match read_bytes(buf, p2) {
                        Some((body, p3)) => Some(
                            (Response { status: status as u16, headers, body }, p3),
                        ),
                        None => None,
                    },
                    None => None,
                }
            } else {
                None
            }
        }
        None => None,
    }
}

/// Reads an exchange.
fn read_exchange(buf: &Vec<u8>, pos: usize) -> (r: Option<(Exchange, usize)>)
    requires
        pos <= buf@.len(),
    ensures
        match r {
            Some((e, p)) => dec_exchange(buf@, pos as int) == Some((e@, p as int)) && p
                <= buf@.len(),
            None => dec_exchange(buf@, pos as int) is None,
        },
{
    match read_request(buf, pos) {
        Some((request, p1)) => match read_response(buf, p1) {
            Some((response, p2)) => Some((Exchange { request, response }, p2)),
            None => None,
        },
        None => None,
    }
}

/// Prepends already-decoded entries to a decoder outcome.
pub open spec fn compose_exchanges(acc: Seq<ExchangeModel>, r: Option<(Seq<ExchangeModel>, int)>) -> Option<(Seq<ExchangeModel>, int)> {
    match r {
        Some((xs, p)) => Some((acc + xs, p)),
        None => None,
    }
}

/// Unfolding one step of the exchange-list decoder.
proof fn lemma_exchange_list_step(b: Seq<u8>, pos: int, n: nat, e: ExchangeModel, p: int)
    requires
        n > 0,
        dec_exchange(b, pos) == Some((e, p)),
    ensures
        dec_exchange_list(b, pos, n) == (match dec_exchange_list(b, p, (n - 1) as nat) {
            Some((xs, p2)) => Some::<(Seq<ExchangeModel>, int)>((seq![e] + xs, p2)),
            None => None,
        }),
{
}

/// Deserializes cassette bytes. An empty input is a well-defined empty
/// cassette; anything else must parse completely, or the cassette is
/// rejected as malformed.
pub fn decode_cassette(buf: &Vec<u8>) -> (r: Result<Vec<Exchange>, DecodeError>)
    ensures
        r is Ok <==> dec_cassette(buf@) is Some,
        r matches Ok(v) ==> dec_cassette(buf@) == Some(exchanges_model(v@)),
{
    if buf.len() == 0 {
        let empty: Vec<Exchange> = Vec::new();
        proof {
            assert(exchanges_model(empty@) =~= Seq::<ExchangeModel>::empty());
        }
        return Ok(empty);
    }
    match read_u64(buf, 0) {
        Some((n, p0)) => {
            let mut xs: Vec<Exchange> = Vec::new();
            let mut cur = p0;
            let mut j: u64 = 0;
            proof {
                assert(exchanges_model(xs@) =~= Seq::<ExchangeModel>::empty());
                assert(Seq::<ExchangeModel>::empty() + dec_exchange_list(
                    buf@,
                    cur as int,
                    n as nat,
                )->Some_0.0 =~= dec_exchange_list(buf@, cur as int, n as nat)->Some_0.0);
                assert(dec_exchange_list(buf@, p0 as int, n as nat) == compose_exchanges(
                    exchanges_model(xs@),
                    dec_exchange_list(buf@, cur as int, (n - j) as nat),
                ));
            }
            while j < n
                invariant
                    j <= n,
                    cur <= buf@.len(),
                    buf@.len() != 0,
                    dec_u64(buf@, 0) == Some((n, p0 as int)),
                    dec_exchange_list(buf@, p0 as int, n as nat) == compose_exchanges(
                        exchanges_model(xs@),
                        dec_exchange_list(buf@, cur as int, (n - j) as nat),
                    ),
                decreases n - j,
            {
                let ghost pre_xs = exchanges_model(xs@);
                match read_exchange(buf, cur) {
                    Some((e, p)) => {
                        let ghost em = e@;
                        xs.push(e);
                        proof {
                            assert(exchanges_model(xs@) =~= pre_xs.push(em));
                            lemma_exchange_list_step(buf@, cur as int, (n - j) as nat, em, p as int);
                            let rest = dec_exchange_list(buf@, p as int, (n - j - 1) as nat);
                            match rest {
                                Some(pr) => {
                                    assert(pre_xs + (seq![em] + pr.0) =~= pre_xs.push(em) + pr.0);
                                }
                                None => {}
                            }
                        }
                        cur = p;
                        j += 1;
                    }
                    None => {
                        proof {
                            assert((n - j) as nat != 0);
                            assert(dec_exchange_list(buf@, cur as int, (n - j) as nat) is None);
                        }
                        return Err(DecodeError::Malformed);
                    }
                }
            }
            proof {
                assert(dec_exchange_list(buf@, cur as int, 0) == Some::<(Seq<ExchangeModel>, int)>(
                    (Seq::empty(), cur as int),
                ));
                assert(exchanges_model(xs@) + Seq::<ExchangeModel>::empty() =~= exchanges_model(
                    xs@,
                ));
            }
            if cur == buf.len() {
                Ok(xs)
            } else {
                Err(DecodeError::Malformed)
            }
        }
        None => Err(DecodeError::Malformed),
    }
}

} // verus!
