//! Body decoding and content hashes of captured flows.
use vstd::prelude::*;
use base64::Engine;
use sha2::Digest;
use crate::order::pairs_view;
use crate::text::push_char;

verus! {

/// The bytes that standard Base64 (RFC 4648 alphabet, with padding) decodes
/// a text to, or `None` when it is not valid standard Base64.
pub uninterp spec fn base64_decode(text: Seq<char>) -> Option<Seq<u8>>;

/// The SHA-256 digest of a byte sequence.
pub uninterp spec fn sha256_digest(data: Seq<u8>) -> Seq<u8>;

/// `base64::engine::general_purpose::STANDARD.decode`: the decoded bytes,
/// `None` on a decode error. The result is named by [`base64_decode`].
#[verifier::external_body]
pub(crate) fn decode_base64(text: &str) -> (r: Option<Vec<u8>>)
    ensures
        match r {
            Some(b) => base64_decode(text@) == Some(b@),
            None => base64_decode(text@) is None,
        },
{
    base64::engine::general_purpose::STANDARD.decode(text).ok()
}

/// `sha2::Sha256::digest`: the 32-byte digest, named by [`sha256_digest`].
#[verifier::external_body]
pub(crate) fn sha256(data: &[u8]) -> (r: Vec<u8>)
    ensures
        r@ == sha256_digest(data@),
        r@.len() == 32,
{
    sha2::Sha256::digest(data).to_vec()
}

/// Lower-case hexadecimal digit of `d < 16`.
pub open spec fn hex_digit(d: int) -> char {
    if d < 10 {
        (48 + d) as char
    } else {
        (87 + d) as char
    }
}

/// Two lower-case hexadecimal digits per byte (`format!("{:02x}")` of each).
pub open spec fn hex(bytes: Seq<u8>) -> Seq<char>
    decreases bytes.len(),
{
    if bytes.len() == 0 {
        Seq::empty()
    } else {
        hex(bytes.drop_last()) + seq![
            hex_digit(bytes.last() as int / 16),
            hex_digit(bytes.last() as int % 16),
        ]
    }
}

fn nibble_char(d: u8) -> (c: char)
    requires
        d < 16,
    ensures
        c == hex_digit(d as int),
{
    if d < 10 {
        (d + 48u8) as char
    } else {
        (d + 87u8) as char
    }
}

/// Lower-case hexadecimal text of bytes.
pub fn to_hex(bytes: &[u8]) -> (r: String)
    ensures
        r@ == hex(bytes@),
{
    let mut out = String::new();
    let n = bytes.len();
    let mut i: usize = 0;
    while i < n
        invariant
            n == bytes@.len(),
            i <= n,
            out@ == hex(bytes@.take(i as int)),
        decreases n - i,
    {
        let b = bytes[i];
        push_char(&mut out, nibble_char(b / 16));
        push_char(&mut out, nibble_char(b % 16));
        assert(bytes@.take(i + 1).drop_last() =~= bytes@.take(i as int));
        assert(out@ =~= hex(bytes@.take(i + 1)));
        i = i + 1;
    }
    assert(bytes@.take(n as int) =~= bytes@);
    out
}

/// Hex SHA-256 of bytes.
pub fn hash_bytes(data: &[u8]) -> (r: String)
    ensures
        r@ == hex(sha256_digest(data@)),
{
    let d = sha256(data);
    to_hex(d.as_slice())
}

/// The bytes hashed for a header list: `name:value\n` for each header, in
/// order, in UTF-8.
pub open spec fn header_bytes(h: Seq<(Seq<char>, Seq<char>)>) -> Seq<u8>
    decreases h.len(),
{
    if h.len() == 0 {
        Seq::empty()
    } else {
        header_bytes(h.drop_last()) + vstd::utf8::encode_utf8(h.last().0) + seq![58u8]
            + vstd::utf8::encode_utf8(h.last().1) + seq![10u8]
    }
}

fn push_bytes(out: &mut Vec<u8>, b: &[u8])
    ensures
        final(out)@ == old(out)@ + b@,
{
    let n = b.len();
    let mut i: usize = 0;
    while i < n
        invariant
            n == b@.len(),
            i <= n,
            out@ == old(out)@ + b@.take(i as int),
        decreases n - i,
    {
        out.push(b[i]);
        assert(b@.take(i + 1) =~= b@.take(i as int).push(b@[i as int]));
        i = i + 1;
    }
    assert(b@.take(n as int) =~= b@);
}

/// Hex SHA-256 of a header list (see [`header_bytes`]); the list is hashed
/// in the order given.
pub fn hash_headers(headers: &Vec<(String, String)>) -> (r: String)
    ensures
        r@ == hex(sha256_digest(header_bytes(pairs_view(headers@)))),
{
    let ghost hv = pairs_view(headers@);
    let mut buf: Vec<u8> = Vec::new();
    let n = headers.len();
    let mut i: usize = 0;
    while i < n
        invariant
            n == headers@.len(),
            hv == pairs_view(headers@),
            i <= n,
            buf@ == header_bytes(hv.take(i as int)),
        decreases n - i,
    {
        let k = headers[i].0.as_str();
        let v = headers[i].1.as_str();
        push_bytes(&mut buf, k.as_bytes());
        buf.push(58u8);
        push_bytes(&mut buf, v.as_bytes());
        buf.push(10u8);
        assert(hv.take(i + 1).drop_last() =~= hv.take(i as int));
        assert(hv.take(i + 1).last() == (k@, v@));
        assert(buf@ =~= header_bytes(hv.take(i + 1)));
        i = i + 1;
    }
    assert(hv.take(n as int) =~= hv);
    let d = sha256(buf.as_slice());
    to_hex(d.as_slice())
}

} // verus!
