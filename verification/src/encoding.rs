//! The reversible mapping between server URLs and on-disk directory names:
//! URL-safe, unpadded base64 of the URL's UTF-8 bytes.

use vstd::prelude::*;
use vstd::utf8::{valid_utf8, decode_utf8, encode_utf8};
use vstd::utf8::{encode_utf8_valid_utf8, encode_utf8_decode_utf8};
use vstd::string::StringSliceAdditionalSpecFns;

use crate::error::Error;
use crate::text::bytes_to_string;

verus! {

/// The digit of the URL-safe base64 alphabet for a value below 64:
/// `A`-`Z`, then `a`-`z`, then `0`-`9`, then `-` and `_`.
pub open spec fn b64_char(v: int) -> char
    recommends
        0 <= v < 64,
{
    if v < 26 {
        ((65 + v) as u8) as char
    } else if v < 52 {
        ((71 + v) as u8) as char
    } else if v < 62 {
        ((v - 4) as u8) as char
    } else if v == 62 {
        '-'
    } else {
        '_'
    }
}

/// The value of a URL-safe base64 digit, or -1 for a character
/// outside the alphabet.
pub open spec fn b64_val(c: char) -> int {
    let u = c as u32;
    if 65 <= u < 91 {
        u - 65
    } else if 97 <= u < 123 {
        u - 71
    } else if 48 <= u < 58 {
        u + 4
    } else if u == 45 {
        62
    } else if u == 95 {
        63
    } else {
        -1
    }
}

/// Whether a character belongs to the URL-safe base64 alphabet.
pub open spec fn is_b64_char(c: char) -> bool {
    b64_val(c) >= 0
}

/// The four digits encoding one full group of three bytes.
pub open spec fn encode_group(b0: u8, b1: u8, b2: u8) -> Seq<char> {
    seq![
        b64_char((b0 >> 2) as int),
        b64_char((((b0 & 3) << 4) | (b1 >> 4)) as int),
        b64_char((((b1 & 15) << 2) | (b2 >> 6)) as int),
        b64_char((b2 & 63) as int),
    ]
}

/// URL-safe, unpadded base64 of a byte sequence (RFC 4648 section 5,
/// with no `=` padding): full groups of three bytes become four digits,
/// a trailing byte becomes two, two trailing bytes become three.
pub open spec fn b64_encode(bytes: Seq<u8>) -> Seq<char>
    decreases bytes.len(),
{
    if bytes.len() == 0 {
        Seq::<char>::empty()
    } else if bytes.len() == 1 {
        seq![
            b64_char((bytes[0] >> 2) as int),
            b64_char(((bytes[0] & 3) << 4) as int),
        ]
    } else if bytes.len() == 2 {
        seq![
            b64_char((bytes[0] >> 2) as int),
            b64_char((((bytes[0] & 3) << 4) | (bytes[1] >> 4)) as int),
            b64_char(((bytes[1] & 15) << 2) as int),
        ]
    } else {
        encode_group(bytes[0], bytes[1], bytes[2]) + b64_encode(bytes.skip(3))
    }
}

/// The inverse of [`b64_encode`]: `Some` exactly on its image, that is on
/// sequences of alphabet digits whose length leaves remainder 0, 2 or 3
/// modulo four and whose final digit carries no leftover bits.
pub open spec fn b64_decode(s: Seq<char>) -> Option<Seq<u8>>
    decreases s.len(),
{
    if s.len() == 0 {
        Some(Seq::<u8>::empty())
    } else if s.len() == 1 {
        None
    } else if s.len() == 2 {
        let v0 = b64_val(s[0]);
        let v1 = b64_val(s[1]);
        if v0 >= 0 && v1 >= 0 && (v1 as u8) & 15 == 0 {
            Some(seq![((v0 as u8) << 2) | ((v1 as u8) >> 4)])
        } else {
            None
        }
    } else if s.len() == 3 {
        let v0 = b64_val(s[0]);
        let v1 = b64_val(s[1]);
        let v2 = b64_val(s[2]);
        if v0 >= 0 && v1 >= 0 && v2 >= 0 && (v2 as u8) & 3 == 0 {
            Some(
                seq![
                    ((v0 as u8) << 2) | ((v1 as u8) >> 4),
                    (((v1 as u8) & 15) << 4) | ((v2 as u8) >> 2),
                ],
            )
        } else {
            None
        }
    } else {
        let v0 = b64_val(s[0]);
        let v1 = b64_val(s[1]);
        let v2 = b64_val(s[2]);
        let v3 = b64_val(s[3]);
        if v0 >= 0 && v1 >= 0 && v2 >= 0 && v3 >= 0 {
            match b64_decode(s.skip(4)) {
                Some(rest) => Some(
                    seq![
                        ((v0 as u8) << 2) | ((v1 as u8) >> 4),
                        (((v1 as u8) & 15) << 4) | ((v2 as u8) >> 2),
                        (((v2 as u8) & 3) << 6) | (v3 as u8),
                    ] + rest,
                ),
                None => None,
            }
        } else {
            None
        }
    }
}

/// Each alphabet digit decodes back to the value it was made from.
pub proof fn lemma_b64_val_char(v: int)
    requires
        0 <= v < 64,
    ensures
        b64_val(b64_char(v)) == v,
        is_b64_char(b64_char(v)),
{
}

/// Law: decoding an encoded byte sequence recovers it exactly.
pub proof fn lemma_b64_round_trip(bytes: Seq<u8>)
    ensures
        b64_decode(b64_encode(bytes)) == Some(bytes),
    decreases bytes.len(),
{
    if bytes.len() == 0 {
        assert(bytes =~= Seq::<u8>::empty());
    } else if bytes.len() == 1 {
        let b0 = bytes[0];
        assert(b0 >> 2 < 64 && (b0 & 3) << 4 < 64) by (bit_vector);
        lemma_b64_val_char((b0 >> 2) as int);
        lemma_b64_val_char(((b0 & 3) << 4) as int);
        assert(((b0 & 3) << 4) & 15 == 0) by (bit_vector);
        assert(((b0 >> 2) << 2) | (((b0 & 3) << 4) >> 4) == b0) by (bit_vector);
        assert(b64_decode(b64_encode(bytes))->Some_0 =~= bytes);
    } else if bytes.len() == 2 {
        let b0 = bytes[0];
        let b1 = bytes[1];
        assert(b0 >> 2 < 64 && ((b0 & 3) << 4) | (b1 >> 4) < 64 && (b1 & 15) << 2 < 64)
            by (bit_vector);
        lemma_b64_val_char((b0 >> 2) as int);
        lemma_b64_val_char((((b0 & 3) << 4) | (b1 >> 4)) as int);
        lemma_b64_val_char(((b1 & 15) << 2) as int);
        assert(((b1 & 15) << 2) & 3 == 0) by (bit_vector);
        assert(((b0 >> 2) << 2) | ((((b0 & 3) << 4) | (b1 >> 4)) >> 4) == b0) by (bit_vector);
        assert((((((b0 & 3) << 4) | (b1 >> 4)) & 15) << 4) | (((b1 & 15) << 2) >> 2) == b1)
            by (bit_vector);
        assert(b64_decode(b64_encode(bytes))->Some_0 =~= bytes);
    } else {
        let b0 = bytes[0];
        let b1 = bytes[1];
        let b2 = bytes[2];
        let s = b64_encode(bytes);
        assert(b0 >> 2 < 64 && ((b0 & 3) << 4) | (b1 >> 4) < 64 && ((b1 & 15) << 2) | (b2 >> 6)
            < 64 && b2 & 63 < 64) by (bit_vector);
        lemma_b64_val_char((b0 >> 2) as int);
        lemma_b64_val_char((((b0 & 3) << 4) | (b1 >> 4)) as int);
        lemma_b64_val_char((((b1 & 15) << 2) | (b2 >> 6)) as int);
        lemma_b64_val_char((b2 & 63) as int);
        lemma_b64_round_trip(bytes.skip(3));
        assert(s.skip(4) =~= b64_encode(bytes.skip(3)));
        assert(((b0 >> 2) << 2) | ((((b0 & 3) << 4) | (b1 >> 4)) >> 4) == b0) by (bit_vector);
        assert((((((b0 & 3) << 4) | (b1 >> 4)) & 15) << 4) | (((((b1 & 15) << 2) | (b2 >> 6)))
            >> 2) == b1) by (bit_vector);
        assert(((((((b1 & 15) << 2) | (b2 >> 6))) & 3) << 6) | (b2 & 63) == b2) by (bit_vector);
        assert(b64_decode(s)->Some_0 =~= bytes);
    }
}

/// Law: the encoding is injective; distinct byte sequences never share
/// an encoded form.
pub proof fn lemma_b64_encode_injective(a: Seq<u8>, b: Seq<u8>)
    requires
        b64_encode(a) == b64_encode(b),
    ensures
        a == b,
{
    lemma_b64_round_trip(a);
    lemma_b64_round_trip(b);
}

/// Law: for every server URL, decoding its encoded directory name
/// recovers the URL exactly, character for character.
pub proof fn lemma_server_url_round_trip(url: Seq<char>)
    ensures
        b64_decode(b64_encode(encode_utf8(url))) == Some(encode_utf8(url)),
        valid_utf8(encode_utf8(url)),
        decode_utf8(encode_utf8(url)) == url,
{
    lemma_b64_round_trip(encode_utf8(url));
    encode_utf8_valid_utf8(url);
    encode_utf8_decode_utf8(url);
}

/// Law: distinct server URLs never produce the same encoded directory name.
pub proof fn lemma_encode_server_url_injective(u1: Seq<char>, u2: Seq<char>)
    requires
        b64_encode(encode_utf8(u1)) == b64_encode(encode_utf8(u2)),
    ensures
        u1 == u2,
{
    lemma_b64_encode_injective(encode_utf8(u1), encode_utf8(u2));
    encode_utf8_decode_utf8(u1);
    encode_utf8_decode_utf8(u2);
}

/// Relies on `base64_url::encode` (the `URL_SAFE_NO_PAD` engine of the
/// `base64` crate): URL-safe, unpadded base64 of the input bytes.
#[verifier::external_body]
fn b64url_encode(bytes: &[u8]) -> (r: String)
    ensures
        r@ == b64_encode(bytes@),
{
    base64_url::encode(bytes)
}

/// The error type of the `base64` crate's decoder, carried through
/// [`b64url_decode`] and mapped to [`Error::Decode`] by callers.
#[verifier::external_type_specification]
#[verifier::external_body]
pub struct ExDecodeError(base64_url::base64::DecodeError);

/// Relies on `base64_url::decode` (the `URL_SAFE_NO_PAD` engine of the
/// `base64` crate): it accepts exactly the sequences of alphabet digits
/// whose length leaves remainder 0, 2 or 3 modulo four and whose final
/// digit carries no leftover bits - the image of the encoder - and then
/// returns the bytes that encode to the input. A character outside the
/// alphabet occupies only non-alphabet bytes in UTF-8, so checking the
/// characters and checking the bytes agree.
#[verifier::external_body]
fn b64url_decode(s: &str) -> (r: Result<Vec<u8>, base64_url::base64::DecodeError>)
    ensures
        r is Ok <==> b64_decode(s@) is Some,
        r is Ok ==> Some(r->Ok_0@) == b64_decode(s@),
{
    base64_url::decode(s)
}

/// Encodes a server URL as the directory name that stores its entries.
pub fn encode_server_url(url: &str) -> (r: String)
    ensures
        r@ == b64_encode(url.spec_bytes()),
{
    let bytes = url.as_bytes();
    b64url_encode(bytes)
}

/// Decodes a directory name back to the server URL it was made from.
///
/// Fails with [`Error::Decode`] when the name is not valid encoded data
/// or the decoded bytes are not valid UTF-8.
pub fn decode_server_url(encoded: &str) -> (r: Result<String, Error>)
    ensures
        r is Ok <==> (b64_decode(encoded@) is Some && valid_utf8(b64_decode(encoded@)->Some_0)),
        r is Ok ==> r->Ok_0@ == decode_utf8(b64_decode(encoded@)->Some_0),
        r is Err ==> r->Err_0 == Error::Decode,
{
    match b64url_decode(encoded) {
        Ok(bytes) => match bytes_to_string(&bytes) {
            Some(url) => Ok(url),
            None => Err(Error::Decode),
        },
        Err(_) => Err(Error::Decode),
    }
}

} // verus!
