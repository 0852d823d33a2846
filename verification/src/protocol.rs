//! The JSON protocol spoken on standard input and output: a credential
//! record comes in as one object of three string fields, and the `get`
//! and `list` answers go out as objects of string fields. Field names
//! are an inter-process contract and are reproduced byte for byte.

use vstd::prelude::*;
use vstd::utf8::{valid_utf8, decode_utf8};

use crate::error::Error;
use crate::text::bytes_to_string;

verus! {

// ---------------------------------------------------------------------
// Writing: JSON text for the `get` and `list` answers.
// ---------------------------------------------------------------------
/// The hexadecimal digit for a value below 16, in lower case.
pub open spec fn hex_digit(v: u8) -> u8 {
    if v < 10 {
        (48 + v) as u8
    } else {
        (87 + v) as u8
    }
}

/// How one byte of a string appears inside a JSON string literal:
/// quote and backslash get a backslash escape, the named control
/// characters their short escapes, other control bytes a `\u00XX`
/// escape, and everything else stands as itself.
pub open spec fn json_escape_byte(b: u8) -> Seq<u8> {
    if b == 34 {
        seq![92u8, 34u8]
    } else if b == 92 {
        seq![92u8, 92u8]
    } else if b == 8 {
        seq![92u8, 98u8]
    } else if b == 9 {
        seq![92u8, 116u8]
    } else if b == 10 {
        seq![92u8, 110u8]
    } else if b == 12 {
        seq![92u8, 102u8]
    } else if b == 13 {
        seq![92u8, 114u8]
    } else if b < 32 {
        seq![92u8, 117u8, 48u8, 48u8, hex_digit(b >> 4), hex_digit(b & 15)]
    } else {
        seq![b]
    }
}

/// A whole string escaped for JSON, byte by byte.
pub open spec fn json_escape(s: Seq<u8>) -> Seq<u8>
    decreases s.len(),
{
    if s.len() == 0 {
        Seq::<u8>::empty()
    } else {
        json_escape_byte(s[0]) + json_escape(s.drop_first())
    }
}

/// A JSON string literal: the escaped bytes between quotes.
pub open spec fn json_string(s: Seq<u8>) -> Seq<u8> {
    seq![34u8] + json_escape(s) + seq![34u8]
}

/// One `"key":"value"` member.
pub open spec fn json_member(k: Seq<u8>, v: Seq<u8>) -> Seq<u8> {
    json_string(k) + seq![58u8] + json_string(v)
}

/// The bytes of the field name `ServerURL`.
pub open spec fn key_server_url() -> Seq<u8> {
    seq![83u8, 101u8, 114u8, 118u8, 101u8, 114u8, 85u8, 82u8, 76u8]
}

/// The bytes of the field name `Username`.
pub open spec fn key_username() -> Seq<u8> {
    seq![85u8, 115u8, 101u8, 114u8, 110u8, 97u8, 109u8, 101u8]
}

/// The bytes of the field name `Secret`.
pub open spec fn key_secret() -> Seq<u8> {
    seq![83u8, 101u8, 99u8, 114u8, 101u8, 116u8]
}

/// The `get` answer: one object with exactly the fields `Username` and
/// `Secret`, in that order.
pub open spec fn get_response_bytes(username: Seq<u8>, secret: Seq<u8>) -> Seq<u8> {
    seq![123u8] + json_member(key_username(), username) + seq![44u8] + json_member(
        key_secret(),
        secret,
    ) + seq![125u8]
}

/// The members of the `list` answer, in the order given, separated by
/// commas.
pub open spec fn list_members(pairs: Seq<(Seq<u8>, Seq<u8>)>) -> Seq<u8>
    decreases pairs.len(),
{
    if pairs.len() == 0 {
        Seq::<u8>::empty()
    } else if pairs.len() == 1 {
        json_member(pairs[0].0, pairs[0].1)
    } else {
        json_member(pairs[0].0, pairs[0].1) + seq![44u8] + list_members(pairs.drop_first())
    }
}

/// The `list` answer: one object whose keys are server URLs and whose
/// values are the matching usernames, in the order given.
pub open spec fn list_response_bytes(pairs: Seq<(Seq<u8>, Seq<u8>)>) -> Seq<u8> {
    seq![123u8] + list_members(pairs) + seq![125u8]
}

/// Escaping distributes over appending one byte at the end.
pub proof fn lemma_json_escape_snoc(s: Seq<u8>, b: u8)
    ensures
        json_escape(s.push(b)) == json_escape(s) + json_escape_byte(b),
    decreases s.len(),
{
    if s.len() == 0 {
        let t = s.push(b).drop_first();
        assert(s.push(b)[0] == b);
        assert(t =~= Seq::<u8>::empty());
        assert(json_escape(t) =~= Seq::<u8>::empty());
        assert(json_escape(s.push(b)) =~= json_escape(s) + json_escape_byte(b));
    } else {
        lemma_json_escape_snoc(s.drop_first(), b);
        assert(s.push(b).drop_first() =~= s.drop_first().push(b));
        assert(s.push(b)[0] == s[0]);
        assert(json_escape(s.push(b)) =~= json_escape(s) + json_escape_byte(b));
    }
}

/// The member list distributes over appending one pair at the end.
pub proof fn lemma_list_members_snoc(pairs: Seq<(Seq<u8>, Seq<u8>)>, p: (Seq<u8>, Seq<u8>))
    ensures
        list_members(pairs.push(p)) == if pairs.len() == 0 {
            json_member(p.0, p.1)
        } else {
            list_members(pairs) + seq![44u8] + json_member(p.0, p.1)
        },
    decreases pairs.len(),
{
    if pairs.len() == 0 {
        assert(pairs.push(p)[0] == p);
    } else {
        lemma_list_members_snoc(pairs.drop_first(), p);
        assert(pairs.push(p).drop_first() =~= pairs.drop_first().push(p));
        assert(pairs.push(p)[0] == pairs[0]);
        if pairs.len() == 1 {
            assert(pairs.drop_first().len() == 0);
            assert(list_members(pairs.push(p)) =~= list_members(pairs) + seq![44u8] + json_member(
                p.0,
                p.1,
            ));
        } else {
            assert(list_members(pairs.push(p)) =~= list_members(pairs) + seq![44u8] + json_member(
                p.0,
                p.1,
            ));
        }
    }
}

/// Appends the JSON escape of every byte of `s` to `out`.
fn push_escaped(out: &mut Vec<u8>, s: &Vec<u8>)
    ensures
        final(out)@ == old(out)@ + json_escape(s@),
{
    let mut i: usize = 0;
    let n = s.len();
    proof {
        assert(s@.take(0) =~= Seq::<u8>::empty());
        assert(out@ + json_escape(s@.take(0)) =~= out@);
    }
    while i < n
        invariant
            0 <= i <= n == s@.len(),
            out@ == old(out)@ + json_escape(s@.take(i as int)),
        decreases n - i,
    {
        let b = s[i];
        proof {
            lemma_json_escape_snoc(s@.take(i as int), b);
            assert(s@.take(i as int).push(b) =~= s@.take(i as int + 1));
        }
        if b == 34 {
            out.push(92);
            out.push(34);
        } else if b == 92 {
            out.push(92);
            out.push(92);
        } else if b == 8 {
            out.push(92);
            out.push(98);
        } else if b == 9 {
            out.push(92);
            out.push(116);
        } else if b == 10 {
            out.push(92);
            out.push(110);
        } else if b == 12 {
            out.push(92);
            out.push(102);
        } else if b == 13 {
            out.push(92);
            out.push(114);
        } else if b < 32 {
            out.push(92);
            out.push(117);
            out.push(48);
            out.push(48);
            proof {
                assert(b >> 4 <= 15 && b & 15 <= 15) by (bit_vector);
            }
            let hi = b >> 4;
            let lo = b & 15;
            out.push(if hi < 10 { 48 + hi } else { 87 + hi });
            out.push(if lo < 10 { 48 + lo } else { 87 + lo });
        } else {
            out.push(b);
        }
        proof {
            assert(out@ =~= old(out)@ + json_escape(s@.take(i as int + 1)));
        }
        i = i + 1;
    }
    proof {
        assert(s@.take(n as int) =~= s@);
    }
}

/// Appends the JSON string literal for `s` to `out`.
fn push_json_string(out: &mut Vec<u8>, s: &Vec<u8>)
    ensures
        final(out)@ == old(out)@ + json_string(s@),
{
    out.push(34);
    push_escaped(out, s);
    out.push(34);
    proof {
        assert(out@ =~= old(out)@ + json_string(s@));
    }
}

/// The bytes of the field name `Username`, for writing.
fn key_username_vec() -> (r: Vec<u8>)
    ensures
        r@ == key_username(),
{
    let mut r: Vec<u8> = Vec::new();
    r.push(85);
    r.push(115);
    r.push(101);
    r.push(114);
    r.push(110);
    r.push(97);
    r.push(109);
    r.push(101);
    proof {
        assert(r@ =~= key_username());
    }
    r
}

/// The bytes of the field name `Secret`, for writing.
fn key_secret_vec() -> (r: Vec<u8>)
    ensures
        r@ == key_secret(),
{
    let mut r: Vec<u8> = Vec::new();
    r.push(83);
    r.push(101);
    r.push(99);
    r.push(114);
    r.push(101);
    r.push(116);
    proof {
        assert(r@ =~= key_secret());
    }
    r
}

/// Serializes the `get` answer: `{"Username":"...","Secret":"..."}`,
/// with both values escaped.
pub fn encode_get_response(username: &Vec<u8>, secret: &Vec<u8>) -> (r: Vec<u8>)
    ensures
        r@ == get_response_bytes(username@, secret@),
{
    let mut r: Vec<u8> = Vec::new();
    r.push(123);
    let ku = key_username_vec();
    push_json_string(&mut r, &ku);
    r.push(58);
    push_json_string(&mut r, username);
    r.push(44);
    let ks = key_secret_vec();
    push_json_string(&mut r, &ks);
    r.push(58);
    push_json_string(&mut r, secret);
    r.push(125);
    proof {
        assert(r@ =~= get_response_bytes(username@, secret@));
    }
    r
}

/// Serializes the `list` answer: one object with a `"url":"username"`
/// member for every pair, in the order given; `{}` when there are none.
pub fn encode_list_response(pairs: &Vec<(Vec<u8>, Vec<u8>)>) -> (r: Vec<u8>)
    ensures
        r@ == list_response_bytes(pairs.deep_view()),
{
    let mut r: Vec<u8> = Vec::new();
    r.push(123);
    let mut i: usize = 0;
    let n = pairs.len();
    proof {
        assert(pairs.deep_view().take(0) =~~= Seq::<(Seq<u8>, Seq<u8>)>::empty());
        assert(r@ =~= seq![123u8] + list_members(pairs.deep_view().take(0)));
    }
    while i < n
        invariant
            0 <= i <= n == pairs@.len(),
            pairs.deep_view().len() == n,
            r@ == seq![123u8] + list_members(pairs.deep_view().take(i as int)),
        decreases n - i,
    {
        proof {
            lemma_list_members_snoc(
                pairs.deep_view().take(i as int),
                pairs.deep_view()[i as int],
            );
            assert(pairs.deep_view().take(i as int).push(pairs.deep_view()[i as int])
                =~~= pairs.deep_view().take(i as int + 1));
        }
        if i > 0 {
            r.push(44);
        }
        let p = &pairs[i];
        proof {
            assert(pairs.deep_view()[i as int] == (pairs@[i as int].0@, pairs@[i as int].1@));
        }
        push_json_string(&mut r, &p.0);
        r.push(58);
        push_json_string(&mut r, &p.1);
        proof {
            assert(r@ =~= seq![123u8] + list_members(pairs.deep_view().take(i as int + 1)));
        }
        i = i + 1;
    }
    r.push(125);
    proof {
        assert(pairs.deep_view().take(n as int) =~~= pairs.deep_view());
        assert(r@ =~= list_response_bytes(pairs.deep_view()));
    }
    r
}

// ---------------------------------------------------------------------
// Reading: the credential record sent to `store`.
// ---------------------------------------------------------------------
/// JSON insignificant whitespace.
pub open spec fn is_json_ws(b: u8) -> bool {
    b == 32 || b == 9 || b == 10 || b == 13
}

/// The first index at or after `i` that holds no whitespace, at most the
/// length.
pub open spec fn skip_ws(s: Seq<u8>, i: int) -> int
    decreases s.len() - i,
{
    if 0 <= i < s.len() && is_json_ws(s[i]) {
        skip_ws(s, i + 1)
    } else {
        i
    }
}

/// Whether byte `b` stands at index `i`.
pub open spec fn at_byte(s: Seq<u8>, i: int, b: u8) -> bool {
    0 <= i < s.len() && s[i] == b
}

/// A parse result with `pre` put before the parsed bytes.
pub open spec fn prepend_bytes(pre: Seq<u8>, r: Option<(Seq<u8>, int)>) -> Option<(Seq<u8>, int)> {
    match r {
        Some(p) => Some((pre + p.0, p.1)),
        None => None,
    }
}

/// Nothing prepended changes nothing.
pub proof fn lemma_prepend_empty(r: Option<(Seq<u8>, int)>)
    ensures
        prepend_bytes(Seq::<u8>::empty(), r) == r,
{
    match r {
        Some(p) => {
            assert(Seq::<u8>::empty() + p.0 =~= p.0);
        },
        None => {},
    }
}

/// Prepending twice is prepending the concatenation.
pub proof fn lemma_prepend_assoc(a: Seq<u8>, b: Seq<u8>, r: Option<(Seq<u8>, int)>)
    ensures
        prepend_bytes(a, prepend_bytes(b, r)) == prepend_bytes(a + b, r),
{
    match r {
        Some(p) => {
            assert(a + (b + p.0) =~= (a + b) + p.0);
        },
        None => {},
    }
}

/// The value of a hexadecimal digit, or -1.
pub open spec fn hex_val(b: u8) -> int {
    if 48 <= b <= 57 {
        b - 48
    } else if 97 <= b <= 102 {
        b - 87
    } else if 65 <= b <= 70 {
        b - 55
    } else {
        -1
    }
}

/// Four hexadecimal digits read at `i`, or -1 when any is missing
/// or malformed.
pub open spec fn hex4(s: Seq<u8>, i: int) -> int {
    if 0 <= i && i + 4 <= s.len() && hex_val(s[i]) >= 0 && hex_val(s[i + 1]) >= 0 && hex_val(
        s[i + 2],
    ) >= 0 && hex_val(s[i + 3]) >= 0 {
        hex_val(s[i]) * 0x1000 + hex_val(s[i + 1]) * 0x100 + hex_val(s[i + 2]) * 0x10 + hex_val(
            s[i + 3],
        )
    } else {
        -1
    }
}

/// The unescaped content of a JSON string literal, read from just after
/// its opening quote: the bytes it denotes and the index just after the
/// closing quote. Escapes are the two-character ones of JSON and `\uXXXX`,
/// where a surrogate must form a legal pair; an unescaped control byte,
/// a lone surrogate or an unterminated literal is malformed.
pub open spec fn parse_string_body(s: Seq<u8>, i: int) -> Option<(Seq<u8>, int)>
    decreases s.len() - i,
{
    if i < 0 || i >= s.len() {
        None
    } else if s[i] == 34 {
        Some((Seq::<u8>::empty(), i + 1))
    } else if s[i] == 92 {
        if i + 1 >= s.len() {
            None
        } else {
            let e = s[i + 1];
            if e == 34 || e == 92 || e == 47 {
                prepend_bytes(seq![e], parse_string_body(s, i + 2))
            } else if e == 98 {
                prepend_bytes(seq![8u8], parse_string_body(s, i + 2))
            } else if e == 116 {
                prepend_bytes(seq![9u8], parse_string_body(s, i + 2))
            } else if e == 110 {
                prepend_bytes(seq![10u8], parse_string_body(s, i + 2))
            } else if e == 102 {
                prepend_bytes(seq![12u8], parse_string_body(s, i + 2))
            } else if e == 114 {
                prepend_bytes(seq![13u8], parse_string_body(s, i + 2))
            } else if e == 117 {
                let c1 = hex4(s, i + 2);
                if c1 < 0 {
                    None
                } else if 0xD800 <= c1 < 0xDC00 {
                    if i + 12 <= s.len() && s[i + 6] == 92 && s[i + 7] == 117 {
                        let c2 = hex4(s, i + 8);
                        if 0xDC00 <= c2 < 0xE000 {
                            let cp = 0x10000 + (c1 - 0xD800) * 0x400 + (c2 - 0xDC00);
                            prepend_bytes(
                                vstd::utf8::encode_scalar(cp as u32),
                                parse_string_body(s, i + 12),
                            )
                        } else {
                            None
                        }
                    } else {
                        None
                    }
                } else if 0xDC00 <= c1 < 0xE000 {
                    None
                } else {
                    prepend_bytes(
                        vstd::utf8::encode_scalar(c1 as u32),
                        parse_string_body(s, i + 6),
                    )
                }
            } else {
                None
            }
        }
    } else if s[i] < 32 {
        None
    } else {
        prepend_bytes(seq![s[i]], parse_string_body(s, i + 1))
    }
}

/// A whole JSON string literal standing at `i`.
pub open spec fn parse_string_at(s: Seq<u8>, i: int) -> Option<(Seq<u8>, int)> {
    if at_byte(s, i, 34) {
        parse_string_body(s, i + 1)
    } else {
        None
    }
}

/// One `"key": "value"` member standing at `i`: the key, the value and
/// the index just after the value.
pub open spec fn parse_member_at(s: Seq<u8>, i: int) -> Option<(Seq<u8>, Seq<u8>, int)> {
    match parse_string_at(s, i) {
        Some((k, j)) => {
            let c = skip_ws(s, j);
            if at_byte(s, c, 58) {
                match parse_string_at(s, skip_ws(s, c + 1)) {
                    Some((v, j2)) => Some((k, v, j2)),
                    None => None,
                }
            } else {
                None
            }
        },
        None => None,
    }
}

/// One object of exactly three string members, with nothing but
/// whitespace around it: the members in written order.
pub open spec fn parse_record_members(s: Seq<u8>) -> Option<
    ((Seq<u8>, Seq<u8>), (Seq<u8>, Seq<u8>), (Seq<u8>, Seq<u8>)),
> {
    let i0 = skip_ws(s, 0);
    if !at_byte(s, i0, 123) {
        None
    } else {
        match parse_member_at(s, skip_ws(s, i0 + 1)) {
            Some((k1, v1, j1)) => {
                let c1 = skip_ws(s, j1);
                if !at_byte(s, c1, 44) {
                    None
                } else {
                    match parse_member_at(s, skip_ws(s, c1 + 1)) {
                        Some((k2, v2, j2)) => {
                            let c2 = skip_ws(s, j2);
                            if !at_byte(s, c2, 44) {
                                None
                            } else {
                                match parse_member_at(s, skip_ws(s, c2 + 1)) {
                                    Some((k3, v3, j3)) => {
                                        let e = skip_ws(s, j3);
                                        if at_byte(s, e, 125) && skip_ws(s, e + 1) == s.len() {
                                            Some(((k1, v1), (k2, v2), (k3, v3)))
                                        } else {
                                            None
                                        }
                                    },
                                    None => None,
                                }
                            }
                        },
                        None => None,
                    }
                }
            },
            None => None,
        }
    }
}

/// The value under key `k` among three members, first match first.
pub open spec fn field_of(
    k: Seq<u8>,
    kv1: (Seq<u8>, Seq<u8>),
    kv2: (Seq<u8>, Seq<u8>),
    kv3: (Seq<u8>, Seq<u8>),
) -> Option<Seq<u8>> {
    if kv1.0 == k {
        Some(kv1.1)
    } else if kv2.0 == k {
        Some(kv2.1)
    } else if kv3.0 == k {
        Some(kv3.1)
    } else {
        None
    }
}

/// The three credential fields: present exactly when the input is one
/// JSON object holding the members `ServerURL`, `Username` and `Secret`,
/// one each in any order and nothing else, as `store` expects them.
pub open spec fn credential_fields(s: Seq<u8>) -> Option<(Seq<u8>, Seq<u8>, Seq<u8>)> {
    match parse_record_members(s) {
        Some((kv1, kv2, kv3)) => {
            let su = field_of(key_server_url(), kv1, kv2, kv3);
            let un = field_of(key_username(), kv1, kv2, kv3);
            let se = field_of(key_secret(), kv1, kv2, kv3);
            if su is Some && un is Some && se is Some {
                Some((su->0, un->0, se->0))
            } else {
                None
            }
        },
        None => None,
    }
}

/// The first index at or after `i` holding no whitespace.
fn skip_ws_from(s: &Vec<u8>, i: usize) -> (r: usize)
    requires
        i <= s@.len(),
    ensures
        r as int == skip_ws(s@, i as int),
        i <= r <= s@.len(),
{
    let mut j = i;
    while j < s.len() && (s[j] == 32 || s[j] == 9 || s[j] == 10 || s[j] == 13)
        invariant
            i <= j <= s@.len(),
            skip_ws(s@, i as int) == skip_ws(s@, j as int),
        decreases s@.len() - j,
    {
        j = j + 1;
    }
    j
}

/// The value of one hexadecimal digit.
fn hex_nibble(b: u8) -> (r: Option<u8>)
    ensures
        r is Some <==> hex_val(b) >= 0,
        r is Some ==> r->0 as int == hex_val(b),
{
    if 48 <= b && b <= 57 {
        Some(b - 48)
    } else if 97 <= b && b <= 102 {
        Some(b - 87)
    } else if 65 <= b && b <= 70 {
        Some(b - 55)
    } else {
        None
    }
}

/// Four hexadecimal digits read at `i`.
fn parse_hex4(s: &Vec<u8>, i: usize) -> (r: Option<u32>)
    requires
        i <= s@.len(),
    ensures
        r is Some <==> hex4(s@, i as int) >= 0,
        r is Some ==> r->0 as int == hex4(s@, i as int) && r->0 < 0x10000,
{
    if s.len() - i < 4 {
        return None;
    }
    match hex_nibble(s[i]) {
        Some(a) => match hex_nibble(s[i + 1]) {
            Some(b) => match hex_nibble(s[i + 2]) {
                Some(c) => match hex_nibble(s[i + 3]) {
                    Some(d) => Some(
                        (a as u32) * 0x1000 + (b as u32) * 0x100 + (c as u32) * 0x10 + (d as u32),
                    ),
                    None => None,
                },
                None => None,
            },
            None => None,
        },
        None => None,
    }
}

/// Appends the UTF-8 encoding of one Unicode scalar.
fn push_scalar(out: &mut Vec<u8>, v: u32)
    requires
        vstd::utf8::is_scalar(v),
    ensures
        final(out)@ == old(out)@ + vstd::utf8::encode_scalar(v),
{
    if v <= 0x7F {
        out.push((v & 0x7F) as u8);
        proof {
            assert(out@ =~= old(out)@ + vstd::utf8::encode_scalar(v));
        }
    } else if v <= 0x7FF {
        out.push(0xC0 | (((v >> 6) & 0x1F) as u8));
        out.push(0x80 | ((v & 0x3F) as u8));
        proof {
            assert(out@ =~= old(out)@ + vstd::utf8::encode_scalar(v));
        }
    } else if v <= 0xFFFF {
        out.push(0xE0 | (((v >> 12) & 0x0F) as u8));
        out.push(0x80 | (((v >> 6) & 0x3F) as u8));
        out.push(0x80 | ((v & 0x3F) as u8));
        proof {
            assert(out@ =~= old(out)@ + vstd::utf8::encode_scalar(v));
        }
    } else {
        out.push(0xF0 | (((v >> 18) & 0x7) as u8));
        out.push(0x80 | (((v >> 12) & 0x3F) as u8));
        out.push(0x80 | (((v >> 6) & 0x3F) as u8));
        out.push(0x80 | ((v & 0x3F) as u8));
        proof {
            assert(out@ =~= old(out)@ + vstd::utf8::encode_scalar(v));
        }
    }
}

/// Whether two byte vectors hold the same bytes.
fn bytes_eq(a: &Vec<u8>, b: &Vec<u8>) -> (r: bool)
    ensures
        r == (a@ == b@),
{
    if a.len() != b.len() {
        return false;
    }
    let mut i: usize = 0;
    let n = a.len();
    while i < n
        invariant
            0 <= i <= n == a@.len() == b@.len(),
            forall|j: int| 0 <= j < i ==> a@[j] == b@[j],
        decreases n - i,
    {
        if a[i] != b[i] {
            return false;
        }
        i = i + 1;
    }
    proof {
        assert(a@ =~= b@);
    }
    true
}

/// Reads one JSON string literal whose opening quote stands at `i`:
/// its unescaped bytes and the index just after the closing quote.
fn read_json_string(s: &Vec<u8>, i: usize) -> (r: Option<(Vec<u8>, usize)>)
    requires
        i <= s@.len(),
    ensures
        r is Some <==> parse_string_at(s@, i as int) is Some,
        r is Some ==> parse_string_at(s@, i as int) == Some(
            ((r->0).0@, (r->0).1 as int),
        ),
        r is Some ==> i < (r->0).1 <= s@.len(),
{
    if i >= s.len() || s[i] != 34 {
        return None;
    }
    let mut out: Vec<u8> = Vec::new();
    let mut j = i + 1;
    proof {
        lemma_prepend_empty(parse_string_body(s@, j as int));
        assert(parse_string_at(s@, i as int) == prepend_bytes(
            out@,
            parse_string_body(s@, j as int),
        ));
    }
    loop
        invariant
            i + 1 <= j <= s@.len(),
            parse_string_at(s@, i as int) == prepend_bytes(
                out@,
                parse_string_body(s@, j as int),
            ),
        decreases s@.len() - j,
    {
        if j >= s.len() {
            return None;
        }
        let b = s[j];
        if b == 34 {
            proof {
                assert(out@ + Seq::<u8>::empty() =~= out@);
            }
            return Some((out, j + 1));
        }
        let ghost pre = out@;
        let ghost jold = j as int;
        if b == 92 {
            if s.len() - j < 2 {
                return None;
            }
            let e = s[j + 1];
            if e == 34 || e == 92 || e == 47 {
                out.push(e);
                j = j + 2;
                proof {
                    lemma_prepend_assoc(pre, seq![e], parse_string_body(s@, j as int));
                    assert(pre + seq![e] =~= out@);
                }
            } else if e == 98 {
                out.push(8);
                j = j + 2;
                proof {
                    lemma_prepend_assoc(pre, seq![8u8], parse_string_body(s@, j as int));
                    assert(pre + seq![8u8] =~= out@);
                }
            } else if e == 116 {
                out.push(9);
                j = j + 2;
                proof {
                    lemma_prepend_assoc(pre, seq![9u8], parse_string_body(s@, j as int));
                    assert(pre + seq![9u8] =~= out@);
                }
            } else if e == 110 {
                out.push(10);
                j = j + 2;
                proof {
                    lemma_prepend_assoc(pre, seq![10u8], parse_string_body(s@, j as int));
                    assert(pre + seq![10u8] =~= out@);
                }
            } else if e == 102 {
                out.push(12);
                j = j + 2;
                proof {
                    lemma_prepend_assoc(pre, seq![12u8], parse_string_body(s@, j as int));
                    assert(pre + seq![12u8] =~= out@);
                }
            } else if e == 114 {
                out.push(13);
                j = j + 2;
                proof {
                    lemma_prepend_assoc(pre, seq![13u8], parse_string_body(s@, j as int));
                    assert(pre + seq![13u8] =~= out@);
                }
            } else if e == 117 {
                match parse_hex4(s, j + 2) {
                    Some(c1) => {
                        if 0xD800 <= c1 && c1 < 0xDC00 {
                            if s.len() - j >= 12 && s[j + 6] == 92 && s[j + 7] == 117 {
                                match parse_hex4(s, j + 8) {
                                    Some(c2) => {
                                        if 0xDC00 <= c2 && c2 < 0xE000 {
                                            let cp = 0x10000 + (c1 - 0xD800) * 0x400 + (c2
                                                - 0xDC00);
                                            push_scalar(&mut out, cp);
                                            j = j + 12;
                                            proof {
                                                lemma_prepend_assoc(
                                                    pre,
                                                    vstd::utf8::encode_scalar(cp),
                                                    parse_string_body(s@, j as int),
                                                );
                                                assert(pre + vstd::utf8::encode_scalar(cp)
                                                    =~= out@);
                                            }
                                        } else {
                                            return None;
                                        }
                                    },
                                    None => {
                                        return None;
                                    },
                                }
                            } else {
                                return None;
                            }
                        } else if 0xDC00 <= c1 && c1 < 0xE000 {
                            return None;
                        } else {
                            push_scalar(&mut out, c1);
                            j = j + 6;
                            proof {
                                lemma_prepend_assoc(
                                    pre,
                                    vstd::utf8::encode_scalar(c1),
                                    parse_string_body(s@, j as int),
                                );
                                assert(pre + vstd::utf8::encode_scalar(c1) =~= out@);
                            }
                        }
                    },
                    None => {
                        return None;
                    },
                }
            } else {
                return None;
            }
        } else if b < 32 {
            return None;
        } else {
            out.push(b);
            j = j + 1;
            proof {
                lemma_prepend_assoc(pre, seq![b], parse_string_body(s@, j as int));
                assert(pre + seq![b] =~= out@);
            }
        }
    }
}

/// Reads one `"key": "value"` member standing at `i`: the key, the
/// value and the index just after the value.
fn read_member(s: &Vec<u8>, i: usize) -> (r: Option<(Vec<u8>, Vec<u8>, usize)>)
    requires
        i <= s@.len(),
    ensures
        r is Some <==> parse_member_at(s@, i as int) is Some,
        r is Some ==> parse_member_at(s@, i as int) == Some(
            ((r->0).0@, (r->0).1@, (r->0).2 as int),
        ),
        r is Some ==> i < (r->0).2 <= s@.len(),
{
    match read_json_string(s, i) {
        Some((k, j)) => {
            let c = skip_ws_from(s, j);
            if c < s.len() && s[c] == 58 {
                let v_start = skip_ws_from(s, c + 1);
                match read_json_string(s, v_start) {
                    Some((v, j2)) => Some((k, v, j2)),
                    None => None,
                }
            } else {
                None
            }
        },
        None => None,
    }
}

/// A full set of authentication details, as the protocol carries them.
pub struct CredentialRecord {
    /// The URL of the server these credentials authenticate with.
    pub server_url: String,
    /// The user's username, or a token marker.
    pub username: String,
    /// A password or an identity token.
    pub secret: String,
}

/// The `ServerURL` field of a parsed record.
pub open spec fn record_server_url(s: Seq<u8>) -> Seq<u8> {
    (credential_fields(s)->0).0
}

/// The `Username` field of a parsed record.
pub open spec fn record_username(s: Seq<u8>) -> Seq<u8> {
    (credential_fields(s)->0).1
}

/// The `Secret` field of a parsed record.
pub open spec fn record_secret(s: Seq<u8>) -> Seq<u8> {
    (credential_fields(s)->0).2
}

/// Whether the bytes on standard input are a well-formed credential
/// record: one JSON object of exactly the string members `ServerURL`,
/// `Username` and `Secret`, the URL non-empty, every field valid UTF-8.
pub open spec fn record_parses(s: Seq<u8>) -> bool {
    &&& credential_fields(s) is Some
    &&& record_server_url(s).len() > 0
    &&& valid_utf8(record_server_url(s))
    &&& valid_utf8(record_username(s))
    &&& valid_utf8(record_secret(s))
}

/// Parses the credential record sent to `store`.
///
/// Fails with [`Error::Malformed`] on anything but one JSON object of
/// exactly the string members `ServerURL`, `Username` and `Secret` (in
/// any order, `ServerURL` non-empty), as the calling tool writes it.
pub fn decode_credential_record(input: &Vec<u8>) -> (r: Result<CredentialRecord, Error>)
    ensures
        r is Ok <==> record_parses(input@),
        r is Ok ==> r->Ok_0.server_url@ == decode_utf8(record_server_url(input@)),
        r is Ok ==> r->Ok_0.username@ == decode_utf8(record_username(input@)),
        r is Ok ==> r->Ok_0.secret@ == decode_utf8(record_secret(input@)),
        r is Err ==> r->Err_0 == Error::Malformed,
{
    let i0 = skip_ws_from(input, 0);
    if i0 >= input.len() || input[i0] != 123 {
        return Err(Error::Malformed);
    }
    let m1 = read_member(input, skip_ws_from(input, i0 + 1));
    match m1 {
        Some((k1, v1, j1)) => {
            let c1 = skip_ws_from(input, j1);
            if c1 >= input.len() || input[c1] != 44 {
                return Err(Error::Malformed);
            }
            match read_member(input, skip_ws_from(input, c1 + 1)) {
                Some((k2, v2, j2)) => {
                    let c2 = skip_ws_from(input, j2);
                    if c2 >= input.len() || input[c2] != 44 {
                        return Err(Error::Malformed);
                    }
                    match read_member(input, skip_ws_from(input, c2 + 1)) {
                        Some((k3, v3, j3)) => {
                            let e = skip_ws_from(input, j3);
                            if e >= input.len() || input[e] != 125 {
                                return Err(Error::Malformed);
                            }
                            if skip_ws_from(input, e + 1) != input.len() {
                                return Err(Error::Malformed);
                            }
                            build_record(k1, v1, k2, v2, k3, v3, Ghost(input@))
                        },
                        None => Err(Error::Malformed),
                    }
                },
                None => Err(Error::Malformed),
            }
        },
        None => Err(Error::Malformed),
    }
}

/// Picks the three named fields out of the parsed members and checks
/// them, completing [`decode_credential_record`].
fn build_record(
    k1: Vec<u8>,
    v1: Vec<u8>,
    k2: Vec<u8>,
    v2: Vec<u8>,
    k3: Vec<u8>,
    v3: Vec<u8>,
    input_view: Ghost<Seq<u8>>,
) -> (r: Result<CredentialRecord, Error>)
    requires
        parse_record_members(input_view@) == Some(
            ((k1@, v1@), (k2@, v2@), (k3@, v3@)),
        ),
    ensures
        r is Ok <==> record_parses(input_view@),
        r is Ok ==> r->Ok_0.server_url@ == decode_utf8(record_server_url(input_view@)),
        r is Ok ==> r->Ok_0.username@ == decode_utf8(record_username(input_view@)),
        r is Ok ==> r->Ok_0.secret@ == decode_utf8(record_secret(input_view@)),
        r is Err ==> r->Err_0 == Error::Malformed,
{
    let ksu = key_server_url_vec();
    let kun = key_username_vec();
    let kse = key_secret_vec();
    let su: &Vec<u8> = if bytes_eq(&k1, &ksu) {
        &v1
    } else if bytes_eq(&k2, &ksu) {
        &v2
    } else if bytes_eq(&k3, &ksu) {
        &v3
    } else {
        return Err(Error::Malformed);
    };
    let un: &Vec<u8> = if bytes_eq(&k1, &kun) {
        &v1
    } else if bytes_eq(&k2, &kun) {
        &v2
    } else if bytes_eq(&k3, &kun) {
        &v3
    } else {
        return Err(Error::Malformed);
    };
    let se: &Vec<u8> = if bytes_eq(&k1, &kse) {
        &v1
    } else if bytes_eq(&k2, &kse) {
        &v2
    } else if bytes_eq(&k3, &kse) {
        &v3
    } else {
        return Err(Error::Malformed);
    };
    if su.len() == 0 {
        return Err(Error::Malformed);
    }
    let server_url = match bytes_to_string(su) {
        Some(t) => t,
        None => {
            return Err(Error::Malformed);
        },
    };
    let username = match bytes_to_string(un) {
        Some(t) => t,
        None => {
            return Err(Error::Malformed);
        },
    };
    let secret = match bytes_to_string(se) {
        Some(t) => t,
        None => {
            return Err(Error::Malformed);
        },
    };
    Ok(CredentialRecord { server_url, username, secret })
}

/// The bytes of the field name `ServerURL`, for matching.
fn key_server_url_vec() -> (r: Vec<u8>)
    ensures
        r@ == key_server_url(),
{
    let mut r: Vec<u8> = Vec::new();
    r.push(83);
    r.push(101);
    r.push(114);
    r.push(118);
    r.push(101);
    r.push(114);
    r.push(85);
    r.push(82);
    r.push(76);
    proof {
        assert(r@ =~= key_server_url());
    }
    r
}

} // verus!
