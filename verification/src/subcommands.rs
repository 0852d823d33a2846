//! The pure decisions of the subcommands *store*, *get*, *list* and
//! *erase*: from protocol input and captured results to the entry path,
//! the answer bytes, or the failure. The caller resolves the storage
//! root, reads the streams, runs the external tool and removes
//! directories; everything it must compute stands here.

use vstd::prelude::*;
use vstd::string::{StrSliceExecFns, StringExecFns, StringSliceAdditionalSpecFns};
use vstd::utf8::{valid_utf8, decode_utf8, encode_utf8, decode_utf8_encode_utf8};

use crate::encoding::{b64_encode, b64_decode, encode_server_url, decode_server_url};
use crate::error::Error;
use crate::protocol::{
    decode_credential_record, encode_get_response, encode_list_response, get_response_bytes,
    list_response_bytes, record_parses, record_server_url, record_username, record_secret,
};
use crate::text::{bytes_to_string, trim_end, strip_extension, spec_trim_end, spec_strip_ext};

verus! {

/// What `store` must do once its input is parsed: the entry path handed
/// to the external tool, and the line streamed to that tool's input.
pub struct StoreAction {
    /// `{encoded server URL}/{username}`.
    pub pass_name: String,
    /// The secret followed by a line terminator.
    pub input: String,
}

/// Serves `store`: parses the credential record and derives the entry
/// path and the input line for the external tool's `insert`.
///
/// Fails with [`Error::Malformed`] exactly when the record does not
/// parse.
pub fn store(input: &Vec<u8>) -> (r: Result<StoreAction, Error>)
    ensures
        r is Ok <==> record_parses(input@),
        r is Ok ==> r->Ok_0.pass_name@ == b64_encode(record_server_url(input@)) + seq!['/']
            + decode_utf8(record_username(input@)),
        r is Ok ==> r->Ok_0.input@ == decode_utf8(record_secret(input@)) + seq!['\n'],
        r is Err ==> r->Err_0 == Error::Malformed,
{
    let record = match decode_credential_record(input) {
        Ok(record) => record,
        Err(e) => {
            return Err(e);
        },
    };
    let encoded = encode_server_url(record.server_url.as_str());
    proof {
        decode_utf8_encode_utf8(record_server_url(input@));
        reveal_strlit("/");
        reveal_strlit("\n");
        assert("/"@ =~= seq!['/']);
        assert("\n"@ =~= seq!['\n']);
    }
    let pass_name = encoded.concat("/").concat(record.username.as_str());
    let secret_line = record.secret.concat("\n");
    Ok(StoreAction { pass_name, input: secret_line })
}

/// The directory name `get` and `erase` look under for a requested URL
/// line: the line with trailing whitespace removed, encoded.
pub fn lookup_dir_name(url_line: &str) -> (r: String)
    ensures
        r@ == b64_encode(encode_utf8(spec_trim_end(url_line@))),
{
    let trimmed = trim_end(url_line);
    encode_server_url(trimmed.as_str())
}

/// The username stored in the first entry of a server's directory, or
/// the lookup-miss failure when the directory holds no entry.
pub fn username_for_entry(entry: Option<String>) -> (r: Result<String, Error>)
    ensures
        entry is Some ==> r is Ok && r->Ok_0@ == spec_strip_ext(entry->0@),
        entry is None ==> r is Err && r->Err_0 == Error::NotFound,
{
    match entry {
        Some(name) => Ok(strip_extension(name.as_str())),
        None => Err(Error::NotFound),
    }
}

/// Serves the answer of `get`: the secret is the external tool's output
/// with trailing whitespace removed, and the payload is the two-field
/// object the protocol expects.
///
/// Fails with [`Error::Io`] exactly when that output is not UTF-8 text.
pub fn get_response(username: &str, stdout: &Vec<u8>) -> (r: Result<Vec<u8>, Error>)
    ensures
        r is Ok <==> valid_utf8(stdout@),
        r is Ok ==> r->Ok_0@ == get_response_bytes(
            encode_utf8(username@),
            encode_utf8(spec_trim_end(decode_utf8(stdout@))),
        ),
        r is Err ==> r->Err_0 == Error::Io,
{
    let text = match bytes_to_string(stdout) {
        Some(text) => text,
        None => {
            return Err(Error::Io);
        },
    };
    let secret = trim_end(text.as_str());
    let username_bytes = username.as_bytes_vec();
    let secret_bytes = secret.as_str().as_bytes_vec();
    Ok(encode_get_response(&username_bytes, &secret_bytes))
}

/// The name of the sentinel metadata entry the external tool keeps at
/// the storage root, never a server entry.
pub open spec fn sentinel_name() -> Seq<char> {
    ".gpg-id"@
}

/// The directory listing as the specification sees it: each entry's
/// name and its first child's name, if any.
pub open spec fn entries_view(s: Seq<(String, Option<String>)>) -> Seq<
    (Seq<char>, Option<Seq<char>>),
> {
    s.map(
        |i: int, e: (String, Option<String>)|
            (
                e.0@,
                match e.1 {
                    Some(c) => Some(c@),
                    None => None,
                },
            ),
    )
}

/// The url/username pairs a listing yields, in order: the sentinel is
/// skipped, a directory without a child is skipped, every other name is
/// decoded back to its server URL and its child stripped of the file
/// extension; `None` when any enumerated name fails to decode.
pub open spec fn spec_list_pairs(entries: Seq<(Seq<char>, Option<Seq<char>>)>) -> Option<
    Seq<(Seq<char>, Seq<char>)>,
>
    decreases entries.len(),
{
    if entries.len() == 0 {
        Some(Seq::<(Seq<char>, Seq<char>)>::empty())
    } else {
        let name = entries[0].0;
        let child = entries[0].1;
        let rest = spec_list_pairs(entries.drop_first());
        if name == sentinel_name() {
            rest
        } else if b64_decode(name) is None || !valid_utf8(b64_decode(name)->0) {
            None
        } else {
            match child {
                Some(c) => match rest {
                    Some(tail) => Some(
                        seq![(decode_utf8(b64_decode(name)->0), spec_strip_ext(c))] + tail,
                    ),
                    None => None,
                },
                None => rest,
            }
        }
    }
}

/// The pairs as they appear in the answer: each text as its UTF-8 bytes.
pub open spec fn pairs_bytes(pairs: Seq<(Seq<char>, Seq<char>)>) -> Seq<(Seq<u8>, Seq<u8>)> {
    pairs.map(|i: int, p: (Seq<char>, Seq<char>)| (encode_utf8(p.0), encode_utf8(p.1)))
}

/// Serves `list`: every stored server becomes one `"url":"username"`
/// member of the answer, in the order enumerated.
///
/// Fails with [`Error::Decode`] exactly when some enumerated directory
/// name other than the sentinel is not an encoded UTF-8 server URL.
pub fn list(entries: &Vec<(String, Option<String>)>) -> (r: Result<Vec<u8>, Error>)
    ensures
        r is Ok <==> spec_list_pairs(entries_view(entries@)) is Some,
        r is Ok ==> r->Ok_0@ == list_response_bytes(
            pairs_bytes(spec_list_pairs(entries_view(entries@))->0),
        ),
        r is Err ==> r->Err_0 == Error::Decode,
{
    let ghost ev = entries_view(entries@);
    let sentinel: String = String::from_str(".gpg-id");
    let mut out: Vec<(Vec<u8>, Vec<u8>)> = Vec::new();
    let ghost acc = Seq::<(Seq<char>, Seq<char>)>::empty();
    let mut i: usize = 0;
    let n = entries.len();
    proof {
        assert(ev.skip(0) =~~= ev);
        assert(out.deep_view() =~~= pairs_bytes(acc));
    }
    while i < n
        invariant
            0 <= i <= n == entries@.len(),
            ev == entries_view(entries@),
            ev.len() == n,
            sentinel@ == sentinel_name(),
            spec_list_pairs(ev) is Some <==> spec_list_pairs(ev.skip(i as int)) is Some,
            spec_list_pairs(ev) is Some ==> spec_list_pairs(ev)->0 == acc + spec_list_pairs(
                ev.skip(i as int),
            )->0,
            out.deep_view() == pairs_bytes(acc),
        decreases n - i,
    {
        proof {
            assert(ev[i as int] == (entries@[i as int].0@,
            match entries@[i as int].1 {
                Some(c) => Some(c@),
                None => None,
            }));
            assert(ev.skip(i as int)[0] == ev[i as int]);
            assert(ev.skip(i as int).drop_first() =~~= ev.skip(i as int + 1));
        }
        let entry = &entries[i];
        let ghost head = ev.skip(i as int);
        if entry.0 == sentinel {
            proof {
                assert(head[0].0 == sentinel_name());
                assert(spec_list_pairs(head) == spec_list_pairs(ev.skip(i as int + 1)));
            }
        } else {
            proof {
                assert(head[0].0 != sentinel_name());
            }
            match decode_server_url(entry.0.as_str()) {
                Ok(url) => {
                    proof {
                        assert(b64_decode(entry.0@) is Some && valid_utf8(
                            b64_decode(entry.0@)->0,
                        ));
                        assert(url@ == decode_utf8(b64_decode(entry.0@)->0));
                    }
                    match &entry.1 {
                        Some(child) => {
                            proof {
                                assert(head[0].1 == Some(child@));
                            }
                            let username = strip_extension(child.as_str());
                            let ghost pre = out.deep_view();
                            let ghost accp = acc;
                            let url_bytes = url.as_str().as_bytes_vec();
                            let username_bytes = username.as_str().as_bytes_vec();
                            out.push((url_bytes, username_bytes));
                            proof {
                                acc = accp.push((url@, username@));
                                assert(out.deep_view() =~~= pre.push(
                                    (encode_utf8(url@), encode_utf8(username@)),
                                ));
                                assert(pairs_bytes(acc) =~~= pairs_bytes(accp).push(
                                    (encode_utf8(url@), encode_utf8(username@)),
                                ));
                                assert(spec_list_pairs(head) is Some <==> spec_list_pairs(
                                    ev.skip(i as int + 1),
                                ) is Some);
                                if spec_list_pairs(ev) is Some {
                                    assert(spec_list_pairs(head)->0 == seq![(url@, username@)]
                                        + spec_list_pairs(ev.skip(i as int + 1))->0);
                                    assert(acc + spec_list_pairs(ev.skip(i as int + 1))->0
                                        =~~= accp + (seq![(url@, username@)] + spec_list_pairs(
                                        ev.skip(i as int + 1),
                                    )->0));
                                }
                            }
                        },
                        None => {
                            proof {
                                assert(head[0].1 is None);
                                assert(spec_list_pairs(head) == spec_list_pairs(
                                    ev.skip(i as int + 1),
                                ));
                            }
                        },
                    }
                },
                Err(_) => {
                    proof {
                        assert(spec_list_pairs(head) is None);
                    }
                    return Err(Error::Decode);
                },
            }
        }
        i = i + 1;
    }
    proof {
        assert(ev.skip(n as int) =~~= Seq::<(Seq<char>, Option<Seq<char>>)>::empty());
        if spec_list_pairs(ev) is Some {
            assert(spec_list_pairs(ev)->0 =~~= acc);
        }
    }
    Ok(encode_list_response(&out))
}

/// Serves the decision of `erase`: the one directory to remove for a
/// requested URL line, or the filesystem failure when no such directory
/// exists. No other entry is named, so no other entry is touched.
pub fn erase(url_line: &str, target_exists: bool) -> (r: Result<String, Error>)
    ensures
        target_exists ==> r is Ok && r->Ok_0@ == b64_encode(encode_utf8(spec_trim_end(url_line@))),
        !target_exists ==> r is Err && r->Err_0 == Error::Filesystem,
{
    let name = lookup_dir_name(url_line);
    if target_exists {
        Ok(name)
    } else {
        Err(Error::Filesystem)
    }
}

} // verus!
