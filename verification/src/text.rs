//! Conversions between raw bytes and checked text.

use vstd::prelude::*;
use vstd::string::StrSliceExecFns;
use vstd::utf8::{valid_utf8, decode_utf8};

verus! {

/// The whitespace characters trimmed from the end of protocol input
/// lines and of captured output.
pub open spec fn is_ws_char(c: char) -> bool {
    c == ' ' || c == '\t' || c == '\n' || c == '\r'
}

/// The text with every trailing whitespace character removed.
pub open spec fn spec_trim_end(s: Seq<char>) -> Seq<char>
    decreases s.len(),
{
    if s.len() > 0 && is_ws_char(s[s.len() - 1]) {
        spec_trim_end(s.drop_last())
    } else {
        s
    }
}

/// Whether a character is trimmed by [`trim_end`].
fn ws_char(c: char) -> (r: bool)
    ensures
        r == is_ws_char(c),
{
    c == ' ' || c == '\t' || c == '\n' || c == '\r'
}

/// Removes trailing whitespace, as read protocol lines and captured
/// secrets require.
pub fn trim_end(s: &str) -> (r: String)
    ensures
        r@ == spec_trim_end(s@),
{
    let n = s.unicode_len();
    let mut j = n;
    proof {
        assert(s@.take(n as int) =~= s@);
    }
    while j > 0 && ws_char(s.get_char(j - 1))
        invariant
            0 <= j <= n == s@.len(),
            spec_trim_end(s@) == spec_trim_end(s@.take(j as int)),
        decreases j,
    {
        proof {
            assert(s@.take(j as int)[j - 1] == s@[j as int - 1]);
            assert(s@.take(j as int).drop_last() =~= s@.take(j as int - 1));
        }
        j = j - 1;
    }
    s.substring_char(0, j).to_owned()
}

/// The index of the last `.` in a name, or -1 when there is none.
pub open spec fn last_dot(s: Seq<char>) -> int
    decreases s.len(),
{
    if s.len() == 0 {
        -1
    } else if s[s.len() - 1] == '.' {
        s.len() - 1
    } else {
        last_dot(s.drop_last())
    }
}

/// A stored entry name with its trailing `.extension` removed: what
/// stands before the last dot, or the whole name when it has no dot.
pub open spec fn spec_strip_ext(s: Seq<char>) -> Seq<char> {
    if last_dot(s) >= 0 {
        s.take(last_dot(s))
    } else {
        s
    }
}

/// Derives the username from a stored entry name by removing the file
/// extension the external tool appends.
pub fn strip_extension(entry: &str) -> (r: String)
    ensures
        r@ == spec_strip_ext(entry@),
{
    let n = entry.unicode_len();
    let mut j = n;
    proof {
        assert(entry@.take(n as int) =~= entry@);
    }
    while j > 0
        invariant
            0 <= j <= n == entry@.len(),
            last_dot(entry@) == last_dot(entry@.take(j as int)),
        decreases j,
    {
        proof {
            assert(entry@.take(j as int)[j - 1] == entry@[j as int - 1]);
        }
        if entry.get_char(j - 1) == '.' {
            proof {
                assert(entry@.take(j as int).take(j as int - 1) =~= entry@.take(j as int - 1));
            }
            return entry.substring_char(0, j - 1).to_owned();
        }
        proof {
            assert(entry@.take(j as int).drop_last() =~= entry@.take(j as int - 1));
        }
        j = j - 1;
    }
    entry.to_owned()
}

/// Relies on `std::str::from_utf8`: it succeeds exactly on well-formed UTF-8
/// and yields the text those bytes encode.
#[verifier::external_body]
pub fn bytes_to_string(bytes: &Vec<u8>) -> (r: Option<String>)
    ensures
        r is Some <==> valid_utf8(bytes@),
        r is Some ==> r->0@ == decode_utf8(bytes@),
{
    match std::str::from_utf8(bytes.as_slice()) {
        Ok(s) => Some(s.to_string()),
        Err(_) => None,
    }
}

} // verus!
