//! Small helpers: author-list formatting and the storage root rule.

use vstd::prelude::*;
use vstd::string::{StrSliceExecFns, StringExecFns};

use crate::error::Error;

verus! {

/// A `:`-separated list rewritten as a `, `-separated one.
pub open spec fn spec_authors(s: Seq<char>) -> Seq<char>
    decreases s.len(),
{
    if s.len() == 0 {
        Seq::<char>::empty()
    } else if s[0] == ':' {
        seq![',', ' '] + spec_authors(s.drop_first())
    } else {
        seq![s[0]] + spec_authors(s.drop_first())
    }
}

/// Converts a string of the format `{author1}:{author2}:...` to the
/// format `{author1}, {author2}, ...`.
pub fn authors(raw: &str) -> (r: String)
    ensures
        r@ == spec_authors(raw@),
{
    let n = raw.unicode_len();
    let mut out = String::new();
    let mut start: usize = 0;
    let mut i: usize = 0;
    proof {
        assert(raw@.subrange(0, 0) =~= Seq::<char>::empty());
        assert(raw@.skip(0) =~= raw@);
        assert(out@ + raw@.subrange(0, 0) + spec_authors(raw@.skip(0)) =~= spec_authors(raw@));
    }
    while i < n
        invariant
            0 <= start <= i <= n == raw@.len(),
            out@ + raw@.subrange(start as int, i as int) + spec_authors(raw@.skip(i as int))
                == spec_authors(raw@),
        decreases n - i,
    {
        if raw.get_char(i) == ':' {
            proof {
                reveal_strlit(", ");
                let sk = raw@.skip(i as int);
                assert(sk[0] == ':');
                assert(sk.drop_first() =~= raw@.skip(i as int + 1));
                assert(spec_authors(sk) == seq![',', ' '] + spec_authors(raw@.skip(i as int + 1)));
            }
            out.append(raw.substring_char(start, i));
            out.append(", ");
            proof {
                assert(", "@ =~= seq![',', ' ']);
                assert(raw@.subrange(i as int + 1, i as int + 1) =~= Seq::<char>::empty());
                assert(out@ + raw@.subrange(i as int + 1, i as int + 1) + spec_authors(
                    raw@.skip(i as int + 1),
                ) =~= spec_authors(raw@));
            }
            start = i + 1;
        } else {
            proof {
                assert(raw@.skip(i as int).drop_first() =~= raw@.skip(i as int + 1));
                assert(raw@.subrange(start as int, i as int + 1) =~= raw@.subrange(
                    start as int,
                    i as int,
                ) + seq![raw@[i as int]]);
            }
        }
        i = i + 1;
    }
    proof {
        assert(raw@.skip(n as int) =~= Seq::<char>::empty());
    }
    out.append(raw.substring_char(start, n));
    proof {
        assert(out@ =~= spec_authors(raw@));
    }
    out
}

/// The dot-directory under the home directory that holds the store when
/// no override is set.
pub open spec fn default_root_suffix() -> Seq<char> {
    "/.docker-credential-truth"@
}

/// Computes the storage root directory: the override value verbatim when
/// one is set, otherwise a fixed dot-directory under the home directory.
///
/// Fails with [`Error::Config`] exactly when neither an override nor a
/// home directory is available.
pub fn resolve_storage_root(override_dir: Option<String>, home_dir: Option<String>) -> (r: Result<
    String,
    Error,
>)
    ensures
        override_dir is Some ==> r is Ok && r->Ok_0 == override_dir->0,
        (override_dir is None && home_dir is Some) ==> r is Ok && r->Ok_0@ == home_dir->0@
            + default_root_suffix(),
        r is Err <==> (override_dir is None && home_dir is None),
        r is Err ==> r->Err_0 == Error::Config,
{
    match override_dir {
        Some(dir) => Ok(dir),
        None => match home_dir {
            Some(home) => Ok(home.concat("/.docker-credential-truth")),
            None => Err(Error::Config),
        },
    }
}

} // verus!
