//! Tool-server helpers: rendering an operation status, and reading a
//! repository name back out of a collection name for the inventory listing.

use vstd::prelude::*;
use crate::registry::EmbedStatus;
use crate::strutil::{from_chars, spec_starts_with, starts_with, to_chars};

verus! {

/// The wire text of an operation status.
pub open spec fn spec_status_text(s: EmbedStatus) -> Seq<char> {
    match s {
        EmbedStatus::InProgress => "in_progress"@,
        EmbedStatus::Completed => "completed"@,
        EmbedStatus::Failed => "failed"@,
    }
}

/// Renders an operation status for the status tool.
pub fn status_text(s: EmbedStatus) -> (r: &'static str)
    ensures
        r@ == spec_status_text(s),
{
    match s {
        EmbedStatus::InProgress => "in_progress",
        EmbedStatus::Completed => "completed",
        EmbedStatus::Failed => "failed",
    }
}

/// Every underscore replaced by a slash.
pub open spec fn map_under_to_slash(s: Seq<char>) -> Seq<char> {
    s.map(
        |i: int, c: char|
            if c == '_' {
                '/'
            } else {
                c
            },
    )
}

/// The first slash replaced by an underscore.
pub open spec fn replace_first_slash(s: Seq<char>) -> Seq<char>
    decreases s.len(),
{
    if s.len() == 0 {
        Seq::empty()
    } else if s[0] == '/' {
        seq!['_'] + s.drop_first()
    } else {
        seq![s[0]] + replace_first_slash(s.drop_first())
    }
}

/// The repository name a collection name stands for: defined for names
/// with the repository prefix, whose remainder has its underscores turned
/// into slashes and then the first slash — between owner and repository —
/// back into an underscore.
pub open spec fn spec_repo_of_collection(name: Seq<char>) -> Option<Seq<char>> {
    if spec_starts_with(name, "repo_"@) {
        Some(replace_first_slash(map_under_to_slash(name.skip("repo_"@.len() as int))))
    } else {
        None
    }
}

/// Parses a collection name back into the repository name it was derived
/// from, for the inventory listing; `None` for collections of packages.
pub fn repo_name_from_collection(name: &str) -> (r: Option<String>)
    ensures
        (r is Some) == (spec_repo_of_collection(name@) is Some),
        r matches Some(t) ==> t@ == spec_repo_of_collection(name@)->0,
{
    let nc = to_chars(name);
    let prefix = to_chars("repo_");
    if !starts_with(&nc, &prefix) {
        return None;
    }
    proof {
        reveal_strlit("repo_");
    }
    let mut out: Vec<char> = Vec::new();
    let mut replaced = false;
    let ghost tail = name@.skip("repo_"@.len() as int);
    proof {
        assert(map_under_to_slash(tail).skip(0) =~= map_under_to_slash(tail));
        assert(out@ + replace_first_slash(map_under_to_slash(tail).skip(0))
            =~= replace_first_slash(map_under_to_slash(tail)));
    }
    for i in 5..nc.len()
        invariant
            nc@ == name@,
            name@.len() >= 5,
            tail == name@.skip(5),
            5 <= i <= nc@.len(),
            replaced ==> replace_first_slash(map_under_to_slash(tail)) == out@
                + map_under_to_slash(tail).skip(i - 5),
            !replaced ==> replace_first_slash(map_under_to_slash(tail)) == out@
                + replace_first_slash(map_under_to_slash(tail).skip(i - 5)),
    {
        let c = nc[i];
        proof {
            assert(tail[i - 5] == name@[i as int]);
            assert(map_under_to_slash(tail)[i - 5] == (if name@[i as int] == '_' {
                '/'
            } else {
                name@[i as int]
            }));
            assert(map_under_to_slash(tail).skip(i - 5)[0] == map_under_to_slash(tail)[i - 5]);
            assert(map_under_to_slash(tail).skip(i - 5).drop_first() =~= map_under_to_slash(
                tail,
            ).skip(i - 4));
        }
        if !replaced && (c == '_' || c == '/') {
            out.push('_');
            replaced = true;
        } else if c == '_' {
            out.push('/');
        } else {
            out.push(c);
        }
    }
    proof {
        assert(map_under_to_slash(tail).skip(nc@.len() - 5) =~= Seq::<char>::empty());
    }
    Some(from_chars(&out))
}

} // verus!
