//! Target identity: canonical collection names and repository input
//! normalization. URL parsing itself sits behind a trusted wrapper over the
//! `url` crate; every decision on the parsed parts is verified.

use vstd::prelude::*;
use vstd::string::StringExecFns;
use crate::error::BackendError;
use crate::strutil::{from_chars, streq, to_chars};

verus! {

/// What `url::Url::parse` makes of `s`: `None` when the string is no
/// absolute URL, else the host (when one exists) and the path.
pub uninterp spec fn url_parts(s: Seq<char>) -> Option<(Option<Seq<char>>, Seq<char>)>;

/// Relies on `url::Url::parse` and the accessors `Url::host_str` and
/// `Url::path`: the outcome depends on the input string alone.
#[verifier::external_body]
fn parse_url_parts(s: &str) -> (r: Option<(Option<String>, String)>)
    ensures
        (r is Some) == (url_parts(s@) is Some),
        r matches Some(p) ==> {
            &&& (p.0 is Some) == ((url_parts(s@)->0).0 is Some)
            &&& (p.0 matches Some(h) ==> h@ == (url_parts(s@)->0).0->0)
            &&& p.1@ == (url_parts(s@)->0).1
        },
{
    match url::Url::parse(s) {
        Ok(u) => Some((u.host_str().map(|h| h.to_string()), u.path().to_string())),
        Err(_) => None,
    }
}

/// `s` without its leading slashes.
pub open spec fn trim_lead(s: Seq<char>) -> Seq<char>
    decreases s.len(),
{
    if s.len() > 0 && s[0] == '/' {
        trim_lead(s.drop_first())
    } else {
        s
    }
}

/// `s` without its trailing slashes.
pub open spec fn trim_trail(s: Seq<char>) -> Seq<char>
    decreases s.len(),
{
    if s.len() > 0 && s[s.len() - 1] == '/' {
        trim_trail(s.drop_last())
    } else {
        s
    }
}

/// `s` without leading and trailing slashes.
pub open spec fn trim_slashes(s: Seq<char>) -> Seq<char> {
    trim_trail(trim_lead(s))
}

fn trim_slashes_exec(v: &Vec<char>) -> (r: Vec<char>)
    ensures
        r@ == trim_slashes(v@),
{
    let mut i: usize = 0;
    assert(v@.skip(0) =~= v@);
    while i < v.len() && v[i] == '/'
        invariant
            i <= v@.len(),
            trim_lead(v@) == trim_lead(v@.skip(i as int)),
        decreases v@.len() - i,
    {
        assert(v@.skip(i as int)[0] == v@[i as int]);
        assert(v@.skip(i as int).drop_first() =~= v@.skip(i + 1));
        i = i + 1;
    }
    assert(trim_lead(v@.skip(i as int)) =~= v@.skip(i as int));
    let mut j: usize = v.len();
    while j > i && v[j - 1] == '/'
        invariant
            i <= j <= v@.len(),
            trim_trail(v@.skip(i as int)) == trim_trail(v@.subrange(i as int, j as int)),
        decreases j,
    {
        assert(v@.subrange(i as int, j as int).drop_last() =~= v@.subrange(i as int, j - 1));
        j = j - 1;
    }
    assert(trim_trail(v@.subrange(i as int, j as int)) =~= v@.subrange(i as int, j as int));
    let mut r: Vec<char> = Vec::new();
    for k in i..j
        invariant
            i <= j <= v@.len(),
            r@ == v@.subrange(i as int, k as int),
    {
        r.push(v[k]);
        assert(r@ =~= v@.subrange(i as int, k + 1));
    }
    r
}

/// The pieces of `s` split at `'/'`, keeping empty pieces, with `cur` the
/// characters already consumed of the current piece.
pub open spec fn slash_split_acc(s: Seq<char>, cur: Seq<char>) -> Seq<Seq<char>>
    decreases s.len(),
{
    if s.len() == 0 {
        seq![cur]
    } else if s[0] == '/' {
        seq![cur] + slash_split_acc(s.drop_first(), Seq::empty())
    } else {
        slash_split_acc(s.drop_first(), cur.push(s[0]))
    }
}

/// The pieces of `s` split at `'/'`.
pub open spec fn slash_split(s: Seq<char>) -> Seq<Seq<char>> {
    slash_split_acc(s, Seq::empty())
}

fn split_slash(v: &Vec<char>) -> (r: Vec<String>)
    ensures
        r.deep_view() == slash_split(v@),
{
    let mut r: Vec<String> = Vec::new();
    let mut cur: Vec<char> = Vec::new();
    proof {
        assert(v@.skip(0) =~= v@);
        assert(Seq::<Seq<char>>::empty() + slash_split_acc(v@, cur@) =~= slash_split_acc(
            v@,
            cur@,
        ));
        assert(r.deep_view() =~= Seq::<Seq<char>>::empty());
    }
    for i in 0..v.len()
        invariant
            slash_split(v@) == r.deep_view() + slash_split_acc(v@.skip(i as int), cur@),
    {
        let c = v[i];
        assert(v@.skip(i as int)[0] == c);
        assert(v@.skip(i as int).drop_first() =~= v@.skip(i + 1));
        if c == '/' {
            let piece = from_chars(&cur);
            let ghost prev = r.deep_view();
            r.push(piece);
            cur = Vec::new();
            assert(r.deep_view() =~= prev + seq![piece@]);
        } else {
            cur.push(c);
        }
    }
    assert(v@.skip(v@.len() as int) =~= Seq::<char>::empty());
    let piece = from_chars(&cur);
    let ghost prev = r.deep_view();
    r.push(piece);
    assert(r.deep_view() =~= prev + seq![piece@]);
    r
}

/// Every `'-'` and `'/'` replaced by `'_'`.
pub open spec fn map_dash_slash(s: Seq<char>) -> Seq<char> {
    s.map(
        |i: int, c: char|
            if c == '-' || c == '/' {
                '_'
            } else {
                c
            },
    )
}

fn replace_dash_slash(v: &Vec<char>) -> (r: Vec<char>)
    ensures
        r@ == map_dash_slash(v@),
{
    let mut r: Vec<char> = Vec::new();
    assert(r@ =~= map_dash_slash(v@.take(0)));
    for i in 0..v.len()
        invariant
            r@ == map_dash_slash(v@.take(i as int)),
    {
        let c = v[i];
        if c == '-' || c == '/' {
            r.push('_');
        } else {
            r.push(c);
        }
        assert(r@ =~= map_dash_slash(v@.take(i + 1)));
    }
    assert(v@.take(v@.len() as int) =~= v@);
    r
}

/// Every `'-'` replaced by `'_'`.
pub open spec fn map_dash(s: Seq<char>) -> Seq<char> {
    s.map(
        |i: int, c: char|
            if c == '-' {
                '_'
            } else {
                c
            },
    )
}

/// Every `'.'` replaced by `'_'`.
pub open spec fn map_dot(s: Seq<char>) -> Seq<char> {
    s.map(
        |i: int, c: char|
            if c == '.' {
                '_'
            } else {
                c
            },
    )
}

/// An ASCII capital lowered; any other character kept.
pub open spec fn lower_char(c: char) -> char {
    if 65 <= c as u32 <= 90 {
        (((c as u32) + 32) as u8) as char
    } else {
        c
    }
}

/// Every ASCII capital lowered.
pub open spec fn map_lower(s: Seq<char>) -> Seq<char> {
    s.map(|i: int, c: char| lower_char(c))
}

fn lower_and_underscore(v: &Vec<char>) -> (r: Vec<char>)
    ensures
        r@ == map_lower(map_dash(v@)),
{
    let mut r: Vec<char> = Vec::new();
    assert(r@ =~= map_lower(map_dash(v@.take(0))));
    for i in 0..v.len()
        invariant
            r@ == map_lower(map_dash(v@.take(i as int))),
    {
        let c = v[i];
        if c == '-' {
            r.push('_');
        } else {
            let u = c as u32;
            if 65 <= u && u <= 90 {
                r.push(((u + 32) as u8) as char);
            } else {
                r.push(c);
            }
        }
        assert(r@ =~= map_lower(map_dash(v@.take(i + 1))));
    }
    assert(v@.take(v@.len() as int) =~= v@);
    r
}

/// The repository name that a repository URL denotes: the first two path
/// segments joined by `'_'`; none when the URL does not parse or has fewer
/// than two segments.
pub open spec fn spec_repo_name(s: Seq<char>) -> Option<Seq<char>> {
    match url_parts(s) {
        None => None,
        Some(p) => {
            let parts = slash_split(trim_slashes(p.1));
            if parts.len() >= 2 {
                Some(parts[0] + seq!['_'] + parts[1])
            } else {
                None
            }
        },
    }
}

/// Converts repository URLs into filesystem-safe identifiers for storage
/// and display purposes.
pub fn extract_repo_name_from_url(repo_url: &str) -> (r: Result<String, BackendError>)
    ensures
        (r is Ok) == (spec_repo_name(repo_url@) is Some),
        r matches Ok(t) ==> t@ == spec_repo_name(repo_url@)->0,
        r matches Err(e) ==> e is InvalidTarget,
{
    match parse_url_parts(repo_url) {
        None => Err(
            BackendError::InvalidTarget(String::from_str("Invalid repository URL format")),
        ),
        Some((_host, path)) => {
            let pc = to_chars(path.as_str());
            let trimmed = trim_slashes_exec(&pc);
            let parts = split_slash(&trimmed);
            if parts.len() >= 2 {
                let mut t = parts[0].clone();
                t.append("_");
                t.append(parts[1].as_str());
                proof {
                    reveal_strlit("_");
                    assert("_"@ =~= seq!['_']);
                    assert(parts@[0]@ == parts.deep_view()[0]);
                    assert(parts@[1]@ == parts.deep_view()[1]);
                }
                Ok(t)
            } else {
                Err(BackendError::InvalidTarget(String::from_str("Invalid repository URL format")))
            }
        },
    }
}

/// The collection name of a repository: `repo_` and the repository name
/// with every `'-'` and `'/'` turned into `'_'`.
pub open spec fn spec_repo_table_name(s: Seq<char>) -> Option<Seq<char>> {
    match spec_repo_name(s) {
        None => None,
        Some(name) => Some("repo_"@ + map_dash_slash(name)),
    }
}

/// Creates consistent collection names across server restarts to ensure
/// embeddings can be reliably retrieved for any repository.
pub fn gen_table_name_for_repo(repo_url: &str) -> (r: Result<String, BackendError>)
    ensures
        (r is Ok) == (spec_repo_table_name(repo_url@) is Some),
        r matches Ok(t) ==> t@ == spec_repo_table_name(repo_url@)->0,
        r matches Err(e) ==> e is InvalidTarget,
{
    match extract_repo_name_from_url(repo_url) {
        Ok(name) => {
            let chars = to_chars(name.as_str());
            let mapped = replace_dash_slash(&chars);
            let tail = from_chars(&mapped);
            let mut t = String::from_str("repo_");
            t.append(tail.as_str());
            Ok(t)
        },
        Err(e) => Err(e),
    }
}

/// The collection name of a package and version: the lowercased package
/// name with dashes as underscores, `_v`, and the version with dots as
/// underscores.
pub open spec fn spec_table_name(name: Seq<char>, version: Seq<char>) -> Seq<char> {
    map_lower(map_dash(name)) + "_v"@ + map_dot(version)
}

/// Derives the collection name of a package at a version.
pub fn gen_table_name(crate_name: &str, version: &str) -> (r: String)
    ensures
        r@ == spec_table_name(crate_name@, version@),
{
    let nc = to_chars(crate_name);
    let lowered = lower_and_underscore(&nc);
    let vc = to_chars(version);
    let vm = {
        let mut r: Vec<char> = Vec::new();
        assert(r@ =~= map_dot(vc@.take(0)));
        for i in 0..vc.len()
            invariant
                r@ == map_dot(vc@.take(i as int)),
        {
            let c = vc[i];
            if c == '.' {
                r.push('_');
            } else {
                r.push(c);
            }
            assert(r@ =~= map_dot(vc@.take(i + 1)));
        }
        assert(vc@.take(vc@.len() as int) =~= vc@);
        r
    };
    let mut t = from_chars(&lowered);
    t.append("_v");
    let tail = from_chars(&vm);
    t.append(tail.as_str());
    t
}

/// Law: the collection name is a total function of the identifier: two
/// calls with equal package names and versions give equal names, and two
/// equal repository identifiers give equal repository collection names.
pub proof fn lemma_collection_name_deterministic(
    n1: Seq<char>,
    v1: Seq<char>,
    n2: Seq<char>,
    v2: Seq<char>,
    r1: Seq<char>,
    r2: Seq<char>,
)
    requires
        n1 == n2,
        v1 == v2,
        r1 == r2,
    ensures
        spec_table_name(n1, v1) == spec_table_name(n2, v2),
        spec_repo_table_name(r1) == spec_repo_table_name(r2),
{
}

/// The canonical form of a repository input: a GitHub URL is cut to its
/// first two path segments, another URL passes through unchanged, and
/// `owner/repo` becomes the GitHub URL; anything else is rejected.
pub open spec fn spec_parse_repo_input(s: Seq<char>) -> Option<Seq<char>> {
    match url_parts(s) {
        Some(p) => {
            if p.0 matches Some(h) && h == "github.com"@ {
                let parts = slash_split(trim_slashes(p.1));
                if parts.len() >= 2 && parts[0].len() > 0 && parts[1].len() > 0 {
                    Some("https://github.com/"@ + parts[0] + seq!['/'] + parts[1])
                } else {
                    Some(s)
                }
            } else {
                Some(s)
            }
        },
        None => {
            let parts = slash_split(s);
            if parts.len() == 2 && parts[0].len() > 0 && parts[1].len() > 0 {
                Some("https://github.com/"@ + s)
            } else {
                None
            }
        },
    }
}

/// Splitting consumes a slash-free prefix into the current piece.
proof fn lemma_split_no_slash(a: Seq<char>, rest: Seq<char>, cur: Seq<char>)
    requires
        forall|k: int| 0 <= k < a.len() ==> a[k] != '/',
    ensures
        slash_split_acc(a + rest, cur) == slash_split_acc(rest, cur + a),
    decreases a.len(),
{
    if a.len() == 0 {
        assert(a + rest =~= rest);
        assert(cur + a =~= cur);
    } else {
        assert((a + rest)[0] == a[0]);
        assert((a + rest).drop_first() =~= a.drop_first() + rest);
        assert(cur.push(a[0]) + a.drop_first() =~= cur + a);
        assert(forall|k: int| 0 <= k < a.drop_first().len() ==> #[trigger] a.drop_first()[k] == a[
            k + 1
        ]);
        lemma_split_no_slash(a.drop_first(), rest, cur.push(a[0]));
    }
}

/// Law: parsing is stable on canonical identifiers. Where the URL parser
/// reads an input as a GitHub URL whose path is exactly `/owner/repo`, the
/// normalized form is the canonical URL of that owner and repository — so
/// normalizing an already canonical identifier returns it unchanged.
pub proof fn lemma_canonical_input_stable(s: Seq<char>, owner: Seq<char>, repo: Seq<char>)
    requires
        owner.len() > 0,
        repo.len() > 0,
        forall|k: int| 0 <= k < owner.len() ==> owner[k] != '/',
        forall|k: int| 0 <= k < repo.len() ==> repo[k] != '/',
        url_parts(s) == Some(
            (Some("github.com"@), seq!['/'] + owner + seq!['/'] + repo),
        ),
    ensures
        spec_parse_repo_input(s) == Some("https://github.com/"@ + owner + seq!['/'] + repo),
{
    let path = seq!['/'] + owner + seq!['/'] + repo;
    let inner = owner + (seq!['/'] + repo);
    assert(path[0] == '/');
    assert(path.drop_first() =~= inner);
    assert(owner[0] != '/');
    assert(inner[0] == owner[0]);
    assert(trim_lead(inner) == inner);
    assert(trim_lead(path) == trim_lead(inner));
    assert(repo[repo.len() - 1] != '/');
    assert(inner[inner.len() - 1] == repo[repo.len() - 1]);
    assert(trim_trail(inner) == inner);
    lemma_split_no_slash(owner, seq!['/'] + repo, Seq::empty());
    assert(Seq::empty() + owner =~= owner);
    assert((seq!['/'] + repo)[0] == '/');
    assert((seq!['/'] + repo).drop_first() =~= repo);
    lemma_split_no_slash(repo, Seq::empty(), Seq::empty());
    assert(repo + Seq::<char>::empty() =~= repo);
    assert(Seq::empty() + repo =~= repo);
    let parts = slash_split(trim_slashes(path));
    assert(parts =~= seq![owner] + seq![repo]);
    assert(parts[0] == owner);
    assert(parts[1] == repo);
}

/// Normalizes various repository input formats into canonical GitHub URLs,
/// supporting both shorthand and full URL inputs.
pub fn parse_repository_input(input: &str) -> (r: Result<String, BackendError>)
    ensures
        (r is Ok) == (spec_parse_repo_input(input@) is Some),
        r matches Ok(t) ==> t@ == spec_parse_repo_input(input@)->0,
        r matches Err(e) ==> e is InvalidTarget,
{
    match parse_url_parts(input) {
        Some((host, path)) => {
            let is_github = match &host {
                Some(h) => streq(h.as_str(), "github.com"),
                None => false,
            };
            if is_github {
                let pc = to_chars(path.as_str());
                let trimmed = trim_slashes_exec(&pc);
                let parts = split_slash(&trimmed);
                if parts.len() >= 2 && !parts[0].as_str().is_empty()
                    && !parts[1].as_str().is_empty() {
                    let mut t = String::from_str("https://github.com/");
                    t.append(parts[0].as_str());
                    t.append("/");
                    t.append(parts[1].as_str());
                    proof {
                        reveal_strlit("/");
                        assert("/"@ =~= seq!['/']);
                        assert(parts@[0]@ == parts.deep_view()[0]);
                        assert(parts@[1]@ == parts.deep_view()[1]);
                    }
                    Ok(t)
                } else {
                    Ok(input.to_owned())
                }
            } else {
                Ok(input.to_owned())
            }
        },
        None => {
            let ic = to_chars(input);
            let parts = split_slash(&ic);
            if parts.len() == 2 && !parts[0].as_str().is_empty() && !parts[1].as_str().is_empty() {
                let mut t = String::from_str("https://github.com/");
                t.append(input);
                Ok(t)
            } else {
                Err(
                    BackendError::InvalidTarget(
                        String::from_str(
                            "Invalid repository format. Expected 'owner/repo' or a full repository URL",
                        ),
                    ),
                )
            }
        },
    }
}

} // verus!
