//! String helpers shared by the chunkers and the identity functions:
//! conversion between `&str` and `Vec<char>`, line splitting with the
//! semantics of `str::lines`, joining line ranges, and small scans.

use vstd::prelude::*;
use vstd::string::StringExecFns;

verus! {

broadcast use vstd::string::group_string_axioms;

/// Relies on `String::push`: appends one character at the end of the string.
pub assume_specification[ String::push ](s: &mut String, c: char)
    ensures
        final(s)@ == old(s)@.push(c),
;

/// The characters of `s`, in order.
pub fn to_chars(s: &str) -> (r: Vec<char>)
    ensures
        r@ == s@,
{
    let mut r: Vec<char> = Vec::new();
    for c in it: s.chars()
        invariant
            it.seq() == s@,
            r@ == it.seq().take(it.index() as int),
    {
        r.push(c);
        assert(r@ =~= it.seq().take(it.index() + 1));
    }
    assert(r@ =~= s@);
    r
}

/// The string holding exactly the characters of `v`.
pub fn from_chars(v: &Vec<char>) -> (r: String)
    ensures
        r@ == v@,
{
    let mut r = String::new();
    for i in 0..v.len()
        invariant
            r@ == v@.take(i as int),
    {
        r.push(v[i]);
        assert(r@ =~= v@.take(i + 1));
    }
    assert(r@ =~= v@);
    r
}

/// A line with its trailing carriage return removed.
pub open spec fn strip_cr(s: Seq<char>) -> Seq<char> {
    if s.len() > 0 && s[s.len() - 1] == '\r' {
        s.drop_last()
    } else {
        s
    }
}

/// The lines of `s` when `cur` holds the characters already consumed of the
/// current line: split at `'\n'`, one trailing `'\r'` removed per line, and
/// no empty line after a final newline.
pub open spec fn lines_acc(s: Seq<char>, cur: Seq<char>) -> Seq<Seq<char>>
    decreases s.len(),
{
    if s.len() == 0 {
        if cur.len() == 0 {
            Seq::empty()
        } else {
            seq![cur]
        }
    } else if s[0] == '\n' {
        seq![strip_cr(cur)] + lines_acc(s.drop_first(), Seq::empty())
    } else {
        lines_acc(s.drop_first(), cur.push(s[0]))
    }
}

/// The lines of `s`, with the semantics of `str::lines`.
pub open spec fn spec_lines(s: Seq<char>) -> Seq<Seq<char>> {
    lines_acc(s, Seq::empty())
}

/// Splits a character sequence into its lines.
pub fn split_lines(chars: &Vec<char>) -> (r: Vec<String>)
    ensures
        r.deep_view() == spec_lines(chars@),
{
    let mut r: Vec<String> = Vec::new();
    let mut cur: Vec<char> = Vec::new();
    assert(chars@.skip(0) =~= chars@);
    assert(r.deep_view() =~= Seq::<Seq<char>>::empty());
    assert(Seq::<Seq<char>>::empty() + lines_acc(chars@, cur@) =~= lines_acc(chars@, cur@));
    for i in 0..chars.len()
        invariant
            spec_lines(chars@) == r.deep_view() + lines_acc(chars@.skip(i as int), cur@),
    {
        let c = chars[i];
        assert(chars@.skip(i as int)[0] == c);
        assert(chars@.skip(i as int).drop_first() =~= chars@.skip(i + 1));
        if c == '\n' {
            let ghost pre = cur@;
            if cur.len() > 0 && cur[cur.len() - 1] == '\r' {
                cur.pop();
            }
            assert(cur@ == strip_cr(pre));
            let line = from_chars(&cur);
            let ghost prev = r.deep_view();
            r.push(line);
            cur = Vec::new();
            assert(r.deep_view() =~= prev + seq![line@]);
        } else {
            cur.push(c);
        }
    }
    assert(chars@.skip(chars@.len() as int) =~= Seq::<char>::empty());
    if cur.len() > 0 {
        let line = from_chars(&cur);
        let ghost prev = r.deep_view();
        r.push(line);
        assert(r.deep_view() =~= prev + seq![line@]);
    }
    r
}

/// How many characters of `s` equal `c`.
pub open spec fn count_char(s: Seq<char>, c: char) -> nat
    decreases s.len(),
{
    if s.len() == 0 {
        0
    } else {
        count_char(s.drop_last(), c) + (if s[s.len() - 1] == c {
            1nat
        } else {
            0nat
        })
    }
}

/// Counts the occurrences of `c` in `s`.
pub fn count_char_in(s: &str, c: char) -> (r: usize)
    ensures
        r == count_char(s@, c),
{
    let chars = to_chars(s);
    let mut r: usize = 0;
    for i in 0..chars.len()
        invariant
            chars@ == s@,
            r == count_char(s@.take(i as int), c),
            r <= i,
    {
        assert(s@.take(i + 1).drop_last() =~= s@.take(i as int));
        if chars[i] == c {
            r = r + 1;
        }
    }
    assert(s@.take(s@.len() as int) =~= s@);
    r
}

/// Whether the two strings hold the same characters.
pub fn streq(a: &str, b: &str) -> (r: bool)
    ensures
        r == (a@ == b@),
{
    let sa = a.to_owned();
    let sb = b.to_owned();
    sa.eq(&sb)
}

/// An ASCII whitespace character.
pub open spec fn is_space(c: char) -> bool {
    c == ' ' || c == '\t' || c == '\r' || c == '\n'
}

/// `s` without its leading whitespace.
pub open spec fn skip_spaces(s: Seq<char>) -> Seq<char>
    decreases s.len(),
{
    if s.len() > 0 && is_space(s[0]) {
        skip_spaces(s.drop_first())
    } else {
        s
    }
}

/// `s` without its trailing whitespace.
pub open spec fn trim_back_spaces(s: Seq<char>) -> Seq<char>
    decreases s.len(),
{
    if s.len() > 0 && is_space(s[s.len() - 1]) {
        trim_back_spaces(s.drop_last())
    } else {
        s
    }
}

/// `s` without leading and trailing whitespace.
pub open spec fn trim_spaces(s: Seq<char>) -> Seq<char> {
    trim_back_spaces(skip_spaces(s))
}

fn space_char(c: char) -> (r: bool)
    ensures
        r == is_space(c),
{
    c == ' ' || c == '\t' || c == '\r' || c == '\n'
}

/// Removes leading and trailing ASCII whitespace.
pub fn trim_spaces_exec(v: &Vec<char>) -> (r: Vec<char>)
    ensures
        r@ == trim_spaces(v@),
{
    let mut i: usize = 0;
    assert(v@.skip(0) =~= v@);
    while i < v.len() && space_char(v[i])
        invariant
            i <= v@.len(),
            skip_spaces(v@) == skip_spaces(v@.skip(i as int)),
        decreases v@.len() - i,
    {
        assert(v@.skip(i as int)[0] == v@[i as int]);
        assert(v@.skip(i as int).drop_first() =~= v@.skip(i + 1));
        i = i + 1;
    }
    assert(skip_spaces(v@.skip(i as int)) =~= v@.skip(i as int));
    let mut j: usize = v.len();
    while j > i && space_char(v[j - 1])
        invariant
            i <= j <= v@.len(),
            trim_back_spaces(v@.skip(i as int)) == trim_back_spaces(
                v@.subrange(i as int, j as int),
            ),
        decreases j,
    {
        assert(v@.subrange(i as int, j as int).drop_last() =~= v@.subrange(i as int, j - 1));
        j = j - 1;
    }
    assert(trim_back_spaces(v@.subrange(i as int, j as int)) =~= v@.subrange(i as int, j as int));
    let mut r: Vec<char> = Vec::new();
    for k in i..j
        invariant
            i <= j <= v@.len(),
            r@ == v@.subrange(i as int, k as int),
    {
        r.push(v[k]);
        assert(r@ =~= v@.subrange(i as int, k + 1));
    }
    r
}

/// `sub` occurs somewhere in `s`.
pub open spec fn contains_sub(s: Seq<char>, sub: Seq<char>) -> bool {
    exists|k: int|
        0 <= k && k + sub.len() <= s.len() && #[trigger] s.subrange(k, k + sub.len() as int) == sub
}

/// Checks whether `sub` occurs in `s`.
pub fn contains_chars(s: &Vec<char>, sub: &Vec<char>) -> (r: bool)
    ensures
        r == contains_sub(s@, sub@),
{
    if sub.len() == 0 {
        assert(contains_sub(s@, sub@)) by {
            assert(s@.subrange(0, 0 + sub@.len() as int) =~= sub@);
        }
        return true;
    }
    if sub.len() > s.len() {
        assert(!contains_sub(s@, sub@));
        return false;
    }
    for k in 0..(s.len() - sub.len() + 1)
        invariant
            sub@.len() <= s@.len(),
            forall|kk: int|
                0 <= kk < k ==> #[trigger] s@.subrange(kk, kk + sub@.len() as int) != sub@,
    {
        assert(k + sub@.len() <= s@.len());
        let mut ok = true;
        let mut j: usize = 0;
        while j < sub.len()
            invariant
                j <= sub@.len(),
                k + sub@.len() <= s@.len(),
                s@.len() <= usize::MAX,
                ok == (forall|jj: int| 0 <= jj < j ==> s@[k + jj] == sub@[jj]),
            decreases sub@.len() - j,
        {
            if s[k + j] != sub[j] {
                ok = false;
            }
            j = j + 1;
        }
        if ok {
            assert(s@.subrange(k as int, k as int + sub@.len() as int) =~= sub@);
            return true;
        }
        assert(s@.subrange(k as int, k as int + sub@.len() as int) != sub@) by {
            let jj = choose|jj: int| 0 <= jj < sub@.len() && s@[k + jj] != sub@[jj];
            assert(s@.subrange(k as int, k as int + sub@.len() as int)[jj] != sub@[jj]);
        }
    }
    assert(!contains_sub(s@, sub@)) by {
        if contains_sub(s@, sub@) {
            let k = choose|k: int|
                0 <= k && k + sub@.len() <= s@.len() && #[trigger] s@.subrange(
                    k,
                    k + sub@.len() as int,
                ) == sub@;
        }
    }
    false
}

/// Whether `s` starts with the characters of `prefix`.
pub open spec fn spec_starts_with(s: Seq<char>, prefix: Seq<char>) -> bool {
    s.len() >= prefix.len() && s.take(prefix.len() as int) == prefix
}

/// Checks whether `s` starts with `prefix`, character by character.
pub fn starts_with(s: &Vec<char>, prefix: &Vec<char>) -> (r: bool)
    ensures
        r == spec_starts_with(s@, prefix@),
{
    if s.len() < prefix.len() {
        return false;
    }
    for i in 0..prefix.len()
        invariant
            s@.len() >= prefix@.len(),
            forall|j: int| 0 <= j < i ==> s@[j] == prefix@[j],
    {
        if s[i] != prefix[i] {
            assert(s@.take(prefix@.len() as int) != prefix@) by {
                assert(s@.take(prefix@.len() as int)[i as int] != prefix@[i as int]);
            }
            return false;
        }
    }
    assert(s@.take(prefix@.len() as int) =~= prefix@);
    true
}

} // verus!
