//! Package feature handling: the sorted feature-name list that the registry
//! lookup produces, validation of requested features against it, and the
//! equality check the embed pre-check uses.

use vstd::prelude::*;
use crate::error::BackendError;
use crate::strutil::{streq, to_chars};

verus! {

/// Lexicographic order on character sequences, by code point.
pub open spec fn lex_le(a: Seq<char>, b: Seq<char>) -> bool
    decreases a.len(),
{
    if a.len() == 0 {
        true
    } else if b.len() == 0 {
        false
    } else if (a[0] as u32) < (b[0] as u32) {
        true
    } else if (a[0] as u32) > (b[0] as u32) {
        false
    } else {
        lex_le(a.drop_first(), b.drop_first())
    }
}

/// The order is total.
pub proof fn lemma_lex_total(a: Seq<char>, b: Seq<char>)
    ensures
        lex_le(a, b) || lex_le(b, a),
    decreases a.len(),
{
    if a.len() > 0 && b.len() > 0 && a[0] as u32 == b[0] as u32 {
        lemma_lex_total(a.drop_first(), b.drop_first());
    }
}

/// Compares two strings in lexicographic code point order.
pub fn str_lex_le(a: &String, b: &String) -> (r: bool)
    ensures
        r == lex_le(a@, b@),
{
    let ac = to_chars(a.as_str());
    let bc = to_chars(b.as_str());
    let mut i: usize = 0;
    assert(a@.skip(0) =~= a@);
    assert(b@.skip(0) =~= b@);
    while i < ac.len() && i < bc.len()
        invariant
            ac@ == a@,
            bc@ == b@,
            i <= a@.len(),
            i <= b@.len(),
            lex_le(a@, b@) == lex_le(a@.skip(i as int), b@.skip(i as int)),
            lex_le(b@, a@) == lex_le(b@.skip(i as int), a@.skip(i as int)),
        decreases a@.len() - i,
    {
        proof {
            assert(a@.skip(i as int)[0] == a@[i as int]);
            assert(b@.skip(i as int)[0] == b@[i as int]);
            assert(a@.skip(i as int).drop_first() =~= a@.skip(i + 1));
            assert(b@.skip(i as int).drop_first() =~= b@.skip(i + 1));
        }
        let ca = ac[i] as u32;
        let cb = bc[i] as u32;
        if ca < cb {
            return true;
        }
        if ca > cb {
            return false;
        }
        i = i + 1;
    }
    if i >= ac.len() {
        assert(a@.skip(i as int).len() == 0);
        true
    } else {
        assert(b@.skip(i as int).len() == 0);
        assert(a@.skip(i as int).len() > 0);
        false
    }
}

/// The strings are in lexicographic order.
pub open spec fn sorted_strings(s: Seq<String>) -> bool {
    forall|i: int| 0 <= i && i + 1 < s.len() ==> #[trigger] lex_le(s[i]@, s[i + 1]@)
}

fn insert_sorted(out: &mut Vec<String>, x: String)
    requires
        sorted_strings(old(out)@),
    ensures
        sorted_strings(final(out)@),
        final(out)@.to_multiset() == old(out)@.to_multiset().insert(x),
        final(out)@.len() == old(out)@.len() + 1,
{
    let ghost s0 = out@;
    let mut p: usize = 0;
    while p < out.len() && str_lex_le(&out[p], &x)
        invariant
            out@ == s0,
            p <= s0.len(),
            forall|j: int| 0 <= j < p ==> #[trigger] lex_le(s0[j]@, x@),
        decreases s0.len() - p,
    {
        p = p + 1;
    }
    proof {
        if p < s0.len() {
            lemma_lex_total(s0[p as int]@, x@);
        }
    }
    out.insert(p, x);
    proof {
        s0.insert_ensures(p as int, x);
        let s1 = out@;
        assert forall|i: int| 0 <= i && i + 1 < s1.len() implies #[trigger] lex_le(
            s1[i]@,
            s1[i + 1]@,
        ) by {
            if i + 1 < p {
                assert(s1[i] == s0[i] && s1[i + 1] == s0[i + 1]);
            } else if i + 1 == p {
                assert(s1[i] == s0[i] && s1[i + 1] == x);
            } else if i == p {
                assert(s1[i] == x && s1[i + 1] == s0[i]);
                assert(lex_le(x@, s0[i]@));
            } else {
                assert(s1[i] == s0[i - 1] && s1[i + 1] == s0[i]);
            }
        }
        assert(s0.subrange(0, p as int) + s0.subrange(p as int, s0.len() as int) =~= s0);
        lemma_multiset_insert(s0, p as int, x);
    }
}

/// Inserting an element anywhere adds exactly it to the multiset.
proof fn lemma_multiset_insert(s: Seq<String>, p: int, x: String)
    requires
        0 <= p <= s.len(),
    ensures
        s.insert(p, x).to_multiset() == s.to_multiset().insert(x),
{
    let a = s.subrange(0, p);
    let b = s.subrange(p, s.len() as int);
    assert(s.insert(p, x) == a.push(x) + b);
    vstd::seq_lib::lemma_multiset_commutative(a.push(x), b);
    vstd::seq_lib::lemma_multiset_commutative(a, b);
    a.to_multiset_ensures();
    assert(a.push(x).to_multiset() =~= a.to_multiset().insert(x));
    assert(a + b =~= s);
    assert(s.insert(p, x).to_multiset() =~= s.to_multiset().insert(x));
}

/// Sorts feature names in lexicographic code point order, keeping exactly
/// the same names.
pub fn sorted_feature_names(names: Vec<String>) -> (r: Vec<String>)
    ensures
        sorted_strings(r@),
        r@.to_multiset() == names@.to_multiset(),
        r@.len() == names@.len(),
{
    let mut out: Vec<String> = Vec::new();
    proof {
        out@.to_multiset_ensures();
        names@.to_multiset_ensures();
        assert(names@.take(0) =~= Seq::<String>::empty());
        assert(out@.to_multiset() =~= names@.take(0).to_multiset());
    }
    for i in 0..names.len()
        invariant
            sorted_strings(out@),
            out@.to_multiset() == names@.take(i as int).to_multiset(),
            out@.len() == i,
    {
        insert_sorted(&mut out, names[i].clone());
        proof {
            names@.take(i as int).to_multiset_ensures();
            assert(names@.take(i + 1).drop_last() =~= names@.take(i as int));
            assert(names@.take(i + 1) =~= names@.take(i as int).push(names@[i as int]));
        }
    }
    proof {
        assert(names@.take(names@.len() as int) =~= names@);
    }
    out
}

/// The name occurs among the available feature names.
pub open spec fn known_name(name: Seq<char>, available: Seq<String>) -> bool {
    exists|j: int| 0 <= j < available.len() && name == (#[trigger] available[j])@
}

/// Whether every requested feature occurs among the available ones.
pub open spec fn all_known(requested: Seq<String>, available: Seq<String>) -> bool {
    forall|i: int| 0 <= i < requested.len() ==> known_name((#[trigger] requested[i])@, available)
}

fn name_known(name: &String, available: &Vec<String>) -> (r: bool)
    ensures
        r == known_name(name@, available@),
{
    for j in 0..available.len()
        invariant
            forall|k: int| 0 <= k < j ==> name@ != (#[trigger] available@[k])@,
    {
        if streq(name.as_str(), available[j].as_str()) {
            return true;
        }
    }
    false
}

/// Checks the requested features against the package's declared set:
/// succeeds exactly when every requested feature is declared, and names the
/// first unknown one otherwise.
pub fn validate_features(requested: &Vec<String>, available: &Vec<String>) -> (r: Result<
    (),
    BackendError,
>)
    ensures
        (r is Ok) == all_known(requested@, available@),
        r matches Err(e) ==> e is UnknownFeature,
{
    for i in 0..requested.len()
        invariant
            forall|k: int| 0 <= k < i ==> known_name((#[trigger] requested@[k])@, available@),
    {
        if !name_known(&requested[i], available) {
            return Err(BackendError::UnknownFeature(requested[i].clone()));
        }
    }
    Ok(())
}

/// Chooses the version that "latest" resolves to: the highest stable
/// version where the registry declares one, else the highest version.
pub fn pick_latest(max_stable_version: Option<String>, max_version: String) -> (r: String)
    ensures
        match max_stable_version {
            Some(v) => r == v,
            None => r == max_version,
        },
{
    match max_stable_version {
        Some(v) => v,
        None => max_version,
    }
}

/// Whether the two sorted feature lists are equal name for name.
pub open spec fn features_equal(a: Seq<String>, b: Seq<String>) -> bool {
    a.len() == b.len() && forall|i: int| 0 <= i < a.len() ==> (#[trigger] a[i])@ == (
    #[trigger] b[i])@
}

/// Compares two feature lists name for name.
pub fn same_features(a: &Vec<String>, b: &Vec<String>) -> (r: bool)
    ensures
        r == features_equal(a@, b@),
{
    if a.len() != b.len() {
        return false;
    }
    for i in 0..a.len()
        invariant
            a@.len() == b@.len(),
            forall|k: int| 0 <= k < i ==> (#[trigger] a@[k])@ == (#[trigger] b@[k])@,
    {
        if !streq(a[i].as_str(), b[i].as_str()) {
            return false;
        }
    }
    true
}

} // verus!
