//! Small operations on strings: fixed markers, concatenation, prefixes.
use vstd::prelude::*;

verus! {

/// Concatenation of two strings.
pub fn concat(a: &String, b: &String) -> (r: String)
    ensures
        r@ == a@ + b@,
{
    let mut r = a.clone();
    r.append(b.as_str());
    r
}

/// A copy of `s`.
pub fn copy_of(s: &str) -> (r: String)
    ensures
        r@ == s@,
{
    s.to_string()
}

/// The rest of `s` after `prefix`, when `s` starts with it.
pub fn strip_prefix(s: &String, prefix: &String) -> (r: Option<String>)
    ensures
        r is Some <==> (prefix@.len() <= s@.len() && s@.subrange(0, prefix@.len() as int)
            == prefix@),
        r is Some ==> r->0@ == s@.subrange(prefix@.len() as int, s@.len() as int),
{
    let ls = s.as_str().unicode_len();
    let lp = prefix.as_str().unicode_len();
    if lp > ls {
        return None;
    }
    let mut i: usize = 0;
    while i < lp
        invariant
            lp <= ls,
            ls == s@.len(),
            lp == prefix@.len(),
            i <= lp,
            forall|k: int| 0 <= k < i ==> s@[k] == prefix@[k],
        decreases lp - i,
    {
        if s.as_str().get_char(i) != prefix.as_str().get_char(i) {
            assert(s@.subrange(0, lp as int)[i as int] != prefix@[i as int]);
            return None;
        }
        i = i + 1;
    }
    assert(s@.subrange(0, lp as int) =~= prefix@);
    Some(copy_of(s.as_str().substring_char(lp, ls)))
}

/// The rest of `s` before `suffix`, when `s` ends with it.
pub fn strip_suffix(s: &String, suffix: &String) -> (r: Option<String>)
    ensures
        r is Some <==> (suffix@.len() <= s@.len() && s@.subrange(
            s@.len() - suffix@.len(),
            s@.len() as int,
        ) == suffix@),
        r is Some ==> r->0@ == s@.subrange(0, s@.len() - suffix@.len()),
{
    let ls = s.as_str().unicode_len();
    let lt = suffix.as_str().unicode_len();
    if lt > ls {
        return None;
    }
    let start = ls - lt;
    let mut i: usize = 0;
    while i < lt
        invariant
            lt <= ls,
            start == ls - lt,
            ls == s@.len(),
            lt == suffix@.len(),
            i <= lt,
            forall|k: int| 0 <= k < i ==> s@[start + k] == suffix@[k],
        decreases lt - i,
    {
        if s.as_str().get_char(start + i) != suffix.as_str().get_char(i) {
            assert(s@.subrange(start as int, ls as int)[i as int] != suffix@[i as int]);
            return None;
        }
        i = i + 1;
    }
    assert(s@.subrange(start as int, ls as int) =~= suffix@);
    Some(copy_of(s.as_str().substring_char(0, start)))
}

/// Position of the first `c` in `s`.
pub fn find_char(s: &String, c: char) -> (r: Option<usize>)
    ensures
        match r {
            Some(i) => i < s@.len() && s@[i as int] == c && !s@.subrange(0, i as int).contains(c),
            None => !s@.contains(c),
        },
{
    let ls = s.as_str().unicode_len();
    let mut i: usize = 0;
    while i < ls
        invariant
            ls == s@.len(),
            i <= ls,
            forall|k: int| 0 <= k < i ==> s@[k] != c,
        decreases ls - i,
    {
        if s.as_str().get_char(i) == c {
            assert(!s@.subrange(0, i as int).contains(c)) by {
                assert forall|k: int| 0 <= k < i implies s@.subrange(0, i as int)[k] != c by {}
            }
            return Some(i);
        }
        i = i + 1;
    }
    None
}

} // verus!
