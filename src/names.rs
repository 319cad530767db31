//! Lexicographic order on strings and sorted listings of names.
use vstd::prelude::*;

verus! {

/// `a` comes strictly before `b` in code point order, a proper prefix first.
pub open spec fn lex_lt(a: Seq<char>, b: Seq<char>) -> bool
    decreases a.len(),
{
    if b.len() == 0 {
        false
    } else if a.len() == 0 {
        true
    } else if a[0] != b[0] {
        a[0] < b[0]
    } else {
        lex_lt(a.drop_first(), b.drop_first())
    }
}

/// Each element comes strictly before every later one.
pub open spec fn strictly_sorted(s: Seq<Seq<char>>) -> bool {
    forall|i: int, j: int| 0 <= i < j < s.len() ==> lex_lt(#[trigger] s[i], #[trigger] s[j])
}

/// The character sequences of a list of strings.
pub open spec fn views(v: Seq<String>) -> Seq<Seq<char>> {
    v.map_values(|s: String| s@)
}

pub proof fn lemma_lex_irreflexive(a: Seq<char>)
    ensures
        !lex_lt(a, a),
    decreases a.len(),
{
    if a.len() > 0 {
        lemma_lex_irreflexive(a.drop_first());
    }
}

pub proof fn lemma_lex_transitive(a: Seq<char>, b: Seq<char>, c: Seq<char>)
    requires
        lex_lt(a, b),
        lex_lt(b, c),
    ensures
        lex_lt(a, c),
    decreases a.len(),
{
    if a.len() > 0 && a[0] == b[0] && b[0] == c[0] {
        lemma_lex_transitive(a.drop_first(), b.drop_first(), c.drop_first());
    }
}

pub proof fn lemma_lex_total(a: Seq<char>, b: Seq<char>)
    requires
        a != b,
    ensures
        lex_lt(a, b) || lex_lt(b, a),
    decreases a.len(),
{
    if a.len() > 0 && b.len() > 0 && a[0] == b[0] {
        if a.drop_first() == b.drop_first() {
            assert(a =~= seq![a[0]] + a.drop_first());
            assert(b =~= seq![b[0]] + b.drop_first());
        }
        lemma_lex_total(a.drop_first(), b.drop_first());
    } else if a.len() > 0 && b.len() > 0 {
    } else if a.len() == 0 && b.len() == 0 {
        assert(a =~= b);
    }
}

/// A strictly sorted list repeats no element.
pub proof fn lemma_strictly_sorted_no_duplicates(s: Seq<Seq<char>>)
    requires
        strictly_sorted(s),
    ensures
        s.no_duplicates(),
{
    assert forall|i: int, j: int| 0 <= i < s.len() && 0 <= j < s.len() && i != j implies s[i]
        != s[j] by {
        if i < j {
            lemma_lex_irreflexive(s[i]);
        } else {
            lemma_lex_irreflexive(s[j]);
        }
    }
}

/// Whether `a` comes strictly before `b`.
pub fn precedes(a: &String, b: &String) -> (r: bool)
    ensures
        r == lex_lt(a@, b@),
{
    let la = a.as_str().unicode_len();
    let lb = b.as_str().unicode_len();
    let mut i: usize = 0;
    assert(a@.skip(0) =~= a@);
    assert(b@.skip(0) =~= b@);
    while i < la && i < lb
        invariant
            la == a@.len(),
            lb == b@.len(),
            i <= la,
            i <= lb,
            lex_lt(a@, b@) == lex_lt(a@.skip(i as int), b@.skip(i as int)),
        decreases la - i,
    {
        let ca = a.as_str().get_char(i);
        let cb = b.as_str().get_char(i);
        if ca != cb {
            return ca < cb;
        }
        assert(a@.skip(i as int).drop_first() =~= a@.skip(i + 1));
        assert(b@.skip(i as int).drop_first() =~= b@.skip(i + 1));
        i = i + 1;
    }
    i < lb
}

/// Puts `s` into a strictly sorted list unless an equal string is there.
pub fn insert_sorted(v: &mut Vec<String>, s: String)
    requires
        strictly_sorted(views(old(v)@)),
    ensures
        strictly_sorted(views(final(v)@)),
        views(final(v)@).to_set() == views(old(v)@).to_set().insert(s@),
{
    let ghost old_v = views(v@);
    let mut i: usize = 0;
    while i < v.len() && precedes(&v[i], &s)
        invariant
            i <= v.len(),
            views(v@) == old_v,
            strictly_sorted(old_v),
            forall|j: int| 0 <= j < i ==> lex_lt(#[trigger] old_v[j], s@),
        decreases v.len() - i,
    {
        i = i + 1;
    }
    if i < v.len() && v[i] == s {
        assert(old_v[i as int] == s@);
        assert(old_v.to_set().insert(s@) =~= old_v.to_set());
        return;
    }
    proof {
        if i < v.len() {
            lemma_lex_total(old_v[i as int], s@);
            assert forall|j: int| i <= j < old_v.len() implies lex_lt(s@, #[trigger] old_v[j]) by {
                if j > i {
                    lemma_lex_transitive(s@, old_v[i as int], old_v[j]);
                }
            }
        }
    }
    v.insert(i, s);
    proof {
        let nv = views(v@);
        assert(nv =~= old_v.insert(i as int, s@));
        assert forall|a: int, b: int| 0 <= a < b < nv.len() implies lex_lt(
            #[trigger] nv[a],
            #[trigger] nv[b],
        ) by {
            if a < i && b > i {
                lemma_lex_transitive(nv[a], s@, nv[b]);
            }
        }
        assert(nv.to_set() =~= old_v.to_set().insert(s@)) by {
            assert forall|x: Seq<char>| nv.to_set().contains(x) implies old_v.to_set().insert(
                s@,
            ).contains(x) by {
                let k = choose|k: int| 0 <= k < nv.len() && nv[k] == x;
                if k < i {
                    assert(old_v[k] == x);
                } else if k > i {
                    assert(old_v[k - 1] == x);
                }
            }
            assert forall|x: Seq<char>| old_v.to_set().insert(s@).contains(x) implies nv.to_set().contains(
                x,
            ) by {
                if x == s@ {
                    assert(nv[i as int] == x);
                } else {
                    let k = choose|k: int| 0 <= k < old_v.len() && old_v[k] == x;
                    if k < i {
                        assert(nv[k] == x);
                    } else {
                        assert(nv[k + 1] == x);
                    }
                }
            }
        }
    }
}

/// The distinct strings of `items`, in strictly increasing order.
pub fn sorted_names(items: &Vec<String>) -> (r: Vec<String>)
    ensures
        strictly_sorted(views(r@)),
        views(r@).no_duplicates(),
        views(r@).to_set() == views(items@).to_set(),
{
    let mut r: Vec<String> = Vec::new();
    let mut i: usize = 0;
    while i < items.len()
        invariant
            i <= items.len(),
            strictly_sorted(views(r@)),
            views(r@).to_set() == views(items@.subrange(0, i as int)).to_set(),
        decreases items.len() - i,
    {
        proof {
            assert(views(items@.subrange(0, i + 1)) =~= views(items@.subrange(0, i as int)).push(
                items@[i as int]@,
            ));
            views(items@.subrange(0, i as int)).lemma_push_to_set_commute(items@[i as int]@);
        }
        insert_sorted(&mut r, items[i].clone());
        i = i + 1;
    }
    proof {
        assert(items@.subrange(0, i as int) =~= items@);
        assert(views(r@).to_set() =~= views(items@).to_set());
        lemma_strictly_sorted_no_duplicates(views(r@));
    }
    r
}

} // verus!
