//! Shared libraries: reading a dependency manifest, and planning the copies
//! that bring a library and what it depends on into the local `libraries`
//! directory.
use vstd::prelude::*;
use crate::config::contains_string;
use crate::names::views;
use crate::text::copy_of;

verus! {

/// What `str::trim` makes of a string.
pub uninterp spec fn trim_of(s: Seq<char>) -> Seq<char>;

/// Relies on `str::trim`: the string without leading and trailing whitespace,
/// which is empty for an empty string.
#[verifier::external_body]
fn trimmed(s: &str) -> (r: String)
    ensures
        r@ == trim_of(s@),
        s@.len() == 0 ==> r@.len() == 0,
{
    s.trim().to_string()
}

/// The lines of `s`, split at each newline; the last one runs to the end.
pub open spec fn lines_of(s: Seq<char>) -> Seq<Seq<char>>
    decreases s.len(),
{
    if s.len() == 0 {
        seq![seq![]]
    } else {
        let before = lines_of(s.drop_last());
        if s.last() == '\n' {
            before.push(seq![])
        } else {
            before.update(before.len() - 1, before.last().push(s.last()))
        }
    }
}

pub proof fn lemma_lines_not_empty(s: Seq<char>)
    ensures
        lines_of(s).len() >= 1,
    decreases s.len(),
{
    if s.len() > 0 {
        lemma_lines_not_empty(s.drop_last());
    }
}

/// The lines of `text`.
pub fn split_lines(text: &String) -> (r: Vec<String>)
    ensures
        views(r@) == lines_of(text@),
{
    let len = text.as_str().unicode_len();
    let mut r: Vec<String> = Vec::new();
    let mut start: usize = 0;
    let mut i: usize = 0;
    assert(views(r@) =~= Seq::<Seq<char>>::empty());
    assert(text@.subrange(0, 0) =~= Seq::<char>::empty());
    assert(views(r@).push(text@.subrange(0, 0)) =~= seq![Seq::<char>::empty()]);
    assert(lines_of(text@.subrange(0, 0)) == seq![Seq::<char>::empty()]);
    while i < len
        invariant
            len == text@.len(),
            start <= i <= len,
            views(r@).push(text@.subrange(start as int, i as int)) == lines_of(
                text@.subrange(0, i as int),
            ),
        decreases len - i,
    {
        let ghost prefix = text@.subrange(0, i + 1);
        assert(prefix.drop_last() =~= text@.subrange(0, i as int));
        let c = text.as_str().get_char(i);
        if c == '\n' {
            let ghost before = r@;
            r.push(copy_of(text.as_str().substring_char(start, i)));
            assert(views(r@) =~= views(before).push(text@.subrange(start as int, i as int)));
            assert(text@.subrange(i + 1, i + 1) =~= seq![]);
            start = i + 1;
        } else {
            proof {
                lemma_lines_not_empty(text@.subrange(0, i as int));
                assert(text@.subrange(start as int, i + 1) =~= text@.subrange(
                    start as int,
                    i as int,
                ).push(c));
                assert(views(r@).push(text@.subrange(start as int, i + 1)) =~= lines_of(
                    text@.subrange(0, i as int),
                ).update(
                    lines_of(text@.subrange(0, i as int)).len() - 1,
                    text@.subrange(start as int, i as int).push(c),
                ));
            }
        }
        i = i + 1;
    }
    let ghost before = r@;
    r.push(copy_of(text.as_str().substring_char(start, len)));
    assert(views(r@) =~= views(before).push(text@.subrange(start as int, len as int)));
    assert(text@.subrange(0, len as int) =~= text@);
    r
}

/// The lines that hold anything, in order.
pub open spec fn non_blank(lines: Seq<Seq<char>>) -> Seq<Seq<char>>
    decreases lines.len(),
{
    if lines.len() == 0 {
        seq![]
    } else if lines.last().len() > 0 {
        non_blank(lines.drop_last()).push(lines.last())
    } else {
        non_blank(lines.drop_last())
    }
}

/// The names among trimmed manifest lines: those that are not empty, in order.
pub fn keep_names(lines: &Vec<String>) -> (r: Vec<String>)
    ensures
        views(r@) == non_blank(views(lines@)),
{
    let mut r: Vec<String> = Vec::new();
    let mut i: usize = 0;
    while i < lines.len()
        invariant
            i <= lines@.len(),
            views(r@) == non_blank(views(lines@).subrange(0, i as int)),
        decreases lines@.len() - i,
    {
        let ghost before = r@;
        assert(views(lines@).subrange(0, i + 1).drop_last() =~= views(lines@).subrange(
            0,
            i as int,
        ));
        assert(views(lines@).subrange(0, i + 1).last() == lines@[i as int]@);
        if lines[i].as_str().unicode_len() > 0 {
            r.push(lines[i].clone());
            assert(views(r@) =~= views(before).push(lines@[i as int]@));
        }
        i = i + 1;
    }
    assert(views(lines@).subrange(0, i as int) =~= views(lines@));
    r
}

/// The names a dependency manifest lists: its lines, trimmed, leaving out
/// those that hold nothing else than whitespace.
pub open spec fn manifest_names(text: Seq<char>) -> Seq<Seq<char>> {
    non_blank(lines_of(text).map_values(|l: Seq<char>| trim_of(l)))
}

/// The names listed by the dependency manifest `text`.
pub fn dependency_names(text: &String) -> (r: Vec<String>)
    ensures
        views(r@) == manifest_names(text@),
{
    let lines = split_lines(text);
    let mut cut: Vec<String> = Vec::new();
    let mut i: usize = 0;
    while i < lines.len()
        invariant
            i <= lines@.len(),
            views(lines@) == lines_of(text@),
            views(cut@) == views(lines@).subrange(0, i as int).map_values(
                |l: Seq<char>| trim_of(l),
            ),
        decreases lines@.len() - i,
    {
        let ghost before = cut@;
        let t = trimmed(lines[i].as_str());
        cut.push(t);
        assert(views(cut@) =~= views(before).push(trim_of(lines@[i as int]@)));
        assert(views(lines@).subrange(0, i + 1).map_values(|l: Seq<char>| trim_of(l))
            =~= views(lines@).subrange(0, i as int).map_values(|l: Seq<char>| trim_of(l)).push(
            trim_of(lines@[i as int]@),
        ));
        i = i + 1;
    }
    assert(views(lines@).subrange(0, i as int) =~= views(lines@));
    keep_names(&cut)
}

/// A library of the library root: its name and the names its manifest lists.
pub struct Library {
    pub name: String,
    pub depends: Vec<String>,
}

/// One step of fetching: copy a library, or report one that does not exist.
pub enum Fetch {
    Copy(String),
    Missing(String),
}

pub open spec fn lib_names(libs: Seq<Library>) -> Seq<Seq<char>> {
    libs.map_values(|l: Library| l.name@)
}

pub open spec fn deps(l: Library) -> Seq<Seq<char>> {
    views(l.depends@)
}

/// The libraries a plan copies, in order.
pub open spec fn copies_of(plan: Seq<Fetch>) -> Seq<Seq<char>>
    decreases plan.len(),
{
    if plan.len() == 0 {
        seq![]
    } else {
        let before = copies_of(plan.drop_last());
        match plan.last() {
            Fetch::Copy(n) => before.push(n@),
            Fetch::Missing(_) => before,
        }
    }
}

/// The names a plan reports as missing, in order.
pub open spec fn misses_of(plan: Seq<Fetch>) -> Seq<Seq<char>>
    decreases plan.len(),
{
    if plan.len() == 0 {
        seq![]
    } else {
        let before = misses_of(plan.drop_last());
        match plan.last() {
            Fetch::Copy(_) => before,
            Fetch::Missing(n) => before.push(n@),
        }
    }
}

/// How many of `names` are not in `local`.
pub open spec fn outside(names: Seq<Seq<char>>, local: Seq<Seq<char>>) -> nat
    decreases names.len(),
{
    if names.len() == 0 {
        0
    } else {
        outside(names.drop_last(), local) + if local.contains(names.last()) {
            0nat
        } else {
            1nat
        }
    }
}

proof fn lemma_outside_push(names: Seq<Seq<char>>, local: Seq<Seq<char>>, x: Seq<char>)
    ensures
        outside(names, local.push(x)) <= outside(names, local),
        names.contains(x) && !local.contains(x) ==> outside(names, local.push(x)) < outside(
            names,
            local,
        ),
    decreases names.len(),
{
    if names.len() > 0 {
        let rest = names.drop_last();
        lemma_outside_push(rest, local, x);
        assert forall|y: Seq<char>| local.contains(y) implies local.push(x).contains(y) by {
            let i = choose|i: int| 0 <= i < local.len() && local[i] == y;
            assert(local.push(x)[i] == y);
        }
        if names.contains(x) && !local.contains(x) && !rest.contains(x) {
            let i = choose|i: int| 0 <= i < names.len() && names[i] == x;
            if i < names.len() - 1 {
                assert(rest[i] == x);
            }
            assert(local.push(x)[local.len() as int] == x);
        }
    }
}

/// Where the library called `name` stands in `libs`.
pub fn find_library(libs: &Vec<Library>, name: &String) -> (r: Option<usize>)
    ensures
        r is Some <==> lib_names(libs@).contains(name@),
        r is Some ==> r->0 < libs@.len() && libs@[r->0 as int].name@ == name@,
{
    let mut i: usize = 0;
    while i < libs.len()
        invariant
            i <= libs@.len(),
            forall|k: int| 0 <= k < i ==> lib_names(libs@)[k] != name@,
        decreases libs@.len() - i,
    {
        if libs[i].name == *name {
            assert(lib_names(libs@)[i as int] == name@);
            return Some(i);
        }
        i = i + 1;
    }
    None
}

/// Appends the strings of `src` to `dst`.
pub fn push_all(dst: &mut Vec<String>, src: &Vec<String>)
    ensures
        views(final(dst)@) == views(old(dst)@) + views(src@),
{
    let mut i: usize = 0;
    while i < src.len()
        invariant
            i <= src@.len(),
            views(dst@) == views(old(dst)@) + views(src@).subrange(0, i as int),
        decreases src@.len() - i,
    {
        let ghost before = dst@;
        dst.push(src[i].clone());
        assert(views(dst@) =~= views(before).push(src@[i as int]@));
        assert(views(src@).subrange(0, i + 1) =~= views(src@).subrange(0, i as int).push(
            src@[i as int]@,
        ));
        i = i + 1;
    }
    assert(views(src@).subrange(0, i as int) =~= views(src@));
}

/// Every dependency of a library that `plan` copies is there: it was in
/// `present`, or the plan copies it, or the plan reports it missing.
pub open spec fn closed(libs: Seq<Library>, present: Seq<Seq<char>>, plan: Seq<Fetch>) -> bool {
    forall|j: int, k: int|
        0 <= j < libs.len() && copies_of(plan).contains(lib_names(libs)[j]) && 0 <= k < deps(
            libs[j],
        ).len() ==> {
            let d = #[trigger] deps(libs[j])[k];
            present.contains(d) || copies_of(plan).contains(d) || misses_of(plan).contains(d)
        }
}

/// The fetches that bring the library `name` into the local directory, which
/// holds `present`, one after the other: `name` itself, then, for each
/// dependency of a copied library, nothing when it is there by then, a copy
/// when it is a library, and a report when it is not.
pub fn plan_fetch(libs: &Vec<Library>, present: &Vec<String>, name: &String) -> (r: Vec<Fetch>)
    requires
        lib_names(libs@).no_duplicates(),
    ensures
        !lib_names(libs@).contains(name@) ==> r@.len() == 1 && r@[0] is Missing
            && r@[0]->Missing_0@ == name@,
        lib_names(libs@).contains(name@) ==> r@.len() >= 1 && r@[0] is Copy && r@[0]->Copy_0@
            == name@,
        lib_names(libs@).contains(name@) ==> copies_of(r@).no_duplicates(),
        forall|c: int|
            0 <= c < copies_of(r@).len() ==> lib_names(libs@).contains(#[trigger] copies_of(r@)[c]),
        forall|c: int|
            1 <= c < copies_of(r@).len() ==> !views(present@).contains(#[trigger] copies_of(r@)[c]),
        forall|m: int|
            0 <= m < misses_of(r@).len() ==> !lib_names(libs@).contains(#[trigger] misses_of(r@)[m]),
        lib_names(libs@).contains(name@) ==> closed(libs@, views(present@), r@),
        forall|j: int|
            0 <= j < libs@.len() && libs@[j].name@ == name@ && (forall|k: int|
                0 <= k < deps(libs@[j]).len() ==> #[trigger] deps(libs@[j])[k] == name@ || views(
                    present@,
                ).contains(deps(libs@[j])[k])) ==> r@.len() == 1,
{
    let first = match find_library(libs, name) {
        None => {
            let r = vec![Fetch::Missing(name.clone())];
            assert(r@.drop_last() =~= Seq::<Fetch>::empty());
            assert(copies_of(r@.drop_last()) == Seq::<Seq<char>>::empty());
            assert(copies_of(r@) == Seq::<Seq<char>>::empty());
            assert(misses_of(r@.drop_last()) == Seq::<Seq<char>>::empty());
            assert(misses_of(r@) =~= seq![name@]);
            return r;
        },
        Some(j) => j,
    };
    let ghost names = lib_names(libs@);
    let ghost pv = views(present@);
    let mut plan: Vec<Fetch> = Vec::new();
    let mut copied: Vec<String> = Vec::new();
    let mut stack: Vec<String> = Vec::new();
    plan.push(Fetch::Copy(name.clone()));
    copied.push(name.clone());
    let ghost mut at: Seq<int> = seq![first as int];
    push_all(&mut stack, &libs[first].depends);
    let ghost quiet = forall|k: int|
        0 <= k < deps(libs@[first as int]).len() ==> #[trigger] deps(libs@[first as int])[k]
            == name@ || pv.contains(deps(libs@[first as int])[k]);
    proof {
        assert(plan@.drop_last() =~= Seq::<Fetch>::empty());
        assert(copies_of(plan@.drop_last()) == Seq::<Seq<char>>::empty());
        assert(misses_of(plan@.drop_last()) == Seq::<Seq<char>>::empty());
        assert(plan@.last() is Copy && plan@.last()->Copy_0@ == name@);
        assert(copies_of(plan@) =~= views(copied@));
        assert(misses_of(plan@) =~= Seq::<Seq<char>>::empty());
        assert(views(stack@) =~= deps(libs@[first as int]));
        assert(names[first as int] == name@);
    }
    while stack.len() > 0
        invariant
            names == lib_names(libs@),
            names.no_duplicates(),
            pv == views(present@),
            first < libs@.len(),
            names[first as int] == name@,
            copies_of(plan@) == views(copied@),
            at.len() == copied@.len(),
            forall|c: int|
                0 <= c < at.len() ==> 0 <= #[trigger] at[c] < libs@.len() && names[at[c]]
                    == copied@[c]@,
            plan@.len() >= 1,
            plan@[0] is Copy && plan@[0]->Copy_0@ == name@,
            copied@.len() >= 1,
            copied@[0]@ == name@,
            views(copied@).no_duplicates(),
            forall|c: int| 1 <= c < copied@.len() ==> !pv.contains(#[trigger] copied@[c]@),
            forall|m: int|
                0 <= m < misses_of(plan@).len() ==> !names.contains(#[trigger] misses_of(plan@)[m]),
            forall|c: int, k: int|
                0 <= c < at.len() && 0 <= k < deps(libs@[at[c]]).len() ==> {
                    let d = #[trigger] deps(libs@[at[c]])[k];
                    pv.contains(d) || views(copied@).contains(d) || misses_of(plan@).contains(d)
                        || views(stack@).contains(d)
                },
            quiet ==> plan@.len() == 1 && forall|i: int|
                0 <= i < stack@.len() ==> #[trigger] views(stack@)[i] == name@ || pv.contains(
                    views(stack@)[i],
                ),
        decreases outside(names, pv + views(copied@)), stack@.len(),
    {
        let ghost old_stack = views(stack@);
        let ghost old_plan = plan@;
        let ghost old_copied = views(copied@);
        let ghost old_raw = copied@;
        let d = stack.pop().unwrap();
        assert(views(stack@) =~= old_stack.drop_last());
        assert(d@ == old_stack.last());
        proof {
            if quiet {
                assert(old_stack[old_stack.len() - 1] == d@);
                assert(views(copied@)[0] == name@);
            }
        }
        if contains_string(present, &d) || contains_string(&copied, &d) {
            proof {
                assert forall|i: int| 0 <= i < stack@.len() implies #[trigger] views(stack@)[i]
                    == old_stack[i] by {}
                assert forall|c: int, k: int|
                    0 <= c < at.len() && 0 <= k < deps(libs@[at[c]]).len() implies {
                        let x = #[trigger] deps(libs@[at[c]])[k];
                        pv.contains(x) || views(copied@).contains(x) || misses_of(plan@).contains(x)
                            || views(stack@).contains(x)
                    } by {
                    let x = deps(libs@[at[c]])[k];
                    if old_stack.contains(x) && x != d@ {
                        let i = choose|i: int| 0 <= i < old_stack.len() && old_stack[i] == x;
                        assert(views(stack@)[i] == x);
                    }
                }
            }
        } else {
            match find_library(libs, &d) {
                None => {
                    plan.push(Fetch::Missing(d.clone()));
                    proof {
                        assert(plan@.drop_last() =~= old_plan);
                        assert(misses_of(plan@) =~= misses_of(old_plan).push(d@));
                        assert forall|c: int, k: int|
                            0 <= c < at.len() && 0 <= k < deps(libs@[at[c]]).len() implies {
                                let x = #[trigger] deps(libs@[at[c]])[k];
                                pv.contains(x) || views(copied@).contains(x) || misses_of(
                                    plan@,
                                ).contains(x) || views(stack@).contains(x)
                            } by {
                            let x = deps(libs@[at[c]])[k];
                            if x == d@ {
                                assert(misses_of(plan@)[misses_of(old_plan).len() as int] == x);
                            } else if misses_of(old_plan).contains(x) {
                                let i = choose|i: int|
                                    0 <= i < misses_of(old_plan).len() && misses_of(old_plan)[i]
                                        == x;
                                assert(misses_of(plan@)[i] == x);
                            } else if old_stack.contains(x) {
                                let i = choose|i: int| 0 <= i < old_stack.len() && old_stack[i] == x;
                                assert(views(stack@)[i] == x);
                            }
                        }
                    }
                },
                Some(j) => {
                    plan.push(Fetch::Copy(d.clone()));
                    copied.push(d.clone());
                    proof {
                        at = at.push(j as int);
                        assert(plan@.drop_last() =~= old_plan);
                        assert(views(copied@) =~= old_copied.push(d@));
                        assert(pv + views(copied@) =~= (pv + old_copied).push(d@));
                        assert(names[j as int] == d@);
                        assert(!(pv + old_copied).contains(d@)) by {
                            if (pv + old_copied).contains(d@) {
                                let i = choose|i: int|
                                    0 <= i < (pv + old_copied).len() && (pv + old_copied)[i] == d@;
                                if i < pv.len() {
                                    assert(pv[i] == d@);
                                } else {
                                    assert(old_copied[i - pv.len()] == d@);
                                }
                            }
                        }
                        lemma_outside_push(names, pv + old_copied, d@);
                    }
                    let ghost mid_stack = views(stack@);
                    push_all(&mut stack, &libs[j].depends);
                    proof {
                        assert forall|c: int, k: int|
                            0 <= c < at.len() && 0 <= k < deps(libs@[at[c]]).len() implies {
                                let x = #[trigger] deps(libs@[at[c]])[k];
                                pv.contains(x) || views(copied@).contains(x) || misses_of(
                                    plan@,
                                ).contains(x) || views(stack@).contains(x)
                            } by {
                            let x = deps(libs@[at[c]])[k];
                            if c == at.len() - 1 {
                                assert(views(stack@)[mid_stack.len() + k] == x);
                            } else if x == d@ {
                                assert(views(copied@)[old_copied.len() as int] == x);
                            } else if old_copied.contains(x) {
                                let i = choose|i: int| 0 <= i < old_copied.len() && old_copied[i] == x;
                                assert(views(copied@)[i] == x);
                            } else if old_stack.contains(x) {
                                let i = choose|i: int| 0 <= i < old_stack.len() && old_stack[i] == x;
                                assert(views(stack@)[i] == x);
                            }
                        }
                        assert forall|a: int, b: int|
                            0 <= a < b < views(copied@).len() implies views(copied@)[a] != views(
                                copied@,
                            )[b] by {
                            if b == old_copied.len() {
                                assert(old_copied[a] == views(copied@)[a]);
                            }
                        }
                        assert forall|c: int| 0 <= c < at.len() implies 0 <= #[trigger] at[c]
                            < libs@.len() && names[at[c]] == copied@[c]@ by {
                            if c < at.len() - 1 {
                                assert(copied@[c] == old_raw[c]);
                            }
                        }
                    }
                },
            }
        }
    }
    assert(views(stack@) =~= Seq::<Seq<char>>::empty());
    proof {
        assert forall|j: int, k: int|
            0 <= j < libs@.len() && copies_of(plan@).contains(lib_names(libs@)[j]) && 0 <= k < deps(
                libs@[j],
            ).len() implies {
                let x = #[trigger] deps(libs@[j])[k];
                pv.contains(x) || copies_of(plan@).contains(x) || misses_of(plan@).contains(x)
            } by {
            let c = choose|c: int| 0 <= c < copied@.len() && views(copied@)[c] == names[j];
            assert(names[at[c]] == names[j]);
            assert(at[c] == j);
        }
        assert forall|c: int| 0 <= c < copies_of(plan@).len() implies names.contains(
            #[trigger] copies_of(plan@)[c],
        ) by {
            assert(names[at[c]] == copied@[c]@);
        }
        assert forall|j: int|
            0 <= j < libs@.len() && libs@[j].name@ == name@ && (forall|k: int|
                0 <= k < deps(libs@[j]).len() ==> #[trigger] deps(libs@[j])[k] == name@ || views(
                    present@,
                ).contains(deps(libs@[j])[k])) implies plan@.len() == 1 by {
            assert(names[j] == names[first as int]);
            assert(j == first as int);
            assert(quiet);
        }
    }
    plan
}

} // verus!
