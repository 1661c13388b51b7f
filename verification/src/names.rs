//! Lists of names (sets kept in first-seen order) and whole-identifier search.
use vstd::prelude::*;

use crate::text::{eq_chars, is_ident, is_ident_char, matches_at, matches_at_exec, views};

verus! {

/// `name` occurs in `text` as a whole identifier: neither side of the occurrence
/// touches an ASCII letter, digit or `_`.
pub open spec fn ident_ref_at(text: Seq<char>, name: Seq<char>, i: int) -> bool {
    &&& matches_at(text, i, name)
    &&& (i == 0 || !is_ident(text[i - 1]))
    &&& (i + name.len() >= text.len() || !is_ident(text[i + name.len()]))
}

pub open spec fn contains_ident_ref(text: Seq<char>, name: Seq<char>) -> bool {
    exists|i: int| ident_ref_at(text, name, i)
}

/// `contains_typevar_reference`: `typevar_name` occurs in `text` as a whole
/// identifier. The name must not be empty (the search takes windows of its
/// length, which panics for zero).
pub fn contains_typevar_reference(text: &[char], typevar_name: &[char]) -> (r: bool)
    requires
        typevar_name@.len() > 0,
    ensures
        r == contains_ident_ref(text@, typevar_name@),
{
    let n = text.len();
    let m = typevar_name.len();
    if m > n {
        assert forall|i: int| !ident_ref_at(text@, typevar_name@, i) by {}
        return false;
    }
    let mut i: usize = 0;
    while i <= n - m
        invariant
            n == text@.len(),
            m == typevar_name@.len(),
            0 < m <= n,
            i <= n - m + 1,
            forall|j: int| 0 <= j < i ==> !ident_ref_at(text@, typevar_name@, j),
        decreases n - m + 1 - i,
    {
        if matches_at_exec(text, i, typevar_name) {
            let before_ok = i == 0 || !is_ident_char(text[i - 1]);
            let after_ok = i + m >= n || !is_ident_char(text[i + m]);
            if before_ok && after_ok {
                assert(ident_ref_at(text@, typevar_name@, i as int));
                return true;
            }
        }
        i += 1;
    }
    assert forall|j: int| !ident_ref_at(text@, typevar_name@, j) by {
        if j > n - m {
            assert(!matches_at(text@, j, typevar_name@));
        }
    }
    false
}

/// `names` with every name added once, in first-seen order (a set built by
/// repeated `insert`).
pub open spec fn add_all(acc: Seq<Seq<char>>, names: Seq<Seq<char>>) -> Seq<Seq<char>>
    decreases names.len(),
{
    if names.len() == 0 {
        acc
    } else {
        let prev = add_all(acc, names.drop_last());
        if prev.contains(names.last()) {
            prev
        } else {
            prev.push(names.last())
        }
    }
}

/// The distinct names of a list, in first-seen order.
pub open spec fn uniq(names: Seq<Seq<char>>) -> Seq<Seq<char>> {
    add_all(Seq::empty(), names)
}

/// Names of `a` that are not in `b`, in order.
pub open spec fn minus(a: Seq<Seq<char>>, b: Seq<Seq<char>>) -> Seq<Seq<char>>
    decreases a.len(),
{
    if a.len() == 0 {
        Seq::empty()
    } else {
        let prev = minus(a.drop_last(), b);
        if b.contains(a.last()) {
            prev
        } else {
            prev.push(a.last())
        }
    }
}

/// Names of `names` that `text` references as whole identifiers, in order.
pub open spec fn refs_in(names: Seq<Seq<char>>, text: Seq<char>) -> Seq<Seq<char>>
    decreases names.len(),
{
    if names.len() == 0 {
        Seq::empty()
    } else {
        let prev = refs_in(names.drop_last(), text);
        if contains_ident_ref(text, names.last()) {
            prev.push(names.last())
        } else {
            prev
        }
    }
}

/// No name occurs twice.
pub open spec fn distinct_names(ns: Seq<Seq<char>>) -> bool {
    forall|i: int, j: int| 0 <= i < j < ns.len() ==> ns[i] != ns[j]
}

/// Adding names as a set does: the result holds exactly the names of both
/// lists, and stays free of repeats when the start is.
pub proof fn law_add_all(acc: Seq<Seq<char>>, names: Seq<Seq<char>>, x: Seq<char>)
    ensures
        add_all(acc, names).contains(x) <==> (acc.contains(x) || names.contains(x)),
        distinct_names(acc) ==> distinct_names(add_all(acc, names)),
    decreases names.len(),
{
    if names.len() > 0 {
        let prev = add_all(acc, names.drop_last());
        law_add_all(acc, names.drop_last(), x);
        law_add_all(acc, names.drop_last(), names.last());
        assert(names.drop_last().contains(x) ==> names.contains(x)) by {
            if names.drop_last().contains(x) {
                let k = choose|k: int| 0 <= k < names.drop_last().len() && names.drop_last()[k] == x;
                assert(names[k] == x);
            }
        }
        assert(names.contains(x) ==> (names.drop_last().contains(x) || names.last() == x)) by {
            if names.contains(x) {
                let k = choose|k: int| 0 <= k < names.len() && names[k] == x;
                if k < names.len() - 1 {
                    assert(names.drop_last()[k] == x);
                }
            }
        }
        if !prev.contains(names.last()) {
            let n = prev.push(names.last());
            assert(n.contains(x) <==> (prev.contains(x) || names.last() == x)) by {
                if n.contains(x) {
                    let k = choose|k: int| 0 <= k < n.len() && n[k] == x;
                    if k < prev.len() {
                        assert(prev[k] == x);
                    }
                }
                if prev.contains(x) {
                    let k = choose|k: int| 0 <= k < prev.len() && prev[k] == x;
                    assert(n[k] == x);
                }
                if names.last() == x {
                    assert(n[prev.len() as int] == x);
                }
            }
            if distinct_names(acc) {
                assert forall|i: int, j: int| 0 <= i < j < n.len() implies n[i] != n[j] by {
                    if j == prev.len() {
                        assert(prev[i] == n[i]);
                    }
                }
            }
        }
    }
}

/// `uniq`: the names of the list, each once.
pub proof fn law_uniq(names: Seq<Seq<char>>, x: Seq<char>)
    ensures
        distinct_names(uniq(names)),
        uniq(names).contains(x) <==> names.contains(x),
{
    law_add_all(Seq::empty(), names, x);
}

/// `minus`: the names of `a` that `b` lacks.
pub proof fn law_minus(a: Seq<Seq<char>>, b: Seq<Seq<char>>, x: Seq<char>)
    ensures
        minus(a, b).contains(x) <==> (a.contains(x) && !b.contains(x)),
    decreases a.len(),
{
    if a.len() > 0 {
        let prev = minus(a.drop_last(), b);
        law_minus(a.drop_last(), b, x);
        assert(a.contains(x) <==> (a.drop_last().contains(x) || a.last() == x)) by {
            if a.contains(x) {
                let k = choose|k: int| 0 <= k < a.len() && a[k] == x;
                if k < a.len() - 1 {
                    assert(a.drop_last()[k] == x);
                }
            }
            if a.drop_last().contains(x) {
                let k = choose|k: int| 0 <= k < a.drop_last().len() && a.drop_last()[k] == x;
                assert(a[k] == x);
            }
        }
        if !b.contains(a.last()) {
            let n = prev.push(a.last());
            assert(n.contains(x) <==> (prev.contains(x) || a.last() == x)) by {
                if n.contains(x) {
                    let k = choose|k: int| 0 <= k < n.len() && n[k] == x;
                    if k < prev.len() {
                        assert(prev[k] == x);
                    }
                }
                if prev.contains(x) {
                    let k = choose|k: int| 0 <= k < prev.len() && prev[k] == x;
                    assert(n[k] == x);
                }
                if a.last() == x {
                    assert(n[prev.len() as int] == x);
                }
            }
        }
    }
}

/// No name of the list is empty.
pub open spec fn all_nonempty(names: Seq<Seq<char>>) -> bool {
    forall|i: int| 0 <= i < names.len() ==> (#[trigger] names[i]).len() > 0
}

pub proof fn lemma_add_all_nonempty(acc: Seq<Seq<char>>, names: Seq<Seq<char>>)
    requires
        all_nonempty(acc),
        all_nonempty(names),
    ensures
        all_nonempty(add_all(acc, names)),
    decreases names.len(),
{
    if names.len() > 0 {
        lemma_add_all_nonempty(acc, names.drop_last());
        assert(names.last() == names[names.len() - 1]);
    }
}

pub proof fn lemma_minus_nonempty(a: Seq<Seq<char>>, b: Seq<Seq<char>>)
    requires
        all_nonempty(a),
    ensures
        all_nonempty(minus(a, b)),
    decreases a.len(),
{
    if a.len() > 0 {
        lemma_minus_nonempty(a.drop_last(), b);
        assert(a.last() == a[a.len() - 1]);
    }
}

pub proof fn lemma_refs_in_nonempty(a: Seq<Seq<char>>, t: Seq<char>)
    requires
        all_nonempty(a),
    ensures
        all_nonempty(refs_in(a, t)),
    decreases a.len(),
{
    if a.len() > 0 {
        lemma_refs_in_nonempty(a.drop_last(), t);
        assert(a.last() == a[a.len() - 1]);
    }
}

/// `name` is one of `names`.
pub fn contains_name(names: &Vec<Vec<char>>, name: &[char]) -> (r: bool)
    ensures
        r == views(names@).contains(name@),
{
    let mut i: usize = 0;
    while i < names.len()
        invariant
            i <= names@.len(),
            forall|j: int| 0 <= j < i ==> names@[j]@ != name@,
        decreases names.len() - i,
    {
        if eq_chars(names[i].as_slice(), name) {
            assert(views(names@)[i as int] == name@);
            return true;
        }
        i += 1;
    }
    assert forall|j: int| 0 <= j < views(names@).len() implies views(names@)[j] != name@ by {
        assert(views(names@)[j] == names@[j]@);
    }
    false
}

/// Adds `name` unless it is already present (`HashSet::insert`).
pub fn insert_name(names: &mut Vec<Vec<char>>, name: Vec<char>)
    ensures
        views(final(names)@) == (if views(old(names)@).contains(name@) {
            views(old(names)@)
        } else {
            views(old(names)@).push(name@)
        }),
{
    if !contains_name(names, name.as_slice()) {
        let ghost before = views(names@);
        names.push(name);
        proof {
            assert(views(names@) =~= before.push(name@));
        }
    }
}

/// Adds every name of `more`, each once.
pub fn insert_all(names: &mut Vec<Vec<char>>, more: &Vec<Vec<char>>)
    ensures
        views(final(names)@) == add_all(views(old(names)@), views(more@)),
{
    let ghost start = views(names@);
    let mut i: usize = 0;
    while i < more.len()
        invariant
            i <= more@.len(),
            views(names@) == add_all(start, views(more@).take(i as int)),
        decreases more.len() - i,
    {
        proof {
            let t = views(more@).take(i + 1);
            assert(t.drop_last() =~= views(more@).take(i as int));
            assert(t.last() == more@[i as int]@);
        }
        insert_name(names, more[i].clone());
        i += 1;
    }
    proof {
        assert(views(more@).take(i as int) =~= views(more@));
    }
}

/// The distinct names of `names`, in first-seen order.
pub fn uniq_names(names: &[Vec<char>]) -> (r: Vec<Vec<char>>)
    ensures
        views(r@) == uniq(views(names@)),
{
    let mut v: Vec<Vec<char>> = Vec::new();
    let mut i: usize = 0;
    proof {
        assert(views(v@) =~= Seq::<Seq<char>>::empty());
    }
    while i < names.len()
        invariant
            i <= names@.len(),
            views(v@) == add_all(Seq::empty(), views(names@).take(i as int)),
        decreases names.len() - i,
    {
        proof {
            let t = views(names@).take(i + 1);
            assert(t.drop_last() =~= views(names@).take(i as int));
            assert(t.last() == names@[i as int]@);
        }
        insert_name(&mut v, names[i].clone());
        i += 1;
    }
    proof {
        assert(views(names@).take(i as int) =~= views(names@));
    }
    v
}

/// Names of `a` not in `b`.
pub fn minus_names(a: &Vec<Vec<char>>, b: &Vec<Vec<char>>) -> (r: Vec<Vec<char>>)
    ensures
        views(r@) == minus(views(a@), views(b@)),
{
    let mut v: Vec<Vec<char>> = Vec::new();
    let mut i: usize = 0;
    proof {
        assert(views(v@) =~= Seq::<Seq<char>>::empty());
        assert(views(a@).take(0) =~= Seq::<Seq<char>>::empty());
    }
    while i < a.len()
        invariant
            i <= a@.len(),
            views(v@) == minus(views(a@).take(i as int), views(b@)),
        decreases a.len() - i,
    {
        proof {
            let t = views(a@).take(i + 1);
            assert(t.drop_last() =~= views(a@).take(i as int));
            assert(t.last() == a@[i as int]@);
        }
        if !contains_name(b, a[i].as_slice()) {
            let ghost before = views(v@);
            v.push(a[i].clone());
            proof {
                assert(views(v@) =~= before.push(a@[i as int]@));
            }
        }
        i += 1;
    }
    proof {
        assert(views(a@).take(i as int) =~= views(a@));
    }
    v
}

/// Names of `names` referenced in `text` as whole identifiers.
pub fn refs_in_names(names: &Vec<Vec<char>>, text: &[char]) -> (r: Vec<Vec<char>>)
    requires
        all_nonempty(views(names@)),
    ensures
        views(r@) == refs_in(views(names@), text@),
{
    let mut v: Vec<Vec<char>> = Vec::new();
    let mut i: usize = 0;
    proof {
        assert(views(v@) =~= Seq::<Seq<char>>::empty());
        assert(views(names@).take(0) =~= Seq::<Seq<char>>::empty());
    }
    while i < names.len()
        invariant
            i <= names@.len(),
            all_nonempty(views(names@)),
            views(v@) == refs_in(views(names@).take(i as int), text@),
        decreases names.len() - i,
    {
        proof {
            let t = views(names@).take(i + 1);
            assert(t.drop_last() =~= views(names@).take(i as int));
            assert(t.last() == names@[i as int]@);
            assert(views(names@)[i as int] == names@[i as int]@);
        }
        if contains_typevar_reference(text, names[i].as_slice()) {
            let ghost before = views(v@);
            v.push(names[i].clone());
            proof {
                assert(views(v@) =~= before.push(names@[i as int]@));
            }
        }
        i += 1;
    }
    proof {
        assert(views(names@).take(i as int) =~= views(names@));
    }
    v
}

} // verus!
