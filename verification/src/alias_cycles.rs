//! Type aliases whose string forward references lead back to themselves,
//! directly or through other aliases.
use vstd::prelude::*;

use crate::assoc::{assoc_find, assoc_index, lemma_assoc_index, lemma_found_index};
use crate::module::copy_text;
use crate::names::contains_name;
use crate::position::Span;
use crate::text::{eq_chars, views};

verus! {

/// The alias graph: each alias with the aliases it forward-references, as an
/// association list (the first entry of a name is the one that counts).
pub open spec fn graph_view(g: Seq<(Vec<char>, Vec<Vec<char>>)>) -> Seq<(Seq<char>, Seq<Seq<char>>)> {
    g.map_values(|e: (Vec<char>, Vec<Vec<char>>)| (e.0@, views(e.1@)))
}

/// The names `a` references (none when `a` has no entry).
pub open spec fn succ(gv: Seq<(Seq<char>, Seq<Seq<char>>)>, a: Seq<char>) -> Seq<Seq<char>> {
    match assoc_index(gv, a) {
        Some(i) => gv[i].1,
        None => Seq::empty(),
    }
}

pub open spec fn edge(gv: Seq<(Seq<char>, Seq<Seq<char>>)>, a: Seq<char>, b: Seq<char>) -> bool {
    succ(gv, a).contains(b)
}

/// Step `i` of `p` follows an edge.
pub open spec fn step_ok(gv: Seq<(Seq<char>, Seq<Seq<char>>)>, p: Seq<Seq<char>>, i: int) -> bool {
    edge(gv, p[i], p[i + 1])
}

/// A walk of at least one edge.
pub open spec fn is_path(gv: Seq<(Seq<char>, Seq<Seq<char>>)>, p: Seq<Seq<char>>) -> bool {
    p.len() >= 2 && forall|i: int| 0 <= i < p.len() - 1 ==> #[trigger] step_ok(gv, p, i)
}

/// `b` can be reached from `a` along one edge or more.
pub open spec fn reaches(gv: Seq<(Seq<char>, Seq<Seq<char>>)>, a: Seq<char>, b: Seq<char>) -> bool {
    exists|p: Seq<Seq<char>>| is_path(gv, p) && p[0] == a && p.last() == b
}

/// `a` lies on a cycle: it can reach itself.
pub open spec fn cyclic(gv: Seq<(Seq<char>, Seq<Seq<char>>)>, a: Seq<char>) -> bool {
    reaches(gv, a, a)
}

proof fn lemma_edge_reaches(gv: Seq<(Seq<char>, Seq<Seq<char>>)>, a: Seq<char>, b: Seq<char>)
    requires
        edge(gv, a, b),
    ensures
        reaches(gv, a, b),
{
    let p = seq![a, b];
    assert(p[0] == a && p[1] == b);
    assert(step_ok(gv, p, 0));
    assert(is_path(gv, p));
    assert(p.last() == b);
}

proof fn lemma_prepend(gv: Seq<(Seq<char>, Seq<Seq<char>>)>, a: Seq<char>, b: Seq<char>, c: Seq<char>)
    requires
        edge(gv, a, b),
        reaches(gv, b, c),
    ensures
        reaches(gv, a, c),
{
    let p = choose|p: Seq<Seq<char>>| is_path(gv, p) && p[0] == b && p.last() == c;
    let q = seq![a] + p;
    assert forall|i: int| 0 <= i < q.len() - 1 implies #[trigger] step_ok(gv, q, i) by {
        if i == 0 {
            assert(q[0] == a && q[1] == b);
        } else {
            assert(q[i] == p[i - 1] && q[i + 1] == p[i]);
            assert(step_ok(gv, p, i - 1));
        }
    }
    assert(is_path(gv, q));
    assert(q.last() == p.last());
}

/// Every name of `vis` that is not on the walk's stack has all its
/// successors visited, and none of them is `target`.
pub open spec fn closed(gv: Seq<(Seq<char>, Seq<Seq<char>>)>, vis: Seq<Seq<char>>, x: Seq<char>, target: Seq<char>) -> bool {
    forall|j: int|
        0 <= j < succ(gv, x).len() ==> vis.contains(#[trigger] succ(gv, x)[j]) && succ(gv, x)[j]
            != target
}

/// Names in `keys` not yet visited, counted with repetition.
pub open spec fn unvisited(keys: Seq<Seq<char>>, vis: Seq<Seq<char>>) -> nat
    decreases keys.len(),
{
    if keys.len() == 0 {
        0
    } else {
        unvisited(keys.drop_last(), vis) + if vis.contains(keys.last()) {
            0nat
        } else {
            1nat
        }
    }
}

proof fn lemma_unvisited_mono(keys: Seq<Seq<char>>, v1: Seq<Seq<char>>, v2: Seq<Seq<char>>)
    requires
        forall|x: Seq<char>| v1.contains(x) ==> v2.contains(x),
    ensures
        unvisited(keys, v2) <= unvisited(keys, v1),
    decreases keys.len(),
{
    if keys.len() > 0 {
        lemma_unvisited_mono(keys.drop_last(), v1, v2);
    }
}

proof fn lemma_unvisited_strict(keys: Seq<Seq<char>>, v1: Seq<Seq<char>>, v2: Seq<Seq<char>>, i: int)
    requires
        forall|x: Seq<char>| v1.contains(x) ==> v2.contains(x),
        0 <= i < keys.len(),
        !v1.contains(keys[i]),
        v2.contains(keys[i]),
    ensures
        unvisited(keys, v2) < unvisited(keys, v1),
    decreases keys.len(),
{
    if i < keys.len() - 1 {
        assert(keys.drop_last()[i] == keys[i]);
        lemma_unvisited_strict(keys.drop_last(), v1, v2, i);
    } else {
        lemma_unvisited_mono(keys.drop_last(), v1, v2);
    }
}

pub open spec fn keys_of(gv: Seq<(Seq<char>, Seq<Seq<char>>)>) -> Seq<Seq<char>> {
    gv.map_values(|e: (Seq<char>, Seq<Seq<char>>)| e.0)
}

pub open spec fn key_bit(gv: Seq<(Seq<char>, Seq<Seq<char>>)>, x: Seq<char>) -> nat {
    if assoc_index(gv, x) is Some {
        1
    } else {
        0
    }
}

/// The measure of a walk step: twice the unvisited keys, plus one when the
/// name being walked has an entry.
pub open spec fn measure(gv: Seq<(Seq<char>, Seq<Seq<char>>)>, vis: Seq<Seq<char>>, x: Seq<char>) -> nat {
    2 * unvisited(keys_of(gv), vis) + key_bit(gv, x)
}

/// The successors of `x` in the graph, with what `succ` says of them.
fn successors<'a>(graph: &'a Vec<(Vec<char>, Vec<Vec<char>>)>, x: &[char]) -> (r: Option<&'a Vec<Vec<char>>>)
    ensures
        match r {
            Some(ns) => assoc_index(graph_view(graph@), x@) is Some && views(ns@) == succ(
                graph_view(graph@),
                x@,
            ),
            None => assoc_index(graph_view(graph@), x@) is None,
        },
{
    let ghost gv = graph_view(graph@);
    let f = assoc_find(graph, x);
    proof {
        assert forall|j: int| 0 <= j < graph@.len() implies gv[j].0 == graph@[j].0@ by {}
        lemma_found_index(graph@, gv, x@, f);
    }
    match f {
        Some(i) => Some(&graph[i].1),
        None => None,
    }
}

proof fn lemma_key_index(gv: Seq<(Seq<char>, Seq<Seq<char>>)>, x: Seq<char>)
    requires
        assoc_index(gv, x) is Some,
    ensures
        0 <= assoc_index(gv, x).unwrap() < keys_of(gv).len(),
        keys_of(gv)[assoc_index(gv, x).unwrap()] == x,
{
    lemma_assoc_index(gv, x);
}

/// `has_cycle_inner`: the depth-first walk from `current`, looking for
/// `target`, skipping names already visited. `stack` holds the names whose
/// walk is under way.
#[verifier::spinoff_prover]
fn has_cycle_inner(
    target: &[char],
    current: &[char],
    graph: &Vec<(Vec<char>, Vec<Vec<char>>)>,
    visited: &mut Vec<Vec<char>>,
    Ghost(stack): Ghost<Set<Seq<char>>>,
    Ghost(fuel): Ghost<nat>,
) -> (r: bool)
    requires
        views(old(visited)@).contains(current@),
        !views(old(visited)@).contains(target@),
        stack.contains(current@),
        forall|x: Seq<char>| stack.contains(x) ==> views(old(visited)@).contains(x),
        forall|x: Seq<char>|
            views(old(visited)@).contains(x) && !stack.contains(x) ==> closed(
                graph_view(graph@),
                views(old(visited)@),
                x,
                target@,
            ),
        fuel >= measure(graph_view(graph@), views(old(visited)@), current@),
    ensures
        forall|x: Seq<char>| views(old(visited)@).contains(x) ==> views(final(visited)@).contains(x),
        !views(final(visited)@).contains(target@),
        r ==> reaches(graph_view(graph@), current@, target@),
        !r ==> forall|x: Seq<char>|
            views(final(visited)@).contains(x) && (!stack.contains(x) || x == current@) ==> closed(
                graph_view(graph@),
                views(final(visited)@),
                x,
                target@,
            ),
    decreases fuel,
{
    let ghost gv = graph_view(graph@);
    let ghost v0 = views(visited@);
    let ns = match successors(graph, current) {
        Some(ns) => ns,
        None => {
            proof {
                assert forall|x: Seq<char>|
                    views(visited@).contains(x) && (!stack.contains(x) || x == current@) implies closed(
                    gv,
                    views(visited@),
                    x,
                    target@,
                ) by {
                    if x == current@ {
                        assert(succ(gv, x).len() == 0);
                    }
                }
            }
            return false;
        },
    };
    proof {
        lemma_key_index(gv, current@);
    }
    let mut j: usize = 0;
    while j < ns.len()
        invariant
            gv == graph_view(graph@),
            v0 == views(old(visited)@),
            views(ns@) == succ(gv, current@),
            assoc_index(gv, current@) is Some,
            j <= ns@.len(),
            forall|x: Seq<char>| v0.contains(x) ==> views(visited@).contains(x),
            views(visited@).contains(current@),
            !views(visited@).contains(target@),
            forall|x: Seq<char>| stack.contains(x) ==> views(visited@).contains(x),
            forall|x: Seq<char>|
                views(visited@).contains(x) && !stack.contains(x) ==> closed(
                    gv,
                    views(visited@),
                    x,
                    target@,
                ),
            forall|k: int|
                0 <= k < j ==> views(visited@).contains(#[trigger] succ(gv, current@)[k]) && succ(
                    gv,
                    current@,
                )[k] != target@,
            fuel >= 2 * unvisited(keys_of(gv), v0) + 1,
            unvisited(keys_of(gv), views(visited@)) <= unvisited(keys_of(gv), v0),
        decreases ns.len() - j,
    {
        let nb = &ns[j];
        assert(succ(gv, current@)[j as int] == nb@);
        if eq_chars(nb.as_slice(), target) {
            proof {
                assert(edge(gv, current@, target@));
                lemma_edge_reaches(gv, current@, target@);
            }
            return true;
        }
        if !contains_name(visited, nb.as_slice()) {
            let ghost before = views(visited@);
            visited.push(copy_text(nb.as_slice()));
            proof {
                assert(views(visited@) =~= before.push(nb@));
                assert forall|x: Seq<char>| before.contains(x) implies views(visited@).contains(x) by {
                    let k = choose|k: int| 0 <= k < before.len() && before[k] == x;
                    assert(views(visited@)[k] == x);
                }
                assert(views(visited@)[before.len() as int] == nb@);
                lemma_unvisited_mono(keys_of(gv), before, views(visited@));
                if assoc_index(gv, nb@) is Some {
                    lemma_key_index(gv, nb@);
                    lemma_unvisited_strict(
                        keys_of(gv),
                        before,
                        views(visited@),
                        assoc_index(gv, nb@).unwrap(),
                    );
                }
                assert forall|x: Seq<char>|
                    views(visited@).contains(x) && !stack.insert(nb@).contains(x) implies closed(
                    gv,
                    views(visited@),
                    x,
                    target@,
                ) by {
                    assert(before.contains(x));
                    assert(closed(gv, before, x, target@));
                    assert forall|m: int| 0 <= m < succ(gv, x).len() implies views(
                        visited@,
                    ).contains(#[trigger] succ(gv, x)[m]) && succ(gv, x)[m] != target@ by {
                        assert(before.contains(succ(gv, x)[m]));
                    }
                }
            }
            let ghost mid = views(visited@);
            let ghost fuel2 = measure(gv, mid, nb@);
            let ghost st2 = stack.insert(nb@);
            let found = has_cycle_inner(
                target,
                nb.as_slice(),
                graph,
                visited,
                Ghost(st2),
                Ghost(fuel2),
            );
            if found {
                proof {
                    assert(edge(gv, current@, nb@));
                    lemma_prepend(gv, current@, nb@, target@);
                }
                return true;
            }
            proof {
                lemma_unvisited_mono(keys_of(gv), mid, views(visited@));
                assert forall|x: Seq<char>|
                    views(visited@).contains(x) && !stack.contains(x) implies closed(
                    gv,
                    views(visited@),
                    x,
                    target@,
                ) by {
                    if x != nb@ {
                        assert(!st2.contains(x));
                    } else {
                        assert(st2.contains(x));
                    }
                }
            }
        } else {
            proof {
                assert forall|x: Seq<char>| v0.contains(x) implies views(visited@).contains(x) by {}
            }
        }
        proof {
            assert(views(visited@).contains(nb@));
        }
        j += 1;
    }
    proof {
        assert forall|x: Seq<char>|
            views(visited@).contains(x) && (!stack.contains(x) || x == current@) implies closed(
            gv,
            views(visited@),
            x,
            target@,
        ) by {
            if x == current@ && stack.contains(x) {
                assert forall|m: int| 0 <= m < succ(gv, x).len() implies views(visited@).contains(
                    #[trigger] succ(gv, x)[m],
                ) && succ(gv, x)[m] != target@ by {
                    assert(succ(gv, current@)[m] == succ(gv, x)[m]);
                }
            }
        }
    }
    false
}

/// Once every visited name is closed and `start`'s successors are visited
/// (none of them `start`), no walk from `start` returns to it.
proof fn lemma_no_cycle(gv: Seq<(Seq<char>, Seq<Seq<char>>)>, vis: Seq<Seq<char>>, start: Seq<char>)
    requires
        forall|x: Seq<char>| vis.contains(x) ==> closed(gv, vis, x, start),
        forall|j: int|
            0 <= j < succ(gv, start).len() ==> vis.contains(#[trigger] succ(gv, start)[j]) && succ(
                gv,
                start,
            )[j] != start,
    ensures
        !cyclic(gv, start),
{
    if cyclic(gv, start) {
        let p = choose|p: Seq<Seq<char>>| is_path(gv, p) && p[0] == start && p.last() == start;
        assert forall|i: int| 1 <= i < p.len() implies vis.contains(#[trigger] p[i]) && p[i] != start by {
            lemma_path_visited(gv, vis, start, p, i);
        }
        assert(p[p.len() - 1] == p.last());
    }
}

proof fn lemma_path_visited(
    gv: Seq<(Seq<char>, Seq<Seq<char>>)>,
    vis: Seq<Seq<char>>,
    start: Seq<char>,
    p: Seq<Seq<char>>,
    i: int,
)
    requires
        forall|x: Seq<char>| vis.contains(x) ==> closed(gv, vis, x, start),
        forall|j: int|
            0 <= j < succ(gv, start).len() ==> vis.contains(#[trigger] succ(gv, start)[j]) && succ(
                gv,
                start,
            )[j] != start,
        is_path(gv, p),
        p[0] == start,
        1 <= i < p.len(),
    ensures
        vis.contains(p[i]) && p[i] != start,
    decreases i,
{
    assert(step_ok(gv, p, i - 1));
    let prev = p[i - 1];
    let k = choose|k: int| 0 <= k < succ(gv, prev).len() && succ(gv, prev)[k] == p[i];
    if i == 1 {
        assert(succ(gv, start)[k] == p[1]);
    } else {
        lemma_path_visited(gv, vis, start, p, i - 1);
        assert(closed(gv, vis, prev, start));
        assert(succ(gv, prev)[k] == p[i]);
    }
}

/// `has_cycle`: `start` can reach itself along the forward references.
#[verifier::spinoff_prover]
pub fn has_cycle(start: &[char], graph: &Vec<(Vec<char>, Vec<Vec<char>>)>) -> (r: bool)
    ensures
        r == cyclic(graph_view(graph@), start@),
{
    let ghost gv = graph_view(graph@);
    let ns = match successors(graph, start) {
        Some(ns) => ns,
        None => {
            proof {
                lemma_no_cycle(gv, Seq::empty(), start@);
            }
            return false;
        },
    };
    let mut visited: Vec<Vec<char>> = Vec::new();
    let mut j: usize = 0;
    while j < ns.len()
        invariant
            gv == graph_view(graph@),
            views(ns@) == succ(gv, start@),
            j <= ns@.len(),
            !views(visited@).contains(start@),
            forall|x: Seq<char>| views(visited@).contains(x) ==> closed(gv, views(visited@), x, start@),
            forall|k: int|
                0 <= k < j ==> views(visited@).contains(#[trigger] succ(gv, start@)[k]) && succ(
                    gv,
                    start@,
                )[k] != start@,
        decreases ns.len() - j,
    {
        let nb = &ns[j];
        assert(succ(gv, start@)[j as int] == nb@);
        if eq_chars(nb.as_slice(), start) {
            proof {
                assert(edge(gv, start@, start@));
                lemma_edge_reaches(gv, start@, start@);
            }
            return true;
        }
        if !contains_name(&visited, nb.as_slice()) {
            let ghost before = views(visited@);
            visited.push(copy_text(nb.as_slice()));
            proof {
                assert(views(visited@) =~= before.push(nb@));
                assert(views(visited@)[before.len() as int] == nb@);
                assert forall|x: Seq<char>| before.contains(x) implies views(visited@).contains(x) by {
                    let k = choose|k: int| 0 <= k < before.len() && before[k] == x;
                    assert(views(visited@)[k] == x);
                }
                assert forall|x: Seq<char>|
                    views(visited@).contains(x) && !Set::empty().insert(nb@).contains(x) implies closed(
                    gv,
                    views(visited@),
                    x,
                    start@,
                ) by {
                    assert(before.contains(x));
                    assert(closed(gv, before, x, start@));
                    assert forall|m: int| 0 <= m < succ(gv, x).len() implies views(
                        visited@,
                    ).contains(#[trigger] succ(gv, x)[m]) && succ(gv, x)[m] != start@ by {
                        assert(before.contains(succ(gv, x)[m]));
                    }
                }
            }
            let ghost mid = views(visited@);
            let ghost fuel = measure(gv, mid, nb@);
            let ghost st = Set::<Seq<char>>::empty().insert(nb@);
            let found = has_cycle_inner(
                start,
                nb.as_slice(),
                graph,
                &mut visited,
                Ghost(st),
                Ghost(fuel),
            );
            if found {
                proof {
                    assert(edge(gv, start@, nb@));
                    lemma_prepend(gv, start@, nb@, start@);
                }
                return true;
            }
            proof {
                assert forall|k: int| 0 <= k < j implies views(visited@).contains(
                    #[trigger] succ(gv, start@)[k],
                ) by {
                    assert(mid.contains(succ(gv, start@)[k]));
                }
                assert forall|x: Seq<char>| views(visited@).contains(x) implies closed(
                    gv,
                    views(visited@),
                    x,
                    start@,
                ) by {
                    if x != nb@ {
                        assert(!st.contains(x));
                    } else {
                        assert(st.contains(x));
                    }
                }
            }
        }
        proof {
            assert(views(visited@).contains(nb@));
        }
        j += 1;
    }
    proof {
        lemma_no_cycle(gv, views(visited@), start@);
    }
    false
}

/// A name that references itself lies on a cycle.
pub proof fn law_self_reference_is_cyclic(gv: Seq<(Seq<char>, Seq<Seq<char>>)>, a: Seq<char>)
    requires
        edge(gv, a, a),
    ensures
        cyclic(gv, a),
{
    lemma_edge_reaches(gv, a, a);
}

/// Two names that reference each other both lie on a cycle.
pub proof fn law_mutual_references_are_cyclic(
    gv: Seq<(Seq<char>, Seq<Seq<char>>)>,
    a: Seq<char>,
    b: Seq<char>,
)
    requires
        edge(gv, a, b),
        edge(gv, b, a),
    ensures
        cyclic(gv, a),
        cyclic(gv, b),
{
    lemma_edge_reaches(gv, b, a);
    lemma_prepend(gv, a, b, a);
    lemma_edge_reaches(gv, a, b);
    lemma_prepend(gv, b, a, b);
}

/// Reachability composes: what `b` reaches, every name reaching `b` reaches.
pub proof fn law_reaches_transitive(
    gv: Seq<(Seq<char>, Seq<Seq<char>>)>,
    a: Seq<char>,
    b: Seq<char>,
    c: Seq<char>,
)
    requires
        reaches(gv, a, b),
        reaches(gv, b, c),
    ensures
        reaches(gv, a, c),
{
    let p = choose|p: Seq<Seq<char>>| is_path(gv, p) && p[0] == a && p.last() == b;
    let q = choose|q: Seq<Seq<char>>| is_path(gv, q) && q[0] == b && q.last() == c;
    let w = p + q.drop_first();
    assert forall|i: int| 0 <= i < w.len() - 1 implies #[trigger] step_ok(gv, w, i) by {
        if i < p.len() - 1 {
            assert(w[i] == p[i] && w[i + 1] == p[i + 1]);
            assert(step_ok(gv, p, i));
        } else {
            let k = i - (p.len() - 1);
            assert(step_ok(gv, q, k));
            if k == 0 {
                assert(w[i] == p.last());
                assert(q[0] == b);
            } else {
                assert(w[i] == q[k]);
            }
            assert(w[i + 1] == q[k + 1]);
        }
    }
    assert(is_path(gv, w));
    assert(w[0] == a);
    assert(w.last() == q.last());
}

/// Two names that reach each other both lie on a cycle.
pub proof fn law_mutually_reachable_are_cyclic(
    gv: Seq<(Seq<char>, Seq<Seq<char>>)>,
    a: Seq<char>,
    b: Seq<char>,
)
    requires
        reaches(gv, a, b),
        reaches(gv, b, a),
    ensures
        cyclic(gv, a),
        cyclic(gv, b),
{
    law_reaches_transitive(gv, a, b, a);
    law_reaches_transitive(gv, b, a, b);
}

/// A name without references lies on no cycle.
pub proof fn law_unreferencing_is_acyclic(gv: Seq<(Seq<char>, Seq<Seq<char>>)>, a: Seq<char>)
    requires
        succ(gv, a).len() == 0,
    ensures
        !cyclic(gv, a),
{
    lemma_no_cycle(gv, Seq::empty(), a);
}

// ---------------------------------------------------------------------------
// The rule
// ---------------------------------------------------------------------------

/// A `TypeAlias`-annotated assignment and the names in the string literals
/// of its right-hand side.
pub struct TypeAliasDef {
    pub name: Vec<char>,
    pub span: Span,
    pub rhs_string_refs: Vec<Vec<char>>,
}

pub open spec fn alias_names(aliases: Seq<TypeAliasDef>) -> Seq<Seq<char>> {
    aliases.map_values(|a: TypeAliasDef| a.name@)
}

/// The references that name an alias, in order.
pub open spec fn alias_refs(refs: Seq<Seq<char>>, names: Seq<Seq<char>>) -> Seq<Seq<char>>
    decreases refs.len(),
{
    if refs.len() == 0 {
        Seq::empty()
    } else if names.contains(refs.last()) {
        alias_refs(refs.drop_last(), names).push(refs.last())
    } else {
        alias_refs(refs.drop_last(), names)
    }
}

/// The graph after the first `n` aliases: an alias with references sets its
/// entry (replacing an earlier one of the same name in place).
pub open spec fn alias_graph(aliases: Seq<TypeAliasDef>, n: int) -> Seq<(Seq<char>, Seq<Seq<char>>)>
    decreases n,
{
    if n <= 0 {
        Seq::empty()
    } else {
        let prev = alias_graph(aliases, n - 1);
        let a = aliases[n - 1];
        let edges = alias_refs(views(a.rhs_string_refs@), alias_names(aliases));
        if edges.len() > 0 {
            crate::assoc::assoc_insert(prev, a.name@, edges)
        } else {
            prev
        }
    }
}

/// The aliases that lie on a cycle, with their spans, in order.
pub open spec fn cyclic_aliases(aliases: Seq<TypeAliasDef>, gv: Seq<(Seq<char>, Seq<Seq<char>>)>, n: int) -> Seq<
    (Seq<char>, Span),
>
    decreases n,
{
    if n <= 0 {
        Seq::empty()
    } else {
        let a = aliases[n - 1];
        cyclic_aliases(aliases, gv, n - 1) + if assoc_index(gv, a.name@) is Some && cyclic(
            gv,
            a.name@,
        ) {
            seq![(a.name@, a.span)]
        } else {
            Seq::empty()
        }
    }
}

fn known_refs(refs: &Vec<Vec<char>>, names: &Vec<Vec<char>>) -> (r: Vec<Vec<char>>)
    ensures
        views(r@) == alias_refs(views(refs@), views(names@)),
{
    let mut out: Vec<Vec<char>> = Vec::new();
    let mut i: usize = 0;
    while i < refs.len()
        invariant
            i <= refs@.len(),
            views(out@) == alias_refs(views(refs@).take(i as int), views(names@)),
        decreases refs.len() - i,
    {
        proof {
            assert(views(refs@).take(i + 1).drop_last() =~= views(refs@).take(i as int));
            assert(views(refs@).take(i + 1).last() == refs@[i as int]@);
        }
        if contains_name(names, refs[i].as_slice()) {
            let ghost before = views(out@);
            out.push(copy_text(refs[i].as_slice()));
            assert(views(out@) =~= before.push(refs@[i as int]@));
        }
        i += 1;
    }
    proof {
        assert(views(refs@).take(i as int) =~= views(refs@));
    }
    out
}

fn graph_insert(graph: &mut Vec<(Vec<char>, Vec<Vec<char>>)>, k: Vec<char>, v: Vec<Vec<char>>)
    ensures
        graph_view(final(graph)@) == crate::assoc::assoc_insert(graph_view(old(graph)@), k@, views(v@)),
{
    let ghost gv = graph_view(graph@);
    let f = assoc_find(graph, k.as_slice());
    proof {
        assert forall|j: int| 0 <= j < graph@.len() implies gv[j].0 == graph@[j].0@ by {}
        lemma_found_index(graph@, gv, k@, f);
    }
    let ghost kv = k@;
    let ghost vv = views(v@);
    match f {
        Some(i) => {
            graph.set(i, (k, v));
            proof {
                assert(graph_view(graph@) =~= gv.update(i as int, (kv, vv)));
            }
        },
        None => {
            graph.push((k, v));
            proof {
                assert(graph_view(graph@) =~= gv.push((kv, vv)));
            }
        },
    }
}

/// A cyclical alias at its assignment.
pub struct CyclicAlias {
    pub name: Vec<char>,
    pub span: Span,
}

impl CyclicAlias {
    /// The finding's message.
    pub fn message(&self) -> (r: Vec<char>)
        ensures
            r@ == "Type alias `"@ + self.name@ + "` creates a cyclical reference"@,
    {
        let mut m = crate::text::chars_of("Type alias `");
        crate::text::push_chars(&mut m, self.name.as_slice());
        crate::text::push_lit(&mut m, "` creates a cyclical reference");
        m
    }
}

/// The rule: aliases whose forward references lead back to themselves.
pub struct CyclicalTypeAliasReference;

impl CyclicalTypeAliasReference {
    /// The aliases on a cycle of the graph of all aliases, in order.
    pub fn check(&self, aliases: &Vec<TypeAliasDef>) -> (r: Vec<CyclicAlias>)
        ensures
            r@.map_values(|c: CyclicAlias| (c.name@, c.span)) == cyclic_aliases(
                aliases@,
                alias_graph(aliases@, aliases@.len() as int),
                aliases@.len() as int,
            ),
    {
        let mut names: Vec<Vec<char>> = Vec::new();
        let mut i: usize = 0;
        while i < aliases.len()
            invariant
                i <= aliases@.len(),
                views(names@) == alias_names(aliases@).take(i as int),
            decreases aliases.len() - i,
        {
            let ghost before = views(names@);
            names.push(copy_text(aliases[i].name.as_slice()));
            proof {
                assert(views(names@) =~= before.push(aliases@[i as int].name@));
                assert(alias_names(aliases@)[i as int] == aliases@[i as int].name@);
                assert(views(names@) =~= alias_names(aliases@).take(i + 1));
            }
            i += 1;
        }
        proof {
            assert(alias_names(aliases@).take(i as int) =~= alias_names(aliases@));
        }
        let mut graph: Vec<(Vec<char>, Vec<Vec<char>>)> = Vec::new();
        let mut i: usize = 0;
        proof {
            assert(graph_view(graph@) =~= alias_graph(aliases@, 0));
        }
        while i < aliases.len()
            invariant
                i <= aliases@.len(),
                views(names@) == alias_names(aliases@),
                graph_view(graph@) == alias_graph(aliases@, i as int),
            decreases aliases.len() - i,
        {
            let a = &aliases[i];
            let edges = known_refs(&a.rhs_string_refs, &names);
            if edges.len() > 0 {
                graph_insert(&mut graph, copy_text(a.name.as_slice()), edges);
            }
            i += 1;
        }
        let ghost gv = graph_view(graph@);
        let mut out: Vec<CyclicAlias> = Vec::new();
        let mut i: usize = 0;
        while i < aliases.len()
            invariant
                i <= aliases@.len(),
                gv == graph_view(graph@),
                gv == alias_graph(aliases@, aliases@.len() as int),
                out@.map_values(|c: CyclicAlias| (c.name@, c.span)) == cyclic_aliases(
                    aliases@,
                    gv,
                    i as int,
                ),
            decreases aliases.len() - i,
        {
            let a = &aliases[i];
            let ghost before = out@.map_values(|c: CyclicAlias| (c.name@, c.span));
            if successors(&graph, a.name.as_slice()).is_some() && has_cycle(
                a.name.as_slice(),
                &graph,
            ) {
                out.push(CyclicAlias { name: copy_text(a.name.as_slice()), span: a.span });
                proof {
                    assert(out@.map_values(|c: CyclicAlias| (c.name@, c.span)) =~= before.push(
                        (a.name@, a.span),
                    ));
                }
            } else {
                proof {
                    assert(out@.map_values(|c: CyclicAlias| (c.name@, c.span)) =~= before);
                }
            }
            i += 1;
        }
        out
    }
}

} // verus!
