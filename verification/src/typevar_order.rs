//! A class whose bases reach a shared generic ancestor with its type
//! variables in different orders.
use vstd::prelude::*;

use crate::annotations::{base_subscript, closes_paren, find_matching_paren, parse_base_subscript};
use crate::module::copy_text;
use crate::position::{byte_boundary, char_at_byte, char_index_at_byte, lemma_char_at_byte, utf8_len, Span};
use crate::text::{
    eq_chars, eq_str, find_char, find_char_exec, first_where, lemma_find_char, lemma_first_where_none,
    lemma_first_where_some, slice_of, split_top_commas_all, split_top_level_commas, trim, trim_chars,
    views,
};

verus! {

/// A class as the rule reads it.
pub struct OrderClass {
    pub name: Vec<char>,
    /// The span of the class name, in bytes of the source.
    pub name_span: Span,
    pub generic_params: Vec<Vec<char>>,
}

/// The source from byte `b` on; empty when `b` is not the offset of a
/// character (`source.get(b..)`).
pub open spec fn from_byte(s: Seq<char>, b: nat) -> Seq<char> {
    if byte_boundary(s, b) {
        s.skip(char_at_byte(s, b))
    } else {
        Seq::empty()
    }
}

/// The text between the `(` after the class name and its matching `)` (or
/// the end of the source).
pub open spec fn bases_text(s: Seq<char>, name_end: nat) -> Option<Seq<char>> {
    let a = from_byte(s, name_end);
    match find_char(a, '(') {
        Some(o) => {
            let rest = a.skip(o + 1);
            let end = match first_where(closes_paren(rest), rest.len() as int) {
                Some(e) => e,
                None => rest.len() as int,
            };
            Some(rest.take(end))
        },
        None => None,
    }
}

/// The base expressions that parse, in order.
pub open spec fn parsed_bases(pieces: Seq<Seq<char>>) -> Seq<(Seq<char>, Seq<Seq<char>>)>
    decreases pieces.len(),
{
    if pieces.len() == 0 {
        Seq::empty()
    } else {
        parsed_bases(pieces.drop_last()) + match base_subscript(trim(pieces.last())) {
            Some(b) => seq![b],
            None => Seq::empty(),
        }
    }
}

/// `extract_base_subscripts`: each base of the class as its name and type
/// arguments.
pub open spec fn base_subscripts(s: Seq<char>, name_end: nat) -> Seq<(Seq<char>, Seq<Seq<char>>)> {
    match bases_text(s, name_end) {
        Some(t) => parsed_bases(split_top_commas_all(t)),
        None => Seq::empty(),
    }
}

pub open spec fn base_view(b: (Vec<char>, Vec<Vec<char>>)) -> (Seq<char>, Seq<Seq<char>>) {
    (b.0@, views(b.1@))
}

pub open spec fn bases_view(v: Seq<(Vec<char>, Vec<Vec<char>>)>) -> Seq<(Seq<char>, Seq<Seq<char>>)> {
    v.map_values(|b: (Vec<char>, Vec<Vec<char>>)| base_view(b))
}

/// The subscripted bases `Name[args]` between the parentheses after a class name ending at `name_end`.
pub fn extract_base_subscripts(source: &[char], name_end: u32) -> (r: Vec<(Vec<char>, Vec<Vec<char>>)>)
    requires
        source@.len() < usize::MAX,
    ensures
        bases_view(r@) == base_subscripts(source@, name_end as nat),
{
    let mut out: Vec<(Vec<char>, Vec<Vec<char>>)> = Vec::new();
    let a = match char_index_at_byte(source, name_end as usize) {
        Some(k) => {
            proof {
                lemma_char_at_byte(source@, k as int, name_end as nat);
            }
            slice_of(source, k, source.len())
        },
        None => Vec::new(),
    };
    proof {
        if byte_boundary(source@, name_end as nat) {
            assert(a@ =~= from_byte(source@, name_end as nat));
        } else {
            assert(a@ =~= from_byte(source@, name_end as nat));
        }
        lemma_find_char(a@, '(');
    }
    let o = match find_char_exec(a.as_slice(), '(') {
        Some(o) => o,
        None => {
            proof {
                assert(bases_view(out@) =~= base_subscripts(source@, name_end as nat));
            }
            return out;
        },
    };
    let rest = slice_of(a.as_slice(), o + 1, a.len());
    proof {
        assert(rest@ =~= a@.skip(o + 1));
        lemma_first_where_some(closes_paren(rest@), rest@.len() as int);
    }
    let end = match find_matching_paren(rest.as_slice()) {
        Some(e) => e,
        None => rest.len(),
    };
    let text = slice_of(rest.as_slice(), 0, end);
    proof {
        assert(text@ =~= rest@.take(end as int));
    }
    let pieces = split_top_level_commas(text.as_slice());
    let ghost ps = views(pieces@);
    let mut i: usize = 0;
    while i < pieces.len()
        invariant
            i <= pieces@.len(),
            ps == views(pieces@),
            bases_view(out@) == parsed_bases(ps.take(i as int)),
        decreases pieces.len() - i,
    {
        proof {
            assert(ps.take(i + 1).drop_last() =~= ps.take(i as int));
            assert(ps.take(i + 1).last() == pieces@[i as int]@);
        }
        let t = trim_chars(pieces[i].as_slice());
        let ghost before = bases_view(out@);
        match parse_base_subscript(t.as_slice()) {
            Some(b) => {
                let ghost bv = base_view(b);
                out.push(b);
                proof {
                    assert(bases_view(out@) =~= before.push(bv));
                }
            },
            None => {},
        }
        proof {
            assert(bases_view(out@) =~= parsed_bases(ps.take(i + 1)));
        }
        i += 1;
    }
    proof {
        assert(ps.take(i as int) =~= ps);
    }
    out
}

/// The class a name looks up: the last of that name.
pub open spec fn class_pos(cs: Seq<OrderClass>, name: Seq<char>) -> Option<int>
    decreases cs.len(),
{
    if cs.len() == 0 {
        None
    } else if cs.last().name@ == name {
        Some(cs.len() - 1)
    } else {
        class_pos(cs.drop_last(), name)
    }
}

/// A type parameter's argument: of the parameters paired with arguments,
/// the last one named `x`; `x` itself when there is none.
pub open spec fn subst_upto(params: Seq<Seq<char>>, args: Seq<Seq<char>>, x: Seq<char>, n: int) -> Seq<char>
    decreases n,
{
    if n <= 0 {
        x
    } else if params[n - 1] == x {
        args[n - 1]
    } else {
        subst_upto(params, args, x, n - 1)
    }
}

pub open spec fn pairs(params: Seq<Seq<char>>, args: Seq<Seq<char>>) -> int {
    if params.len() < args.len() {
        params.len() as int
    } else {
        args.len() as int
    }
}

pub open spec fn substituted(params: Seq<Seq<char>>, args: Seq<Seq<char>>, targs: Seq<Seq<char>>) -> Seq<
    Seq<char>,
> {
    targs.map_values(|a: Seq<char>| subst_upto(params, args, a, pairs(params, args)))
}

/// An ancestor reached from the class's base number `origin` with these
/// type arguments.
pub type Entry = (Seq<char>, Seq<Seq<char>>, nat);

/// `propagate_ancestors` from the class `parent` (index into the classes),
/// given the arguments the child passes it, at `depth` (nothing past 10).
pub open spec fn prop_entries(
    cs: Seq<OrderClass>,
    s: Seq<char>,
    parent: int,
    child_args: Seq<Seq<char>>,
    origin: nat,
    depth: nat,
) -> Seq<Entry>
    decreases 11 - depth, 2int, 0int,
{
    if depth > 10 || !(0 <= parent < cs.len()) {
        Seq::empty()
    } else {
        let pbs = base_subscripts(s, cs[parent].name_span.end as nat);
        prop_bases(cs, s, pbs, views(cs[parent].generic_params@), child_args, origin, depth)
    }
}

pub open spec fn prop_bases(
    cs: Seq<OrderClass>,
    s: Seq<char>,
    pbs: Seq<(Seq<char>, Seq<Seq<char>>)>,
    params: Seq<Seq<char>>,
    child_args: Seq<Seq<char>>,
    origin: nat,
    depth: nat,
) -> Seq<Entry>
    decreases 11 - depth, 1int, pbs.len(),
{
    if depth > 10 || pbs.len() == 0 {
        Seq::empty()
    } else {
        prop_bases(cs, s, pbs.drop_last(), params, child_args, origin, depth) + prop_one(
            cs,
            s,
            pbs.last(),
            params,
            child_args,
            origin,
            depth,
        )
    }
}

/// One base of the parent: skipped without arguments or when it is
/// `Generic` or `Protocol`; else recorded with the child's arguments put in
/// for the parent's parameters, and followed upward.
pub open spec fn prop_one(
    cs: Seq<OrderClass>,
    s: Seq<char>,
    pb: (Seq<char>, Seq<Seq<char>>),
    params: Seq<Seq<char>>,
    child_args: Seq<Seq<char>>,
    origin: nat,
    depth: nat,
) -> Seq<Entry>
    decreases 11 - depth, 0int, 0int,
{
    if depth > 10 || pb.1.len() == 0 || pb.0 == "Generic"@ || pb.0 == "Protocol"@ {
        Seq::empty()
    } else {
        let r = substituted(params, child_args, pb.1);
        seq![(pb.0, r, origin)] + match class_pos(cs, pb.0) {
            Some(g) => if depth + 1 > 10 {
                Seq::empty()
            } else {
                prop_entries(cs, s, g, r, origin, depth + 1)
            },
            None => Seq::empty(),
        }
    }
}

/// The ancestors reached from each direct base in turn: the base itself when
/// it has arguments, then what propagates through it.
pub open spec fn direct_entries(cs: Seq<OrderClass>, s: Seq<char>, bs: Seq<(Seq<char>, Seq<Seq<char>>)>, n: int) -> Seq<
    Entry,
>
    decreases n,
{
    if n <= 0 {
        Seq::empty()
    } else {
        let b = bs[n - 1];
        direct_entries(cs, s, bs, n - 1) + (if b.1.len() > 0 {
            seq![(b.0, b.1, (n - 1) as nat)]
        } else {
            Seq::empty()
        }) + match class_pos(cs, b.0) {
            Some(p) => prop_entries(cs, s, p, b.1, (n - 1) as nat, 0),
            None => Seq::empty(),
        }
    }
}

/// Two records of the ancestor `name` with different arguments.
pub open spec fn conflict_on(es: Seq<Entry>, name: Seq<char>) -> bool {
    exists|i: int, j: int|
        0 <= i < j < es.len() && (#[trigger] es[i]).0 == name && (#[trigger] es[j]).0 == name
            && es[i].1 != es[j].1
}

pub open spec fn any_conflict(es: Seq<Entry>) -> bool {
    exists|i: int, j: int|
        0 <= i < j < es.len() && (#[trigger] es[i]).0 == (#[trigger] es[j]).0 && es[i].1 != es[j].1
}

pub open spec fn entries_view(v: Seq<(Vec<char>, Vec<Vec<char>>, usize)>) -> Seq<Entry> {
    v.map_values(|e: (Vec<char>, Vec<Vec<char>>, usize)| (e.0@, views(e.1@), e.2 as nat))
}

fn find_class_pos(cs: &Vec<OrderClass>, name: &[char]) -> (r: Option<usize>)
    ensures
        match r {
            Some(k) => k < cs@.len() && class_pos(cs@, name@) == Some(k as int),
            None => class_pos(cs@, name@) is None,
        },
{
    let mut i: usize = cs.len();
    assert(cs@.take(i as int) =~= cs@);
    while i > 0
        invariant
            i <= cs@.len(),
            class_pos(cs@, name@) == class_pos(cs@.take(i as int), name@),
        decreases i,
    {
        proof {
            assert(cs@.take(i as int).drop_last() =~= cs@.take(i - 1));
            assert(cs@.take(i as int).last() == cs@[i - 1]);
        }
        if eq_chars(cs[i - 1].name.as_slice(), name) {
            return Some(i - 1);
        }
        i -= 1;
    }
    None
}

fn subst_exec(params: &Vec<Vec<char>>, args: &Vec<Vec<char>>, x: &[char]) -> (r: Vec<char>)
    ensures
        r@ == subst_upto(views(params@), views(args@), x@, pairs(views(params@), views(args@))),
{
    let n = if params.len() < args.len() {
        params.len()
    } else {
        args.len()
    };
    let mut k: usize = n;
    while k > 0
        invariant
            k <= n,
            n <= params@.len(),
            n <= args@.len(),
            n == pairs(views(params@), views(args@)),
            subst_upto(views(params@), views(args@), x@, n as int) == subst_upto(
                views(params@),
                views(args@),
                x@,
                k as int,
            ),
        decreases k,
    {
        if eq_chars(params[k - 1].as_slice(), x) {
            return copy_text(args[k - 1].as_slice());
        }
        k -= 1;
    }
    copy_text(x)
}

fn substitute_exec(params: &Vec<Vec<char>>, args: &Vec<Vec<char>>, targs: &Vec<Vec<char>>) -> (r: Vec<
    Vec<char>,
>)
    ensures
        views(r@) == substituted(views(params@), views(args@), views(targs@)),
{
    let mut out: Vec<Vec<char>> = Vec::new();
    let mut i: usize = 0;
    while i < targs.len()
        invariant
            i <= targs@.len(),
            views(out@) == substituted(views(params@), views(args@), views(targs@)).take(i as int),
        decreases targs.len() - i,
    {
        let ghost before = views(out@);
        let x = subst_exec(params, args, targs[i].as_slice());
        let ghost xv = x@;
        out.push(x);
        proof {
            assert(views(out@) =~= before.push(xv));
            assert(substituted(views(params@), views(args@), views(targs@))[i as int] == xv);
            assert(views(out@) =~= substituted(views(params@), views(args@), views(targs@)).take(
                i + 1,
            ));
        }
        i += 1;
    }
    proof {
        assert(substituted(views(params@), views(args@), views(targs@)).take(i as int) =~= substituted(
            views(params@),
            views(args@),
            views(targs@),
        ));
    }
    out
}

fn copy_names(v: &Vec<Vec<char>>) -> (r: Vec<Vec<char>>)
    ensures
        views(r@) == views(v@),
{
    let mut out: Vec<Vec<char>> = Vec::new();
    let mut i: usize = 0;
    while i < v.len()
        invariant
            i <= v@.len(),
            views(out@) == views(v@).take(i as int),
        decreases v.len() - i,
    {
        let ghost before = views(out@);
        out.push(copy_text(v[i].as_slice()));
        proof {
            assert(views(out@) =~= before.push(v@[i as int]@));
            assert(views(out@) =~= views(v@).take(i + 1));
        }
        i += 1;
    }
    proof {
        assert(views(v@).take(i as int) =~= views(v@));
    }
    out
}

/// Carries the type-variable order of a base's own generic ancestors over to the child, substituting the base's parameters by the child's arguments.
fn propagate_ancestors(
    cs: &Vec<OrderClass>,
    source: &[char],
    parent: usize,
    child_args: &Vec<Vec<char>>,
    origin: usize,
    depth: usize,
    out: &mut Vec<(Vec<char>, Vec<Vec<char>>, usize)>,
)
    requires
        source@.len() < usize::MAX,
        parent < cs@.len(),
        depth <= 10,
    ensures
        entries_view(final(out)@) == entries_view(old(out)@) + prop_entries(
            cs@,
            source@,
            parent as int,
            views(child_args@),
            origin as nat,
            depth as nat,
        ),
    decreases 11 - depth,
{
    let ghost start = entries_view(out@);
    let p = &cs[parent];
    let pbs = extract_base_subscripts(source, p.name_span.end);
    let ghost pv = bases_view(pbs@);
    let ghost params = views(p.generic_params@);
    let mut i: usize = 0;
    while i < pbs.len()
        invariant
            i <= pbs@.len(),
            depth <= 10,
            parent < cs@.len(),
            source@.len() < usize::MAX,
            pv == bases_view(pbs@),
            *p == cs@[parent as int],
            params == views(cs@[parent as int].generic_params@),
            pv == base_subscripts(source@, cs@[parent as int].name_span.end as nat),
            entries_view(out@) == start + prop_bases(
                cs@,
                source@,
                pv.take(i as int),
                params,
                views(child_args@),
                origin as nat,
                depth as nat,
            ),
        decreases pbs.len() - i,
    {
        proof {
            assert(pv.take(i + 1).drop_last() =~= pv.take(i as int));
            assert(pv.take(i + 1).last() == base_view(pbs@[i as int]));
        }
        let ghost mid = entries_view(out@);
        let pb = &pbs[i];
        if pb.1.len() > 0 && !eq_str(pb.0.as_slice(), "Generic") && !eq_str(pb.0.as_slice(), "Protocol") {
            let resolved = substitute_exec(&p.generic_params, child_args, &pb.1);
            let ghost rv = views(resolved@);
            out.push((copy_text(pb.0.as_slice()), copy_names(&resolved), origin));
            proof {
                assert(entries_view(out@) =~= mid.push((pb.0@, rv, origin as nat)));
            }
            let ghost mid2 = entries_view(out@);
            let ghost tail: Seq<Entry> = match class_pos(cs@, pb.0@) {
                Some(g) => if depth + 1 > 10 {
                    Seq::empty()
                } else {
                    prop_entries(cs@, source@, g, rv, origin as nat, (depth + 1) as nat)
                },
                None => Seq::empty(),
            };
            if let Some(g) = find_class_pos(cs, pb.0.as_slice()) {
                if depth + 1 <= 10 {
                    propagate_ancestors(cs, source, g, &resolved, origin, depth + 1, out);
                }
            }
            proof {
                assert(entries_view(out@) =~= mid2 + tail);
                assert(base_view(pbs@[i as int]) == (pb.0@, views(pb.1@)));
                assert(rv == substituted(params, views(child_args@), views(pb.1@)));
                assert(entries_view(out@) =~= mid + prop_one(
                    cs@,
                    source@,
                    base_view(pbs@[i as int]),
                    params,
                    views(child_args@),
                    origin as nat,
                    depth as nat,
                ));
            }
        } else {
            proof {
                assert(entries_view(out@) =~= mid + prop_one(
                    cs@,
                    source@,
                    base_view(pbs@[i as int]),
                    params,
                    views(child_args@),
                    origin as nat,
                    depth as nat,
                ));
            }
        }
        i += 1;
    }
    proof {
        assert(pv.take(i as int) =~= pv);
    }
}

/// The ancestor records of a class, in the order the rule makes them.
pub open spec fn class_entries(cs: Seq<OrderClass>, s: Seq<char>, c: OrderClass) -> Seq<Entry> {
    let bs = base_subscripts(s, c.name_span.end as nat);
    direct_entries(cs, s, bs, bs.len() as int)
}

/// `check_class`: with two bases or more, an ancestor reached with two
/// different argument lists, when there is one (which one, when several
/// are, is left open).
pub fn check_class(cs: &Vec<OrderClass>, source: &[char], c: &OrderClass) -> (r: Option<Vec<char>>)
    requires
        source@.len() < usize::MAX,
    ensures
        match r {
            Some(name) => base_subscripts(source@, c.name_span.end as nat).len() >= 2 && conflict_on(
                class_entries(cs@, source@, *c),
                name@,
            ),
            None => base_subscripts(source@, c.name_span.end as nat).len() < 2 || !any_conflict(
                class_entries(cs@, source@, *c),
            ),
        },
{
    let bs = extract_base_subscripts(source, c.name_span.end);
    let ghost bv = bases_view(bs@);
    if bs.len() < 2 {
        return None;
    }
    let mut es: Vec<(Vec<char>, Vec<Vec<char>>, usize)> = Vec::new();
    let mut i: usize = 0;
    while i < bs.len()
        invariant
            i <= bs@.len(),
            source@.len() < usize::MAX,
            bv == bases_view(bs@),
            entries_view(es@) == direct_entries(cs@, source@, bv, i as int),
        decreases bs.len() - i,
    {
        let b = &bs[i];
        let ghost before = entries_view(es@);
        if b.1.len() > 0 {
            es.push((copy_text(b.0.as_slice()), copy_names(&b.1), i));
            proof {
                assert(entries_view(es@) =~= before.push((b.0@, views(b.1@), i as nat)));
            }
        }
        let ghost mid = entries_view(es@);
        match find_class_pos(cs, b.0.as_slice()) {
            Some(p) => propagate_ancestors(cs, source, p, &b.1, i, 0, &mut es),
            None => {},
        }
        proof {
            assert(bv[i as int] == base_view(bs@[i as int]));
            assert(entries_view(es@) =~= direct_entries(cs@, source@, bv, i + 1));
        }
        i += 1;
    }
    let ghost ev = entries_view(es@);
    proof {
        assert(ev == class_entries(cs@, source@, *c));
    }
    let mut a: usize = 0;
    while a < es.len()
        invariant
            a <= es@.len(),
            ev == entries_view(es@),
            ev == class_entries(cs@, source@, *c),
            base_subscripts(source@, c.name_span.end as nat).len() >= 2,
            forall|x: int, y: int|
                0 <= x < a && x < y < ev.len() ==> !((#[trigger] ev[x]).0 == (#[trigger] ev[y]).0
                    && ev[x].1 != ev[y].1),
        decreases es.len() - a,
    {
        let mut b: usize = a + 1;
        while b < es.len()
            invariant
                a < es@.len(),
                a < b <= es@.len(),
                ev == entries_view(es@),
                ev == class_entries(cs@, source@, *c),
                base_subscripts(source@, c.name_span.end as nat).len() >= 2,
                forall|x: int, y: int|
                    0 <= x < a && x < y < ev.len() ==> !((#[trigger] ev[x]).0 == (#[trigger] ev[y]).0
                        && ev[x].1 != ev[y].1),
                forall|y: int| a < y < b ==> !(ev[a as int].0 == (#[trigger] ev[y]).0 && ev[a as int].1
                    != ev[y].1),
            decreases es.len() - b,
        {
            let same_name = eq_chars(es[a].0.as_slice(), es[b].0.as_slice());
            let same_args = eq_names(&es[a].1, &es[b].1);
            assert(ev[a as int] == (es@[a as int].0@, views(es@[a as int].1@), es@[a as int].2 as nat));
            assert(ev[b as int] == (es@[b as int].0@, views(es@[b as int].1@), es@[b as int].2 as nat));
            if same_name && !same_args {
                proof {
                    assert(conflict_on(ev, es@[a as int].0@)) by {
                        assert(ev[a as int].0 == es@[a as int].0@ && ev[b as int].0 == es@[a as int].0@);
                    }
                }
                return Some(copy_text(es[a].0.as_slice()));
            }
            b += 1;
        }
        a += 1;
    }
    proof {
        if any_conflict(ev) {
            let (x, y) = choose|x: int, y: int|
                0 <= x < y < ev.len() && (#[trigger] ev[x]).0 == (#[trigger] ev[y]).0 && ev[x].1
                    != ev[y].1;
            assert(!(ev[x].0 == ev[y].0 && ev[x].1 != ev[y].1));
        }
    }
    None
}

fn eq_names(x: &Vec<Vec<char>>, y: &Vec<Vec<char>>) -> (r: bool)
    ensures
        r == (views(x@) == views(y@)),
{
    if x.len() != y.len() {
        proof {
            assert(views(x@).len() != views(y@).len());
        }
        return false;
    }
    let mut i: usize = 0;
    while i < x.len()
        invariant
            i <= x@.len(),
            x@.len() == y@.len(),
            forall|k: int| 0 <= k < i ==> views(x@)[k] == views(y@)[k],
        decreases x.len() - i,
    {
        if !eq_chars(x[i].as_slice(), y[i].as_slice()) {
            assert(views(x@)[i as int] != views(y@)[i as int]);
            return false;
        }
        i += 1;
    }
    assert(views(x@) =~= views(y@));
    true
}

/// A class whose bases disagree on an ancestor's type variable order.
pub struct InconsistentOrder {
    pub class: Vec<char>,
    pub ancestor: Vec<char>,
    pub span: Span,
}

/// The class has two bases or more that reach an ancestor with two
/// different argument lists.
pub open spec fn flagged(cs: Seq<OrderClass>, s: Seq<char>, c: OrderClass) -> bool {
    base_subscripts(s, c.name_span.end as nat).len() >= 2 && any_conflict(class_entries(cs, s, c))
}

/// The indices, in order, of the flagged classes among the first `n`.
pub open spec fn conflicting_idx(cs: Seq<OrderClass>, s: Seq<char>, n: int) -> Seq<int>
    decreases n,
{
    if n <= 0 {
        Seq::empty()
    } else if flagged(cs, s, cs[n - 1]) {
        conflicting_idx(cs, s, n - 1).push(n - 1)
    } else {
        conflicting_idx(cs, s, n - 1)
    }
}

/// The flagged classes among the first `n`, in order, each by its name and
/// the span of its name.
pub open spec fn conflicting_classes(cs: Seq<OrderClass>, s: Seq<char>, n: int) -> Seq<(Seq<char>, Span)> {
    conflicting_idx(cs, s, n).map_values(|i: int| (cs[i].name@, cs[i].name_span))
}

/// The text of the finding: `Inconsistent TypeVar ordering for `A` in base
/// classes of `C``.
pub open spec fn order_message(class: Seq<char>, ancestor: Seq<char>) -> Seq<char> {
    "Inconsistent TypeVar ordering for `"@ + ancestor + "` in base classes of `"@ + class + "`"@
}

impl InconsistentOrder {
    /// The finding's message, naming the ancestor and the class.
    pub fn message(&self) -> (r: Vec<char>)
        ensures
            r@ == order_message(self.class@, self.ancestor@),
    {
        let mut m = crate::text::chars_of("Inconsistent TypeVar ordering for `");
        crate::text::push_chars(&mut m, self.ancestor.as_slice());
        crate::text::push_lit(&mut m, "` in base classes of `");
        crate::text::push_chars(&mut m, self.class.as_slice());
        crate::text::push_lit(&mut m, "`");
        m
    }

    /// The advice that goes with the finding.
    pub fn help() -> (r: Vec<char>)
        ensures
            r@ == "All paths to a shared generic ancestor must use the same TypeVar ordering"@,
    {
        crate::text::chars_of("All paths to a shared generic ancestor must use the same TypeVar ordering")
    }

    /// The rule the finding rests on.
    pub fn note() -> (r: Vec<char>)
        ensures
            r@ == "PEP 484: type variable ordering must be consistent across base classes"@,
    {
        crate::text::chars_of("PEP 484: type variable ordering must be consistent across base classes")
    }
}

pub open spec fn order_view(r: Seq<InconsistentOrder>) -> Seq<(Seq<char>, Span)> {
    r.map_values(|x: InconsistentOrder| (x.class@, x.span))
}

/// The rule: for each class in order, at most one finding.
pub struct InconsistentTypeVarOrder;

impl InconsistentTypeVarOrder {
    /// Each flagged class is reported once, in the classes' order, at its
    /// name, with an ancestor on which its bases conflict (which one, when
    /// several do, is left open); no other class is reported.
    pub fn check(&self, classes: &Vec<OrderClass>, source: &[char]) -> (r: Vec<InconsistentOrder>)
        requires
            source@.len() < usize::MAX,
        ensures
            order_view(r@) == conflicting_classes(classes@, source@, classes@.len() as int),
            ancestors_conflict(classes@, source@, classes@.len() as int, r@),
    {
        let mut out: Vec<InconsistentOrder> = Vec::new();
        let mut i: usize = 0;
        while i < classes.len()
            invariant
                i <= classes@.len(),
                source@.len() < usize::MAX,
                order_view(out@) == conflicting_classes(classes@, source@, i as int),
                ancestors_conflict(classes@, source@, i as int, out@),
            decreases classes.len() - i,
        {
            let c = &classes[i];
            let ghost before = out@;
            let ghost idx = conflicting_idx(classes@, source@, i as int);
            proof {
                assert(classes@[i as int] == *c);
            }
            if let Some(name) = check_class(classes, source, c) {
                let ghost nv = name@;
                out.push(InconsistentOrder { class: copy_text(c.name.as_slice()), ancestor: name, span: c.name_span });
                proof {
                    let nidx = conflicting_idx(classes@, source@, i + 1);
                    assert(nidx == idx.push(i as int));
                    assert(order_view(out@) =~= order_view(before).push((c.name@, c.name_span)));
                    assert(conflicting_classes(classes@, source@, i + 1) =~= conflicting_classes(
                        classes@,
                        source@,
                        i as int,
                    ).push((c.name@, c.name_span)));
                    assert forall|k: int| 0 <= k < out@.len() implies conflict_on(
                        class_entries(classes@, source@, classes@[nidx[k]]),
                        #[trigger] out@[k].ancestor@,
                    ) by {
                        if k < before.len() {
                            assert(out@[k] == before[k]);
                            assert(nidx[k] == idx[k]);
                            assert(conflict_on(class_entries(classes@, source@, classes@[idx[k]]), before[k].ancestor@));
                        } else {
                            assert(nidx[k] == i);
                            assert(out@[k].ancestor@ == nv);
                        }
                    }
                }
            } else {
                proof {
                    assert(conflicting_idx(classes@, source@, i + 1) == idx);
                }
            }
            i += 1;
        }
        out
    }
}

/// Each report's ancestor is one on which the bases of its class (the
/// corresponding flagged class among the first `n`) conflict.
pub open spec fn ancestors_conflict(cs: Seq<OrderClass>, s: Seq<char>, n: int, r: Seq<InconsistentOrder>) -> bool {
    forall|k: int|
        0 <= k < r.len() ==> conflict_on(
            class_entries(cs, s, cs[conflicting_idx(cs, s, n)[k]]),
            #[trigger] r[k].ancestor@,
        )
}

} // verus!
