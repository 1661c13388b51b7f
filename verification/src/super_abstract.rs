//! `super().method()` where every base that declares `method` declares it
//! abstract with a stub body (`...` or `pass`, after an optional docstring):
//! there is no implementation to delegate to.
//!
//! The module is given by the parts the check reads: each top-level class
//! with its bases (the plain names among them) and its methods; each method
//! with whether it is decorated `@abstractmethod`, the kinds of the top-level
//! statements of its body, and the statements and expressions the check walks.
use vstd::prelude::*;

use crate::assoc::{assoc_find, assoc_get, assoc_insert, lemma_found_index};
use crate::module::copy_text;
use crate::names::contains_name;
use crate::position::Span;
use crate::text::views;

verus! {

/// The kind of a top-level statement of a method body.
#[derive(Clone, Copy, PartialEq, Eq, Structural, Debug)]
pub enum StubStmt {
    /// An expression statement that is a string literal.
    Docstring,
    Pass,
    /// An expression statement that is `...`.
    Ellipsis,
    Other,
}

/// An expression as the walk reads it.
pub enum SuperExpr {
    /// A call: `method` is `Some(m)` for `super().m(...)` (`super` called
    /// with no arguments); then its positional arguments.
    Call { method: Option<Vec<char>>, args: Vec<SuperExpr>, span: Span },
    /// A boolean operation, binary operation or conditional expression: its
    /// operands in order.
    Operands(Vec<SuperExpr>),
    Other,
}

/// A statement as the walk reads it.
pub enum SuperStmt {
    /// `return`, an expression statement, an assignment or an annotated
    /// assignment with a value: the expression.
    Holds(SuperExpr),
    /// `if` (with its `elif`/`else` bodies), `for`, `while`, `try` (body,
    /// `else`, `finally`) or `with`: the bodies in order.
    Compound(Vec<Vec<SuperStmt>>),
    Other,
}

pub struct SuperMethod {
    pub name: Vec<char>,
    pub is_abstract: bool,
    pub shape: Vec<StubStmt>,
    pub body: Vec<SuperStmt>,
}

pub struct SuperClass {
    pub name: Vec<char>,
    /// The bases that are plain names.
    pub bases: Vec<Vec<char>>,
    pub methods: Vec<SuperMethod>,
}

// ---------------------------------------------------------------------------
// Abstract stubs
// ---------------------------------------------------------------------------

/// `is_stub_body`: after an optional leading docstring (when more follows),
/// exactly one statement, `pass` or `...`.
pub open spec fn stub_body(b: Seq<StubStmt>) -> bool {
    let e = if b.len() >= 2 && b[0] == StubStmt::Docstring {
        b.skip(1)
    } else {
        b
    };
    e.len() == 1 && (e[0] == StubStmt::Pass || e[0] == StubStmt::Ellipsis)
}

fn is_stub_body(b: &Vec<StubStmt>) -> (r: bool)
    ensures
        r == stub_body(b@),
{
    let start: usize = if b.len() >= 2 && b[0] == StubStmt::Docstring {
        1
    } else {
        0
    };
    proof {
        if start == 1 {
            assert(b@.skip(1).len() == b@.len() - 1);
            assert(b@.len() - 1 == 1 ==> b@.skip(1)[0] == b@[1]);
        }
    }
    b.len() - start == 1 && (b[start] == StubStmt::Pass || b[start] == StubStmt::Ellipsis)
}

/// The abstract methods of a class with stub bodies.
pub open spec fn class_stubs(ms: Seq<SuperMethod>) -> Seq<Seq<char>>
    decreases ms.len(),
{
    if ms.len() == 0 {
        Seq::empty()
    } else if ms.last().is_abstract && stub_body(ms.last().shape@) {
        class_stubs(ms.drop_last()).push(ms.last().name@)
    } else {
        class_stubs(ms.drop_last())
    }
}

/// `collect_abstract_stub_methods`: the classes with stubs, each with them; a
/// later class of a name with stubs replaces an earlier one.
pub open spec fn stub_table(cs: Seq<SuperClass>) -> Seq<(Seq<char>, Seq<Seq<char>>)>
    decreases cs.len(),
{
    if cs.len() == 0 {
        Seq::empty()
    } else {
        let s = class_stubs(cs.last().methods@);
        if s.len() > 0 {
            assoc_insert(stub_table(cs.drop_last()), cs.last().name@, s)
        } else {
            stub_table(cs.drop_last())
        }
    }
}

/// `collect_class_bases`: each class with its plain bases; a later class of
/// a name replaces an earlier one.
pub open spec fn base_table(cs: Seq<SuperClass>) -> Seq<(Seq<char>, Seq<Seq<char>>)>
    decreases cs.len(),
{
    if cs.len() == 0 {
        Seq::empty()
    } else {
        assoc_insert(base_table(cs.drop_last()), cs.last().name@, views(cs.last().bases@))
    }
}

pub open spec fn stubs_of(st: Seq<(Seq<char>, Seq<Seq<char>>)>, b: Seq<char>) -> Seq<Seq<char>> {
    match assoc_get(st, b) {
        Some(s) => s,
        None => Seq::empty(),
    }
}

/// For each base: its stubs, then (within `n` steps) those collected from
/// its own bases.
pub open spec fn stubs_through(
    bt: Seq<(Seq<char>, Seq<Seq<char>>)>,
    st: Seq<(Seq<char>, Seq<Seq<char>>)>,
    bs: Seq<Seq<char>>,
    n: nat,
) -> Seq<Seq<char>>
    decreases n, bs.len(),
{
    if bs.len() == 0 {
        Seq::empty()
    } else {
        stubs_through(bt, st, bs.drop_last(), n) + stubs_of(st, bs.last()) + match assoc_get(bt, bs.last()) {
            Some(pb) => if n > 0 {
                stubs_through(bt, st, pb, (n - 1) as nat)
            } else {
                Seq::empty()
            },
            None => Seq::empty(),
        }
    }
}

/// The walk from the bases `bs` through the base table ends within `n`
/// steps.
pub open spec fn bases_end(bt: Seq<(Seq<char>, Seq<Seq<char>>)>, bs: Seq<Seq<char>>, n: nat) -> bool
    decreases n, bs.len(),
{
    bs.len() == 0 || (bases_end(bt, bs.drop_last(), n) && match assoc_get(bt, bs.last()) {
        Some(pb) => n > 0 && bases_end(bt, pb, (n - 1) as nat),
        None => true,
    })
}

/// No walk from a class through its bases comes back to it.
pub open spec fn super_walks_end(cs: Seq<SuperClass>) -> bool {
    forall|k: int| 0 <= k < cs.len() ==> bases_end(base_table(cs), views(#[trigger] cs[k].bases@), cs.len())
}

/// The walks the rule takes end: it walks the bases only when some class has
/// abstract stubs.
pub open spec fn super_walks_taken_end(cs: Seq<SuperClass>) -> bool {
    stub_table(cs).len() > 0 ==> super_walks_end(cs)
}

// ---------------------------------------------------------------------------
// The walk
// ---------------------------------------------------------------------------

/// `check_expr_for_super_call`: each `super().m(...)` with `m` among the
/// stubs, at the call's span, then what its arguments hold; the operands of
/// other expressions in order.
pub open spec fn expr_reports(e: SuperExpr, stubs: Seq<Seq<char>>) -> Seq<(Seq<char>, Span)>
    decreases e,
{
    match e {
        SuperExpr::Call { method, args, span } => (match method {
            Some(m) => if stubs.contains(m@) {
                seq![(m@, span)]
            } else {
                Seq::empty()
            },
            None => Seq::empty(),
        }) + exprs_reports(args@, stubs),
        SuperExpr::Operands(es) => exprs_reports(es@, stubs),
        SuperExpr::Other => Seq::empty(),
    }
}

pub open spec fn exprs_reports(es: Seq<SuperExpr>, stubs: Seq<Seq<char>>) -> Seq<(Seq<char>, Span)>
    decreases es,
{
    if es.len() == 0 {
        Seq::empty()
    } else {
        exprs_reports(es.drop_last(), stubs) + expr_reports(es.last(), stubs)
    }
}

/// The calls `super().m()` of stub methods that one statement holds, in source order.
pub open spec fn stmt_reports(s: SuperStmt, stubs: Seq<Seq<char>>) -> Seq<(Seq<char>, Span)>
    decreases s,
{
    match s {
        SuperStmt::Holds(e) => expr_reports(e, stubs),
        SuperStmt::Compound(bodies) => bodies_reports(bodies@, stubs),
        SuperStmt::Other => Seq::empty(),
    }
}

pub open spec fn stmts_reports(ss: Seq<SuperStmt>, stubs: Seq<Seq<char>>) -> Seq<(Seq<char>, Span)>
    decreases ss,
{
    if ss.len() == 0 {
        Seq::empty()
    } else {
        stmts_reports(ss.drop_last(), stubs) + stmt_reports(ss.last(), stubs)
    }
}

pub open spec fn bodies_reports(bs: Seq<Vec<SuperStmt>>, stubs: Seq<Seq<char>>) -> Seq<(Seq<char>, Span)>
    decreases bs,
{
    if bs.len() == 0 {
        Seq::empty()
    } else {
        bodies_reports(bs.drop_last(), stubs) + stmts_reports(bs.last()@, stubs)
    }
}

/// A `super().m(...)` call of a stub, at the call's span.
pub struct SuperStubCall {
    pub method: Vec<char>,
    pub span: Span,
}

impl SuperStubCall {
    /// The finding's message.
    pub fn message(&self) -> (r: Vec<char>)
        ensures
            r@ == "Cannot call `super()."@ + self.method@ + "()`: the method is abstract with no default implementation"@,
    {
        let mut m = crate::text::chars_of("Cannot call `super().");
        crate::text::push_chars(&mut m, self.method.as_slice());
        crate::text::push_lit(&mut m, "()`: the method is abstract with no default implementation");
        m
    }
}

pub open spec fn calls_view(v: Seq<SuperStubCall>) -> Seq<(Seq<char>, Span)> {
    v.map_values(|c: SuperStubCall| (c.method@, c.span))
}

pub fn check_expr_for_super_call(e: &SuperExpr, stubs: &Vec<Vec<char>>, out: &mut Vec<SuperStubCall>)
    ensures
        calls_view(final(out)@) == calls_view(old(out)@) + expr_reports(*e, views(stubs@)),
    decreases e,
{
    let ghost start = calls_view(out@);
    match e {
        SuperExpr::Call { method, args, span } => {
            match method {
                Some(m) => {
                    if contains_name(stubs, m.as_slice()) {
                        let ghost mv = m@;
                        out.push(SuperStubCall { method: copy_text(m.as_slice()), span: *span });
                        proof {
                            assert(calls_view(out@) =~= start + seq![(mv, *span)]);
                        }
                    } else {
                        assert(calls_view(out@) =~= start + Seq::empty());
                    }
                },
                None => {
                    assert(calls_view(out@) =~= start + Seq::empty());
                },
            }
            let ghost mid = calls_view(out@);
            proof {
                assert(decreases_to!(*e => e->Call_args));
            }
            check_exprs_for_super_calls(args, stubs, out);
            proof {
                assert(calls_view(out@) =~= start + expr_reports(*e, views(stubs@)));
            }
        },
        SuperExpr::Operands(es) => {
            proof {
                assert(decreases_to!(*e => e->Operands_0));
            }
            check_exprs_for_super_calls(es, stubs, out);
        },
        SuperExpr::Other => {
            assert(calls_view(out@) =~= start + Seq::empty());
        },
    }
}

fn check_exprs_for_super_calls(es: &Vec<SuperExpr>, stubs: &Vec<Vec<char>>, out: &mut Vec<SuperStubCall>)
    ensures
        calls_view(final(out)@) == calls_view(old(out)@) + exprs_reports(es@, views(stubs@)),
    decreases es,
{
    let ghost start = calls_view(out@);
    let mut i: usize = 0;
    while i < es.len()
        invariant
            i <= es@.len(),
            calls_view(out@) == start + exprs_reports(es@.take(i as int), views(stubs@)),
        decreases es.len() - i,
    {
        proof {
            vstd::std_specs::vec::axiom_vec_index_decreases(*es, i as int);
            assert(es@.take(i + 1).drop_last() =~= es@.take(i as int));
        }
        check_expr_for_super_call(&es[i], stubs, out);
        proof {
            assert(es@.take(i + 1).last() == es@[i as int]);
            assert(calls_view(out@) =~= start + exprs_reports(es@.take(i + 1), views(stubs@)));
        }
        i += 1;
    }
    proof {
        assert(es@.take(i as int) =~= es@);
    }
}

fn check_stmt_for_super_calls(s: &SuperStmt, stubs: &Vec<Vec<char>>, out: &mut Vec<SuperStubCall>)
    ensures
        calls_view(final(out)@) == calls_view(old(out)@) + stmt_reports(*s, views(stubs@)),
    decreases s,
{
    match s {
        SuperStmt::Holds(e) => check_expr_for_super_call(e, stubs, out),
        SuperStmt::Compound(bodies) => {
            let ghost start = calls_view(out@);
            let mut i: usize = 0;
            while i < bodies.len()
                invariant
                    i <= bodies@.len(),
                    s == SuperStmt::Compound(*bodies),
                    calls_view(out@) == start + bodies_reports(bodies@.take(i as int), views(stubs@)),
                decreases bodies.len() - i,
            {
                proof {
                    assert(decreases_to!(*s => s->Compound_0));
                    vstd::std_specs::vec::axiom_vec_index_decreases(*bodies, i as int);
                    assert(bodies@.take(i + 1).drop_last() =~= bodies@.take(i as int));
                }
                find_super_calls(&bodies[i], stubs, out);
                proof {
                    assert(bodies@.take(i + 1).last() == bodies@[i as int]);
                    assert(calls_view(out@) =~= start + bodies_reports(bodies@.take(i + 1), views(stubs@)));
                }
                i += 1;
            }
            proof {
                assert(bodies@.take(i as int) =~= bodies@);
            }
        },
        SuperStmt::Other => {
            assert(calls_view(out@) =~= calls_view(out@) + Seq::empty());
        },
    }
}

/// Appends the calls `super().m()` of stub methods that a body holds, in source order.
pub fn find_super_calls(ss: &Vec<SuperStmt>, stubs: &Vec<Vec<char>>, out: &mut Vec<SuperStubCall>)
    ensures
        calls_view(final(out)@) == calls_view(old(out)@) + stmts_reports(ss@, views(stubs@)),
    decreases ss,
{
    let ghost start = calls_view(out@);
    let mut i: usize = 0;
    while i < ss.len()
        invariant
            i <= ss@.len(),
            calls_view(out@) == start + stmts_reports(ss@.take(i as int), views(stubs@)),
        decreases ss.len() - i,
    {
        proof {
            vstd::std_specs::vec::axiom_vec_index_decreases(*ss, i as int);
            assert(ss@.take(i + 1).drop_last() =~= ss@.take(i as int));
        }
        check_stmt_for_super_calls(&ss[i], stubs, out);
        proof {
            assert(ss@.take(i + 1).last() == ss@[i as int]);
            assert(calls_view(out@) =~= start + stmts_reports(ss@.take(i + 1), views(stubs@)));
        }
        i += 1;
    }
    proof {
        assert(ss@.take(i as int) =~= ss@);
    }
}

// ---------------------------------------------------------------------------
// The module
// ---------------------------------------------------------------------------

pub open spec fn tview(t: Seq<(Vec<char>, Vec<Vec<char>>)>) -> Seq<(Seq<char>, Seq<Seq<char>>)> {
    t.map_values(|e: (Vec<char>, Vec<Vec<char>>)| (e.0@, views(e.1@)))
}

fn table_insert(t: &mut Vec<(Vec<char>, Vec<Vec<char>>)>, k: Vec<char>, v: Vec<Vec<char>>)
    ensures
        tview(final(t)@) == assoc_insert(tview(old(t)@), k@, views(v@)),
{
    let ghost tv = tview(t@);
    let f = assoc_find(t, k.as_slice());
    proof {
        assert forall|j: int| 0 <= j < t@.len() implies tv[j].0 == t@[j].0@ by {}
        lemma_found_index(t@, tv, k@, f);
    }
    let ghost kv = k@;
    let ghost vv = views(v@);
    match f {
        Some(i) => {
            t.set(i, (k, v));
            proof {
                assert(tview(t@) =~= tv.update(i as int, (kv, vv)));
            }
        },
        None => {
            t.push((k, v));
            proof {
                assert(tview(t@) =~= tv.push((kv, vv)));
            }
        },
    }
}

fn table_get<'a>(t: &'a Vec<(Vec<char>, Vec<Vec<char>>)>, k: &[char]) -> (r: Option<&'a Vec<Vec<char>>>)
    ensures
        match r {
            Some(v) => assoc_get(tview(t@), k@) == Some(views(v@)),
            None => assoc_get(tview(t@), k@) is None,
        },
{
    let ghost tv = tview(t@);
    let f = assoc_find(t, k);
    proof {
        assert forall|j: int| 0 <= j < t@.len() implies tv[j].0 == t@[j].0@ by {}
        lemma_found_index(t@, tv, k@, f);
    }
    match f {
        Some(i) => Some(&t[i].1),
        None => None,
    }
}

fn copy_names(v: &Vec<Vec<char>>) -> (r: Vec<Vec<char>>)
    ensures
        views(r@) == views(v@),
{
    let mut out: Vec<Vec<char>> = Vec::new();
    let mut i: usize = 0;
    while i < v.len()
        invariant
            i <= v@.len(),
            views(out@) == views(v@).take(i as int),
        decreases v.len() - i,
    {
        let x = copy_text(v[i].as_slice());
        let ghost before = views(out@);
        let ghost xv = x@;
        out.push(x);
        proof {
            assert(views(out@) =~= before.push(xv));
            assert(views(v@).take(i + 1) =~= views(v@).take(i as int).push(v@[i as int]@));
        }
        i += 1;
    }
    proof {
        assert(views(v@).take(i as int) =~= views(v@));
    }
    out
}

fn method_stubs(ms: &Vec<SuperMethod>) -> (r: Vec<Vec<char>>)
    ensures
        views(r@) == class_stubs(ms@),
{
    let mut out: Vec<Vec<char>> = Vec::new();
    let mut i: usize = 0;
    while i < ms.len()
        invariant
            i <= ms@.len(),
            views(out@) == class_stubs(ms@.take(i as int)),
        decreases ms.len() - i,
    {
        proof {
            assert(ms@.take(i + 1).drop_last() =~= ms@.take(i as int));
            assert(ms@.take(i + 1).last() == ms@[i as int]);
        }
        if ms[i].is_abstract && is_stub_body(&ms[i].shape) {
            let x = copy_text(ms[i].name.as_slice());
            let ghost before = views(out@);
            let ghost xv = x@;
            out.push(x);
            proof {
                assert(views(out@) =~= before.push(xv));
            }
        }
        i += 1;
    }
    proof {
        assert(ms@.take(i as int) =~= ms@);
    }
    out
}

fn build_tables(cs: &Vec<SuperClass>) -> (r: (Vec<(Vec<char>, Vec<Vec<char>>)>, Vec<(Vec<char>, Vec<Vec<char>>)>))
    ensures
        tview(r.0@) == stub_table(cs@),
        tview(r.1@) == base_table(cs@),
{
    let mut st: Vec<(Vec<char>, Vec<Vec<char>>)> = Vec::new();
    let mut bt: Vec<(Vec<char>, Vec<Vec<char>>)> = Vec::new();
    let mut i: usize = 0;
    while i < cs.len()
        invariant
            i <= cs@.len(),
            tview(st@) == stub_table(cs@.take(i as int)),
            tview(bt@) == base_table(cs@.take(i as int)),
        decreases cs.len() - i,
    {
        proof {
            assert(cs@.take(i + 1).drop_last() =~= cs@.take(i as int));
            assert(cs@.take(i + 1).last() == cs@[i as int]);
        }
        let stubs = method_stubs(&cs[i].methods);
        if stubs.len() > 0 {
            table_insert(&mut st, copy_text(cs[i].name.as_slice()), stubs);
        }
        table_insert(&mut bt, copy_text(cs[i].name.as_slice()), copy_names(&cs[i].bases));
        i += 1;
    }
    proof {
        assert(cs@.take(i as int) =~= cs@);
    }
    (st, bt)
}

fn append_names(out: &mut Vec<Vec<char>>, v: &Vec<Vec<char>>)
    ensures
        views(final(out)@) == views(old(out)@) + views(v@),
{
    let ghost start = views(out@);
    let mut i: usize = 0;
    while i < v.len()
        invariant
            i <= v@.len(),
            views(out@) == start + views(v@).take(i as int),
        decreases v.len() - i,
    {
        let x = copy_text(v[i].as_slice());
        let ghost before = views(out@);
        let ghost xv = x@;
        out.push(x);
        proof {
            assert(views(out@) =~= before.push(xv));
            assert(start + views(v@).take(i + 1) =~= before.push(xv));
        }
        i += 1;
    }
    proof {
        assert(views(v@).take(i as int) =~= views(v@));
    }
}

proof fn lemma_bases_end(bt: Seq<(Seq<char>, Seq<Seq<char>>)>, bs: Seq<Seq<char>>, n: nat, k: int)
    requires
        bases_end(bt, bs, n),
        0 <= k < bs.len(),
    ensures
        match assoc_get(bt, bs[k]) {
            Some(pb) => n > 0 && bases_end(bt, pb, (n - 1) as nat),
            None => true,
        },
    decreases bs.len(),
{
    if k < bs.len() - 1 {
        assert(bs.drop_last()[k] == bs[k]);
        lemma_bases_end(bt, bs.drop_last(), n, k);
    }
}

/// `collect_transitive_stubs` from the bases `bs`, each base's own stubs
/// first.
fn collect_stubs_through(
    bs: &Vec<Vec<char>>,
    bt: &Vec<(Vec<char>, Vec<Vec<char>>)>,
    st: &Vec<(Vec<char>, Vec<Vec<char>>)>,
    out: &mut Vec<Vec<char>>,
    Ghost(n): Ghost<nat>,
)
    requires
        bases_end(tview(bt@), views(bs@), n),
    ensures
        views(final(out)@) == views(old(out)@) + stubs_through(tview(bt@), tview(st@), views(bs@), n),
    decreases n,
{
    let ghost bv = views(bs@);
    let ghost btv = tview(bt@);
    let ghost stv = tview(st@);
    let ghost start = views(out@);
    let mut j: usize = 0;
    proof {
        assert(bv.take(0) =~= Seq::<Seq<char>>::empty());
    }
    while j < bs.len()
        invariant
            j <= bs@.len(),
            bv == views(bs@),
            btv == tview(bt@),
            stv == tview(st@),
            bases_end(btv, bv, n),
            views(out@) == start + stubs_through(btv, stv, bv.take(j as int), n),
        decreases bs.len() - j,
    {
        proof {
            assert(bv.take(j + 1).drop_last() =~= bv.take(j as int));
            assert(bv.take(j + 1).last() == bs@[j as int]@);
            lemma_bases_end(btv, bv, n, j as int);
        }
        let ghost before = views(out@);
        match table_get(st, bs[j].as_slice()) {
            Some(s) => append_names(out, s),
            None => {
                assert(views(out@) =~= before + Seq::<Seq<char>>::empty());
            },
        }
        let ghost mid = views(out@);
        match table_get(bt, bs[j].as_slice()) {
            Some(pb) => {
                proof {
                    assert(bv[j as int] == bs@[j as int]@);
                    assert(n > 0);
                }
                collect_stubs_through(pb, bt, st, out, Ghost((n - 1) as nat));
            },
            None => {
                assert(views(out@) =~= mid + Seq::<Seq<char>>::empty());
            },
        }
        proof {
            assert(views(out@) =~= start + stubs_through(btv, stv, bv.take(j + 1), n));
        }
        j += 1;
    }
    proof {
        assert(bv.take(j as int) =~= bv);
    }
}

pub open spec fn methods_reports(ms: Seq<SuperMethod>, stubs: Seq<Seq<char>>) -> Seq<(Seq<char>, Span)>
    decreases ms.len(),
{
    if ms.len() == 0 {
        Seq::empty()
    } else {
        methods_reports(ms.drop_last(), stubs) + stmts_reports(ms.last().body@, stubs)
    }
}

/// The stubs a class's methods may not reach through `super()`, and those
/// calls in its methods.
pub open spec fn class_reports(cs: Seq<SuperClass>, k: int) -> Seq<(Seq<char>, Span)> {
    let p = stubs_through(base_table(cs), stub_table(cs), views(cs[k].bases@), cs.len());
    if p.len() == 0 {
        Seq::empty()
    } else {
        methods_reports(cs[k].methods@, p)
    }
}

pub open spec fn classes_reports(cs: Seq<SuperClass>, n: int) -> Seq<(Seq<char>, Span)>
    decreases n,
{
    if n <= 0 {
        Seq::empty()
    } else {
        classes_reports(cs, n - 1) + class_reports(cs, n - 1)
    }
}

/// What the rule reports: nothing when no class has abstract stubs; else the
/// calls of each class in turn.
pub open spec fn super_reports(cs: Seq<SuperClass>) -> Seq<(Seq<char>, Span)> {
    if stub_table(cs).len() == 0 {
        Seq::empty()
    } else {
        classes_reports(cs, cs.len() as int)
    }
}

/// `super()` calls of abstract methods without an implementation.
pub struct SuperAbstractCall;

impl SuperAbstractCall {
    pub fn check(&self, classes: &Vec<SuperClass>) -> (r: Vec<SuperStubCall>)
        requires
            super_walks_taken_end(classes@),
        ensures
            calls_view(r@) == super_reports(classes@),
    {
        let mut out: Vec<SuperStubCall> = Vec::new();
        let (st, bt) = build_tables(classes);
        if st.len() == 0 {
            assert(calls_view(out@) =~= Seq::empty());
            return out;
        }
        assert(stub_table(classes@).len() == st@.len());
        let mut k: usize = 0;
        while k < classes.len()
            invariant
                k <= classes@.len(),
                super_walks_end(classes@),
                tview(st@) == stub_table(classes@),
                tview(bt@) == base_table(classes@),
                calls_view(out@) == classes_reports(classes@, k as int),
            decreases classes.len() - k,
        {
            let c = &classes[k];
            let mut parent: Vec<Vec<char>> = Vec::new();
            proof {
                assert(bases_end(base_table(classes@), views(classes@[k as int].bases@), classes@.len()));
            }
            collect_stubs_through(&c.bases, &bt, &st, &mut parent, Ghost(classes@.len()));
            let ghost before = calls_view(out@);
            let ghost pv = views(parent@);
            proof {
                assert(pv =~= stubs_through(base_table(classes@), stub_table(classes@), views(c.bases@), classes@.len()));
            }
            if parent.len() > 0 {
                let mut m: usize = 0;
                while m < c.methods.len()
                    invariant
                        m <= c.methods@.len(),
                        pv == views(parent@),
                        calls_view(out@) == before + methods_reports(c.methods@.take(m as int), pv),
                    decreases c.methods.len() - m,
                {
                    proof {
                        assert(c.methods@.take(m + 1).drop_last() =~= c.methods@.take(m as int));
                        assert(c.methods@.take(m + 1).last() == c.methods@[m as int]);
                    }
                    let ghost b2 = calls_view(out@);
                    find_super_calls(&c.methods[m].body, &parent, &mut out);
                    proof {
                        assert(calls_view(out@) =~= before + methods_reports(c.methods@.take(m + 1), pv));
                    }
                    m += 1;
                }
                proof {
                    assert(c.methods@.take(m as int) =~= c.methods@);
                }
            }
            proof {
                assert(calls_view(out@) =~= classes_reports(classes@, k + 1));
            }
            k += 1;
        }
        proof {
            assert(stub_table(classes@).len() > 0);
        }
        out
    }
}

proof fn lemma_bases_end_prefix(bt: Seq<(Seq<char>, Seq<Seq<char>>)>, bs: Seq<Seq<char>>, n: nat, k: int)
    requires
        0 <= k <= bs.len(),
        !bases_end(bt, bs.take(k), n),
    ensures
        !bases_end(bt, bs, n),
    decreases bs.len() - k,
{
    if k < bs.len() {
        assert(bs.take(k + 1).drop_last() =~= bs.take(k));
        lemma_bases_end_prefix(bt, bs, n, k + 1);
    } else {
        assert(bs.take(k) =~= bs);
    }
}

fn bases_end_exec(bt: &Vec<(Vec<char>, Vec<Vec<char>>)>, bs: &Vec<Vec<char>>, n: usize) -> (r: bool)
    ensures
        r == bases_end(tview(bt@), views(bs@), n as nat),
    decreases n,
{
    let ghost bv = views(bs@);
    let ghost btv = tview(bt@);
    let mut j: usize = 0;
    proof {
        assert(bv.take(0) =~= Seq::<Seq<char>>::empty());
    }
    while j < bs.len()
        invariant
            j <= bs@.len(),
            bv == views(bs@),
            btv == tview(bt@),
            bases_end(btv, bv.take(j as int), n as nat),
        decreases bs.len() - j,
    {
        proof {
            assert(bv.take(j + 1).drop_last() =~= bv.take(j as int));
            assert(bv.take(j + 1).last() == bs@[j as int]@);
        }
        let ok = match table_get(bt, bs[j].as_slice()) {
            Some(pb) => n > 0 && bases_end_exec(bt, pb, n - 1),
            None => true,
        };
        if !ok {
            proof {
                assert(!bases_end(btv, bv.take(j + 1), n as nat));
                lemma_bases_end_prefix(btv, bv, n as nat, j + 1);
            }
            return false;
        }
        assert(bases_end(btv, bv.take(j + 1), n as nat));
        j += 1;
    }
    proof {
        assert(bv.take(j as int) =~= bv);
    }
    true
}

impl SuperAbstractCall {
    /// Whether `check` may be called: no class has abstract stubs, or no walk
    /// from a class through its bases comes back to it.
    pub fn can_check(&self, classes: &Vec<SuperClass>) -> (r: bool)
        ensures
            r == super_walks_taken_end(classes@),
    {
        let (st, bt) = build_tables(classes);
        if st.len() == 0 {
            return true;
        }
        assert(stub_table(classes@).len() == st@.len());
        let mut k: usize = 0;
        while k < classes.len()
            invariant
                k <= classes@.len(),
                stub_table(classes@).len() > 0,
                tview(bt@) == base_table(classes@),
                forall|q: int|
                    0 <= q < k ==> bases_end(base_table(classes@), views(#[trigger] classes@[q].bases@), classes@.len()),
            decreases classes.len() - k,
        {
            if !bases_end_exec(&bt, &classes[k].bases, classes.len()) {
                return false;
            }
            k += 1;
        }
        true
    }

    /// `check` where the walks end, `None` where they do not.
    pub fn check_if_walks_end(&self, classes: &Vec<SuperClass>) -> (r: Option<Vec<SuperStubCall>>)
        ensures
            r is None <==> !super_walks_taken_end(classes@),
            r matches Some(v) ==> calls_view(v@) == super_reports(classes@),
    {
        if self.can_check(classes) {
            Some(self.check(classes))
        } else {
            None
        }
    }
}

} // verus!
