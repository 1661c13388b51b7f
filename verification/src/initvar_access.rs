//! Module-level reads of a dataclass's `InitVar` fields through a variable
//! assigned an instance: `p = Point(1, 2)` then `p.scale`. `InitVar` fields
//! are passed to `__post_init__` and never stored on the instance.
//!
//! The module is given by the parts the check reads: the dataclasses, the
//! module-level variables assigned a call with the name the call calls, and
//! the module's statements and expressions as the walk reads them.
use vstd::prelude::*;

use crate::assoc::{assoc_find, assoc_get, assoc_insert, lemma_found_index};
use crate::initvar::DataclassInfo;
use crate::module::copy_text;
use crate::names::contains_name;
use crate::position::Span;
use crate::text::views;

verus! {

/// A module-level variable assigned a call, with the name of the class the
/// call calls, where it calls one.
pub struct CallVar {
    pub name: Vec<char>,
    pub callee: Option<Vec<char>>,
}

/// An expression as the walk reads it.
pub enum AccessExpr {
    Name { id: Vec<char> },
    Attribute { value: Box<AccessExpr>, attr: Vec<char>, span: Span },
    /// A call (callee, arguments, keyword values), tuple, list or binary
    /// operation: its parts in order.
    Parts(Vec<AccessExpr>),
    Other,
}

/// An `elif` or `else` clause.
pub struct AccessClause {
    pub test: Option<AccessExpr>,
    pub body: Vec<AccessStmt>,
}

/// A statement as the walk reads it.
pub enum AccessStmt {
    /// An expression statement, an assignment, or an annotated assignment
    /// with a value: the expression.
    Holds(AccessExpr),
    If { test: AccessExpr, body: Vec<AccessStmt>, clauses: Vec<AccessClause> },
    Other,
}

// ---------------------------------------------------------------------------
// Tables
// ---------------------------------------------------------------------------

pub open spec fn initvar_names(fs: Seq<crate::initvar::InitVarField>) -> Seq<Seq<char>>
    decreases fs.len(),
{
    if fs.len() == 0 {
        Seq::empty()
    } else if fs.last().is_init_var {
        initvar_names(fs.drop_last()).push(fs.last().name@)
    } else {
        initvar_names(fs.drop_last())
    }
}

/// The dataclasses with `InitVar` fields, each with their names; a later
/// class of a name replaces an earlier one.
pub open spec fn initvar_table(cs: Seq<DataclassInfo>) -> Seq<(Seq<char>, Seq<Seq<char>>)>
    decreases cs.len(),
{
    if cs.len() == 0 {
        Seq::empty()
    } else {
        let prev = initvar_table(cs.drop_last());
        let c = cs.last();
        let ns = initvar_names(c.attributes@);
        if c.is_dataclass && ns.len() > 0 {
            assoc_insert(prev, c.name@, ns)
        } else {
            prev
        }
    }
}

/// The variables bound to an instance of a class of the table, with it; a
/// later variable of a name replaces an earlier one.
pub open spec fn instance_vars(vs: Seq<CallVar>, t: Seq<(Seq<char>, Seq<Seq<char>>)>) -> Seq<
    (Seq<char>, Seq<char>),
>
    decreases vs.len(),
{
    if vs.len() == 0 {
        Seq::empty()
    } else {
        let prev = instance_vars(vs.drop_last(), t);
        match vs.last().callee {
            Some(c) => if assoc_get(t, c@) is Some {
                assoc_insert(prev, vs.last().name@, c@)
            } else {
                prev
            },
            None => prev,
        }
    }
}

pub open spec fn tview(t: Seq<(Vec<char>, Vec<Vec<char>>)>) -> Seq<(Seq<char>, Seq<Seq<char>>)> {
    t.map_values(|e: (Vec<char>, Vec<Vec<char>>)| (e.0@, views(e.1@)))
}

pub open spec fn vview(t: Seq<(Vec<char>, Vec<char>)>) -> Seq<(Seq<char>, Seq<char>)> {
    t.map_values(|e: (Vec<char>, Vec<char>)| (e.0@, e.1@))
}

fn build_initvar_table(cs: &Vec<DataclassInfo>) -> (r: Vec<(Vec<char>, Vec<Vec<char>>)>)
    ensures
        tview(r@) == initvar_table(cs@),
{
    let mut t: Vec<(Vec<char>, Vec<Vec<char>>)> = Vec::new();
    let mut i: usize = 0;
    while i < cs.len()
        invariant
            i <= cs@.len(),
            tview(t@) == initvar_table(cs@.take(i as int)),
        decreases cs.len() - i,
    {
        proof {
            assert(cs@.take(i + 1).drop_last() =~= cs@.take(i as int));
            assert(cs@.take(i + 1).last() == cs@[i as int]);
        }
        let c = &cs[i];
        let mut ns: Vec<Vec<char>> = Vec::new();
        let mut k: usize = 0;
        while k < c.attributes.len()
            invariant
                k <= c.attributes@.len(),
                views(ns@) == initvar_names(c.attributes@.take(k as int)),
            decreases c.attributes.len() - k,
        {
            proof {
                assert(c.attributes@.take(k + 1).drop_last() =~= c.attributes@.take(k as int));
                assert(c.attributes@.take(k + 1).last() == c.attributes@[k as int]);
            }
            if c.attributes[k].is_init_var {
                let x = copy_text(c.attributes[k].name.as_slice());
                let ghost before = views(ns@);
                let ghost xv = x@;
                ns.push(x);
                proof {
                    assert(views(ns@) =~= before.push(xv));
                }
            }
            k += 1;
        }
        proof {
            assert(c.attributes@.take(k as int) =~= c.attributes@);
        }
        if c.is_dataclass && ns.len() > 0 {
            let ghost tv = tview(t@);
            let key = copy_text(c.name.as_slice());
            let f = assoc_find(&t, key.as_slice());
            proof {
                assert forall|j: int| 0 <= j < t@.len() implies tv[j].0 == t@[j].0@ by {}
                lemma_found_index(t@, tv, key@, f);
            }
            let ghost kv = key@;
            let ghost nv = views(ns@);
            match f {
                Some(j) => {
                    t.set(j, (key, ns));
                    proof {
                        assert(tview(t@) =~= tv.update(j as int, (kv, nv)));
                    }
                },
                None => {
                    t.push((key, ns));
                    proof {
                        assert(tview(t@) =~= tv.push((kv, nv)));
                    }
                },
            }
        }
        i += 1;
    }
    proof {
        assert(cs@.take(i as int) =~= cs@);
    }
    t
}

fn table_get<'a>(t: &'a Vec<(Vec<char>, Vec<Vec<char>>)>, k: &[char]) -> (r: Option<&'a Vec<Vec<char>>>)
    ensures
        match r {
            Some(v) => assoc_get(tview(t@), k@) == Some(views(v@)),
            None => assoc_get(tview(t@), k@) is None,
        },
{
    let ghost tv = tview(t@);
    let f = assoc_find(t, k);
    proof {
        assert forall|j: int| 0 <= j < t@.len() implies tv[j].0 == t@[j].0@ by {}
        lemma_found_index(t@, tv, k@, f);
    }
    match f {
        Some(i) => Some(&t[i].1),
        None => None,
    }
}

fn var_get<'a>(t: &'a Vec<(Vec<char>, Vec<char>)>, k: &[char]) -> (r: Option<&'a Vec<char>>)
    ensures
        match r {
            Some(v) => assoc_get(vview(t@), k@) == Some(v@),
            None => assoc_get(vview(t@), k@) is None,
        },
{
    let ghost tv = vview(t@);
    let f = assoc_find(t, k);
    proof {
        assert forall|j: int| 0 <= j < t@.len() implies tv[j].0 == t@[j].0@ by {}
        lemma_found_index(t@, tv, k@, f);
    }
    match f {
        Some(i) => Some(&t[i].1),
        None => None,
    }
}

fn build_instance_vars(vs: &Vec<CallVar>, t: &Vec<(Vec<char>, Vec<Vec<char>>)>) -> (r: Vec<(Vec<char>, Vec<char>)>)
    ensures
        vview(r@) == instance_vars(vs@, tview(t@)),
{
    let ghost tv = tview(t@);
    let mut m: Vec<(Vec<char>, Vec<char>)> = Vec::new();
    let mut i: usize = 0;
    while i < vs.len()
        invariant
            i <= vs@.len(),
            tv == tview(t@),
            vview(m@) == instance_vars(vs@.take(i as int), tv),
        decreases vs.len() - i,
    {
        proof {
            assert(vs@.take(i + 1).drop_last() =~= vs@.take(i as int));
            assert(vs@.take(i + 1).last() == vs@[i as int]);
        }
        if let Some(c) = &vs[i].callee {
            if table_get(t, c.as_slice()).is_some() {
                let ghost mv = vview(m@);
                let key = copy_text(vs[i].name.as_slice());
                let f = assoc_find(&m, key.as_slice());
                proof {
                    assert forall|j: int| 0 <= j < m@.len() implies mv[j].0 == m@[j].0@ by {}
                    lemma_found_index(m@, mv, key@, f);
                }
                let val = copy_text(c.as_slice());
                let ghost kv = key@;
                let ghost cv = val@;
                match f {
                    Some(j) => {
                        m.set(j, (key, val));
                        proof {
                            assert(vview(m@) =~= mv.update(j as int, (kv, cv)));
                        }
                    },
                    None => {
                        m.push((key, val));
                        proof {
                            assert(vview(m@) =~= mv.push((kv, cv)));
                        }
                    },
                }
            }
        }
        i += 1;
    }
    proof {
        assert(vs@.take(i as int) =~= vs@);
    }
    m
}

// ---------------------------------------------------------------------------
// The walk
// ---------------------------------------------------------------------------

/// `var.attr` where `var` is bound to an instance of a class whose `InitVar`
/// fields hold `attr`.
pub open spec fn hit(
    value: AccessExpr,
    attr: Seq<char>,
    vm: Seq<(Seq<char>, Seq<char>)>,
    t: Seq<(Seq<char>, Seq<Seq<char>>)>,
) -> bool {
    match value {
        AccessExpr::Name { id } => match assoc_get(vm, id@) {
            Some(c) => match assoc_get(t, c) {
                Some(fs) => fs.contains(attr),
                None => false,
            },
            None => false,
        },
        _ => false,
    }
}

/// `check_expr_for_initvar_access`: a read of an `InitVar` field, with the
/// variable, the field and the span of `var.attr`; else what the object
/// holds; else what the parts hold, in order.
pub open spec fn expr_reports(
    e: AccessExpr,
    vm: Seq<(Seq<char>, Seq<char>)>,
    t: Seq<(Seq<char>, Seq<Seq<char>>)>,
) -> Seq<(Seq<char>, Seq<char>, Span)>
    decreases e,
{
    match e {
        AccessExpr::Attribute { value, attr, span } => if hit(*value, attr@, vm, t) {
            seq![(value->id@, attr@, span)]
        } else {
            expr_reports(*value, vm, t)
        },
        AccessExpr::Parts(es) => exprs_reports(es@, vm, t),
        _ => Seq::empty(),
    }
}

pub open spec fn exprs_reports(
    es: Seq<AccessExpr>,
    vm: Seq<(Seq<char>, Seq<char>)>,
    t: Seq<(Seq<char>, Seq<Seq<char>>)>,
) -> Seq<(Seq<char>, Seq<char>, Span)>
    decreases es,
{
    if es.len() == 0 {
        Seq::empty()
    } else {
        exprs_reports(es.drop_last(), vm, t) + expr_reports(es.last(), vm, t)
    }
}

/// The `InitVar` reads that one statement of the body holds, in source order.
pub open spec fn stmt_reports(
    s: AccessStmt,
    vm: Seq<(Seq<char>, Seq<char>)>,
    t: Seq<(Seq<char>, Seq<Seq<char>>)>,
) -> Seq<(Seq<char>, Seq<char>, Span)>
    decreases s,
{
    match s {
        AccessStmt::Holds(e) => expr_reports(e, vm, t),
        AccessStmt::If { test, body, clauses } => expr_reports(test, vm, t) + stmts_reports(body@, vm, t)
            + clauses_reports(clauses@, vm, t),
        AccessStmt::Other => Seq::empty(),
    }
}

pub open spec fn stmts_reports(
    ss: Seq<AccessStmt>,
    vm: Seq<(Seq<char>, Seq<char>)>,
    t: Seq<(Seq<char>, Seq<Seq<char>>)>,
) -> Seq<(Seq<char>, Seq<char>, Span)>
    decreases ss,
{
    if ss.len() == 0 {
        Seq::empty()
    } else {
        stmts_reports(ss.drop_last(), vm, t) + stmt_reports(ss.last(), vm, t)
    }
}

pub open spec fn clauses_reports(
    cls: Seq<AccessClause>,
    vm: Seq<(Seq<char>, Seq<char>)>,
    t: Seq<(Seq<char>, Seq<Seq<char>>)>,
) -> Seq<(Seq<char>, Seq<char>, Span)>
    decreases cls,
{
    if cls.len() == 0 {
        Seq::empty()
    } else {
        let c = cls.last();
        clauses_reports(cls.drop_last(), vm, t) + (match c.test {
            Some(e) => expr_reports(e, vm, t),
            None => Seq::empty(),
        }) + stmts_reports(c.body@, vm, t)
    }
}

/// A read of an `InitVar` field.
pub struct InitVarRead {
    pub var: Vec<char>,
    pub field: Vec<char>,
    pub span: Span,
}

impl InitVarRead {
    /// The finding's message.
    pub fn message(&self) -> (r: Vec<char>)
        ensures
            r@ == "Cannot access `InitVar` field `"@ + self.field@ + "` on `"@ + self.var@ + "`: `InitVar` fields are not stored as instance attributes"@,
    {
        let mut m = crate::text::chars_of("Cannot access `InitVar` field `");
        crate::text::push_chars(&mut m, self.field.as_slice());
        crate::text::push_lit(&mut m, "` on `");
        crate::text::push_chars(&mut m, self.var.as_slice());
        crate::text::push_lit(&mut m, "`: `InitVar` fields are not stored as instance attributes");
        m
    }
}

pub open spec fn reads_view(v: Seq<InitVarRead>) -> Seq<(Seq<char>, Seq<char>, Span)> {
    v.map_values(|r: InitVarRead| (r.var@, r.field@, r.span))
}

pub fn check_expr_for_initvar_access(
    e: &AccessExpr,
    vm: &Vec<(Vec<char>, Vec<char>)>,
    t: &Vec<(Vec<char>, Vec<Vec<char>>)>,
    out: &mut Vec<InitVarRead>,
)
    ensures
        reads_view(final(out)@) == reads_view(old(out)@) + expr_reports(*e, vview(vm@), tview(t@)),
    decreases e,
{
    let ghost start = reads_view(out@);
    match e {
        AccessExpr::Attribute { value, attr, span } => {
            if let AccessExpr::Name { id } = &**value {
                if let Some(c) = var_get(vm, id.as_slice()) {
                    if let Some(fs) = table_get(t, c.as_slice()) {
                        if contains_name(fs, attr.as_slice()) {
                            let ghost iv = id@;
                            let ghost av = attr@;
                            out.push(InitVarRead { var: copy_text(id.as_slice()), field: copy_text(attr.as_slice()), span: *span });
                            proof {
                                assert(reads_view(out@) =~= start + seq![(iv, av, *span)]);
                            }
                            return;
                        }
                    }
                }
            }
            check_expr_for_initvar_access(value, vm, t, out);
        },
        AccessExpr::Parts(es) => {
            proof {
                assert(decreases_to!(*e => e->Parts_0));
            }
            check_exprs(es, vm, t, out);
        },
        _ => {
            assert(reads_view(out@) =~= start + Seq::empty());
        },
    }
}

fn check_exprs(
    es: &Vec<AccessExpr>,
    vm: &Vec<(Vec<char>, Vec<char>)>,
    t: &Vec<(Vec<char>, Vec<Vec<char>>)>,
    out: &mut Vec<InitVarRead>,
)
    ensures
        reads_view(final(out)@) == reads_view(old(out)@) + exprs_reports(es@, vview(vm@), tview(t@)),
    decreases es,
{
    let ghost start = reads_view(out@);
    let mut i: usize = 0;
    while i < es.len()
        invariant
            i <= es@.len(),
            reads_view(out@) == start + exprs_reports(es@.take(i as int), vview(vm@), tview(t@)),
        decreases es.len() - i,
    {
        proof {
            vstd::std_specs::vec::axiom_vec_index_decreases(*es, i as int);
            assert(es@.take(i + 1).drop_last() =~= es@.take(i as int));
        }
        check_expr_for_initvar_access(&es[i], vm, t, out);
        proof {
            assert(es@.take(i + 1).last() == es@[i as int]);
            assert(reads_view(out@) =~= start + exprs_reports(es@.take(i + 1), vview(vm@), tview(t@)));
        }
        i += 1;
    }
    proof {
        assert(es@.take(i as int) =~= es@);
    }
}

pub fn check_stmt_for_initvar_access(
    s: &AccessStmt,
    vm: &Vec<(Vec<char>, Vec<char>)>,
    t: &Vec<(Vec<char>, Vec<Vec<char>>)>,
    out: &mut Vec<InitVarRead>,
)
    ensures
        reads_view(final(out)@) == reads_view(old(out)@) + stmt_reports(*s, vview(vm@), tview(t@)),
    decreases s,
{
    match s {
        AccessStmt::Holds(e) => check_expr_for_initvar_access(e, vm, t, out),
        AccessStmt::If { test, body, clauses } => {
            let ghost start = reads_view(out@);
            check_expr_for_initvar_access(test, vm, t, out);
            proof {
                assert(decreases_to!(*s => s->If_body));
            }
            check_stmts(body, vm, t, out);
            let ghost mid = reads_view(out@);
            let mut i: usize = 0;
            while i < clauses.len()
                invariant
                    i <= clauses@.len(),
                    *s == (AccessStmt::If { test: *test, body: *body, clauses: *clauses }),
                    reads_view(out@) == mid + clauses_reports(clauses@.take(i as int), vview(vm@), tview(t@)),
                decreases clauses.len() - i,
            {
                proof {
                    assert(decreases_to!(*s => s->If_clauses));
                    vstd::std_specs::vec::axiom_vec_index_decreases(*clauses, i as int);
                    assert(clauses@.take(i + 1).drop_last() =~= clauses@.take(i as int));
                }
                let c = &clauses[i];
                let ghost before = reads_view(out@);
                match &c.test {
                    Some(e) => {
                        check_expr_for_initvar_access(e, vm, t, out);
                    },
                    None => {},
                }
                proof {
                    assert(decreases_to!(clauses@[i as int] => clauses@[i as int].body));
                }
                check_stmts(&c.body, vm, t, out);
                proof {
                    assert(clauses@.take(i + 1).last() == clauses@[i as int]);
                    assert(reads_view(out@) =~= mid + clauses_reports(clauses@.take(i + 1), vview(vm@), tview(t@)));
                }
                i += 1;
            }
            proof {
                assert(clauses@.take(i as int) =~= clauses@);
                assert(reads_view(out@) =~= start + stmt_reports(*s, vview(vm@), tview(t@)));
            }
        },
        AccessStmt::Other => {
            assert(reads_view(out@) =~= reads_view(out@) + Seq::empty());
        },
    }
}

fn check_stmts(
    ss: &Vec<AccessStmt>,
    vm: &Vec<(Vec<char>, Vec<char>)>,
    t: &Vec<(Vec<char>, Vec<Vec<char>>)>,
    out: &mut Vec<InitVarRead>,
)
    ensures
        reads_view(final(out)@) == reads_view(old(out)@) + stmts_reports(ss@, vview(vm@), tview(t@)),
    decreases ss,
{
    let ghost start = reads_view(out@);
    let mut i: usize = 0;
    while i < ss.len()
        invariant
            i <= ss@.len(),
            reads_view(out@) == start + stmts_reports(ss@.take(i as int), vview(vm@), tview(t@)),
        decreases ss.len() - i,
    {
        proof {
            vstd::std_specs::vec::axiom_vec_index_decreases(*ss, i as int);
            assert(ss@.take(i + 1).drop_last() =~= ss@.take(i as int));
        }
        check_stmt_for_initvar_access(&ss[i], vm, t, out);
        proof {
            assert(ss@.take(i + 1).last() == ss@[i as int]);
            assert(reads_view(out@) =~= start + stmts_reports(ss@.take(i + 1), vview(vm@), tview(t@)));
        }
        i += 1;
    }
    proof {
        assert(ss@.take(i as int) =~= ss@);
    }
}

/// What `check_initvar_attribute_access` reports: nothing when no dataclass
/// has `InitVar` fields or no variable holds an instance of one; else the
/// reads in the module's statements, in order.
pub open spec fn initvar_access_reports(cs: Seq<DataclassInfo>, vs: Seq<CallVar>, body: Seq<AccessStmt>) -> Seq<
    (Seq<char>, Seq<char>, Span),
> {
    let t = initvar_table(cs);
    let vm = instance_vars(vs, t);
    if t.len() == 0 || vm.len() == 0 {
        Seq::empty()
    } else {
        stmts_reports(body, vm, t)
    }
}

/// Reports each read of an `InitVar` field through an instance of a dataclass, in source order.
pub fn check_initvar_attribute_access(
    classes: &Vec<DataclassInfo>,
    vars: &Vec<CallVar>,
    body: &Vec<AccessStmt>,
) -> (r: Vec<InitVarRead>)
    ensures
        reads_view(r@) == initvar_access_reports(classes@, vars@, body@),
{
    let mut out: Vec<InitVarRead> = Vec::new();
    let t = build_initvar_table(classes);
    if t.len() == 0 {
        assert(reads_view(out@) =~= Seq::empty());
        return out;
    }
    let vm = build_instance_vars(vars, &t);
    if vm.len() == 0 {
        assert(reads_view(out@) =~= Seq::empty());
        return out;
    }
    check_stmts(body, &vm, &t, &mut out);
    assert(reads_view(out@) =~= Seq::empty() + stmts_reports(body@, vview(vm@), tview(t@)));
    out
}

} // verus!
