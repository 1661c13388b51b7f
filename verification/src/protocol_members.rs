//! Protocol `__init__` / `__new__` methods that assign `self.attr` for an
//! `attr` the protocol does not declare.
use vstd::prelude::*;

use crate::ast::{Expr, ParamKind, Parameter, Stmt};
use crate::names::contains_name;
use crate::position::Span;
use crate::text::{chars_of, eq_chars, eq_str, views};

verus! {

/// What the rule reads of a class: its name, base names, annotated
/// attributes and method names.
pub struct ProtocolClassInfo {
    pub name: Vec<char>,
    pub bases: Vec<Vec<char>>,
    pub attributes: Vec<Vec<char>>,
    pub method_names: Vec<Vec<char>>,
}

/// `self.attr` assigned in `__init__` or `__new__` of a protocol that does
/// not declare `attr`; `span` is the attribute expression's.
pub struct UndeclaredMember {
    pub attr: Vec<char>,
    pub span: Span,
}

impl UndeclaredMember {
    /// The finding's message.
    pub fn message(&self) -> (r: Vec<char>)
        ensures
            r@ == "Protocol member `"@ + self.attr@ + "` is not declared in the Protocol body"@,
    {
        let mut m = crate::text::chars_of("Protocol member `");
        crate::text::push_chars(&mut m, self.attr.as_slice());
        crate::text::push_lit(&mut m, "` is not declared in the Protocol body");
        m
    }
}

pub open spec fn member_view(m: UndeclaredMember) -> (Seq<char>, Span) {
    (m.attr@, m.span)
}

pub open spec fn members_view(v: Seq<UndeclaredMember>) -> Seq<(Seq<char>, Span)> {
    v.map_values(|m: UndeclaredMember| member_view(m))
}

/// The names a protocol declares: its annotated attributes and its methods.
pub struct Declared {
    pub attrs: Seq<Seq<char>>,
    pub methods: Seq<Seq<char>>,
}

pub open spec fn is_declared(d: Declared, a: Seq<char>) -> bool {
    d.attrs.contains(a) || d.methods.contains(a)
}

/// `check_self_attr_target`: the finding for one assignment target.
pub open spec fn target_findings(t: Expr, self_param: Seq<char>, d: Declared) -> Seq<(Seq<char>, Span)> {
    match t {
        Expr::Attribute { value, attr, span } => match *value {
            Expr::Name { id, .. } => if id@ == self_param && !is_declared(d, attr@) {
                seq![(attr@, span)]
            } else {
                Seq::empty()
            },
            _ => Seq::empty(),
        },
        _ => Seq::empty(),
    }
}

pub open spec fn targets_findings(ts: Seq<Expr>, self_param: Seq<char>, d: Declared) -> Seq<
    (Seq<char>, Span),
>
    decreases ts.len(),
{
    if ts.len() == 0 {
        Seq::empty()
    } else {
        targets_findings(ts.drop_last(), self_param, d) + target_findings(ts.last(), self_param, d)
    }
}

/// `check_body_for_self_attrs` on one statement: assignment targets, and the
/// bodies of `if` (with its `elif`/`else` clauses), `for` and `while`.
pub open spec fn stmt_findings(s: Stmt, self_param: Seq<char>, d: Declared) -> Seq<(Seq<char>, Span)>
    decreases s,
{
    match s {
        Stmt::Assign { targets, .. } => targets_findings(targets@, self_param, d),
        Stmt::AnnAssign { target, .. } => target_findings(target, self_param, d),
        Stmt::AugAssign { target, .. } => target_findings(target, self_param, d),
        Stmt::If { body, clauses, .. } => stmts_findings(body@, self_param, d) + clauses_findings(
            clauses@,
            self_param,
            d,
        ),
        Stmt::For { body, .. } => stmts_findings(body@, self_param, d),
        Stmt::While { body, .. } => stmts_findings(body@, self_param, d),
        _ => Seq::empty(),
    }
}

pub open spec fn stmts_findings(ss: Seq<Stmt>, self_param: Seq<char>, d: Declared) -> Seq<
    (Seq<char>, Span),
>
    decreases ss,
{
    if ss.len() == 0 {
        Seq::empty()
    } else {
        stmts_findings(ss.drop_last(), self_param, d) + stmt_findings(ss.last(), self_param, d)
    }
}

pub open spec fn clauses_findings(cs: Seq<Vec<Stmt>>, self_param: Seq<char>, d: Declared) -> Seq<
    (Seq<char>, Span),
>
    decreases cs,
{
    if cs.len() == 0 {
        Seq::empty()
    } else {
        clauses_findings(cs.drop_last(), self_param, d) + stmts_findings(cs.last()@, self_param, d)
    }
}

/// No finding names a declared member.
pub open spec fn all_undeclared(fs: Seq<(Seq<char>, Span)>, d: Declared) -> bool {
    forall|k: int| 0 <= k < fs.len() ==> !is_declared(d, (#[trigger] fs[k]).0)
}

proof fn lemma_concat_undeclared(a: Seq<(Seq<char>, Span)>, b: Seq<(Seq<char>, Span)>, d: Declared)
    requires
        all_undeclared(a, d),
        all_undeclared(b, d),
    ensures
        all_undeclared(a + b, d),
{
    assert forall|k: int| 0 <= k < (a + b).len() implies !is_declared(d, (#[trigger] (a + b)[k]).0) by {
        if k < a.len() {
            assert((a + b)[k] == a[k]);
        } else {
            assert((a + b)[k] == b[k - a.len()]);
        }
    }
}

proof fn lemma_targets_undeclared(ts: Seq<Expr>, recv: Seq<char>, d: Declared)
    ensures
        all_undeclared(targets_findings(ts, recv, d), d),
    decreases ts.len(),
{
    if ts.len() > 0 {
        lemma_targets_undeclared(ts.drop_last(), recv, d);
        lemma_concat_undeclared(
            targets_findings(ts.drop_last(), recv, d),
            target_findings(ts.last(), recv, d),
            d,
        );
    }
}

proof fn lemma_stmt_undeclared(s: Stmt, recv: Seq<char>, d: Declared)
    ensures
        all_undeclared(stmt_findings(s, recv, d), d),
    decreases s,
{
    match s {
        Stmt::Assign { targets, .. } => lemma_targets_undeclared(targets@, recv, d),
        Stmt::If { body, clauses, .. } => {
            lemma_stmts_undeclared(body@, recv, d);
            lemma_clauses_undeclared(clauses@, recv, d);
            lemma_concat_undeclared(
                stmts_findings(body@, recv, d),
                clauses_findings(clauses@, recv, d),
                d,
            );
        },
        Stmt::For { body, .. } => lemma_stmts_undeclared(body@, recv, d),
        Stmt::While { body, .. } => lemma_stmts_undeclared(body@, recv, d),
        _ => {},
    }
}

proof fn lemma_stmts_undeclared(ss: Seq<Stmt>, recv: Seq<char>, d: Declared)
    ensures
        all_undeclared(stmts_findings(ss, recv, d), d),
    decreases ss,
{
    if ss.len() > 0 {
        lemma_stmts_undeclared(ss.drop_last(), recv, d);
        lemma_stmt_undeclared(ss.last(), recv, d);
        lemma_concat_undeclared(stmts_findings(ss.drop_last(), recv, d), stmt_findings(ss.last(), recv, d), d);
    }
}

proof fn lemma_clauses_undeclared(cs: Seq<Vec<Stmt>>, recv: Seq<char>, d: Declared)
    ensures
        all_undeclared(clauses_findings(cs, recv, d), d),
    decreases cs,
{
    if cs.len() > 0 {
        lemma_clauses_undeclared(cs.drop_last(), recv, d);
        lemma_stmts_undeclared(cs.last()@, recv, d);
        lemma_concat_undeclared(
            clauses_findings(cs.drop_last(), recv, d),
            stmts_findings(cs.last()@, recv, d),
            d,
        );
    }
}

/// Only undeclared members are reported: no finding of a method body names
/// an attribute or a method the protocol declares.
pub proof fn law_only_undeclared_reported(body: Seq<Stmt>, receiver: Seq<char>, d: Declared)
    ensures
        all_undeclared(stmts_findings(body, receiver, d), d),
{
    lemma_stmts_undeclared(body, receiver, d);
}

pub open spec fn declared_of(attrs: &Vec<Vec<char>>, methods: &Vec<Vec<char>>) -> Declared {
    Declared { attrs: views(attrs@), methods: views(methods@) }
}

/// Reports an assignment target `self.attr` whose attribute the protocol does not declare.
pub fn check_self_attr_target(
    target: &Expr,
    self_param: &[char],
    attrs: &Vec<Vec<char>>,
    methods: &Vec<Vec<char>>,
    out: &mut Vec<UndeclaredMember>,
)
    ensures
        members_view(final(out)@) == members_view(old(out)@) + target_findings(
            *target,
            self_param@,
            declared_of(attrs, methods),
        ),
{
    let ghost before = members_view(out@);
    if let Expr::Attribute { value, attr, span } = target {
        if let Expr::Name { id, .. } = &**value {
            if eq_chars(id.as_slice(), self_param) && !contains_name(attrs, attr.as_slice())
                && !contains_name(methods, attr.as_slice()) {
                out.push(UndeclaredMember { attr: attr.clone(), span: *span });
                proof {
                    assert(members_view(out@) =~= before + target_findings(
                        *target,
                        self_param@,
                        declared_of(attrs, methods),
                    ));
                }
                return ;
            }
        }
    }
    proof {
        assert(members_view(out@) =~= before + target_findings(
            *target,
            self_param@,
            declared_of(attrs, methods),
        ));
    }
}

fn check_targets(
    targets: &Vec<Expr>,
    self_param: &[char],
    attrs: &Vec<Vec<char>>,
    methods: &Vec<Vec<char>>,
    out: &mut Vec<UndeclaredMember>,
)
    ensures
        members_view(final(out)@) == members_view(old(out)@) + targets_findings(
            targets@,
            self_param@,
            declared_of(attrs, methods),
        ),
{
    let ghost start = members_view(out@);
    let ghost d = declared_of(attrs, methods);
    let mut i: usize = 0;
    while i < targets.len()
        invariant
            i <= targets@.len(),
            d == declared_of(attrs, methods),
            members_view(out@) == start + targets_findings(targets@.take(i as int), self_param@, d),
        decreases targets.len() - i,
    {
        proof {
            assert(targets@.take(i + 1).drop_last() =~= targets@.take(i as int));
        }
        check_self_attr_target(&targets[i], self_param, attrs, methods, out);
        proof {
            assert(targets@.take(i + 1).last() == targets@[i as int]);
            assert(members_view(out@) =~= start + targets_findings(
                targets@.take(i + 1),
                self_param@,
                d,
            ));
        }
        i += 1;
    }
    proof {
        assert(targets@.take(i as int) =~= targets@);
    }
}

/// `check_body_for_self_attrs` on one statement.
pub fn check_stmt_for_self_attrs(
    s: &Stmt,
    self_param: &[char],
    attrs: &Vec<Vec<char>>,
    methods: &Vec<Vec<char>>,
    out: &mut Vec<UndeclaredMember>,
)
    ensures
        members_view(final(out)@) == members_view(old(out)@) + stmt_findings(
            *s,
            self_param@,
            declared_of(attrs, methods),
        ),
    decreases s,
{
    let ghost before = members_view(out@);
    let ghost d = declared_of(attrs, methods);
    match s {
        Stmt::Assign { targets, .. } => check_targets(targets, self_param, attrs, methods, out),
        Stmt::AnnAssign { target, .. } => check_self_attr_target(
            target,
            self_param,
            attrs,
            methods,
            out,
        ),
        Stmt::AugAssign { target, .. } => check_self_attr_target(
            target,
            self_param,
            attrs,
            methods,
            out,
        ),
        Stmt::If { body, clauses, .. } => {
            proof {
                assert(decreases_to!(*s => s->If_body));
                assert(decreases_to!(*s => s->clauses));
            }
            check_body_for_self_attrs(body, self_param, attrs, methods, out);
            check_clauses(clauses, self_param, attrs, methods, out);
            proof {
                assert(members_view(out@) =~= before + (stmts_findings(body@, self_param@, d)
                    + clauses_findings(clauses@, self_param@, d)));
            }
        },
        Stmt::For { body, .. } => {
            proof {
                assert(decreases_to!(*s => s->For_body));
            }
            check_body_for_self_attrs(body, self_param, attrs, methods, out)
        },
        Stmt::While { body, .. } => {
            proof {
                assert(decreases_to!(*s => s->While_body));
            }
            check_body_for_self_attrs(body, self_param, attrs, methods, out)
        },
        _ => {
            proof {
                assert(members_view(out@) =~= before + Seq::empty());
            }
        },
    }
}

/// `check_body_for_self_attrs`: the findings of each statement, in order.
pub fn check_body_for_self_attrs(
    ss: &Vec<Stmt>,
    self_param: &[char],
    attrs: &Vec<Vec<char>>,
    methods: &Vec<Vec<char>>,
    out: &mut Vec<UndeclaredMember>,
)
    ensures
        members_view(final(out)@) == members_view(old(out)@) + stmts_findings(
            ss@,
            self_param@,
            declared_of(attrs, methods),
        ),
    decreases ss,
{
    let ghost start = members_view(out@);
    let ghost d = declared_of(attrs, methods);
    let mut i: usize = 0;
    while i < ss.len()
        invariant
            i <= ss@.len(),
            d == declared_of(attrs, methods),
            members_view(out@) == start + stmts_findings(ss@.take(i as int), self_param@, d),
        decreases ss.len() - i,
    {
        proof {
            vstd::std_specs::vec::axiom_vec_index_decreases(*ss, i as int);
            assert(ss@.take(i + 1).drop_last() =~= ss@.take(i as int));
        }
        check_stmt_for_self_attrs(&ss[i], self_param, attrs, methods, out);
        proof {
            assert(ss@.take(i + 1).last() == ss@[i as int]);
            assert(members_view(out@) =~= start + stmts_findings(ss@.take(i + 1), self_param@, d));
        }
        i += 1;
    }
    proof {
        assert(ss@.take(i as int) =~= ss@);
    }
}

fn check_clauses(
    cs: &Vec<Vec<Stmt>>,
    self_param: &[char],
    attrs: &Vec<Vec<char>>,
    methods: &Vec<Vec<char>>,
    out: &mut Vec<UndeclaredMember>,
)
    ensures
        members_view(final(out)@) == members_view(old(out)@) + clauses_findings(
            cs@,
            self_param@,
            declared_of(attrs, methods),
        ),
    decreases cs,
{
    let ghost start = members_view(out@);
    let ghost d = declared_of(attrs, methods);
    let mut i: usize = 0;
    while i < cs.len()
        invariant
            i <= cs@.len(),
            d == declared_of(attrs, methods),
            members_view(out@) == start + clauses_findings(cs@.take(i as int), self_param@, d),
        decreases cs.len() - i,
    {
        proof {
            vstd::std_specs::vec::axiom_vec_index_decreases(*cs, i as int);
            assert(cs@.take(i + 1).drop_last() =~= cs@.take(i as int));
        }
        check_body_for_self_attrs(&cs[i], self_param, attrs, methods, out);
        proof {
            assert(cs@.take(i + 1).last() == cs@[i as int]);
            assert(members_view(out@) =~= start + clauses_findings(cs@.take(i + 1), self_param@, d));
        }
        i += 1;
    }
    proof {
        assert(cs@.take(i as int) =~= cs@);
    }
}

/// The index of the first parameter of `kind`.
pub open spec fn first_of_kind(ps: Seq<Parameter>, kind: ParamKind) -> Option<int>
    decreases ps.len(),
{
    if ps.len() == 0 {
        None
    } else {
        match first_of_kind(ps.drop_last(), kind) {
            Some(i) => Some(i),
            None => if ps.last().kind == kind {
                Some(ps.len() - 1)
            } else {
                None
            },
        }
    }
}

/// The receiver's name: the first regular parameter, else the first
/// positional-only one.
pub open spec fn receiver_name(ps: Seq<Parameter>) -> Option<Seq<char>> {
    match first_of_kind(ps, ParamKind::Regular) {
        Some(i) => Some(ps[i].name@),
        None => match first_of_kind(ps, ParamKind::PositionalOnly) {
            Some(i) => Some(ps[i].name@),
            None => None,
        },
    }
}

proof fn lemma_first_of_kind(ps: Seq<Parameter>, kind: ParamKind)
    ensures
        match first_of_kind(ps, kind) {
            Some(i) => 0 <= i < ps.len() && ps[i].kind == kind && forall|j: int|
                0 <= j < i ==> ps[j].kind != kind,
            None => forall|j: int| 0 <= j < ps.len() ==> ps[j].kind != kind,
        },
    decreases ps.len(),
{
    if ps.len() > 0 {
        lemma_first_of_kind(ps.drop_last(), kind);
        assert(forall|j: int| 0 <= j < ps.len() - 1 ==> ps.drop_last()[j] == ps[j]);
    }
}

fn find_first_of_kind(ps: &Vec<Parameter>, kind: ParamKind) -> (r: Option<usize>)
    ensures
        match r {
            Some(i) => i < ps@.len() && first_of_kind(ps@, kind) == Some(i as int),
            None => first_of_kind(ps@, kind) is None,
        },
{
    proof {
        lemma_first_of_kind(ps@, kind);
    }
    let mut i: usize = 0;
    while i < ps.len()
        invariant
            i <= ps@.len(),
            forall|j: int| 0 <= j < i ==> ps@[j].kind != kind,
            match first_of_kind(ps@, kind) {
                Some(k) => 0 <= k < ps@.len() && ps@[k].kind == kind && forall|j: int|
                    0 <= j < k ==> ps@[j].kind != kind,
                None => forall|j: int| 0 <= j < ps@.len() ==> ps@[j].kind != kind,
            },
        decreases ps.len() - i,
    {
        if ps[i].kind == kind {
            return Some(i);
        }
        i += 1;
    }
    None
}

/// `__init__` or `__new__`.
pub open spec fn is_init_or_new(name: Seq<char>) -> bool {
    name == "__init__"@ || name == "__new__"@
}

/// `check_class_init_new` on one statement of the class body.
pub open spec fn method_findings(s: Stmt, d: Declared) -> Seq<(Seq<char>, Span)> {
    match s {
        Stmt::FunctionDef { name, params, body, .. } => if is_init_or_new(name@) {
            match receiver_name(params@) {
                Some(recv) => stmts_findings(body@, recv, d),
                None => Seq::empty(),
            }
        } else {
            Seq::empty()
        },
        _ => Seq::empty(),
    }
}

pub open spec fn class_findings(ss: Seq<Stmt>, d: Declared) -> Seq<(Seq<char>, Span)>
    decreases ss.len(),
{
    if ss.len() == 0 {
        Seq::empty()
    } else {
        class_findings(ss.drop_last(), d) + method_findings(ss.last(), d)
    }
}

/// `check_class_init_new`: the findings of the class's `__init__` and
/// `__new__` methods, in order.
pub fn check_class_init_new(
    class_body: &Vec<Stmt>,
    attrs: &Vec<Vec<char>>,
    methods: &Vec<Vec<char>>,
    out: &mut Vec<UndeclaredMember>,
)
    ensures
        members_view(final(out)@) == members_view(old(out)@) + class_findings(
            class_body@,
            declared_of(attrs, methods),
        ),
{
    let ghost start = members_view(out@);
    let ghost d = declared_of(attrs, methods);
    let mut i: usize = 0;
    while i < class_body.len()
        invariant
            i <= class_body@.len(),
            d == declared_of(attrs, methods),
            members_view(out@) == start + class_findings(class_body@.take(i as int), d),
        decreases class_body.len() - i,
    {
        proof {
            assert(class_body@.take(i + 1).drop_last() =~= class_body@.take(i as int));
        }
        let ghost mid = members_view(out@);
        let s = &class_body[i];
        if let Stmt::FunctionDef { name, params, body, .. } = s {
            if eq_str(name.as_slice(), "__init__") || eq_str(name.as_slice(), "__new__") {
                let recv = match find_first_of_kind(params, ParamKind::Regular) {
                    Some(k) => Some(k),
                    None => find_first_of_kind(params, ParamKind::PositionalOnly),
                };
                if let Some(k) = recv {
                    check_body_for_self_attrs(body, params[k].name.as_slice(), attrs, methods, out);
                } else {
                    proof {
                        assert(members_view(out@) =~= mid + Seq::empty());
                    }
                }
            } else {
                proof {
                    assert(members_view(out@) =~= mid + Seq::empty());
                }
            }
        } else {
            proof {
                assert(members_view(out@) =~= mid + Seq::empty());
            }
        }
        proof {
            assert(class_body@.take(i + 1).last() == class_body@[i as int]);
            assert(members_view(out@) =~= start + class_findings(class_body@.take(i + 1), d));
        }
        i += 1;
    }
    proof {
        assert(class_body@.take(i as int) =~= class_body@);
    }
}

/// `find_class_def`: the index of the first class definition named `name`.
pub open spec fn class_def_index(ss: Seq<Stmt>, name: Seq<char>) -> Option<int>
    decreases ss.len(),
{
    if ss.len() == 0 {
        None
    } else {
        match class_def_index(ss.drop_last(), name) {
            Some(i) => Some(i),
            None => if ss.last() matches Stmt::ClassDef { name: n, .. } && n@ == name {
                Some(ss.len() - 1)
            } else {
                None
            },
        }
    }
}

proof fn lemma_class_def_index(ss: Seq<Stmt>, name: Seq<char>, i: int)
    requires
        0 <= i <= ss.len(),
        forall|j: int| 0 <= j < i ==> !(#[trigger] ss[j] matches Stmt::ClassDef { name: n, .. } && n@
            == name),
    ensures
        class_def_index(ss.take(i), name) is None,
    decreases i,
{
    if i > 0 {
        assert(ss.take(i).drop_last() =~= ss.take(i - 1));
        lemma_class_def_index(ss, name, i - 1);
    }
}

/// The index of the first class statement of that name.
pub fn find_class_def(ss: &Vec<Stmt>, name: &[char]) -> (r: Option<usize>)
    ensures
        match r {
            Some(i) => i < ss@.len() && class_def_index(ss@, name@) == Some(i as int),
            None => class_def_index(ss@, name@) is None,
        },
{
    let mut i: usize = 0;
    while i < ss.len()
        invariant
            i <= ss@.len(),
            forall|j: int| 0 <= j < i ==> !(#[trigger] ss@[j] matches Stmt::ClassDef { name: n, .. }
                && n@ == name@),
        decreases ss.len() - i,
    {
        if let Stmt::ClassDef { name: n, .. } = &ss[i] {
            if eq_chars(n.as_slice(), name) {
                proof {
                    lemma_class_def_index(ss@, name@, i as int);
                    assert(ss@.take(i + 1).drop_last() =~= ss@.take(i as int));
                    assert(ss@.take(i + 1).last() == ss@[i as int]);
                    assert(class_def_index(ss@.take(i + 1), name@) == Some(i as int));
                    lemma_class_def_index_prefix(ss@, name@, i as int + 1);
                }
                return Some(i);
            }
        }
        i += 1;
    }
    proof {
        lemma_class_def_index(ss@, name@, i as int);
        assert(ss@.take(i as int) =~= ss@);
    }
    None
}

/// Once found in a prefix, the first class definition stays where it is.
proof fn lemma_class_def_index_prefix(ss: Seq<Stmt>, name: Seq<char>, k: int)
    requires
        0 <= k <= ss.len(),
        class_def_index(ss.take(k), name) is Some,
    ensures
        class_def_index(ss, name) == class_def_index(ss.take(k), name),
    decreases ss.len() - k,
{
    if k < ss.len() {
        assert(ss.take(k + 1).drop_last() =~= ss.take(k));
        lemma_class_def_index_prefix(ss, name, k + 1);
    } else {
        assert(ss.take(k) =~= ss);
    }
}

pub open spec fn info_is_protocol(c: ProtocolClassInfo) -> bool {
    views(c.bases@).contains("Protocol"@)
}

/// The findings for one protocol class: those of its first definition in the
/// module body, none when there is none.
pub open spec fn protocol_findings(c: ProtocolClassInfo, body: Seq<Stmt>) -> Seq<(Seq<char>, Span)> {
    match class_def_index(body, c.name@) {
        Some(i) => match body[i] {
            Stmt::ClassDef { body: cb, .. } => class_findings(
                cb@,
                declared_of(&c.attributes, &c.method_names),
            ),
            _ => Seq::empty(),
        },
        None => Seq::empty(),
    }
}

pub open spec fn module_findings(cs: Seq<ProtocolClassInfo>, body: Seq<Stmt>) -> Seq<
    (Seq<char>, Span),
>
    decreases cs.len(),
{
    if cs.len() == 0 {
        Seq::empty()
    } else {
        module_findings(cs.drop_last(), body) + if info_is_protocol(cs.last()) {
            protocol_findings(cs.last(), body)
        } else {
            Seq::empty()
        }
    }
}

/// The rule: protocol members assigned in `__init__`/`__new__` that the
/// protocol does not declare.
pub struct ProtocolNewSelfAttrViolation;

impl ProtocolNewSelfAttrViolation {
    /// The findings of each class whose bases include `Protocol`, in the order
    /// of `classes`, against the parsed module `body`.
    pub fn check(&self, classes: &Vec<ProtocolClassInfo>, body: &Vec<Stmt>) -> (r: Vec<
        UndeclaredMember,
    >)
        ensures
            members_view(r@) == module_findings(classes@, body@),
    {
        let mut out: Vec<UndeclaredMember> = Vec::new();
        let proto = chars_of("Protocol");
        let mut i: usize = 0;
        while i < classes.len()
            invariant
                i <= classes@.len(),
                proto@ == "Protocol"@,
                members_view(out@) == module_findings(classes@.take(i as int), body@),
            decreases classes.len() - i,
        {
            proof {
                assert(classes@.take(i + 1).drop_last() =~= classes@.take(i as int));
                assert(classes@.take(i + 1).last() == classes@[i as int]);
            }
            let ghost mid = members_view(out@);
            let c = &classes[i];
            if contains_name(&c.bases, proto.as_slice()) {
                match find_class_def(body, c.name.as_slice()) {
                    Some(k) => {
                        if let Stmt::ClassDef { body: cb, .. } = &body[k] {
                            check_class_init_new(cb, &c.attributes, &c.method_names, &mut out);
                        }
                    },
                    None => {},
                }
            }
            proof {
                assert(members_view(out@) =~= module_findings(classes@.take(i + 1), body@));
            }
            i += 1;
        }
        proof {
            assert(classes@.take(i as int) =~= classes@);
        }
        out
    }
}

} // verus!
