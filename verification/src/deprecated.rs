//! Uses of entities marked `@deprecated` (PEP 702): calls, attribute reads,
//! operators and property setters that reach a deprecated class, function or
//! method, and imports of deprecated names from sibling modules.
//!
//! The tables are association lists: inserting a key that is already present replaces its value in place,
//! so a lookup sees what the last insertion of that key wrote.
use vstd::prelude::*;

use crate::assoc::{assoc_find, assoc_get, assoc_insert, lemma_found_index};
use crate::ast::{Expr, ImportAlias, Operator, Stmt};
use crate::module::{copy_text, opt_chars};
use crate::position::Span;
use crate::text::{chars_of, contains_char, contains_char_exec, eq_str};

verus! {

/// What was marked deprecated.
#[derive(Clone, Copy, PartialEq, Eq, Structural, Debug)]
pub enum DeprecatedKind {
    Class,
    Function,
    Method,
    Overload,
    Property,
    PropertySetter,
}

/// A deprecated definition: its kind, the message given to `@deprecated`, and
/// the span of the definition.
pub struct DeprecatedInfo {
    pub kind: DeprecatedKind,
    pub message: Option<Vec<char>>,
    pub def_span: Span,
}

impl View for DeprecatedInfo {
    type V = (DeprecatedKind, Option<Seq<char>>, Span);

    open spec fn view(&self) -> Self::V {
        (self.kind, opt_chars(self.message), self.def_span)
    }
}

/// The class a variable was inferred to hold: the module alias it was reached
/// through (empty for a local class) and the class name.
pub struct VarType {
    pub module_alias: Vec<char>,
    pub class_name: Vec<char>,
}

impl View for VarType {
    type V = (Seq<char>, Seq<char>);

    open spec fn view(&self) -> Self::V {
        (self.module_alias@, self.class_name@)
    }
}

/// A use of a deprecated entity: where, what kind, the name reported, and the
/// deprecation message.
pub struct Report {
    pub span: Span,
    pub kind: DeprecatedKind,
    pub name: Vec<char>,
    pub message: Option<Vec<char>>,
}

impl View for Report {
    type V = (Span, DeprecatedKind, Seq<char>, Option<Seq<char>>);

    open spec fn view(&self) -> Self::V {
        (self.span, self.kind, self.name@, opt_chars(self.message))
    }
}

/// How a message names the kind of entity.
pub open spec fn kind_text(k: DeprecatedKind) -> Seq<char> {
    match k {
        DeprecatedKind::Class => "class"@,
        DeprecatedKind::Function => "function"@,
        DeprecatedKind::Method => "method"@,
        DeprecatedKind::Overload => "overload"@,
        DeprecatedKind::Property => "property"@,
        DeprecatedKind::PropertySetter => "property setter"@,
    }
}

impl Report {
    /// The finding's message: `Use of deprecated <kind> `<name>``.
    pub fn message(&self) -> (r: Vec<char>)
        ensures
            r@ == "Use of deprecated "@ + kind_text(self.kind) + " `"@ + self.name@ + "`"@,
    {
        let mut m = crate::text::chars_of("Use of deprecated ");
        match self.kind {
            DeprecatedKind::Class => crate::text::push_lit(&mut m, "class"),
            DeprecatedKind::Function => crate::text::push_lit(&mut m, "function"),
            DeprecatedKind::Method => crate::text::push_lit(&mut m, "method"),
            DeprecatedKind::Overload => crate::text::push_lit(&mut m, "overload"),
            DeprecatedKind::Property => crate::text::push_lit(&mut m, "property"),
            DeprecatedKind::PropertySetter => crate::text::push_lit(&mut m, "property setter"),
        }
        crate::text::push_lit(&mut m, " `");
        crate::text::push_chars(&mut m, self.name.as_slice());
        crate::text::push_lit(&mut m, "`");
        m
    }

    /// The advice that goes with the finding: the deprecation message, when
    /// the decorator gave one, after `Deprecated: `.
    pub fn help(&self) -> (r: Option<Vec<char>>)
        ensures
            match self.message {
                Some(t) => r is Some && r->0@ == "Deprecated: "@ + t@,
                None => r is None,
            },
    {
        match &self.message {
            Some(t) => {
                let mut h = crate::text::chars_of("Deprecated: ");
                crate::text::push_chars(&mut h, t.as_slice());
                Some(h)
            },
            None => None,
        }
    }
}

pub open spec fn reports_view(r: Seq<Report>) -> Seq<(Span, DeprecatedKind, Seq<char>, Option<Seq<char>>)> {
    r.map_values(|x: Report| x@)
}

/// A table of deprecated definitions by name.
pub open spec fn info_table(m: Seq<(Vec<char>, DeprecatedInfo)>) -> Seq<
    (Seq<char>, (DeprecatedKind, Option<Seq<char>>, Span)),
> {
    m.map_values(|e: (Vec<char>, DeprecatedInfo)| (e.0@, e.1@))
}

/// Deprecated definitions of imported modules, by the alias of the module.
pub open spec fn members_table(m: Seq<(Vec<char>, Vec<(Vec<char>, DeprecatedInfo)>)>) -> Seq<
    (Seq<char>, Seq<(Seq<char>, (DeprecatedKind, Option<Seq<char>>, Span))>),
> {
    m.map_values(|e: (Vec<char>, Vec<(Vec<char>, DeprecatedInfo)>)| (e.0@, info_table(e.1@)))
}

/// Inferred classes by variable name.
pub open spec fn var_table(m: Seq<(Vec<char>, VarType)>) -> Seq<(Seq<char>, (Seq<char>, Seq<char>))> {
    m.map_values(|e: (Vec<char>, VarType)| (e.0@, e.1@))
}

/// The tables the usage checks read.
pub struct UsageContext {
    pub deprecated: Vec<(Vec<char>, DeprecatedInfo)>,
    pub deprecated_members: Vec<(Vec<char>, Vec<(Vec<char>, DeprecatedInfo)>)>,
    pub var_types: Vec<(Vec<char>, VarType)>,
}

pub struct UsageTables {
    pub deprecated: Seq<(Seq<char>, (DeprecatedKind, Option<Seq<char>>, Span))>,
    pub members: Seq<(Seq<char>, Seq<(Seq<char>, (DeprecatedKind, Option<Seq<char>>, Span))>)>,
    pub var_types: Seq<(Seq<char>, (Seq<char>, Seq<char>))>,
}

impl View for UsageContext {
    type V = UsageTables;

    open spec fn view(&self) -> UsageTables {
        UsageTables {
            deprecated: info_table(self.deprecated@),
            members: members_table(self.deprecated_members@),
            var_types: var_table(self.var_types@),
        }
    }
}

/// `a.b`
pub open spec fn dotted(a: Seq<char>, b: Seq<char>) -> Seq<char> {
    a + seq!['.'] + b
}

/// The method an operator calls on its left operand.
pub open spec fn dunder_of(op: Operator) -> Seq<char> {
    match op {
        Operator::Add => "__add__"@,
        Operator::Sub => "__sub__"@,
        Operator::Mult => "__mul__"@,
        Operator::Div => "__truediv__"@,
        Operator::Mod => "__mod__"@,
        Operator::Pow => "__pow__"@,
        Operator::LShift => "__lshift__"@,
        Operator::RShift => "__rshift__"@,
        Operator::BitOr => "__or__"@,
        Operator::BitXor => "__xor__"@,
        Operator::BitAnd => "__and__"@,
        Operator::FloorDiv => "__floordiv__"@,
        Operator::MatMult => "__matmul__"@,
    }
}

/// Which kinds of deprecated member a lookup accepts.
#[derive(Clone, Copy, PartialEq, Eq, Structural, Debug)]
pub enum KindFilter {
    Any,
    /// Property setters only (assignments).
    Setter,
    /// Properties and methods only (attribute reads).
    Accessor,
}

pub open spec fn admits(f: KindFilter, k: DeprecatedKind) -> bool {
    match f {
        KindFilter::Any => true,
        KindFilter::Setter => k == DeprecatedKind::PropertySetter,
        KindFilter::Accessor => k == DeprecatedKind::Property || k == DeprecatedKind::Method,
    }
}

pub open spec fn admitted(
    f: KindFilter,
    o: Option<(DeprecatedKind, Option<Seq<char>>, Span)>,
) -> Option<(DeprecatedKind, Option<Seq<char>>, Span)> {
    match o {
        Some(i) => if admits(f, i.0) {
            Some(i)
        } else {
            None
        },
        None => None,
    }
}

/// The deprecated member `key` (`Class.member`) of the class `vt`: first among
/// the deprecated definitions of the module the class was reached through,
/// then among the local ones; a definition of a kind `f` does not accept is
/// passed over.
pub open spec fn typed_member(
    cx: UsageTables,
    vt: (Seq<char>, Seq<char>),
    key: Seq<char>,
    f: KindFilter,
) -> Option<(DeprecatedKind, Option<Seq<char>>, Span)> {
    let local = admitted(f, assoc_get(cx.deprecated, key));
    if vt.0.len() > 0 {
        match assoc_get(cx.members, vt.0) {
            Some(ms) => match admitted(f, assoc_get(ms, key)) {
                Some(i) => Some(i),
                None => local,
            },
            None => local,
        }
    } else {
        local
    }
}

pub open spec fn report_of(
    span: Span,
    i: (DeprecatedKind, Option<Seq<char>>, Span),
    name: Seq<char>,
) -> (Span, DeprecatedKind, Seq<char>, Option<Seq<char>>) {
    (span, i.0, name, i.1)
}

pub open spec fn opt_seq<A>(o: Option<A>) -> Seq<A> {
    match o {
        Some(a) => seq![a],
        None => Seq::empty(),
    }
}

/// A call `id(...)`: a deprecated function or class called directly, else a
/// variable whose class has a deprecated `__call__`.
pub open spec fn name_call_report(cx: UsageTables, id: Seq<char>, span: Span) -> Option<
    (Span, DeprecatedKind, Seq<char>, Option<Seq<char>>),
> {
    match assoc_get(cx.deprecated, id) {
        Some(i) => Some(report_of(span, i, id)),
        None => match assoc_get(cx.var_types, id) {
            Some(vt) => {
                let key = dotted(vt.1, "__call__"@);
                match typed_member(cx, vt, key, KindFilter::Any) {
                    Some(i) => Some(report_of(span, i, key)),
                    None => None,
                }
            },
            None => None,
        },
    }
}

/// A call `var.attr(...)` on a variable of inferred class: a deprecated member
/// of that class.
pub open spec fn instance_call_report(cx: UsageTables, value: Expr, attr: Seq<char>, span: Span) -> Option<
    (Span, DeprecatedKind, Seq<char>, Option<Seq<char>>),
> {
    match value {
        Expr::Name { id, .. } => match assoc_get(cx.var_types, id@) {
            Some(vt) => match typed_member(cx, vt, dotted(vt.1, attr), KindFilter::Any) {
                Some(i) => Some(report_of(span, i, attr)),
                None => None,
            },
            None => None,
        },
        _ => None,
    }
}

/// A read `var.attr` on a variable of inferred class: a deprecated property or
/// method of that class.
pub open spec fn member_read_report(cx: UsageTables, value: Expr, attr: Seq<char>, span: Span) -> Option<
    (Span, DeprecatedKind, Seq<char>, Option<Seq<char>>),
> {
    match value {
        Expr::Name { id, .. } => match assoc_get(cx.var_types, id@) {
            Some(vt) => {
                let key = dotted(vt.1, attr);
                match typed_member(cx, vt, key, KindFilter::Accessor) {
                    Some(i) => Some(report_of(span, i, key)),
                    None => None,
                }
            },
            None => None,
        },
        _ => None,
    }
}

/// What `name.attr` refers to when it is deprecated: a deprecated member of
/// the module imported as `name`; else a local definition `name.attr`; else a
/// deprecated member of the class of the variable `name`.
pub open spec fn attribute_target(cx: UsageTables, value: Expr, attr: Seq<char>) -> Option<
    (DeprecatedKind, Option<Seq<char>>, Span),
> {
    match value {
        Expr::Name { id, .. } => {
            let from_module = match assoc_get(cx.members, id@) {
                Some(ms) => assoc_get(ms, attr),
                None => None,
            };
            match from_module {
                Some(i) => Some(i),
                None => match assoc_get(cx.deprecated, dotted(id@, attr)) {
                    Some(i) => Some(i),
                    None => match assoc_get(cx.var_types, id@) {
                        Some(vt) => typed_member(cx, vt, dotted(vt.1, attr), KindFilter::Any),
                        None => None,
                    },
                },
            }
        },
        _ => None,
    }
}

/// `var op ...` on a variable of inferred class whose operator method is
/// deprecated.
pub open spec fn binop_report(cx: UsageTables, left: Expr, op: Operator, span: Span) -> Option<
    (Span, DeprecatedKind, Seq<char>, Option<Seq<char>>),
> {
    match left {
        Expr::Name { id, .. } => match assoc_get(cx.var_types, id@) {
            Some(vt) => {
                let key = dotted(vt.1, dunder_of(op));
                match typed_member(cx, vt, key, KindFilter::Any) {
                    Some(i) => Some(report_of(span, i, key)),
                    None => None,
                }
            },
            None => None,
        },
        _ => None,
    }
}

/// The uses of deprecated entities in an expression, in the order they are
/// found.
pub open spec fn expr_reports(cx: UsageTables, e: Expr) -> Seq<
    (Span, DeprecatedKind, Seq<char>, Option<Seq<char>>),
>
    decreases e,
{
    match e {
        Expr::Name { id, span } => match assoc_get(cx.deprecated, id@) {
            Some(i) => seq![report_of(span, i, id@)],
            None => Seq::empty(),
        },
        Expr::Call { func, args, span } => {
            let head = match *func {
                Expr::Name { id, .. } => opt_seq(name_call_report(cx, id@, span)),
                Expr::Attribute { value, attr, .. } => match instance_call_report(
                    cx,
                    *value,
                    attr@,
                    span,
                ) {
                    Some(r) => seq![r],
                    None => match attribute_target(cx, *value, attr@) {
                        Some(i) => seq![report_of(span, i, attr@)],
                        None => expr_reports(cx, *value),
                    },
                },
                _ => expr_reports(cx, *func),
            };
            head + exprs_reports(cx, args@)
        },
        Expr::Attribute { value, attr, span } => match member_read_report(cx, *value, attr@, span) {
            Some(r) => seq![r],
            None => match attribute_target(cx, *value, attr@) {
                Some(i) => seq![report_of(span, i, attr@)],
                None => expr_reports(cx, *value),
            },
        },
        Expr::BinOp { left, op, right, span } => opt_seq(binop_report(cx, *left, op, span))
            + expr_reports(cx, *left) + expr_reports(cx, *right),
        Expr::Tuple { elts } => exprs_reports(cx, elts@),
        Expr::List { elts } => exprs_reports(cx, elts@),
        _ => Seq::empty(),
    }
}

pub open spec fn exprs_reports(cx: UsageTables, es: Seq<Expr>) -> Seq<
    (Span, DeprecatedKind, Seq<char>, Option<Seq<char>>),
>
    decreases es,
{
    if es.len() == 0 {
        Seq::empty()
    } else {
        exprs_reports(cx, es.drop_last()) + expr_reports(cx, es.last())
    }
}

pub open spec fn opt_report_view(o: Option<Report>) -> Option<
    (Span, DeprecatedKind, Seq<char>, Option<Seq<char>>),
> {
    match o {
        Some(r) => Some(r@),
        None => None,
    }
}

pub open spec fn opt_info_view(o: Option<&DeprecatedInfo>) -> Option<
    (DeprecatedKind, Option<Seq<char>>, Span),
> {
    match o {
        Some(i) => Some(i@),
        None => None,
    }
}

/// The deprecated definition named `k`.
pub fn lookup_deprecated<'a>(m: &'a Vec<(Vec<char>, DeprecatedInfo)>, k: &[char]) -> (r: Option<
    &'a DeprecatedInfo,
>)
    ensures
        opt_info_view(r) == assoc_get(info_table(m@), k@),
{
    let f = assoc_find(m, k);
    proof {
        lemma_found_index(m@, info_table(m@), k@, f);
    }
    match f {
        Some(i) => Some(&m[i].1),
        None => None,
    }
}

/// The deprecated definitions of the module imported as `k`.
pub fn lookup_members<'a>(
    m: &'a Vec<(Vec<char>, Vec<(Vec<char>, DeprecatedInfo)>)>,
    k: &[char],
) -> (r: Option<&'a Vec<(Vec<char>, DeprecatedInfo)>>)
    ensures
        match r {
            Some(ms) => assoc_get(members_table(m@), k@) == Some(info_table(ms@)),
            None => assoc_get(members_table(m@), k@) is None,
        },
{
    let f = assoc_find(m, k);
    proof {
        lemma_found_index(m@, members_table(m@), k@, f);
    }
    match f {
        Some(i) => Some(&m[i].1),
        None => None,
    }
}

/// The class inferred for the variable `k`.
pub fn lookup_var_type<'a>(m: &'a Vec<(Vec<char>, VarType)>, k: &[char]) -> (r: Option<&'a VarType>)
    ensures
        match r {
            Some(vt) => assoc_get(var_table(m@), k@) == Some(vt@),
            None => assoc_get(var_table(m@), k@) is None,
        },
{
    let f = assoc_find(m, k);
    proof {
        lemma_found_index(m@, var_table(m@), k@, f);
    }
    match f {
        Some(i) => Some(&m[i].1),
        None => None,
    }
}

/// `a.b`
pub fn dotted_name(a: &[char], b: &[char]) -> (r: Vec<char>)
    ensures
        r@ == dotted(a@, b@),
{
    let mut r = copy_text(a);
    r.push('.');
    let mut i: usize = 0;
    while i < b.len()
        invariant
            i <= b@.len(),
            r@ == a@ + seq!['.'] + b@.take(i as int),
        decreases b.len() - i,
    {
        r.push(b[i]);
        proof {
            assert(b@.take(i + 1) =~= b@.take(i as int).push(b@[i as int]));
        }
        i += 1;
    }
    proof {
        assert(b@.take(i as int) =~= b@);
    }
    r
}

/// Map a binary or augmented operator to the method it calls.
pub fn op_to_dunder(op: Operator) -> (r: &'static str)
    ensures
        r@ == dunder_of(op),
{
    match op {
        Operator::Add => "__add__",
        Operator::Sub => "__sub__",
        Operator::Mult => "__mul__",
        Operator::Div => "__truediv__",
        Operator::Mod => "__mod__",
        Operator::Pow => "__pow__",
        Operator::LShift => "__lshift__",
        Operator::RShift => "__rshift__",
        Operator::BitOr => "__or__",
        Operator::BitXor => "__xor__",
        Operator::BitAnd => "__and__",
        Operator::FloorDiv => "__floordiv__",
        Operator::MatMult => "__matmul__",
    }
}

fn admits_exec(f: KindFilter, k: DeprecatedKind) -> (r: bool)
    ensures
        r == admits(f, k),
{
    match f {
        KindFilter::Any => true,
        KindFilter::Setter => matches!(k, DeprecatedKind::PropertySetter),
        KindFilter::Accessor => matches!(k, DeprecatedKind::Property | DeprecatedKind::Method),
    }
}

/// The deprecated member `key` of the class `vt`, as `typed_member` states.
pub fn find_typed_member<'a>(
    cx: &'a UsageContext,
    vt: &VarType,
    key: &[char],
    f: KindFilter,
) -> (r: Option<&'a DeprecatedInfo>)
    ensures
        opt_info_view(r) == typed_member(cx@, vt@, key@, f),
{
    if vt.module_alias.len() > 0 {
        if let Some(members) = lookup_members(&cx.deprecated_members, vt.module_alias.as_slice()) {
            if let Some(info) = lookup_deprecated(members, key) {
                if admits_exec(f, info.kind) {
                    return Some(info);
                }
            }
        }
    }
    match lookup_deprecated(&cx.deprecated, key) {
        Some(info) => if admits_exec(f, info.kind) {
            Some(info)
        } else {
            None
        },
        None => None,
    }
}

/// A report of `info` at `span` under `name`.
pub fn make_report(span: Span, info: &DeprecatedInfo, name: Vec<char>) -> (r: Report)
    ensures
        r@ == report_of(span, info@, name@),
{
    let message = match &info.message {
        Some(m) => Some(copy_text(m.as_slice())),
        None => None,
    };
    Report { span, kind: info.kind, name, message }
}

/// A deprecated operator method (or `__call__`) `dunder` of the class `vt`.
pub fn check_dunder_deprecated_on_type(
    cx: &UsageContext,
    vt: &VarType,
    dunder: &[char],
    span: Span,
) -> (r: Option<Report>)
    ensures
        opt_report_view(r) == (match typed_member(cx@, vt@, dotted(vt@.1, dunder@), KindFilter::Any) {
            Some(i) => Some(report_of(span, i, dotted(vt@.1, dunder@))),
            None => None,
        }),
{
    let key = dotted_name(vt.class_name.as_slice(), dunder);
    match find_typed_member(cx, vt, key.as_slice(), KindFilter::Any) {
        Some(info) => Some(make_report(span, info, key)),
        None => None,
    }
}

/// A deprecated property setter `member` of the class `vt`.
pub fn check_setter_deprecated_on_type(
    cx: &UsageContext,
    vt: &VarType,
    member: &[char],
    span: Span,
) -> (r: Option<Report>)
    ensures
        opt_report_view(r) == (match typed_member(cx@, vt@, dotted(vt@.1, member@), KindFilter::Setter) {
            Some(i) => Some(report_of(span, i, dotted(vt@.1, member@))),
            None => None,
        }),
{
    let key = dotted_name(vt.class_name.as_slice(), member);
    match find_typed_member(cx, vt, key.as_slice(), KindFilter::Setter) {
        Some(info) => Some(make_report(span, info, key)),
        None => None,
    }
}

/// What `name.attr` refers to when it is deprecated, as `attribute_target`
/// states.
pub fn check_attribute_deprecated<'a>(cx: &'a UsageContext, value: &Expr, attr: &[char]) -> (r: Option<
    &'a DeprecatedInfo,
>)
    ensures
        opt_info_view(r) == attribute_target(cx@, *value, attr@),
{
    match value {
        Expr::Name { id, .. } => {
            if let Some(members) = lookup_members(&cx.deprecated_members, id.as_slice()) {
                if let Some(info) = lookup_deprecated(members, attr) {
                    return Some(info);
                }
            }
            let qualified = dotted_name(id.as_slice(), attr);
            if let Some(info) = lookup_deprecated(&cx.deprecated, qualified.as_slice()) {
                return Some(info);
            }
            match lookup_var_type(&cx.var_types, id.as_slice()) {
                Some(vt) => {
                    let key = dotted_name(vt.class_name.as_slice(), attr);
                    find_typed_member(cx, vt, key.as_slice(), KindFilter::Any)
                },
                None => None,
            }
        },
        _ => None,
    }
}

/// A call `id(...)`, as `name_call_report` states.
pub fn check_name_call(cx: &UsageContext, id: &[char], span: Span) -> (r: Option<Report>)
    ensures
        opt_report_view(r) == name_call_report(cx@, id@, span),
{
    match lookup_deprecated(&cx.deprecated, id) {
        Some(info) => Some(make_report(span, info, copy_text(id))),
        None => match lookup_var_type(&cx.var_types, id) {
            Some(vt) => {
                let call = chars_of("__call__");
                check_dunder_deprecated_on_type(cx, vt, call.as_slice(), span)
            },
            None => None,
        },
    }
}

/// A call `var.attr(...)`, as `instance_call_report` states.
pub fn check_instance_call(cx: &UsageContext, value: &Expr, attr: &[char], span: Span) -> (r: Option<
    Report,
>)
    ensures
        opt_report_view(r) == instance_call_report(cx@, *value, attr@, span),
{
    match value {
        Expr::Name { id, .. } => match lookup_var_type(&cx.var_types, id.as_slice()) {
            Some(vt) => {
                let key = dotted_name(vt.class_name.as_slice(), attr);
                match find_typed_member(cx, vt, key.as_slice(), KindFilter::Any) {
                    Some(info) => Some(make_report(span, info, copy_text(attr))),
                    None => None,
                }
            },
            None => None,
        },
        _ => None,
    }
}

/// A read `var.attr`, as `member_read_report` states.
pub fn check_member_read(cx: &UsageContext, value: &Expr, attr: &[char], span: Span) -> (r: Option<
    Report,
>)
    ensures
        opt_report_view(r) == member_read_report(cx@, *value, attr@, span),
{
    match value {
        Expr::Name { id, .. } => match lookup_var_type(&cx.var_types, id.as_slice()) {
            Some(vt) => {
                let key = dotted_name(vt.class_name.as_slice(), attr);
                match find_typed_member(cx, vt, key.as_slice(), KindFilter::Accessor) {
                    Some(info) => Some(make_report(span, info, key)),
                    None => None,
                }
            },
            None => None,
        },
        _ => None,
    }
}

/// `left op right` with a deprecated operator method, as `binop_report`
/// states.
pub fn check_binop_deprecated(cx: &UsageContext, left: &Expr, op: Operator, span: Span) -> (r: Option<
    Report,
>)
    ensures
        opt_report_view(r) == binop_report(cx@, *left, op, span),
{
    match left {
        Expr::Name { id, .. } => match lookup_var_type(&cx.var_types, id.as_slice()) {
            Some(vt) => {
                let dunder = chars_of(op_to_dunder(op));
                check_dunder_deprecated_on_type(cx, vt, dunder.as_slice(), span)
            },
            None => None,
        },
        _ => None,
    }
}

fn push_report(out: &mut Vec<Report>, r: Option<Report>)
    ensures
        reports_view(final(out)@) == reports_view(old(out)@) + opt_seq(opt_report_view(r)),
{
    match r {
        Some(x) => {
            out.push(x);
            proof {
                assert(reports_view(out@) =~= reports_view(old(out)@) + seq![x@]);
            }
        },
        None => {
            proof {
                assert(reports_view(out@) =~= reports_view(old(out)@) + Seq::empty());
            }
        },
    }
}

/// Append to `out` the uses of deprecated entities in `e`.
pub fn visit_expr_for_usage(cx: &UsageContext, e: &Expr, out: &mut Vec<Report>)
    ensures
        reports_view(final(out)@) == reports_view(old(out)@) + expr_reports(cx@, *e),
    decreases e,
{
    match e {
        Expr::Name { id, span } => {
            match lookup_deprecated(&cx.deprecated, id.as_slice()) {
                Some(info) => push_report(out, Some(make_report(*span, info, copy_text(id.as_slice())))),
                None => push_report(out, None),
            }
        },
        Expr::Call { func, args, span } => {
            let ghost before = reports_view(out@);
            match &**func {
                Expr::Name { id, .. } => push_report(out, check_name_call(cx, id.as_slice(), *span)),
                Expr::Attribute { value, attr, .. } => {
                    match check_instance_call(cx, value, attr.as_slice(), *span) {
                        Some(r) => push_report(out, Some(r)),
                        None => match check_attribute_deprecated(cx, value, attr.as_slice()) {
                            Some(info) => push_report(
                                out,
                                Some(make_report(*span, info, copy_text(attr.as_slice()))),
                            ),
                            None => visit_expr_for_usage(cx, value, out),
                        },
                    }
                },
                _ => visit_expr_for_usage(cx, func, out),
            }
            let ghost mid = reports_view(out@);
            proof {
                assert(decreases_to!(*e => e->Call_args));
            }
            visit_exprs_for_usage(cx, args, out);
            proof {
                assert(reports_view(out@) =~= before + (mid.skip(before.len() as int)
                    + exprs_reports(cx@, args@)));
            }
        },
        Expr::Attribute { value, attr, span } => {
            match check_member_read(cx, value, attr.as_slice(), *span) {
                Some(r) => push_report(out, Some(r)),
                None => match check_attribute_deprecated(cx, value, attr.as_slice()) {
                    Some(info) => push_report(out, Some(make_report(*span, info, copy_text(attr.as_slice())))),
                    None => visit_expr_for_usage(cx, value, out),
                },
            }
        },
        Expr::BinOp { left, op, right, span } => {
            let ghost before = reports_view(out@);
            push_report(out, check_binop_deprecated(cx, left, *op, *span));
            let ghost m1 = reports_view(out@);
            visit_expr_for_usage(cx, left, out);
            let ghost m2 = reports_view(out@);
            visit_expr_for_usage(cx, right, out);
            proof {
                assert(reports_view(out@) =~= before + (opt_seq(binop_report(cx@, **left, *op, *span))
                    + expr_reports(cx@, **left) + expr_reports(cx@, **right)));
            }
        },
        Expr::Tuple { elts } => {
            proof {
                assert(decreases_to!(*e => e->Tuple_elts));
            }
            visit_exprs_for_usage(cx, elts, out)
        },
        Expr::List { elts } => {
            proof {
                assert(decreases_to!(*e => e->List_elts));
            }
            visit_exprs_for_usage(cx, elts, out)
        },
        _ => {
            proof {
                assert(reports_view(out@) =~= reports_view(out@) + Seq::empty());
            }
        },
    }
}

/// Append to `out` the uses of deprecated entities in each of `es`, in order.
pub fn visit_exprs_for_usage(cx: &UsageContext, es: &Vec<Expr>, out: &mut Vec<Report>)
    ensures
        reports_view(final(out)@) == reports_view(old(out)@) + exprs_reports(cx@, es@),
    decreases es,
{
    let ghost start = reports_view(out@);
    let mut i: usize = 0;
    while i < es.len()
        invariant
            i <= es@.len(),
            reports_view(out@) == start + exprs_reports(cx@, es@.take(i as int)),
        decreases es.len() - i,
    {
        proof {
            vstd::std_specs::vec::axiom_vec_index_decreases(*es, i as int);
            assert(es@.take(i + 1).drop_last() =~= es@.take(i as int));
        }
        visit_expr_for_usage(cx, &es[i], out);
        proof {
            assert(es@.take(i + 1).last() == es@[i as int]);
            assert(reports_view(out@) =~= start + exprs_reports(cx@, es@.take(i + 1)));
        }
        i += 1;
    }
    proof {
        assert(es@.take(i as int) =~= es@);
    }
}

/// An assignment to `var.attr` where `attr` is a deprecated property setter of
/// the class of `var`.
pub open spec fn target_report(cx: UsageTables, t: Expr) -> Option<
    (Span, DeprecatedKind, Seq<char>, Option<Seq<char>>),
> {
    match t {
        Expr::Attribute { value, attr, span } => match *value {
            Expr::Name { id, .. } => match assoc_get(cx.var_types, id@) {
                Some(vt) => {
                    let key = dotted(vt.1, attr@);
                    match typed_member(cx, vt, key, KindFilter::Setter) {
                        Some(i) => Some(report_of(span, i, key)),
                        None => None,
                    }
                },
                None => None,
            },
            _ => None,
        },
        _ => None,
    }
}

pub open spec fn targets_reports(cx: UsageTables, ts: Seq<Expr>) -> Seq<
    (Span, DeprecatedKind, Seq<char>, Option<Seq<char>>),
>
    decreases ts.len(),
{
    if ts.len() == 0 {
        Seq::empty()
    } else {
        targets_reports(cx, ts.drop_last()) + opt_seq(target_report(cx, ts.last()))
    }
}

/// `var op= ...` with a deprecated operator method, or `var.attr op= ...`
/// with a deprecated property setter; reported at the statement's span.
pub open spec fn aug_report(cx: UsageTables, target: Expr, op: Operator, span: Span) -> Option<
    (Span, DeprecatedKind, Seq<char>, Option<Seq<char>>),
> {
    match target {
        Expr::Name { id, .. } => match assoc_get(cx.var_types, id@) {
            Some(vt) => {
                let key = dotted(vt.1, dunder_of(op));
                match typed_member(cx, vt, key, KindFilter::Any) {
                    Some(i) => Some(report_of(span, i, key)),
                    None => None,
                }
            },
            None => None,
        },
        Expr::Attribute { value, attr, .. } => match *value {
            Expr::Name { id, .. } => match assoc_get(cx.var_types, id@) {
                Some(vt) => {
                    let key = dotted(vt.1, attr@);
                    match typed_member(cx, vt, key, KindFilter::Setter) {
                        Some(i) => Some(report_of(span, i, key)),
                        None => None,
                    }
                },
                None => None,
            },
            _ => None,
        },
        _ => None,
    }
}

pub open spec fn opt_expr_reports(cx: UsageTables, e: Option<Expr>) -> Seq<
    (Span, DeprecatedKind, Seq<char>, Option<Seq<char>>),
> {
    match e {
        Some(x) => expr_reports(cx, x),
        None => Seq::empty(),
    }
}

/// The uses of deprecated entities in a statement, nested bodies included.
pub open spec fn stmt_reports(cx: UsageTables, s: Stmt) -> Seq<
    (Span, DeprecatedKind, Seq<char>, Option<Seq<char>>),
>
    decreases s,
{
    match s {
        Stmt::Expr { value } => expr_reports(cx, value),
        Stmt::Assign { targets, value } => expr_reports(cx, value) + targets_reports(cx, targets@),
        Stmt::AugAssign { target, op, value, span } => expr_reports(cx, value) + opt_seq(
            aug_report(cx, target, op, span),
        ),
        Stmt::AnnAssign { assigned, .. } => opt_expr_reports(cx, assigned),
        Stmt::Return { returned } => opt_expr_reports(cx, returned),
        Stmt::FunctionDef { body, .. } => stmts_reports(cx, body@),
        Stmt::ClassDef { body, .. } => stmts_reports(cx, body@),
        Stmt::If { test, body, clauses } => expr_reports(cx, test) + stmts_reports(cx, body@)
            + clauses_reports(cx, clauses@),
        Stmt::For { iter, body } => expr_reports(cx, iter) + stmts_reports(cx, body@),
        Stmt::While { test, body } => expr_reports(cx, test) + stmts_reports(cx, body@),
        _ => Seq::empty(),
    }
}

pub open spec fn stmts_reports(cx: UsageTables, ss: Seq<Stmt>) -> Seq<
    (Span, DeprecatedKind, Seq<char>, Option<Seq<char>>),
>
    decreases ss,
{
    if ss.len() == 0 {
        Seq::empty()
    } else {
        stmts_reports(cx, ss.drop_last()) + stmt_reports(cx, ss.last())
    }
}

pub open spec fn clauses_reports(cx: UsageTables, cs: Seq<Vec<Stmt>>) -> Seq<
    (Span, DeprecatedKind, Seq<char>, Option<Seq<char>>),
>
    decreases cs,
{
    if cs.len() == 0 {
        Seq::empty()
    } else {
        clauses_reports(cx, cs.drop_last()) + stmts_reports(cx, cs.last()@)
    }
}

/// An assignment target `var.attr` naming a deprecated property setter, as
/// `target_report` states.
pub fn check_assignment_target_deprecated(cx: &UsageContext, target: &Expr) -> (r: Option<Report>)
    ensures
        opt_report_view(r) == target_report(cx@, *target),
{
    match target {
        Expr::Attribute { value, attr, span } => match &**value {
            Expr::Name { id, .. } => match lookup_var_type(&cx.var_types, id.as_slice()) {
                Some(vt) => check_setter_deprecated_on_type(cx, vt, attr.as_slice(), *span),
                None => None,
            },
            _ => None,
        },
        _ => None,
    }
}

/// An augmented assignment, as `aug_report` states.
pub fn check_aug_assign_deprecated(cx: &UsageContext, target: &Expr, op: Operator, span: Span) -> (r: Option<
    Report,
>)
    ensures
        opt_report_view(r) == aug_report(cx@, *target, op, span),
{
    match target {
        Expr::Name { id, .. } => match lookup_var_type(&cx.var_types, id.as_slice()) {
            Some(vt) => {
                let dunder = chars_of(op_to_dunder(op));
                check_dunder_deprecated_on_type(cx, vt, dunder.as_slice(), span)
            },
            None => None,
        },
        Expr::Attribute { value, attr, .. } => match &**value {
            Expr::Name { id, .. } => match lookup_var_type(&cx.var_types, id.as_slice()) {
                Some(vt) => check_setter_deprecated_on_type(cx, vt, attr.as_slice(), span),
                None => None,
            },
            _ => None,
        },
        _ => None,
    }
}

fn visit_opt_expr(cx: &UsageContext, e: &Option<Expr>, out: &mut Vec<Report>)
    ensures
        reports_view(final(out)@) == reports_view(old(out)@) + opt_expr_reports(cx@, *e),
{
    match e {
        Some(x) => visit_expr_for_usage(cx, x, out),
        None => {
            proof {
                assert(reports_view(out@) =~= reports_view(out@) + Seq::empty());
            }
        },
    }
}

/// Append to `out` the uses of deprecated entities in a statement and the
/// bodies nested in it.
pub fn visit_stmt_for_usage(cx: &UsageContext, s: &Stmt, out: &mut Vec<Report>)
    ensures
        reports_view(final(out)@) == reports_view(old(out)@) + stmt_reports(cx@, *s),
    decreases s,
{
    let ghost before = reports_view(out@);
    match s {
        Stmt::Expr { value } => visit_expr_for_usage(cx, value, out),
        Stmt::Assign { targets, value } => {
            visit_expr_for_usage(cx, value, out);
            let ghost mid = reports_view(out@);
            let mut i: usize = 0;
            while i < targets.len()
                invariant
                    i <= targets@.len(),
                    reports_view(out@) == mid + targets_reports(cx@, targets@.take(i as int)),
                decreases targets.len() - i,
            {
                proof {
                    assert(targets@.take(i + 1).drop_last() =~= targets@.take(i as int));
                }
                push_report(out, check_assignment_target_deprecated(cx, &targets[i]));
                proof {
                    assert(targets@.take(i + 1).last() == targets@[i as int]);
                    assert(reports_view(out@) =~= mid + targets_reports(cx@, targets@.take(i + 1)));
                }
                i += 1;
            }
            proof {
                assert(targets@.take(i as int) =~= targets@);
                assert(reports_view(out@) =~= before + (expr_reports(cx@, *value) + targets_reports(
                    cx@,
                    targets@,
                )));
            }
        },
        Stmt::AugAssign { target, op, value, span } => {
            visit_expr_for_usage(cx, value, out);
            push_report(out, check_aug_assign_deprecated(cx, target, *op, *span));
            proof {
                assert(reports_view(out@) =~= before + (expr_reports(cx@, *value) + opt_seq(
                    aug_report(cx@, *target, *op, *span),
                )));
            }
        },
        Stmt::AnnAssign { assigned, .. } => visit_opt_expr(cx, assigned, out),
        Stmt::Return { returned } => visit_opt_expr(cx, returned, out),
        Stmt::FunctionDef { body, .. } => {
            proof {
                assert(decreases_to!(*s => s->FunctionDef_body));
            }
            visit_stmts_for_usage(cx, body, out)
        },
        Stmt::ClassDef { body, .. } => {
            proof {
                assert(decreases_to!(*s => s->ClassDef_body));
            }
            visit_stmts_for_usage(cx, body, out)
        },
        Stmt::If { test, body, clauses } => {
            visit_expr_for_usage(cx, test, out);
            let ghost m1 = reports_view(out@);
            proof {
                assert(decreases_to!(*s => s->If_body));
                assert(decreases_to!(*s => s->clauses));
            }
            visit_stmts_for_usage(cx, body, out);
            let ghost m2 = reports_view(out@);
            visit_clauses_for_usage(cx, clauses, out);
            proof {
                assert(reports_view(out@) =~= before + (expr_reports(cx@, *test) + stmts_reports(
                    cx@,
                    body@,
                ) + clauses_reports(cx@, clauses@)));
            }
        },
        Stmt::For { iter, body } => {
            visit_expr_for_usage(cx, iter, out);
            proof {
                assert(decreases_to!(*s => s->For_body));
            }
            visit_stmts_for_usage(cx, body, out);
            proof {
                assert(reports_view(out@) =~= before + (expr_reports(cx@, *iter) + stmts_reports(
                    cx@,
                    body@,
                )));
            }
        },
        Stmt::While { test, body } => {
            visit_expr_for_usage(cx, test, out);
            proof {
                assert(decreases_to!(*s => s->While_body));
            }
            visit_stmts_for_usage(cx, body, out);
            proof {
                assert(reports_view(out@) =~= before + (expr_reports(cx@, *test) + stmts_reports(
                    cx@,
                    body@,
                )));
            }
        },
        _ => {
            proof {
                assert(reports_view(out@) =~= before + Seq::empty());
            }
        },
    }
}

/// Append to `out` the uses of deprecated entities in each of `ss`, in order.
pub fn visit_stmts_for_usage(cx: &UsageContext, ss: &Vec<Stmt>, out: &mut Vec<Report>)
    ensures
        reports_view(final(out)@) == reports_view(old(out)@) + stmts_reports(cx@, ss@),
    decreases ss,
{
    let ghost start = reports_view(out@);
    let mut i: usize = 0;
    while i < ss.len()
        invariant
            i <= ss@.len(),
            reports_view(out@) == start + stmts_reports(cx@, ss@.take(i as int)),
        decreases ss.len() - i,
    {
        proof {
            vstd::std_specs::vec::axiom_vec_index_decreases(*ss, i as int);
            assert(ss@.take(i + 1).drop_last() =~= ss@.take(i as int));
        }
        visit_stmt_for_usage(cx, &ss[i], out);
        proof {
            assert(ss@.take(i + 1).last() == ss@[i as int]);
            assert(reports_view(out@) =~= start + stmts_reports(cx@, ss@.take(i + 1)));
        }
        i += 1;
    }
    proof {
        assert(ss@.take(i as int) =~= ss@);
    }
}

fn visit_clauses_for_usage(cx: &UsageContext, cs: &Vec<Vec<Stmt>>, out: &mut Vec<Report>)
    ensures
        reports_view(final(out)@) == reports_view(old(out)@) + clauses_reports(cx@, cs@),
    decreases cs,
{
    let ghost start = reports_view(out@);
    let mut i: usize = 0;
    while i < cs.len()
        invariant
            i <= cs@.len(),
            reports_view(out@) == start + clauses_reports(cx@, cs@.take(i as int)),
        decreases cs.len() - i,
    {
        proof {
            vstd::std_specs::vec::axiom_vec_index_decreases(*cs, i as int);
            assert(cs@.take(i + 1).drop_last() =~= cs@.take(i as int));
        }
        visit_stmts_for_usage(cx, &cs[i], out);
        proof {
            assert(cs@.take(i + 1).last() == cs@[i as int]);
            assert(reports_view(out@) =~= start + clauses_reports(cx@, cs@.take(i + 1)));
        }
        i += 1;
    }
    proof {
        assert(cs@.take(i as int) =~= cs@);
    }
}

// ---------------------------------------------------------------------------
// Deprecated definitions
// ---------------------------------------------------------------------------

pub open spec fn is_name(e: Expr, n: Seq<char>) -> bool {
    e matches Expr::Name { id, .. } && id@ == n
}

pub open spec fn is_attr(e: Expr, n: Seq<char>) -> bool {
    e matches Expr::Attribute { attr, .. } && attr@ == n
}

/// `deprecated`, `typing.deprecated` or `typing_extensions.deprecated`.
pub open spec fn deprecated_callee(f: Expr) -> bool {
    match f {
        Expr::Name { id, .. } => id@ == "deprecated"@,
        Expr::Attribute { value, attr, .. } => attr@ == "deprecated"@ && (is_name(*value, "typing"@)
            || is_name(*value, "typing_extensions"@)),
        _ => false,
    }
}

/// `None` when a decorator is not `@deprecated`; otherwise the message given
/// as its first positional argument, when that is a string literal.
pub open spec fn deprecated_decorator(e: Expr) -> Option<Option<Seq<char>>> {
    match e {
        Expr::Call { func, args, .. } => if deprecated_callee(*func) {
            Some(
                if args@.len() > 0 {
                    match args@[0] {
                        Expr::StringLiteral { text } => Some(text@),
                        _ => None,
                    }
                } else {
                    None
                },
            )
        } else {
            None
        },
        Expr::Name { .. } => if deprecated_callee(e) {
            Some(None)
        } else {
            None
        },
        Expr::Attribute { .. } => if deprecated_callee(e) {
            Some(None)
        } else {
            None
        },
        _ => None,
    }
}

/// The first `@deprecated` among the decorators from index `i` on.
pub open spec fn first_deprecated_from(decs: Seq<Expr>, i: int) -> Option<Option<Seq<char>>>
    decreases decs.len() - i,
{
    if i < 0 || i >= decs.len() {
        None
    } else {
        match deprecated_decorator(decs[i]) {
            Some(m) => Some(m),
            None => first_deprecated_from(decs, i + 1),
        }
    }
}

pub open spec fn has_overload(decs: Seq<Expr>) -> bool {
    exists|i: int| 0 <= i < decs.len() && (is_name(decs[i], "overload"@) || is_attr(decs[i], "overload"@))
}

pub open spec fn has_property(decs: Seq<Expr>) -> bool {
    exists|i: int| 0 <= i < decs.len() && is_name(decs[i], "property"@)
}

pub open spec fn has_setter(decs: Seq<Expr>) -> bool {
    exists|i: int| 0 <= i < decs.len() && is_attr(decs[i], "setter"@)
}

/// The kind of a deprecated function with these decorators.
pub open spec fn function_kind(decs: Seq<Expr>, in_class: bool) -> DeprecatedKind {
    if has_overload(decs) {
        DeprecatedKind::Overload
    } else if in_class {
        if has_setter(decs) {
            DeprecatedKind::PropertySetter
        } else if has_property(decs) {
            DeprecatedKind::Property
        } else {
            DeprecatedKind::Method
        }
    } else {
        DeprecatedKind::Function
    }
}

/// `Class.name` inside a class, `name` outside.
pub open spec fn qualified(class: Option<Seq<char>>, name: Seq<char>) -> Seq<char> {
    match class {
        Some(c) => dotted(c, name),
        None => name,
    }
}

/// The table `t` after recording the deprecated definitions in `stmts`, in
/// order, methods under `Class.name` and nested definitions included.
pub open spec fn defs_in(
    t: Seq<(Seq<char>, (DeprecatedKind, Option<Seq<char>>, Span))>,
    stmts: Seq<Stmt>,
    class: Option<Seq<char>>,
) -> Seq<(Seq<char>, (DeprecatedKind, Option<Seq<char>>, Span))>
    decreases stmts,
{
    if stmts.len() == 0 {
        t
    } else {
        def_stmt(defs_in(t, stmts.drop_last(), class), stmts.last(), class)
    }
}

pub open spec fn def_stmt(
    t: Seq<(Seq<char>, (DeprecatedKind, Option<Seq<char>>, Span))>,
    s: Stmt,
    class: Option<Seq<char>>,
) -> Seq<(Seq<char>, (DeprecatedKind, Option<Seq<char>>, Span))>
    decreases s,
{
    match s {
        Stmt::FunctionDef { name, decorators, body, span, .. } => {
            let t1 = match first_deprecated_from(decorators@, 0) {
                Some(m) => assoc_insert(
                    t,
                    qualified(class, name@),
                    (function_kind(decorators@, class is Some), m, span),
                ),
                None => t,
            };
            defs_in(t1, body@, class)
        },
        Stmt::ClassDef { name, decorators, body, span } => {
            let t1 = match first_deprecated_from(decorators@, 0) {
                Some(m) => assoc_insert(t, name@, (DeprecatedKind::Class, m, span)),
                None => t,
            };
            defs_in(t1, body@, Some(name@))
        },
        _ => t,
    }
}

pub open spec fn opt_opt_view(o: Option<Option<Vec<char>>>) -> Option<Option<Seq<char>>> {
    match o {
        Some(m) => Some(opt_chars(m)),
        None => None,
    }
}

fn is_name_exec(e: &Expr, n: &str) -> (r: bool)
    ensures
        r == is_name(*e, n@),
{
    match e {
        Expr::Name { id, .. } => eq_str(id.as_slice(), n),
        _ => false,
    }
}

fn is_attr_exec(e: &Expr, n: &str) -> (r: bool)
    ensures
        r == is_attr(*e, n@),
{
    match e {
        Expr::Attribute { attr, .. } => eq_str(attr.as_slice(), n),
        _ => false,
    }
}

fn is_deprecated_callee(f: &Expr) -> (r: bool)
    ensures
        r == deprecated_callee(*f),
{
    match f {
        Expr::Name { id, .. } => eq_str(id.as_slice(), "deprecated"),
        Expr::Attribute { value, attr, .. } => eq_str(attr.as_slice(), "deprecated") && (is_name_exec(
            value,
            "typing",
        ) || is_name_exec(value, "typing_extensions")),
        _ => false,
    }
}

/// Whether a decorator is `@deprecated`, and with which message, as
/// `deprecated_decorator` states.
pub fn is_deprecated_decorator(e: &Expr) -> (r: Option<Option<Vec<char>>>)
    ensures
        opt_opt_view(r) == deprecated_decorator(*e),
{
    match e {
        Expr::Call { func, args, .. } => {
            if !is_deprecated_callee(func) {
                return None;
            }
            if args.len() > 0 {
                match &args[0] {
                    Expr::StringLiteral { text } => Some(Some(copy_text(text.as_slice()))),
                    _ => Some(None),
                }
            } else {
                Some(None)
            }
        },
        Expr::Name { .. } => if is_deprecated_callee(e) {
            Some(None)
        } else {
            None
        },
        Expr::Attribute { .. } => if is_deprecated_callee(e) {
            Some(None)
        } else {
            None
        },
        _ => None,
    }
}

fn first_deprecated_decorator(decs: &Vec<Expr>) -> (r: Option<Option<Vec<char>>>)
    ensures
        opt_opt_view(r) == first_deprecated_from(decs@, 0),
{
    let mut i: usize = 0;
    while i < decs.len()
        invariant
            i <= decs@.len(),
            first_deprecated_from(decs@, 0) == first_deprecated_from(decs@, i as int),
        decreases decs.len() - i,
    {
        let d = is_deprecated_decorator(&decs[i]);
        if d.is_some() {
            return d;
        }
        i += 1;
    }
    None
}

fn any_name(decs: &Vec<Expr>, n: &str) -> (r: bool)
    ensures
        r == exists|i: int| 0 <= i < decs@.len() && is_name(decs@[i], n@),
{
    let mut i: usize = 0;
    while i < decs.len()
        invariant
            i <= decs@.len(),
            forall|j: int| 0 <= j < i ==> !is_name(decs@[j], n@),
        decreases decs.len() - i,
    {
        if is_name_exec(&decs[i], n) {
            return true;
        }
        i += 1;
    }
    false
}

fn any_attr(decs: &Vec<Expr>, n: &str) -> (r: bool)
    ensures
        r == exists|i: int| 0 <= i < decs@.len() && is_attr(decs@[i], n@),
{
    let mut i: usize = 0;
    while i < decs.len()
        invariant
            i <= decs@.len(),
            forall|j: int| 0 <= j < i ==> !is_attr(decs@[j], n@),
        decreases decs.len() - i,
    {
        if is_attr_exec(&decs[i], n) {
            return true;
        }
        i += 1;
    }
    false
}

fn function_kind_exec(decs: &Vec<Expr>, in_class: bool) -> (r: DeprecatedKind)
    ensures
        r == function_kind(decs@, in_class),
{
    let overload = any_name(decs, "overload") || any_attr(decs, "overload");
    if overload {
        DeprecatedKind::Overload
    } else if in_class {
        if any_attr(decs, "setter") {
            DeprecatedKind::PropertySetter
        } else if any_name(decs, "property") {
            DeprecatedKind::Property
        } else {
            DeprecatedKind::Method
        }
    } else {
        DeprecatedKind::Function
    }
}

/// Record `v` under `k`, replacing an earlier entry for `k` in place.
pub fn info_put(m: &mut Vec<(Vec<char>, DeprecatedInfo)>, k: Vec<char>, v: DeprecatedInfo)
    ensures
        info_table(final(m)@) == assoc_insert(info_table(old(m)@), k@, v@),
{
    let ghost mv = info_table(m@);
    let f = assoc_find(m, k.as_slice());
    proof {
        lemma_found_index(m@, mv, k@, f);
    }
    let ghost entry = (k@, v@);
    match f {
        Some(i) => {
            m.set(i, (k, v));
            proof {
                assert(info_table(m@) =~= mv.update(i as int, entry));
            }
        },
        None => {
            m.push((k, v));
            proof {
                assert(info_table(m@) =~= mv.push(entry));
            }
        },
    }
}

pub open spec fn opt_slice_view(o: Option<&[char]>) -> Option<Seq<char>> {
    match o {
        Some(c) => Some(c@),
        None => None,
    }
}

/// Record in `out` the deprecated definitions in `stmts`, as `defs_in`
/// states.
pub fn collect_deprecated_definitions(
    stmts: &Vec<Stmt>,
    out: &mut Vec<(Vec<char>, DeprecatedInfo)>,
    class_name: Option<&[char]>,
)
    ensures
        info_table(final(out)@) == defs_in(info_table(old(out)@), stmts@, opt_slice_view(class_name)),
    decreases stmts,
{
    let ghost t0 = info_table(out@);
    let mut i: usize = 0;
    while i < stmts.len()
        invariant
            i <= stmts@.len(),
            info_table(out@) == defs_in(t0, stmts@.take(i as int), opt_slice_view(class_name)),
        decreases stmts.len() - i,
    {
        proof {
            vstd::std_specs::vec::axiom_vec_index_decreases(*stmts, i as int);
            assert(stmts@.take(i + 1).drop_last() =~= stmts@.take(i as int));
        }
        collect_stmt_definitions(&stmts[i], out, class_name);
        proof {
            assert(stmts@.take(i + 1).last() == stmts@[i as int]);
        }
        i += 1;
    }
    proof {
        assert(stmts@.take(i as int) =~= stmts@);
    }
}

fn collect_stmt_definitions(s: &Stmt, out: &mut Vec<(Vec<char>, DeprecatedInfo)>, class_name: Option<&[char]>)
    ensures
        info_table(final(out)@) == def_stmt(info_table(old(out)@), *s, opt_slice_view(class_name)),
    decreases s,
{
    match s {
        Stmt::FunctionDef { name, decorators, body, span, .. } => {
            if let Some(message) = first_deprecated_decorator(decorators) {
                let kind = function_kind_exec(decorators, class_name.is_some());
                let key = match class_name {
                    Some(c) => dotted_name(c, name.as_slice()),
                    None => copy_text(name.as_slice()),
                };
                info_put(out, key, DeprecatedInfo { kind, message, def_span: *span });
            }
            proof {
                assert(decreases_to!(*s => s->FunctionDef_body));
            }
            collect_deprecated_definitions(body, out, class_name);
        },
        Stmt::ClassDef { name, decorators, body, span } => {
            if let Some(message) = first_deprecated_decorator(decorators) {
                info_put(
                    out,
                    copy_text(name.as_slice()),
                    DeprecatedInfo { kind: DeprecatedKind::Class, message, def_span: *span },
                );
            }
            proof {
                assert(decreases_to!(*s => s->ClassDef_body));
            }
            collect_deprecated_definitions(body, out, Some(name.as_slice()));
        },
        _ => {},
    }
}

// ---------------------------------------------------------------------------
// Variable types
// ---------------------------------------------------------------------------

/// The class a constructor call builds: `Class()` gives `("", "Class")`,
/// `module.Class()` gives `("module", "Class")`.
pub open spec fn call_type(e: Expr) -> Option<(Seq<char>, Seq<char>)> {
    match e {
        Expr::Call { func, .. } => match *func {
            Expr::Name { id, .. } => Some((Seq::empty(), id@)),
            Expr::Attribute { value, attr, .. } => match *value {
                Expr::Name { id, .. } => Some((id@, attr@)),
                _ => None,
            },
            _ => None,
        },
        _ => None,
    }
}

pub open spec fn name_targets(
    t: Seq<(Seq<char>, (Seq<char>, Seq<char>))>,
    ts: Seq<Expr>,
    vt: (Seq<char>, Seq<char>),
) -> Seq<(Seq<char>, (Seq<char>, Seq<char>))>
    decreases ts.len(),
{
    if ts.len() == 0 {
        t
    } else {
        let t1 = name_targets(t, ts.drop_last(), vt);
        match ts.last() {
            Expr::Name { id, .. } => assoc_insert(t1, id@, vt),
            _ => t1,
        }
    }
}

/// The table `t` after recording the classes of variables assigned a
/// constructor call in `ss`, nested bodies included.
pub open spec fn var_types_in(t: Seq<(Seq<char>, (Seq<char>, Seq<char>))>, ss: Seq<Stmt>) -> Seq<
    (Seq<char>, (Seq<char>, Seq<char>)),
>
    decreases ss,
{
    if ss.len() == 0 {
        t
    } else {
        var_types_stmt(var_types_in(t, ss.drop_last()), ss.last())
    }
}

pub open spec fn var_types_stmt(t: Seq<(Seq<char>, (Seq<char>, Seq<char>))>, s: Stmt) -> Seq<
    (Seq<char>, (Seq<char>, Seq<char>)),
>
    decreases s,
{
    match s {
        Stmt::Assign { targets, value } => match call_type(value) {
            Some(vt) => name_targets(t, targets@, vt),
            None => t,
        },
        Stmt::FunctionDef { body, .. } => var_types_in(t, body@),
        Stmt::ClassDef { body, .. } => var_types_in(t, body@),
        _ => t,
    }
}

/// The class a constructor call builds, as `call_type` states.
pub fn infer_call_type(e: &Expr) -> (r: Option<VarType>)
    ensures
        match r {
            Some(vt) => call_type(*e) == Some(vt@),
            None => call_type(*e) is None,
        },
{
    match e {
        Expr::Call { func, .. } => match &**func {
            Expr::Name { id, .. } => Some(
                VarType { module_alias: Vec::new(), class_name: copy_text(id.as_slice()) },
            ),
            Expr::Attribute { value, attr, .. } => match &**value {
                Expr::Name { id, .. } => Some(
                    VarType {
                        module_alias: copy_text(id.as_slice()),
                        class_name: copy_text(attr.as_slice()),
                    },
                ),
                _ => None,
            },
            _ => None,
        },
        _ => None,
    }
}

fn copy_var_type(vt: &VarType) -> (r: VarType)
    ensures
        r@ == vt@,
{
    VarType {
        module_alias: copy_text(vt.module_alias.as_slice()),
        class_name: copy_text(vt.class_name.as_slice()),
    }
}

fn var_put(m: &mut Vec<(Vec<char>, VarType)>, k: Vec<char>, v: VarType)
    ensures
        var_table(final(m)@) == assoc_insert(var_table(old(m)@), k@, v@),
{
    let ghost mv = var_table(m@);
    let f = assoc_find(m, k.as_slice());
    proof {
        lemma_found_index(m@, mv, k@, f);
    }
    let ghost entry = (k@, v@);
    match f {
        Some(i) => {
            m.set(i, (k, v));
            proof {
                assert(var_table(m@) =~= mv.update(i as int, entry));
            }
        },
        None => {
            m.push((k, v));
            proof {
                assert(var_table(m@) =~= mv.push(entry));
            }
        },
    }
}

fn collect_var_types_from_stmts(ss: &Vec<Stmt>, out: &mut Vec<(Vec<char>, VarType)>)
    ensures
        var_table(final(out)@) == var_types_in(var_table(old(out)@), ss@),
    decreases ss,
{
    let ghost t0 = var_table(out@);
    let mut i: usize = 0;
    while i < ss.len()
        invariant
            i <= ss@.len(),
            var_table(out@) == var_types_in(t0, ss@.take(i as int)),
        decreases ss.len() - i,
    {
        proof {
            vstd::std_specs::vec::axiom_vec_index_decreases(*ss, i as int);
            assert(ss@.take(i + 1).drop_last() =~= ss@.take(i as int));
        }
        collect_var_types_from_stmt(&ss[i], out);
        proof {
            assert(ss@.take(i + 1).last() == ss@[i as int]);
        }
        i += 1;
    }
    proof {
        assert(ss@.take(i as int) =~= ss@);
    }
}

fn collect_var_types_from_stmt(s: &Stmt, out: &mut Vec<(Vec<char>, VarType)>)
    ensures
        var_table(final(out)@) == var_types_stmt(var_table(old(out)@), *s),
    decreases s,
{
    match s {
        Stmt::Assign { targets, value } => {
            if let Some(vt) = infer_call_type(value) {
                let ghost t0 = var_table(out@);
                let mut i: usize = 0;
                while i < targets.len()
                    invariant
                        i <= targets@.len(),
                        var_table(out@) == name_targets(t0, targets@.take(i as int), vt@),
                    decreases targets.len() - i,
                {
                    proof {
                        assert(targets@.take(i + 1).drop_last() =~= targets@.take(i as int));
                        assert(targets@.take(i + 1).last() == targets@[i as int]);
                    }
                    if let Expr::Name { id, .. } = &targets[i] {
                        var_put(out, copy_text(id.as_slice()), copy_var_type(&vt));
                    }
                    i += 1;
                }
                proof {
                    assert(targets@.take(i as int) =~= targets@);
                }
            }
        },
        Stmt::FunctionDef { body, .. } => {
            proof {
                assert(decreases_to!(*s => s->FunctionDef_body));
            }
            collect_var_types_from_stmts(body, out)
        },
        Stmt::ClassDef { body, .. } => {
            proof {
                assert(decreases_to!(*s => s->ClassDef_body));
            }
            collect_var_types_from_stmts(body, out)
        },
        _ => {},
    }
}

/// The classes of variables assigned a constructor call, as `var_types_in`
/// states.
pub fn collect_var_types(ss: &Vec<Stmt>) -> (r: Vec<(Vec<char>, VarType)>)
    ensures
        var_table(r@) == var_types_in(Seq::empty(), ss@),
{
    let mut out: Vec<(Vec<char>, VarType)> = Vec::new();
    proof {
        assert(var_table(out@) =~= Seq::empty());
    }
    collect_var_types_from_stmts(ss, &mut out);
    out
}

// ---------------------------------------------------------------------------
// Imports from sibling modules
// ---------------------------------------------------------------------------

/// The bodies of the sibling modules that could be read and parsed, by module
/// name.
pub open spec fn sibling_table(sibs: Seq<(Vec<char>, Vec<Stmt>)>) -> Seq<(Seq<char>, Seq<Stmt>)> {
    sibs.map_values(|e: (Vec<char>, Vec<Stmt>)| (e.0@, e.1@))
}

/// The name an import binds.
pub open spec fn local_name(a: ImportAlias) -> Seq<char> {
    match a.asname {
        Some(n) => n@,
        None => a.name@,
    }
}

/// What the imports of a module give: deprecated names imported from
/// siblings, module aliases, and each deprecated from-import with the span of
/// its statement.
pub struct ImportsView {
    pub imported: Seq<(Seq<char>, (DeprecatedKind, Option<Seq<char>>, Span))>,
    pub aliases: Seq<(Seq<char>, Seq<char>)>,
    pub from_imports: Seq<(Seq<char>, Span)>,
}

pub open spec fn from_names(
    st: ImportsView,
    names: Seq<ImportAlias>,
    sd: Seq<(Seq<char>, (DeprecatedKind, Option<Seq<char>>, Span))>,
    span: Span,
) -> ImportsView
    decreases names.len(),
{
    if names.len() == 0 {
        st
    } else {
        let s1 = from_names(st, names.drop_last(), sd, span);
        let a = names.last();
        match assoc_get(sd, a.name@) {
            Some(info) => ImportsView {
                imported: assoc_insert(s1.imported, local_name(a), info),
                aliases: s1.aliases,
                from_imports: s1.from_imports.push((local_name(a), span)),
            },
            None => s1,
        }
    }
}

pub open spec fn import_names(st: ImportsView, names: Seq<ImportAlias>) -> ImportsView
    decreases names.len(),
{
    if names.len() == 0 {
        st
    } else {
        let s1 = import_names(st, names.drop_last());
        let a = names.last();
        ImportsView {
            imported: s1.imported,
            aliases: assoc_insert(s1.aliases, local_name(a), a.name@),
            from_imports: s1.from_imports,
        }
    }
}

pub open spec fn imports_stmt(st: ImportsView, s: Stmt, sibs: Seq<(Seq<char>, Seq<Stmt>)>) -> ImportsView {
    match s {
        Stmt::ImportFrom { module, names, span } => match module {
            Some(m) => if contains_char(m@, '.') {
                st
            } else {
                match assoc_get(sibs, m@) {
                    Some(body) => from_names(st, names@, defs_in(Seq::empty(), body, None), span),
                    None => st,
                }
            },
            None => st,
        },
        Stmt::Import { names } => import_names(st, names@),
        _ => st,
    }
}

/// The imports of the statements `ss` (not looking into nested bodies).
pub open spec fn imports_in(st: ImportsView, ss: Seq<Stmt>, sibs: Seq<(Seq<char>, Seq<Stmt>)>) -> ImportsView
    decreases ss.len(),
{
    if ss.len() == 0 {
        st
    } else {
        imports_stmt(imports_in(st, ss.drop_last(), sibs), ss.last(), sibs)
    }
}

pub open spec fn no_imports() -> ImportsView {
    ImportsView { imported: Seq::empty(), aliases: Seq::empty(), from_imports: Seq::empty() }
}

/// The body of the sibling module `name`, when it could be read.
pub fn sibling_body<'a>(sibs: &'a Vec<(Vec<char>, Vec<Stmt>)>, name: &[char]) -> (r: Option<&'a Vec<Stmt>>)
    ensures
        match r {
            Some(b) => assoc_get(sibling_table(sibs@), name@) == Some(b@),
            None => assoc_get(sibling_table(sibs@), name@) is None,
        },
{
    let f = assoc_find(sibs, name);
    proof {
        lemma_found_index(sibs@, sibling_table(sibs@), name@, f);
    }
    match f {
        Some(i) => Some(&sibs[i].1),
        None => None,
    }
}

fn local_name_exec(a: &ImportAlias) -> (r: Vec<char>)
    ensures
        r@ == local_name(*a),
{
    match &a.asname {
        Some(n) => copy_text(n.as_slice()),
        None => copy_text(a.name.as_slice()),
    }
}

fn copy_info(i: &DeprecatedInfo) -> (r: DeprecatedInfo)
    ensures
        r@ == i@,
{
    let message = match &i.message {
        Some(m) => Some(copy_text(m.as_slice())),
        None => None,
    };
    DeprecatedInfo { kind: i.kind, message, def_span: i.def_span }
}

fn alias_put(m: &mut Vec<(Vec<char>, Vec<char>)>, k: Vec<char>, v: Vec<char>)
    ensures
        alias_table(final(m)@) == assoc_insert(alias_table(old(m)@), k@, v@),
{
    let ghost mv = alias_table(m@);
    let f = assoc_find(m, k.as_slice());
    proof {
        lemma_found_index(m@, mv, k@, f);
    }
    let ghost entry = (k@, v@);
    match f {
        Some(i) => {
            m.set(i, (k, v));
            proof {
                assert(alias_table(m@) =~= mv.update(i as int, entry));
            }
        },
        None => {
            m.push((k, v));
            proof {
                assert(alias_table(m@) =~= mv.push(entry));
            }
        },
    }
}

pub open spec fn alias_table(m: Seq<(Vec<char>, Vec<char>)>) -> Seq<(Seq<char>, Seq<char>)> {
    m.map_values(|e: (Vec<char>, Vec<char>)| (e.0@, e.1@))
}

pub open spec fn site_table(m: Seq<(Vec<char>, Span)>) -> Seq<(Seq<char>, Span)> {
    m.map_values(|e: (Vec<char>, Span)| (e.0@, e.1))
}

/// The imports of a module's top-level statements.
pub struct ImportedNames {
    /// Deprecated names imported from sibling modules, by the local name.
    pub deprecated: Vec<(Vec<char>, DeprecatedInfo)>,
    /// `import m as a` maps `a` to `m`; `import m` maps `m` to itself.
    pub module_aliases: Vec<(Vec<char>, Vec<char>)>,
    /// Each deprecated name from-imported, with the span of the import.
    pub from_imports: Vec<(Vec<char>, Span)>,
}

impl View for ImportedNames {
    type V = ImportsView;

    open spec fn view(&self) -> ImportsView {
        ImportsView {
            imported: info_table(self.deprecated@),
            aliases: alias_table(self.module_aliases@),
            from_imports: site_table(self.from_imports@),
        }
    }
}

/// Record the deprecated names and module aliases that the top-level imports
/// of `stmts` bring in, as `imports_in` states; `sibs` holds the parsed
/// sibling modules. Outside a directory nothing is recorded.
pub fn collect_imported_deprecated(
    stmts: &Vec<Stmt>,
    sibs: &Vec<(Vec<char>, Vec<Stmt>)>,
    in_directory: bool,
    out: &mut ImportedNames,
)
    ensures
        final(out)@ == (if in_directory {
            imports_in(old(out)@, stmts@, sibling_table(sibs@))
        } else {
            old(out)@
        }),
{
    if !in_directory {
        return;
    }
    let ghost st0 = out@;
    let ghost sv = sibling_table(sibs@);
    let mut i: usize = 0;
    while i < stmts.len()
        invariant
            i <= stmts@.len(),
            sv == sibling_table(sibs@),
            out@ == imports_in(st0, stmts@.take(i as int), sv),
        decreases stmts.len() - i,
    {
        proof {
            assert(stmts@.take(i + 1).drop_last() =~= stmts@.take(i as int));
            assert(stmts@.take(i + 1).last() == stmts@[i as int]);
        }
        match &stmts[i] {
            Stmt::ImportFrom { module, names, span } => {
                if let Some(m) = module {
                    if !contains_char_exec(m.as_slice(), '.') {
                        if let Some(body) = sibling_body(sibs, m.as_slice()) {
                            let mut sd: Vec<(Vec<char>, DeprecatedInfo)> = Vec::new();
                            proof {
                                assert(info_table(sd@) =~= Seq::empty());
                            }
                            collect_deprecated_definitions(body, &mut sd, None);
                            let ghost s_before = out@;
                            let mut j: usize = 0;
                            while j < names.len()
                                invariant
                                    j <= names@.len(),
                                    out@ == from_names(s_before, names@.take(j as int), info_table(sd@), *span),
                                decreases names.len() - j,
                            {
                                proof {
                                    assert(names@.take(j + 1).drop_last() =~= names@.take(j as int));
                                    assert(names@.take(j + 1).last() == names@[j as int]);
                                }
                                let a = &names[j];
                                if let Some(info) = lookup_deprecated(&sd, a.name.as_slice()) {
                                    let local = local_name_exec(a);
                                    let ghost before = out@;
                                    out.from_imports.push((copy_text(local.as_slice()), *span));
                                    info_put(&mut out.deprecated, local, copy_info(info));
                                    proof {
                                        assert(site_table(out.from_imports@) =~= before.from_imports.push(
                                            (local_name(*a), *span),
                                        ));
                                    }
                                }
                                j += 1;
                            }
                            proof {
                                assert(names@.take(j as int) =~= names@);
                            }
                        }
                    }
                }
            },
            Stmt::Import { names } => {
                let ghost s_before = out@;
                let mut j: usize = 0;
                while j < names.len()
                    invariant
                        j <= names@.len(),
                        out@ == import_names(s_before, names@.take(j as int)),
                    decreases names.len() - j,
                {
                    proof {
                        assert(names@.take(j + 1).drop_last() =~= names@.take(j as int));
                        assert(names@.take(j + 1).last() == names@[j as int]);
                    }
                    let a = &names[j];
                    alias_put(&mut out.module_aliases, local_name_exec(a), copy_text(a.name.as_slice()));
                    j += 1;
                }
                proof {
                    assert(names@.take(j as int) =~= names@);
                }
            },
            _ => {},
        }
        i += 1;
    }
    proof {
        assert(stmts@.take(i as int) =~= stmts@);
    }
}

pub open spec fn member_alias(
    t: Seq<(Seq<char>, Seq<(Seq<char>, (DeprecatedKind, Option<Seq<char>>, Span))>)>,
    a: ImportAlias,
    sibs: Seq<(Seq<char>, Seq<Stmt>)>,
) -> Seq<(Seq<char>, Seq<(Seq<char>, (DeprecatedKind, Option<Seq<char>>, Span))>)> {
    if contains_char(a.name@, '.') {
        t
    } else {
        match assoc_get(sibs, a.name@) {
            Some(body) => {
                let sd = defs_in(Seq::empty(), body, None);
                if sd.len() > 0 {
                    assoc_insert(t, local_name(a), sd)
                } else {
                    t
                }
            },
            None => t,
        }
    }
}

pub open spec fn member_aliases(
    t: Seq<(Seq<char>, Seq<(Seq<char>, (DeprecatedKind, Option<Seq<char>>, Span))>)>,
    names: Seq<ImportAlias>,
    sibs: Seq<(Seq<char>, Seq<Stmt>)>,
) -> Seq<(Seq<char>, Seq<(Seq<char>, (DeprecatedKind, Option<Seq<char>>, Span))>)>
    decreases names.len(),
{
    if names.len() == 0 {
        t
    } else {
        member_alias(member_aliases(t, names.drop_last(), sibs), names.last(), sibs)
    }
}

/// The deprecated definitions of each sibling module imported with `import`,
/// by the name it is bound to; modules without any are left out.
pub open spec fn members_in(
    t: Seq<(Seq<char>, Seq<(Seq<char>, (DeprecatedKind, Option<Seq<char>>, Span))>)>,
    ss: Seq<Stmt>,
    sibs: Seq<(Seq<char>, Seq<Stmt>)>,
) -> Seq<(Seq<char>, Seq<(Seq<char>, (DeprecatedKind, Option<Seq<char>>, Span))>)>
    decreases ss.len(),
{
    if ss.len() == 0 {
        t
    } else {
        let t1 = members_in(t, ss.drop_last(), sibs);
        match ss.last() {
            Stmt::Import { names } => member_aliases(t1, names@, sibs),
            _ => t1,
        }
    }
}

fn members_put(
    m: &mut Vec<(Vec<char>, Vec<(Vec<char>, DeprecatedInfo)>)>,
    k: Vec<char>,
    v: Vec<(Vec<char>, DeprecatedInfo)>,
)
    ensures
        members_table(final(m)@) == assoc_insert(members_table(old(m)@), k@, info_table(v@)),
{
    let ghost mv = members_table(m@);
    let f = assoc_find(m, k.as_slice());
    proof {
        lemma_found_index(m@, mv, k@, f);
    }
    let ghost entry = (k@, info_table(v@));
    match f {
        Some(i) => {
            m.set(i, (k, v));
            proof {
                assert(members_table(m@) =~= mv.update(i as int, entry));
            }
        },
        None => {
            m.push((k, v));
            proof {
                assert(members_table(m@) =~= mv.push(entry));
            }
        },
    }
}

/// The deprecated definitions of the sibling modules imported with `import`,
/// as `members_in` states. Outside a directory there are none.
pub fn collect_imported_deprecated_members(
    stmts: &Vec<Stmt>,
    sibs: &Vec<(Vec<char>, Vec<Stmt>)>,
    in_directory: bool,
) -> (r: Vec<(Vec<char>, Vec<(Vec<char>, DeprecatedInfo)>)>)
    ensures
        members_table(r@) == (if in_directory {
            members_in(Seq::empty(), stmts@, sibling_table(sibs@))
        } else {
            Seq::empty()
        }),
{
    let mut result: Vec<(Vec<char>, Vec<(Vec<char>, DeprecatedInfo)>)> = Vec::new();
    proof {
        assert(members_table(result@) =~= Seq::empty());
    }
    if !in_directory {
        return result;
    }
    let ghost sv = sibling_table(sibs@);
    let mut i: usize = 0;
    while i < stmts.len()
        invariant
            i <= stmts@.len(),
            sv == sibling_table(sibs@),
            members_table(result@) == members_in(Seq::empty(), stmts@.take(i as int), sv),
        decreases stmts.len() - i,
    {
        proof {
            assert(stmts@.take(i + 1).drop_last() =~= stmts@.take(i as int));
            assert(stmts@.take(i + 1).last() == stmts@[i as int]);
        }
        if let Stmt::Import { names } = &stmts[i] {
            let ghost t0 = members_table(result@);
            let mut j: usize = 0;
            while j < names.len()
                invariant
                    j <= names@.len(),
                    sv == sibling_table(sibs@),
                    members_table(result@) == member_aliases(t0, names@.take(j as int), sv),
                decreases names.len() - j,
            {
                proof {
                    assert(names@.take(j + 1).drop_last() =~= names@.take(j as int));
                    assert(names@.take(j + 1).last() == names@[j as int]);
                }
                let a = &names[j];
                if !contains_char_exec(a.name.as_slice(), '.') {
                    if let Some(body) = sibling_body(sibs, a.name.as_slice()) {
                        let mut sd: Vec<(Vec<char>, DeprecatedInfo)> = Vec::new();
                        proof {
                            assert(info_table(sd@) =~= Seq::empty());
                        }
                        collect_deprecated_definitions(body, &mut sd, None);
                        if sd.len() > 0 {
                            members_put(&mut result, local_name_exec(a), sd);
                        }
                    }
                }
                j += 1;
            }
            proof {
                assert(names@.take(j as int) =~= names@);
            }
        }
        i += 1;
    }
    proof {
        assert(stmts@.take(i as int) =~= stmts@);
    }
    result
}

// ---------------------------------------------------------------------------
// The rule
// ---------------------------------------------------------------------------

/// `all` with each entry of `more` inserted in order.
pub open spec fn merged(
    all: Seq<(Seq<char>, (DeprecatedKind, Option<Seq<char>>, Span))>,
    more: Seq<(Seq<char>, (DeprecatedKind, Option<Seq<char>>, Span))>,
) -> Seq<(Seq<char>, (DeprecatedKind, Option<Seq<char>>, Span))>
    decreases more.len(),
{
    if more.len() == 0 {
        all
    } else {
        let m1 = merged(all, more.drop_last());
        assoc_insert(m1, more.last().0, more.last().1)
    }
}

/// A report at each deprecated from-import, with what the name finally
/// refers to.
pub open spec fn import_site_reports(
    imported: Seq<(Seq<char>, (DeprecatedKind, Option<Seq<char>>, Span))>,
    sites: Seq<(Seq<char>, Span)>,
) -> Seq<(Span, DeprecatedKind, Seq<char>, Option<Seq<char>>)>
    decreases sites.len(),
{
    if sites.len() == 0 {
        Seq::empty()
    } else {
        let f = sites.last();
        import_site_reports(imported, sites.drop_last()) + match assoc_get(imported, f.0) {
            Some(i) => seq![report_of(f.1, i, f.0)],
            None => Seq::empty(),
        }
    }
}

/// The uses of deprecated entities in a module with top-level statements
/// `body`: first the deprecated from-imports, then the uses in `body` in
/// order. `sibs` are the sibling modules that could be read; `in_directory`
/// is whether the module's path has a parent directory.
pub open spec fn deprecated_usage_reports(
    body: Seq<Stmt>,
    sibs: Seq<(Seq<char>, Seq<Stmt>)>,
    in_directory: bool,
) -> Seq<(Span, DeprecatedKind, Seq<char>, Option<Seq<char>>)> {
    let local = defs_in(Seq::empty(), body, None);
    let st = if in_directory {
        imports_in(no_imports(), body, sibs)
    } else {
        no_imports()
    };
    let sites = import_site_reports(st.imported, st.from_imports);
    let all = merged(local, st.imported);
    if all.len() == 0 && st.aliases.len() == 0 {
        sites
    } else {
        let cx = UsageTables {
            deprecated: all,
            members: if in_directory {
                members_in(Seq::empty(), body, sibs)
            } else {
                Seq::empty()
            },
            var_types: var_types_in(Seq::empty(), body),
        };
        sites + stmts_reports(cx, body)
    }
}

/// Use of a deprecated class, function or method.
pub struct DeprecatedUsage;

impl DeprecatedUsage {
    /// The uses of deprecated entities in a module, as
    /// `deprecated_usage_reports` states.
    pub fn check(body: &Vec<Stmt>, sibs: &Vec<(Vec<char>, Vec<Stmt>)>, in_directory: bool) -> (r: Vec<
        Report,
    >)
        ensures
            reports_view(r@) == deprecated_usage_reports(body@, sibling_table(sibs@), in_directory),
    {
        let mut local: Vec<(Vec<char>, DeprecatedInfo)> = Vec::new();
        proof {
            assert(info_table(local@) =~= Seq::empty());
        }
        collect_deprecated_definitions(body, &mut local, None);
        let mut imports = ImportedNames {
            deprecated: Vec::new(),
            module_aliases: Vec::new(),
            from_imports: Vec::new(),
        };
        proof {
            assert(info_table(imports.deprecated@) =~= Seq::empty());
            assert(alias_table(imports.module_aliases@) =~= Seq::empty());
            assert(site_table(imports.from_imports@) =~= Seq::empty());
        }
        collect_imported_deprecated(body, sibs, in_directory, &mut imports);
        let ghost st = imports@;

        let mut reports: Vec<Report> = Vec::new();
        let mut i: usize = 0;
        while i < imports.from_imports.len()
            invariant
                i <= st.from_imports.len(),
                st == imports@,
                reports_view(reports@) == import_site_reports(st.imported, st.from_imports.take(i as int)),
            decreases imports.from_imports.len() - i,
        {
            proof {
                assert(st.from_imports.take(i + 1).drop_last() =~= st.from_imports.take(i as int));
                assert(st.from_imports.take(i + 1).last() == st.from_imports[i as int]);
            }
            let name = &imports.from_imports[i].0;
            let span = imports.from_imports[i].1;
            let ghost before = reports_view(reports@);
            match lookup_deprecated(&imports.deprecated, name.as_slice()) {
                Some(info) => {
                    reports.push(make_report(span, info, copy_text(name.as_slice())));
                },
                None => {},
            }
            proof {
                assert(reports_view(reports@) =~= import_site_reports(
                    st.imported,
                    st.from_imports.take(i + 1),
                ));
            }
            i += 1;
        }
        proof {
            assert(st.from_imports.take(i as int) =~= st.from_imports);
        }

        let ghost local_t = info_table(local@);
        let mut all = local;
        let mut k: usize = 0;
        while k < imports.deprecated.len()
            invariant
                k <= st.imported.len(),
                st == imports@,
                info_table(all@) == merged(local_t, st.imported.take(k as int)),
            decreases imports.deprecated.len() - k,
        {
            proof {
                assert(st.imported.take(k + 1).drop_last() =~= st.imported.take(k as int));
                assert(st.imported.take(k + 1).last() == st.imported[k as int]);
            }
            let entry = &imports.deprecated[k];
            info_put(&mut all, copy_text(entry.0.as_slice()), copy_info(&entry.1));
            k += 1;
        }
        proof {
            assert(st.imported.take(k as int) =~= st.imported);
        }
        if all.len() == 0 && imports.module_aliases.len() == 0 {
            return reports;
        }
        let members = collect_imported_deprecated_members(body, sibs, in_directory);
        let var_types = collect_var_types(body);
        let cx = UsageContext { deprecated: all, deprecated_members: members, var_types };
        visit_stmts_for_usage(&cx, body, &mut reports);
        reports
    }
}

// ---------------------------------------------------------------------------
// Laws
// ---------------------------------------------------------------------------

/// The two letters that open the name between the underscores of the method
/// Python calls for each operator (`__add__`, `__sub__`, `__mul__`,
/// `__truediv__`, `__mod__`, `__pow__`, `__lshift__`, `__rshift__`, `__or__`,
/// `__xor__`, `__and__`, `__floordiv__`, `__matmul__`).
spec fn method_initials(op: Operator) -> (char, char) {
    match op {
        Operator::Add => ('a', 'd'),
        Operator::Sub => ('s', 'u'),
        Operator::Mult => ('m', 'u'),
        Operator::Div => ('t', 'r'),
        Operator::Mod => ('m', 'o'),
        Operator::Pow => ('p', 'o'),
        Operator::LShift => ('l', 's'),
        Operator::RShift => ('r', 's'),
        Operator::BitOr => ('o', 'r'),
        Operator::BitXor => ('x', 'o'),
        Operator::BitAnd => ('a', 'n'),
        Operator::FloorDiv => ('f', 'l'),
        Operator::MatMult => ('m', 'a'),
    }
}

proof fn lemma_method_letters(op: Operator)
    ensures
        dunder_of(op).len() >= 6,
        dunder_of(op)[0] == '_' && dunder_of(op)[1] == '_',
        dunder_of(op)[dunder_of(op).len() - 1] == '_' && dunder_of(op)[dunder_of(op).len() - 2] == '_',
        (dunder_of(op)[2], dunder_of(op)[3]) == method_initials(op),
{
    reveal_strlit("__add__");
    reveal_strlit("__sub__");
    reveal_strlit("__mul__");
    reveal_strlit("__truediv__");
    reveal_strlit("__mod__");
    reveal_strlit("__pow__");
    reveal_strlit("__lshift__");
    reveal_strlit("__rshift__");
    reveal_strlit("__or__");
    reveal_strlit("__xor__");
    reveal_strlit("__and__");
    reveal_strlit("__floordiv__");
    reveal_strlit("__matmul__");
}

/// Each operator calls a method of its own: two different operators never
/// look up the same method (`-` is not looked up as `__add__`).
pub proof fn law_operator_methods_distinct(a: Operator, b: Operator)
    requires
        a != b,
    ensures
        dunder_of(a) != dunder_of(b),
{
    lemma_method_letters(a);
    lemma_method_letters(b);
    if dunder_of(a) == dunder_of(b) {
        assert(method_initials(a) == method_initials(b));
    }
}

/// The method an operator calls is a dunder: `__`, a name, `__`.
pub proof fn law_operator_method_is_dunder(op: Operator)
    ensures
        crate::text::starts_with(dunder_of(op), "__"@),
        crate::text::ends_with(dunder_of(op), "__"@),
        dunder_of(op).len() > 4,
{
    reveal_strlit("__");
    lemma_method_letters(op);
    let d = dunder_of(op);
    assert(d.take(2) =~= "__"@);
    assert(d.skip(d.len() - 2) =~= "__"@);
}

/// The name of the operation in Python's data model, which an operator's
/// method wraps in double underscores.
pub open spec fn operation_name(op: Operator) -> Seq<char> {
    match op {
        Operator::Add => "add"@,
        Operator::Sub => "sub"@,
        Operator::Mult => "mul"@,
        Operator::Div => "truediv"@,
        Operator::Mod => "mod"@,
        Operator::Pow => "pow"@,
        Operator::LShift => "lshift"@,
        Operator::RShift => "rshift"@,
        Operator::BitOr => "or"@,
        Operator::BitXor => "xor"@,
        Operator::BitAnd => "and"@,
        Operator::FloorDiv => "floordiv"@,
        Operator::MatMult => "matmul"@,
    }
}

/// Each operator is looked up as the data-model method of its operation:
/// `__` + the operation's name + `__` (`-` as `__sub__`, `+` as `__add__`,
/// `/` as `__truediv__`, ...).
pub proof fn law_operator_method_names(op: Operator)
    ensures
        dunder_of(op) == "__"@ + operation_name(op) + "__"@,
{
    reveal_strlit("__");
    reveal_strlit("add");
    reveal_strlit("sub");
    reveal_strlit("mul");
    reveal_strlit("truediv");
    reveal_strlit("mod");
    reveal_strlit("pow");
    reveal_strlit("lshift");
    reveal_strlit("rshift");
    reveal_strlit("or");
    reveal_strlit("xor");
    reveal_strlit("and");
    reveal_strlit("floordiv");
    reveal_strlit("matmul");
    reveal_strlit("__add__");
    reveal_strlit("__sub__");
    reveal_strlit("__mul__");
    reveal_strlit("__truediv__");
    reveal_strlit("__mod__");
    reveal_strlit("__pow__");
    reveal_strlit("__lshift__");
    reveal_strlit("__rshift__");
    reveal_strlit("__or__");
    reveal_strlit("__xor__");
    reveal_strlit("__and__");
    reveal_strlit("__floordiv__");
    reveal_strlit("__matmul__");
    assert(dunder_of(op) =~= "__"@ + operation_name(op) + "__"@);
}

/// `x - y`, and `x -= y`, on a variable `x` of inferred class `C` whose
/// `__sub__` is deprecated are reported as a use of `C.__sub__`, with that
/// method's deprecation.
pub proof fn law_subtraction_uses_sub(
    cx: UsageTables,
    id: Vec<char>,
    name_span: Span,
    span: Span,
    vt: (Seq<char>, Seq<char>),
    info: (DeprecatedKind, Option<Seq<char>>, Span),
)
    requires
        assoc_get(cx.var_types, id@) == Some(vt),
        typed_member(cx, vt, dotted(vt.1, "__sub__"@), KindFilter::Any) == Some(info),
    ensures
        binop_report(cx, Expr::Name { id, span: name_span }, Operator::Sub, span) == Some(
            (span, info.0, dotted(vt.1, "__sub__"@), info.1),
        ),
        aug_report(cx, Expr::Name { id, span: name_span }, Operator::Sub, span) == Some(
            (span, info.0, dotted(vt.1, "__sub__"@), info.1),
        ),
{
}

} // verus!
