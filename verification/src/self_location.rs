//! `Self` where it has no class to bind to: module-level functions and
//! variables, static and metaclass methods, type aliases, base classes, and
//! methods whose `self` is annotated with a type variable.
use vstd::prelude::*;

use crate::module::{
    class_view, classes_view, copy_text, function_view, functions_view, param_view, span_view,
    var_view, vars_view, ClassSite, ClassV, FunctionSite, FunctionV, ParamSite, ParamV,
    TypeVarCall, VarSite, VarV,
};
use crate::names::{contains_ident_ref, contains_typevar_reference};
use crate::position::Span;
use crate::text::{eq_str, trim, trim_chars, views};

verus! {

/// `contains_self`: `Self` occurs as a whole identifier.
pub fn contains_self(text: &[char]) -> (r: bool)
    ensures
        r == contains_ident_ref(text@, "Self"@),
{
    let target = crate::text::chars_of("Self");
    proof {
        reveal_strlit("Self");
    }
    contains_typevar_reference(text, target.as_slice())
}

/// Where a function's annotations may not use `Self`.
#[derive(Clone, Copy, PartialEq, Eq, Structural, Debug)]
pub enum SelfContext {
    ModuleFunction,
    StaticMethod,
    MetaclassMethod,
}

pub enum SelfIssue {
    /// Parameter `param` of `function` is annotated with `Self`.
    Param { context: SelfContext, param: Vec<char>, function: Vec<char> },
    /// The return type of `function` uses `Self`.
    Return { context: SelfContext, function: Vec<char> },
    /// `function` returns `Self` while its `self` is annotated with type
    /// variable `typevar`.
    TypeVarSelf { function: Vec<char>, typevar: Vec<char> },
    /// A module-level variable annotated with `Self`.
    Variable { name: Vec<char> },
    /// A `TypeAlias` whose value uses `Self`.
    Alias { name: Vec<char> },
    /// `Self` in a class's bases.
    Base { class_name: Vec<char> },
}

pub struct SelfDiagnostic {
    pub issue: SelfIssue,
    pub span: Span,
}

pub enum SelfIssueV {
    Param { context: SelfContext, param: Seq<char>, function: Seq<char> },
    Return { context: SelfContext, function: Seq<char> },
    TypeVarSelf { function: Seq<char>, typevar: Seq<char> },
    Variable { name: Seq<char> },
    Alias { name: Seq<char> },
    Base { class_name: Seq<char> },
}

pub struct SelfDiagV {
    pub issue: SelfIssueV,
    pub span: (nat, nat),
}

pub open spec fn issue_view(i: SelfIssue) -> SelfIssueV {
    match i {
        SelfIssue::Param { context, param, function } => SelfIssueV::Param {
            context,
            param: param@,
            function: function@,
        },
        SelfIssue::Return { context, function } => SelfIssueV::Return { context, function: function@ },
        SelfIssue::TypeVarSelf { function, typevar } => SelfIssueV::TypeVarSelf {
            function: function@,
            typevar: typevar@,
        },
        SelfIssue::Variable { name } => SelfIssueV::Variable { name: name@ },
        SelfIssue::Alias { name } => SelfIssueV::Alias { name: name@ },
        SelfIssue::Base { class_name } => SelfIssueV::Base { class_name: class_name@ },
    }
}

pub open spec fn diag_view(d: SelfDiagnostic) -> SelfDiagV {
    SelfDiagV { issue: issue_view(d.issue), span: span_view(d.span) }
}

/// How the message names the context.
pub open spec fn context_text(c: SelfContext) -> Seq<char> {
    match c {
        SelfContext::ModuleFunction => "module-level function"@,
        SelfContext::StaticMethod => "static method"@,
        SelfContext::MetaclassMethod => "metaclass method"@,
    }
}

/// The text of a finding.
pub open spec fn self_message(i: SelfIssueV) -> Seq<char> {
    match i {
        SelfIssueV::Param { context, param, function } => "`Self` is not valid in a "@ + context_text(context)
            + "; parameter `"@ + param + "` of `"@ + function + "` uses `Self`"@,
        SelfIssueV::Return { context, function } => "`Self` is not valid in a "@ + context_text(context)
            + "; return type of `"@ + function + "` uses `Self`"@,
        SelfIssueV::TypeVarSelf { function, typevar } => "Return type `Self` is invalid in `"@ + function
            + "`: the `self` parameter is annotated with TypeVar `"@ + typevar
            + "`, so `Self` has no defined class binding"@,
        SelfIssueV::Variable { name } => "`Self` is not valid outside a class body; annotation of `"@ + name
            + "` uses `Self`"@,
        SelfIssueV::Alias { name } => "`Self` cannot appear in a `TypeAlias` definition at module scope; `"@
            + name + "` uses `Self`"@,
        SelfIssueV::Base { class_name } => "`Self` cannot be used as a base class or in base class type arguments for `"@
            + class_name + "`"@,
    }
}

fn push_context(m: &mut Vec<char>, c: SelfContext)
    ensures
        final(m)@ == old(m)@ + context_text(c),
{
    match c {
        SelfContext::ModuleFunction => crate::text::push_lit(m, "module-level function"),
        SelfContext::StaticMethod => crate::text::push_lit(m, "static method"),
        SelfContext::MetaclassMethod => crate::text::push_lit(m, "metaclass method"),
    }
}

impl SelfDiagnostic {
    /// The finding's message.
    pub fn message(&self) -> (r: Vec<char>)
        ensures
            r@ == self_message(issue_view(self.issue)),
    {
        match &self.issue {
            SelfIssue::Param { context, param, function } => {
                let mut m = crate::text::chars_of("`Self` is not valid in a ");
                push_context(&mut m, *context);
                crate::text::push_lit(&mut m, "; parameter `");
                crate::text::push_chars(&mut m, param.as_slice());
                crate::text::push_lit(&mut m, "` of `");
                crate::text::push_chars(&mut m, function.as_slice());
                crate::text::push_lit(&mut m, "` uses `Self`");
                m
            },
            SelfIssue::Return { context, function } => {
                let mut m = crate::text::chars_of("`Self` is not valid in a ");
                push_context(&mut m, *context);
                crate::text::push_lit(&mut m, "; return type of `");
                crate::text::push_chars(&mut m, function.as_slice());
                crate::text::push_lit(&mut m, "` uses `Self`");
                m
            },
            SelfIssue::TypeVarSelf { function, typevar } => {
                let mut m = crate::text::chars_of("Return type `Self` is invalid in `");
                crate::text::push_chars(&mut m, function.as_slice());
                crate::text::push_lit(&mut m, "`: the `self` parameter is annotated with TypeVar `");
                crate::text::push_chars(&mut m, typevar.as_slice());
                crate::text::push_lit(&mut m, "`, so `Self` has no defined class binding");
                m
            },
            SelfIssue::Variable { name } => {
                let mut m = crate::text::chars_of("`Self` is not valid outside a class body; annotation of `");
                crate::text::push_chars(&mut m, name.as_slice());
                crate::text::push_lit(&mut m, "` uses `Self`");
                m
            },
            SelfIssue::Alias { name } => {
                let mut m = crate::text::chars_of(
                    "`Self` cannot appear in a `TypeAlias` definition at module scope; `",
                );
                crate::text::push_chars(&mut m, name.as_slice());
                crate::text::push_lit(&mut m, "` uses `Self`");
                m
            },
            SelfIssue::Base { class_name } => {
                let mut m = crate::text::chars_of(
                    "`Self` cannot be used as a base class or in base class type arguments for `",
                );
                crate::text::push_chars(&mut m, class_name.as_slice());
                crate::text::push_lit(&mut m, "`");
                m
            },
        }
    }
}

pub open spec fn diags_view(v: Seq<SelfDiagnostic>) -> Seq<SelfDiagV> {
    v.map_values(|d: SelfDiagnostic| diag_view(d))
}

/// The findings for the first `k` parameters of a function.
pub open spec fn param_issues(ps: Seq<ParamV>, k: int, context: SelfContext, function: Seq<char>) -> Seq<
    SelfDiagV,
>
    decreases k,
{
    if k <= 0 {
        Seq::empty()
    } else {
        let p = ps[k - 1];
        param_issues(ps, k - 1, context, function) + match p.annotation {
            Some(a) => if contains_ident_ref(a, "Self"@) {
                seq![SelfDiagV { issue: SelfIssueV::Param { context, param: p.name, function }, span: p.name_span }]
            } else {
                Seq::<SelfDiagV>::empty()
            },
            None => Seq::<SelfDiagV>::empty(),
        }
    }
}

/// Every annotation of a function where `Self` is not allowed.
pub open spec fn func_issues(f: FunctionV, context: SelfContext) -> Seq<SelfDiagV> {
    param_issues(f.all_params, f.all_params.len() as int, context, f.name) + match f.return_annotation {
        Some(r) => if contains_ident_ref(r, "Self"@) {
            seq![SelfDiagV { issue: SelfIssueV::Return { context, function: f.name }, span: f.name_span }]
        } else {
            Seq::<SelfDiagV>::empty()
        },
        None => Seq::<SelfDiagV>::empty(),
    }
}

/// A method returning `Self` whose `self`/`cls` is annotated with a type
/// variable (other than `Self`).
pub open spec fn typevar_self_issue(f: FunctionV, tvs: Seq<Seq<char>>) -> Seq<SelfDiagV> {
    if f.params.len() == 0 {
        Seq::empty()
    } else {
        let first = f.params[0];
        if first.name == "self"@ || first.name == "cls"@ {
            match first.annotation {
                Some(a) => {
                    let t = trim(a);
                    if tvs.contains(t) && t != "Self"@ {
                        match f.return_annotation {
                            Some(r) => if contains_ident_ref(r, "Self"@) {
                                seq![
                                    SelfDiagV {
                                        issue: SelfIssueV::TypeVarSelf { function: f.name, typevar: t },
                                        span: f.name_span,
                                    },
                                ]
                            } else {
                                Seq::empty()
                            },
                            None => Seq::empty(),
                        }
                    } else {
                        Seq::empty()
                    }
                },
                None => Seq::empty(),
            }
        } else {
            Seq::empty()
        }
    }
}

/// The findings for one function.
pub open spec fn function_issues(f: FunctionV, tvs: Seq<Seq<char>>, metas: Seq<Seq<char>>) -> Seq<SelfDiagV> {
    match f.class_name {
        None => func_issues(f, SelfContext::ModuleFunction),
        Some(cn) => if f.decorators.contains("staticmethod"@) {
            func_issues(f, SelfContext::StaticMethod)
        } else if metas.contains(cn) {
            func_issues(f, SelfContext::MetaclassMethod)
        } else {
            typevar_self_issue(f, tvs)
        },
    }
}

pub open spec fn functions_issues(fs: Seq<FunctionV>, tvs: Seq<Seq<char>>, metas: Seq<Seq<char>>) -> Seq<SelfDiagV>
    decreases fs.len(),
{
    if fs.len() == 0 {
        Seq::empty()
    } else {
        functions_issues(fs.drop_last(), tvs, metas) + function_issues(fs.last(), tvs, metas)
    }
}

pub open spec fn var_issue(v: VarV) -> Seq<SelfDiagV> {
    match v.annotation {
        None => Seq::empty(),
        Some(a) => {
            let t = trim(a);
            if contains_ident_ref(t, "Self"@) {
                seq![SelfDiagV { issue: SelfIssueV::Variable { name: v.name }, span: v.name_span }]
            } else if t == "TypeAlias"@ {
                match v.rhs {
                    Some(r) => if contains_ident_ref(r, "Self"@) {
                        seq![SelfDiagV { issue: SelfIssueV::Alias { name: v.name }, span: v.name_span }]
                    } else {
                        Seq::empty()
                    },
                    None => Seq::empty(),
                }
            } else {
                Seq::empty()
            }
        },
    }
}

pub open spec fn vars_issues(vs: Seq<VarV>) -> Seq<SelfDiagV>
    decreases vs.len(),
{
    if vs.len() == 0 {
        Seq::empty()
    } else {
        vars_issues(vs.drop_last()) + var_issue(vs.last())
    }
}

pub open spec fn class_issue(c: ClassV) -> Seq<SelfDiagV> {
    if c.base_expression_names.contains("Self"@) {
        seq![SelfDiagV { issue: SelfIssueV::Base { class_name: c.name }, span: c.name_span }]
    } else {
        Seq::empty()
    }
}

pub open spec fn classes_issues(cs: Seq<ClassV>) -> Seq<SelfDiagV>
    decreases cs.len(),
{
    if cs.len() == 0 {
        Seq::empty()
    } else {
        classes_issues(cs.drop_last()) + class_issue(cs.last())
    }
}

/// The names of the plain type variables (not `TypeVarTuple` or `ParamSpec`).
pub open spec fn plain_typevars(ts: Seq<TypeVarCall>) -> Seq<Seq<char>>
    decreases ts.len(),
{
    if ts.len() == 0 {
        Seq::empty()
    } else {
        plain_typevars(ts.drop_last()) + if !ts.last().is_typevartuple && !ts.last().is_paramspec {
            seq![ts.last().name@]
        } else {
            Seq::<Seq<char>>::empty()
        }
    }
}

/// The names of the classes with a base named `type`.
pub open spec fn metaclasses(cs: Seq<ClassV>) -> Seq<Seq<char>>
    decreases cs.len(),
{
    if cs.len() == 0 {
        Seq::empty()
    } else {
        metaclasses(cs.drop_last()) + if cs.last().bases.contains("type"@) {
            seq![cs.last().name]
        } else {
            Seq::<Seq<char>>::empty()
        }
    }
}

/// The findings of a module: functions, then variables, then classes.
pub open spec fn self_report(
    fs: Seq<FunctionV>,
    vs: Seq<VarV>,
    cs: Seq<ClassV>,
    ts: Seq<TypeVarCall>,
) -> Seq<SelfDiagV> {
    functions_issues(fs, plain_typevars(ts), metaclasses(cs)) + vars_issues(vs) + classes_issues(cs)
}

fn push(diagnostics: &mut Vec<SelfDiagnostic>, issue: SelfIssue, span: Span)
    ensures
        diags_view(final(diagnostics)@) == diags_view(old(diagnostics)@).push(
            SelfDiagV { issue: issue_view(issue), span: span_view(span) },
        ),
{
    let ghost before = diags_view(diagnostics@);
    let d = SelfDiagnostic { issue, span };
    diagnostics.push(d);
    proof {
        assert(diags_view(diagnostics@) =~= before.push(diag_view(d)));
    }
}

fn has_name(names: &Vec<Vec<char>>, lit: &str) -> (r: bool)
    ensures
        r == views(names@).contains(lit@),
{
    let t = crate::text::chars_of(lit);
    crate::names::contains_name(names, t.as_slice())
}

fn check_param(
    p: &ParamSite,
    context: SelfContext,
    function: &Vec<char>,
    diagnostics: &mut Vec<SelfDiagnostic>,
)
    ensures
        diags_view(final(diagnostics)@) == diags_view(old(diagnostics)@) + match param_view(*p).annotation {
            Some(a) => if contains_ident_ref(a, "Self"@) {
                seq![
                    SelfDiagV {
                        issue: SelfIssueV::Param { context, param: p.name@, function: function@ },
                        span: span_view(p.name_span),
                    },
                ]
            } else {
                Seq::<SelfDiagV>::empty()
            },
            None => Seq::<SelfDiagV>::empty(),
        },
{
    let ghost before = diags_view(diagnostics@);
    proof {
        assert(before + Seq::<SelfDiagV>::empty() =~= before);
    }
    match &p.annotation {
        Some(a) => {
            if contains_self(a.as_slice()) {
                push(
                    diagnostics,
                    SelfIssue::Param { context, param: copy_text(p.name.as_slice()), function: copy_text(function.as_slice()) },
                    p.name_span,
                );
                proof {
                    assert(diags_view(diagnostics@) =~= before + seq![diags_view(diagnostics@).last()]);
                }
            }
        },
        None => {},
    }
}

/// Reports each annotation of the function that uses `Self` where the context does not allow it.
pub fn check_func_annotations_for_self(
    func: &FunctionSite,
    context: SelfContext,
    diagnostics: &mut Vec<SelfDiagnostic>,
)
    ensures
        diags_view(final(diagnostics)@) == diags_view(old(diagnostics)@) + func_issues(function_view(*func), context),
{
    let ghost fv = function_view(*func);
    let ghost d0 = diags_view(diagnostics@);
    let ghost ps = fv.all_params;
    let mut i: usize = 0;
    proof {
        assert(d0 + param_issues(ps, 0, context, fv.name) =~= d0);
    }
    while i < func.params.len()
        invariant
            i <= func.params@.len(),
            fv == function_view(*func),
            ps == fv.all_params,
            d0 == diags_view(old(diagnostics)@),
            diags_view(diagnostics@) == d0 + param_issues(ps, i as int, context, fv.name),
        decreases func.params.len() - i,
    {
        proof {
            assert(ps[i as int] == param_view(func.params@[i as int]));
        }
        let ghost before = diags_view(diagnostics@);
        check_param(&func.params[i], context, &func.name, diagnostics);
        proof {
            assert(diags_view(diagnostics@) =~= d0 + param_issues(ps, i + 1, context, fv.name));
        }
        i += 1;
    }
    let ghost mut k: int = func.params@.len() as int;
    match &func.vararg {
        Some(p) => {
            proof {
                assert(ps[k] == param_view(*p));
            }
            check_param(p, context, &func.name, diagnostics);
            proof {
                assert(diags_view(diagnostics@) =~= d0 + param_issues(ps, k + 1, context, fv.name));
                k = k + 1;
            }
        },
        None => {},
    }
    match &func.kwarg {
        Some(p) => {
            proof {
                assert(ps[k] == param_view(*p));
            }
            check_param(p, context, &func.name, diagnostics);
            proof {
                assert(diags_view(diagnostics@) =~= d0 + param_issues(ps, k + 1, context, fv.name));
                k = k + 1;
            }
        },
        None => {},
    }
    proof {
        assert(k == ps.len());
    }
    let ghost mid = diags_view(diagnostics@);
    match &func.return_annotation {
        Some(r) => {
            if contains_self(r.as_slice()) {
                push(diagnostics, SelfIssue::Return { context, function: copy_text(func.name.as_slice()) }, func.name_span);
            }
        },
        None => {},
    }
    proof {
        assert(diags_view(diagnostics@) =~= d0 + func_issues(fv, context));
    }
}

/// Detects `Self` in places where it has no class to bind to.
pub struct SelfInvalidLocation;

impl SelfInvalidLocation {
    /// Every finding of a module, in order: functions, variables, classes.
    pub fn check(
        &self,
        functions: &Vec<FunctionSite>,
        module_vars: &Vec<VarSite>,
        classes: &Vec<ClassSite>,
        typevar_calls: &Vec<TypeVarCall>,
    ) -> (r: Vec<SelfDiagnostic>)
        ensures
            diags_view(r@) == self_report(
                functions_view(functions@),
                vars_view(module_vars@),
                classes_view(classes@),
                typevar_calls@,
            ),
    {
        let ghost fs = functions_view(functions@);
        let ghost vs = vars_view(module_vars@);
        let ghost cs = classes_view(classes@);
        // Plain type variables.
        let mut tvs: Vec<Vec<char>> = Vec::new();
        let mut i: usize = 0;
        while i < typevar_calls.len()
            invariant
                i <= typevar_calls@.len(),
                views(tvs@) == plain_typevars(typevar_calls@.take(i as int)),
            decreases typevar_calls.len() - i,
        {
            proof {
                assert(typevar_calls@.take(i + 1).drop_last() =~= typevar_calls@.take(i as int));
            }
            let t = &typevar_calls[i];
            let ghost before = views(tvs@);
            if !t.is_typevartuple && !t.is_paramspec {
                tvs.push(copy_text(t.name.as_slice()));
                proof {
                    assert(views(tvs@) =~= before + seq![t.name@]);
                }
            } else {
                proof {
                    assert(views(tvs@) =~= before + Seq::<Seq<char>>::empty());
                }
            }
            i += 1;
        }
        proof {
            assert(typevar_calls@.take(i as int) =~= typevar_calls@);
        }
        // Metaclasses.
        let mut metas: Vec<Vec<char>> = Vec::new();
        let mut c: usize = 0;
        while c < classes.len()
            invariant
                c <= classes@.len(),
                cs == classes_view(classes@),
                views(metas@) == metaclasses(cs.take(c as int)),
            decreases classes.len() - c,
        {
            proof {
                assert(cs.take(c + 1).drop_last() =~= cs.take(c as int));
                assert(cs.take(c + 1).last() == class_view(classes@[c as int]));
            }
            let ghost before = views(metas@);
            if has_name(&classes[c].bases, "type") {
                metas.push(copy_text(classes[c].name.as_slice()));
                proof {
                    assert(views(metas@) =~= before + seq![classes@[c as int].name@]);
                }
            } else {
                proof {
                    assert(views(metas@) =~= before + Seq::<Seq<char>>::empty());
                }
            }
            c += 1;
        }
        proof {
            assert(cs.take(c as int) =~= cs);
        }
        let mut out: Vec<SelfDiagnostic> = Vec::new();
        let ghost tv = views(tvs@);
        let ghost mv = views(metas@);
        // Functions.
        let mut f: usize = 0;
        proof {
            assert(diags_view(out@) =~= functions_issues(fs.take(0), tv, mv));
        }
        while f < functions.len()
            invariant
                f <= functions@.len(),
                fs == functions_view(functions@),
                tv == views(tvs@),
                mv == views(metas@),
                diags_view(out@) == functions_issues(fs.take(f as int), tv, mv),
            decreases functions.len() - f,
        {
            let func = &functions[f];
            let ghost fv = function_view(*func);
            proof {
                assert(fs.take(f + 1).drop_last() =~= fs.take(f as int));
                assert(fs.take(f + 1).last() == fv);
            }
            let ghost before = diags_view(out@);
            match &func.class_name {
                None => {
                    check_func_annotations_for_self(func, SelfContext::ModuleFunction, &mut out);
                },
                Some(cn) => {
                    if has_name(&func.decorators, "staticmethod") {
                        check_func_annotations_for_self(func, SelfContext::StaticMethod, &mut out);
                    } else if crate::names::contains_name(&metas, cn.as_slice()) {
                        check_func_annotations_for_self(func, SelfContext::MetaclassMethod, &mut out);
                    } else {
                        proof {
                            assert(before + Seq::<SelfDiagV>::empty() =~= before);
                        }
                        if func.params.len() > 0 {
                            let first = &func.params[0];
                            if eq_str(first.name.as_slice(), "self") || eq_str(first.name.as_slice(), "cls") {
                                match &first.annotation {
                                    Some(a) => {
                                        let t = trim_chars(a.as_slice());
                                        if crate::names::contains_name(&tvs, t.as_slice()) && !eq_str(t.as_slice(), "Self") {
                                            match &func.return_annotation {
                                                Some(r) => {
                                                    if contains_self(r.as_slice()) {
                                                        push(
                                                            &mut out,
                                                            SelfIssue::TypeVarSelf {
                                                                function: copy_text(func.name.as_slice()),
                                                                typevar: t,
                                                            },
                                                            func.name_span,
                                                        );
                                                    }
                                                },
                                                None => {},
                                            }
                                        }
                                    },
                                    None => {},
                                }
                            }
                        }
                        proof {
                            if func.params@.len() > 0 {
                                assert(fv.params[0] == param_view(func.params@[0]));
                            }
                            assert(diags_view(out@) =~= before + typevar_self_issue(fv, tv));
                        }
                    }
                },
            }
            proof {
                assert(diags_view(out@) =~= functions_issues(fs.take(f + 1), tv, mv));
            }
            f += 1;
        }
        proof {
            assert(fs.take(f as int) =~= fs);
        }
        // Variables.
        let ghost after_fns = diags_view(out@);
        let mut v: usize = 0;
        proof {
            assert(after_fns + vars_issues(vs.take(0)) =~= after_fns);
        }
        while v < module_vars.len()
            invariant
                v <= module_vars@.len(),
                vs == vars_view(module_vars@),
                diags_view(out@) == after_fns + vars_issues(vs.take(v as int)),
            decreases module_vars.len() - v,
        {
            let var = &module_vars[v];
            let ghost vv = var_view(*var);
            proof {
                assert(vs.take(v + 1).drop_last() =~= vs.take(v as int));
                assert(vs.take(v + 1).last() == vv);
            }
            let ghost before = diags_view(out@);
            match &var.annotation {
                None => {},
                Some(a) => {
                    let t = trim_chars(a.as_slice());
                    if contains_self(t.as_slice()) {
                        push(&mut out, SelfIssue::Variable { name: copy_text(var.name.as_slice()) }, var.name_span);
                    } else if eq_str(t.as_slice(), "TypeAlias") {
                        match &var.rhs {
                            Some(r) => {
                                if contains_self(r.as_slice()) {
                                    push(&mut out, SelfIssue::Alias { name: copy_text(var.name.as_slice()) }, var.name_span);
                                }
                            },
                            None => {},
                        }
                    }
                },
            }
            proof {
                assert(diags_view(out@) =~= before + var_issue(vv));
                assert(diags_view(out@) =~= after_fns + vars_issues(vs.take(v + 1)));
            }
            v += 1;
        }
        proof {
            assert(vs.take(v as int) =~= vs);
        }
        // Classes.
        let ghost after_vars = diags_view(out@);
        let mut k: usize = 0;
        proof {
            assert(after_vars + classes_issues(cs.take(0)) =~= after_vars);
        }
        while k < classes.len()
            invariant
                k <= classes@.len(),
                cs == classes_view(classes@),
                diags_view(out@) == after_vars + classes_issues(cs.take(k as int)),
            decreases classes.len() - k,
        {
            let cls = &classes[k];
            proof {
                assert(cs.take(k + 1).drop_last() =~= cs.take(k as int));
                assert(cs.take(k + 1).last() == class_view(*cls));
            }
            let ghost before = diags_view(out@);
            if has_name(&cls.base_expression_names, "Self") {
                push(&mut out, SelfIssue::Base { class_name: copy_text(cls.name.as_slice()) }, cls.name_span);
            }
            proof {
                assert(diags_view(out@) =~= after_vars + classes_issues(cs.take(k + 1)));
            }
            k += 1;
        }
        proof {
            assert(cs.take(k as int) =~= cs);
        }
        out
    }
}

} // verus!
