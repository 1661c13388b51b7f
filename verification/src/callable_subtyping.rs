//! A `Callable[[...], R]` parameter assigned to a local annotated with
//! another `Callable` type that it is not a subtype of: return types are
//! covariant, parameter types contravariant.
use vstd::prelude::*;

use crate::assoc::{assoc_find, assoc_get, assoc_insert, lemma_found_index};
use crate::ast::{Expr, Parameter, Stmt};
use crate::module::copy_text;
use crate::position::Span;
use crate::text::{
    ends_with, ends_with_lit, eq_chars, eq_str, first_where, lemma_first_where_at,
    lemma_first_where_none, lemma_first_where_some, slice_of, split_top_commas_all,
    split_top_level_commas, starts_with, starts_with_lit, trim, trim_chars, views,
};
use crate::variance::{is_numeric_subtype, numeric_subtype};

verus! {

/// Nesting of `(` and `[` before index `i`, a closer never taking it below
/// zero.
pub open spec fn sat_depth(s: Seq<char>, i: int) -> nat
    decreases i,
{
    if i <= 0 {
        0
    } else {
        let d = sat_depth(s, i - 1);
        let c = s[i - 1];
        if c == '[' || c == '(' {
            d + 1
        } else if c == ']' || c == ')' {
            if d > 0 {
                (d - 1) as nat
            } else {
                0
            }
        } else {
            d
        }
    }
}

pub proof fn lemma_sat_depth_bound(s: Seq<char>, i: int)
    requires
        0 <= i,
    ensures
        sat_depth(s, i) <= i,
    decreases i,
{
    if i > 0 {
        lemma_sat_depth_bound(s, i - 1);
    }
}

pub open spec fn top_comma(s: Seq<char>) -> spec_fn(int) -> bool {
    |i: int| s[i] == ',' && sat_depth(s, i) == 0
}

/// `split_top_level_comma`: the text before and after the first comma
/// outside brackets.
pub open spec fn split_at_top_comma(s: Seq<char>) -> Option<(Seq<char>, Seq<char>)> {
    match first_where(top_comma(s), s.len() as int) {
        Some(i) => Some((s.take(i), s.skip(i + 1))),
        None => None,
    }
}

pub fn split_top_level_comma(s: &[char]) -> (r: Option<(Vec<char>, Vec<char>)>)
    ensures
        match r {
            Some(p) => split_at_top_comma(s@) == Some((p.0@, p.1@)),
            None => split_at_top_comma(s@) is None,
        },
{
    let mut depth: usize = 0;
    let mut i: usize = 0;
    while i < s.len()
        invariant
            i <= s@.len(),
            depth == sat_depth(s@, i as int),
            forall|j: int| 0 <= j < i ==> !#[trigger] top_comma(s@)(j),
        decreases s.len() - i,
    {
        proof {
            lemma_sat_depth_bound(s@, i as int);
        }
        let c = s[i];
        if c == ',' && depth == 0 {
            proof {
                assert(top_comma(s@)(i as int));
                lemma_first_where_at(top_comma(s@), i as int, s@.len() as int);
            }
            let a = slice_of(s, 0, i);
            let b = slice_of(s, i + 1, s.len());
            proof {
                assert(a@ =~= s@.take(i as int));
                assert(b@ =~= s@.skip(i + 1));
            }
            return Some((a, b));
        }
        proof {
            assert(!top_comma(s@)(i as int));
        }
        if c == '[' || c == '(' {
            depth = depth + 1;
        } else if c == ']' || c == ')' {
            depth = if depth > 0 {
                depth - 1
            } else {
                0
            };
        }
        i += 1;
    }
    proof {
        lemma_first_where_none(top_comma(s@), s@.len() as int);
    }
    None
}

pub open spec fn trim_all(ps: Seq<Seq<char>>) -> Seq<Seq<char>> {
    ps.map_values(|p: Seq<char>| trim(p))
}

/// `parse_callable_sig`: `Callable[[P1, ...], R]` gives the trimmed
/// parameter types and the trimmed return type; `Callable[..., R]` and text
/// of any other shape give nothing.
pub open spec fn callable_sig(s: Seq<char>) -> Option<(Seq<Seq<char>>, Seq<char>)> {
    if !starts_with(s, "Callable["@) || !ends_with(s.skip(9), "]"@) {
        None
    } else {
        match split_at_top_comma(s.skip(9).drop_last()) {
            None => None,
            Some((pp, rp)) => {
                let pt = trim(pp);
                if pt == "..."@ {
                    None
                } else if !(starts_with(pt, "["@) && ends_with(pt.skip(1), "]"@)) {
                    None
                } else {
                    let inner = pt.skip(1).drop_last();
                    Some(
                        (
                            if trim(inner).len() == 0 {
                                Seq::empty()
                            } else {
                                trim_all(split_top_commas_all(inner))
                            },
                            trim(rp),
                        ),
                    )
                }
            },
        }
    }
}

/// A parsed `Callable` type: its parameter types and its return type.
pub struct CallableSig {
    pub param_types: Vec<Vec<char>>,
    pub return_type: Vec<char>,
}

impl View for CallableSig {
    type V = (Seq<Seq<char>>, Seq<char>);

    open spec fn view(&self) -> Self::V {
        (views(self.param_types@), self.return_type@)
    }
}

pub fn parse_callable_sig(s: &[char]) -> (r: Option<CallableSig>)
    ensures
        match r {
            Some(sig) => callable_sig(s@) == Some(sig@),
            None => callable_sig(s@) is None,
        },
{
    if !starts_with_lit(s, "Callable[") {
        return None;
    }
    proof {
        reveal_strlit("Callable[");
        reveal_strlit("]");
    }
    let rest = slice_of(s, 9, s.len());
    proof {
        assert(rest@ =~= s@.skip(9));
    }
    if !ends_with_lit(rest.as_slice(), "]") {
        return None;
    }
    let inner = slice_of(rest.as_slice(), 0, rest.len() - 1);
    proof {
        assert(inner@ =~= rest@.drop_last());
    }
    let (pp, rp) = match split_top_level_comma(inner.as_slice()) {
        Some(p) => p,
        None => return None,
    };
    let pt = trim_chars(pp.as_slice());
    if eq_str(pt.as_slice(), "...") {
        return None;
    }
    if !starts_with_lit(pt.as_slice(), "[") {
        return None;
    }
    proof {
        reveal_strlit("[");
    }
    let after = slice_of(pt.as_slice(), 1, pt.len());
    proof {
        assert(after@ =~= pt@.skip(1));
    }
    if !ends_with_lit(after.as_slice(), "]") {
        return None;
    }
    let params_inner = slice_of(after.as_slice(), 0, after.len() - 1);
    proof {
        assert(params_inner@ =~= after@.drop_last());
    }
    let return_type = trim_chars(rp.as_slice());
    let t = trim_chars(params_inner.as_slice());
    let mut param_types: Vec<Vec<char>> = Vec::new();
    if t.len() > 0 {
        let parts = split_top_level_commas(params_inner.as_slice());
        let mut k: usize = 0;
        while k < parts.len()
            invariant
                k <= parts@.len(),
                views(param_types@) == trim_all(views(parts@).take(k as int)),
            decreases parts.len() - k,
        {
            let ghost before = views(param_types@);
            let piece = trim_chars(parts[k].as_slice());
            param_types.push(piece);
            proof {
                assert(views(parts@).take(k + 1) =~= views(parts@).take(k as int).push(
                    parts@[k as int]@,
                ));
                assert(views(param_types@) =~= before.push(piece@));
                assert(trim_all(views(parts@).take(k + 1)) =~= trim_all(views(parts@).take(k as int)).push(
                    trim(parts@[k as int]@),
                ));
            }
            k += 1;
        }
        proof {
            assert(views(parts@).take(k as int) =~= views(parts@));
        }
    } else {
        proof {
            assert(views(param_types@) =~= Seq::<Seq<char>>::empty());
        }
    }
    Some(CallableSig { param_types, return_type })
}

/// `is_subtype`: equal types, `object` or `Any` on the right, `Any` on the
/// left, or the numeric tower.
pub open spec fn subtype(candidate: Seq<char>, required: Seq<char>) -> bool {
    candidate == required || required == "object"@ || required == "Any"@ || candidate == "Any"@
        || numeric_subtype(candidate, required)
}

/// Every type is a subtype of itself, of `object` and of `Any`, and `Any`
/// is a subtype of every type.
pub proof fn law_subtype(t: Seq<char>)
    ensures
        subtype(t, t),
        subtype(t, "object"@),
        subtype(t, "Any"@),
        subtype("Any"@, t),
{
}

pub fn is_subtype(candidate: &[char], required: &[char]) -> (r: bool)
    ensures
        r == subtype(candidate@, required@),
{
    eq_chars(candidate, required) || eq_str(required, "object") || eq_str(required, "Any") || eq_str(
        candidate,
        "Any",
    ) || is_numeric_subtype(candidate, required)
}

/// `return_type_compat`: the source's return type is a subtype of the
/// target's.
pub fn return_type_compat(source_ret: &[char], target_ret: &[char]) -> (r: bool)
    ensures
        r == subtype(source_ret@, target_ret@),
{
    is_subtype(source_ret, target_ret)
}

/// `param_types_compat`: lists of different lengths pass; otherwise each
/// target parameter type is a subtype of the source's.
pub open spec fn params_compat(source: Seq<Seq<char>>, target: Seq<Seq<char>>) -> bool {
    source.len() != target.len() || forall|i: int|
        0 <= i < source.len() ==> subtype(#[trigger] target[i], source[i])
}

pub fn param_types_compat(source: &Vec<Vec<char>>, target: &Vec<Vec<char>>) -> (r: bool)
    ensures
        r == params_compat(views(source@), views(target@)),
{
    if source.len() != target.len() {
        return true;
    }
    let mut i: usize = 0;
    while i < source.len()
        invariant
            i <= source@.len(),
            source@.len() == target@.len(),
            forall|j: int| 0 <= j < i ==> subtype(#[trigger] views(target@)[j], views(source@)[j]),
        decreases source.len() - i,
    {
        if !is_subtype(target[i].as_slice(), source[i].as_slice()) {
            assert(!subtype(views(target@)[i as int], views(source@)[i as int]));
            return false;
        }
        i += 1;
    }
    true
}

/// What is wrong with an assignment.
pub enum CallableViolation {
    /// The source callable returns `source_ret`, not a subtype of `target_ret`.
    ReturnType { source_ret: Vec<char>, target_ret: Vec<char> },
    /// The parameter types of `rhs_name` are not supertypes of those of `annotation`.
    ParamTypes { rhs_name: Vec<char>, annotation: Vec<char> },
}

pub enum CallableFinding {
    ReturnType(Seq<char>, Seq<char>),
    ParamTypes(Seq<char>, Seq<char>),
}

impl View for CallableViolation {
    type V = CallableFinding;

    open spec fn view(&self) -> CallableFinding {
        match self {
            CallableViolation::ReturnType { source_ret, target_ret } => CallableFinding::ReturnType(
                source_ret@,
                target_ret@,
            ),
            CallableViolation::ParamTypes { rhs_name, annotation } => CallableFinding::ParamTypes(
                rhs_name@,
                annotation@,
            ),
        }
    }
}

/// A violation and the span of the annotated assignment.
pub struct CallableDiagnostic {
    pub violation: CallableViolation,
    pub span: Span,
}

impl View for CallableDiagnostic {
    type V = (CallableFinding, Span);

    open spec fn view(&self) -> Self::V {
        (self.violation@, self.span)
    }
}

/// The text of a finding.
pub open spec fn callable_message(f: CallableFinding) -> Seq<char> {
    match f {
        CallableFinding::ReturnType(source_ret, target_ret) => "Callable subtyping violation: return type `"@
            + source_ret + "` is not a subtype of `"@ + target_ret + "` (return types must be covariant)"@,
        CallableFinding::ParamTypes(rhs_name, annotation) => "Callable subtyping violation: parameter type(s) of `"@
            + rhs_name + "` are not supertypes of `"@ + annotation
            + "` parameter types (parameters must be contravariant)"@,
    }
}

impl CallableDiagnostic {
    /// The finding's message.
    pub fn message(&self) -> (r: Vec<char>)
        ensures
            r@ == callable_message(self.violation@),
    {
        match &self.violation {
            CallableViolation::ReturnType { source_ret, target_ret } => {
                let mut m = crate::text::chars_of("Callable subtyping violation: return type `");
                crate::text::push_chars(&mut m, source_ret.as_slice());
                crate::text::push_lit(&mut m, "` is not a subtype of `");
                crate::text::push_chars(&mut m, target_ret.as_slice());
                crate::text::push_lit(&mut m, "` (return types must be covariant)");
                m
            },
            CallableViolation::ParamTypes { rhs_name, annotation } => {
                let mut m = crate::text::chars_of("Callable subtyping violation: parameter type(s) of `");
                crate::text::push_chars(&mut m, rhs_name.as_slice());
                crate::text::push_lit(&mut m, "` are not supertypes of `");
                crate::text::push_chars(&mut m, annotation.as_slice());
                crate::text::push_lit(&mut m, "` parameter types (parameters must be contravariant)");
                m
            },
        }
    }
}

pub open spec fn callable_diags_view(v: Seq<CallableDiagnostic>) -> Seq<(CallableFinding, Span)> {
    v.map_values(|d: CallableDiagnostic| d@)
}

/// `collect_callable_params`: the parameters annotated with a parseable
/// `Callable`, by name; a later parameter of the same name wins.
pub open spec fn callable_params(ps: Seq<Parameter>) -> Seq<(Seq<char>, (Seq<Seq<char>>, Seq<char>))>
    decreases ps.len(),
{
    if ps.len() == 0 {
        Seq::empty()
    } else {
        let t = callable_params(ps.drop_last());
        match ps.last().annotation {
            Some(a) => match callable_sig(a@) {
                Some(sig) => assoc_insert(t, ps.last().name@, sig),
                None => t,
            },
            None => t,
        }
    }
}

/// The finding for one statement of a function body, if any.
pub open spec fn stmt_finding(s: Stmt, pc: Seq<(Seq<char>, (Seq<Seq<char>>, Seq<char>))>) -> Option<
    (CallableFinding, Span),
> {
    match s {
        Stmt::AnnAssign { annotation, assigned, span, .. } => match assigned {
            None => None,
            Some(value) => if !starts_with(annotation@, "Callable["@) {
                None
            } else {
                match callable_sig(annotation@) {
                    None => None,
                    Some(target) => match value {
                        Expr::Name { id, .. } => match assoc_get(pc, id@) {
                            None => None,
                            Some(source) => if !subtype(source.1, target.1) {
                                Some((CallableFinding::ReturnType(source.1, target.1), span))
                            } else if !params_compat(source.0, target.0) {
                                Some((CallableFinding::ParamTypes(id@, annotation@), span))
                            } else {
                                None
                            },
                        },
                        _ => None,
                    },
                }
            },
        },
        _ => None,
    }
}

/// `check_func_body`: the findings of the statements of a body (not looking
/// into nested blocks).
pub open spec fn body_findings(ss: Seq<Stmt>, pc: Seq<(Seq<char>, (Seq<Seq<char>>, Seq<char>))>) -> Seq<
    (CallableFinding, Span),
>
    decreases ss.len(),
{
    if ss.len() == 0 {
        Seq::empty()
    } else {
        body_findings(ss.drop_last(), pc) + match stmt_finding(ss.last(), pc) {
            Some(f) => seq![f],
            None => Seq::empty(),
        }
    }
}

/// `check_stmts`: the findings of each function, and of each function of
/// each class, nested classes included.
pub open spec fn stmts_findings(ss: Seq<Stmt>) -> Seq<(CallableFinding, Span)>
    decreases ss,
{
    if ss.len() == 0 {
        Seq::empty()
    } else {
        stmts_findings(ss.drop_last()) + def_findings(ss.last())
    }
}

pub open spec fn def_findings(s: Stmt) -> Seq<(CallableFinding, Span)>
    decreases s,
{
    match s {
        Stmt::FunctionDef { params, body, .. } => body_findings(body@, callable_params(params@)),
        Stmt::ClassDef { body, .. } => stmts_findings(body@),
        _ => Seq::empty(),
    }
}

pub open spec fn sigs_table(m: Seq<(Vec<char>, CallableSig)>) -> Seq<(Seq<char>, (Seq<Seq<char>>, Seq<char>))> {
    m.map_values(|e: (Vec<char>, CallableSig)| (e.0@, e.1@))
}

fn sig_put(m: &mut Vec<(Vec<char>, CallableSig)>, k: Vec<char>, v: CallableSig)
    ensures
        sigs_table(final(m)@) == assoc_insert(sigs_table(old(m)@), k@, v@),
{
    let ghost mv = sigs_table(m@);
    let f = assoc_find(m, k.as_slice());
    proof {
        lemma_found_index(m@, mv, k@, f);
    }
    let ghost entry = (k@, v@);
    match f {
        Some(i) => {
            m.set(i, (k, v));
            proof {
                assert(sigs_table(m@) =~= mv.update(i as int, entry));
            }
        },
        None => {
            m.push((k, v));
            proof {
                assert(sigs_table(m@) =~= mv.push(entry));
            }
        },
    }
}

/// `collect_callable_params`, as `callable_params` states.
pub fn collect_callable_params(params: &Vec<Parameter>) -> (r: Vec<(Vec<char>, CallableSig)>)
    ensures
        sigs_table(r@) == callable_params(params@),
{
    let mut out: Vec<(Vec<char>, CallableSig)> = Vec::new();
    let mut k: usize = 0;
    proof {
        assert(sigs_table(out@) =~= callable_params(params@.take(0)));
    }
    while k < params.len()
        invariant
            k <= params@.len(),
            sigs_table(out@) == callable_params(params@.take(k as int)),
        decreases params.len() - k,
    {
        proof {
            assert(params@.take(k + 1).drop_last() =~= params@.take(k as int));
            assert(params@.take(k + 1).last() == params@[k as int]);
        }
        if let Some(a) = &params[k].annotation {
            if let Some(sig) = parse_callable_sig(a.as_slice()) {
                sig_put(&mut out, copy_text(params[k].name.as_slice()), sig);
            }
        }
        k += 1;
    }
    proof {
        assert(params@.take(k as int) =~= params@);
    }
    out
}

fn check_ann_assign(s: &Stmt, pc: &Vec<(Vec<char>, CallableSig)>) -> (r: Option<CallableDiagnostic>)
    ensures
        match r {
            Some(d) => stmt_finding(*s, sigs_table(pc@)) == Some(d@),
            None => stmt_finding(*s, sigs_table(pc@)) is None,
        },
{
    if let Stmt::AnnAssign { annotation, assigned, span, .. } = s {
        let value = match assigned {
            Some(v) => v,
            None => return None,
        };
        if !starts_with_lit(annotation.as_slice(), "Callable[") {
            return None;
        }
        let target = match parse_callable_sig(annotation.as_slice()) {
            Some(t) => t,
            None => return None,
        };
        let id = match value {
            Expr::Name { id, .. } => id,
            _ => return None,
        };
        let f = assoc_find(pc, id.as_slice());
        proof {
            lemma_found_index(pc@, sigs_table(pc@), id@, f);
        }
        let i = match f {
            Some(i) => i,
            None => return None,
        };
        let source = &pc[i].1;
        proof {
            assert(sigs_table(pc@)[i as int] == (pc@[i as int].0@, pc@[i as int].1@));
        }
        if !return_type_compat(source.return_type.as_slice(), target.return_type.as_slice()) {
            return Some(
                CallableDiagnostic {
                    violation: CallableViolation::ReturnType {
                        source_ret: copy_text(source.return_type.as_slice()),
                        target_ret: target.return_type,
                    },
                    span: *span,
                },
            );
        }
        if !param_types_compat(&source.param_types, &target.param_types) {
            return Some(
                CallableDiagnostic {
                    violation: CallableViolation::ParamTypes {
                        rhs_name: copy_text(id.as_slice()),
                        annotation: copy_text(annotation.as_slice()),
                    },
                    span: *span,
                },
            );
        }
        None
    } else {
        None
    }
}

/// `check_func_body`, as `body_findings` states.
pub fn check_func_body(
    ss: &Vec<Stmt>,
    pc: &Vec<(Vec<char>, CallableSig)>,
    out: &mut Vec<CallableDiagnostic>,
)
    ensures
        callable_diags_view(final(out)@) == callable_diags_view(old(out)@) + body_findings(
            ss@,
            sigs_table(pc@),
        ),
{
    let ghost start = callable_diags_view(out@);
    let mut k: usize = 0;
    while k < ss.len()
        invariant
            k <= ss@.len(),
            callable_diags_view(out@) == start + body_findings(ss@.take(k as int), sigs_table(pc@)),
        decreases ss.len() - k,
    {
        proof {
            assert(ss@.take(k + 1).drop_last() =~= ss@.take(k as int));
            assert(ss@.take(k + 1).last() == ss@[k as int]);
        }
        let ghost before = callable_diags_view(out@);
        let ghost extra = match stmt_finding(ss@[k as int], sigs_table(pc@)) {
            Some(f) => seq![f],
            None => Seq::empty(),
        };
        proof {
            assert(body_findings(ss@.take(k + 1), sigs_table(pc@)) == body_findings(
                ss@.take(k as int),
                sigs_table(pc@),
            ) + extra);
        }
        match check_ann_assign(&ss[k], pc) {
            Some(d) => {
                out.push(d);
            },
            None => {},
        }
        proof {
            assert(callable_diags_view(out@) =~= before + extra);
        }
        k += 1;
    }
    proof {
        assert(ss@.take(k as int) =~= ss@);
    }
}

/// `check_stmts`, as `stmts_findings` states.
pub fn check_stmts(ss: &Vec<Stmt>, out: &mut Vec<CallableDiagnostic>)
    ensures
        callable_diags_view(final(out)@) == callable_diags_view(old(out)@) + stmts_findings(ss@),
    decreases ss,
{
    let ghost start = callable_diags_view(out@);
    let mut k: usize = 0;
    while k < ss.len()
        invariant
            k <= ss@.len(),
            callable_diags_view(out@) == start + stmts_findings(ss@.take(k as int)),
        decreases ss.len() - k,
    {
        proof {
            vstd::std_specs::vec::axiom_vec_index_decreases(*ss, k as int);
            assert(ss@.take(k + 1).drop_last() =~= ss@.take(k as int));
            assert(ss@.take(k + 1).last() == ss@[k as int]);
        }
        let ghost before = callable_diags_view(out@);
        let s = &ss[k];
        match s {
            Stmt::FunctionDef { params, body, .. } => {
                let pc = collect_callable_params(params);
                check_func_body(body, &pc, out);
            },
            Stmt::ClassDef { body, .. } => {
                proof {
                    assert(decreases_to!(*ss => ss@[k as int]));
                    assert(decreases_to!(ss@[k as int] => ss@[k as int]->ClassDef_body));
                }
                check_stmts(body, out);
            },
            _ => {},
        }
        proof {
            assert(callable_diags_view(out@) =~= before + def_findings(ss@[k as int]));
        }
        k += 1;
    }
    proof {
        assert(ss@.take(k as int) =~= ss@);
    }
}

/// Callable subtyping violations.
pub struct CallableSubtypingViolation;

impl CallableSubtypingViolation {
    /// The findings of a module's statements, as `stmts_findings` states.
    pub fn check(&self, body: &Vec<Stmt>) -> (r: Vec<CallableDiagnostic>)
        ensures
            callable_diags_view(r@) == stmts_findings(body@),
    {
        let mut out: Vec<CallableDiagnostic> = Vec::new();
        proof {
            assert(callable_diags_view(out@) =~= Seq::empty());
        }
        check_stmts(body, &mut out);
        proof {
            assert(callable_diags_view(out@) =~= Seq::empty() + stmts_findings(body@));
        }
        out
    }
}

} // verus!
