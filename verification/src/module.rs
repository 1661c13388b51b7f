//! What the rules read of a resolved module: functions, parameters, calls,
//! classes and variables, with the source text of their annotations.
use vstd::prelude::*;

use crate::position::Span;
use crate::text::views;

verus! {

/// A parameter: its name, where the name is, and the source text of its
/// annotation when it has one.
pub struct ParamSite {
    pub name: Vec<char>,
    pub name_span: Span,
    pub annotation: Option<Vec<char>>,
}

/// A function or method.
pub struct FunctionSite {
    pub name: Vec<char>,
    pub name_span: Span,
    /// The class a method belongs to; `None` for a module-level function.
    pub class_name: Option<Vec<char>>,
    /// Decorator names, as written after `@`.
    pub decorators: Vec<Vec<char>>,
    pub params: Vec<ParamSite>,
    pub vararg: Option<ParamSite>,
    pub kwarg: Option<ParamSite>,
    /// The source text of the return annotation.
    pub return_annotation: Option<Vec<char>>,
}

/// A class.
pub struct ClassSite {
    pub name: Vec<char>,
    pub name_span: Span,
    /// The base class names.
    pub bases: Vec<Vec<char>>,
    /// Every name that occurs in the base class expressions.
    pub base_expression_names: Vec<Vec<char>>,
    /// Whether the class is a protocol.
    pub is_protocol: bool,
}

/// A module-level variable.
pub struct VarSite {
    pub name: Vec<char>,
    pub name_span: Span,
    pub annotation: Option<Vec<char>>,
    /// The source text of the assigned value.
    pub rhs: Option<Vec<char>>,
}

/// An argument of a call: its source text and where it is.
pub struct CallArg {
    pub text: Option<Vec<char>>,
    pub span: Span,
}

/// A module-level call.
pub struct CallSite {
    pub callee: Vec<char>,
    pub args: Vec<CallArg>,
}

/// A `TypeVar`-like declaration.
pub struct TypeVarCall {
    pub name: Vec<char>,
    pub span: Span,
    pub is_typevartuple: bool,
    pub is_paramspec: bool,
}

pub open spec fn opt_chars(o: Option<Vec<char>>) -> Option<Seq<char>> {
    match o {
        Some(v) => Some(v@),
        None => None,
    }
}

pub open spec fn span_view(s: Span) -> (nat, nat) {
    (s.start as nat, s.end as nat)
}

pub struct ParamV {
    pub name: Seq<char>,
    pub name_span: (nat, nat),
    pub annotation: Option<Seq<char>>,
}

pub open spec fn param_view(p: ParamSite) -> ParamV {
    ParamV { name: p.name@, name_span: span_view(p.name_span), annotation: opt_chars(p.annotation) }
}

pub open spec fn params_view(v: Seq<ParamSite>) -> Seq<ParamV> {
    v.map_values(|p: ParamSite| param_view(p))
}

pub open spec fn opt_param_seq(o: Option<ParamSite>) -> Seq<ParamV> {
    match o {
        Some(p) => seq![param_view(p)],
        None => Seq::empty(),
    }
}

pub struct FunctionV {
    pub name: Seq<char>,
    pub name_span: (nat, nat),
    pub class_name: Option<Seq<char>>,
    pub decorators: Seq<Seq<char>>,
    pub params: Seq<ParamV>,
    /// The parameters, then `*args`, then `**kwargs`.
    pub all_params: Seq<ParamV>,
    pub return_annotation: Option<Seq<char>>,
}

pub open spec fn function_view(f: FunctionSite) -> FunctionV {
    FunctionV {
        name: f.name@,
        name_span: span_view(f.name_span),
        class_name: opt_chars(f.class_name),
        decorators: views(f.decorators@),
        params: params_view(f.params@),
        all_params: params_view(f.params@) + opt_param_seq(f.vararg) + opt_param_seq(f.kwarg),
        return_annotation: opt_chars(f.return_annotation),
    }
}

pub open spec fn functions_view(v: Seq<FunctionSite>) -> Seq<FunctionV> {
    v.map_values(|f: FunctionSite| function_view(f))
}

pub struct ClassV {
    pub name: Seq<char>,
    pub name_span: (nat, nat),
    pub bases: Seq<Seq<char>>,
    pub base_expression_names: Seq<Seq<char>>,
    pub is_protocol: bool,
}

pub open spec fn class_view(c: ClassSite) -> ClassV {
    ClassV {
        name: c.name@,
        name_span: span_view(c.name_span),
        bases: views(c.bases@),
        base_expression_names: views(c.base_expression_names@),
        is_protocol: c.is_protocol,
    }
}

pub open spec fn classes_view(v: Seq<ClassSite>) -> Seq<ClassV> {
    v.map_values(|c: ClassSite| class_view(c))
}

pub struct VarV {
    pub name: Seq<char>,
    pub name_span: (nat, nat),
    pub annotation: Option<Seq<char>>,
    pub rhs: Option<Seq<char>>,
}

pub open spec fn var_view(v: VarSite) -> VarV {
    VarV {
        name: v.name@,
        name_span: span_view(v.name_span),
        annotation: opt_chars(v.annotation),
        rhs: opt_chars(v.rhs),
    }
}

pub open spec fn vars_view(v: Seq<VarSite>) -> Seq<VarV> {
    v.map_values(|x: VarSite| var_view(x))
}

pub struct ArgV {
    pub text: Option<Seq<char>>,
    pub span: (nat, nat),
}

pub struct CallV {
    pub callee: Seq<char>,
    pub args: Seq<ArgV>,
}

pub open spec fn call_view(c: CallSite) -> CallV {
    CallV {
        callee: c.callee@,
        args: c.args@.map_values(|a: CallArg| ArgV { text: opt_chars(a.text), span: span_view(a.span) }),
    }
}

pub open spec fn calls_view(v: Seq<CallSite>) -> Seq<CallV> {
    v.map_values(|c: CallSite| call_view(c))
}

/// A copy of a text.
pub fn copy_text(v: &[char]) -> (r: Vec<char>)
    ensures
        r@ == v@,
{
    let mut out: Vec<char> = Vec::new();
    let mut i: usize = 0;
    while i < v.len()
        invariant
            i <= v@.len(),
            out@ == v@.take(i as int),
        decreases v.len() - i,
    {
        out.push(v[i]);
        proof {
            assert(out@ =~= v@.take(i + 1));
        }
        i += 1;
    }
    proof {
        assert(v@.take(i as int) =~= v@);
    }
    out
}

} // verus!
