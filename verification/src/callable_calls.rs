//! Calls of parameters annotated `Callable[[A, B], R]` inside the function:
//! such a parameter takes no keyword arguments, exactly as many positional
//! arguments as its annotation lists, and literal arguments of those types.
//!
//! The function body is given by the parts the check walks: statements that
//! hold an expression, compound statements with their bodies in order, and
//! within expressions the calls with their arguments.
use vstd::prelude::*;

use crate::numbers::{decimal_nat, usize_to_decimal};

use crate::module::copy_text;
use crate::position::Span;
use crate::text::{eq_chars, eq_str, first_where, lemma_first_where_at, lemma_first_where_none};

verus! {

/// A parameter annotated `Callable[[...], R]`: its name, the number of
/// argument types listed (`None` for `Callable[..., R]`) and their text.
pub struct CallableParam {
    pub name: Vec<char>,
    pub expected_args: Option<usize>,
    pub arg_types: Vec<Vec<char>>,
}

/// An expression as the check reads it.
pub enum CallNode {
    /// A call: the name it calls (when the callee is a plain name), its
    /// positional arguments and the values of its keyword arguments.
    Call { callee: Option<Vec<char>>, args: Vec<CallNode>, keywords: Vec<CallNode>, span: Span },
    /// Any other expression, with the type of the literal it is, if it is one.
    Value { literal_type: Option<Vec<char>>, span: Span },
}

/// A statement as the check reads it.
pub enum BodyStmt {
    /// An expression statement, assignment, annotated assignment with a
    /// value, or `return` with a value: the expression.
    Holds(CallNode),
    /// `if`, `for`, `while`, `try` or `with`: its bodies in order.
    Compound(Vec<Vec<BodyStmt>>),
    /// Anything else, nested definitions among it.
    Other,
}

/// What is wrong with a call of a `Callable` parameter.
pub enum CallFinding {
    KeywordArguments,
    TooFewArguments { expected: usize, got: usize },
    TooManyArguments { expected: usize, got: usize },
    /// The 1-based position of the argument, its literal type, the type
    /// expected there.
    ArgumentType { position: usize, actual: Vec<char>, expected: Vec<char> },
}

pub enum CallFindingV {
    KeywordArguments,
    TooFewArguments(nat, nat),
    TooManyArguments(nat, nat),
    ArgumentType(nat, Seq<char>, Seq<char>),
}

pub open spec fn call_finding_view(f: CallFinding) -> CallFindingV {
    match f {
        CallFinding::KeywordArguments => CallFindingV::KeywordArguments,
        CallFinding::TooFewArguments { expected, got } => CallFindingV::TooFewArguments(
            expected as nat,
            got as nat,
        ),
        CallFinding::TooManyArguments { expected, got } => CallFindingV::TooManyArguments(
            expected as nat,
            got as nat,
        ),
        CallFinding::ArgumentType { position, actual, expected } => CallFindingV::ArgumentType(
            position as nat,
            actual@,
            expected@,
        ),
    }
}

/// A finding on a call of the parameter `param`, at `span`.
pub struct CallableCallReport {
    pub param: Vec<char>,
    pub finding: CallFinding,
    pub span: Span,
}

/// The text of a finding on callable parameter `p`.
pub open spec fn call_finding_message(p: Seq<char>, f: CallFindingV) -> Seq<char> {
    match f {
        CallFindingV::KeywordArguments => "`Callable` parameter `"@ + p + "` does not accept keyword arguments"@,
        CallFindingV::TooFewArguments(e, g) => "Too few arguments for `"@ + p + "`: expected "@ + decimal_nat(e)
            + " but got "@ + decimal_nat(g),
        CallFindingV::TooManyArguments(e, g) => "Too many arguments for `"@ + p + "`: expected "@ + decimal_nat(e)
            + " but got "@ + decimal_nat(g),
        CallFindingV::ArgumentType(pos, actual, expected) => "Argument "@ + decimal_nat(pos) + " to `"@ + p
            + "` has incompatible type `"@ + actual + "`; expected `"@ + expected + "`"@,
    }
}

impl CallableCallReport {
    /// The finding's message.
    pub fn message(&self) -> (r: Vec<char>)
        ensures
            r@ == call_finding_message(self.param@, call_finding_view(self.finding)),
    {
        let p = self.param.as_slice();
        match &self.finding {
            CallFinding::KeywordArguments => {
                let mut m = crate::text::chars_of("`Callable` parameter `");
                crate::text::push_chars(&mut m, p);
                crate::text::push_lit(&mut m, "` does not accept keyword arguments");
                m
            },
            CallFinding::TooFewArguments { expected, got } => {
                let mut m = crate::text::chars_of("Too few arguments for `");
                crate::text::push_chars(&mut m, p);
                crate::text::push_lit(&mut m, "`: expected ");
                crate::text::push_chars(&mut m, usize_to_decimal(*expected).as_slice());
                crate::text::push_lit(&mut m, " but got ");
                crate::text::push_chars(&mut m, usize_to_decimal(*got).as_slice());
                m
            },
            CallFinding::TooManyArguments { expected, got } => {
                let mut m = crate::text::chars_of("Too many arguments for `");
                crate::text::push_chars(&mut m, p);
                crate::text::push_lit(&mut m, "`: expected ");
                crate::text::push_chars(&mut m, usize_to_decimal(*expected).as_slice());
                crate::text::push_lit(&mut m, " but got ");
                crate::text::push_chars(&mut m, usize_to_decimal(*got).as_slice());
                m
            },
            CallFinding::ArgumentType { position, actual, expected } => {
                let mut m = crate::text::chars_of("Argument ");
                crate::text::push_chars(&mut m, usize_to_decimal(*position).as_slice());
                crate::text::push_lit(&mut m, " to `");
                crate::text::push_chars(&mut m, p);
                crate::text::push_lit(&mut m, "` has incompatible type `");
                crate::text::push_chars(&mut m, actual.as_slice());
                crate::text::push_lit(&mut m, "`; expected `");
                crate::text::push_chars(&mut m, expected.as_slice());
                crate::text::push_lit(&mut m, "`");
                m
            },
        }
    }
}

pub open spec fn ccr_view(r: CallableCallReport) -> (Seq<char>, CallFindingV, Span) {
    (r.param@, call_finding_view(r.finding), r.span)
}

pub open spec fn ccrs_view(v: Seq<CallableCallReport>) -> Seq<(Seq<char>, CallFindingV, Span)> {
    v.map_values(|r: CallableCallReport| ccr_view(r))
}

fn push_ccr(out: &mut Vec<CallableCallReport>, param: &[char], finding: CallFinding, span: Span)
    ensures
        ccrs_view(final(out)@) == ccrs_view(old(out)@).push((param@, call_finding_view(finding), span)),
{
    let ghost before = ccrs_view(out@);
    let ghost fv = call_finding_view(finding);
    out.push(CallableCallReport { param: copy_text(param), finding, span });
    proof {
        assert(ccrs_view(out@) =~= before.push((param@, fv, span)));
    }
}

// ---------------------------------------------------------------------------
// One call
// ---------------------------------------------------------------------------

/// `is_type_compatible` of this rule: equal, `int` for `float`, `bool` for
/// `int`, or anything for `Any` and `object`.
pub open spec fn literal_fits(actual: Seq<char>, expected: Seq<char>) -> bool {
    actual == expected || (actual == "int"@ && expected == "float"@) || (actual == "bool"@ && expected
        == "int"@) || expected == "Any"@ || expected == "object"@
}

fn literal_fits_exec(actual: &[char], expected: &[char]) -> (r: bool)
    ensures
        r == literal_fits(actual@, expected@),
{
    eq_chars(actual, expected) || (eq_str(actual, "int") && eq_str(expected, "float")) || (eq_str(
        actual,
        "bool",
    ) && eq_str(expected, "int")) || eq_str(expected, "Any") || eq_str(expected, "object")
}

pub open spec fn node_type(n: CallNode) -> Option<Seq<char>> {
    match n {
        CallNode::Value { literal_type, .. } => match literal_type {
            Some(t) => Some(t@),
            None => None,
        },
        CallNode::Call { .. } => None,
    }
}

pub open spec fn node_span(n: CallNode) -> Span {
    match n {
        CallNode::Value { span, .. } => span,
        CallNode::Call { span, .. } => span,
    }
}

/// `check_arg_types` over the first `n` argument/type pairs.
pub open spec fn arg_type_reports(p: CallableParam, args: Seq<CallNode>, n: int) -> Seq<
    (Seq<char>, CallFindingV, Span),
>
    decreases n,
{
    if n <= 0 {
        Seq::empty()
    } else {
        let prev = arg_type_reports(p, args, n - 1);
        let expected = p.arg_types@[n - 1]@;
        match node_type(args[n - 1]) {
            Some(t) => if literal_fits(t, expected) {
                prev
            } else {
                prev.push((p.name@, CallFindingV::ArgumentType(n as nat, t, expected), node_span(args[n - 1])))
            },
            None => prev,
        }
    }
}

/// `validate_call`: keyword arguments; else, against a listed number of
/// argument types, too few or too many positional arguments; else the
/// literal types of the arguments.
pub open spec fn validate(p: CallableParam, args: Seq<CallNode>, keywords: Seq<CallNode>, span: Span) -> Seq<
    (Seq<char>, CallFindingV, Span),
> {
    if keywords.len() > 0 {
        seq![(p.name@, CallFindingV::KeywordArguments, span)]
    } else {
        match p.expected_args {
            None => Seq::empty(),
            Some(e) => if args.len() < e {
                seq![(p.name@, CallFindingV::TooFewArguments(e as nat, args.len()), span)]
            } else if args.len() > e {
                seq![(p.name@, CallFindingV::TooManyArguments(e as nat, args.len()), span)]
            } else {
                arg_type_reports(
                    p,
                    args,
                    if args.len() < p.arg_types@.len() {
                        args.len() as int
                    } else {
                        p.arg_types@.len() as int
                    },
                )
            },
        }
    }
}

fn validate_call(
    p: &CallableParam,
    args: &Vec<CallNode>,
    keywords: &Vec<CallNode>,
    span: Span,
    out: &mut Vec<CallableCallReport>,
)
    ensures
        ccrs_view(final(out)@) == ccrs_view(old(out)@) + validate(*p, args@, keywords@, span),
{
    let ghost start = ccrs_view(out@);
    if keywords.len() > 0 {
        push_ccr(out, p.name.as_slice(), CallFinding::KeywordArguments, span);
        assert(ccrs_view(out@) =~= start + validate(*p, args@, keywords@, span));
        return;
    }
    let e = match p.expected_args {
        Some(e) => e,
        None => {
            assert(ccrs_view(out@) =~= start + Seq::empty());
            return;
        },
    };
    let got = args.len();
    if got < e {
        push_ccr(out, p.name.as_slice(), CallFinding::TooFewArguments { expected: e, got }, span);
        assert(ccrs_view(out@) =~= start + validate(*p, args@, keywords@, span));
        return;
    }
    if got > e {
        push_ccr(out, p.name.as_slice(), CallFinding::TooManyArguments { expected: e, got }, span);
        assert(ccrs_view(out@) =~= start + validate(*p, args@, keywords@, span));
        return;
    }
    let n = if got < p.arg_types.len() {
        got
    } else {
        p.arg_types.len()
    };
    let mut i: usize = 0;
    proof {
        assert(ccrs_view(out@) =~= start + arg_type_reports(*p, args@, 0));
    }
    while i < n
        invariant
            i <= n,
            n <= args@.len(),
            n <= p.arg_types@.len(),
            ccrs_view(out@) == start + arg_type_reports(*p, args@, i as int),
        decreases n - i,
    {
        let ghost before = ccrs_view(out@);
        match &args[i] {
            CallNode::Value { literal_type: Some(t), span: s } => {
                if !literal_fits_exec(t.as_slice(), p.arg_types[i].as_slice()) {
                    push_ccr(
                        out,
                        p.name.as_slice(),
                        CallFinding::ArgumentType {
                            position: i + 1,
                            actual: copy_text(t.as_slice()),
                            expected: copy_text(p.arg_types[i].as_slice()),
                        },
                        *s,
                    );
                }
            },
            _ => {},
        }
        proof {
            assert(ccrs_view(out@) =~= start + arg_type_reports(*p, args@, i + 1));
        }
        i += 1;
    }
}

// ---------------------------------------------------------------------------
// The walk
// ---------------------------------------------------------------------------

/// The first `Callable` parameter of the name.
pub open spec fn param_named(cps: Seq<CallableParam>, name: Seq<char>) -> spec_fn(int) -> bool {
    |j: int| cps[j].name@ == name
}

fn find_param(cps: &Vec<CallableParam>, name: &[char]) -> (r: Option<usize>)
    ensures
        match r {
            Some(j) => j < cps@.len() && first_where(param_named(cps@, name@), cps@.len() as int) == Some(
                j as int,
            ),
            None => first_where(param_named(cps@, name@), cps@.len() as int) is None,
        },
{
    let mut j: usize = 0;
    while j < cps.len()
        invariant
            j <= cps@.len(),
            forall|m: int| 0 <= m < j ==> !#[trigger] param_named(cps@, name@)(m),
        decreases cps.len() - j,
    {
        if eq_chars(cps[j].name.as_slice(), name) {
            proof {
                assert(param_named(cps@, name@)(j as int));
                lemma_first_where_at(param_named(cps@, name@), j as int, cps@.len() as int);
            }
            return Some(j);
        }
        proof {
            assert(!param_named(cps@, name@)(j as int));
        }
        j += 1;
    }
    proof {
        lemma_first_where_none(param_named(cps@, name@), cps@.len() as int);
    }
    None
}

/// `check_expr_for_call`: a call of a `Callable` parameter is validated, then
/// the calls among its arguments, then among its keyword values.
pub open spec fn node_reports(n: CallNode, cps: Seq<CallableParam>) -> Seq<(Seq<char>, CallFindingV, Span)>
    decreases n,
{
    match n {
        CallNode::Call { callee, args, keywords, span } => {
            let head = match callee {
                Some(c) => match first_where(param_named(cps, c@), cps.len() as int) {
                    Some(j) => validate(cps[j], args@, keywords@, span),
                    None => Seq::empty(),
                },
                None => Seq::empty(),
            };
            head + nodes_reports(args@, cps) + nodes_reports(keywords@, cps)
        },
        CallNode::Value { .. } => Seq::empty(),
    }
}

pub open spec fn nodes_reports(ns: Seq<CallNode>, cps: Seq<CallableParam>) -> Seq<(Seq<char>, CallFindingV, Span)>
    decreases ns,
{
    if ns.len() == 0 {
        Seq::empty()
    } else {
        nodes_reports(ns.drop_last(), cps) + node_reports(ns.last(), cps)
    }
}

/// The findings for the calls of callable parameters that one statement holds, in source order.
pub open spec fn stmt_reports(s: BodyStmt, cps: Seq<CallableParam>) -> Seq<(Seq<char>, CallFindingV, Span)>
    decreases s,
{
    match s {
        BodyStmt::Holds(e) => node_reports(e, cps),
        BodyStmt::Compound(bodies) => bodies_reports(bodies@, cps),
        BodyStmt::Other => Seq::empty(),
    }
}

pub open spec fn stmts_reports(ss: Seq<BodyStmt>, cps: Seq<CallableParam>) -> Seq<(Seq<char>, CallFindingV, Span)>
    decreases ss,
{
    if ss.len() == 0 {
        Seq::empty()
    } else {
        stmts_reports(ss.drop_last(), cps) + stmt_reports(ss.last(), cps)
    }
}

pub open spec fn bodies_reports(bs: Seq<Vec<BodyStmt>>, cps: Seq<CallableParam>) -> Seq<
    (Seq<char>, CallFindingV, Span),
>
    decreases bs,
{
    if bs.len() == 0 {
        Seq::empty()
    } else {
        bodies_reports(bs.drop_last(), cps) + stmts_reports(bs.last()@, cps)
    }
}

/// Appends the findings for the calls of callable parameters within one expression.
pub fn check_expr_for_call(n: &CallNode, cps: &Vec<CallableParam>, out: &mut Vec<CallableCallReport>)
    ensures
        ccrs_view(final(out)@) == ccrs_view(old(out)@) + node_reports(*n, cps@),
    decreases n,
{
    match n {
        CallNode::Call { callee, args, keywords, span } => {
            let ghost start = ccrs_view(out@);
            match callee {
                Some(c) => match find_param(cps, c.as_slice()) {
                    Some(j) => validate_call(&cps[j], args, keywords, *span, out),
                    None => {
                        assert(ccrs_view(out@) =~= start + Seq::empty());
                    },
                },
                None => {
                    assert(ccrs_view(out@) =~= start + Seq::empty());
                },
            }
            let ghost mid = ccrs_view(out@);
            proof {
                assert(decreases_to!(*n => n->Call_args));
                assert(decreases_to!(*n => n->Call_keywords));
            }
            check_exprs_for_calls(args, cps, out);
            let ghost mid2 = ccrs_view(out@);
            check_exprs_for_calls(keywords, cps, out);
            proof {
                assert(ccrs_view(out@) =~= start + node_reports(*n, cps@));
            }
        },
        CallNode::Value { .. } => {
            assert(ccrs_view(out@) =~= ccrs_view(out@) + Seq::empty());
        },
    }
}

fn check_exprs_for_calls(ns: &Vec<CallNode>, cps: &Vec<CallableParam>, out: &mut Vec<CallableCallReport>)
    ensures
        ccrs_view(final(out)@) == ccrs_view(old(out)@) + nodes_reports(ns@, cps@),
    decreases ns,
{
    let ghost start = ccrs_view(out@);
    let mut i: usize = 0;
    while i < ns.len()
        invariant
            i <= ns@.len(),
            ccrs_view(out@) == start + nodes_reports(ns@.take(i as int), cps@),
        decreases ns.len() - i,
    {
        proof {
            vstd::std_specs::vec::axiom_vec_index_decreases(*ns, i as int);
            assert(ns@.take(i + 1).drop_last() =~= ns@.take(i as int));
        }
        check_expr_for_call(&ns[i], cps, out);
        proof {
            assert(ns@.take(i + 1).last() == ns@[i as int]);
            assert(ccrs_view(out@) =~= start + nodes_reports(ns@.take(i + 1), cps@));
        }
        i += 1;
    }
    proof {
        assert(ns@.take(i as int) =~= ns@);
    }
}

/// Appends the findings for the calls of callable parameters within one statement.
pub fn check_stmt_calls(s: &BodyStmt, cps: &Vec<CallableParam>, out: &mut Vec<CallableCallReport>)
    ensures
        ccrs_view(final(out)@) == ccrs_view(old(out)@) + stmt_reports(*s, cps@),
    decreases s,
{
    match s {
        BodyStmt::Holds(e) => check_expr_for_call(e, cps, out),
        BodyStmt::Compound(bodies) => {
            let ghost start = ccrs_view(out@);
            let mut i: usize = 0;
            while i < bodies.len()
                invariant
                    i <= bodies@.len(),
                    s == BodyStmt::Compound(*bodies),
                    ccrs_view(out@) == start + bodies_reports(bodies@.take(i as int), cps@),
                decreases bodies.len() - i,
            {
                proof {
                    assert(decreases_to!(*s => s->Compound_0));
                    vstd::std_specs::vec::axiom_vec_index_decreases(*bodies, i as int);
                    assert(bodies@.take(i + 1).drop_last() =~= bodies@.take(i as int));
                }
                check_body_calls(&bodies[i], cps, out);
                proof {
                    assert(bodies@.take(i + 1).last() == bodies@[i as int]);
                    assert(ccrs_view(out@) =~= start + bodies_reports(bodies@.take(i + 1), cps@));
                }
                i += 1;
            }
            proof {
                assert(bodies@.take(i as int) =~= bodies@);
            }
        },
        BodyStmt::Other => {
            assert(ccrs_view(out@) =~= ccrs_view(out@) + Seq::empty());
        },
    }
}

/// Appends the findings for the calls of callable parameters within a body, statement by statement.
pub fn check_body_calls(ss: &Vec<BodyStmt>, cps: &Vec<CallableParam>, out: &mut Vec<CallableCallReport>)
    ensures
        ccrs_view(final(out)@) == ccrs_view(old(out)@) + stmts_reports(ss@, cps@),
    decreases ss,
{
    let ghost start = ccrs_view(out@);
    let mut i: usize = 0;
    while i < ss.len()
        invariant
            i <= ss@.len(),
            ccrs_view(out@) == start + stmts_reports(ss@.take(i as int), cps@),
        decreases ss.len() - i,
    {
        proof {
            vstd::std_specs::vec::axiom_vec_index_decreases(*ss, i as int);
            assert(ss@.take(i + 1).drop_last() =~= ss@.take(i as int));
        }
        check_stmt_calls(&ss[i], cps, out);
        proof {
            assert(ss@.take(i + 1).last() == ss@[i as int]);
            assert(ccrs_view(out@) =~= start + stmts_reports(ss@.take(i + 1), cps@));
        }
        i += 1;
    }
    proof {
        assert(ss@.take(i as int) =~= ss@);
    }
}

/// `check_function`: the calls of its `Callable` parameters in its body;
/// nothing when it has none.
pub fn check_function(params: &Vec<CallableParam>, body: &Vec<BodyStmt>) -> (r: Vec<CallableCallReport>)
    ensures
        params@.len() == 0 ==> r@.len() == 0,
        params@.len() > 0 ==> ccrs_view(r@) == stmts_reports(body@, params@),
{
    let mut out: Vec<CallableCallReport> = Vec::new();
    if params.len() == 0 {
        return out;
    }
    check_body_calls(body, params, &mut out);
    proof {
        assert(ccrs_view(out@) =~= Seq::empty() + stmts_reports(body@, params@));
    }
    out
}

} // verus!
