//! Functions returning `TypeGuard[...]` or `TypeIs[...]` passed where a
//! callable with another return type is expected.
use vstd::prelude::*;

use crate::module::{
    call_view, calls_view, class_view, classes_view, copy_text, function_view, functions_view,
    span_view, ArgV, CallSite, CallV, ClassSite, ClassV, FunctionSite, FunctionV,
};
use crate::position::Span;
use crate::text::{
    depth_pb, ends_with, eq_chars, eq_str, first_where, lemma_depth_pb_bound, lemma_first_where_at,
    lemma_first_where_none, slice_of, starts_with, starts_with_lit, trim, trim_chars, views,
};

verus! {

/// Whether an annotation is `TypeGuard[...]` or `TypeIs[...]`.
pub open spec fn is_guard(ann: Seq<char>) -> bool {
    starts_with(trim(ann), "TypeGuard["@) || starts_with(trim(ann), "TypeIs["@)
}

pub fn is_typeguard_or_typeis(ann_text: &[char]) -> (r: bool)
    ensures
        r == is_guard(ann_text@),
{
    let t = trim_chars(ann_text);
    starts_with_lit(t.as_slice(), "TypeGuard[") || starts_with_lit(t.as_slice(), "TypeIs[")
}

/// The last index below `n` where `p` holds.
pub open spec fn last_where(p: spec_fn(int) -> bool, n: int) -> Option<int>
    decreases n,
{
    if n <= 0 {
        None
    } else if p(n - 1) {
        Some(n - 1)
    } else {
        last_where(p, n - 1)
    }
}

pub proof fn lemma_last_where(p: spec_fn(int) -> bool, n: int)
    ensures
        last_where(p, n) matches Some(i) ==> 0 <= i < n && p(i),
    decreases n,
{
    if n > 0 {
        lemma_last_where(p, n - 1);
    }
}

/// A comma outside `()` and `[]`.
pub open spec fn top_comma(s: Seq<char>) -> spec_fn(int) -> bool {
    |i: int| s[i] == ',' && depth_pb(s, i) == 0
}

/// The text between a prefix and a final `]`.
pub open spec fn inside(s: Seq<char>, prefix: Seq<char>) -> Option<Seq<char>> {
    if starts_with(s, prefix) && s.len() >= prefix.len() + 1 && s.last() == ']' {
        Some(s.subrange(prefix.len() as int, s.len() - 1))
    } else {
        None
    }
}

fn inside_exec(s: &[char], prefix: &str) -> (r: Option<Vec<char>>)
    ensures
        match r {
            Some(v) => inside(s@, prefix@) == Some(v@),
            None => inside(s@, prefix@) is None,
        },
{
    if !starts_with_lit(s, prefix) {
        return None;
    }
    let p = crate::text::chars_of(prefix);
    let n = s.len();
    if n <= p.len() || s[n - 1] != ']' {
        return None;
    }
    Some(slice_of(s, p.len(), n - 1))
}

/// The return type of `Callable[[...], R]`: the trimmed text after the last
/// comma outside brackets, when not empty.
pub open spec fn callable_return(ann: Seq<char>) -> Option<Seq<char>> {
    match inside(trim(ann), "Callable["@) {
        None => None,
        Some(inner) => match last_where(top_comma(inner), inner.len() as int) {
            None => None,
            Some(c) => {
                let r = trim(inner.skip(c + 1));
                if r.len() == 0 {
                    None
                } else {
                    Some(r)
                }
            },
        },
    }
}

/// The return type of a `Callable[[...], R]` annotation; `None` for any other annotation.
pub fn extract_callable_return_type(ann_text: &[char]) -> (r: Option<Vec<char>>)
    ensures
        match r {
            Some(v) => callable_return(ann_text@) == Some(v@),
            None => callable_return(ann_text@) is None,
        },
{
    let t = trim_chars(ann_text);
    let inner = match inside_exec(t.as_slice(), "Callable[") {
        Some(i) => i,
        None => return None,
    };
    let mut depth: i128 = 0;
    let mut last: Option<usize> = None;
    let mut i: usize = 0;
    while i < inner.len()
        invariant
            i <= inner@.len(),
            depth == depth_pb(inner@, i as int),
            match last {
                Some(c) => last_where(top_comma(inner@), i as int) == Some(c as int),
                None => last_where(top_comma(inner@), i as int) is None,
            },
        decreases inner.len() - i,
    {
        proof {
            lemma_depth_pb_bound(inner@, i as int);
        }
        let c = inner[i];
        if c == ',' && depth == 0 {
            last = Some(i);
        }
        if c == '[' || c == '(' {
            depth = depth + 1;
        } else if c == ']' || c == ')' {
            depth = depth - 1;
        }
        i += 1;
    }
    proof {
        lemma_last_where(top_comma(inner@), inner@.len() as int);
    }
    let c = match last {
        Some(c) => c,
        None => return None,
    };
    let n = inner.len();
    let rest = slice_of(inner.as_slice(), c + 1, n);
    proof {
        assert(rest@ =~= inner@.skip(c + 1));
    }
    let r = trim_chars(rest.as_slice());
    if r.len() == 0 {
        None
    } else {
        Some(r)
    }
}

/// `extract_guard_inner`: the argument of `TypeGuard[X]` or `TypeIs[X]`.
pub open spec fn guard_inner(ann: Seq<char>) -> Option<Seq<char>> {
    if starts_with(ann, "TypeGuard["@) {
        let rest = ann.skip(10);
        if rest.len() > 0 && rest.last() == ']' {
            Some(rest.drop_last())
        } else {
            None
        }
    } else if starts_with(ann, "TypeIs["@) {
        let rest = ann.skip(7);
        if rest.len() > 0 && rest.last() == ']' {
            Some(rest.drop_last())
        } else {
            None
        }
    } else {
        None
    }
}

pub fn extract_guard_inner(ann: &[char]) -> (r: Option<Vec<char>>)
    ensures
        match r {
            Some(v) => guard_inner(ann@) == Some(v@),
            None => guard_inner(ann@) is None,
        },
{
    let n = ann.len();
    let k: usize = if starts_with_lit(ann, "TypeGuard[") {
        proof {
            reveal_strlit("TypeGuard[");
        }
        10
    } else if starts_with_lit(ann, "TypeIs[") {
        proof {
            reveal_strlit("TypeIs[");
        }
        7
    } else {
        return None;
    };
    let rest = slice_of(ann, k, n);
    proof {
        assert(rest@ =~= ann@.skip(k as int));
    }
    if rest.len() > 0 && rest[rest.len() - 1] == ']' {
        let m = rest.len() - 1;
        let r = slice_of(rest.as_slice(), 0, m);
        proof {
            assert(r@ =~= rest@.drop_last());
        }
        Some(r)
    } else {
        None
    }
}

/// `is_compatible_return_type`: `bool` takes either guard; a guard takes only
/// the same kind of guard with the same argument.
pub open spec fn compatible_return(expected: Seq<char>, actual: Seq<char>) -> bool {
    if expected == "bool"@ {
        true
    } else {
        let eg = starts_with(expected, "TypeGuard["@);
        let ei = starts_with(expected, "TypeIs["@);
        let ag = starts_with(actual, "TypeGuard["@);
        let ai = starts_with(actual, "TypeIs["@);
        if (eg && ag) || (ei && ai) {
            guard_inner(expected) == guard_inner(actual)
        } else {
            false
        }
    }
}

pub fn is_compatible_return_type(expected_return: &[char], actual_return: &[char]) -> (r: bool)
    ensures
        r == compatible_return(expected_return@, actual_return@),
{
    if eq_str(expected_return, "bool") {
        return true;
    }
    let eg = starts_with_lit(expected_return, "TypeGuard[");
    let ei = starts_with_lit(expected_return, "TypeIs[");
    let ag = starts_with_lit(actual_return, "TypeGuard[");
    let ai = starts_with_lit(actual_return, "TypeIs[");
    if (eg && ag) || (ei && ai) {
        let e = extract_guard_inner(expected_return);
        let a = extract_guard_inner(actual_return);
        match (e, a) {
            (Some(x), Some(y)) => eq_chars(x.as_slice(), y.as_slice()),
            (None, None) => true,
            _ => false,
        }
    } else {
        false
    }
}

/// The first protocol class named `class_name`.
pub open spec fn first_protocol(cs: Seq<ClassV>, class_name: Seq<char>) -> Option<ClassV>
    decreases cs.len(),
{
    if cs.len() == 0 {
        None
    } else {
        match first_protocol(cs.drop_last(), class_name) {
            Some(c) => Some(c),
            None => if cs.last().name == class_name && cs.last().is_protocol {
                Some(cs.last())
            } else {
                None
            },
        }
    }
}

/// The first `__call__` method of class `name`.
pub open spec fn first_call_method(fs: Seq<FunctionV>, name: Seq<char>) -> Option<FunctionV>
    decreases fs.len(),
{
    if fs.len() == 0 {
        None
    } else {
        match first_call_method(fs.drop_last(), name) {
            Some(f) => Some(f),
            None => if fs.last().class_name == Some(name) && fs.last().name == "__call__"@ {
                Some(fs.last())
            } else {
                None
            },
        }
    }
}

/// The trimmed return annotation of a protocol's `__call__`.
pub open spec fn protocol_call_return(class_name: Seq<char>, cs: Seq<ClassV>, fs: Seq<FunctionV>) -> Option<Seq<char>> {
    match first_protocol(cs, class_name) {
        None => None,
        Some(c) => match first_call_method(fs, c.name) {
            None => None,
            Some(f) => match f.return_annotation {
                Some(a) => Some(trim(a)),
                None => None,
            },
        },
    }
}

proof fn lemma_first_protocol_extend(cs: Seq<ClassV>, name: Seq<char>, k: int, m: int)
    requires
        0 <= k <= m <= cs.len(),
        first_protocol(cs.take(k), name) is Some,
    ensures
        first_protocol(cs.take(m), name) == first_protocol(cs.take(k), name),
    decreases m - k,
{
    if m > k {
        lemma_first_protocol_extend(cs, name, k, m - 1);
        assert(cs.take(m).drop_last() =~= cs.take(m - 1));
    }
}

proof fn lemma_first_call_extend(fs: Seq<FunctionV>, name: Seq<char>, k: int, m: int)
    requires
        0 <= k <= m <= fs.len(),
        first_call_method(fs.take(k), name) is Some,
    ensures
        first_call_method(fs.take(m), name) == first_call_method(fs.take(k), name),
    decreases m - k,
{
    if m > k {
        lemma_first_call_extend(fs, name, k, m - 1);
        assert(fs.take(m).drop_last() =~= fs.take(m - 1));
    }
}

fn first_protocol_index(classes: &Vec<ClassSite>, class_name: &[char]) -> (r: Option<usize>)
    ensures
        match r {
            Some(i) => i < classes@.len() && first_protocol(classes_view(classes@), class_name@) == Some(
                class_view(classes@[i as int]),
            ),
            None => first_protocol(classes_view(classes@), class_name@) is None,
        },
{
    let ghost cs = classes_view(classes@);
    let mut i: usize = 0;
    while i < classes.len()
        invariant
            i <= classes@.len(),
            cs == classes_view(classes@),
            first_protocol(cs.take(i as int), class_name@) is None,
        decreases classes.len() - i,
    {
        proof {
            assert(cs.take(i + 1).drop_last() =~= cs.take(i as int));
            assert(cs.take(i + 1).last() == class_view(classes@[i as int]));
        }
        if eq_chars(classes[i].name.as_slice(), class_name) && classes[i].is_protocol {
            proof {
                lemma_first_protocol_extend(cs, class_name@, i + 1, cs.len() as int);
                assert(cs.take(cs.len() as int) =~= cs);
            }
            return Some(i);
        }
        i += 1;
    }
    proof {
        assert(cs.take(i as int) =~= cs);
    }
    None
}

fn first_call_index(functions: &Vec<FunctionSite>, name: &[char]) -> (r: Option<usize>)
    ensures
        match r {
            Some(i) => i < functions@.len() && first_call_method(functions_view(functions@), name@) == Some(
                function_view(functions@[i as int]),
            ),
            None => first_call_method(functions_view(functions@), name@) is None,
        },
{
    let ghost fs = functions_view(functions@);
    let mut i: usize = 0;
    while i < functions.len()
        invariant
            i <= functions@.len(),
            fs == functions_view(functions@),
            first_call_method(fs.take(i as int), name@) is None,
        decreases functions.len() - i,
    {
        proof {
            assert(fs.take(i + 1).drop_last() =~= fs.take(i as int));
            assert(fs.take(i + 1).last() == function_view(functions@[i as int]));
        }
        let hit = match &functions[i].class_name {
            Some(cn) => eq_chars(cn.as_slice(), name) && eq_str(functions[i].name.as_slice(), "__call__"),
            None => false,
        };
        if hit {
            proof {
                lemma_first_call_extend(fs, name@, i + 1, fs.len() as int);
                assert(fs.take(fs.len() as int) =~= fs);
            }
            return Some(i);
        }
        i += 1;
    }
    proof {
        assert(fs.take(i as int) =~= fs);
    }
    None
}

/// The return annotation of the `__call__` method of a protocol class; `None` when it has none.
pub fn find_protocol_call_return_type(
    class_name: &[char],
    classes: &Vec<ClassSite>,
    functions: &Vec<FunctionSite>,
) -> (r: Option<Vec<char>>)
    ensures
        match r {
            Some(v) => protocol_call_return(class_name@, classes_view(classes@), functions_view(functions@)) == Some(v@),
            None => protocol_call_return(class_name@, classes_view(classes@), functions_view(functions@)) is None,
        },
{
    let ci = match first_protocol_index(classes, class_name) {
        Some(ci) => ci,
        None => return None,
    };
    let fi = match first_call_index(functions, classes[ci].name.as_slice()) {
        Some(fi) => fi,
        None => return None,
    };
    match &functions[fi].return_annotation {
        Some(a) => Some(trim_chars(a.as_slice())),
        None => None,
    }
}

// ---------------------------------------------------------------------------
// The rule
// ---------------------------------------------------------------------------

/// `arg_name`, returning `guard_return`, passed to `callee` where a callable
/// returning `expected_return` is expected.
pub struct GuardDiagnostic {
    pub arg_name: Vec<char>,
    pub callee: Vec<char>,
    pub guard_return: Vec<char>,
    pub expected_return: Vec<char>,
    pub span: Span,
}

pub struct GuardDiagV {
    pub arg_name: Seq<char>,
    pub callee: Seq<char>,
    pub guard_return: Seq<char>,
    pub expected_return: Seq<char>,
    pub span: (nat, nat),
}

/// The text of a finding: the guard function, what it returns, the callee
/// and the return type it expects (said to be a subtype of `bool` unless a
/// guard type is expected).
pub open spec fn guard_message(d: GuardDiagV) -> Seq<char> {
    if crate::text::starts_with(d.expected_return, "TypeGuard["@) || crate::text::starts_with(
        d.expected_return,
        "TypeIs["@,
    ) {
        "Function `"@ + d.arg_name + "` returns `"@ + d.guard_return + "`, but `"@ + d.callee + "` expects `"@
            + d.expected_return + "`"@
    } else {
        "Function `"@ + d.arg_name + "` returns `"@ + d.guard_return + "` (subtype of `bool`), but `"@ + d.callee
            + "` expects return type `"@ + d.expected_return + "`"@
    }
}

impl GuardDiagnostic {
    /// The finding's message.
    pub fn message(&self) -> (r: Vec<char>)
        ensures
            r@ == guard_message(gdiag_view(*self)),
    {
        let guard_expected = crate::text::starts_with_lit(self.expected_return.as_slice(), "TypeGuard[")
            || crate::text::starts_with_lit(self.expected_return.as_slice(), "TypeIs[");
        let mut m = crate::text::chars_of("Function `");
        crate::text::push_chars(&mut m, self.arg_name.as_slice());
        crate::text::push_lit(&mut m, "` returns `");
        crate::text::push_chars(&mut m, self.guard_return.as_slice());
        if guard_expected {
            crate::text::push_lit(&mut m, "`, but `");
            crate::text::push_chars(&mut m, self.callee.as_slice());
            crate::text::push_lit(&mut m, "` expects `");
        } else {
            crate::text::push_lit(&mut m, "` (subtype of `bool`), but `");
            crate::text::push_chars(&mut m, self.callee.as_slice());
            crate::text::push_lit(&mut m, "` expects return type `");
        }
        crate::text::push_chars(&mut m, self.expected_return.as_slice());
        crate::text::push_lit(&mut m, "`");
        m
    }
}

pub open spec fn gdiag_view(d: GuardDiagnostic) -> GuardDiagV {
    GuardDiagV {
        arg_name: d.arg_name@,
        callee: d.callee@,
        guard_return: d.guard_return@,
        expected_return: d.expected_return@,
        span: span_view(d.span),
    }
}

pub open spec fn gdiags_view(v: Seq<GuardDiagnostic>) -> Seq<GuardDiagV> {
    v.map_values(|d: GuardDiagnostic| gdiag_view(d))
}

/// The last module-level function named `name`.
pub open spec fn last_module_fn(fs: Seq<FunctionV>, name: Seq<char>) -> Option<FunctionV>
    decreases fs.len(),
{
    if fs.len() == 0 {
        None
    } else if fs.last().class_name is None && fs.last().name == name {
        Some(fs.last())
    } else {
        last_module_fn(fs.drop_last(), name)
    }
}

/// A module-level function returning a guard: its trimmed return annotation.
pub open spec fn guard_return(f: FunctionV) -> Option<Seq<char>> {
    if f.class_name is None {
        match f.return_annotation {
            Some(a) => if is_guard(a) {
                Some(trim(a))
            } else {
                None
            },
            None => None,
        }
    } else {
        None
    }
}

/// The guard return of the last guard-returning module-level function named `name`.
pub open spec fn last_guard(fs: Seq<FunctionV>, name: Seq<char>) -> Option<Seq<char>>
    decreases fs.len(),
{
    if fs.len() == 0 {
        None
    } else if fs.last().name == name && guard_return(fs.last()) is Some {
        guard_return(fs.last())
    } else {
        last_guard(fs.drop_last(), name)
    }
}

pub open spec fn has_guards(fs: Seq<FunctionV>) -> bool {
    exists|i: int| 0 <= i < fs.len() && guard_return(#[trigger] fs[i]) is Some
}

/// The finding for argument `i` of a call to `callee`.
pub open spec fn arg_issue(
    i: int,
    arg: ArgV,
    call: CallV,
    callee: FunctionV,
    fs: Seq<FunctionV>,
    cs: Seq<ClassV>,
) -> Option<GuardDiagV> {
    match arg.text {
        None => None,
        Some(text) => {
            let name = trim(text);
            match last_guard(fs, name) {
                None => None,
                Some(gr) => if i >= callee.params.len() {
                    None
                } else {
                    match callee.params[i].annotation {
                        None => None,
                        Some(ann) => {
                            let pa = trim(ann);
                            let expected = if starts_with(pa, "Callable["@) {
                                callable_return(pa)
                            } else {
                                protocol_call_return(pa, cs, fs)
                            };
                            match expected {
                                None => None,
                                Some(e) => if compatible_return(e, gr) {
                                    None
                                } else {
                                    Some(
                                        GuardDiagV {
                                            arg_name: name,
                                            callee: call.callee,
                                            guard_return: gr,
                                            expected_return: e,
                                            span: arg.span,
                                        },
                                    )
                                },
                            }
                        },
                    }
                },
            }
        },
    }
}

pub open spec fn opt_gseq(o: Option<GuardDiagV>) -> Seq<GuardDiagV> {
    match o {
        Some(d) => seq![d],
        None => Seq::empty(),
    }
}

pub open spec fn args_issues(call: CallV, callee: FunctionV, k: int, fs: Seq<FunctionV>, cs: Seq<ClassV>) -> Seq<
    GuardDiagV,
>
    decreases k,
{
    if k <= 0 {
        Seq::empty()
    } else {
        args_issues(call, callee, k - 1, fs, cs) + opt_gseq(arg_issue(k - 1, call.args[k - 1], call, callee, fs, cs))
    }
}

pub open spec fn call_issues(call: CallV, fs: Seq<FunctionV>, cs: Seq<ClassV>) -> Seq<GuardDiagV> {
    match last_module_fn(fs, call.callee) {
        None => Seq::empty(),
        Some(callee) => args_issues(call, callee, call.args.len() as int, fs, cs),
    }
}

pub open spec fn calls_issues(calls: Seq<CallV>, fs: Seq<FunctionV>, cs: Seq<ClassV>) -> Seq<GuardDiagV>
    decreases calls.len(),
{
    if calls.len() == 0 {
        Seq::empty()
    } else {
        calls_issues(calls.drop_last(), fs, cs) + call_issues(calls.last(), fs, cs)
    }
}

/// No finding unless some module-level function returns a guard.
pub open spec fn guard_report(fs: Seq<FunctionV>, cs: Seq<ClassV>, calls: Seq<CallV>) -> Seq<GuardDiagV> {
    if !has_guards(fs) {
        Seq::empty()
    } else {
        calls_issues(calls, fs, cs)
    }
}

fn last_module_fn_exec(functions: &Vec<FunctionSite>, name: &[char]) -> (r: Option<usize>)
    ensures
        match r {
            Some(i) => i < functions@.len() && last_module_fn(functions_view(functions@), name@) == Some(
                function_view(functions@[i as int]),
            ),
            None => last_module_fn(functions_view(functions@), name@) is None,
        },
{
    let ghost fs = functions_view(functions@);
    let mut k: usize = functions.len();
    proof {
        assert(fs.take(k as int) =~= fs);
    }
    while k > 0
        invariant
            k <= functions@.len(),
            fs == functions_view(functions@),
            last_module_fn(fs, name@) == last_module_fn(fs.take(k as int), name@),
        decreases k,
    {
        proof {
            assert(fs.take(k as int).drop_last() =~= fs.take(k - 1));
            assert(fs.take(k as int).last() == function_view(functions@[k - 1]));
        }
        if functions[k - 1].class_name.is_none() && eq_chars(functions[k - 1].name.as_slice(), name) {
            return Some(k - 1);
        }
        k -= 1;
    }
    None
}

fn guard_return_exec(f: &FunctionSite) -> (r: Option<Vec<char>>)
    ensures
        match r {
            Some(v) => guard_return(function_view(*f)) == Some(v@),
            None => guard_return(function_view(*f)) is None,
        },
{
    if f.class_name.is_some() {
        return None;
    }
    match &f.return_annotation {
        Some(a) => {
            if is_typeguard_or_typeis(a.as_slice()) {
                Some(trim_chars(a.as_slice()))
            } else {
                None
            }
        },
        None => None,
    }
}

fn last_guard_exec(functions: &Vec<FunctionSite>, name: &[char]) -> (r: Option<Vec<char>>)
    ensures
        match r {
            Some(v) => last_guard(functions_view(functions@), name@) == Some(v@),
            None => last_guard(functions_view(functions@), name@) is None,
        },
{
    let ghost fs = functions_view(functions@);
    let mut k: usize = functions.len();
    proof {
        assert(fs.take(k as int) =~= fs);
    }
    while k > 0
        invariant
            k <= functions@.len(),
            fs == functions_view(functions@),
            last_guard(fs, name@) == last_guard(fs.take(k as int), name@),
        decreases k,
    {
        proof {
            assert(fs.take(k as int).drop_last() =~= fs.take(k - 1));
            assert(fs.take(k as int).last() == function_view(functions@[k - 1]));
        }
        if eq_chars(functions[k - 1].name.as_slice(), name) {
            match guard_return_exec(&functions[k - 1]) {
                Some(g) => {
                    return Some(g);
                },
                None => {},
            }
        }
        k -= 1;
    }
    None
}

/// Detects guard functions passed where the callable's return type is not
/// `bool` or the same guard.
pub struct TypeGuardCallableReturnMismatch;

impl TypeGuardCallableReturnMismatch {
    /// Every finding of a module's calls, in order.
    pub fn check(
        &self,
        functions: &Vec<FunctionSite>,
        classes: &Vec<ClassSite>,
        calls: &Vec<CallSite>,
    ) -> (r: Vec<GuardDiagnostic>)
        ensures
            gdiags_view(r@) == guard_report(functions_view(functions@), classes_view(classes@), calls_view(calls@)),
    {
        let ghost fs = functions_view(functions@);
        let ghost cs = classes_view(classes@);
        let ghost cv = calls_view(calls@);
        let mut out: Vec<GuardDiagnostic> = Vec::new();
        // Is there any guard function at all?
        let mut any = false;
        let mut g: usize = 0;
        while g < functions.len()
            invariant
                g <= functions@.len(),
                fs == functions_view(functions@),
                any == exists|i: int| 0 <= i < g && guard_return(#[trigger] fs[i]) is Some,
            decreases functions.len() - g,
        {
            proof {
                assert(fs[g as int] == function_view(functions@[g as int]));
            }
            if guard_return_exec(&functions[g]).is_some() {
                any = true;
            }
            g += 1;
        }
        if !any {
            proof {
                assert(gdiags_view(out@) =~= Seq::<GuardDiagV>::empty());
            }
            return out;
        }
        let mut c: usize = 0;
        proof {
            assert(gdiags_view(out@) =~= calls_issues(cv.take(0), fs, cs));
        }
        while c < calls.len()
            invariant
                c <= calls@.len(),
                fs == functions_view(functions@),
                cs == classes_view(classes@),
                cv == calls_view(calls@),
                gdiags_view(out@) == calls_issues(cv.take(c as int), fs, cs),
            decreases calls.len() - c,
        {
            let call = &calls[c];
            let ghost callv = call_view(*call);
            proof {
                assert(cv.take(c + 1).drop_last() =~= cv.take(c as int));
                assert(cv.take(c + 1).last() == callv);
            }
            let ghost before = gdiags_view(out@);
            match last_module_fn_exec(functions, call.callee.as_slice()) {
                None => {
                    proof {
                        assert(gdiags_view(out@) =~= before + call_issues(callv, fs, cs));
                    }
                },
                Some(fi) => {
                    let callee = &functions[fi];
                    let ghost calleev = function_view(*callee);
                    let mut a: usize = 0;
                    proof {
                        assert(gdiags_view(out@) =~= before + args_issues(callv, calleev, 0, fs, cs));
                    }
                    while a < call.args.len()
                        invariant
                            a <= call.args@.len(),
                            callv == call_view(*call),
                            calleev == function_view(*callee),
                            fs == functions_view(functions@),
                            cs == classes_view(classes@),
                            gdiags_view(out@) == before + args_issues(callv, calleev, a as int, fs, cs),
                        decreases call.args.len() - a,
                    {
                        let ghost b2 = gdiags_view(out@);
                        let arg = &call.args[a];
                        let ghost argv = callv.args[a as int];
                        match &arg.text {
                            None => {},
                            Some(text) => {
                                let name = trim_chars(text.as_slice());
                                match last_guard_exec(functions, name.as_slice()) {
                                    None => {},
                                    Some(gr) => {
                                        if a < callee.params.len() {
                                            proof {
                                                assert(calleev.params[a as int] == crate::module::param_view(callee.params@[a as int]));
                                            }
                                            match &callee.params[a].annotation {
                                                None => {},
                                                Some(ann) => {
                                                    let pa = trim_chars(ann.as_slice());
                                                    let expected = if starts_with_lit(pa.as_slice(), "Callable[") {
                                                        extract_callable_return_type(pa.as_slice())
                                                    } else {
                                                        find_protocol_call_return_type(pa.as_slice(), classes, functions)
                                                    };
                                                    match expected {
                                                        None => {},
                                                        Some(e) => {
                                                            if !is_compatible_return_type(e.as_slice(), gr.as_slice()) {
                                                                let d = GuardDiagnostic {
                                                                    arg_name: name,
                                                                    callee: copy_text(call.callee.as_slice()),
                                                                    guard_return: gr,
                                                                    expected_return: e,
                                                                    span: arg.span,
                                                                };
                                                                out.push(d);
                                                                proof {
                                                                    assert(gdiags_view(out@) =~= b2.push(gdiag_view(d)));
                                                                }
                                                            }
                                                        },
                                                    }
                                                },
                                            }
                                        }
                                    },
                                }
                            },
                        }
                        proof {
                            assert(gdiags_view(out@) =~= before + args_issues(callv, calleev, a + 1, fs, cs));
                        }
                        a += 1;
                    }
                    proof {
                        assert(gdiags_view(out@) =~= before + call_issues(callv, fs, cs));
                    }
                },
            }
            c += 1;
        }
        proof {
            assert(cv.take(c as int) =~= cv);
        }
        out
    }
}

} // verus!
