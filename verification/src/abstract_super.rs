//! `return super().m(...)` in a class whose protocol base declares `m`
//! abstract with a stub body: there is no implementation to call.
use vstd::prelude::*;

use crate::annotations::{extract_super_call_method, super_call_method};
use crate::conformance::{class_index, decorated, decorators_view, find_class, ClassInfo};
use crate::module::copy_text;
use crate::names::contains_name;
use crate::position::Span;
use crate::text::{chars_of, ends_with, ends_with_lit, eq_chars, eq_str, views};

verus! {

/// A `return` statement: whether its value is a call, its span, and its
/// source text.
pub struct ReturnSite {
    pub value_is_call: bool,
    pub span: Span,
    pub text: Option<Vec<char>>,
}

/// A function as the rule reads it.
pub struct MethodInfo {
    pub class_name: Option<Vec<char>>,
    pub name: Vec<char>,
    /// The body is only `...`, `pass` or a docstring.
    pub is_stub_body: bool,
    pub return_stmts: Vec<ReturnSite>,
}

/// `super().m()` returned from a method of `class`, with `m` abstract in the
/// protocol base `base`.
pub struct AbstractSuperCall {
    pub class: Vec<char>,
    pub method: Vec<char>,
    pub base: Vec<char>,
    pub span: Span,
}

impl AbstractSuperCall {
    /// The finding's message.
    pub fn message(&self) -> (r: Vec<char>)
        ensures
            r@ == "Method `"@ + self.method@ + "` in `"@ + self.class@ + "` calls `super()."@ + self.method@ + "()` but `"@ + self.base@ + "` declares it as abstract with no default implementation"@,
    {
        let mut m = crate::text::chars_of("Method `");
        crate::text::push_chars(&mut m, self.method.as_slice());
        crate::text::push_lit(&mut m, "` in `");
        crate::text::push_chars(&mut m, self.class.as_slice());
        crate::text::push_lit(&mut m, "` calls `super().");
        crate::text::push_chars(&mut m, self.method.as_slice());
        crate::text::push_lit(&mut m, "()` but `");
        crate::text::push_chars(&mut m, self.base.as_slice());
        crate::text::push_lit(&mut m, "` declares it as abstract with no default implementation");
        m
    }
}

pub open spec fn call_view(c: AbstractSuperCall) -> (Seq<char>, Seq<char>, Seq<char>, Span) {
    (c.class@, c.method@, c.base@, c.span)
}

pub open spec fn calls_view(v: Seq<AbstractSuperCall>) -> Seq<(Seq<char>, Seq<char>, Seq<char>, Span)> {
    v.map_values(|c: AbstractSuperCall| call_view(c))
}

/// `is_protocol_class`: `Protocol` is among the bases.
pub open spec fn lists_protocol(c: ClassInfo) -> bool {
    views(c.bases@).contains("Protocol"@)
}

/// An `abstractmethod` or `*.abstractmethod` decorator.
pub open spec fn is_abstract_decorator(d: Seq<char>) -> bool {
    d == "abstractmethod"@ || ends_with(d, ".abstractmethod"@)
}

pub open spec fn any_abstract_decorator(ds: Seq<Seq<char>>) -> bool {
    exists|k: int| 0 <= k < ds.len() && is_abstract_decorator(#[trigger] ds[k])
}

/// `is_abstract_method`: some definition of the method carries an abstract
/// decorator.
pub open spec fn abstract_in(c: ClassInfo, m: Seq<char>) -> bool {
    exists|k: int|
        0 <= k < c.method_decorators@.len() && (#[trigger] c.method_decorators@[k]).0@ == m
            && any_abstract_decorator(views(c.method_decorators@[k].1@))
}

fn has_abstract_decorator(ds: &Vec<Vec<char>>) -> (r: bool)
    ensures
        r == any_abstract_decorator(views(ds@)),
{
    let mut i: usize = 0;
    while i < ds.len()
        invariant
            i <= ds@.len(),
            forall|k: int| 0 <= k < i ==> !is_abstract_decorator(#[trigger] views(ds@)[k]),
        decreases ds.len() - i,
    {
        if eq_str(ds[i].as_slice(), "abstractmethod") || ends_with_lit(
            ds[i].as_slice(),
            ".abstractmethod",
        ) {
            assert(is_abstract_decorator(views(ds@)[i as int]));
            return true;
        }
        assert(!is_abstract_decorator(views(ds@)[i as int]));
        i += 1;
    }
    false
}

/// Whether some definition of method `m` in the class carries an abstract decorator.
pub fn is_abstract_method(c: &ClassInfo, m: &[char]) -> (r: bool)
    ensures
        r == abstract_in(*c, m@),
{
    let mut i: usize = 0;
    while i < c.method_decorators.len()
        invariant
            i <= c.method_decorators@.len(),
            forall|k: int|
                0 <= k < i ==> !((#[trigger] c.method_decorators@[k]).0@ == m@
                    && any_abstract_decorator(views(c.method_decorators@[k].1@))),
        decreases c.method_decorators.len() - i,
    {
        let e = &c.method_decorators[i];
        if eq_chars(e.0.as_slice(), m) && has_abstract_decorator(&e.1) {
            return true;
        }
        i += 1;
    }
    false
}

/// The method of `class` named `m`: the last such function.
pub open spec fn method_index(fs: Seq<MethodInfo>, class: Seq<char>, m: Seq<char>) -> Option<int>
    decreases fs.len(),
{
    if fs.len() == 0 {
        None
    } else if fs.last().class_name matches Some(c) && c@ == class && fs.last().name@ == m {
        Some(fs.len() - 1)
    } else {
        method_index(fs.drop_last(), class, m)
    }
}

fn find_method(fs: &Vec<MethodInfo>, class: &[char], m: &[char]) -> (r: Option<usize>)
    ensures
        match r {
            Some(i) => i < fs@.len() && method_index(fs@, class@, m@) == Some(i as int),
            None => method_index(fs@, class@, m@) is None,
        },
{
    let mut i: usize = fs.len();
    assert(fs@.take(i as int) =~= fs@);
    while i > 0
        invariant
            i <= fs@.len(),
            method_index(fs@, class@, m@) == method_index(fs@.take(i as int), class@, m@),
        decreases i,
    {
        proof {
            assert(fs@.take(i as int).drop_last() =~= fs@.take(i - 1));
            assert(fs@.take(i as int).last() == fs@[i - 1]);
        }
        let f = &fs[i - 1];
        let hit = match &f.class_name {
            Some(c) => eq_chars(c.as_slice(), class) && eq_chars(f.name.as_slice(), m),
            None => false,
        };
        if hit {
            return Some(i - 1);
        }
        i -= 1;
    }
    None
}

/// The protocol bases of a class: those of its bases that look up a class
/// listing `Protocol`, in order.
pub open spec fn protocol_bases(cs: Seq<ClassInfo>, bs: Seq<Seq<char>>) -> Seq<int>
    decreases bs.len(),
{
    if bs.len() == 0 {
        Seq::empty()
    } else {
        let prev = protocol_bases(cs, bs.drop_last());
        match class_index(cs, bs.last()) {
            Some(k) => if lists_protocol(cs[k]) {
                prev.push(k)
            } else {
                prev
            },
            None => prev,
        }
    }
}

/// The findings for one returned `super().m()` against each protocol base.
pub open spec fn base_findings(
    cs: Seq<ClassInfo>,
    fs: Seq<MethodInfo>,
    class: Seq<char>,
    m: Seq<char>,
    pbs: Seq<int>,
    span: Span,
) -> Seq<(Seq<char>, Seq<char>, Seq<char>, Span)>
    decreases pbs.len(),
{
    if pbs.len() == 0 {
        Seq::empty()
    } else {
        let pb = cs[pbs.last()];
        base_findings(cs, fs, class, m, pbs.drop_last(), span) + match method_index(fs, pb.name@, m) {
            Some(j) => if abstract_in(pb, m) && fs[j].is_stub_body {
                seq![(class, m, pb.name@, span)]
            } else {
                Seq::empty()
            },
            None => Seq::empty(),
        }
    }
}

/// The findings of one `return` statement.
pub open spec fn return_findings(
    cs: Seq<ClassInfo>,
    fs: Seq<MethodInfo>,
    class: Seq<char>,
    pbs: Seq<int>,
    r: ReturnSite,
) -> Seq<(Seq<char>, Seq<char>, Seq<char>, Span)> {
    if !r.value_is_call {
        Seq::empty()
    } else {
        match r.text {
            Some(t) => match super_call_method(t@) {
                Some(m) => base_findings(cs, fs, class, m, pbs, r.span),
                None => Seq::empty(),
            },
            None => Seq::empty(),
        }
    }
}

pub open spec fn returns_findings(
    cs: Seq<ClassInfo>,
    fs: Seq<MethodInfo>,
    class: Seq<char>,
    pbs: Seq<int>,
    rs: Seq<ReturnSite>,
) -> Seq<(Seq<char>, Seq<char>, Seq<char>, Span)>
    decreases rs.len(),
{
    if rs.len() == 0 {
        Seq::empty()
    } else {
        returns_findings(cs, fs, class, pbs, rs.drop_last()) + return_findings(
            cs,
            fs,
            class,
            pbs,
            rs.last(),
        )
    }
}

pub open spec fn methods_findings(
    cs: Seq<ClassInfo>,
    fs: Seq<MethodInfo>,
    class: Seq<char>,
    pbs: Seq<int>,
    ms: Seq<Seq<char>>,
) -> Seq<(Seq<char>, Seq<char>, Seq<char>, Span)>
    decreases ms.len(),
{
    if ms.len() == 0 {
        Seq::empty()
    } else {
        methods_findings(cs, fs, class, pbs, ms.drop_last()) + match method_index(
            fs,
            class,
            ms.last(),
        ) {
            Some(j) => returns_findings(cs, fs, class, pbs, fs[j].return_stmts@),
            None => Seq::empty(),
        }
    }
}

/// `check_class`: for each method of the class (in the order of its method
/// names), each `return super().m(...)` against each protocol base that
/// declares `m` abstract with a stub body.
pub open spec fn class_findings(cs: Seq<ClassInfo>, fs: Seq<MethodInfo>, c: ClassInfo) -> Seq<
    (Seq<char>, Seq<char>, Seq<char>, Span),
> {
    let pbs = protocol_bases(cs, views(c.bases@));
    if pbs.len() == 0 {
        Seq::empty()
    } else {
        methods_findings(cs, fs, c.name@, pbs, views(c.method_names@))
    }
}

fn collect_protocol_bases(cs: &Vec<ClassInfo>, bases: &Vec<Vec<char>>) -> (r: Vec<usize>)
    ensures
        r@.map_values(|k: usize| k as int) == protocol_bases(cs@, views(bases@)),
        forall|k: int| 0 <= k < r@.len() ==> (#[trigger] r@[k]) < cs@.len(),
{
    let proto = chars_of("Protocol");
    let mut out: Vec<usize> = Vec::new();
    let mut i: usize = 0;
    while i < bases.len()
        invariant
            i <= bases@.len(),
            proto@ == "Protocol"@,
            out@.map_values(|k: usize| k as int) == protocol_bases(cs@, views(bases@).take(i as int)),
            forall|k: int| 0 <= k < out@.len() ==> (#[trigger] out@[k]) < cs@.len(),
        decreases bases.len() - i,
    {
        proof {
            assert(views(bases@).take(i + 1).drop_last() =~= views(bases@).take(i as int));
            assert(views(bases@).take(i + 1).last() == bases@[i as int]@);
        }
        if let Some(k) = find_class(cs, bases[i].as_slice()) {
            if contains_name(&cs[k].bases, proto.as_slice()) {
                let ghost before = out@.map_values(|k: usize| k as int);
                out.push(k);
                assert(out@.map_values(|k: usize| k as int) =~= before.push(k as int));
            }
        }
        i += 1;
    }
    proof {
        assert(views(bases@).take(i as int) =~= views(bases@));
    }
    out
}

fn check_bases(
    cs: &Vec<ClassInfo>,
    fs: &Vec<MethodInfo>,
    class: &[char],
    m: &[char],
    pbs: &Vec<usize>,
    span: Span,
    out: &mut Vec<AbstractSuperCall>,
)
    requires
        forall|k: int| 0 <= k < pbs@.len() ==> (#[trigger] pbs@[k]) < cs@.len(),
    ensures
        calls_view(final(out)@) == calls_view(old(out)@) + base_findings(
            cs@,
            fs@,
            class@,
            m@,
            pbs@.map_values(|k: usize| k as int),
            span,
        ),
{
    let ghost start = calls_view(out@);
    let ghost pv = pbs@.map_values(|k: usize| k as int);
    let mut i: usize = 0;
    while i < pbs.len()
        invariant
            i <= pbs@.len(),
            pv == pbs@.map_values(|k: usize| k as int),
            forall|k: int| 0 <= k < pbs@.len() ==> (#[trigger] pbs@[k]) < cs@.len(),
            calls_view(out@) == start + base_findings(cs@, fs@, class@, m@, pv.take(i as int), span),
        decreases pbs.len() - i,
    {
        proof {
            assert(pv.take(i + 1).drop_last() =~= pv.take(i as int));
            assert(pv.take(i + 1).last() == pbs@[i as int] as int);
        }
        let ghost mid = calls_view(out@);
        let pb = &cs[pbs[i]];
        if let Some(j) = find_method(fs, pb.name.as_slice(), m) {
            if is_abstract_method(pb, m) && fs[j].is_stub_body {
                out.push(
                    AbstractSuperCall {
                        class: copy_text(class),
                        method: copy_text(m),
                        base: copy_text(pb.name.as_slice()),
                        span,
                    },
                );
                proof {
                    assert(calls_view(out@) =~= mid.push((class@, m@, pb.name@, span)));
                }
            }
        }
        proof {
            assert(calls_view(out@) =~= start + base_findings(
                cs@,
                fs@,
                class@,
                m@,
                pv.take(i + 1),
                span,
            ));
        }
        i += 1;
    }
    proof {
        assert(pv.take(i as int) =~= pv);
    }
}

fn check_returns(
    cs: &Vec<ClassInfo>,
    fs: &Vec<MethodInfo>,
    class: &[char],
    pbs: &Vec<usize>,
    rs: &Vec<ReturnSite>,
    out: &mut Vec<AbstractSuperCall>,
)
    requires
        forall|k: int| 0 <= k < pbs@.len() ==> (#[trigger] pbs@[k]) < cs@.len(),
    ensures
        calls_view(final(out)@) == calls_view(old(out)@) + returns_findings(
            cs@,
            fs@,
            class@,
            pbs@.map_values(|k: usize| k as int),
            rs@,
        ),
{
    let ghost start = calls_view(out@);
    let ghost pv = pbs@.map_values(|k: usize| k as int);
    let mut i: usize = 0;
    while i < rs.len()
        invariant
            i <= rs@.len(),
            pv == pbs@.map_values(|k: usize| k as int),
            forall|k: int| 0 <= k < pbs@.len() ==> (#[trigger] pbs@[k]) < cs@.len(),
            calls_view(out@) == start + returns_findings(cs@, fs@, class@, pv, rs@.take(i as int)),
        decreases rs.len() - i,
    {
        proof {
            assert(rs@.take(i + 1).drop_last() =~= rs@.take(i as int));
            assert(rs@.take(i + 1).last() == rs@[i as int]);
        }
        let ghost mid = calls_view(out@);
        let r = &rs[i];
        if r.value_is_call {
            if let Some(t) = &r.text {
                if let Some(m) = extract_super_call_method(t.as_slice()) {
                    check_bases(cs, fs, class, m.as_slice(), pbs, r.span, out);
                }
            }
        }
        proof {
            assert(calls_view(out@) =~= mid + return_findings(cs@, fs@, class@, pv, rs@[i as int]));
        }
        i += 1;
    }
    proof {
        assert(rs@.take(i as int) =~= rs@);
    }
}

/// Reports the class's calls `super().m()` that reach an abstract method with no implementation.
pub fn check_class(
    cs: &Vec<ClassInfo>,
    fs: &Vec<MethodInfo>,
    c: &ClassInfo,
    out: &mut Vec<AbstractSuperCall>,
)
    ensures
        calls_view(final(out)@) == calls_view(old(out)@) + class_findings(cs@, fs@, *c),
{
    let ghost start = calls_view(out@);
    let pbs = collect_protocol_bases(cs, &c.bases);
    let ghost pv = pbs@.map_values(|k: usize| k as int);
    if pbs.len() == 0 {
        proof {
            assert(calls_view(out@) =~= start + class_findings(cs@, fs@, *c));
        }
        return ;
    }
    let ms = &c.method_names;
    let mut i: usize = 0;
    while i < ms.len()
        invariant
            i <= ms@.len(),
            pv == pbs@.map_values(|k: usize| k as int),
            pv == protocol_bases(cs@, views(c.bases@)),
            forall|k: int| 0 <= k < pbs@.len() ==> (#[trigger] pbs@[k]) < cs@.len(),
            calls_view(out@) == start + methods_findings(
                cs@,
                fs@,
                c.name@,
                pv,
                views(ms@).take(i as int),
            ),
        decreases ms.len() - i,
    {
        proof {
            assert(views(ms@).take(i + 1).drop_last() =~= views(ms@).take(i as int));
            assert(views(ms@).take(i + 1).last() == ms@[i as int]@);
        }
        let ghost mid = calls_view(out@);
        match find_method(fs, c.name.as_slice(), ms[i].as_slice()) {
            Some(j) => check_returns(cs, fs, c.name.as_slice(), &pbs, &fs[j].return_stmts, out),
            None => {
                proof {
                    assert(calls_view(out@) =~= mid + Seq::empty());
                }
            },
        }
        i += 1;
    }
    proof {
        assert(views(ms@).take(i as int) =~= views(ms@));
        assert(pv.len() > 0);
    }
}

/// The rule: returned `super()` calls to abstract stub methods of protocol
/// bases.
pub struct SuperCallOnAbstractProtocolMethod;

impl SuperCallOnAbstractProtocolMethod {
    /// The findings of each class, in order.
    pub fn check(&self, classes: &Vec<ClassInfo>, functions: &Vec<MethodInfo>) -> (r: Vec<
        AbstractSuperCall,
    >)
        ensures
            calls_view(r@) == module_findings(classes@, functions@, classes@.len() as int),
    {
        let mut out: Vec<AbstractSuperCall> = Vec::new();
        let mut i: usize = 0;
        while i < classes.len()
            invariant
                i <= classes@.len(),
                calls_view(out@) == module_findings(classes@, functions@, i as int),
            decreases classes.len() - i,
        {
            check_class(classes, functions, &classes[i], &mut out);
            i += 1;
        }
        out
    }
}

pub open spec fn module_findings(cs: Seq<ClassInfo>, fs: Seq<MethodInfo>, n: int) -> Seq<
    (Seq<char>, Seq<char>, Seq<char>, Span),
>
    decreases n,
{
    if n <= 0 {
        Seq::empty()
    } else {
        module_findings(cs, fs, n - 1) + class_findings(cs, fs, cs[n - 1])
    }
}

} // verus!
