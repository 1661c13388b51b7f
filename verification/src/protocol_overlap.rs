//! Protocols as the second argument of `isinstance()` and `issubclass()`
//! (PEP 544): only a `@runtime_checkable` protocol may stand there,
//! `issubclass()` takes no data protocol, and a class whose members clash with
//! the protocol's is an unsafe overlap.
//!
//! A call is given by the parts the check reads: which of the two functions
//! it calls, the class its first argument names (`C` or `C()`), and the names
//! in its second argument.
use vstd::prelude::*;

use crate::assoc::{assoc_find, assoc_get, assoc_index, assoc_insert, lemma_assoc_index, lemma_found_index};
use crate::module::copy_text;
use crate::names::contains_name;
use crate::position::Span;
use crate::text::{eq_chars, eq_str, views};

verus! {

/// A parameter with the source text of its annotation, where it has one.
pub struct ProtoParam {
    pub name: Vec<char>,
    pub annotation: Option<Vec<char>>,
}

/// A function of the module; `class_name` is the class it is defined in.
pub struct ProtoFunction {
    pub class_name: Option<Vec<char>>,
    pub name: Vec<char>,
    pub params: Vec<ProtoParam>,
    pub return_annotation: Option<Vec<char>>,
}

/// A class of the module: its bases as written, the names of its decorators
/// and the names of its attributes.
pub struct ProtoClass {
    pub name: Vec<char>,
    pub bases: Vec<Vec<char>>,
    pub decorators: Vec<Vec<char>>,
    pub attributes: Vec<Vec<char>>,
}

/// What a member of a class is.
pub enum MemberKind {
    /// A method: the annotation text of each parameter but `self` (empty where
    /// there is none), and of its return (likewise).
    Method { params: Vec<Vec<char>>, ret: Vec<char> },
    Attribute,
}

pub enum MemberV {
    Method(Seq<Seq<char>>, Seq<char>),
    Attribute,
}

pub open spec fn member_view(m: MemberKind) -> MemberV {
    match m {
        MemberKind::Method { params, ret } => MemberV::Method(views(params@), ret@),
        MemberKind::Attribute => MemberV::Attribute,
    }
}

pub open spec fn members_view(v: Seq<(Vec<char>, MemberKind)>) -> Seq<(Seq<char>, MemberV)> {
    v.map_values(|e: (Vec<char>, MemberKind)| (e.0@, member_view(e.1)))
}

// ---------------------------------------------------------------------------
// Members
// ---------------------------------------------------------------------------

pub open spec fn opt_text(o: Option<Vec<char>>) -> Seq<char> {
    match o {
        Some(t) => t@,
        None => Seq::empty(),
    }
}

/// The annotation texts of the parameters but `self`.
pub open spec fn param_anns(ps: Seq<ProtoParam>) -> Seq<Seq<char>>
    decreases ps.len(),
{
    if ps.len() == 0 {
        Seq::empty()
    } else if ps.last().name@ == "self"@ {
        param_anns(ps.drop_last())
    } else {
        param_anns(ps.drop_last()).push(opt_text(ps.last().annotation))
    }
}

pub open spec fn method_member(f: ProtoFunction) -> MemberV {
    MemberV::Method(param_anns(f.params@), opt_text(f.return_annotation))
}

/// The methods of the class `cls`; a later method of a name replaces an
/// earlier one.
pub open spec fn func_members(fs: Seq<ProtoFunction>, cls: Seq<char>) -> Seq<(Seq<char>, MemberV)>
    decreases fs.len(),
{
    if fs.len() == 0 {
        Seq::empty()
    } else {
        let prev = func_members(fs.drop_last(), cls);
        let f = fs.last();
        if f.class_name matches Some(c) && c@ == cls {
            assoc_insert(prev, f.name@, method_member(f))
        } else {
            prev
        }
    }
}

/// Attributes added where their name is not yet a member.
pub open spec fn add_attrs(m: Seq<(Seq<char>, MemberV)>, names: Seq<Seq<char>>) -> Seq<(Seq<char>, MemberV)>
    decreases names.len(),
{
    if names.len() == 0 {
        m
    } else {
        let p = add_attrs(m, names.drop_last());
        if assoc_index(p, names.last()) is Some {
            p
        } else {
            p.push((names.last(), MemberV::Attribute))
        }
    }
}

/// Then the attributes of every class named `cls`.
pub open spec fn attr_members(m: Seq<(Seq<char>, MemberV)>, cs: Seq<ProtoClass>, cls: Seq<char>) -> Seq<
    (Seq<char>, MemberV),
>
    decreases cs.len(),
{
    if cs.len() == 0 {
        m
    } else {
        let prev = attr_members(m, cs.drop_last(), cls);
        if cs.last().name@ == cls {
            add_attrs(prev, views(cs.last().attributes@))
        } else {
            prev
        }
    }
}

/// `collect_class_members`: each member name of the class once, a method
/// where there is one.
pub open spec fn members(fs: Seq<ProtoFunction>, cs: Seq<ProtoClass>, cls: Seq<char>) -> Seq<
    (Seq<char>, MemberV),
> {
    attr_members(func_members(fs, cls), cs, cls)
}

fn member_insert(t: &mut Vec<(Vec<char>, MemberKind)>, k: Vec<char>, v: MemberKind)
    ensures
        members_view(final(t)@) == assoc_insert(members_view(old(t)@), k@, member_view(v)),
{
    let ghost tv = members_view(t@);
    let f = assoc_find(t, k.as_slice());
    proof {
        assert forall|j: int| 0 <= j < t@.len() implies tv[j].0 == t@[j].0@ by {}
        lemma_found_index(t@, tv, k@, f);
    }
    let ghost kv = k@;
    let ghost vv = member_view(v);
    match f {
        Some(i) => {
            t.set(i, (k, v));
            proof {
                assert(members_view(t@) =~= tv.update(i as int, (kv, vv)));
            }
        },
        None => {
            t.push((k, v));
            proof {
                assert(members_view(t@) =~= tv.push((kv, vv)));
            }
        },
    }
}

fn param_annotations(ps: &Vec<ProtoParam>) -> (r: Vec<Vec<char>>)
    ensures
        views(r@) == param_anns(ps@),
{
    let mut out: Vec<Vec<char>> = Vec::new();
    let mut i: usize = 0;
    while i < ps.len()
        invariant
            i <= ps@.len(),
            views(out@) == param_anns(ps@.take(i as int)),
        decreases ps.len() - i,
    {
        proof {
            assert(ps@.take(i + 1).drop_last() =~= ps@.take(i as int));
            assert(ps@.take(i + 1).last() == ps@[i as int]);
        }
        if !eq_str(ps[i].name.as_slice(), "self") {
            let a = match &ps[i].annotation {
                Some(t) => copy_text(t.as_slice()),
                None => Vec::new(),
            };
            let ghost av = a@;
            let ghost before = views(out@);
            out.push(a);
            proof {
                assert(av == opt_text(ps@[i as int].annotation));
                assert(views(out@) =~= before.push(av));
            }
        }
        i += 1;
    }
    proof {
        assert(ps@.take(i as int) =~= ps@);
    }
    out
}

/// Each member name of the class once with its kind, a method where there is one.
pub fn collect_class_members(cls: &[char], fs: &Vec<ProtoFunction>, cs: &Vec<ProtoClass>) -> (r: Vec<
    (Vec<char>, MemberKind),
>)
    ensures
        members_view(r@) == members(fs@, cs@, cls@),
{
    let mut m: Vec<(Vec<char>, MemberKind)> = Vec::new();
    let mut i: usize = 0;
    while i < fs.len()
        invariant
            i <= fs@.len(),
            members_view(m@) == func_members(fs@.take(i as int), cls@),
        decreases fs.len() - i,
    {
        proof {
            assert(fs@.take(i + 1).drop_last() =~= fs@.take(i as int));
            assert(fs@.take(i + 1).last() == fs@[i as int]);
        }
        let f = &fs[i];
        let same = match &f.class_name {
            Some(c) => eq_chars(c.as_slice(), cls),
            None => false,
        };
        if same {
            let params = param_annotations(&f.params);
            let ret = match &f.return_annotation {
                Some(t) => copy_text(t.as_slice()),
                None => Vec::new(),
            };
            member_insert(&mut m, copy_text(f.name.as_slice()), MemberKind::Method { params, ret });
        }
        i += 1;
    }
    proof {
        assert(fs@.take(i as int) =~= fs@);
    }
    let ghost fm = members_view(m@);
    let mut k: usize = 0;
    while k < cs.len()
        invariant
            k <= cs@.len(),
            fm == func_members(fs@, cls@),
            members_view(m@) == attr_members(fm, cs@.take(k as int), cls@),
        decreases cs.len() - k,
    {
        proof {
            assert(cs@.take(k + 1).drop_last() =~= cs@.take(k as int));
            assert(cs@.take(k + 1).last() == cs@[k as int]);
        }
        if eq_chars(cs[k].name.as_slice(), cls) {
            let attrs = &cs[k].attributes;
            let ghost m0 = members_view(m@);
            let mut a: usize = 0;
            while a < attrs.len()
                invariant
                    a <= attrs@.len(),
                    members_view(m@) == add_attrs(m0, views(attrs@).take(a as int)),
                decreases attrs.len() - a,
            {
                proof {
                    assert(views(attrs@).take(a + 1).drop_last() =~= views(attrs@).take(a as int));
                    assert(views(attrs@).take(a + 1).last() == attrs@[a as int]@);
                }
                let ghost mv = members_view(m@);
                let f = assoc_find(&m, attrs[a].as_slice());
                proof {
                    assert forall|j: int| 0 <= j < m@.len() implies mv[j].0 == m@[j].0@ by {}
                    lemma_found_index(m@, mv, attrs@[a as int]@, f);
                }
                if f.is_none() {
                    let name = copy_text(attrs[a].as_slice());
                    let ghost nv = name@;
                    m.push((name, MemberKind::Attribute));
                    proof {
                        assert(members_view(m@) =~= mv.push((nv, MemberV::Attribute)));
                    }
                }
                a += 1;
            }
            proof {
                assert(views(attrs@).take(a as int) =~= views(attrs@));
            }
        }
        k += 1;
    }
    proof {
        assert(cs@.take(k as int) =~= cs@);
    }
    m
}

// ---------------------------------------------------------------------------
// Overlap
// ---------------------------------------------------------------------------

/// A protocol member and the concrete class's member of the same name clash:
/// a method against an attribute, methods with different numbers of
/// parameters, or two annotations (both written) that differ.
pub open spec fn unsafe_pair(p: MemberV, c: MemberV) -> bool {
    match (p, c) {
        (MemberV::Method(pp, pr), MemberV::Method(cp, cr)) => pp.len() != cp.len() || (exists|i: int|
            0 <= i < pp.len() && #[trigger] pp[i].len() > 0 && cp[i].len() > 0 && pp[i] != cp[i]) || (pr.len()
            > 0 && cr.len() > 0 && pr != cr),
        (MemberV::Attribute, MemberV::Attribute) => false,
        _ => true,
    }
}

/// The protocol member at `j` clashes with the concrete class's.
pub open spec fn clash_at(cm: Seq<(Seq<char>, MemberV)>, pm: Seq<(Seq<char>, MemberV)>, j: int) -> bool {
    match assoc_get(cm, pm[j].0) {
        Some(c) => unsafe_pair(pm[j].1, c),
        None => false,
    }
}

/// `has_unsafe_overlap`: the concrete class has members and one of them
/// clashes with the protocol's member of its name.
pub open spec fn unsafe_overlap(cm: Seq<(Seq<char>, MemberV)>, pm: Seq<(Seq<char>, MemberV)>) -> bool {
    cm.len() > 0 && exists|j: int| 0 <= j < pm.len() && #[trigger] clash_at(cm, pm, j)
}

fn unsafe_pair_exec(p: &MemberKind, c: &MemberKind) -> (r: bool)
    ensures
        r == unsafe_pair(member_view(*p), member_view(*c)),
{
    match p {
        MemberKind::Method { params: pp, ret: pr } => match c {
            MemberKind::Method { params: cp, ret: cr } => {
                    let ghost ppv = views(pp@);
                    let ghost cpv = views(cp@);
                    if pp.len() != cp.len() {
                        return true;
                    }
                    let mut i: usize = 0;
                    while i < pp.len()
                        invariant
                            i <= pp@.len(),
                            pp@.len() == cp@.len(),
                            ppv == views(pp@),
                            cpv == views(cp@),
                            member_view(*p) == MemberV::Method(ppv, pr@),
                            member_view(*c) == MemberV::Method(cpv, cr@),
                            forall|m: int|
                                0 <= m < i ==> !(#[trigger] ppv[m].len() > 0 && cpv[m].len() > 0 && ppv[m] != cpv[m]),
                        decreases pp.len() - i,
                    {
                        proof {
                            assert(ppv[i as int] == pp@[i as int]@);
                            assert(cpv[i as int] == cp@[i as int]@);
                        }
                        if pp[i].len() > 0 && cp[i].len() > 0 && !eq_chars(pp[i].as_slice(), cp[i].as_slice()) {
                            assert(ppv[i as int].len() > 0 && cpv[i as int].len() > 0 && ppv[i as int] != cpv[i as int]);
                            assert(exists|q: int|
                                0 <= q < ppv.len() && #[trigger] ppv[q].len() > 0 && cpv[q].len() > 0 && ppv[q] != cpv[q]);
                            return true;
                        }
                        i += 1;
                    }
                    pr.len() > 0 && cr.len() > 0 && !eq_chars(pr.as_slice(), cr.as_slice())
            },
            MemberKind::Attribute => true,
        },
        MemberKind::Attribute => match c {
            MemberKind::Attribute => false,
            MemberKind::Method { .. } => true,
        },
    }
}

/// Whether a class shares a member name with a protocol but with another kind (method against attribute).
pub fn has_unsafe_overlap(cm: &Vec<(Vec<char>, MemberKind)>, pm: &Vec<(Vec<char>, MemberKind)>) -> (r: bool)
    ensures
        r == unsafe_overlap(members_view(cm@), members_view(pm@)),
{
    let ghost cv = members_view(cm@);
    let ghost pv = members_view(pm@);
    if cm.len() == 0 {
        return false;
    }
    let mut j: usize = 0;
    while j < pm.len()
        invariant
            j <= pm@.len(),
            cv == members_view(cm@),
            pv == members_view(pm@),
            cv.len() > 0,
            forall|m: int| 0 <= m < j ==> !#[trigger] clash_at(cv, pv, m),
        decreases pm.len() - j,
    {
        let f = assoc_find(cm, pm[j].0.as_slice());
        proof {
            assert forall|q: int| 0 <= q < cm@.len() implies cv[q].0 == cm@[q].0@ by {}
            lemma_found_index(cm@, cv, pm@[j as int].0@, f);
            assert(pv[j as int] == (pm@[j as int].0@, member_view(pm@[j as int].1)));
        }
        match f {
            Some(i) => {
                proof {
                    assert(cv[i as int] == (cm@[i as int].0@, member_view(cm@[i as int].1)));
                }
                if unsafe_pair_exec(&pm[j].1, &cm[i].1) {
                    assert(clash_at(cv, pv, j as int));
                    return true;
                }
            },
            None => {},
        }
        j += 1;
    }
    false
}

/// `is_data_protocol`: some member is an attribute.
pub open spec fn data_members(m: Seq<(Seq<char>, MemberV)>) -> bool {
    exists|j: int| 0 <= j < m.len() && #[trigger] m[j].1 is Attribute
}

fn has_attribute_member(m: &Vec<(Vec<char>, MemberKind)>) -> (r: bool)
    ensures
        r == data_members(members_view(m@)),
{
    let ghost mv = members_view(m@);
    let mut j: usize = 0;
    while j < m.len()
        invariant
            j <= m@.len(),
            mv == members_view(m@),
            forall|q: int| 0 <= q < j ==> !(#[trigger] mv[q].1 is Attribute),
        decreases m.len() - j,
    {
        proof {
            assert(mv[j as int] == (m@[j as int].0@, member_view(m@[j as int].1)));
        }
        if let MemberKind::Attribute = m[j].1 {
            assert(mv[j as int].1 is Attribute);
            return true;
        }
        j += 1;
    }
    false
}

// ---------------------------------------------------------------------------
// Protocols in `isinstance` and `issubclass`
// ---------------------------------------------------------------------------

/// `is_protocol`: some class of the name lists `Protocol` among its bases.
pub open spec fn protocol_class(cs: Seq<ProtoClass>, name: Seq<char>) -> bool {
    exists|k: int| 0 <= k < cs.len() && #[trigger] cs[k].name@ == name && views(cs[k].bases@).contains("Protocol"@)
}

/// `is_runtime_checkable`: some class of the name is decorated with `runtime_checkable`.
pub open spec fn runtime_checkable(cs: Seq<ProtoClass>, name: Seq<char>) -> bool {
    exists|k: int|
        0 <= k < cs.len() && #[trigger] cs[k].name@ == name && views(cs[k].decorators@).contains(
            "runtime_checkable"@,
        )
}

/// Some class has the name.
pub open spec fn class_named(cs: Seq<ProtoClass>, name: Seq<char>) -> bool {
    exists|k: int| 0 <= k < cs.len() && #[trigger] cs[k].name@ == name
}

/// The two functions the check reads.
#[derive(Clone, Copy, PartialEq, Eq, Structural, Debug)]
pub enum TypeTest {
    IsInstance,
    IsSubclass,
}

/// The second argument of the call.
pub enum SecondArg {
    Name(Vec<char>),
    /// A tuple; `None` for an element that is no name.
    Tuple(Vec<Option<Vec<char>>>),
    Other,
}

/// An `isinstance(...)` or `issubclass(...)` call.
pub struct TypeTestCall {
    pub test: TypeTest,
    /// The class the first argument names (`C` or `C()`), if it names one.
    pub first_class: Option<Vec<char>>,
    pub second: SecondArg,
    /// The span of the second argument.
    pub span: Span,
}

/// What is wrong with a protocol in a type test.
pub enum OverlapFinding {
    NotRuntimeCheckable,
    DataProtocolInIssubclass,
    UnsafeOverlap { concrete: Vec<char> },
}

pub enum OverlapFindingV {
    NotRuntimeCheckable,
    DataProtocolInIssubclass,
    UnsafeOverlap(Seq<char>),
}

pub open spec fn overlap_finding_view(f: OverlapFinding) -> OverlapFindingV {
    match f {
        OverlapFinding::NotRuntimeCheckable => OverlapFindingV::NotRuntimeCheckable,
        OverlapFinding::DataProtocolInIssubclass => OverlapFindingV::DataProtocolInIssubclass,
        OverlapFinding::UnsafeOverlap { concrete } => OverlapFindingV::UnsafeOverlap(concrete@),
    }
}

/// `check_single_protocol`: for a protocol of the module, in order: not
/// `@runtime_checkable`; a data protocol in `issubclass()`; a first argument
/// naming a class of the module whose members overlap unsafely.
pub open spec fn protocol_finding(
    proto: Seq<char>,
    test: TypeTest,
    first_class: Option<Vec<char>>,
    fs: Seq<ProtoFunction>,
    cs: Seq<ProtoClass>,
) -> Option<OverlapFindingV> {
    if !protocol_class(cs, proto) {
        None
    } else if !runtime_checkable(cs, proto) {
        Some(OverlapFindingV::NotRuntimeCheckable)
    } else if test == TypeTest::IsSubclass && data_members(members(fs, cs, proto)) {
        Some(OverlapFindingV::DataProtocolInIssubclass)
    } else {
        match first_class {
            Some(c) => if class_named(cs, c@) && unsafe_overlap(members(fs, cs, c@), members(fs, cs, proto)) {
                Some(OverlapFindingV::UnsafeOverlap(c@))
            } else {
                None
            },
            None => None,
        }
    }
}

fn class_test(cs: &Vec<ProtoClass>, name: &[char], which: u8) -> (r: bool)
    requires
        which < 3,
    ensures
        which == 0 ==> r == protocol_class(cs@, name@),
        which == 1 ==> r == runtime_checkable(cs@, name@),
        which == 2 ==> r == class_named(cs@, name@),
{
    let lit = if which == 0 {
        crate::text::chars_of("Protocol")
    } else {
        crate::text::chars_of("runtime_checkable")
    };
    let mut k: usize = 0;
    while k < cs.len()
        invariant
            k <= cs@.len(),
            which < 3,
            which == 0 ==> lit@ == "Protocol"@,
            which == 1 ==> lit@ == "runtime_checkable"@,
            which == 0 ==> forall|q: int|
                0 <= q < k ==> !(#[trigger] cs@[q].name@ == name@ && views(cs@[q].bases@).contains("Protocol"@)),
            which == 1 ==> forall|q: int|
                0 <= q < k ==> !(#[trigger] cs@[q].name@ == name@ && views(cs@[q].decorators@).contains(
                    "runtime_checkable"@,
                )),
            which == 2 ==> forall|q: int| 0 <= q < k ==> !(#[trigger] cs@[q].name@ == name@),
        decreases cs.len() - k,
    {
        if eq_chars(cs[k].name.as_slice(), name) {
            if which == 2 {
                return true;
            }
            let hit = if which == 0 {
                contains_name(&cs[k].bases, lit.as_slice())
            } else {
                contains_name(&cs[k].decorators, lit.as_slice())
            };
            if hit {
                return true;
            }
        }
        k += 1;
    }
    false
}

/// The findings for one protocol named in the second argument of `isinstance` or `issubclass`.
pub fn check_single_protocol(
    proto: &[char],
    test: TypeTest,
    first_class: &Option<Vec<char>>,
    fs: &Vec<ProtoFunction>,
    cs: &Vec<ProtoClass>,
) -> (r: Option<OverlapFinding>)
    ensures
        match r {
            Some(f) => protocol_finding(proto@, test, *first_class, fs@, cs@) == Some(overlap_finding_view(f)),
            None => protocol_finding(proto@, test, *first_class, fs@, cs@) is None,
        },
{
    if !class_test(cs, proto, 0) {
        return None;
    }
    if !class_test(cs, proto, 1) {
        return Some(OverlapFinding::NotRuntimeCheckable);
    }
    let pm = collect_class_members(proto, fs, cs);
    if test == TypeTest::IsSubclass && has_attribute_member(&pm) {
        return Some(OverlapFinding::DataProtocolInIssubclass);
    }
    match first_class {
        Some(c) => {
            if class_test(cs, c.as_slice(), 2) {
                let cm = collect_class_members(c.as_slice(), fs, cs);
                if has_unsafe_overlap(&cm, &pm) {
                    return Some(OverlapFinding::UnsafeOverlap { concrete: copy_text(c.as_slice()) });
                }
            }
            None
        },
        None => None,
    }
}

/// A protocol finding on a call.
pub struct OverlapReport {
    pub protocol: Vec<char>,
    pub test: TypeTest,
    pub finding: OverlapFinding,
    pub span: Span,
}

pub open spec fn overlap_report_view(r: OverlapReport) -> (Seq<char>, TypeTest, OverlapFindingV, Span) {
    (r.protocol@, r.test, overlap_finding_view(r.finding), r.span)
}

/// How a message names the test: `isinstance` or `issubclass`.
pub open spec fn test_name(t: TypeTest) -> Seq<char> {
    match t {
        TypeTest::IsInstance => "isinstance"@,
        TypeTest::IsSubclass => "issubclass"@,
    }
}

/// The text of a finding on protocol `p` in a call of the test `t`.
pub open spec fn overlap_message(p: Seq<char>, t: TypeTest, f: OverlapFindingV) -> Seq<char> {
    match f {
        OverlapFindingV::NotRuntimeCheckable => "Protocol `"@ + p + "` cannot be used with `"@ + test_name(t)
            + "()` because it is not decorated with `@runtime_checkable`"@,
        OverlapFindingV::DataProtocolInIssubclass => "`issubclass()` cannot be used with data protocol `"@ + p
            + "`"@,
        OverlapFindingV::UnsafeOverlap(c) => "Unsafe overlap: `"@ + c + "` has members incompatible with protocol `"@
            + p + "` in `"@ + test_name(t) + "()` call"@,
    }
}

fn push_test(m: &mut Vec<char>, t: TypeTest)
    ensures
        final(m)@ == old(m)@ + test_name(t),
{
    match t {
        TypeTest::IsInstance => crate::text::push_lit(m, "isinstance"),
        TypeTest::IsSubclass => crate::text::push_lit(m, "issubclass"),
    }
}

impl OverlapReport {
    /// The finding's message.
    pub fn message(&self) -> (r: Vec<char>)
        ensures
            r@ == overlap_message(self.protocol@, self.test, overlap_finding_view(self.finding)),
    {
        let p = self.protocol.as_slice();
        match &self.finding {
            OverlapFinding::NotRuntimeCheckable => {
                let mut m = crate::text::chars_of("Protocol `");
                crate::text::push_chars(&mut m, p);
                crate::text::push_lit(&mut m, "` cannot be used with `");
                push_test(&mut m, self.test);
                crate::text::push_lit(&mut m, "()` because it is not decorated with `@runtime_checkable`");
                m
            },
            OverlapFinding::DataProtocolInIssubclass => {
                let mut m = crate::text::chars_of("`issubclass()` cannot be used with data protocol `");
                crate::text::push_chars(&mut m, p);
                crate::text::push_lit(&mut m, "`");
                m
            },
            OverlapFinding::UnsafeOverlap { concrete } => {
                let mut m = crate::text::chars_of("Unsafe overlap: `");
                crate::text::push_chars(&mut m, concrete.as_slice());
                crate::text::push_lit(&mut m, "` has members incompatible with protocol `");
                crate::text::push_chars(&mut m, p);
                crate::text::push_lit(&mut m, "` in `");
                push_test(&mut m, self.test);
                crate::text::push_lit(&mut m, "()` call");
                m
            },
        }
    }
}

/// The first element of a tuple, among the first `n`, that names a protocol
/// with a finding.
pub open spec fn first_tuple_finding(
    elts: Seq<Option<Vec<char>>>,
    n: int,
    test: TypeTest,
    first_class: Option<Vec<char>>,
    fs: Seq<ProtoFunction>,
    cs: Seq<ProtoClass>,
) -> Option<(Seq<char>, OverlapFindingV)>
    decreases n,
{
    if n <= 0 {
        None
    } else {
        match first_tuple_finding(elts, n - 1, test, first_class, fs, cs) {
            Some(x) => Some(x),
            None => match elts[n - 1] {
                Some(p) => match protocol_finding(p@, test, first_class, fs, cs) {
                    Some(f) => Some((p@, f)),
                    None => None,
                },
                None => None,
            },
        }
    }
}

/// What a call reports: for a name, its finding; for a tuple, the finding of
/// its first element that has one (one per call); at the second argument's
/// span.
pub open spec fn call_finding(call: TypeTestCall, fs: Seq<ProtoFunction>, cs: Seq<ProtoClass>) -> Option<
    (Seq<char>, TypeTest, OverlapFindingV, Span),
> {
    match call.second {
        SecondArg::Name(p) => match protocol_finding(p@, call.test, call.first_class, fs, cs) {
            Some(f) => Some((p@, call.test, f, call.span)),
            None => None,
        },
        SecondArg::Tuple(elts) => match first_tuple_finding(
            elts@,
            elts@.len() as int,
            call.test,
            call.first_class,
            fs,
            cs,
        ) {
            Some(x) => Some((x.0, call.test, x.1, call.span)),
            None => None,
        },
        SecondArg::Other => None,
    }
}

/// The protocol check of one `isinstance()` or `issubclass()` call.
pub fn check_type_test_call(call: &TypeTestCall, fs: &Vec<ProtoFunction>, cs: &Vec<ProtoClass>) -> (r: Option<
    OverlapReport,
>)
    ensures
        match r {
            Some(x) => call_finding(*call, fs@, cs@) == Some(overlap_report_view(x)),
            None => call_finding(*call, fs@, cs@) is None,
        },
{
    match &call.second {
        SecondArg::Name(p) => match check_single_protocol(p.as_slice(), call.test, &call.first_class, fs, cs) {
            Some(f) => Some(OverlapReport { protocol: copy_text(p.as_slice()), test: call.test, finding: f, span: call.span }),
            None => None,
        },
        SecondArg::Tuple(elts) => {
            let mut i: usize = 0;
            while i < elts.len()
                invariant
                    i <= elts@.len(),
                    call.second matches SecondArg::Tuple(e) && e@ == elts@,
                    first_tuple_finding(elts@, i as int, call.test, call.first_class, fs@, cs@) is None,
                decreases elts.len() - i,
            {
                if let Some(p) = &elts[i] {
                    match check_single_protocol(p.as_slice(), call.test, &call.first_class, fs, cs) {
                        Some(f) => {
                            let ghost pv = p@;
                            let ghost fv = overlap_finding_view(f);
                            let r = OverlapReport { protocol: copy_text(p.as_slice()), test: call.test, finding: f, span: call.span };
                            proof {
                                assert(overlap_report_view(r) == (pv, call.test, fv, call.span));
                                assert(first_tuple_finding(elts@, i + 1, call.test, call.first_class, fs@, cs@) == Some((pv, fv)));
                                lemma_first_tuple_from(elts@, i + 1, elts@.len() as int, call.test, call.first_class, fs@, cs@);
                                assert(call_finding(*call, fs@, cs@) == Some((pv, call.test, fv, call.span)));
                            }
                            return Some(r);
                        },
                        None => {},
                    }
                }
                i += 1;
            }
            None
        },
        SecondArg::Other => None,
    }
}

/// Once found, the first finding stays the first.
proof fn lemma_first_tuple_from(
    elts: Seq<Option<Vec<char>>>,
    i: int,
    n: int,
    test: TypeTest,
    first_class: Option<Vec<char>>,
    fs: Seq<ProtoFunction>,
    cs: Seq<ProtoClass>,
)
    requires
        0 <= i <= n,
        first_tuple_finding(elts, i, test, first_class, fs, cs) is Some,
    ensures
        first_tuple_finding(elts, n, test, first_class, fs, cs) == first_tuple_finding(
            elts,
            i,
            test,
            first_class,
            fs,
            cs,
        ),
    decreases n - i,
{
    if n > i {
        lemma_first_tuple_from(elts, i, n - 1, test, first_class, fs, cs);
    }
}

// ---------------------------------------------------------------------------
// Expressions
// ---------------------------------------------------------------------------

/// An expression as `check_expr_for_violations` reads it.
pub enum TestExpr {
    /// A call of `isinstance` or `issubclass`.
    TypeTest(TypeTestCall),
    /// Another call: its callee, then its positional arguments.
    OtherCall { func: Box<TestExpr>, args: Vec<TestExpr> },
    /// A boolean operation's values, a unary operation's operand, or a
    /// conditional expression's test, body and else branch, in order.
    Operands(Vec<TestExpr>),
    Other,
}

pub open spec fn opt_finding(o: Option<(Seq<char>, TypeTest, OverlapFindingV, Span)>) -> Seq<
    (Seq<char>, TypeTest, OverlapFindingV, Span),
> {
    match o {
        Some(x) => seq![x],
        None => Seq::empty(),
    }
}

/// `check_expr_for_violations`: the finding of each type test, walking other
/// calls (callee, then arguments) and operands in order.
pub open spec fn test_expr_findings(e: TestExpr, fs: Seq<ProtoFunction>, cs: Seq<ProtoClass>) -> Seq<
    (Seq<char>, TypeTest, OverlapFindingV, Span),
>
    decreases e,
{
    match e {
        TestExpr::TypeTest(c) => opt_finding(call_finding(c, fs, cs)),
        TestExpr::OtherCall { func, args } => test_expr_findings(*func, fs, cs) + test_exprs_findings(
            args@,
            fs,
            cs,
        ),
        TestExpr::Operands(es) => test_exprs_findings(es@, fs, cs),
        TestExpr::Other => Seq::empty(),
    }
}

pub open spec fn test_exprs_findings(es: Seq<TestExpr>, fs: Seq<ProtoFunction>, cs: Seq<ProtoClass>) -> Seq<
    (Seq<char>, TypeTest, OverlapFindingV, Span),
>
    decreases es,
{
    if es.len() == 0 {
        Seq::empty()
    } else {
        test_exprs_findings(es.drop_last(), fs, cs) + test_expr_findings(es.last(), fs, cs)
    }
}

pub open spec fn overlap_reports_view(v: Seq<OverlapReport>) -> Seq<(Seq<char>, TypeTest, OverlapFindingV, Span)> {
    v.map_values(|r: OverlapReport| overlap_report_view(r))
}

/// Appends the protocol-test findings within one expression and its subexpressions.
pub fn check_expr_for_violations(
    e: &TestExpr,
    fs: &Vec<ProtoFunction>,
    cs: &Vec<ProtoClass>,
    out: &mut Vec<OverlapReport>,
)
    ensures
        overlap_reports_view(final(out)@) == overlap_reports_view(old(out)@) + test_expr_findings(*e, fs@, cs@),
    decreases e,
{
    let ghost start = overlap_reports_view(out@);
    match e {
        TestExpr::TypeTest(c) => {
            match check_type_test_call(c, fs, cs) {
                Some(r) => {
                    let ghost rv = overlap_report_view(r);
                    out.push(r);
                    proof {
                        assert(overlap_reports_view(out@) =~= start + seq![rv]);
                    }
                },
                None => {
                    assert(overlap_reports_view(out@) =~= start + Seq::empty());
                },
            }
        },
        TestExpr::OtherCall { func, args } => {
            check_expr_for_violations(func, fs, cs, out);
            proof {
                assert(decreases_to!(*e => e->args));
            }
            check_exprs_for_violations(args, fs, cs, out);
            proof {
                assert(overlap_reports_view(out@) =~= start + test_expr_findings(*e, fs@, cs@));
            }
        },
        TestExpr::Operands(es) => {
            proof {
                assert(decreases_to!(*e => e->Operands_0));
            }
            check_exprs_for_violations(es, fs, cs, out);
        },
        TestExpr::Other => {
            assert(overlap_reports_view(out@) =~= start + Seq::empty());
        },
    }
}

/// Each expression in turn, as the statement walk hands them over.
pub fn check_exprs_for_violations(
    es: &Vec<TestExpr>,
    fs: &Vec<ProtoFunction>,
    cs: &Vec<ProtoClass>,
    out: &mut Vec<OverlapReport>,
)
    ensures
        overlap_reports_view(final(out)@) == overlap_reports_view(old(out)@) + test_exprs_findings(es@, fs@, cs@),
    decreases es,
{
    let ghost start = overlap_reports_view(out@);
    let mut i: usize = 0;
    while i < es.len()
        invariant
            i <= es@.len(),
            overlap_reports_view(out@) == start + test_exprs_findings(es@.take(i as int), fs@, cs@),
        decreases es.len() - i,
    {
        proof {
            vstd::std_specs::vec::axiom_vec_index_decreases(*es, i as int);
            assert(es@.take(i + 1).drop_last() =~= es@.take(i as int));
        }
        check_expr_for_violations(&es[i], fs, cs, out);
        proof {
            assert(es@.take(i + 1).last() == es@[i as int]);
            assert(overlap_reports_view(out@) =~= start + test_exprs_findings(es@.take(i + 1), fs@, cs@));
        }
        i += 1;
    }
    proof {
        assert(es@.take(i as int) =~= es@);
    }
}

} // verus!
