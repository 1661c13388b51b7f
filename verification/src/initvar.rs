//! A dataclass's `__post_init__` must take one parameter per `InitVar`
//! field, in order, each typed as that field's `InitVar[T]` says.
use vstd::prelude::*;

use crate::numbers::{decimal_nat, usize_to_decimal};

use crate::annotations::{extract_initvar_inner, initvar_inner};
use crate::module::{copy_text, FunctionSite, ParamSite};
use crate::position::Span;
use crate::text::{before_char, before_char_exec, eq_chars, eq_str, trim, trim_chars, views};

verus! {

/// A class attribute as the rule reads it.
pub struct InitVarField {
    pub name: Vec<char>,
    pub is_init_var: bool,
    /// The source text of the annotation.
    pub annotation: Option<Vec<char>>,
}

/// A class as the rule reads it.
pub struct DataclassInfo {
    pub name: Vec<char>,
    pub is_dataclass: bool,
    /// The base class expressions, as written.
    pub bases: Vec<Vec<char>>,
    pub attributes: Vec<InitVarField>,
}

/// What is wrong with a `__post_init__`.
pub enum PostInitIssue {
    /// It takes `params` parameters after `self` for `initvars` fields.
    ParamCount { class: Vec<char>, params: usize, initvars: usize },
    /// The parameter's annotation differs from the field's `InitVar` type.
    ParamType { param: Vec<char>, param_type: Vec<char>, field: Vec<char>, inner: Vec<char> },
}

/// An issue at the `__post_init__` name (count) or the parameter name
/// (type).
pub struct PostInitReport {
    pub span: Span,
    pub issue: PostInitIssue,
}

pub enum IssueV {
    ParamCount(Seq<char>, nat, nat),
    ParamType(Seq<char>, Seq<char>, Seq<char>, Seq<char>),
}

/// The text of a finding.
pub open spec fn post_init_message(i: IssueV) -> Seq<char> {
    match i {
        IssueV::ParamCount(class, params, initvars) => "`__post_init__` in `"@ + class + "` has "@ + decimal_nat(
            params,
        ) + " parameter"@ + crate::constructor::plural(params) + " after `self`, but "@ + decimal_nat(initvars)
            + " `InitVar` field"@ + crate::constructor::plural(initvars) + " declared"@,
        IssueV::ParamType(param, param_type, field, inner) => "`__post_init__` parameter `"@ + param
            + "` has type `"@ + param_type + "` but `InitVar` field `"@ + field + "` declares inner type `"@ + inner
            + "`"@,
    }
}

fn push_plural(m: &mut Vec<char>, n: usize)
    ensures
        final(m)@ == old(m)@ + crate::constructor::plural(n as nat),
{
    if n != 1 {
        crate::text::push_lit(m, "s");
        proof {
            reveal_strlit("s");
        }
    } else {
        proof {
            reveal_strlit("");
            assert(final(m)@ =~= old(m)@ + ""@);
        }
    }
}

impl PostInitReport {
    /// The finding's message.
    pub fn message(&self) -> (r: Vec<char>)
        ensures
            r@ == post_init_message(report_view(*self).1),
    {
        match &self.issue {
            PostInitIssue::ParamCount { class, params, initvars } => {
                let mut m = crate::text::chars_of("`__post_init__` in `");
                crate::text::push_chars(&mut m, class.as_slice());
                crate::text::push_lit(&mut m, "` has ");
                crate::text::push_chars(&mut m, usize_to_decimal(*params).as_slice());
                crate::text::push_lit(&mut m, " parameter");
                push_plural(&mut m, *params);
                crate::text::push_lit(&mut m, " after `self`, but ");
                crate::text::push_chars(&mut m, usize_to_decimal(*initvars).as_slice());
                crate::text::push_lit(&mut m, " `InitVar` field");
                push_plural(&mut m, *initvars);
                crate::text::push_lit(&mut m, " declared");
                m
            },
            PostInitIssue::ParamType { param, param_type, field, inner } => {
                let mut m = crate::text::chars_of("`__post_init__` parameter `");
                crate::text::push_chars(&mut m, param.as_slice());
                crate::text::push_lit(&mut m, "` has type `");
                crate::text::push_chars(&mut m, param_type.as_slice());
                crate::text::push_lit(&mut m, "` but `InitVar` field `");
                crate::text::push_chars(&mut m, field.as_slice());
                crate::text::push_lit(&mut m, "` declares inner type `");
                crate::text::push_chars(&mut m, inner.as_slice());
                crate::text::push_lit(&mut m, "`");
                m
            },
        }
    }
}

pub open spec fn report_view(r: PostInitReport) -> (Span, IssueV) {
    (
        r.span,
        match r.issue {
            PostInitIssue::ParamCount { class, params, initvars } => IssueV::ParamCount(
                class@,
                params as nat,
                initvars as nat,
            ),
            PostInitIssue::ParamType { param, param_type, field, inner } => IssueV::ParamType(
                param@,
                param_type@,
                field@,
                inner@,
            ),
        },
    )
}

pub open spec fn reports_view(v: Seq<PostInitReport>) -> Seq<(Span, IssueV)> {
    v.map_values(|r: PostInitReport| report_view(r))
}

/// The `InitVar` fields, in order.
pub open spec fn init_vars(s: Seq<InitVarField>) -> Seq<InitVarField>
    decreases s.len(),
{
    if s.len() == 0 {
        Seq::empty()
    } else if s.last().is_init_var {
        init_vars(s.drop_last()).push(s.last())
    } else {
        init_vars(s.drop_last())
    }
}

/// The class a name looks up: the last of that name.
pub open spec fn dataclass_index(cs: Seq<DataclassInfo>, name: Seq<char>) -> Option<int>
    decreases cs.len(),
{
    if cs.len() == 0 {
        None
    } else if cs.last().name@ == name {
        Some(cs.len() - 1)
    } else {
        dataclass_index(cs.drop_last(), name)
    }
}

/// A base (its name is the text before `[`, trimmed) that is a class with
/// `InitVar` fields.
pub open spec fn initvar_parent(cs: Seq<DataclassInfo>, base: Seq<char>) -> bool {
    match dataclass_index(cs, trim(before_char(base, '['))) {
        Some(k) => init_vars(cs[k].attributes@).len() > 0,
        None => false,
    }
}

pub open spec fn any_initvar_parent(cs: Seq<DataclassInfo>, bs: Seq<Seq<char>>) -> bool
    decreases bs.len(),
{
    bs.len() > 0 && (any_initvar_parent(cs, bs.drop_last()) || initvar_parent(cs, bs.last()))
}

/// The first method `__post_init__` of the class.
pub open spec fn post_init_index(fs: Seq<FunctionSite>, class: Seq<char>) -> Option<int>
    decreases fs.len(),
{
    if fs.len() == 0 {
        None
    } else {
        match post_init_index(fs.drop_last(), class) {
            Some(i) => Some(i),
            None => {
                let f = fs.last();
                if f.class_name matches Some(c) && c@ == class && f.name@ == "__post_init__"@ {
                    Some(fs.len() - 1)
                } else {
                    None
                }
            },
        }
    }
}

/// The parameters after the first.
pub open spec fn after_self(ps: Seq<ParamSite>) -> Seq<ParamSite> {
    if ps.len() > 0 {
        ps.skip(1)
    } else {
        ps
    }
}

/// A parameter whose annotation differs from its field's `InitVar` type
/// (when the field's annotation is `InitVar[T]` and both are annotated).
pub open spec fn pair_findings(p: ParamSite, f: InitVarField) -> Seq<(Span, IssueV)> {
    match f.annotation {
        Some(fa) => match initvar_inner(fa@) {
            Some(inner) => match p.annotation {
                Some(pa) => if inner != trim(pa@) {
                    seq![(p.name_span, IssueV::ParamType(p.name@, trim(pa@), f.name@, inner))]
                } else {
                    Seq::empty()
                },
                None => Seq::empty(),
            },
            None => Seq::empty(),
        },
        None => Seq::empty(),
    }
}

pub open spec fn pairs_findings(ps: Seq<ParamSite>, ivs: Seq<InitVarField>, n: int) -> Seq<(Span, IssueV)>
    decreases n,
{
    if n <= 0 {
        Seq::empty()
    } else {
        pairs_findings(ps, ivs, n - 1) + pair_findings(ps[n - 1], ivs[n - 1])
    }
}

/// `check_post_init_signatures` for one class.
pub open spec fn class_findings(cs: Seq<DataclassInfo>, fs: Seq<FunctionSite>, c: DataclassInfo) -> Seq<
    (Span, IssueV),
> {
    let ivs = init_vars(c.attributes@);
    if !c.is_dataclass || ivs.len() == 0 || any_initvar_parent(cs, views(c.bases@)) {
        Seq::empty()
    } else {
        match post_init_index(fs, c.name@) {
            Some(j) => {
                let ps = after_self(fs[j].params@);
                if ps.len() != ivs.len() {
                    seq![(fs[j].name_span, IssueV::ParamCount(c.name@, ps.len(), ivs.len()))]
                } else {
                    pairs_findings(ps, ivs, ps.len() as int)
                }
            },
            None => Seq::empty(),
        }
    }
}

pub open spec fn post_init_findings(cs: Seq<DataclassInfo>, fs: Seq<FunctionSite>, upto: int) -> Seq<
    (Span, IssueV),
>
    decreases upto,
{
    if upto <= 0 {
        Seq::empty()
    } else {
        post_init_findings(cs, fs, upto - 1) + class_findings(cs, fs, cs[upto - 1])
    }
}

fn collect_init_vars(attrs: &Vec<InitVarField>) -> (r: Vec<usize>)
    ensures
        r@.len() == init_vars(attrs@).len(),
        forall|k: int| 0 <= k < r@.len() ==> (#[trigger] r@[k]) < attrs@.len() && attrs@[r@[k] as int]
            == init_vars(attrs@)[k],
{
    let mut out: Vec<usize> = Vec::new();
    let mut i: usize = 0;
    while i < attrs.len()
        invariant
            i <= attrs@.len(),
            out@.len() == init_vars(attrs@.take(i as int)).len(),
            forall|k: int| 0 <= k < out@.len() ==> (#[trigger] out@[k]) < attrs@.len() && attrs@[out@[k] as int]
                == init_vars(attrs@.take(i as int))[k],
        decreases attrs.len() - i,
    {
        proof {
            assert(attrs@.take(i + 1).drop_last() =~= attrs@.take(i as int));
            assert(attrs@.take(i + 1).last() == attrs@[i as int]);
        }
        if attrs[i].is_init_var {
            out.push(i);
        }
        i += 1;
    }
    proof {
        assert(attrs@.take(i as int) =~= attrs@);
    }
    out
}

fn find_dataclass(cs: &Vec<DataclassInfo>, name: &[char]) -> (r: Option<usize>)
    ensures
        match r {
            Some(i) => i < cs@.len() && dataclass_index(cs@, name@) == Some(i as int),
            None => dataclass_index(cs@, name@) is None,
        },
{
    let mut i: usize = cs.len();
    assert(cs@.take(i as int) =~= cs@);
    while i > 0
        invariant
            i <= cs@.len(),
            dataclass_index(cs@, name@) == dataclass_index(cs@.take(i as int), name@),
        decreases i,
    {
        proof {
            assert(cs@.take(i as int).drop_last() =~= cs@.take(i - 1));
            assert(cs@.take(i as int).last() == cs@[i - 1]);
        }
        if eq_chars(cs[i - 1].name.as_slice(), name) {
            return Some(i - 1);
        }
        i -= 1;
    }
    None
}

fn has_initvar_parent(cs: &Vec<DataclassInfo>, bases: &Vec<Vec<char>>) -> (r: bool)
    ensures
        r == any_initvar_parent(cs@, views(bases@)),
{
    let ghost bs = views(bases@);
    let mut i: usize = 0;
    assert(bs.take(0) =~= Seq::<Seq<char>>::empty());
    while i < bases.len()
        invariant
            i <= bs.len(),
            bs == views(bases@),
            !any_initvar_parent(cs@, bs.take(i as int)),
        decreases bases.len() - i,
    {
        proof {
            assert(bs.take(i + 1).drop_last() =~= bs.take(i as int));
            assert(bs.take(i + 1).last() == bases@[i as int]@);
        }
        let head = before_char_exec(bases[i].as_slice(), '[');
        let name = trim_chars(head.as_slice());
        if let Some(k) = find_dataclass(cs, name.as_slice()) {
            let ivs = collect_init_vars(&cs[k].attributes);
            if ivs.len() > 0 {
                proof {
                    lemma_any_parent_prefix(cs@, bs, i + 1);
                }
                return true;
            }
        }
        i += 1;
    }
    proof {
        assert(bs.take(i as int) =~= bs);
    }
    false
}

proof fn lemma_any_parent_prefix(cs: Seq<DataclassInfo>, bs: Seq<Seq<char>>, k: int)
    requires
        0 <= k <= bs.len(),
        any_initvar_parent(cs, bs.take(k)),
    ensures
        any_initvar_parent(cs, bs),
    decreases bs.len() - k,
{
    if k < bs.len() {
        assert(bs.take(k + 1).drop_last() =~= bs.take(k));
        lemma_any_parent_prefix(cs, bs, k + 1);
    } else {
        assert(bs.take(k) =~= bs);
    }
}

fn find_post_init(fs: &Vec<FunctionSite>, class: &[char]) -> (r: Option<usize>)
    ensures
        match r {
            Some(j) => j < fs@.len() && post_init_index(fs@, class@) == Some(j as int),
            None => post_init_index(fs@, class@) is None,
        },
{
    let mut j: usize = 0;
    while j < fs.len()
        invariant
            j <= fs@.len(),
            post_init_index(fs@.take(j as int), class@) is None,
        decreases fs.len() - j,
    {
        proof {
            assert(fs@.take(j + 1).drop_last() =~= fs@.take(j as int));
            assert(fs@.take(j + 1).last() == fs@[j as int]);
        }
        let f = &fs[j];
        let hit = match &f.class_name {
            Some(c) => eq_chars(c.as_slice(), class) && eq_str(f.name.as_slice(), "__post_init__"),
            None => false,
        };
        if hit {
            proof {
                lemma_post_init_prefix(fs@, class@, j + 1);
            }
            return Some(j);
        }
        j += 1;
    }
    proof {
        assert(fs@.take(j as int) =~= fs@);
    }
    None
}

proof fn lemma_post_init_prefix(fs: Seq<FunctionSite>, class: Seq<char>, k: int)
    requires
        0 <= k <= fs.len(),
        post_init_index(fs.take(k), class) is Some,
    ensures
        post_init_index(fs, class) == post_init_index(fs.take(k), class),
    decreases fs.len() - k,
{
    if k < fs.len() {
        assert(fs.take(k + 1).drop_last() =~= fs.take(k));
        lemma_post_init_prefix(fs, class, k + 1);
    } else {
        assert(fs.take(k) =~= fs);
    }
}

fn check_pair(p: &ParamSite, f: &InitVarField, out: &mut Vec<PostInitReport>)
    ensures
        reports_view(final(out)@) == reports_view(old(out)@) + pair_findings(*p, *f),
{
    let ghost before = reports_view(out@);
    if let Some(fa) = &f.annotation {
        if let Some(inner) = extract_initvar_inner(fa.as_slice()) {
            if let Some(pa) = &p.annotation {
                let pt = trim_chars(pa.as_slice());
                if !eq_chars(inner.as_slice(), pt.as_slice()) {
                    out.push(
                        PostInitReport {
                            span: p.name_span,
                            issue: PostInitIssue::ParamType {
                                param: copy_text(p.name.as_slice()),
                                param_type: pt,
                                field: copy_text(f.name.as_slice()),
                                inner,
                            },
                        },
                    );
                }
            }
        }
    }
    proof {
        assert(reports_view(out@) =~= before + pair_findings(*p, *f));
    }
}

/// `check_post_init_signatures` for one class.
pub fn check_class_post_init(
    cs: &Vec<DataclassInfo>,
    fs: &Vec<FunctionSite>,
    c: &DataclassInfo,
    out: &mut Vec<PostInitReport>,
)
    ensures
        reports_view(final(out)@) == reports_view(old(out)@) + class_findings(cs@, fs@, *c),
{
    let ghost before = reports_view(out@);
    let ghost ivs = init_vars(c.attributes@);
    let idx = collect_init_vars(&c.attributes);
    if !c.is_dataclass || idx.len() == 0 || has_initvar_parent(cs, &c.bases) {
        proof {
            assert(reports_view(out@) =~= before + class_findings(cs@, fs@, *c));
        }
        return ;
    }
    let j = match find_post_init(fs, c.name.as_slice()) {
        Some(j) => j,
        None => {
            proof {
                assert(reports_view(out@) =~= before + class_findings(cs@, fs@, *c));
            }
            return ;
        },
    };
    let f = &fs[j];
    let np = if f.params.len() > 0 {
        f.params.len() - 1
    } else {
        0
    };
    let ghost ps = after_self(f.params@);
    if np != idx.len() {
        out.push(
            PostInitReport {
                span: f.name_span,
                issue: PostInitIssue::ParamCount {
                    class: copy_text(c.name.as_slice()),
                    params: np,
                    initvars: idx.len(),
                },
            },
        );
        proof {
            assert(reports_view(out@) =~= before + class_findings(cs@, fs@, *c));
        }
        return ;
    }
    let mut k: usize = 0;
    while k < np
        invariant
            k <= np,
            np == ps.len(),
            np == idx@.len(),
            ps == after_self(f.params@),
            f.params@.len() > 0 ==> ps == f.params@.skip(1),
            ivs == init_vars(c.attributes@),
            idx@.len() == ivs.len(),
            forall|m: int| 0 <= m < idx@.len() ==> (#[trigger] idx@[m]) < c.attributes@.len()
                && c.attributes@[idx@[m] as int] == ivs[m],
            reports_view(out@) == before + pairs_findings(ps, ivs, k as int),
        decreases np - k,
    {
        let a = idx[k];
        assert(c.attributes@[idx@[k as int] as int] == ivs[k as int]);
        check_pair(&f.params[k + 1], &c.attributes[a], out);
        proof {
            assert(f.params@[k + 1] == ps[k as int]);
        }
        k += 1;
    }
    proof {
        assert(reports_view(out@) =~= before + class_findings(cs@, fs@, *c));
    }
}

/// The rule's `__post_init__` part: the issues of each class, in order.
pub fn check_post_init_signatures(cs: &Vec<DataclassInfo>, fs: &Vec<FunctionSite>) -> (r: Vec<
    PostInitReport,
>)
    ensures
        reports_view(r@) == post_init_findings(cs@, fs@, cs@.len() as int),
{
    let mut out: Vec<PostInitReport> = Vec::new();
    let mut i: usize = 0;
    while i < cs.len()
        invariant
            i <= cs@.len(),
            reports_view(out@) == post_init_findings(cs@, fs@, i as int),
        decreases cs.len() - i,
    {
        check_class_post_init(cs, fs, &cs[i], &mut out);
        i += 1;
    }
    out
}

} // verus!
