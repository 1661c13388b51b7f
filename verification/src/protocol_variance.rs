//! A `TypeVar` of a generic protocol declared invariant although its use in
//! the protocol is only covariant (return types) or only contravariant
//! (parameter types): the variance it should be declared with.
use vstd::prelude::*;

use crate::assoc::{assoc_find, assoc_get, assoc_insert, lemma_found_index};
use crate::module::FunctionSite;
use crate::names::{contains_ident_ref, contains_typevar_reference, ident_ref_at};
use crate::position::Span;
use crate::text::{eq_chars, eq_str, is_ident, is_ident_char, matches_at, matches_at_exec};

verus! {

/// A name the occurrence scans can take: not empty, its first character
/// ASCII. (The scans step one byte past a rejected occurrence, which falls
/// inside a character when the name starts with a wider one.)
pub open spec fn scan_name(name: Seq<char>) -> bool {
    name.len() > 0 && (name[0] as u32) < 128
}

/// `contains_typevar`: `name` occurs in `text` as a whole identifier.
pub fn contains_typevar(text: &[char], name: &[char]) -> (r: bool)
    requires
        scan_name(name@),
    ensures
        r == contains_ident_ref(text@, name@),
{
    contains_typevar_reference(text, name)
}

/// `bracket_depth`: the nesting of `[` in `s[0..i)`, a `]` never taking it
/// below zero.
pub open spec fn square_depth(s: Seq<char>, i: int) -> nat
    decreases i,
{
    if i <= 0 {
        0
    } else {
        let d = square_depth(s, i - 1);
        if s[i - 1] == '[' {
            d + 1
        } else if s[i - 1] == ']' {
            if d > 0 {
                (d - 1) as nat
            } else {
                0
            }
        } else {
            d
        }
    }
}

pub proof fn lemma_square_depth_bound(s: Seq<char>, i: int)
    requires
        0 <= i,
    ensures
        square_depth(s, i) <= i,
    decreases i,
{
    if i > 0 {
        lemma_square_depth_bound(s, i - 1);
    }
}

pub fn bracket_depth(prefix: &[char]) -> (r: usize)
    ensures
        r == square_depth(prefix@, prefix@.len() as int),
{
    let mut depth: usize = 0;
    let mut i: usize = 0;
    while i < prefix.len()
        invariant
            i <= prefix@.len(),
            depth == square_depth(prefix@, i as int),
        decreases prefix.len() - i,
    {
        proof {
            lemma_square_depth_bound(prefix@, i as int);
        }
        if prefix[i] == '[' {
            depth = depth + 1;
        } else if prefix[i] == ']' {
            depth = if depth > 0 {
                depth - 1
            } else {
                0
            };
        }
        i += 1;
    }
    depth
}

/// `typevar_only_in_subscript`: `name` occurs in `text` as a whole
/// identifier, and every such occurrence is inside `[...]`.
pub open spec fn only_in_subscript(text: Seq<char>, name: Seq<char>) -> bool {
    &&& contains_ident_ref(text, name)
    &&& forall|i: int| ident_ref_at(text, name, i) ==> square_depth(text, i) > 0
}

pub fn typevar_only_in_subscript(text: &[char], name: &[char]) -> (r: bool)
    requires
        scan_name(name@),
    ensures
        r == only_in_subscript(text@, name@),
{
    let n = text.len();
    let m = name.len();
    let mut found_any = false;
    let mut depth: usize = 0;
    let mut i: usize = 0;
    while i < n
        invariant
            n == text@.len(),
            m == name@.len(),
            i <= n,
            depth == square_depth(text@, i as int),
            found_any <==> exists|j: int| 0 <= j < i && ident_ref_at(text@, name@, j),
            forall|j: int| 0 <= j < i && ident_ref_at(text@, name@, j) ==> square_depth(text@, j) > 0,
        decreases n - i,
    {
        if m <= n - i && matches_at_exec(text, i, name) {
            let before_ok = i == 0 || !is_ident_char(text[i - 1]);
            let after_ok = i + m >= n || !is_ident_char(text[i + m]);
            if before_ok && after_ok {
                assert(ident_ref_at(text@, name@, i as int));
                if depth == 0 {
                    return false;
                }
                found_any = true;
            }
        }
        proof {
            if !(m <= n - i) {
                assert(!matches_at(text@, i as int, name@));
            }
            lemma_square_depth_bound(text@, i as int);
        }
        if text[i] == '[' {
            depth = depth + 1;
        } else if text[i] == ']' {
            depth = if depth > 0 {
                depth - 1
            } else {
                0
            };
        }
        i += 1;
    }
    proof {
        assert forall|j: int| ident_ref_at(text@, name@, j) implies 0 <= j < n by {}
    }
    found_any
}

/// A `TypeVar` declaration and whether it declares a variance.
pub struct VarianceDecl {
    pub name: Vec<char>,
    pub is_covariant: bool,
    pub is_contravariant: bool,
}

/// What the rule reads of a class: its name and where it is, the names in its
/// base expressions, the names of its generic parameters, and the source
/// text of each class-body attribute annotation that could be read.
pub struct ProtocolClass {
    pub name: Vec<char>,
    pub name_span: Span,
    pub base_expression_names: Vec<Vec<char>>,
    pub generic_params: Vec<Vec<char>>,
    pub attribute_annotations: Vec<Option<Vec<char>>>,
}

/// The variance a `TypeVar` shows in a protocol.
#[derive(Clone, Copy, PartialEq, Eq, Structural, Debug)]
pub enum InferredVariance {
    /// Only in return types.
    Covariant,
    /// Only in parameter types.
    Contravariant,
    /// In both, in an attribute, or in a return type only inside brackets.
    Invariant,
    /// Nowhere.
    Unused,
}

pub open spec fn opt_mentions(t: Option<Vec<char>>, tv: Seq<char>) -> bool {
    t matches Some(x) && contains_ident_ref(x@, tv)
}

/// Whether a class attribute annotation of the protocol mentions the type variable.
pub open spec fn attrs_mention(c: ProtocolClass, tv: Seq<char>) -> bool {
    exists|k: int| 0 <= k < c.attribute_annotations@.len() && opt_mentions(c.attribute_annotations@[k], tv)
}

/// The parameters whose annotations count: all but a first `self` or `cls`.
pub open spec fn counted_params(m: FunctionSite) -> Seq<crate::module::ParamSite> {
    if m.params@.len() > 0 && (m.params@[0].name@ == "self"@ || m.params@[0].name@ == "cls"@) {
        m.params@.skip(1)
    } else {
        m.params@
    }
}

pub open spec fn params_mention(m: FunctionSite, tv: Seq<char>) -> bool {
    exists|k: int| 0 <= k < counted_params(m).len() && opt_mentions(counted_params(m)[k].annotation, tv)
}

pub open spec fn settle(cov: bool, contra: bool) -> InferredVariance {
    if cov && !contra {
        InferredVariance::Covariant
    } else if !cov && contra {
        InferredVariance::Contravariant
    } else if cov && contra {
        InferredVariance::Invariant
    } else {
        InferredVariance::Unused
    }
}

/// The variance the methods `ms` show, `cov` and `contra` what earlier ones
/// showed; `__init__` does not count, and a return type that holds the
/// `TypeVar` only inside brackets makes it invariant at once.
pub open spec fn infer_from(ms: Seq<FunctionSite>, tv: Seq<char>, cov: bool, contra: bool) -> InferredVariance
    decreases ms.len(),
{
    if ms.len() == 0 {
        settle(cov, contra)
    } else if ms[0].name@ == "__init__"@ {
        infer_from(ms.skip(1), tv, cov, contra)
    } else {
        let ret_hit = opt_mentions(ms[0].return_annotation, tv);
        if ret_hit && only_in_subscript(ms[0].return_annotation->0@, tv) {
            InferredVariance::Invariant
        } else {
            infer_from(ms.skip(1), tv, cov || ret_hit, contra || params_mention(ms[0], tv))
        }
    }
}

/// The variance a protocol's use of a type variable calls for: invariant when an attribute mentions it, else what its methods' parameters and returns imply.
pub open spec fn inferred_variance(c: ProtocolClass, ms: Seq<FunctionSite>, tv: Seq<char>) -> InferredVariance {
    if attrs_mention(c, tv) {
        InferredVariance::Invariant
    } else {
        infer_from(ms, tv, false, false)
    }
}

fn opt_mentions_exec(t: &Option<Vec<char>>, tv: &[char]) -> (r: bool)
    requires
        scan_name(tv@),
    ensures
        r == opt_mentions(*t, tv@),
{
    match t {
        Some(x) => contains_typevar(x.as_slice(), tv),
        None => false,
    }
}

/// Tests whether a class attribute annotation of the protocol mentions the type variable.
pub fn typevar_in_class_attributes(c: &ProtocolClass, tv: &[char]) -> (r: bool)
    requires
        scan_name(tv@),
    ensures
        r == attrs_mention(*c, tv@),
{
    let mut k: usize = 0;
    while k < c.attribute_annotations.len()
        invariant
            k <= c.attribute_annotations@.len(),
            scan_name(tv@),
            forall|j: int| 0 <= j < k ==> !opt_mentions(#[trigger] c.attribute_annotations@[j], tv@),
        decreases c.attribute_annotations.len() - k,
    {
        if opt_mentions_exec(&c.attribute_annotations[k], tv) {
            return true;
        }
        k += 1;
    }
    false
}

fn params_mention_exec(m: &FunctionSite, tv: &[char]) -> (r: bool)
    requires
        scan_name(tv@),
    ensures
        r == params_mention(*m, tv@),
{
    let first: usize = if m.params.len() > 0 && (eq_str(m.params[0].name.as_slice(), "self") || eq_str(
        m.params[0].name.as_slice(),
        "cls",
    )) {
        1
    } else {
        0
    };
    proof {
        if first == 1 {
            assert(counted_params(*m) =~= m.params@.skip(1));
        } else {
            assert(counted_params(*m) =~= m.params@.skip(0));
        }
    }
    let mut k: usize = first;
    while k < m.params.len()
        invariant
            first <= k <= m.params@.len(),
            scan_name(tv@),
            counted_params(*m) =~= m.params@.skip(first as int),
            forall|j: int| first <= j < k ==> !opt_mentions(#[trigger] m.params@[j].annotation, tv@),
        decreases m.params.len() - k,
    {
        if opt_mentions_exec(&m.params[k].annotation, tv) {
            proof {
                assert(counted_params(*m)[k - first] == m.params@[k as int]);
            }
            return true;
        }
        k += 1;
    }
    proof {
        assert forall|j: int| 0 <= j < counted_params(*m).len() implies !opt_mentions(
            counted_params(*m)[j].annotation,
            tv@,
        ) by {
            assert(counted_params(*m)[j] == m.params@[j + first]);
        }
    }
    false
}

/// `infer_variance`, as `inferred_variance` states.
pub fn infer_variance(c: &ProtocolClass, methods: &Vec<&FunctionSite>, tv: &[char]) -> (r: InferredVariance)
    requires
        scan_name(tv@),
    ensures
        r == inferred_variance(*c, derefs(methods@), tv@),
{
    if typevar_in_class_attributes(c, tv) {
        return InferredVariance::Invariant;
    }
    let ghost ms = derefs(methods@);
    let mut cov = false;
    let mut contra = false;
    let mut k: usize = 0;
    proof {
        assert(ms.skip(0) =~= ms);
    }
    while k < methods.len()
        invariant
            k <= methods@.len(),
            ms == derefs(methods@),
            scan_name(tv@),
            infer_from(ms, tv@, false, false) == infer_from(ms.skip(k as int), tv@, cov, contra),
        decreases methods.len() - k,
    {
        let m = methods[k];
        proof {
            assert(ms.skip(k as int)[0] == *m);
            assert(ms.skip(k as int).skip(1) =~= ms.skip(k + 1));
        }
        if eq_str(m.name.as_slice(), "__init__") {
            k += 1;
            continue;
        }
        let ret_hit = opt_mentions_exec(&m.return_annotation, tv);
        if ret_hit {
            if let Some(t) = &m.return_annotation {
                if typevar_only_in_subscript(t.as_slice(), tv) {
                    return InferredVariance::Invariant;
                }
            }
        }
        let p = params_mention_exec(m, tv);
        cov = cov || ret_hit;
        contra = contra || p;
        k += 1;
    }
    proof {
        assert(ms.skip(k as int) =~= Seq::<FunctionSite>::empty());
    }
    if cov && !contra {
        InferredVariance::Covariant
    } else if !cov && contra {
        InferredVariance::Contravariant
    } else if cov && contra {
        InferredVariance::Invariant
    } else {
        InferredVariance::Unused
    }
}

pub open spec fn derefs(v: Seq<&FunctionSite>) -> Seq<FunctionSite> {
    v.map_values(|f: &FunctionSite| *f)
}

/// The variance a `TypeVar` should be declared with.
#[derive(Clone, Copy, PartialEq, Eq, Structural, Debug)]
pub enum SuggestedVariance {
    Covariant,
    Contravariant,
}

/// `TypeVar` `typevar` of protocol `class_name` should be declared with
/// `suggested`; the span is that of the class name.
/// The text of a suggestion for type variable `tv` of protocol `c`.
pub open spec fn suggestion_message(c: Seq<char>, tv: Seq<char>, s: SuggestedVariance) -> Seq<char> {
    "TypeVar `"@ + tv + "` in protocol `"@ + c + "` should be "@ + match s {
        SuggestedVariance::Covariant => "covariant"@,
        SuggestedVariance::Contravariant => "contravariant"@,
    }
}

pub struct VarianceSuggestion {
    pub class_name: Vec<char>,
    pub typevar: Vec<char>,
    pub suggested: SuggestedVariance,
    pub span: Span,
}

impl VarianceSuggestion {
    /// The suggestion's message.
    pub fn message(&self) -> (r: Vec<char>)
        ensures
            r@ == suggestion_message(self.class_name@, self.typevar@, self.suggested),
    {
        let mut m = crate::text::chars_of("TypeVar `");
        crate::text::push_chars(&mut m, self.typevar.as_slice());
        crate::text::push_lit(&mut m, "` in protocol `");
        crate::text::push_chars(&mut m, self.class_name.as_slice());
        match self.suggested {
            SuggestedVariance::Covariant => crate::text::push_lit(&mut m, "` should be covariant"),
            SuggestedVariance::Contravariant => crate::text::push_lit(&mut m, "` should be contravariant"),
        }
        proof {
            reveal_strlit("` should be covariant");
            reveal_strlit("` should be contravariant");
            reveal_strlit("` should be ");
            reveal_strlit("covariant");
            reveal_strlit("contravariant");
        }
        m
    }
}

impl View for VarianceSuggestion {
    type V = (Seq<char>, Seq<char>, SuggestedVariance, Span);

    open spec fn view(&self) -> Self::V {
        (self.class_name@, self.typevar@, self.suggested, self.span)
    }
}

pub open spec fn suggestions_view(v: Seq<VarianceSuggestion>) -> Seq<(Seq<char>, Seq<char>, SuggestedVariance, Span)> {
    v.map_values(|x: VarianceSuggestion| x@)
}

/// Declared variance by `TypeVar` name; a later declaration of a name wins.
pub open spec fn variance_table(tvs: Seq<VarianceDecl>) -> Seq<(Seq<char>, (bool, bool))>
    decreases tvs.len(),
{
    if tvs.len() == 0 {
        Seq::empty()
    } else {
        assoc_insert(
            variance_table(tvs.drop_last()),
            tvs.last().name@,
            (tvs.last().is_covariant, tvs.last().is_contravariant),
        )
    }
}

/// The methods of class `cname`, in order.
pub open spec fn class_methods(fs: Seq<FunctionSite>, cname: Seq<char>) -> Seq<FunctionSite>
    decreases fs.len(),
{
    if fs.len() == 0 {
        Seq::empty()
    } else {
        class_methods(fs.drop_last(), cname) + (if fs.last().class_name matches Some(n) && n@ == cname {
            seq![fs.last()]
        } else {
            Seq::empty()
        })
    }
}

pub open spec fn is_protocol_class(c: ProtocolClass) -> bool {
    exists|k: int| 0 <= k < c.base_expression_names@.len() && c.base_expression_names@[k]@ == "Protocol"@
}

pub open spec fn suggestion_for(v: InferredVariance) -> Option<SuggestedVariance> {
    match v {
        InferredVariance::Covariant => Some(SuggestedVariance::Covariant),
        InferredVariance::Unused => Some(SuggestedVariance::Covariant),
        InferredVariance::Contravariant => Some(SuggestedVariance::Contravariant),
        InferredVariance::Invariant => None,
    }
}

/// The suggestions for the generic parameters `ps` of class `c`: for each
/// plain `TypeVar` declared without a variance whose use is not invariant.
pub open spec fn param_suggestions(
    c: ProtocolClass,
    ms: Seq<FunctionSite>,
    vt: Seq<(Seq<char>, (bool, bool))>,
    ps: Seq<Seq<char>>,
) -> Seq<(Seq<char>, Seq<char>, SuggestedVariance, Span)>
    decreases ps.len(),
{
    if ps.len() == 0 {
        Seq::empty()
    } else {
        let p = ps.last();
        param_suggestions(c, ms, vt, ps.drop_last()) + match assoc_get(vt, p) {
            None => Seq::empty(),
            Some(d) => if d.0 || d.1 {
                Seq::empty()
            } else {
                match suggestion_for(inferred_variance(c, ms, p)) {
                    Some(s) => seq![(c.name@, p, s, c.name_span)],
                    None => Seq::empty(),
                }
            },
        }
    }
}

pub open spec fn module_suggestions(
    cs: Seq<ProtocolClass>,
    fs: Seq<FunctionSite>,
    vt: Seq<(Seq<char>, (bool, bool))>,
) -> Seq<(Seq<char>, Seq<char>, SuggestedVariance, Span)>
    decreases cs.len(),
{
    if cs.len() == 0 {
        Seq::empty()
    } else {
        let c = cs.last();
        module_suggestions(cs.drop_last(), fs, vt) + if is_protocol_class(c) {
            param_suggestions(c, class_methods(fs, c.name@), vt, crate::text::views(c.generic_params@))
        } else {
            Seq::empty()
        }
    }
}

/// The generic parameters of every protocol class can be scanned for.
pub open spec fn params_scannable(cs: Seq<ProtocolClass>) -> bool {
    forall|k: int, j: int|
        0 <= k < cs.len() && is_protocol_class(cs[k]) && 0 <= j < cs[k].generic_params@.len() ==> scan_name(
            #[trigger] cs[k].generic_params@[j]@,
        )
}

fn variance_put(m: &mut Vec<(Vec<char>, (bool, bool))>, k: Vec<char>, v: (bool, bool))
    ensures
        flag_table(final(m)@) == assoc_insert(flag_table(old(m)@), k@, v),
{
    let ghost mv = flag_table(m@);
    let f = assoc_find(m, k.as_slice());
    proof {
        lemma_found_index(m@, mv, k@, f);
    }
    let ghost entry = (k@, v);
    match f {
        Some(i) => {
            m.set(i, (k, v));
            proof {
                assert(flag_table(m@) =~= mv.update(i as int, entry));
            }
        },
        None => {
            m.push((k, v));
            proof {
                assert(flag_table(m@) =~= mv.push(entry));
            }
        },
    }
}

pub open spec fn flag_table(m: Seq<(Vec<char>, (bool, bool))>) -> Seq<(Seq<char>, (bool, bool))> {
    m.map_values(|e: (Vec<char>, (bool, bool))| (e.0@, e.1))
}

/// Protocol `TypeVar` variance mismatch.
pub struct ProtocolVarianceMismatch;

impl ProtocolVarianceMismatch {
    /// The suggestions for every protocol class, in order, as
    /// `module_suggestions` states.
    pub fn check(
        &self,
        classes: &Vec<ProtocolClass>,
        functions: &Vec<FunctionSite>,
        typevars: &Vec<VarianceDecl>,
    ) -> (r: Vec<VarianceSuggestion>)
        requires
            params_scannable(classes@),
        ensures
            suggestions_view(r@) == module_suggestions(classes@, functions@, variance_table(typevars@)),
    {
        let mut vt: Vec<(Vec<char>, (bool, bool))> = Vec::new();
        let mut t: usize = 0;
        proof {
            assert(flag_table(vt@) =~= variance_table(typevars@.take(0)));
        }
        while t < typevars.len()
            invariant
                t <= typevars@.len(),
                flag_table(vt@) == variance_table(typevars@.take(t as int)),
            decreases typevars.len() - t,
        {
            proof {
                assert(typevars@.take(t + 1).drop_last() =~= typevars@.take(t as int));
                assert(typevars@.take(t + 1).last() == typevars@[t as int]);
            }
            let d = &typevars[t];
            variance_put(
                &mut vt,
                crate::module::copy_text(d.name.as_slice()),
                (d.is_covariant, d.is_contravariant),
            );
            t += 1;
        }
        proof {
            assert(typevars@.take(t as int) =~= typevars@);
        }
        let ghost vtv = flag_table(vt@);
        let mut out: Vec<VarianceSuggestion> = Vec::new();
        let mut k: usize = 0;
        while k < classes.len()
            invariant
                k <= classes@.len(),
                vtv == flag_table(vt@),
                params_scannable(classes@),
                suggestions_view(out@) == module_suggestions(classes@.take(k as int), functions@, vtv),
            decreases classes.len() - k,
        {
            proof {
                assert(classes@.take(k + 1).drop_last() =~= classes@.take(k as int));
                assert(classes@.take(k + 1).last() == classes@[k as int]);
            }
            let c = &classes[k];
            let ghost before = suggestions_view(out@);
            if any_protocol_base(c) {
                let methods = methods_of(functions, c.name.as_slice());
                let ghost ms = derefs(methods@);
                let ghost ps = crate::text::views(c.generic_params@);
                let mut j: usize = 0;
                while j < c.generic_params.len()
                    invariant
                        j <= c.generic_params@.len(),
                        vtv == flag_table(vt@),
                        ms == derefs(methods@),
                        ms == class_methods(functions@, c.name@),
                        ps == crate::text::views(c.generic_params@),
                        is_protocol_class(*c),
                        c == classes@[k as int],
                        params_scannable(classes@),
                        k < classes@.len(),
                        suggestions_view(out@) == before + param_suggestions(*c, ms, vtv, ps.take(j as int)),
                    decreases c.generic_params.len() - j,
                {
                    proof {
                        assert(ps.take(j + 1).drop_last() =~= ps.take(j as int));
                        assert(ps.take(j + 1).last() == c.generic_params@[j as int]@);
                        assert(scan_name(classes@[k as int].generic_params@[j as int]@));
                    }
                    let p = &c.generic_params[j];
                    let f = assoc_find(&vt, p.as_slice());
                    proof {
                        lemma_found_index(vt@, vtv, p@, f);
                    }
                    let ghost mid = suggestions_view(out@);
                    let ghost extra = match crate::assoc::assoc_get(vtv, p@) {
                        None => Seq::empty(),
                        Some(d) => if d.0 || d.1 {
                            Seq::empty()
                        } else {
                            match suggestion_for(inferred_variance(*c, ms, p@)) {
                                Some(s) => seq![(c.name@, p@, s, c.name_span)],
                                None => Seq::empty(),
                            }
                        },
                    };
                    proof {
                        assert(param_suggestions(*c, ms, vtv, ps.take(j + 1)) == param_suggestions(
                            *c,
                            ms,
                            vtv,
                            ps.take(j as int),
                        ) + extra);
                    }
                    if let Some(i) = f {
                        let d = vt[i].1;
                        proof {
                            assert(vtv[i as int] == (vt@[i as int].0@, vt@[i as int].1));
                            assert(crate::assoc::assoc_get(vtv, p@) == Some(d));
                        }
                        if !d.0 && !d.1 {
                            let inferred = infer_variance(c, &methods, p.as_slice());
                            let suggested = match inferred {
                                InferredVariance::Covariant => Some(SuggestedVariance::Covariant),
                                InferredVariance::Unused => Some(SuggestedVariance::Covariant),
                                InferredVariance::Contravariant => Some(SuggestedVariance::Contravariant),
                                InferredVariance::Invariant => None,
                            };
                            if let Some(s) = suggested {
                                out.push(
                                    VarianceSuggestion {
                                        class_name: crate::module::copy_text(c.name.as_slice()),
                                        typevar: crate::module::copy_text(p.as_slice()),
                                        suggested: s,
                                        span: c.name_span,
                                    },
                                );
                            }
                        }
                    }
                    proof {
                        assert(suggestions_view(out@) =~= mid + extra);
                    }
                    j += 1;
                }
                proof {
                    assert(ps.take(j as int) =~= ps);
                }
            }
            proof {
                assert(suggestions_view(out@) =~= module_suggestions(
                    classes@.take(k + 1),
                    functions@,
                    vtv,
                ));
            }
            k += 1;
        }
        proof {
            assert(classes@.take(k as int) =~= classes@);
        }
        out
    }
}

fn any_protocol_base(c: &ProtocolClass) -> (r: bool)
    ensures
        r == is_protocol_class(*c),
{
    let mut k: usize = 0;
    while k < c.base_expression_names.len()
        invariant
            k <= c.base_expression_names@.len(),
            forall|j: int| 0 <= j < k ==> #[trigger] c.base_expression_names@[j]@ != "Protocol"@,
        decreases c.base_expression_names.len() - k,
    {
        if eq_str(c.base_expression_names[k].as_slice(), "Protocol") {
            return true;
        }
        k += 1;
    }
    false
}

/// The methods of class `cname`, in order.
fn methods_of<'a>(fs: &'a Vec<FunctionSite>, cname: &[char]) -> (r: Vec<&'a FunctionSite>)
    ensures
        derefs(r@) == class_methods(fs@, cname@),
{
    let mut out: Vec<&FunctionSite> = Vec::new();
    let mut k: usize = 0;
    while k < fs.len()
        invariant
            k <= fs@.len(),
            derefs(out@) == class_methods(fs@.take(k as int), cname@),
        decreases fs.len() - k,
    {
        proof {
            assert(fs@.take(k + 1).drop_last() =~= fs@.take(k as int));
            assert(fs@.take(k + 1).last() == fs@[k as int]);
        }
        let f = &fs[k];
        let ghost before = derefs(out@);
        let hit = match &f.class_name {
            Some(n) => eq_chars(n.as_slice(), cname),
            None => false,
        };
        if hit {
            out.push(f);
        }
        proof {
            assert(derefs(out@) =~= class_methods(fs@.take(k + 1), cname@));
        }
        k += 1;
    }
    proof {
        assert(fs@.take(k as int) =~= fs@);
    }
    out
}

} // verus!
