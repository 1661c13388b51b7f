//! Protocol `TypeVar`s whose declared variance disagrees with where the
//! protocol's methods use them: parameters are input positions, return types
//! output positions; `__init__` and `__new__` do not count, and a `TypeVar`
//! inside an invariant container counts nowhere.
use vstd::prelude::*;

use crate::assoc::{assoc_find, assoc_get, assoc_insert, lemma_found_index};
use crate::module::{copy_text, FunctionSite, ParamSite};
use crate::names::{contains_ident_ref, contains_typevar_reference, ident_ref_at};
use crate::position::Span;
use crate::protocol_variance::{class_methods, derefs};
use crate::text::{
    contains_char, contains_char_exec, eq_chars, eq_str, is_ident, is_ident_char, starts_with,
    starts_with_lit, trim, trim_chars, views,
};

verus! {

/// A word boundary position `i` for the empty name: no identifier
/// character on either side.
pub open spec fn empty_word_at(text: Seq<char>, i: int) -> bool {
    0 <= i <= text.len() && (i == 0 || !is_ident(text[i - 1])) && (i >= text.len() || !is_ident(
        text[i],
    ))
}

/// `contains_typevar`: `name` occurs in `text` as a whole word. The search
/// runs over bytes; for the empty name every position inside a multi-byte
/// character qualifies, which the first clause accounts for.
pub open spec fn word_in(text: Seq<char>, name: Seq<char>) -> bool {
    if name.len() == 0 {
        (exists|i: int| 0 <= i < text.len() && (text[i] as u32) >= 128) || (exists|i: int|
            empty_word_at(text, i))
    } else {
        contains_ident_ref(text, name)
    }
}

pub fn contains_typevar(text: &[char], name: &[char]) -> (r: bool)
    ensures
        r == word_in(text@, name@),
{
    if name.len() > 0 {
        return contains_typevar_reference(text, name);
    }
    let n = text.len();
    let mut i: usize = 0;
    while i < n
        invariant
            n == text@.len(),
            name@.len() == 0,
            i <= n,
            forall|j: int| 0 <= j < i ==> (text@[j] as u32) < 128,
            forall|j: int| 0 <= j < i ==> !empty_word_at(text@, j),
        decreases n - i,
    {
        if (text[i] as u32) >= 128 {
            assert(0 <= i < text@.len() && (text@[i as int] as u32) >= 128);
            return true;
        }
        let left_ok = i == 0 || !is_ident_char(text[i - 1]);
        let right_ok = !is_ident_char(text[i]);
        if left_ok && right_ok {
            assert(empty_word_at(text@, i as int));
            return true;
        }
        i += 1;
    }
    let left_ok = n == 0 || !is_ident_char(text[n - 1]);
    if left_ok {
        assert(empty_word_at(text@, n as int));
        return true;
    }
    proof {
        assert forall|j: int| !empty_word_at(text@, j) by {
            if j == n {
            }
        }
    }
    false
}

/// Containers a `TypeVar` can sit inside and keep its position.
pub open spec fn covariant_prefix(t: Seq<char>) -> bool {
    starts_with(t, "type["@) || starts_with(t, "Type["@) || starts_with(t, "tuple["@) || starts_with(
        t,
        "Tuple["@,
    ) || starts_with(t, "FrozenSet["@) || starts_with(t, "frozenset["@) || starts_with(
        t,
        "Sequence["@,
    ) || starts_with(t, "Iterator["@) || starts_with(t, "Iterable["@) || starts_with(
        t,
        "Mapping["@,
    ) || starts_with(t, "AbstractSet["@) || starts_with(t, "Collection["@)
}

/// `typevar_in_invariant_container`: the `TypeVar` occurs in a generic
/// annotation that is not a known covariant container.
pub open spec fn in_invariant_container(text: Seq<char>, tv: Seq<char>) -> bool {
    let t = trim(text);
    word_in(text, tv) && t != tv && contains_char(t, '[') && !covariant_prefix(t)
}

fn covariant_prefix_exec(t: &[char]) -> (r: bool)
    ensures
        r == covariant_prefix(t@),
{
    starts_with_lit(t, "type[") || starts_with_lit(t, "Type[") || starts_with_lit(t, "tuple[")
        || starts_with_lit(t, "Tuple[") || starts_with_lit(t, "FrozenSet[") || starts_with_lit(
        t,
        "frozenset[",
    ) || starts_with_lit(t, "Sequence[") || starts_with_lit(t, "Iterator[") || starts_with_lit(
        t,
        "Iterable[",
    ) || starts_with_lit(t, "Mapping[") || starts_with_lit(t, "AbstractSet[") || starts_with_lit(
        t,
        "Collection[",
    )
}

pub fn typevar_in_invariant_container(text: &[char], tv: &[char]) -> (r: bool)
    ensures
        r == in_invariant_container(text@, tv@),
{
    if !contains_typevar(text, tv) {
        return false;
    }
    let t = trim_chars(text);
    if eq_chars(t.as_slice(), tv) {
        return false;
    }
    if !contains_char_exec(t.as_slice(), '[') {
        return false;
    }
    !covariant_prefix_exec(t.as_slice())
}

/// A direct use: the `TypeVar` occurs, and not inside an invariant
/// container (what `collect_typevars_in_annotation` puts in `direct`).
pub open spec fn direct_use(text: Seq<char>, tv: Seq<char>) -> bool {
    word_in(text, tv) && !in_invariant_container(text, tv)
}

pub fn is_direct_use(text: &[char], tv: &[char]) -> (r: bool)
    ensures
        r == direct_use(text@, tv@),
{
    contains_typevar(text, tv) && !typevar_in_invariant_container(text, tv)
}

pub open spec fn exempt(m: FunctionSite) -> bool {
    m.name@ == "__init__"@ || m.name@ == "__new__"@
}

pub open spec fn opt_direct(a: Option<Vec<char>>, tv: Seq<char>) -> bool {
    a matches Some(t) && direct_use(t@, tv)
}

/// A direct use in a parameter annotation of `m` (parameters named `self`
/// or `cls` aside), `*args` and `**kwargs` included.
pub open spec fn input_use(m: FunctionSite, tv: Seq<char>) -> bool {
    ||| exists|k: int|
        0 <= k < m.params@.len() && m.params@[k].name@ != "self"@ && m.params@[k].name@ != "cls"@
            && opt_direct(#[trigger] m.params@[k].annotation, tv)
    ||| m.vararg matches Some(p) && opt_direct(p.annotation, tv)
    ||| m.kwarg matches Some(p) && opt_direct(p.annotation, tv)
}

pub open spec fn output_use(m: FunctionSite, tv: Seq<char>) -> bool {
    opt_direct(m.return_annotation, tv)
}

pub open spec fn in_input(ms: Seq<FunctionSite>, tv: Seq<char>) -> bool {
    exists|k: int| 0 <= k < ms.len() && !exempt(ms[k]) && input_use(#[trigger] ms[k], tv)
}

pub open spec fn in_output(ms: Seq<FunctionSite>, tv: Seq<char>) -> bool {
    exists|k: int| 0 <= k < ms.len() && !exempt(ms[k]) && output_use(#[trigger] ms[k], tv)
}

/// Every method is `__init__` or `__new__`, and there is one.
pub open spec fn only_exempt(ms: Seq<FunctionSite>) -> bool {
    ms.len() > 0 && forall|k: int| 0 <= k < ms.len() ==> exempt(#[trigger] ms[k])
}

/// A declared variance.
#[derive(Clone, Copy, PartialEq, Eq, Structural, Debug)]
pub enum DeclaredVariance {
    Invariant,
    Covariant,
    Contravariant,
}

/// A `TypeVar` declaration as the rule reads it.
pub struct TypeVarDecl {
    pub name: Vec<char>,
    pub is_covariant: bool,
    pub is_contravariant: bool,
    pub is_paramspec: bool,
    pub is_typevartuple: bool,
}

/// What the rule reads of a class.
pub struct ProtocolClassDef {
    pub name: Vec<char>,
    pub def_span: Span,
    pub is_protocol: bool,
    pub generic_params: Vec<Vec<char>>,
}

/// What is wrong with a `TypeVar` of a protocol.
#[derive(Clone, Copy, PartialEq, Eq, Structural, Debug)]
pub enum ViolationKind {
    /// Invariant, used only in output positions (or only in exempt methods).
    ShouldBeCovariant,
    /// Invariant, used only in input positions.
    ShouldBeContravariant,
    /// Covariant, used in an input position.
    CovariantInInput,
    /// Contravariant, used in an output position.
    ContravariantInOutput,
}

pub struct VarianceViolation {
    pub class_name: Vec<char>,
    pub typevar: Vec<char>,
    pub kind: ViolationKind,
    pub span: Span,
}

/// The text of a finding on type variable `tv` of protocol `c`.
pub open spec fn violation_message(c: Seq<char>, tv: Seq<char>, k: ViolationKind) -> Seq<char> {
    match k {
        ViolationKind::ShouldBeCovariant => "TypeVar `"@ + tv + "` in protocol `"@ + c
            + "` is only used in output positions and should be covariant"@,
        ViolationKind::ShouldBeContravariant => "TypeVar `"@ + tv + "` in protocol `"@ + c
            + "` is only used in input positions and should be contravariant"@,
        ViolationKind::CovariantInInput => "Covariant TypeVar `"@ + tv + "` is used in input position in protocol `"@
            + c + "`"@,
        ViolationKind::ContravariantInOutput => "Contravariant TypeVar `"@ + tv
            + "` is used in output position in protocol `"@ + c + "`"@,
    }
}

impl VarianceViolation {
    /// The finding's message.
    pub fn message(&self) -> (r: Vec<char>)
        ensures
            r@ == violation_message(self.class_name@, self.typevar@, self.kind),
    {
        let c = self.class_name.as_slice();
        let tv = self.typevar.as_slice();
        match self.kind {
            ViolationKind::ShouldBeCovariant | ViolationKind::ShouldBeContravariant => {
                let mut m = crate::text::chars_of("TypeVar `");
                crate::text::push_chars(&mut m, tv);
                crate::text::push_lit(&mut m, "` in protocol `");
                crate::text::push_chars(&mut m, c);
                match self.kind {
                    ViolationKind::ShouldBeCovariant => crate::text::push_lit(
                        &mut m,
                        "` is only used in output positions and should be covariant",
                    ),
                    _ => crate::text::push_lit(&mut m, "` is only used in input positions and should be contravariant"),
                }
                m
            },
            ViolationKind::CovariantInInput => {
                let mut m = crate::text::chars_of("Covariant TypeVar `");
                crate::text::push_chars(&mut m, tv);
                crate::text::push_lit(&mut m, "` is used in input position in protocol `");
                crate::text::push_chars(&mut m, c);
                crate::text::push_lit(&mut m, "`");
                m
            },
            ViolationKind::ContravariantInOutput => {
                let mut m = crate::text::chars_of("Contravariant TypeVar `");
                crate::text::push_chars(&mut m, tv);
                crate::text::push_lit(&mut m, "` is used in output position in protocol `");
                crate::text::push_chars(&mut m, c);
                crate::text::push_lit(&mut m, "`");
                m
            },
        }
    }
}

impl View for VarianceViolation {
    type V = (Seq<char>, Seq<char>, ViolationKind, Span);

    open spec fn view(&self) -> Self::V {
        (self.class_name@, self.typevar@, self.kind, self.span)
    }
}

pub open spec fn declared_of(d: TypeVarDecl) -> DeclaredVariance {
    if d.is_covariant {
        DeclaredVariance::Covariant
    } else if d.is_contravariant {
        DeclaredVariance::Contravariant
    } else {
        DeclaredVariance::Invariant
    }
}

/// The declared variance of each plain `TypeVar`, by name; a later
/// declaration wins.
pub open spec fn declared_table(ds: Seq<TypeVarDecl>) -> Seq<(Seq<char>, DeclaredVariance)>
    decreases ds.len(),
{
    if ds.len() == 0 {
        Seq::empty()
    } else {
        let t = declared_table(ds.drop_last());
        let d = ds.last();
        if d.is_paramspec || d.is_typevartuple {
            t
        } else {
            assoc_insert(t, d.name@, declared_of(d))
        }
    }
}

/// The findings for one `TypeVar` of a class.
pub open spec fn typevar_violations(
    declared: DeclaredVariance,
    input: bool,
    output: bool,
    only_exempt_methods: bool,
) -> Seq<ViolationKind> {
    match declared {
        DeclaredVariance::Invariant => (if output && !input {
            seq![ViolationKind::ShouldBeCovariant]
        } else {
            Seq::empty()
        }) + (if input && !output {
            seq![ViolationKind::ShouldBeContravariant]
        } else {
            Seq::empty()
        }) + (if !input && !output && only_exempt_methods {
            seq![ViolationKind::ShouldBeCovariant]
        } else {
            Seq::empty()
        }),
        DeclaredVariance::Covariant => if input {
            seq![ViolationKind::CovariantInInput]
        } else {
            Seq::empty()
        },
        DeclaredVariance::Contravariant => if output {
            seq![ViolationKind::ContravariantInOutput]
        } else {
            Seq::empty()
        },
    }
}

/// The findings for the generic parameters `ps` of class `c` that are plain
/// `TypeVar`s, in order.
pub open spec fn class_violations(
    c: ProtocolClassDef,
    ms: Seq<FunctionSite>,
    dt: Seq<(Seq<char>, DeclaredVariance)>,
    ps: Seq<Seq<char>>,
) -> Seq<(Seq<char>, Seq<char>, ViolationKind, Span)>
    decreases ps.len(),
{
    if ps.len() == 0 {
        Seq::empty()
    } else {
        let p = ps.last();
        class_violations(c, ms, dt, ps.drop_last()) + match assoc_get(dt, p) {
            None => Seq::empty(),
            Some(d) => typevar_violations(d, in_input(ms, p), in_output(ms, p), only_exempt(ms)).map_values(
                |k: ViolationKind| (c.name@, p, k, c.def_span),
            ),
        }
    }
}

pub open spec fn module_violations(
    cs: Seq<ProtocolClassDef>,
    fs: Seq<FunctionSite>,
    dt: Seq<(Seq<char>, DeclaredVariance)>,
) -> Seq<(Seq<char>, Seq<char>, ViolationKind, Span)>
    decreases cs.len(),
{
    if cs.len() == 0 {
        Seq::empty()
    } else {
        let c = cs.last();
        module_violations(cs.drop_last(), fs, dt) + if c.is_protocol {
            class_violations(c, class_methods(fs, c.name@), dt, views(c.generic_params@))
        } else {
            Seq::empty()
        }
    }
}

fn opt_direct_exec(a: &Option<Vec<char>>, tv: &[char]) -> (r: bool)
    ensures
        r == opt_direct(*a, tv@),
{
    match a {
        Some(t) => is_direct_use(t.as_slice(), tv),
        None => false,
    }
}

fn opt_param_direct(p: &Option<ParamSite>, tv: &[char]) -> (r: bool)
    ensures
        r == (p matches Some(q) && opt_direct(q.annotation, tv@)),
{
    match p {
        Some(q) => opt_direct_exec(&q.annotation, tv),
        None => false,
    }
}

fn input_use_exec(m: &FunctionSite, tv: &[char]) -> (r: bool)
    ensures
        r == input_use(*m, tv@),
{
    let mut k: usize = 0;
    while k < m.params.len()
        invariant
            k <= m.params@.len(),
            forall|j: int|
                0 <= j < k ==> !(m.params@[j].name@ != "self"@ && m.params@[j].name@ != "cls"@
                    && opt_direct(#[trigger] m.params@[j].annotation, tv@)),
        decreases m.params.len() - k,
    {
        let p = &m.params[k];
        if !eq_str(p.name.as_slice(), "self") && !eq_str(p.name.as_slice(), "cls")
            && opt_direct_exec(&p.annotation, tv) {
            return true;
        }
        k += 1;
    }
    opt_param_direct(&m.vararg, tv) || opt_param_direct(&m.kwarg, tv)
}

fn is_exempt(m: &FunctionSite) -> (r: bool)
    ensures
        r == exempt(*m),
{
    eq_str(m.name.as_slice(), "__init__") || eq_str(m.name.as_slice(), "__new__")
}

/// Where the methods `ms` use `tv`: in an input position, in an output
/// position.
fn usage(ms: &Vec<&FunctionSite>, tv: &[char]) -> (r: (bool, bool))
    ensures
        r == (in_input(derefs(ms@), tv@), in_output(derefs(ms@), tv@)),
{
    let ghost s = derefs(ms@);
    let mut input = false;
    let mut output = false;
    let mut k: usize = 0;
    while k < ms.len()
        invariant
            k <= ms@.len(),
            s == derefs(ms@),
            input == exists|j: int| 0 <= j < k && !exempt(s[j]) && input_use(#[trigger] s[j], tv@),
            output == exists|j: int| 0 <= j < k && !exempt(s[j]) && output_use(#[trigger] s[j], tv@),
        decreases ms.len() - k,
    {
        let m = ms[k];
        proof {
            assert(s[k as int] == *m);
        }
        if !is_exempt(m) {
            if input_use_exec(m, tv) {
                input = true;
            }
            if opt_direct_exec(&m.return_annotation, tv) {
                output = true;
            }
        }
        k += 1;
    }
    (input, output)
}

fn all_exempt(ms: &Vec<&FunctionSite>) -> (r: bool)
    ensures
        r == only_exempt(derefs(ms@)),
{
    let ghost s = derefs(ms@);
    if ms.len() == 0 {
        return false;
    }
    let mut k: usize = 0;
    while k < ms.len()
        invariant
            k <= ms@.len(),
            s == derefs(ms@),
            forall|j: int| 0 <= j < k ==> exempt(#[trigger] s[j]),
        decreases ms.len() - k,
    {
        proof {
            assert(s[k as int] == *ms@[k as int]);
        }
        if !is_exempt(ms[k]) {
            return false;
        }
        k += 1;
    }
    true
}

fn methods_of<'a>(fs: &'a Vec<FunctionSite>, cname: &[char]) -> (r: Vec<&'a FunctionSite>)
    ensures
        derefs(r@) == class_methods(fs@, cname@),
{
    let mut out: Vec<&FunctionSite> = Vec::new();
    let mut k: usize = 0;
    while k < fs.len()
        invariant
            k <= fs@.len(),
            derefs(out@) == class_methods(fs@.take(k as int), cname@),
        decreases fs.len() - k,
    {
        proof {
            assert(fs@.take(k + 1).drop_last() =~= fs@.take(k as int));
            assert(fs@.take(k + 1).last() == fs@[k as int]);
        }
        let f = &fs[k];
        let hit = match &f.class_name {
            Some(n) => eq_chars(n.as_slice(), cname),
            None => false,
        };
        if hit {
            out.push(f);
        }
        proof {
            assert(derefs(out@) =~= class_methods(fs@.take(k + 1), cname@));
        }
        k += 1;
    }
    proof {
        assert(fs@.take(k as int) =~= fs@);
    }
    out
}

pub open spec fn declared_view(m: Seq<(Vec<char>, DeclaredVariance)>) -> Seq<(Seq<char>, DeclaredVariance)> {
    m.map_values(|e: (Vec<char>, DeclaredVariance)| (e.0@, e.1))
}

fn declared_put(m: &mut Vec<(Vec<char>, DeclaredVariance)>, k: Vec<char>, v: DeclaredVariance)
    ensures
        declared_view(final(m)@) == assoc_insert(declared_view(old(m)@), k@, v),
{
    let ghost mv = declared_view(m@);
    let f = assoc_find(m, k.as_slice());
    proof {
        lemma_found_index(m@, mv, k@, f);
    }
    let ghost entry = (k@, v);
    match f {
        Some(i) => {
            m.set(i, (k, v));
            proof {
                assert(declared_view(m@) =~= mv.update(i as int, entry));
            }
        },
        None => {
            m.push((k, v));
            proof {
                assert(declared_view(m@) =~= mv.push(entry));
            }
        },
    }
}

fn push_kind(
    out: &mut Vec<VarianceViolation>,
    c: &ProtocolClassDef,
    p: &[char],
    k: ViolationKind,
)
    ensures
        final(out)@.map_values(|x: VarianceViolation| x@) == old(out)@.map_values(
            |x: VarianceViolation| x@,
        ).push((c.name@, p@, k, c.def_span)),
{
    out.push(VarianceViolation { class_name: copy_text(c.name.as_slice()), typevar: copy_text(p), kind: k, span: c.def_span });
    proof {
        assert(out@.map_values(|x: VarianceViolation| x@) =~= old(out)@.map_values(
            |x: VarianceViolation| x@,
        ).push((c.name@, p@, k, c.def_span)));
    }
}

/// Protocol variance violation.
pub struct ProtocolVarianceViolation;

impl ProtocolVarianceViolation {
    /// The findings of every protocol class, in order, as
    /// `module_violations` states.
    pub fn check(
        &self,
        classes: &Vec<ProtocolClassDef>,
        functions: &Vec<FunctionSite>,
        typevars: &Vec<TypeVarDecl>,
    ) -> (r: Vec<VarianceViolation>)
        ensures
            r@.map_values(|x: VarianceViolation| x@) == module_violations(
                classes@,
                functions@,
                declared_table(typevars@),
            ),
    {
        let mut dt: Vec<(Vec<char>, DeclaredVariance)> = Vec::new();
        let mut t: usize = 0;
        proof {
            assert(declared_view(dt@) =~= declared_table(typevars@.take(0)));
        }
        while t < typevars.len()
            invariant
                t <= typevars@.len(),
                declared_view(dt@) == declared_table(typevars@.take(t as int)),
            decreases typevars.len() - t,
        {
            proof {
                assert(typevars@.take(t + 1).drop_last() =~= typevars@.take(t as int));
                assert(typevars@.take(t + 1).last() == typevars@[t as int]);
            }
            let d = &typevars[t];
            if !d.is_paramspec && !d.is_typevartuple {
                let v = if d.is_covariant {
                    DeclaredVariance::Covariant
                } else if d.is_contravariant {
                    DeclaredVariance::Contravariant
                } else {
                    DeclaredVariance::Invariant
                };
                declared_put(&mut dt, copy_text(d.name.as_slice()), v);
            }
            t += 1;
        }
        proof {
            assert(typevars@.take(t as int) =~= typevars@);
        }
        let ghost dtv = declared_view(dt@);
        let mut out: Vec<VarianceViolation> = Vec::new();
        let mut k: usize = 0;
        while k < classes.len()
            invariant
                k <= classes@.len(),
                dtv == declared_view(dt@),
                out@.map_values(|x: VarianceViolation| x@) == module_violations(
                    classes@.take(k as int),
                    functions@,
                    dtv,
                ),
            decreases classes.len() - k,
        {
            proof {
                assert(classes@.take(k + 1).drop_last() =~= classes@.take(k as int));
                assert(classes@.take(k + 1).last() == classes@[k as int]);
            }
            let c = &classes[k];
            let ghost before = out@.map_values(|x: VarianceViolation| x@);
            if c.is_protocol {
                let methods = methods_of(functions, c.name.as_slice());
                let ghost ms = derefs(methods@);
                let ghost ps = views(c.generic_params@);
                let exempt_only = all_exempt(&methods);
                let mut j: usize = 0;
                while j < c.generic_params.len()
                    invariant
                        j <= c.generic_params@.len(),
                        dtv == declared_view(dt@),
                        ms == derefs(methods@),
                        ms == class_methods(functions@, c.name@),
                        ps == views(c.generic_params@),
                        exempt_only == only_exempt(ms),
                        out@.map_values(|x: VarianceViolation| x@) == before + class_violations(
                            *c,
                            ms,
                            dtv,
                            ps.take(j as int),
                        ),
                    decreases c.generic_params.len() - j,
                {
                    proof {
                        assert(ps.take(j + 1).drop_last() =~= ps.take(j as int));
                        assert(ps.take(j + 1).last() == c.generic_params@[j as int]@);
                    }
                    let p = &c.generic_params[j];
                    let f = assoc_find(&dt, p.as_slice());
                    proof {
                        lemma_found_index(dt@, dtv, p@, f);
                    }
                    let ghost mid = out@.map_values(|x: VarianceViolation| x@);
                    match f {
                        None => {},
                        Some(i) => {
                            let declared = dt[i].1;
                            proof {
                                assert(dtv[i as int] == (dt@[i as int].0@, dt@[i as int].1));
                            }
                            let (input, output) = usage(&methods, p.as_slice());
                            match declared {
                                DeclaredVariance::Invariant => {
                                    if output && !input {
                                        push_kind(&mut out, c, p.as_slice(), ViolationKind::ShouldBeCovariant);
                                    }
                                    if input && !output {
                                        push_kind(&mut out, c, p.as_slice(), ViolationKind::ShouldBeContravariant);
                                    }
                                    if !input && !output && exempt_only {
                                        push_kind(&mut out, c, p.as_slice(), ViolationKind::ShouldBeCovariant);
                                    }
                                },
                                DeclaredVariance::Covariant => {
                                    if input {
                                        push_kind(&mut out, c, p.as_slice(), ViolationKind::CovariantInInput);
                                    }
                                },
                                DeclaredVariance::Contravariant => {
                                    if output {
                                        push_kind(&mut out, c, p.as_slice(), ViolationKind::ContravariantInOutput);
                                    }
                                },
                            }
                            proof {
                                let ks = typevar_violations(declared, input, output, exempt_only);
                                assert(out@.map_values(|x: VarianceViolation| x@) =~= mid + ks.map_values(
                                    |kk: ViolationKind| (c.name@, p@, kk, c.def_span),
                                ));
                            }
                        },
                    }
                    proof {
                        assert(out@.map_values(|x: VarianceViolation| x@) =~= before + class_violations(
                            *c,
                            ms,
                            dtv,
                            ps.take(j + 1),
                        ));
                    }
                    j += 1;
                }
                proof {
                    assert(ps.take(j as int) =~= ps);
                }
            }
            proof {
                assert(out@.map_values(|x: VarianceViolation| x@) =~= module_violations(
                    classes@.take(k + 1),
                    functions@,
                    dtv,
                ));
            }
            k += 1;
        }
        proof {
            assert(classes@.take(k as int) =~= classes@);
        }
        out
    }
}

} // verus!
