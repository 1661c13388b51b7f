//! How many type arguments a generic class or type alias takes, and
//! subscripts that give too few or too many, or a plain type where a
//! `ParamSpec` expects a parameter list.
use vstd::prelude::*;

use crate::assoc::{assoc_find, assoc_get, assoc_insert, lemma_assoc_index, lemma_assoc_index_at};
use crate::module::{copy_text, span_view};
use crate::names::{add_all, insert_all, uniq, uniq_names};
use crate::position::Span;
use crate::numbers::{decimal_nat, usize_to_decimal};
use crate::text::{
    eq_chars, eq_str, find_char, find_char_exec, lemma_find_char, slice_of, split_top_commas_all,
    split_top_level_commas, starts_with, starts_with_lit, trim, trim_all, trim_all_exec,
    trim_chars, views, chars_of, push_chars, push_lit,
};

verus! {

/// What the rule reads of a type variable declaration.
pub struct TypeVarDecl {
    pub name: Vec<char>,
    pub has_default: bool,
    pub is_paramspec: bool,
    pub is_typevartuple: bool,
}

/// A generic parameter of a class.
pub struct GenericParam {
    pub name: Vec<char>,
    pub is_typevartuple: bool,
}

/// What the rule reads of a class.
pub struct ClassArityInfo {
    pub name: Vec<char>,
    pub generic_params: Vec<GenericParam>,
    pub base_expression_names: Vec<Vec<char>>,
    pub has_subscript_base: bool,
    pub has_pep695_type_params: bool,
}

/// A `TypeAlias` definition and the names on its right-hand side.
pub struct TypeAliasDef {
    pub name: Vec<char>,
    pub rhs_names: Vec<Vec<char>>,
}

/// A subscript `Base[...]`: the base name, the number of arguments, where it
/// is, and its source text.
pub struct SubscriptSite {
    pub base_name: Vec<char>,
    pub arg_count: usize,
    pub span: Span,
    pub text: Option<Vec<char>>,
}

/// The least and the most type arguments allowed, when bounded.
#[derive(Clone, Copy, PartialEq, Eq, Structural, Debug)]
pub struct TypeArity {
    pub min: Option<usize>,
    pub max: Option<usize>,
}

pub struct DeclV {
    pub name: Seq<char>,
    pub has_default: bool,
    pub is_paramspec: bool,
    pub is_typevartuple: bool,
}

pub open spec fn decls_view(v: Seq<TypeVarDecl>) -> Seq<DeclV> {
    v.map_values(
        |d: TypeVarDecl|
            DeclV {
                name: d.name@,
                has_default: d.has_default,
                is_paramspec: d.is_paramspec,
                is_typevartuple: d.is_typevartuple,
            },
    )
}

/// Whether the last declaration of `name` has a default (`false` when there
/// is none).
pub open spec fn tv_default(ds: Seq<DeclV>, name: Seq<char>) -> bool
    decreases ds.len(),
{
    if ds.len() == 0 {
        false
    } else if ds.last().name == name {
        ds.last().has_default
    } else {
        tv_default(ds.drop_last(), name)
    }
}

pub open spec fn is_tv(ds: Seq<DeclV>, name: Seq<char>) -> bool {
    exists|i: int| 0 <= i < ds.len() && (#[trigger] ds[i]).name == name
}

pub open spec fn is_paramspec(ds: Seq<DeclV>, name: Seq<char>) -> bool {
    exists|i: int| 0 <= i < ds.len() && (#[trigger] ds[i]).name == name && ds[i].is_paramspec
}

pub open spec fn is_tvt(ds: Seq<DeclV>, name: Seq<char>) -> bool {
    exists|i: int| 0 <= i < ds.len() && (#[trigger] ds[i]).name == name && ds[i].is_typevartuple
}

pub struct GParamV {
    pub name: Seq<char>,
    pub is_typevartuple: bool,
}

pub struct ClassAV {
    pub name: Seq<char>,
    pub params: Seq<GParamV>,
    pub base_names: Seq<Seq<char>>,
    pub has_subscript_base: bool,
    pub has_pep695_type_params: bool,
}

pub open spec fn class_av(c: ClassArityInfo) -> ClassAV {
    ClassAV {
        name: c.name@,
        params: c.generic_params@.map_values(|p: GenericParam| GParamV { name: p.name@, is_typevartuple: p.is_typevartuple }),
        base_names: views(c.base_expression_names@),
        has_subscript_base: c.has_subscript_base,
        has_pep695_type_params: c.has_pep695_type_params,
    }
}

pub open spec fn classes_av(v: Seq<ClassArityInfo>) -> Seq<ClassAV> {
    v.map_values(|c: ClassArityInfo| class_av(c))
}

/// The parameters that are not variadic and have no default.
pub open spec fn required_count(ps: Seq<GParamV>, ds: Seq<DeclV>) -> nat
    decreases ps.len(),
{
    if ps.len() == 0 {
        0
    } else {
        required_count(ps.drop_last(), ds) + if !ps.last().is_typevartuple && !tv_default(ds, ps.last().name) {
            1nat
        } else {
            0nat
        }
    }
}

/// The names that are type variables, in order.
pub open spec fn tv_names(ns: Seq<Seq<char>>, ds: Seq<DeclV>) -> Seq<Seq<char>>
    decreases ns.len(),
{
    if ns.len() == 0 {
        Seq::empty()
    } else {
        tv_names(ns.drop_last(), ds) + if is_tv(ds, ns.last()) {
            seq![ns.last()]
        } else {
            Seq::<Seq<char>>::empty()
        }
    }
}

/// The names without a default.
pub open spec fn no_default_count(ns: Seq<Seq<char>>, ds: Seq<DeclV>) -> nat
    decreases ns.len(),
{
    if ns.len() == 0 {
        0
    } else {
        no_default_count(ns.drop_last(), ds) + if !tv_default(ds, ns.last()) {
            1nat
        } else {
            0nat
        }
    }
}

pub open spec fn opt_pos(n: nat) -> Option<usize> {
    if n > 0 {
        Some(n as usize)
    } else {
        None
    }
}

/// The arity of a class: unbounded for a single `ParamSpec`; from its
/// parameters when generic; else from the distinct type variables of its
/// bases; none at all (0) for a fully specialized subscripted base.
pub open spec fn class_arity(c: ClassAV, ds: Seq<DeclV>) -> Option<TypeArity> {
    if c.params.len() > 0 {
        if c.params.len() == 1 && is_paramspec(ds, c.params[0].name) {
            Some(TypeArity { min: None, max: None })
        } else {
            let has_tvt = exists|i: int| 0 <= i < c.params.len() && (#[trigger] c.params[i]).is_typevartuple;
            Some(
                TypeArity {
                    min: opt_pos(required_count(c.params, ds)),
                    max: if has_tvt {
                        None
                    } else {
                        Some(c.params.len() as usize)
                    },
                },
            )
        }
    } else if c.base_names.len() > 0 {
        if exists|i: int| 0 <= i < c.base_names.len() && is_tvt(ds, #[trigger] c.base_names[i]) {
            None
        } else {
            let implicit = uniq(tv_names(c.base_names, ds)).len();
            if implicit > 0 {
                Some(TypeArity { min: None, max: Some(implicit as usize) })
            } else if c.has_subscript_base && !c.has_pep695_type_params {
                Some(TypeArity { min: None, max: Some(0) })
            } else {
                None
            }
        }
    } else {
        None
    }
}

/// The arity of an alias: its distinct free type variables, the minimum only
/// when some but not all have defaults.
pub open spec fn alias_arity(rhs: Seq<Seq<char>>, ds: Seq<DeclV>) -> Option<TypeArity> {
    if exists|i: int| 0 <= i < rhs.len() && is_tvt(ds, #[trigger] rhs[i]) {
        None
    } else {
        let free = uniq(tv_names(rhs, ds));
        let total = free.len();
        let required = no_default_count(free, ds);
        Some(
            TypeArity {
                min: if required > 0 && required < total {
                    Some(required as usize)
                } else {
                    None
                },
                max: Some(total as usize),
            },
        )
    }
}

pub open spec fn classes_arities(cs: Seq<ClassAV>, ds: Seq<DeclV>) -> Seq<(Seq<char>, TypeArity)>
    decreases cs.len(),
{
    if cs.len() == 0 {
        Seq::empty()
    } else {
        let acc = classes_arities(cs.drop_last(), ds);
        match class_arity(cs.last(), ds) {
            Some(a) => assoc_insert(acc, cs.last().name, a),
            None => acc,
        }
    }
}

pub open spec fn aliases_view(v: Seq<TypeAliasDef>) -> Seq<(Seq<char>, Seq<Seq<char>>)> {
    v.map_values(|a: TypeAliasDef| (a.name@, views(a.rhs_names@)))
}

pub open spec fn aliases_arities(
    acc: Seq<(Seq<char>, TypeArity)>,
    al: Seq<(Seq<char>, Seq<Seq<char>>)>,
    ds: Seq<DeclV>,
) -> Seq<(Seq<char>, TypeArity)>
    decreases al.len(),
{
    if al.len() == 0 {
        acc
    } else {
        let prev = aliases_arities(acc, al.drop_last(), ds);
        match alias_arity(al.last().1, ds) {
            Some(a) => assoc_insert(prev, al.last().0, a),
            None => prev,
        }
    }
}

/// The arities of every class, then every alias (a later entry for a name
/// replaces an earlier one).
pub open spec fn arities(cs: Seq<ClassAV>, al: Seq<(Seq<char>, Seq<Seq<char>>)>, ds: Seq<DeclV>) -> Seq<
    (Seq<char>, TypeArity),
> {
    aliases_arities(classes_arities(cs, ds), al, ds)
}

pub open spec fn arity_map_view(v: Seq<(Vec<char>, TypeArity)>) -> Seq<(Seq<char>, TypeArity)> {
    v.map_values(|e: (Vec<char>, TypeArity)| (e.0@, e.1))
}

fn arity_put(m: &mut Vec<(Vec<char>, TypeArity)>, k: Vec<char>, v: TypeArity)
    ensures
        arity_map_view(final(m)@) == assoc_insert(arity_map_view(old(m)@), k@, v),
{
    let ghost mv = arity_map_view(m@);
    let r = assoc_find(m, k.as_slice());
    proof {
        lemma_assoc_index(mv, k@);
        match r {
            Some(i) => {
                assert forall|j: int| 0 <= j < i implies mv[j].0 != k@ by {
                    assert(mv[j].0 == m@[j].0@);
                }
                lemma_assoc_index_at(mv, k@, i as int);
            },
            None => {
                assert forall|j: int| 0 <= j < mv.len() implies mv[j].0 != k@ by {
                    assert(mv[j].0 == m@[j].0@);
                }
            },
        }
    }
    let ghost entry = (k@, v);
    match r {
        Some(i) => {
            m.set(i, (k, v));
            proof {
                assert(arity_map_view(m@) =~= mv.update(i as int, entry));
            }
        },
        None => {
            m.push((k, v));
            proof {
                assert(arity_map_view(m@) =~= mv.push(entry));
            }
        },
    }
}

fn arity_get(m: &Vec<(Vec<char>, TypeArity)>, k: &[char]) -> (r: Option<TypeArity>)
    ensures
        r == assoc_get(arity_map_view(m@), k@),
{
    let ghost mv = arity_map_view(m@);
    let r = assoc_find(m, k);
    proof {
        lemma_assoc_index(mv, k@);
        match r {
            Some(i) => {
                assert forall|j: int| 0 <= j < i implies mv[j].0 != k@ by {
                    assert(mv[j].0 == m@[j].0@);
                }
                lemma_assoc_index_at(mv, k@, i as int);
            },
            None => {
                assert forall|j: int| 0 <= j < mv.len() implies mv[j].0 != k@ by {
                    assert(mv[j].0 == m@[j].0@);
                }
            },
        }
    }
    match r {
        Some(i) => Some(m[i].1),
        None => None,
    }
}

fn tv_default_exec(ds: &Vec<TypeVarDecl>, name: &[char]) -> (r: bool)
    ensures
        r == tv_default(decls_view(ds@), name@),
{
    let ghost dv = decls_view(ds@);
    let mut k: usize = ds.len();
    proof {
        assert(dv.take(k as int) =~= dv);
    }
    while k > 0
        invariant
            k <= ds@.len(),
            dv == decls_view(ds@),
            tv_default(dv, name@) == tv_default(dv.take(k as int), name@),
        decreases k,
    {
        proof {
            assert(dv.take(k as int).drop_last() =~= dv.take(k - 1));
        }
        if eq_chars(ds[k - 1].name.as_slice(), name) {
            return ds[k - 1].has_default;
        }
        k -= 1;
    }
    false
}

/// Whether some declaration of `name` passes `kind` (0: any, 1: `ParamSpec`,
/// 2: `TypeVarTuple`).
fn decl_kind_exec(ds: &Vec<TypeVarDecl>, name: &[char], kind: u8) -> (r: bool)
    ensures
        kind == 0 ==> r == is_tv(decls_view(ds@), name@),
        kind == 1 ==> r == is_paramspec(decls_view(ds@), name@),
        kind == 2 ==> r == is_tvt(decls_view(ds@), name@),
{
    let ghost dv = decls_view(ds@);
    let mut i: usize = 0;
    while i < ds.len()
        invariant
            i <= ds@.len(),
            dv == decls_view(ds@),
            kind == 0 ==> forall|j: int| 0 <= j < i ==> (#[trigger] dv[j]).name != name@,
            kind == 1 ==> forall|j: int| 0 <= j < i ==> !((#[trigger] dv[j]).name == name@ && dv[j].is_paramspec),
            kind == 2 ==> forall|j: int| 0 <= j < i ==> !((#[trigger] dv[j]).name == name@ && dv[j].is_typevartuple),
        decreases ds.len() - i,
    {
        let hit = eq_chars(ds[i].name.as_slice(), name) && (kind == 0 || (kind == 1 && ds[i].is_paramspec) || (kind
            == 2 && ds[i].is_typevartuple));
        if hit {
            proof {
                assert(dv[i as int].name == name@);
            }
            return true;
        }
        i += 1;
    }
    false
}

/// The names of `ns` that are type variables.
fn tv_names_exec(ns: &Vec<Vec<char>>, ds: &Vec<TypeVarDecl>) -> (r: Vec<Vec<char>>)
    ensures
        views(r@) == tv_names(views(ns@), decls_view(ds@)),
{
    let mut out: Vec<Vec<char>> = Vec::new();
    let mut i: usize = 0;
    while i < ns.len()
        invariant
            i <= ns@.len(),
            views(out@) == tv_names(views(ns@).take(i as int), decls_view(ds@)),
        decreases ns.len() - i,
    {
        proof {
            assert(views(ns@).take(i + 1).drop_last() =~= views(ns@).take(i as int));
            assert(views(ns@).take(i + 1).last() == ns@[i as int]@);
        }
        let ghost before = views(out@);
        if decl_kind_exec(ds, ns[i].as_slice(), 0) {
            out.push(copy_text(ns[i].as_slice()));
            proof {
                assert(views(out@) =~= before + seq![ns@[i as int]@]);
            }
        } else {
            proof {
                assert(views(out@) =~= before + Seq::<Seq<char>>::empty());
            }
        }
        i += 1;
    }
    proof {
        assert(views(ns@).take(i as int) =~= views(ns@));
    }
    out
}

/// Some name of `ns` is a `TypeVarTuple`.
fn any_tvt(ns: &Vec<Vec<char>>, ds: &Vec<TypeVarDecl>) -> (r: bool)
    ensures
        r == exists|i: int| 0 <= i < ns@.len() && is_tvt(decls_view(ds@), #[trigger] views(ns@)[i]),
{
    let mut i: usize = 0;
    while i < ns.len()
        invariant
            i <= ns@.len(),
            forall|j: int| 0 <= j < i ==> !is_tvt(decls_view(ds@), #[trigger] views(ns@)[j]),
        decreases ns.len() - i,
    {
        proof {
            assert(views(ns@)[i as int] == ns@[i as int]@);
        }
        if decl_kind_exec(ds, ns[i].as_slice(), 2) {
            return true;
        }
        i += 1;
    }
    false
}

fn class_arity_exec(c: &ClassArityInfo, ds: &Vec<TypeVarDecl>) -> (r: Option<TypeArity>)
    ensures
        r == class_arity(class_av(*c), decls_view(ds@)),
{
    let ghost cv = class_av(*c);
    let ghost dv = decls_view(ds@);
    let n = c.generic_params.len();
    if n > 0 {
        proof {
            assert(cv.params[0].name == c.generic_params@[0].name@);
        }
        if n == 1 && decl_kind_exec(ds, c.generic_params[0].name.as_slice(), 1) {
            return Some(TypeArity { min: None, max: None });
        }
        let mut has_tvt = false;
        let mut required: usize = 0;
        let mut i: usize = 0;
        while i < n
            invariant
                i <= n,
                n == c.generic_params@.len(),
                cv == class_av(*c),
                dv == decls_view(ds@),
                required <= i,
                required == required_count(cv.params.take(i as int), dv),
                has_tvt == exists|j: int| 0 <= j < i && (#[trigger] cv.params[j]).is_typevartuple,
            decreases n - i,
        {
            proof {
                assert(cv.params.take(i + 1).drop_last() =~= cv.params.take(i as int));
                assert(cv.params.take(i + 1).last() == cv.params[i as int]);
                assert(cv.params[i as int].name == c.generic_params@[i as int].name@);
            }
            let p = &c.generic_params[i];
            if p.is_typevartuple {
                has_tvt = true;
            }
            if !p.is_typevartuple && !tv_default_exec(ds, p.name.as_slice()) {
                required = required + 1;
            }
            i += 1;
        }
        proof {
            assert(cv.params.take(n as int) =~= cv.params);
        }
        let min = if required > 0 {
            Some(required)
        } else {
            None
        };
        let max = if has_tvt {
            None
        } else {
            Some(n)
        };
        return Some(TypeArity { min, max });
    }
    if c.base_expression_names.len() > 0 {
        if any_tvt(&c.base_expression_names, ds) {
            return None;
        }
        let names = tv_names_exec(&c.base_expression_names, ds);
        let distinct = uniq_names(names.as_slice());
        let implicit = distinct.len();
        if implicit > 0 {
            return Some(TypeArity { min: None, max: Some(implicit) });
        }
        if c.has_subscript_base && !c.has_pep695_type_params {
            return Some(TypeArity { min: None, max: Some(0) });
        }
        return None;
    }
    None
}

fn alias_arity_exec(rhs: &Vec<Vec<char>>, ds: &Vec<TypeVarDecl>) -> (r: Option<TypeArity>)
    ensures
        r == alias_arity(views(rhs@), decls_view(ds@)),
{
    if any_tvt(rhs, ds) {
        return None;
    }
    let names = tv_names_exec(rhs, ds);
    let free = uniq_names(names.as_slice());
    let ghost fv = views(free@);
    let total = free.len();
    let mut required: usize = 0;
    let mut i: usize = 0;
    while i < total
        invariant
            i <= total,
            total == free@.len(),
            fv == views(free@),
            required <= i,
            required == no_default_count(fv.take(i as int), decls_view(ds@)),
        decreases total - i,
    {
        proof {
            assert(fv.take(i + 1).drop_last() =~= fv.take(i as int));
            assert(fv.take(i + 1).last() == free@[i as int]@);
        }
        if !tv_default_exec(ds, free[i].as_slice()) {
            required = required + 1;
        }
        i += 1;
    }
    proof {
        assert(fv.take(total as int) =~= fv);
    }
    let min = if required > 0 && required < total {
        Some(required)
    } else {
        None
    };
    Some(TypeArity { min, max: Some(total) })
}

/// Builds the arity table: the least and greatest number of type arguments of
/// every class, then every alias (a later entry for a name replaces an earlier one).
pub fn compute_arities(
    classes: &Vec<ClassArityInfo>,
    aliases: &Vec<TypeAliasDef>,
    typevars: &Vec<TypeVarDecl>,
) -> (r: Vec<(Vec<char>, TypeArity)>)
    ensures
        arity_map_view(r@) == arities(classes_av(classes@), aliases_view(aliases@), decls_view(typevars@)),
{
    let ghost cs = classes_av(classes@);
    let ghost al = aliases_view(aliases@);
    let ghost dv = decls_view(typevars@);
    let mut out: Vec<(Vec<char>, TypeArity)> = Vec::new();
    let mut i: usize = 0;
    while i < classes.len()
        invariant
            i <= classes@.len(),
            cs == classes_av(classes@),
            dv == decls_view(typevars@),
            arity_map_view(out@) == classes_arities(cs.take(i as int), dv),
        decreases classes.len() - i,
    {
        proof {
            assert(cs.take(i + 1).drop_last() =~= cs.take(i as int));
            assert(cs.take(i + 1).last() == class_av(classes@[i as int]));
        }
        match class_arity_exec(&classes[i], typevars) {
            Some(a) => arity_put(&mut out, copy_text(classes[i].name.as_slice()), a),
            None => {},
        }
        i += 1;
    }
    proof {
        assert(cs.take(i as int) =~= cs);
    }
    let ghost base = arity_map_view(out@);
    let mut k: usize = 0;
    while k < aliases.len()
        invariant
            k <= aliases@.len(),
            al == aliases_view(aliases@),
            dv == decls_view(typevars@),
            base == classes_arities(cs, dv),
            arity_map_view(out@) == aliases_arities(base, al.take(k as int), dv),
        decreases aliases.len() - k,
    {
        proof {
            assert(al.take(k + 1).drop_last() =~= al.take(k as int));
            assert(al.take(k + 1).last() == (aliases@[k as int].name@, views(aliases@[k as int].rhs_names@)));
        }
        match alias_arity_exec(&aliases[k].rhs_names, typevars) {
            Some(a) => arity_put(&mut out, copy_text(aliases[k].name.as_slice()), a),
            None => {},
        }
        k += 1;
    }
    proof {
        assert(al.take(k as int) =~= al);
    }
    out
}

// ---------------------------------------------------------------------------
// Subscripts
// ---------------------------------------------------------------------------

/// The trimmed arguments of `Base[a, b, ...]`: after the first `[`, up to a
/// final `]`, split at commas outside brackets.
pub open spec fn subscript_args(text: Seq<char>) -> Option<Seq<Seq<char>>> {
    let t = trim(text);
    match find_char(t, '[') {
        None => None,
        Some(b) => {
            let rest = t.skip(b + 1);
            if rest.len() > 0 && rest.last() == ']' {
                Some(trim_all(split_top_commas_all(rest.drop_last())))
            } else {
                None
            }
        },
    }
}

/// The top-level type arguments of a subscript text `Name[a, b]`; `None` when the text is no subscript.
pub fn subscript_arg_texts(text: &[char]) -> (r: Option<Vec<Vec<char>>>)
    ensures
        match r {
            Some(v) => subscript_args(text@) == Some(views(v@)),
            None => subscript_args(text@) is None,
        },
{
    let t = trim_chars(text);
    proof {
        lemma_find_char(t@, '[');
    }
    let b = match find_char_exec(t.as_slice(), '[') {
        Some(b) => b,
        None => return None,
    };
    let n = t.len();
    let rest = slice_of(t.as_slice(), b + 1, n);
    proof {
        assert(rest@ =~= t@.skip(b + 1));
    }
    if rest.len() == 0 || rest[rest.len() - 1] != ']' {
        return None;
    }
    let m = rest.len() - 1;
    let inner = slice_of(rest.as_slice(), 0, m);
    proof {
        assert(inner@ =~= rest@.drop_last());
    }
    let parts = split_top_level_commas(inner.as_slice());
    Some(trim_all_exec(&parts))
}

/// A valid argument for a `ParamSpec` slot: a list, `...`, another
/// `ParamSpec` or `Concatenate[...]`.
pub open spec fn parameters_form(arg: Seq<char>, paramspecs: Seq<Seq<char>>) -> bool {
    starts_with(arg, "["@) || arg == "..."@ || paramspecs.contains(arg) || starts_with(arg, "Concatenate["@)
}

/// Whether a type argument can fill a `ParamSpec` slot: a bracketed list, `...`, a `ParamSpec` name or `Concatenate[...]`.
pub fn is_parameters_form(arg: &[char], paramspec_names: &Vec<Vec<char>>) -> (r: bool)
    ensures
        r == parameters_form(arg@, views(paramspec_names@)),
{
    starts_with_lit(arg, "[") || eq_str(arg, "...") || crate::names::contains_name(paramspec_names, arg)
        || starts_with_lit(arg, "Concatenate[")
}

pub enum ArityIssue {
    /// A plain type `arg` given for `ParamSpec` parameter `param` of `base`.
    ParamSpecSlot { arg: Vec<char>, param: Vec<char>, base: Vec<char> },
    /// A built-in with an exact arity given more arguments.
    Builtin { base: Vec<char>, exact: usize, count: usize },
    TooFew { base: Vec<char>, min: usize, count: usize },
    /// `max` 0 means the type cannot be subscripted at all.
    TooMany { base: Vec<char>, max: usize, count: usize },
}

pub struct ArityDiagnostic {
    pub issue: ArityIssue,
    pub span: Span,
}

pub enum ArityIssueV {
    ParamSpecSlot { arg: Seq<char>, param: Seq<char>, base: Seq<char> },
    Builtin { base: Seq<char>, exact: nat, count: nat },
    TooFew { base: Seq<char>, min: nat, count: nat },
    TooMany { base: Seq<char>, max: nat, count: nat },
}

pub struct ArityDiagV {
    pub issue: ArityIssueV,
    pub span: (nat, nat),
}

/// `was` for one, `were` otherwise.
pub open spec fn was_were(n: nat) -> Seq<char> {
    if n == 1 {
        "was"@
    } else {
        "were"@
    }
}

/// The text of a finding.
pub open spec fn arity_message(i: ArityIssueV) -> Seq<char> {
    match i {
        ArityIssueV::ParamSpecSlot { arg, param, base } => "Type argument `"@ + arg
            + "` is not valid for `ParamSpec` parameter `"@ + param + "` of `"@ + base + "`"@,
        ArityIssueV::Builtin { base, exact, count } => "`"@ + base + "` accepts exactly "@ + decimal_nat(exact)
            + " type argument, but "@ + decimal_nat(count) + " "@ + was_were(count) + " provided"@,
        ArityIssueV::TooFew { base, min, count } => "Too few type arguments for `"@ + base
            + "`; expected at least "@ + decimal_nat(min) + ", got "@ + decimal_nat(count),
        ArityIssueV::TooMany { base, max, count } => if max == 0 {
            "`"@ + base + "` cannot be subscripted; it has no free type parameters"@
        } else {
            "Too many type arguments for `"@ + base + "`; expected at most "@ + decimal_nat(max) + ", got "@
                + decimal_nat(count)
        },
    }
}

impl ArityDiagnostic {
    /// The finding's message.
    pub fn message(&self) -> (r: Vec<char>)
        ensures
            r@ == arity_message(arity_issue_view(self.issue)),
    {
        match &self.issue {
            ArityIssue::ParamSpecSlot { arg, param, base } => {
                let mut m = chars_of("Type argument `");
                push_chars(&mut m, arg.as_slice());
                push_lit(&mut m, "` is not valid for `ParamSpec` parameter `");
                push_chars(&mut m, param.as_slice());
                push_lit(&mut m, "` of `");
                push_chars(&mut m, base.as_slice());
                push_lit(&mut m, "`");
                m
            },
            ArityIssue::Builtin { base, exact, count } => {
                let mut m = chars_of("`");
                push_chars(&mut m, base.as_slice());
                push_lit(&mut m, "` accepts exactly ");
                push_chars(&mut m, usize_to_decimal(*exact).as_slice());
                push_lit(&mut m, " type argument, but ");
                push_chars(&mut m, usize_to_decimal(*count).as_slice());
                if *count == 1 {
                    push_lit(&mut m, " was");
                } else {
                    push_lit(&mut m, " were");
                }
                push_lit(&mut m, " provided");
                proof {
                    reveal_strlit(" was");
                    reveal_strlit(" were");
                    reveal_strlit(" ");
                    reveal_strlit("was");
                    reveal_strlit("were");
                }
                m
            },
            ArityIssue::TooFew { base, min, count } => {
                let mut m = chars_of("Too few type arguments for `");
                push_chars(&mut m, base.as_slice());
                push_lit(&mut m, "`; expected at least ");
                push_chars(&mut m, usize_to_decimal(*min).as_slice());
                push_lit(&mut m, ", got ");
                push_chars(&mut m, usize_to_decimal(*count).as_slice());
                m
            },
            ArityIssue::TooMany { base, max, count } => {
                if *max == 0 {
                    let mut m = chars_of("`");
                    push_chars(&mut m, base.as_slice());
                    push_lit(&mut m, "` cannot be subscripted; it has no free type parameters");
                    m
                } else {
                    let mut m = chars_of("Too many type arguments for `");
                    push_chars(&mut m, base.as_slice());
                    push_lit(&mut m, "`; expected at most ");
                    push_chars(&mut m, usize_to_decimal(*max).as_slice());
                    push_lit(&mut m, ", got ");
                    push_chars(&mut m, usize_to_decimal(*count).as_slice());
                    m
                }
            },
        }
    }
}

pub open spec fn arity_issue_view(i: ArityIssue) -> ArityIssueV {
    match i {
        ArityIssue::ParamSpecSlot { arg, param, base } => ArityIssueV::ParamSpecSlot {
            arg: arg@,
            param: param@,
            base: base@,
        },
        ArityIssue::Builtin { base, exact, count } => ArityIssueV::Builtin {
            base: base@,
            exact: exact as nat,
            count: count as nat,
        },
        ArityIssue::TooFew { base, min, count } => ArityIssueV::TooFew {
            base: base@,
            min: min as nat,
            count: count as nat,
        },
        ArityIssue::TooMany { base, max, count } => ArityIssueV::TooMany {
            base: base@,
            max: max as nat,
            count: count as nat,
        },
    }
}

pub open spec fn adiags_view(v: Seq<ArityDiagnostic>) -> Seq<ArityDiagV> {
    v.map_values(|d: ArityDiagnostic| ArityDiagV { issue: arity_issue_view(d.issue), span: span_view(d.span) })
}

pub struct SiteV {
    pub base_name: Seq<char>,
    pub arg_count: nat,
    pub span: (nat, nat),
    pub text: Option<Seq<char>>,
}

pub open spec fn sites_view(v: Seq<SubscriptSite>) -> Seq<SiteV> {
    v.map_values(
        |s: SubscriptSite|
            SiteV {
                base_name: s.base_name@,
                arg_count: s.arg_count as nat,
                span: span_view(s.span),
                text: crate::module::opt_chars(s.text),
            },
    )
}

/// The `ParamSpec` names.
pub open spec fn paramspec_names(ds: Seq<DeclV>) -> Seq<Seq<char>>
    decreases ds.len(),
{
    if ds.len() == 0 {
        Seq::empty()
    } else {
        paramspec_names(ds.drop_last()) + if ds.last().is_paramspec {
            seq![ds.last().name]
        } else {
            Seq::<Seq<char>>::empty()
        }
    }
}

/// The parameter names of the last class named `name` with more than one
/// parameter and no `TypeVarTuple`.
pub open spec fn fixed_params(cs: Seq<ClassAV>, name: Seq<char>) -> Option<Seq<Seq<char>>>
    decreases cs.len(),
{
    if cs.len() == 0 {
        None
    } else {
        let c = cs.last();
        if c.name == name && c.params.len() > 1 && !(exists|i: int| 0 <= i < c.params.len() && (#[trigger] c.params[i]).is_typevartuple) {
            Some(c.params.map_values(|p: GParamV| p.name))
        } else {
            fixed_params(cs.drop_last(), name)
        }
    }
}

/// The findings of one site's arguments against parameters `ps`.
pub open spec fn slot_issues(
    site: SiteV,
    ps: Seq<Seq<char>>,
    args: Seq<Seq<char>>,
    k: int,
    pss: Seq<Seq<char>>,
) -> Seq<ArityDiagV>
    decreases k,
{
    if k <= 0 {
        Seq::empty()
    } else {
        let i = k - 1;
        slot_issues(site, ps, args, k - 1, pss) + if pss.contains(ps[i]) && !parameters_form(args[i], pss) {
            seq![
                ArityDiagV {
                    issue: ArityIssueV::ParamSpecSlot { arg: args[i], param: ps[i], base: site.base_name },
                    span: site.span,
                },
            ]
        } else {
            Seq::<ArityDiagV>::empty()
        }
    }
}

pub open spec fn site_slot_issues(site: SiteV, cs: Seq<ClassAV>, pss: Seq<Seq<char>>) -> Seq<ArityDiagV> {
    match fixed_params(cs, site.base_name) {
        None => Seq::empty(),
        Some(ps) => match site.text {
            None => Seq::empty(),
            Some(text) => match subscript_args(text) {
                None => Seq::empty(),
                Some(args) => if args.len() != ps.len() {
                    Seq::empty()
                } else {
                    slot_issues(site, ps, args, ps.len() as int, pss)
                },
            },
        },
    }
}

pub open spec fn slots_issues(sites: Seq<SiteV>, cs: Seq<ClassAV>, pss: Seq<Seq<char>>) -> Seq<ArityDiagV>
    decreases sites.len(),
{
    if sites.len() == 0 {
        Seq::empty()
    } else {
        slots_issues(sites.drop_last(), cs, pss) + site_slot_issues(sites.last(), cs, pss)
    }
}

/// `check_paramspec_slot_args`: nothing without `ParamSpec`s.
pub open spec fn paramspec_slot_report(sites: Seq<SiteV>, cs: Seq<ClassAV>, ds: Seq<DeclV>) -> Seq<ArityDiagV> {
    let pss = paramspec_names(ds);
    if pss.len() == 0 {
        Seq::empty()
    } else {
        slots_issues(sites, cs, pss)
    }
}

/// The arity findings of one site: `type` with more than one argument, then
/// too few, then too many.
pub open spec fn site_arity_issues(site: SiteV, ar: Seq<(Seq<char>, TypeArity)>) -> Seq<ArityDiagV> {
    let builtin = if site.base_name == "type"@ && site.arg_count > 1 {
        seq![ArityDiagV { issue: ArityIssueV::Builtin { base: site.base_name, exact: 1, count: site.arg_count }, span: site.span }]
    } else {
        Seq::<ArityDiagV>::empty()
    };
    builtin + match assoc_get(ar, site.base_name) {
        None => Seq::empty(),
        Some(a) => (match a.min {
            Some(m) => if site.arg_count < m {
                seq![ArityDiagV { issue: ArityIssueV::TooFew { base: site.base_name, min: m as nat, count: site.arg_count }, span: site.span }]
            } else {
                Seq::<ArityDiagV>::empty()
            },
            None => Seq::<ArityDiagV>::empty(),
        }) + match a.max {
            Some(m) => if site.arg_count > m {
                seq![ArityDiagV { issue: ArityIssueV::TooMany { base: site.base_name, max: m as nat, count: site.arg_count }, span: site.span }]
            } else {
                Seq::<ArityDiagV>::empty()
            },
            None => Seq::<ArityDiagV>::empty(),
        },
    }
}

pub open spec fn sites_arity_issues(sites: Seq<SiteV>, ar: Seq<(Seq<char>, TypeArity)>) -> Seq<ArityDiagV>
    decreases sites.len(),
{
    if sites.len() == 0 {
        Seq::empty()
    } else {
        sites_arity_issues(sites.drop_last(), ar) + site_arity_issues(sites.last(), ar)
    }
}

/// All findings: `ParamSpec` slots first, then the arity of every site.
pub open spec fn arity_report(
    sites: Seq<SiteV>,
    cs: Seq<ClassAV>,
    al: Seq<(Seq<char>, Seq<Seq<char>>)>,
    ds: Seq<DeclV>,
) -> Seq<ArityDiagV> {
    paramspec_slot_report(sites, cs, ds) + sites_arity_issues(sites, arities(cs, al, ds))
}

// ---------------------------------------------------------------------------
// Laws
// ---------------------------------------------------------------------------

/// A too-many finding on the base `b`.
pub open spec fn too_many_on(d: ArityDiagV, b: Seq<char>) -> bool {
    match d.issue {
        ArityIssueV::TooMany { base, .. } => base == b,
        _ => false,
    }
}

/// No finding in the list says `b` was given too many type arguments.
pub open spec fn no_too_many_for(r: Seq<ArityDiagV>, b: Seq<char>) -> bool {
    forall|j: int| 0 <= j < r.len() ==> !too_many_on(#[trigger] r[j], b)
}

proof fn lemma_no_too_many_concat(x: Seq<ArityDiagV>, y: Seq<ArityDiagV>, b: Seq<char>)
    requires
        no_too_many_for(x, b),
        no_too_many_for(y, b),
    ensures
        no_too_many_for(x + y, b),
{
    assert forall|j: int| 0 <= j < (x + y).len() implies !too_many_on(#[trigger] (x + y)[j], b) by {
        if j < x.len() {
            assert((x + y)[j] == x[j]);
        } else {
            assert((x + y)[j] == y[j - x.len()]);
        }
    }
}

proof fn lemma_slot_issues_no_too_many(
    site: SiteV,
    ps: Seq<Seq<char>>,
    args: Seq<Seq<char>>,
    k: int,
    pss: Seq<Seq<char>>,
    b: Seq<char>,
)
    ensures
        no_too_many_for(slot_issues(site, ps, args, k, pss), b),
    decreases k,
{
    if k > 0 {
        let i = k - 1;
        lemma_slot_issues_no_too_many(site, ps, args, k - 1, pss, b);
        let tail = if pss.contains(ps[i]) && !parameters_form(args[i], pss) {
            seq![
                ArityDiagV {
                    issue: ArityIssueV::ParamSpecSlot { arg: args[i], param: ps[i], base: site.base_name },
                    span: site.span,
                },
            ]
        } else {
            Seq::<ArityDiagV>::empty()
        };
        assert(no_too_many_for(tail, b));
        lemma_no_too_many_concat(slot_issues(site, ps, args, k - 1, pss), tail, b);
    }
}

proof fn lemma_slots_no_too_many(sites: Seq<SiteV>, cs: Seq<ClassAV>, pss: Seq<Seq<char>>, b: Seq<char>)
    ensures
        no_too_many_for(slots_issues(sites, cs, pss), b),
    decreases sites.len(),
{
    if sites.len() > 0 {
        lemma_slots_no_too_many(sites.drop_last(), cs, pss, b);
        let site = sites.last();
        match fixed_params(cs, site.base_name) {
            None => {},
            Some(ps) => match site.text {
                None => {},
                Some(text) => match subscript_args(text) {
                    None => {},
                    Some(args) => if args.len() == ps.len() {
                        lemma_slot_issues_no_too_many(site, ps, args, ps.len() as int, pss, b);
                    },
                },
            },
        }
        lemma_no_too_many_concat(slots_issues(sites.drop_last(), cs, pss), site_slot_issues(site, cs, pss), b);
    }
}

proof fn lemma_sites_no_too_many(sites: Seq<SiteV>, ar: Seq<(Seq<char>, TypeArity)>, b: Seq<char>)
    requires
        assoc_get(ar, b) is Some,
        assoc_get(ar, b).unwrap().max is None,
    ensures
        no_too_many_for(sites_arity_issues(sites, ar), b),
    decreases sites.len(),
{
    if sites.len() > 0 {
        lemma_sites_no_too_many(sites.drop_last(), ar, b);
        let site = sites.last();
        let r = site_arity_issues(site, ar);
        assert forall|j: int| 0 <= j < r.len() implies !too_many_on(#[trigger] r[j], b) by {
            if too_many_on(r[j], b) {
                assert(site.base_name == b);
            }
        }
        lemma_no_too_many_concat(sites_arity_issues(sites.drop_last(), ar), r, b);
    }
}

proof fn lemma_classes_arities_at(cs: Seq<ClassAV>, ds: Seq<DeclV>, k: int)
    requires
        0 <= k < cs.len(),
        class_arity(cs[k], ds) is Some,
        forall|j: int| k < j < cs.len() ==> (#[trigger] cs[j]).name != cs[k].name,
    ensures
        assoc_get(classes_arities(cs, ds), cs[k].name) == class_arity(cs[k], ds),
    decreases cs.len(),
{
    let acc = classes_arities(cs.drop_last(), ds);
    if k == cs.len() - 1 {
        crate::assoc::law_assoc_insert_get(acc, cs.last().name, class_arity(cs[k], ds).unwrap());
    } else {
        assert(cs.last().name != cs[k].name);
        let d = cs.drop_last();
        assert forall|j: int| k < j < d.len() implies (#[trigger] d[j]).name != d[k].name by {
            assert(d[j] == cs[j]);
        }
        lemma_classes_arities_at(d, ds, k);
        assert(d[k] == cs[k]);
        match class_arity(cs.last(), ds) {
            Some(a) => crate::assoc::law_assoc_insert_other(acc, cs.last().name, a, cs[k].name),
            None => {},
        }
    }
}

proof fn lemma_aliases_keep(
    acc: Seq<(Seq<char>, TypeArity)>,
    al: Seq<(Seq<char>, Seq<Seq<char>>)>,
    ds: Seq<DeclV>,
    b: Seq<char>,
)
    requires
        forall|j: int| 0 <= j < al.len() ==> (#[trigger] al[j]).0 != b,
    ensures
        assoc_get(aliases_arities(acc, al, ds), b) == assoc_get(acc, b),
    decreases al.len(),
{
    if al.len() > 0 {
        let d = al.drop_last();
        assert forall|j: int| 0 <= j < d.len() implies (#[trigger] d[j]).0 != b by {
            assert(d[j] == al[j]);
        }
        lemma_aliases_keep(acc, d, ds, b);
        assert(al.last().0 != b);
        match alias_arity(al.last().1, ds) {
            Some(a) => crate::assoc::law_assoc_insert_other(aliases_arities(acc, d, ds), al.last().0, a, b),
            None => {},
        }
    }
}

/// A class generic over a `TypeVarTuple` takes any number of type arguments:
/// its arity has no maximum.
pub proof fn law_typevartuple_class_unbounded(c: ClassAV, ds: Seq<DeclV>)
    requires
        exists|i: int| 0 <= i < c.params.len() && (#[trigger] c.params[i]).is_typevartuple,
    ensures
        class_arity(c, ds) is Some,
        class_arity(c, ds).unwrap().max is None,
{
}

/// No subscript of a class generic over a `TypeVarTuple` is reported as
/// having too many type arguments, whatever the sites: this holds of the
/// class that a name last defines, when no alias takes that name.
pub proof fn law_typevartuple_class_never_too_many(
    sites: Seq<SiteV>,
    cs: Seq<ClassAV>,
    al: Seq<(Seq<char>, Seq<Seq<char>>)>,
    ds: Seq<DeclV>,
    k: int,
)
    requires
        0 <= k < cs.len(),
        exists|i: int| 0 <= i < cs[k].params.len() && (#[trigger] cs[k].params[i]).is_typevartuple,
        forall|j: int| k < j < cs.len() ==> (#[trigger] cs[j]).name != cs[k].name,
        forall|j: int| 0 <= j < al.len() ==> (#[trigger] al[j]).0 != cs[k].name,
    ensures
        no_too_many_for(arity_report(sites, cs, al, ds), cs[k].name),
{
    let b = cs[k].name;
    law_typevartuple_class_unbounded(cs[k], ds);
    lemma_classes_arities_at(cs, ds, k);
    lemma_aliases_keep(classes_arities(cs, ds), al, ds, b);
    lemma_sites_no_too_many(sites, arities(cs, al, ds), b);
    let pss = paramspec_names(ds);
    if pss.len() > 0 {
        lemma_slots_no_too_many(sites, cs, pss, b);
    }
    lemma_no_too_many_concat(paramspec_slot_report(sites, cs, ds), sites_arity_issues(sites, arities(cs, al, ds)), b);
}

fn push_issue(diagnostics: &mut Vec<ArityDiagnostic>, issue: ArityIssue, span: Span)
    ensures
        adiags_view(final(diagnostics)@) == adiags_view(old(diagnostics)@).push(
            ArityDiagV { issue: arity_issue_view(issue), span: span_view(span) },
        ),
{
    let ghost before = adiags_view(diagnostics@);
    let d = ArityDiagnostic { issue, span };
    diagnostics.push(d);
    proof {
        assert(adiags_view(diagnostics@) =~= before.push(ArityDiagV { issue: arity_issue_view(d.issue), span: span_view(d.span) }));
    }
}

fn fixed_params_exec(classes: &Vec<ClassArityInfo>, name: &[char]) -> (r: Option<usize>)
    ensures
        match r {
            Some(i) => i < classes@.len() && fixed_params(classes_av(classes@), name@) == Some(
                class_av(classes@[i as int]).params.map_values(|p: GParamV| p.name),
            ),
            None => fixed_params(classes_av(classes@), name@) is None,
        },
{
    let ghost cs = classes_av(classes@);
    let mut k: usize = classes.len();
    proof {
        assert(cs.take(k as int) =~= cs);
    }
    while k > 0
        invariant
            k <= classes@.len(),
            cs == classes_av(classes@),
            fixed_params(cs, name@) == fixed_params(cs.take(k as int), name@),
        decreases k,
    {
        let ghost c = cs[k - 1];
        proof {
            assert(cs.take(k as int).drop_last() =~= cs.take(k - 1));
            assert(cs.take(k as int).last() == c);
            assert(c == class_av(classes@[k - 1]));
        }
        let cls = &classes[k - 1];
        if eq_chars(cls.name.as_slice(), name) && cls.generic_params.len() > 1 {
            let mut tvt = false;
            let mut j: usize = 0;
            while j < cls.generic_params.len()
                invariant
                    j <= cls.generic_params@.len(),
                    c == class_av(*cls),
                    tvt == exists|q: int| 0 <= q < j && (#[trigger] c.params[q]).is_typevartuple,
                decreases cls.generic_params.len() - j,
            {
                proof {
                    assert(c.params[j as int].is_typevartuple == cls.generic_params@[j as int].is_typevartuple);
                }
                if cls.generic_params[j].is_typevartuple {
                    tvt = true;
                }
                j += 1;
            }
            if !tvt {
                return Some(k - 1);
            }
        }
        k -= 1;
    }
    None
}

fn paramspec_names_exec(ds: &Vec<TypeVarDecl>) -> (r: Vec<Vec<char>>)
    ensures
        views(r@) == paramspec_names(decls_view(ds@)),
{
    let ghost dv = decls_view(ds@);
    let mut out: Vec<Vec<char>> = Vec::new();
    let mut i: usize = 0;
    while i < ds.len()
        invariant
            i <= ds@.len(),
            dv == decls_view(ds@),
            views(out@) == paramspec_names(dv.take(i as int)),
        decreases ds.len() - i,
    {
        proof {
            assert(dv.take(i + 1).drop_last() =~= dv.take(i as int));
        }
        let ghost before = views(out@);
        if ds[i].is_paramspec {
            out.push(copy_text(ds[i].name.as_slice()));
            proof {
                assert(views(out@) =~= before + seq![ds@[i as int].name@]);
            }
        } else {
            proof {
                assert(views(out@) =~= before + Seq::<Seq<char>>::empty());
            }
        }
        i += 1;
    }
    proof {
        assert(dv.take(i as int) =~= dv);
    }
    out
}

/// Reports subscripts of multi-parameter generics whose `ParamSpec` slot holds a plain type.
pub fn check_paramspec_slot_args(
    sites: &Vec<SubscriptSite>,
    classes: &Vec<ClassArityInfo>,
    typevars: &Vec<TypeVarDecl>,
    diagnostics: &mut Vec<ArityDiagnostic>,
)
    ensures
        adiags_view(final(diagnostics)@) == adiags_view(old(diagnostics)@) + paramspec_slot_report(
            sites_view(sites@),
            classes_av(classes@),
            decls_view(typevars@),
        ),
{
    let ghost d0 = adiags_view(diagnostics@);
    let ghost sv = sites_view(sites@);
    let ghost cs = classes_av(classes@);
    proof {
        assert(d0 + Seq::<ArityDiagV>::empty() =~= d0);
    }
    let pss = paramspec_names_exec(typevars);
    if pss.len() == 0 {
        return ;
    }
    let ghost pv = views(pss@);
    let mut s: usize = 0;
    proof {
        assert(sv.take(0) =~= Seq::<SiteV>::empty());
    }
    while s < sites.len()
        invariant
            s <= sites@.len(),
            sv == sites_view(sites@),
            cs == classes_av(classes@),
            pv == views(pss@),
            d0 == adiags_view(old(diagnostics)@),
            adiags_view(diagnostics@) == d0 + slots_issues(sv.take(s as int), cs, pv),
        decreases sites.len() - s,
    {
        let site = &sites[s];
        let ghost st = sv[s as int];
        proof {
            assert(sv.take(s + 1).drop_last() =~= sv.take(s as int));
            assert(sv.take(s + 1).last() == st);
        }
        let ghost before = adiags_view(diagnostics@);
        match fixed_params_exec(classes, site.base_name.as_slice()) {
            None => {},
            Some(ci) => {
                let cls = &classes[ci];
                let ghost ps = class_av(*cls).params.map_values(|p: GParamV| p.name);
                match &site.text {
                    None => {},
                    Some(text) => {
                        match subscript_arg_texts(text.as_slice()) {
                            None => {},
                            Some(args) => {
                                if args.len() == cls.generic_params.len() {
                                    let mut i: usize = 0;
                                    while i < args.len()
                                        invariant
                                            i <= args@.len(),
                                            args@.len() == cls.generic_params@.len(),
                                            ps == class_av(*cls).params.map_values(|p: GParamV| p.name),
                                            st.base_name == site.base_name@,
                                            st.span == span_view(site.span),
                                            pv == views(pss@),
                                            adiags_view(diagnostics@) == before + slot_issues(st, ps, views(args@), i as int, pv),
                                        decreases args.len() - i,
                                    {
                                        proof {
                                            assert(ps[i as int] == cls.generic_params@[i as int].name@);
                                            assert(views(args@)[i as int] == args@[i as int]@);
                                        }
                                        let pname = cls.generic_params[i].name.as_slice();
                                        if crate::names::contains_name(&pss, pname) && !is_parameters_form(args[i].as_slice(), &pss) {
                                            push_issue(
                                                diagnostics,
                                                ArityIssue::ParamSpecSlot {
                                                    arg: copy_text(args[i].as_slice()),
                                                    param: copy_text(pname),
                                                    base: copy_text(site.base_name.as_slice()),
                                                },
                                                site.span,
                                            );
                                        }
                                        proof {
                                            assert(adiags_view(diagnostics@) =~= before + slot_issues(st, ps, views(args@), i + 1, pv));
                                        }
                                        i += 1;
                                    }
                                }
                            },
                        }
                    },
                }
            },
        }
        proof {
            assert(adiags_view(diagnostics@) =~= before + site_slot_issues(st, cs, pv));
        }
        s += 1;
    }
    proof {
        assert(sv.take(s as int) =~= sv);
    }
}

/// Detects subscripts with too few or too many type arguments, or a plain
/// type in a `ParamSpec` slot.
pub struct TooFewTypeArguments;

impl TooFewTypeArguments {
    /// Every finding of a module.
    pub fn check(
        &self,
        sites: &Vec<SubscriptSite>,
        classes: &Vec<ClassArityInfo>,
        aliases: &Vec<TypeAliasDef>,
        typevars: &Vec<TypeVarDecl>,
    ) -> (r: Vec<ArityDiagnostic>)
        ensures
            adiags_view(r@) == arity_report(sites_view(sites@), classes_av(classes@), aliases_view(aliases@), decls_view(typevars@)),
    {
        let ar = compute_arities(classes, aliases, typevars);
        let ghost av = arity_map_view(ar@);
        let mut out: Vec<ArityDiagnostic> = Vec::new();
        proof {
            assert(adiags_view(out@) =~= Seq::<ArityDiagV>::empty());
        }
        check_paramspec_slot_args(sites, classes, typevars, &mut out);
        let ghost after = adiags_view(out@);
        let ghost sv = sites_view(sites@);
        let mut s: usize = 0;
        proof {
            assert(after + sites_arity_issues(sv.take(0), av) =~= after);
        }
        while s < sites.len()
            invariant
                s <= sites@.len(),
                sv == sites_view(sites@),
                av == arity_map_view(ar@),
                adiags_view(out@) == after + sites_arity_issues(sv.take(s as int), av),
            decreases sites.len() - s,
        {
            let site = &sites[s];
            let ghost st = sv[s as int];
            proof {
                assert(sv.take(s + 1).drop_last() =~= sv.take(s as int));
                assert(sv.take(s + 1).last() == st);
            }
            let ghost before = adiags_view(out@);
            if eq_str(site.base_name.as_slice(), "type") && site.arg_count > 1 {
                push_issue(&mut out, ArityIssue::Builtin { base: copy_text(site.base_name.as_slice()), exact: 1, count: site.arg_count }, site.span);
            }
            match arity_get(&ar, site.base_name.as_slice()) {
                None => {},
                Some(a) => {
                    match a.min {
                        Some(m) => {
                            if site.arg_count < m {
                                push_issue(&mut out, ArityIssue::TooFew { base: copy_text(site.base_name.as_slice()), min: m, count: site.arg_count }, site.span);
                            }
                        },
                        None => {},
                    }
                    match a.max {
                        Some(m) => {
                            if site.arg_count > m {
                                push_issue(&mut out, ArityIssue::TooMany { base: copy_text(site.base_name.as_slice()), max: m, count: site.arg_count }, site.span);
                            }
                        },
                        None => {},
                    }
                },
            }
            proof {
                assert(adiags_view(out@) =~= before + site_arity_issues(st, av));
            }
            s += 1;
        }
        proof {
            assert(sv.take(s as int) =~= sv);
        }
        out
    }
}

} // verus!
