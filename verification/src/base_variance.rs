//! `TypeVar` arguments of a generic base class (reached directly or through
//! type aliases) whose variance differs from that of the base's type
//! parameter in their position.
use vstd::prelude::*;

use crate::assoc::{assoc_find, assoc_get, assoc_index, assoc_insert, lemma_assoc_index, lemma_found_index};
use crate::module::copy_text;
use crate::position::Span;
use crate::protocol_variance::VarianceDecl;
use crate::text::{eq_chars, views};
use crate::variance::Variance;

verus! {

/// `compose_variance`: invariance absorbs, covariance is the identity, two
/// contravariances make a covariance.
pub open spec fn compose(outer: Variance, inner: Variance) -> Variance {
    match (outer, inner) {
        (Variance::Invariant, _) => Variance::Invariant,
        (_, Variance::Invariant) => Variance::Invariant,
        (Variance::Covariant, v) => v,
        (v, Variance::Covariant) => v,
        (Variance::Contravariant, Variance::Contravariant) => Variance::Covariant,
    }
}

/// `Covariant` is the identity of composition.
pub proof fn law_compose_identity(v: Variance)
    ensures
        compose(Variance::Covariant, v) == v,
        compose(v, Variance::Covariant) == v,
{
}

/// `Invariant` absorbs every variance it is composed with.
pub proof fn law_compose_absorbing(v: Variance)
    ensures
        compose(Variance::Invariant, v) == Variance::Invariant,
        compose(v, Variance::Invariant) == Variance::Invariant,
{
}

/// Composition does not depend on the order of its operands.
pub proof fn law_compose_commutative(a: Variance, b: Variance)
    ensures
        compose(a, b) == compose(b, a),
{
}

/// Composing along a chain of bases gives the same result however the
/// chain is grouped.
pub proof fn law_compose_associative(a: Variance, b: Variance, c: Variance)
    ensures
        compose(compose(a, b), c) == compose(a, compose(b, c)),
{
}

pub fn compose_variance(outer: Variance, inner: Variance) -> (r: Variance)
    ensures
        r == compose(outer, inner),
{
    match (outer, inner) {
        (Variance::Invariant, _) => Variance::Invariant,
        (_, Variance::Invariant) => Variance::Invariant,
        (Variance::Covariant, v) => v,
        (v, Variance::Covariant) => v,
        (Variance::Contravariant, Variance::Contravariant) => Variance::Covariant,
    }
}

/// A type argument: a bare name, or a subscripted generic.
pub enum TypeArg {
    Simple(Vec<char>),
    Subscript { base: Vec<char>, args: Vec<TypeArg> },
}

/// Type arguments as values.
pub enum TypeArgV {
    Simple(Seq<char>),
    Subscript(Seq<char>, Seq<TypeArgV>),
}

pub open spec fn targ_view(t: TypeArg) -> TypeArgV
    decreases t,
{
    match t {
        TypeArg::Simple(n) => TypeArgV::Simple(n@),
        TypeArg::Subscript { base, args } => TypeArgV::Subscript(base@, targs_view(args@)),
    }
}

pub open spec fn targs_view(ts: Seq<TypeArg>) -> Seq<TypeArgV>
    decreases ts,
{
    if ts.len() == 0 {
        Seq::empty()
    } else {
        targs_view(ts.drop_last()).push(targ_view(ts.last()))
    }
}

/// A subscripted base of a class: its name, the names of its arguments, the
/// arguments as trees (empty when not available), and where it is.
pub struct BaseSubscript {
    pub base_name: Vec<char>,
    pub type_arg_names: Vec<Vec<char>>,
    pub type_args: Vec<TypeArg>,
    pub span: Span,
}

/// A class: its name, its generic parameters, and its subscripted bases.
pub struct GenericClassDecl {
    pub name: Vec<char>,
    pub generic_params: Vec<Vec<char>>,
    pub base_subscripts: Vec<BaseSubscript>,
}

/// A type alias: its name, the base name of its right-hand side when that
/// is a subscript, and the argument names there.
pub struct AliasDef {
    pub name: Vec<char>,
    pub rhs_base_name: Option<Vec<char>>,
    pub rhs_type_arg_names: Vec<Vec<char>>,
}

/// The tables the checks read: the variance of each `TypeVar`, the
/// parameter names of each generic class, and each alias's base and
/// argument names.
pub struct VarianceTables {
    pub variances: Seq<(Seq<char>, Variance)>,
    pub class_params: Seq<(Seq<char>, Seq<Seq<char>>)>,
    pub aliases: Seq<(Seq<char>, (Seq<char>, Seq<Seq<char>>))>,
}

pub open spec fn variance_of(d: VarianceDecl) -> Variance {
    if d.is_covariant {
        Variance::Covariant
    } else if d.is_contravariant {
        Variance::Contravariant
    } else {
        Variance::Invariant
    }
}

/// Variance by `TypeVar` name; a later declaration wins.
pub open spec fn variance_table(ds: Seq<VarianceDecl>) -> Seq<(Seq<char>, Variance)>
    decreases ds.len(),
{
    if ds.len() == 0 {
        Seq::empty()
    } else {
        assoc_insert(variance_table(ds.drop_last()), ds.last().name@, variance_of(ds.last()))
    }
}

/// Parameter names by class, for classes with parameters; a later class of
/// the same name wins.
pub open spec fn class_param_table(cs: Seq<GenericClassDecl>) -> Seq<(Seq<char>, Seq<Seq<char>>)>
    decreases cs.len(),
{
    if cs.len() == 0 {
        Seq::empty()
    } else {
        let t = class_param_table(cs.drop_last());
        if cs.last().generic_params@.len() > 0 {
            assoc_insert(t, cs.last().name@, views(cs.last().generic_params@))
        } else {
            t
        }
    }
}

/// Base and argument names by alias, for aliases with a subscripted
/// right-hand side; a later alias of the same name wins.
pub open spec fn alias_table(ads: Seq<AliasDef>) -> Seq<(Seq<char>, (Seq<char>, Seq<Seq<char>>))>
    decreases ads.len(),
{
    if ads.len() == 0 {
        Seq::empty()
    } else {
        let t = alias_table(ads.drop_last());
        match ads.last().rhs_base_name {
            Some(b) => assoc_insert(t, ads.last().name@, (b@, views(ads.last().rhs_type_arg_names@))),
            None => t,
        }
    }
}

/// A violation: an argument, its variance, and the variance its position
/// expects.
pub struct VarianceMismatch {
    pub arg_name: Vec<char>,
    pub arg_variance: Variance,
    pub expected_variance: Variance,
}

impl View for VarianceMismatch {
    type V = (Seq<char>, Variance, Variance);

    open spec fn view(&self) -> Self::V {
        (self.arg_name@, self.arg_variance, self.expected_variance)
    }
}

pub open spec fn mismatches_view(v: Seq<VarianceMismatch>) -> Seq<(Seq<char>, Variance, Variance)> {
    v.map_values(|m: VarianceMismatch| m@)
}

// ---------------------------------------------------------------------------
// Flat arguments (names)
// ---------------------------------------------------------------------------

/// `check_args_against_params`: for each argument paired with a parameter,
/// both `TypeVar`s, an argument that is not invariant and whose variance
/// differs from the parameter's.
pub open spec fn args_mismatches(
    args: Seq<Seq<char>>,
    params: Seq<Seq<char>>,
    tv: Seq<(Seq<char>, Variance)>,
) -> Seq<(Seq<char>, Variance, Variance)>
    decreases args.len() + params.len(),
{
    if args.len() == 0 || params.len() == 0 {
        Seq::empty()
    } else if args.len() != params.len() {
        let n = if args.len() < params.len() {
            args.len()
        } else {
            params.len()
        };
        args_mismatches(args.take(n as int), params.take(n as int), tv)
    } else {
        args_mismatches(args.drop_last(), params.drop_last(), tv) + match (
            assoc_get(tv, args.last()),
            assoc_get(tv, params.last()),
        ) {
            (Some(av), Some(ev)) => if av != Variance::Invariant && av != ev {
                seq![(args.last(), av, ev)]
            } else {
                Seq::empty()
            },
            _ => Seq::empty(),
        }
    }
}

/// The alias arguments that are `TypeVar`s, in order.
pub open spec fn free_typevars(ats: Seq<Seq<char>>, tv: Seq<(Seq<char>, Variance)>) -> Seq<Seq<char>>
    decreases ats.len(),
{
    if ats.len() == 0 {
        Seq::empty()
    } else {
        free_typevars(ats.drop_last(), tv) + if assoc_get(tv, ats.last()) is Some {
            seq![ats.last()]
        } else {
            Seq::empty()
        }
    }
}

/// Each free `TypeVar` paired with the provided argument in its position; a
/// later pair for the same name wins.
pub open spec fn substitution<A>(free: Seq<Seq<char>>, provided: Seq<A>) -> Seq<(Seq<char>, A)>
    decreases free.len() + provided.len(),
{
    if free.len() == 0 || provided.len() == 0 {
        Seq::empty()
    } else if free.len() != provided.len() {
        let n = if free.len() < provided.len() {
            free.len()
        } else {
            provided.len()
        };
        substitution(free.take(n as int), provided.take(n as int))
    } else {
        assoc_insert(substitution(free.drop_last(), provided.drop_last()), free.last(), provided.last())
    }
}

/// The alias arguments with the substitution applied.
pub open spec fn substituted_names(ats: Seq<Seq<char>>, sub: Seq<(Seq<char>, Seq<char>)>) -> Seq<Seq<char>> {
    Seq::new(
        ats.len(),
        |i: int|
            match assoc_get(sub, ats[i]) {
                Some(r) => r,
                None => ats[i],
            },
    )
}

/// `resolve_alias_and_check` from `depth` on.
pub open spec fn alias_mismatches(
    t: VarianceTables,
    name: Seq<char>,
    provided: Seq<Seq<char>>,
    depth: nat,
) -> Option<Seq<(Seq<char>, Variance, Variance)>>
    decreases 11 - depth,
{
    if depth > 10 {
        None
    } else {
        match assoc_get(t.aliases, name) {
            None => None,
            Some((target, ats)) => {
                let eff = substituted_names(
                    ats,
                    substitution(free_typevars(ats, t.variances), provided),
                );
                match assoc_get(t.class_params, target) {
                    Some(params) => Some(args_mismatches(eff, params, t.variances)),
                    None => alias_mismatches(t, target, eff, depth + 1),
                }
            },
        }
    }
}

/// `resolve_and_check`: `None` when the base is neither a generic class nor
/// an alias that leads to one within the depth limit.
pub open spec fn flat_mismatches(t: VarianceTables, base: Seq<char>, names: Seq<Seq<char>>) -> Option<
    Seq<(Seq<char>, Variance, Variance)>,
> {
    match assoc_get(t.class_params, base) {
        Some(params) => Some(args_mismatches(names, params, t.variances)),
        None => alias_mismatches(t, base, names, 0),
    }
}

// ---------------------------------------------------------------------------
// Argument trees
// ---------------------------------------------------------------------------

pub open spec fn targ_height(t: TypeArgV) -> nat
    decreases t,
{
    match t {
        TypeArgV::Simple(_) => 0,
        TypeArgV::Subscript(_, args) => 1 + max_height(args),
    }
}

pub open spec fn max_height(ts: Seq<TypeArgV>) -> nat
    decreases ts,
{
    if ts.len() == 0 {
        0
    } else {
        let a = max_height(ts.drop_last());
        let b = targ_height(ts.last());
        if a < b {
            b
        } else {
            a
        }
    }
}

pub proof fn lemma_max_height_elem(ts: Seq<TypeArgV>, i: int)
    requires
        0 <= i < ts.len(),
    ensures
        targ_height(ts[i]) <= max_height(ts),
    decreases ts.len(),
{
    if i < ts.len() - 1 {
        lemma_max_height_elem(ts.drop_last(), i);
    }
}

pub proof fn lemma_max_height_bound(ts: Seq<TypeArgV>, m: nat)
    requires
        forall|i: int| 0 <= i < ts.len() ==> targ_height(#[trigger] ts[i]) <= m,
    ensures
        max_height(ts) <= m,
    decreases ts.len(),
{
    if ts.len() > 0 {
        lemma_max_height_bound(ts.drop_last(), m);
    }
}

pub proof fn lemma_max_height_take(ts: Seq<TypeArgV>, n: int)
    requires
        0 <= n <= ts.len(),
    ensures
        max_height(ts.take(n)) <= max_height(ts),
{
    assert forall|i: int| 0 <= i < ts.take(n).len() implies targ_height(
        #[trigger] ts.take(n)[i],
    ) <= max_height(ts) by {
        lemma_max_height_elem(ts, i);
    }
    lemma_max_height_bound(ts.take(n), max_height(ts));
}

/// The number of alias steps from `name` to a name that is not an alias,
/// within `fuel` steps.
pub open spec fn alias_hops(ai: Seq<(Seq<char>, (Seq<char>, Seq<Seq<char>>))>, name: Seq<char>, fuel: nat) -> Option<
    nat,
>
    decreases fuel,
{
    match assoc_get(ai, name) {
        None => Some(0),
        Some(e) => if fuel == 0 {
            None
        } else {
            match alias_hops(ai, e.0, (fuel - 1) as nat) {
                Some(h) => Some(h + 1),
                None => None,
            }
        },
    }
}

/// No alias leads back to itself: from every alias a non-alias is reached
/// within as many steps as there are aliases.
pub open spec fn aliases_acyclic(ai: Seq<(Seq<char>, (Seq<char>, Seq<Seq<char>>))>) -> bool {
    forall|k: int| 0 <= k < ai.len() ==> (#[trigger] alias_hops(ai, ai[k].0, ai.len())) is Some
}

pub open spec fn hops(ai: Seq<(Seq<char>, (Seq<char>, Seq<Seq<char>>))>, name: Seq<char>) -> nat {
    match alias_hops(ai, name, ai.len()) {
        Some(h) => h,
        None => 0,
    }
}

pub proof fn lemma_alias_hops_fuel(
    ai: Seq<(Seq<char>, (Seq<char>, Seq<Seq<char>>))>,
    name: Seq<char>,
    f: nat,
    g: nat,
)
    requires
        f <= g,
        alias_hops(ai, name, f) is Some,
    ensures
        alias_hops(ai, name, g) == alias_hops(ai, name, f),
    decreases f,
{
    match assoc_get(ai, name) {
        None => {},
        Some(e) => {
            lemma_alias_hops_fuel(ai, e.0, (f - 1) as nat, (g - 1) as nat);
        },
    }
}

/// Following an alias strictly lowers the number of steps left.
pub proof fn lemma_hops_step(ai: Seq<(Seq<char>, (Seq<char>, Seq<Seq<char>>))>, name: Seq<char>)
    requires
        aliases_acyclic(ai),
        assoc_get(ai, name) is Some,
    ensures
        hops(ai, (assoc_get(ai, name)->0).0) < hops(ai, name),
{
    lemma_assoc_index(ai, name);
    let k = assoc_index(ai, name)->0;
    assert(alias_hops(ai, ai[k].0, ai.len()) is Some);
    let e = assoc_get(ai, name)->0;
    lemma_alias_hops_fuel(ai, e.0, (ai.len() - 1) as nat, ai.len());
}

pub open spec fn base_hops(ai: Seq<(Seq<char>, (Seq<char>, Seq<Seq<char>>))>, t: TypeArgV) -> nat {
    match t {
        TypeArgV::Simple(_) => 0,
        TypeArgV::Subscript(b, _) => hops(ai, b),
    }
}

/// The alias arguments with the substitution applied, a name without a
/// replacement standing for itself.
pub open spec fn substituted_args(ats: Seq<Seq<char>>, sub: Seq<(Seq<char>, TypeArgV)>) -> Seq<TypeArgV> {
    Seq::new(
        ats.len(),
        |i: int|
            match assoc_get(sub, ats[i]) {
                Some(r) => r,
                None => TypeArgV::Simple(ats[i]),
            },
    )
}

pub proof fn lemma_substitution_values<A>(free: Seq<Seq<char>>, provided: Seq<A>)
    ensures
        forall|k: int|
            0 <= k < substitution(free, provided).len() ==> exists|j: int|
                0 <= j < provided.len() && #[trigger] substitution(free, provided)[k].1 == provided[j],
    decreases free.len() + provided.len(),
{
    let s = substitution(free, provided);
    if free.len() == 0 || provided.len() == 0 {
    } else if free.len() != provided.len() {
        let n = if free.len() < provided.len() {
            free.len()
        } else {
            provided.len()
        };
        let inner = substitution(free.take(n as int), provided.take(n as int));
        assert(s == inner);
        lemma_substitution_values(free.take(n as int), provided.take(n as int));
        assert forall|k: int| 0 <= k < s.len() implies exists|j: int|
            0 <= j < provided.len() && #[trigger] s[k].1 == provided[j] by {
            assert(inner[k] == s[k]);
            let j = choose|j: int|
                0 <= j < provided.take(n as int).len() && #[trigger] inner[k].1 == provided.take(
                    n as int,
                )[j];
            assert(provided.take(n as int)[j] == provided[j]);
        }
    } else {
        let prev = substitution(free.drop_last(), provided.drop_last());
        lemma_substitution_values(free.drop_last(), provided.drop_last());
        lemma_assoc_index(prev, free.last());
        assert forall|k: int| 0 <= k < s.len() implies exists|j: int|
            0 <= j < provided.len() && #[trigger] s[k].1 == provided[j] by {
            match assoc_index(prev, free.last()) {
                Some(i) => {
                    if k == i {
                        assert(s[k].1 == provided[provided.len() - 1]);
                    } else {
                        let j = choose|j: int|
                            0 <= j < provided.drop_last().len() && prev[k].1 == provided.drop_last()[j];
                        assert(provided.drop_last()[j] == provided[j]);
                    }
                },
                None => {
                    if k == prev.len() {
                        assert(s[k].1 == provided[provided.len() - 1]);
                    } else {
                        let j = choose|j: int|
                            0 <= j < provided.drop_last().len() && prev[k].1 == provided.drop_last()[j];
                        assert(provided.drop_last()[j] == provided[j]);
                    }
                },
            }
        }
    }
}

/// Substituting arguments into an alias never deepens the tree.
pub proof fn lemma_substituted_height(ats: Seq<Seq<char>>, free: Seq<Seq<char>>, args: Seq<TypeArgV>)
    ensures
        max_height(substituted_args(ats, substitution(free, args))) <= max_height(args),
{
    let sub = substitution(free, args);
    let eff = substituted_args(ats, sub);
    lemma_substitution_values(free, args);
    assert forall|i: int| 0 <= i < eff.len() implies targ_height(#[trigger] eff[i]) <= max_height(args) by {
        lemma_assoc_index(sub, ats[i]);
        match assoc_index(sub, ats[i]) {
            Some(k) => {
                let j = choose|j: int| 0 <= j < args.len() && sub[k].1 == args[j];
                lemma_max_height_elem(args, j);
            },
            None => {},
        }
    }
    lemma_max_height_bound(eff, max_height(args));
}

/// `collect_leaf_variances`: each `TypeVar` at a leaf of an argument tree
/// with the variance composed along the path from `acc`: through a generic
/// class each argument takes its parameter's variance (invariant when the
/// parameter is not a `TypeVar`); an alias is expanded first.
pub open spec fn leaves(t: TypeArgV, acc: Variance, tb: VarianceTables) -> Seq<(Seq<char>, Variance)>
    decreases 2 * targ_height(t) + 1, base_hops(tb.aliases, t),
    when aliases_acyclic(tb.aliases)
{
    match t {
        TypeArgV::Simple(n) => match assoc_get(tb.variances, n) {
            Some(v) => seq![(n, compose(acc, v))],
            None => Seq::empty(),
        },
        TypeArgV::Subscript(b, args) => match assoc_get(tb.class_params, b) {
            Some(params) => leaves_zip(args, params, acc, tb),
            None => match assoc_get(tb.aliases, b) {
                Some(e) => {
                    let eff = substituted_args(e.1, substitution(free_typevars(e.1, tb.variances), args));
                    proof {
                        lemma_substituted_height(e.1, free_typevars(e.1, tb.variances), args);
                        lemma_hops_step(tb.aliases, b);
                    }
                    leaves(TypeArgV::Subscript(e.0, eff), acc, tb)
                },
                None => Seq::empty(),
            },
        },
    }
}

pub open spec fn leaves_zip(
    args: Seq<TypeArgV>,
    params: Seq<Seq<char>>,
    acc: Variance,
    tb: VarianceTables,
) -> Seq<(Seq<char>, Variance)>
    decreases 2 * max_height(args) + 2, args.len() + params.len(),
    when aliases_acyclic(tb.aliases)
{
    if args.len() == 0 || params.len() == 0 {
        Seq::empty()
    } else if args.len() != params.len() {
        let n = if args.len() < params.len() {
            args.len()
        } else {
            params.len()
        };
        proof {
            lemma_max_height_take(args, n as int);
        }
        leaves_zip(args.take(n as int), params.take(n as int), acc, tb)
    } else {
        proof {
            lemma_max_height_take(args, args.len() - 1);
            assert(args.take(args.len() - 1) =~= args.drop_last());
            lemma_max_height_elem(args, args.len() - 1);
        }
        let pv = match assoc_get(tb.variances, params.last()) {
            Some(v) => v,
            None => Variance::Invariant,
        };
        leaves_zip(args.drop_last(), params.drop_last(), acc, tb) + leaves(args.last(), compose(acc, pv), tb)
    }
}

// ---------------------------------------------------------------------------
// Rich arguments and the rule, as values
// ---------------------------------------------------------------------------

/// The leaves whose variance is neither invariant nor the expected one.
pub open spec fn leaf_mismatches(ls: Seq<(Seq<char>, Variance)>, ev: Variance) -> Seq<
    (Seq<char>, Variance, Variance),
>
    decreases ls.len(),
{
    if ls.len() == 0 {
        Seq::empty()
    } else {
        leaf_mismatches(ls.drop_last(), ev) + if ls.last().1 != Variance::Invariant && ls.last().1 != ev {
            seq![(ls.last().0, ls.last().1, ev)]
        } else {
            Seq::empty()
        }
    }
}

/// The type arguments whose effective variance does not match the parameter's expected one, position by position.
pub open spec fn rich_arg_mismatches(args: Seq<TypeArgV>, params: Seq<Seq<char>>, tb: VarianceTables) -> Seq<
    (Seq<char>, Variance, Variance),
>
    decreases args.len() + params.len(),
{
    if args.len() == 0 || params.len() == 0 {
        Seq::empty()
    } else if args.len() != params.len() {
        let n = if args.len() < params.len() {
            args.len()
        } else {
            params.len()
        };
        rich_arg_mismatches(args.take(n as int), params.take(n as int), tb)
    } else {
        rich_arg_mismatches(args.drop_last(), params.drop_last(), tb) + match assoc_get(
            tb.variances,
            params.last(),
        ) {
            None => Seq::empty(),
            Some(ev) => leaf_mismatches(leaves(args.last(), Variance::Covariant, tb), ev),
        }
    }
}

/// `expand_alias_rich` from `depth` on: the alias chain from `name` followed
/// to a base that is not an alias, substituting at each step.
pub open spec fn expand_rich(tb: VarianceTables, name: Seq<char>, provided: Seq<TypeArgV>, depth: nat) -> Option<
    (Seq<char>, Seq<TypeArgV>),
>
    decreases 11 - depth,
{
    if depth > 10 {
        None
    } else {
        match assoc_get(tb.aliases, name) {
            None => None,
            Some(e) => {
                let eff = substituted_args(e.1, substitution(free_typevars(e.1, tb.variances), provided));
                if assoc_get(tb.aliases, e.0) is Some {
                    expand_rich(tb, e.0, eff, depth + 1)
                } else {
                    Some((e.0, eff))
                }
            },
        }
    }
}

/// The variance mismatches of a base after resolving aliases; `None` when the base is no known class or alias.
pub open spec fn rich_mismatches(tb: VarianceTables, base: Seq<char>, args: Seq<TypeArgV>) -> Option<
    Seq<(Seq<char>, Variance, Variance)>,
> {
    match assoc_get(tb.class_params, base) {
        Some(params) => Some(rich_arg_mismatches(args, params, tb)),
        None => match expand_rich(tb, base, args, 0) {
            None => None,
            Some((b2, a2)) => match assoc_get(tb.class_params, b2) {
                Some(ps) => Some(rich_arg_mismatches(a2, ps, tb)),
                None => None,
            },
        },
    }
}

/// The violations of one subscripted base: by argument names when no
/// argument trees are given, by the trees otherwise.
pub open spec fn entry_mismatches(tb: VarianceTables, e: BaseSubscript) -> Option<
    Seq<(Seq<char>, Variance, Variance)>,
> {
    if e.type_args@.len() == 0 {
        flat_mismatches(tb, e.base_name@, views(e.type_arg_names@))
    } else {
        rich_mismatches(tb, e.base_name@, targs_view(e.type_args@))
    }
}

pub open spec fn entries_reports(tb: VarianceTables, es: Seq<BaseSubscript>) -> Seq<
    (Seq<char>, Seq<(Seq<char>, Variance, Variance)>, Span),
>
    decreases es.len(),
{
    if es.len() == 0 {
        Seq::empty()
    } else {
        entries_reports(tb, es.drop_last()) + match entry_mismatches(tb, es.last()) {
            Some(v) => if v.len() > 0 {
                seq![(es.last().base_name@, v, es.last().span)]
            } else {
                Seq::empty()
            },
            None => Seq::empty(),
        }
    }
}

/// The reports of every class's subscripted bases, in order.
pub open spec fn module_reports(tb: VarianceTables, cs: Seq<GenericClassDecl>) -> Seq<
    (Seq<char>, Seq<(Seq<char>, Variance, Variance)>, Span),
>
    decreases cs.len(),
{
    if cs.len() == 0 {
        Seq::empty()
    } else {
        module_reports(tb, cs.drop_last()) + entries_reports(tb, cs.last().base_subscripts@)
    }
}

pub open spec fn module_tables(cs: Seq<GenericClassDecl>, tvs: Seq<VarianceDecl>, ads: Seq<AliasDef>) -> VarianceTables {
    VarianceTables {
        variances: variance_table(tvs),
        class_params: class_param_table(cs),
        aliases: alias_table(ads),
    }
}

// ---------------------------------------------------------------------------
// The tables
// ---------------------------------------------------------------------------

pub open spec fn vt_view(m: Seq<(Vec<char>, Variance)>) -> Seq<(Seq<char>, Variance)> {
    m.map_values(|e: (Vec<char>, Variance)| (e.0@, e.1))
}

pub open spec fn cp_view(m: Seq<(Vec<char>, Vec<Vec<char>>)>) -> Seq<(Seq<char>, Seq<Seq<char>>)> {
    m.map_values(|e: (Vec<char>, Vec<Vec<char>>)| (e.0@, views(e.1@)))
}

pub open spec fn ai_view(m: Seq<(Vec<char>, (Vec<char>, Vec<Vec<char>>))>) -> Seq<
    (Seq<char>, (Seq<char>, Seq<Seq<char>>)),
> {
    m.map_values(|e: (Vec<char>, (Vec<char>, Vec<Vec<char>>))| (e.0@, (e.1.0@, views(e.1.1@))))
}

/// The tables the checks read.
pub struct TypeTables {
    pub variances: Vec<(Vec<char>, Variance)>,
    pub class_params: Vec<(Vec<char>, Vec<Vec<char>>)>,
    pub aliases: Vec<(Vec<char>, (Vec<char>, Vec<Vec<char>>))>,
}

impl View for TypeTables {
    type V = VarianceTables;

    open spec fn view(&self) -> VarianceTables {
        VarianceTables {
            variances: vt_view(self.variances@),
            class_params: cp_view(self.class_params@),
            aliases: ai_view(self.aliases@),
        }
    }
}

fn copy_names(v: &Vec<Vec<char>>) -> (r: Vec<Vec<char>>)
    ensures
        views(r@) == views(v@),
{
    let mut out: Vec<Vec<char>> = Vec::new();
    let mut i: usize = 0;
    while i < v.len()
        invariant
            i <= v@.len(),
            views(out@) == views(v@).take(i as int),
        decreases v.len() - i,
    {
        let ghost before = views(out@);
        let x = copy_text(v[i].as_slice());
        out.push(x);
        proof {
            assert(views(out@) =~= before.push(x@));
            assert(views(v@).take(i + 1) =~= views(v@).take(i as int).push(v@[i as int]@));
        }
        i += 1;
    }
    proof {
        assert(views(v@).take(i as int) =~= views(v@));
    }
    out
}

fn vt_put(m: &mut Vec<(Vec<char>, Variance)>, k: Vec<char>, v: Variance)
    ensures
        vt_view(final(m)@) == assoc_insert(vt_view(old(m)@), k@, v),
{
    let ghost mv = vt_view(m@);
    let f = assoc_find(m, k.as_slice());
    proof {
        lemma_found_index(m@, mv, k@, f);
    }
    let ghost entry = (k@, v);
    match f {
        Some(i) => {
            m.set(i, (k, v));
            proof {
                assert(vt_view(m@) =~= mv.update(i as int, entry));
            }
        },
        None => {
            m.push((k, v));
            proof {
                assert(vt_view(m@) =~= mv.push(entry));
            }
        },
    }
}

fn cp_put(m: &mut Vec<(Vec<char>, Vec<Vec<char>>)>, k: Vec<char>, v: Vec<Vec<char>>)
    ensures
        cp_view(final(m)@) == assoc_insert(cp_view(old(m)@), k@, views(v@)),
{
    let ghost mv = cp_view(m@);
    let f = assoc_find(m, k.as_slice());
    proof {
        lemma_found_index(m@, mv, k@, f);
    }
    let ghost entry = (k@, views(v@));
    match f {
        Some(i) => {
            m.set(i, (k, v));
            proof {
                assert(cp_view(m@) =~= mv.update(i as int, entry));
            }
        },
        None => {
            m.push((k, v));
            proof {
                assert(cp_view(m@) =~= mv.push(entry));
            }
        },
    }
}

fn ai_put(m: &mut Vec<(Vec<char>, (Vec<char>, Vec<Vec<char>>))>, k: Vec<char>, v: (Vec<char>, Vec<Vec<char>>))
    ensures
        ai_view(final(m)@) == assoc_insert(ai_view(old(m)@), k@, (v.0@, views(v.1@))),
{
    let ghost mv = ai_view(m@);
    let f = assoc_find(m, k.as_slice());
    proof {
        lemma_found_index(m@, mv, k@, f);
    }
    let ghost entry = (k@, (v.0@, views(v.1@)));
    match f {
        Some(i) => {
            m.set(i, (k, v));
            proof {
                assert(ai_view(m@) =~= mv.update(i as int, entry));
            }
        },
        None => {
            m.push((k, v));
            proof {
                assert(ai_view(m@) =~= mv.push(entry));
            }
        },
    }
}

/// The tables of a module, as `module_tables` states.
pub fn build_tables(
    classes: &Vec<GenericClassDecl>,
    typevars: &Vec<VarianceDecl>,
    aliases: &Vec<AliasDef>,
) -> (r: TypeTables)
    ensures
        r@ == module_tables(classes@, typevars@, aliases@),
{
    let mut variances: Vec<(Vec<char>, Variance)> = Vec::new();
    let mut i: usize = 0;
    proof {
        assert(vt_view(variances@) =~= variance_table(typevars@.take(0)));
    }
    while i < typevars.len()
        invariant
            i <= typevars@.len(),
            vt_view(variances@) == variance_table(typevars@.take(i as int)),
        decreases typevars.len() - i,
    {
        proof {
            assert(typevars@.take(i + 1).drop_last() =~= typevars@.take(i as int));
            assert(typevars@.take(i + 1).last() == typevars@[i as int]);
        }
        let d = &typevars[i];
        let v = if d.is_covariant {
            Variance::Covariant
        } else if d.is_contravariant {
            Variance::Contravariant
        } else {
            Variance::Invariant
        };
        vt_put(&mut variances, copy_text(d.name.as_slice()), v);
        i += 1;
    }
    proof {
        assert(typevars@.take(i as int) =~= typevars@);
    }
    let mut class_params: Vec<(Vec<char>, Vec<Vec<char>>)> = Vec::new();
    let mut j: usize = 0;
    proof {
        assert(cp_view(class_params@) =~= class_param_table(classes@.take(0)));
    }
    while j < classes.len()
        invariant
            j <= classes@.len(),
            cp_view(class_params@) == class_param_table(classes@.take(j as int)),
        decreases classes.len() - j,
    {
        proof {
            assert(classes@.take(j + 1).drop_last() =~= classes@.take(j as int));
            assert(classes@.take(j + 1).last() == classes@[j as int]);
        }
        let c = &classes[j];
        if c.generic_params.len() > 0 {
            cp_put(&mut class_params, copy_text(c.name.as_slice()), copy_names(&c.generic_params));
        }
        j += 1;
    }
    proof {
        assert(classes@.take(j as int) =~= classes@);
    }
    let mut ai: Vec<(Vec<char>, (Vec<char>, Vec<Vec<char>>))> = Vec::new();
    let mut k: usize = 0;
    proof {
        assert(ai_view(ai@) =~= alias_table(aliases@.take(0)));
    }
    while k < aliases.len()
        invariant
            k <= aliases@.len(),
            ai_view(ai@) == alias_table(aliases@.take(k as int)),
        decreases aliases.len() - k,
    {
        proof {
            assert(aliases@.take(k + 1).drop_last() =~= aliases@.take(k as int));
            assert(aliases@.take(k + 1).last() == aliases@[k as int]);
        }
        let a = &aliases[k];
        if let Some(b) = &a.rhs_base_name {
            ai_put(
                &mut ai,
                copy_text(a.name.as_slice()),
                (copy_text(b.as_slice()), copy_names(&a.rhs_type_arg_names)),
            );
        }
        k += 1;
    }
    proof {
        assert(aliases@.take(k as int) =~= aliases@);
    }
    TypeTables { variances, class_params, aliases: ai }
}

fn find_variance(m: &Vec<(Vec<char>, Variance)>, k: &[char]) -> (r: Option<Variance>)
    ensures
        r == assoc_get(vt_view(m@), k@),
{
    let f = assoc_find(m, k);
    proof {
        lemma_found_index(m@, vt_view(m@), k@, f);
    }
    match f {
        Some(i) => Some(m[i].1),
        None => None,
    }
}

fn find_class_params<'a>(m: &'a Vec<(Vec<char>, Vec<Vec<char>>)>, k: &[char]) -> (r: Option<
    &'a Vec<Vec<char>>,
>)
    ensures
        match r {
            Some(ps) => assoc_get(cp_view(m@), k@) == Some(views(ps@)),
            None => assoc_get(cp_view(m@), k@) is None,
        },
{
    let f = assoc_find(m, k);
    proof {
        lemma_found_index(m@, cp_view(m@), k@, f);
    }
    match f {
        Some(i) => Some(&m[i].1),
        None => None,
    }
}

fn find_alias<'a>(m: &'a Vec<(Vec<char>, (Vec<char>, Vec<Vec<char>>))>, k: &[char]) -> (r: Option<
    &'a (Vec<char>, Vec<Vec<char>>),
>)
    ensures
        match r {
            Some(e) => assoc_get(ai_view(m@), k@) == Some((e.0@, views(e.1@))),
            None => assoc_get(ai_view(m@), k@) is None,
        },
{
    let f = assoc_find(m, k);
    proof {
        lemma_found_index(m@, ai_view(m@), k@, f);
    }
    match f {
        Some(i) => Some(&m[i].1),
        None => None,
    }
}

// ---------------------------------------------------------------------------
// Flat arguments
// ---------------------------------------------------------------------------

fn push_mismatch(out: &mut Vec<VarianceMismatch>, name: &[char], av: Variance, ev: Variance)
    ensures
        mismatches_view(final(out)@) == mismatches_view(old(out)@).push((name@, av, ev)),
{
    out.push(VarianceMismatch { arg_name: copy_text(name), arg_variance: av, expected_variance: ev });
    proof {
        assert(mismatches_view(out@) =~= mismatches_view(old(out)@).push((name@, av, ev)));
    }
}

proof fn lemma_zip_prefix<A, B>(a: Seq<A>, b: Seq<B>, n: int)
    requires
        0 <= n < a.len(),
        n < b.len(),
    ensures
        a.take(n + 1).drop_last() =~= a.take(n),
        b.take(n + 1).drop_last() =~= b.take(n),
        a.take(n + 1).last() == a[n],
        b.take(n + 1).last() == b[n],
{
}

/// `check_args_against_params`, as `args_mismatches` states.
pub fn check_args_against_params(
    args: &Vec<Vec<char>>,
    params: &Vec<Vec<char>>,
    tv: &Vec<(Vec<char>, Variance)>,
) -> (r: Vec<VarianceMismatch>)
    ensures
        mismatches_view(r@) == args_mismatches(views(args@), views(params@), vt_view(tv@)),
{
    let ghost a = views(args@);
    let ghost p = views(params@);
    let n = if args.len() < params.len() {
        args.len()
    } else {
        params.len()
    };
    proof {
        if a.len() == 0 || p.len() == 0 {
            assert(a.take(n as int).len() == 0 || p.take(n as int).len() == 0);
        } else if a.len() != p.len() {
        } else {
            assert(a.take(n as int) =~= a);
            assert(p.take(n as int) =~= p);
        }
        assert(args_mismatches(a, p, vt_view(tv@)) == args_mismatches(
            a.take(n as int),
            p.take(n as int),
            vt_view(tv@),
        ));
    }
    let mut out: Vec<VarianceMismatch> = Vec::new();
    let mut i: usize = 0;
    proof {
        assert(mismatches_view(out@) =~= args_mismatches(a.take(0), p.take(0), vt_view(tv@)));
    }
    while i < n
        invariant
            i <= n,
            n <= a.len(),
            n <= p.len(),
            a == views(args@),
            p == views(params@),
            mismatches_view(out@) == args_mismatches(a.take(i as int), p.take(i as int), vt_view(tv@)),
        decreases n - i,
    {
        proof {
            lemma_zip_prefix(a, p, i as int);
        }
        let av = find_variance(tv, args[i].as_slice());
        let ev = find_variance(tv, params[i].as_slice());
        match (av, ev) {
            (Some(x), Some(y)) => {
                if !matches!(x, Variance::Invariant) && x != y {
                    push_mismatch(&mut out, args[i].as_slice(), x, y);
                }
            },
            _ => {},
        }
        proof {
            assert(mismatches_view(out@) =~= args_mismatches(
                a.take(i + 1),
                p.take(i + 1),
                vt_view(tv@),
            ));
        }
        i += 1;
    }
    out
}

/// Collects the alias arguments that are type variables, in order.
fn collect_free_typevars(ats: &Vec<Vec<char>>, tv: &Vec<(Vec<char>, Variance)>) -> (r: Vec<Vec<char>>)
    ensures
        views(r@) == free_typevars(views(ats@), vt_view(tv@)),
{
    let ghost a = views(ats@);
    let mut out: Vec<Vec<char>> = Vec::new();
    let mut i: usize = 0;
    while i < ats.len()
        invariant
            i <= ats@.len(),
            a == views(ats@),
            views(out@) == free_typevars(a.take(i as int), vt_view(tv@)),
        decreases ats.len() - i,
    {
        proof {
            assert(a.take(i + 1).drop_last() =~= a.take(i as int));
            assert(a.take(i + 1).last() == ats@[i as int]@);
        }
        if find_variance(tv, ats[i].as_slice()).is_some() {
            out.push(copy_text(ats[i].as_slice()));
        }
        proof {
            assert(views(out@) =~= free_typevars(a.take(i + 1), vt_view(tv@)));
        }
        i += 1;
    }
    proof {
        assert(a.take(i as int) =~= a);
    }
    out
}

/// The substitution of names, as `substitution` states.
fn name_substitution(free: &Vec<Vec<char>>, provided: &Vec<Vec<char>>) -> (r: Vec<(Vec<char>, Vec<char>)>)
    ensures
        crate::generic_calls::pairs_view(r@) == substitution(views(free@), views(provided@)),
{
    let ghost f = views(free@);
    let ghost p = views(provided@);
    let n = if free.len() < provided.len() {
        free.len()
    } else {
        provided.len()
    };
    proof {
        if f.len() == 0 || p.len() == 0 {
            assert(f.take(n as int).len() == 0 || p.take(n as int).len() == 0);
        } else if f.len() != p.len() {
        } else {
            assert(f.take(n as int) =~= f);
            assert(p.take(n as int) =~= p);
        }
        assert(substitution(f, p) == substitution(f.take(n as int), p.take(n as int)));
    }
    let mut out: Vec<(Vec<char>, Vec<char>)> = Vec::new();
    let mut i: usize = 0;
    proof {
        assert(crate::generic_calls::pairs_view(out@) =~= substitution(f.take(0), p.take(0)));
    }
    while i < n
        invariant
            i <= n,
            n <= f.len(),
            n <= p.len(),
            f == views(free@),
            p == views(provided@),
            crate::generic_calls::pairs_view(out@) == substitution(f.take(i as int), p.take(i as int)),
        decreases n - i,
    {
        proof {
            lemma_zip_prefix(f, p, i as int);
        }
        let ghost mv = crate::generic_calls::pairs_view(out@);
        let k = copy_text(free[i].as_slice());
        let v = copy_text(provided[i].as_slice());
        let found = assoc_find(&out, k.as_slice());
        proof {
            lemma_found_index(out@, mv, k@, found);
        }
        match found {
            Some(j) => {
                out.set(j, (k, v));
                proof {
                    assert(crate::generic_calls::pairs_view(out@) =~= mv.update(j as int, (f[i as int], p[i as int])));
                }
            },
            None => {
                out.push((k, v));
                proof {
                    assert(crate::generic_calls::pairs_view(out@) =~= mv.push((f[i as int], p[i as int])));
                }
            },
        }
        i += 1;
    }
    out
}

/// The alias arguments with a name substitution applied.
fn apply_name_substitution(ats: &Vec<Vec<char>>, sub: &Vec<(Vec<char>, Vec<char>)>) -> (r: Vec<Vec<char>>)
    ensures
        views(r@) == substituted_names(views(ats@), crate::generic_calls::pairs_view(sub@)),
{
    let ghost sv = crate::generic_calls::pairs_view(sub@);
    let mut out: Vec<Vec<char>> = Vec::new();
    let mut i: usize = 0;
    while i < ats.len()
        invariant
            i <= ats@.len(),
            sv == crate::generic_calls::pairs_view(sub@),
            views(out@) == substituted_names(views(ats@), sv).take(i as int),
        decreases ats.len() - i,
    {
        let f = assoc_find(sub, ats[i].as_slice());
        proof {
            lemma_found_index(sub@, sv, ats@[i as int]@, f);
        }
        let x = match f {
            Some(j) => {
                proof {
                    assert(sv[j as int] == (sub@[j as int].0@, sub@[j as int].1@));
                }
                copy_text(sub[j].1.as_slice())
            },
            None => copy_text(ats[i].as_slice()),
        };
        let ghost before = views(out@);
        out.push(x);
        proof {
            assert(x@ == substituted_names(views(ats@), sv)[i as int]);
            assert(views(out@) =~= before.push(x@));
            assert(views(out@) =~= substituted_names(views(ats@), sv).take(i + 1));
        }
        i += 1;
    }
    proof {
        assert(substituted_names(views(ats@), sv).take(i as int) =~= substituted_names(views(ats@), sv));
    }
    out
}

/// `resolve_alias_and_check`, as `alias_mismatches` states.
pub fn resolve_alias_and_check(t: &TypeTables, name: &[char], provided: &Vec<Vec<char>>, depth: usize) -> (r: Option<
    Vec<VarianceMismatch>,
>)
    ensures
        match r {
            Some(v) => alias_mismatches(t@, name@, views(provided@), depth as nat) == Some(mismatches_view(v@)),
            None => alias_mismatches(t@, name@, views(provided@), depth as nat) is None,
        },
    decreases 11 - depth,
{
    if depth > 10 {
        return None;
    }
    let e = match find_alias(&t.aliases, name) {
        Some(e) => e,
        None => return None,
    };
    let free = collect_free_typevars(&e.1, &t.variances);
    let sub = name_substitution(&free, provided);
    let eff = apply_name_substitution(&e.1, &sub);
    match find_class_params(&t.class_params, e.0.as_slice()) {
        Some(params) => Some(check_args_against_params(&eff, params, &t.variances)),
        None => resolve_alias_and_check(t, e.0.as_slice(), &eff, depth + 1),
    }
}

/// `resolve_and_check`, as `flat_mismatches` states.
pub fn resolve_and_check(t: &TypeTables, base: &[char], names: &Vec<Vec<char>>) -> (r: Option<
    Vec<VarianceMismatch>,
>)
    ensures
        match r {
            Some(v) => flat_mismatches(t@, base@, views(names@)) == Some(mismatches_view(v@)),
            None => flat_mismatches(t@, base@, views(names@)) is None,
        },
{
    match find_class_params(&t.class_params, base) {
        Some(params) => Some(check_args_against_params(names, params, &t.variances)),
        None => resolve_alias_and_check(t, base, names, 0),
    }
}

// ---------------------------------------------------------------------------
// Rich arguments
// ---------------------------------------------------------------------------

pub proof fn lemma_targs_view(ts: Seq<TypeArg>)
    ensures
        targs_view(ts).len() == ts.len(),
        forall|i: int| 0 <= i < ts.len() ==> #[trigger] targs_view(ts)[i] == targ_view(ts[i]),
    decreases ts.len(),
{
    if ts.len() > 0 {
        lemma_targs_view(ts.drop_last());
    }
}

/// A copy of a type argument.
pub fn copy_type_arg(t: &TypeArg) -> (r: TypeArg)
    ensures
        targ_view(r) == targ_view(*t),
    decreases t,
{
    match t {
        TypeArg::Simple(n) => TypeArg::Simple(copy_text(n.as_slice())),
        TypeArg::Subscript { base, args } => {
            proof {
                assert(decreases_to!(*t => t->args));
            }
            TypeArg::Subscript { base: copy_text(base.as_slice()), args: copy_type_args(args) }
        },
    }
}

pub fn copy_type_args(ts: &Vec<TypeArg>) -> (r: Vec<TypeArg>)
    ensures
        targs_view(r@) == targs_view(ts@),
    decreases ts,
{
    let mut out: Vec<TypeArg> = Vec::new();
    let mut i: usize = 0;
    while i < ts.len()
        invariant
            i <= ts@.len(),
            targs_view(out@) == targs_view(ts@.take(i as int)),
        decreases ts.len() - i,
    {
        proof {
            vstd::std_specs::vec::axiom_vec_index_decreases(*ts, i as int);
        }
        let x = copy_type_arg(&ts[i]);
        let ghost before = out@;
        out.push(x);
        proof {
            assert(out@.drop_last() =~= before);
            assert(ts@.take(i + 1).drop_last() =~= ts@.take(i as int));
            assert(ts@.take(i + 1).last() == ts@[i as int]);
        }
        i += 1;
    }
    proof {
        assert(ts@.take(i as int) =~= ts@);
    }
    out
}

pub open spec fn targ_table(m: Seq<(Vec<char>, TypeArg)>) -> Seq<(Seq<char>, TypeArgV)> {
    m.map_values(|e: (Vec<char>, TypeArg)| (e.0@, targ_view(e.1)))
}

/// The substitution of argument trees, as `substitution` states.
fn targ_substitution(free: &Vec<Vec<char>>, provided: &Vec<TypeArg>) -> (r: Vec<(Vec<char>, TypeArg)>)
    ensures
        targ_table(r@) == substitution(views(free@), targs_view(provided@)),
{
    let ghost f = views(free@);
    let ghost p = targs_view(provided@);
    proof {
        lemma_targs_view(provided@);
    }
    let n = if free.len() < provided.len() {
        free.len()
    } else {
        provided.len()
    };
    proof {
        if f.len() == 0 || p.len() == 0 {
            assert(f.take(n as int).len() == 0 || p.take(n as int).len() == 0);
        } else if f.len() != p.len() {
        } else {
            assert(f.take(n as int) =~= f);
            assert(p.take(n as int) =~= p);
        }
        assert(substitution(f, p) == substitution(f.take(n as int), p.take(n as int)));
    }
    let mut out: Vec<(Vec<char>, TypeArg)> = Vec::new();
    let mut i: usize = 0;
    proof {
        assert(targ_table(out@) =~= substitution(f.take(0), p.take(0)));
    }
    while i < n
        invariant
            i <= n,
            n <= f.len(),
            n <= p.len(),
            f == views(free@),
            p == targs_view(provided@),
            p.len() == provided@.len(),
            forall|j: int| 0 <= j < provided@.len() ==> #[trigger] p[j] == targ_view(provided@[j]),
            targ_table(out@) == substitution(f.take(i as int), p.take(i as int)),
        decreases n - i,
    {
        proof {
            lemma_zip_prefix(f, p, i as int);
        }
        let ghost mv = targ_table(out@);
        let k = copy_text(free[i].as_slice());
        let v = copy_type_arg(&provided[i]);
        let found = assoc_find(&out, k.as_slice());
        proof {
            lemma_found_index(out@, mv, k@, found);
        }
        match found {
            Some(j) => {
                out.set(j, (k, v));
                proof {
                    assert(targ_table(out@) =~= mv.update(j as int, (f[i as int], p[i as int])));
                }
            },
            None => {
                out.push((k, v));
                proof {
                    assert(targ_table(out@) =~= mv.push((f[i as int], p[i as int])));
                }
            },
        }
        i += 1;
    }
    out
}

/// The alias arguments with a tree substitution applied.
fn apply_targ_substitution(ats: &Vec<Vec<char>>, sub: &Vec<(Vec<char>, TypeArg)>) -> (r: Vec<TypeArg>)
    ensures
        targs_view(r@) == substituted_args(views(ats@), targ_table(sub@)),
{
    let ghost sv = targ_table(sub@);
    let ghost want = substituted_args(views(ats@), sv);
    let mut out: Vec<TypeArg> = Vec::new();
    let mut i: usize = 0;
    while i < ats.len()
        invariant
            i <= ats@.len(),
            sv == targ_table(sub@),
            want == substituted_args(views(ats@), sv),
            targs_view(out@) == want.take(i as int),
        decreases ats.len() - i,
    {
        let f = assoc_find(sub, ats[i].as_slice());
        proof {
            lemma_found_index(sub@, sv, ats@[i as int]@, f);
        }
        let x = match f {
            Some(j) => {
                proof {
                    assert(sv[j as int] == (sub@[j as int].0@, targ_view(sub@[j as int].1)));
                }
                copy_type_arg(&sub[j].1)
            },
            None => TypeArg::Simple(copy_text(ats[i].as_slice())),
        };
        let ghost before = out@;
        out.push(x);
        proof {
            assert(out@.drop_last() =~= before);
            assert(targ_view(x) == want[i as int]);
            assert(want.take(i + 1) =~= want.take(i as int).push(want[i as int]));
        }
        i += 1;
    }
    proof {
        assert(want.take(i as int) =~= want);
    }
    out
}

pub open spec fn leaf_view(v: Seq<(Vec<char>, Variance)>) -> Seq<(Seq<char>, Variance)> {
    v.map_values(|e: (Vec<char>, Variance)| (e.0@, e.1))
}

/// `collect_leaf_variances`, as `leaves` states: appends to `out`. The
/// aliases must not lead back to themselves, or the expansion would not end.
pub fn collect_leaf_variances(t: &TypeArg, acc: Variance, tb: &TypeTables, out: &mut Vec<(Vec<char>, Variance)>)
    requires
        aliases_acyclic(tb@.aliases),
    ensures
        leaf_view(final(out)@) == leaf_view(old(out)@) + leaves(targ_view(*t), acc, tb@),
    decreases 2 * targ_height(targ_view(*t)) + 1, base_hops(tb@.aliases, targ_view(*t)),
{
    match t {
        TypeArg::Simple(n) => {
            match find_variance(&tb.variances, n.as_slice()) {
                Some(v) => {
                    let e = (copy_text(n.as_slice()), compose_variance(acc, v));
                    out.push(e);
                    proof {
                        assert(leaf_view(out@) =~= leaf_view(old(out)@) + seq![(e.0@, e.1)]);
                    }
                },
                None => {
                    proof {
                        assert(leaf_view(out@) =~= leaf_view(old(out)@) + Seq::empty());
                    }
                },
            }
        },
        TypeArg::Subscript { base, args } => {
            proof {
                lemma_targs_view(args@);
            }
            match find_class_params(&tb.class_params, base.as_slice()) {
                Some(params) => {
                    collect_zip(args, params, acc, tb, out);
                },
                None => match find_alias(&tb.aliases, base.as_slice()) {
                    Some(e) => {
                        let free = collect_free_typevars(&e.1, &tb.variances);
                        let sub = targ_substitution(&free, args);
                        let eff = apply_targ_substitution(&e.1, &sub);
                        let expanded = TypeArg::Subscript { base: copy_text(e.0.as_slice()), args: eff };
                        proof {
                            lemma_substituted_height(
                                views(e.1@),
                                free_typevars(views(e.1@), tb@.variances),
                                targs_view(args@),
                            );
                            lemma_hops_step(tb@.aliases, base@);
                        }
                        collect_leaf_variances(&expanded, acc, tb, out);
                    },
                    None => {
                        proof {
                            assert(leaf_view(out@) =~= leaf_view(old(out)@) + Seq::empty());
                        }
                    },
                },
            }
        },
    }
}

/// The leaves of arguments paired with parameters, as `leaves_zip` states.
fn collect_zip(
    args: &Vec<TypeArg>,
    params: &Vec<Vec<char>>,
    acc: Variance,
    tb: &TypeTables,
    out: &mut Vec<(Vec<char>, Variance)>,
)
    requires
        aliases_acyclic(tb@.aliases),
    ensures
        leaf_view(final(out)@) == leaf_view(old(out)@) + leaves_zip(
            targs_view(args@),
            views(params@),
            acc,
            tb@,
        ),
    decreases 2 * max_height(targs_view(args@)) + 2, args@.len() + params@.len(),
{
    let ghost a = targs_view(args@);
    let ghost p = views(params@);
    proof {
        lemma_targs_view(args@);
    }
    let n = if args.len() < params.len() {
        args.len()
    } else {
        params.len()
    };
    proof {
        if a.len() == 0 || p.len() == 0 {
            assert(a.take(n as int).len() == 0 || p.take(n as int).len() == 0);
        } else if a.len() != p.len() {
        } else {
            assert(a.take(n as int) =~= a);
            assert(p.take(n as int) =~= p);
        }
        assert(leaves_zip(a, p, acc, tb@) == leaves_zip(a.take(n as int), p.take(n as int), acc, tb@));
    }
    let ghost start = leaf_view(out@);
    let mut i: usize = 0;
    proof {
        assert(leaf_view(out@) =~= start + leaves_zip(a.take(0), p.take(0), acc, tb@));
    }
    while i < n
        invariant
            i <= n,
            n <= a.len(),
            n <= p.len(),
            a == targs_view(args@),
            a.len() == args@.len(),
            forall|j: int| 0 <= j < args@.len() ==> #[trigger] a[j] == targ_view(args@[j]),
            p == views(params@),
            aliases_acyclic(tb@.aliases),
            leaf_view(out@) == start + leaves_zip(a.take(i as int), p.take(i as int), acc, tb@),
        decreases n - i,
    {
        proof {
            lemma_zip_prefix(a, p, i as int);
            lemma_max_height_elem(a, i as int);
        }
        let pv = match find_variance(&tb.variances, params[i].as_slice()) {
            Some(v) => v,
            None => Variance::Invariant,
        };
        let ghost mid = leaf_view(out@);
        collect_leaf_variances(&args[i], compose_variance(acc, pv), tb, out);
        proof {
            assert(leaves_zip(a.take(i + 1), p.take(i + 1), acc, tb@) == leaves_zip(
                a.take(i as int),
                p.take(i as int),
                acc,
                tb@,
            ) + leaves(a[i as int], compose(acc, pv), tb@));
        }
        i += 1;
    }
}

/// `check_rich_args_against_params`, as `rich_arg_mismatches` states.
pub fn check_rich_args_against_params(args: &Vec<TypeArg>, params: &Vec<Vec<char>>, tb: &TypeTables) -> (r: Vec<
    VarianceMismatch,
>)
    requires
        aliases_acyclic(tb@.aliases),
    ensures
        mismatches_view(r@) == rich_arg_mismatches(targs_view(args@), views(params@), tb@),
{
    let ghost a = targs_view(args@);
    let ghost p = views(params@);
    proof {
        lemma_targs_view(args@);
    }
    let n = if args.len() < params.len() {
        args.len()
    } else {
        params.len()
    };
    proof {
        if a.len() == 0 || p.len() == 0 {
            assert(a.take(n as int).len() == 0 || p.take(n as int).len() == 0);
        } else if a.len() != p.len() {
        } else {
            assert(a.take(n as int) =~= a);
            assert(p.take(n as int) =~= p);
        }
        assert(rich_arg_mismatches(a, p, tb@) == rich_arg_mismatches(a.take(n as int), p.take(n as int), tb@));
    }
    let mut out: Vec<VarianceMismatch> = Vec::new();
    let mut i: usize = 0;
    proof {
        assert(mismatches_view(out@) =~= rich_arg_mismatches(a.take(0), p.take(0), tb@));
    }
    while i < n
        invariant
            i <= n,
            n <= a.len(),
            n <= p.len(),
            a == targs_view(args@),
            a.len() == args@.len(),
            forall|j: int| 0 <= j < args@.len() ==> #[trigger] a[j] == targ_view(args@[j]),
            p == views(params@),
            aliases_acyclic(tb@.aliases),
            mismatches_view(out@) == rich_arg_mismatches(a.take(i as int), p.take(i as int), tb@),
        decreases n - i,
    {
        proof {
            lemma_zip_prefix(a, p, i as int);
        }
        let ghost before = mismatches_view(out@);
        match find_variance(&tb.variances, params[i].as_slice()) {
            None => {},
            Some(ev) => {
                let mut ls: Vec<(Vec<char>, Variance)> = Vec::new();
                proof {
                    assert(leaf_view(ls@) =~= Seq::empty());
                }
                collect_leaf_variances(&args[i], Variance::Covariant, tb, &mut ls);
                proof {
                    assert(leaf_view(ls@) =~= leaves(a[i as int], Variance::Covariant, tb@));
                }
                let mut k: usize = 0;
                while k < ls.len()
                    invariant
                        k <= ls@.len(),
                        mismatches_view(out@) == before + leaf_mismatches(leaf_view(ls@).take(k as int), ev),
                    decreases ls.len() - k,
                {
                    proof {
                        assert(leaf_view(ls@).take(k + 1).drop_last() =~= leaf_view(ls@).take(k as int));
                        assert(leaf_view(ls@).take(k + 1).last() == (ls@[k as int].0@, ls@[k as int].1));
                    }
                    let v = ls[k].1;
                    if !matches!(v, Variance::Invariant) && v != ev {
                        push_mismatch(&mut out, ls[k].0.as_slice(), v, ev);
                    }
                    k += 1;
                }
                proof {
                    assert(leaf_view(ls@).take(k as int) =~= leaf_view(ls@));
                }
            },
        }
        proof {
            assert(mismatches_view(out@) =~= rich_arg_mismatches(a.take(i + 1), p.take(i + 1), tb@));
        }
        i += 1;
    }
    out
}

/// `expand_alias_rich`, as `expand_rich` states.
pub fn expand_alias_rich(tb: &TypeTables, name: &[char], provided: &Vec<TypeArg>, depth: usize) -> (r: Option<
    (Vec<char>, Vec<TypeArg>),
>)
    ensures
        match r {
            Some(x) => expand_rich(tb@, name@, targs_view(provided@), depth as nat) == Some(
                (x.0@, targs_view(x.1@)),
            ),
            None => expand_rich(tb@, name@, targs_view(provided@), depth as nat) is None,
        },
    decreases 11 - depth,
{
    if depth > 10 {
        return None;
    }
    let e = match find_alias(&tb.aliases, name) {
        Some(e) => e,
        None => return None,
    };
    let free = collect_free_typevars(&e.1, &tb.variances);
    let sub = targ_substitution(&free, provided);
    let eff = apply_targ_substitution(&e.1, &sub);
    if find_alias(&tb.aliases, e.0.as_slice()).is_some() {
        expand_alias_rich(tb, e.0.as_slice(), &eff, depth + 1)
    } else {
        Some((copy_text(e.0.as_slice()), eff))
    }
}

/// `resolve_and_check_rich`, as `rich_mismatches` states.
pub fn resolve_and_check_rich(tb: &TypeTables, base: &[char], args: &Vec<TypeArg>) -> (r: Option<
    Vec<VarianceMismatch>,
>)
    requires
        aliases_acyclic(tb@.aliases),
    ensures
        match r {
            Some(v) => rich_mismatches(tb@, base@, targs_view(args@)) == Some(mismatches_view(v@)),
            None => rich_mismatches(tb@, base@, targs_view(args@)) is None,
        },
{
    if let Some(params) = find_class_params(&tb.class_params, base) {
        return Some(check_rich_args_against_params(args, params, tb));
    }
    match expand_alias_rich(tb, base, args, 0) {
        None => None,
        Some((b2, a2)) => match find_class_params(&tb.class_params, b2.as_slice()) {
            Some(ps) => Some(check_rich_args_against_params(&a2, ps, tb)),
            None => None,
        },
    }
}

/// One class's subscripted base with its violations; the span is that of
/// the subscript.
pub struct BaseVarianceReport {
    pub base_name: Vec<char>,
    pub violations: Vec<VarianceMismatch>,
    pub span: Span,
}

impl View for BaseVarianceReport {
    type V = (Seq<char>, Seq<(Seq<char>, Variance, Variance)>, Span);

    open spec fn view(&self) -> Self::V {
        (self.base_name@, mismatches_view(self.violations@), self.span)
    }
}

/// How a message describes one violation.
pub open spec fn mismatch_detail(v: (Seq<char>, Variance, Variance)) -> Seq<char> {
    "`"@ + v.0 + "` is "@ + crate::variance::variance_label(v.1) + " but the corresponding type parameter is "@
        + crate::variance::variance_label(v.2)
}

/// The text of a finding: the base, then each violation, separated by `; `.
pub open spec fn base_variance_message(r: (Seq<char>, Seq<(Seq<char>, Variance, Variance)>, Span)) -> Seq<char> {
    "Variance incompatibility in base class `"@ + r.0 + "`: "@ + crate::text::join_sep(
        r.1.map_values(|v: (Seq<char>, Variance, Variance)| mismatch_detail(v)),
        "; "@,
    )
}

impl BaseVarianceReport {
    /// The finding's message.
    pub fn message(&self) -> (r: Vec<char>)
        ensures
            r@ == base_variance_message(self@),
    {
        let ghost ds = mismatches_view(self.violations@).map_values(
            |v: (Seq<char>, Variance, Variance)| mismatch_detail(v),
        );
        let mut details: Vec<Vec<char>> = Vec::new();
        let mut i: usize = 0;
        while i < self.violations.len()
            invariant
                i <= self.violations@.len(),
                ds == mismatches_view(self.violations@).map_values(
                    |v: (Seq<char>, Variance, Variance)| mismatch_detail(v),
                ),
                crate::text::views(details@) =~= ds.take(i as int),
            decreases self.violations@.len() - i,
        {
            let v = &self.violations[i];
            let mut d = crate::text::chars_of("`");
            crate::text::push_chars(&mut d, v.arg_name.as_slice());
            crate::text::push_lit(&mut d, "` is ");
            crate::variance::push_variance(&mut d, v.arg_variance);
            crate::text::push_lit(&mut d, " but the corresponding type parameter is ");
            crate::variance::push_variance(&mut d, v.expected_variance);
            let ghost before = details@;
            details.push(d);
            proof {
                assert(mismatches_view(self.violations@)[i as int] == self.violations@[i as int]@);
                assert(crate::text::views(details@) =~= crate::text::views(before).push(d@));
                assert(ds.take(i + 1) =~= ds.take(i as int).push(ds[i as int]));
            }
            i += 1;
        }
        proof {
            assert(ds.take(i as int) =~= ds);
        }
        let mut m = crate::text::chars_of("Variance incompatibility in base class `");
        crate::text::push_chars(&mut m, self.base_name.as_slice());
        crate::text::push_lit(&mut m, "`: ");
        crate::text::push_joined_sep(&mut m, &details, "; ");
        m
    }
}

/// Variance incompatibility in base class parameterisation.
pub struct VarianceIncompatibleBase;

impl VarianceIncompatibleBase {
    /// The reports of every class's subscripted bases, in order, as
    /// `module_reports` states. Aliases must not lead back to themselves.
    pub fn check(
        &self,
        classes: &Vec<GenericClassDecl>,
        typevars: &Vec<VarianceDecl>,
        aliases: &Vec<AliasDef>,
    ) -> (r: Vec<BaseVarianceReport>)
        requires
            aliases_acyclic(alias_table(aliases@)),
        ensures
            r@.map_values(|x: BaseVarianceReport| x@) == module_reports(
                module_tables(classes@, typevars@, aliases@),
                classes@,
            ),
    {
        let tb = build_tables(classes, typevars, aliases);
        let ghost tbv = tb@;
        let mut out: Vec<BaseVarianceReport> = Vec::new();
        let mut k: usize = 0;
        while k < classes.len()
            invariant
                k <= classes@.len(),
                tbv == tb@,
                aliases_acyclic(tbv.aliases),
                out@.map_values(|x: BaseVarianceReport| x@) == module_reports(tbv, classes@.take(k as int)),
            decreases classes.len() - k,
        {
            proof {
                assert(classes@.take(k + 1).drop_last() =~= classes@.take(k as int));
                assert(classes@.take(k + 1).last() == classes@[k as int]);
            }
            let c = &classes[k];
            let ghost es = c.base_subscripts@;
            let ghost before = out@.map_values(|x: BaseVarianceReport| x@);
            let mut j: usize = 0;
            while j < c.base_subscripts.len()
                invariant
                    j <= es.len(),
                    es == c.base_subscripts@,
                    tbv == tb@,
                    aliases_acyclic(tbv.aliases),
                    out@.map_values(|x: BaseVarianceReport| x@) == before + entries_reports(tbv, es.take(j as int)),
                decreases c.base_subscripts.len() - j,
            {
                proof {
                    assert(es.take(j + 1).drop_last() =~= es.take(j as int));
                    assert(es.take(j + 1).last() == es[j as int]);
                }
                let e = &c.base_subscripts[j];
                let found = if e.type_args.len() == 0 {
                    resolve_and_check(&tb, e.base_name.as_slice(), &e.type_arg_names)
                } else {
                    resolve_and_check_rich(&tb, e.base_name.as_slice(), &e.type_args)
                };
                let ghost mid = out@.map_values(|x: BaseVarianceReport| x@);
                if let Some(v) = found {
                    if v.len() > 0 {
                        out.push(BaseVarianceReport { base_name: copy_text(e.base_name.as_slice()), violations: v, span: e.span });
                        proof {
                            assert(out@.map_values(|x: BaseVarianceReport| x@) =~= mid.push(out@.last()@));
                        }
                    }
                }
                proof {
                    assert(out@.map_values(|x: BaseVarianceReport| x@) =~= before + entries_reports(
                        tbv,
                        es.take(j + 1),
                    ));
                }
                j += 1;
            }
            proof {
                assert(es.take(j as int) =~= es);
            }
            k += 1;
        }
        proof {
            assert(classes@.take(k as int) =~= classes@);
        }
        out
    }
}

} // verus!

verus! {

fn alias_hops_end(m: &Vec<(Vec<char>, (Vec<char>, Vec<Vec<char>>))>, name: &[char], fuel: usize) -> (r: bool)
    ensures
        r == (alias_hops(ai_view(m@), name@, fuel as nat) is Some),
    decreases fuel,
{
    match find_alias(m, name) {
        None => true,
        Some(e) => {
            if fuel == 0 {
                false
            } else {
                alias_hops_end(m, e.0.as_slice(), fuel - 1)
            }
        },
    }
}

/// Whether `VarianceIncompatibleBase::check` may be called: no alias leads
/// back to itself.
pub fn aliases_are_acyclic(aliases: &Vec<AliasDef>) -> (r: bool)
    ensures
        r == aliases_acyclic(alias_table(aliases@)),
{
    let tb = build_tables(&Vec::new(), &Vec::new(), aliases);
    let m = &tb.aliases;
    let ghost ai = ai_view(m@);
    proof {
        assert(ai == alias_table(aliases@));
    }
    let mut k: usize = 0;
    while k < m.len()
        invariant
            k <= m@.len(),
            ai == ai_view(m@),
            ai == alias_table(aliases@),
            ai.len() == m@.len(),
            forall|j: int| 0 <= j < k ==> (#[trigger] alias_hops(ai, ai[j].0, ai.len())) is Some,
        decreases m.len() - k,
    {
        proof {
            assert(ai[k as int].0 == m@[k as int].0@);
        }
        if !alias_hops_end(m, m[k].0.as_slice(), m.len()) {
            assert(!(alias_hops(ai, ai[k as int].0, ai.len()) is Some));
            return false;
        }
        k += 1;
    }
    true
}

impl VarianceIncompatibleBase {
    /// `check` where no alias leads back to itself, `None` where one does.
    pub fn check_if_acyclic(
        &self,
        classes: &Vec<GenericClassDecl>,
        typevars: &Vec<VarianceDecl>,
        aliases: &Vec<AliasDef>,
    ) -> (r: Option<Vec<BaseVarianceReport>>)
        ensures
            r is None <==> !aliases_acyclic(alias_table(aliases@)),
            r matches Some(v) ==> v@.map_values(|x: BaseVarianceReport| x@) == module_reports(
                module_tables(classes@, typevars@, aliases@),
                classes@,
            ),
    {
        if aliases_are_acyclic(aliases) {
            Some(self.check(classes, typevars, aliases))
        } else {
            None
        }
    }
}

} // verus!
