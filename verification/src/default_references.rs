//! A `TypeVar` whose default is another `TypeVar` (PEP 696): the default
//! must come first, and its bound and constraints must fit those of the
//! `TypeVar` it is the default of.
use vstd::prelude::*;

use crate::assoc::{assoc_find, assoc_get, assoc_insert, lemma_found_index};
use crate::module::copy_text;
use crate::position::Span;
use crate::text::{eq_chars, views};
use crate::variance::{is_numeric_subtype, numeric_subtype};

verus! {

/// `is_subtype_for_bound`: the numeric tower.
pub open spec fn bound_subtype(t1: Seq<char>, t2: Seq<char>) -> bool {
    numeric_subtype(t1, t2)
}

pub fn is_subtype_for_bound(t1: &[char], t2: &[char]) -> (r: bool)
    ensures
        r == bound_subtype(t1@, t2@),
{
    is_numeric_subtype(t1, t2)
}

/// `is_constraint_subset`: every constraint of `c1` is one of `c2`.
pub open spec fn constraint_subset(c1: Seq<Seq<char>>, c2: Seq<Seq<char>>) -> bool {
    forall|i: int| 0 <= i < c1.len() ==> c2.contains(#[trigger] c1[i])
}

fn contains_name(c: &Vec<Vec<char>>, x: &[char]) -> (r: bool)
    ensures
        r == views(c@).contains(x@),
{
    let mut i: usize = 0;
    while i < c.len()
        invariant
            i <= c@.len(),
            forall|j: int| 0 <= j < i ==> views(c@)[j] != x@,
        decreases c.len() - i,
    {
        if eq_chars(c[i].as_slice(), x) {
            assert(views(c@)[i as int] == x@);
            return true;
        }
        i += 1;
    }
    false
}

pub fn is_constraint_subset(c1: &Vec<Vec<char>>, c2: &Vec<Vec<char>>) -> (r: bool)
    ensures
        r == constraint_subset(views(c1@), views(c2@)),
{
    let mut i: usize = 0;
    while i < c1.len()
        invariant
            i <= c1@.len(),
            forall|j: int| 0 <= j < i ==> views(c2@).contains(#[trigger] views(c1@)[j]),
        decreases c1.len() - i,
    {
        if !contains_name(c2, c1[i].as_slice()) {
            assert(!views(c2@).contains(views(c1@)[i as int]));
            return false;
        }
        i += 1;
    }
    true
}

/// `format_constraints`: each constraint in backticks, joined by `", "`.
pub open spec fn formatted_constraints(cs: Seq<Seq<char>>) -> Seq<char>
    decreases cs.len(),
{
    if cs.len() == 0 {
        Seq::empty()
    } else if cs.len() == 1 {
        seq!['`'] + cs[0] + seq!['`']
    } else {
        formatted_constraints(cs.drop_last()) + seq![',', ' ', '`'] + cs.last() + seq!['`']
    }
}

fn push_all(out: &mut Vec<char>, s: &[char])
    ensures
        final(out)@ == old(out)@ + s@,
{
    let mut i: usize = 0;
    while i < s.len()
        invariant
            i <= s@.len(),
            out@ == old(out)@ + s@.take(i as int),
        decreases s.len() - i,
    {
        out.push(s[i]);
        proof {
            assert(s@.take(i + 1) =~= s@.take(i as int).push(s@[i as int]));
        }
        i += 1;
    }
    proof {
        assert(s@.take(i as int) =~= s@);
    }
}

pub fn format_constraints(cs: &Vec<Vec<char>>) -> (r: Vec<char>)
    ensures
        r@ == formatted_constraints(views(cs@)),
{
    let ghost v = views(cs@);
    let mut out: Vec<char> = Vec::new();
    let mut i: usize = 0;
    while i < cs.len()
        invariant
            i <= cs@.len(),
            v == views(cs@),
            out@ == formatted_constraints(v.take(i as int)),
        decreases cs.len() - i,
    {
        proof {
            assert(v.take(i + 1).drop_last() =~= v.take(i as int));
            assert(v.take(i + 1).last() == cs@[i as int]@);
        }
        let ghost before = out@;
        if i > 0 {
            out.push(',');
            out.push(' ');
        }
        out.push('`');
        push_all(&mut out, cs[i].as_slice());
        out.push('`');
        proof {
            if i == 0 {
                assert(v.take(1)[0] == cs@[0]@);
                assert(out@ =~= seq!['`'] + cs@[0]@ + seq!['`']);
            } else {
                assert(out@ =~= before + seq![',', ' ', '`'] + cs@[i as int]@ + seq!['`']);
            }
        }
        i += 1;
    }
    proof {
        assert(v.take(i as int) =~= v);
    }
    out
}

/// A `TypeVar` declaration as the rule reads it.
pub struct DefaultTypeVar {
    pub name: Vec<char>,
    pub span: Span,
    pub is_typevartuple: bool,
    pub is_paramspec: bool,
    pub has_default: bool,
    pub default_type_name: Option<Vec<char>>,
    pub has_bound: bool,
    pub bound_type_name: Option<Vec<char>>,
    pub constraint_type_names: Vec<Vec<char>>,
}

pub open spec fn plain(d: DefaultTypeVar) -> bool {
    !d.is_typevartuple && !d.is_paramspec
}

/// What is wrong with a default.
pub enum DefaultIssue {
    /// The default does not come before the `TypeVar`.
    OutOfOrder,
    /// The default's bound is not a subtype of the `TypeVar`'s bound.
    BoundNotSubtype { default_bound: Vec<char>, bound: Vec<char> },
    /// The default's constraints are not among the `TypeVar`'s.
    ConstraintsNotSubset { default_constraints: Vec<char>, constraints: Vec<char> },
    /// The default's bound fits none of the `TypeVar`'s constraints.
    BoundVsConstraints { default_bound: Vec<char>, constraints: Vec<char> },
    /// Some constraint of the default is not a subtype of the `TypeVar`'s
    /// bound.
    ConstraintsVsBound { default_constraints: Vec<char>, bound: Vec<char> },
}

pub enum DefaultFinding {
    OutOfOrder,
    BoundNotSubtype(Seq<char>, Seq<char>),
    ConstraintsNotSubset(Seq<char>, Seq<char>),
    BoundVsConstraints(Seq<char>, Seq<char>),
    ConstraintsVsBound(Seq<char>, Seq<char>),
}

impl View for DefaultIssue {
    type V = DefaultFinding;

    open spec fn view(&self) -> DefaultFinding {
        match self {
            DefaultIssue::OutOfOrder => DefaultFinding::OutOfOrder,
            DefaultIssue::BoundNotSubtype { default_bound, bound } => DefaultFinding::BoundNotSubtype(
                default_bound@,
                bound@,
            ),
            DefaultIssue::ConstraintsNotSubset { default_constraints, constraints } => {
                DefaultFinding::ConstraintsNotSubset(default_constraints@, constraints@)
            },
            DefaultIssue::BoundVsConstraints { default_bound, constraints } => {
                DefaultFinding::BoundVsConstraints(default_bound@, constraints@)
            },
            DefaultIssue::ConstraintsVsBound { default_constraints, bound } => {
                DefaultFinding::ConstraintsVsBound(default_constraints@, bound@)
            },
        }
    }
}

/// A finding about `typevar`, whose default is `default_name`; the span is
/// that of the declaration.
pub struct DefaultReport {
    pub issue: DefaultIssue,
    pub typevar: Vec<char>,
    pub default_name: Vec<char>,
    pub span: Span,
}

impl View for DefaultReport {
    type V = (DefaultFinding, Seq<char>, Seq<char>, Span);

    open spec fn view(&self) -> Self::V {
        (self.issue@, self.typevar@, self.default_name@, self.span)
    }
}

/// The text of a finding on `tv`, whose default is `d`.
pub open spec fn default_ref_message(f: DefaultFinding, tv: Seq<char>, d: Seq<char>) -> Seq<char> {
    "`TypeVar` `"@ + tv + "` has `default="@ + d + match f {
        DefaultFinding::OutOfOrder => "` but `"@ + d + "` must appear before `"@ + tv + "` in the parameter list"@,
        DefaultFinding::BoundNotSubtype(db, b) => "` but `"@ + d + "`'s bound `"@ + db + "` is not a subtype of `"@
            + tv + "`'s bound `"@ + b + "`"@,
        DefaultFinding::ConstraintsNotSubset(dc, c) => "` but `"@ + d + "`'s constraints {"@ + dc
            + "} are not a subset of `"@ + tv + "`'s constraints {"@ + c + "}"@,
        DefaultFinding::BoundVsConstraints(db, c) => "` but `"@ + d + "`'s bound `"@ + db
            + "` is incompatible with `"@ + tv + "`'s constraints {"@ + c + "}"@,
        DefaultFinding::ConstraintsVsBound(dc, b) => "` but `"@ + d + "`'s constraints {"@ + dc
            + "} are not all subtypes of `"@ + tv + "`'s bound `"@ + b + "`"@,
    }
}

impl DefaultReport {
    /// The finding's message, naming the type variable and its default.
    pub fn message(&self) -> (r: Vec<char>)
        ensures
            r@ == default_ref_message(self.issue@, self.typevar@, self.default_name@),
    {
        let tv = self.typevar.as_slice();
        let d = self.default_name.as_slice();
        let mut m = crate::text::chars_of("`TypeVar` `");
        crate::text::push_chars(&mut m, tv);
        crate::text::push_lit(&mut m, "` has `default=");
        crate::text::push_chars(&mut m, d);
        crate::text::push_lit(&mut m, "` but `");
        crate::text::push_chars(&mut m, d);
        match &self.issue {
            DefaultIssue::OutOfOrder => {
                crate::text::push_lit(&mut m, "` must appear before `");
                crate::text::push_chars(&mut m, tv);
                crate::text::push_lit(&mut m, "` in the parameter list");
            },
            DefaultIssue::BoundNotSubtype { default_bound, bound } => {
                crate::text::push_lit(&mut m, "`'s bound `");
                crate::text::push_chars(&mut m, default_bound.as_slice());
                crate::text::push_lit(&mut m, "` is not a subtype of `");
                crate::text::push_chars(&mut m, tv);
                crate::text::push_lit(&mut m, "`'s bound `");
                crate::text::push_chars(&mut m, bound.as_slice());
                crate::text::push_lit(&mut m, "`");
            },
            DefaultIssue::ConstraintsNotSubset { default_constraints, constraints } => {
                crate::text::push_lit(&mut m, "`'s constraints {");
                crate::text::push_chars(&mut m, default_constraints.as_slice());
                crate::text::push_lit(&mut m, "} are not a subset of `");
                crate::text::push_chars(&mut m, tv);
                crate::text::push_lit(&mut m, "`'s constraints {");
                crate::text::push_chars(&mut m, constraints.as_slice());
                crate::text::push_lit(&mut m, "}");
            },
            DefaultIssue::BoundVsConstraints { default_bound, constraints } => {
                crate::text::push_lit(&mut m, "`'s bound `");
                crate::text::push_chars(&mut m, default_bound.as_slice());
                crate::text::push_lit(&mut m, "` is incompatible with `");
                crate::text::push_chars(&mut m, tv);
                crate::text::push_lit(&mut m, "`'s constraints {");
                crate::text::push_chars(&mut m, constraints.as_slice());
                crate::text::push_lit(&mut m, "}");
            },
            DefaultIssue::ConstraintsVsBound { default_constraints, bound } => {
                crate::text::push_lit(&mut m, "`'s constraints {");
                crate::text::push_chars(&mut m, default_constraints.as_slice());
                crate::text::push_lit(&mut m, "} are not all subtypes of `");
                crate::text::push_chars(&mut m, tv);
                crate::text::push_lit(&mut m, "`'s bound `");
                crate::text::push_chars(&mut m, bound.as_slice());
                crate::text::push_lit(&mut m, "`");
            },
        }
        m
    }
}

/// Where each plain `TypeVar` is declared, by name; a later declaration
/// wins.
pub open spec fn by_name(ds: Seq<DefaultTypeVar>) -> Seq<(Seq<char>, nat)>
    decreases ds.len(),
{
    if ds.len() == 0 {
        Seq::empty()
    } else {
        let t = by_name(ds.drop_last());
        if plain(ds.last()) {
            assoc_insert(t, ds.last().name@, (ds.len() - 1) as nat)
        } else {
            t
        }
    }
}

/// The position of each plain `TypeVar` among the plain ones; a later
/// declaration of a name wins.
pub open spec fn order_index(ds: Seq<DefaultTypeVar>) -> Seq<(Seq<char>, nat)>
    decreases ds.len(),
{
    if ds.len() == 0 {
        Seq::empty()
    } else {
        let t = order_index(ds.drop_last());
        if plain(ds.last()) {
            assoc_insert(t, ds.last().name@, plain_count(ds.drop_last()))
        } else {
            t
        }
    }
}

pub open spec fn plain_count(ds: Seq<DefaultTypeVar>) -> nat
    decreases ds.len(),
{
    if ds.len() == 0 {
        0
    } else {
        plain_count(ds.drop_last()) + if plain(ds.last()) {
            1nat
        } else {
            0nat
        }
    }
}

pub open spec fn any_bound_fits(db: Seq<char>, cs: Seq<Seq<char>>) -> bool {
    exists|i: int| 0 <= i < cs.len() && bound_subtype(db, #[trigger] cs[i])
}

pub open spec fn all_under_bound(cs: Seq<Seq<char>>, tb: Seq<char>) -> bool {
    forall|i: int| 0 <= i < cs.len() ==> bound_subtype(#[trigger] cs[i], tb)
}

/// The findings for `tv` with default `d`, in the order the checks run.
pub open spec fn default_findings(
    tv: DefaultTypeVar,
    dn: Seq<char>,
    d: DefaultTypeVar,
    oi: Seq<(Seq<char>, nat)>,
) -> Seq<DefaultFinding> {
    let tc = views(tv.constraint_type_names@);
    let dc = views(d.constraint_type_names@);
    let order = match (assoc_get(oi, dn), assoc_get(oi, tv.name@)) {
        (Some(dp), Some(tp)) => if dp >= tp {
            seq![DefaultFinding::OutOfOrder]
        } else {
            Seq::empty()
        },
        _ => Seq::empty(),
    };
    let bound = if tv.has_bound && d.has_bound {
        match (tv.bound_type_name, d.bound_type_name) {
            (Some(tb), Some(db)) => if !bound_subtype(db@, tb@) {
                seq![DefaultFinding::BoundNotSubtype(db@, tb@)]
            } else {
                Seq::empty()
            },
            _ => Seq::empty(),
        }
    } else {
        Seq::empty()
    };
    let subset = if tc.len() > 0 && dc.len() > 0 && !constraint_subset(dc, tc) {
        seq![DefaultFinding::ConstraintsNotSubset(formatted_constraints(dc), formatted_constraints(tc))]
    } else {
        Seq::empty()
    };
    let bvc = if tc.len() > 0 && d.has_bound {
        match d.bound_type_name {
            Some(db) => if !any_bound_fits(db@, tc) {
                seq![DefaultFinding::BoundVsConstraints(db@, formatted_constraints(tc))]
            } else {
                Seq::empty()
            },
            None => Seq::empty(),
        }
    } else {
        Seq::empty()
    };
    let cvb = if tv.has_bound && dc.len() > 0 {
        match tv.bound_type_name {
            Some(tb) => if !all_under_bound(dc, tb@) {
                seq![DefaultFinding::ConstraintsVsBound(formatted_constraints(dc), tb@)]
            } else {
                Seq::empty()
            },
            None => Seq::empty(),
        }
    } else {
        Seq::empty()
    };
    order + bound + subset + bvc + cvb
}

/// The findings for each `TypeVar` with a `TypeVar` default, in order.
pub open spec fn reference_findings(all: Seq<DefaultTypeVar>, ds: Seq<DefaultTypeVar>) -> Seq<
    (DefaultFinding, Seq<char>, Seq<char>, Span),
>
    decreases ds.len(),
{
    if ds.len() == 0 {
        Seq::empty()
    } else {
        let tv = ds.last();
        reference_findings(all, ds.drop_last()) + if plain(tv) && tv.has_default {
            match tv.default_type_name {
                Some(dn) => match assoc_get(by_name(all), dn@) {
                    Some(i) => default_findings(tv, dn@, all[i as int], order_index(all)).map_values(
                        |f: DefaultFinding| (f, tv.name@, dn@, tv.span),
                    ),
                    None => Seq::empty(),
                },
                None => Seq::empty(),
            }
        } else {
            Seq::empty()
        }
    }
}

pub open spec fn index_view(m: Seq<(Vec<char>, usize)>) -> Seq<(Seq<char>, nat)> {
    m.map_values(|e: (Vec<char>, usize)| (e.0@, e.1 as nat))
}

fn index_put(m: &mut Vec<(Vec<char>, usize)>, k: Vec<char>, v: usize)
    ensures
        index_view(final(m)@) == assoc_insert(index_view(old(m)@), k@, v as nat),
{
    let ghost mv = index_view(m@);
    let f = assoc_find(m, k.as_slice());
    proof {
        lemma_found_index(m@, mv, k@, f);
    }
    let ghost entry = (k@, v as nat);
    match f {
        Some(i) => {
            m.set(i, (k, v));
            proof {
                assert(index_view(m@) =~= mv.update(i as int, entry));
            }
        },
        None => {
            m.push((k, v));
            proof {
                assert(index_view(m@) =~= mv.push(entry));
            }
        },
    }
}

fn index_get(m: &Vec<(Vec<char>, usize)>, k: &[char]) -> (r: Option<usize>)
    ensures
        match r {
            Some(v) => assoc_get(index_view(m@), k@) == Some(v as nat),
            None => assoc_get(index_view(m@), k@) is None,
        },
{
    let f = assoc_find(m, k);
    proof {
        lemma_found_index(m@, index_view(m@), k@, f);
    }
    match f {
        Some(i) => Some(m[i].1),
        None => None,
    }
}

proof fn lemma_by_name_bound(ds: Seq<DefaultTypeVar>)
    ensures
        forall|k: int| 0 <= k < by_name(ds).len() ==> #[trigger] by_name(ds)[k].1 < ds.len(),
    decreases ds.len(),
{
    if ds.len() > 0 {
        lemma_by_name_bound(ds.drop_last());
        let t = by_name(ds.drop_last());
        if plain(ds.last()) {
            crate::assoc::lemma_assoc_index(t, ds.last().name@);
        }
    }
}

fn any_bound_fits_exec(db: &[char], cs: &Vec<Vec<char>>) -> (r: bool)
    ensures
        r == any_bound_fits(db@, views(cs@)),
{
    let mut i: usize = 0;
    while i < cs.len()
        invariant
            i <= cs@.len(),
            forall|j: int| 0 <= j < i ==> !bound_subtype(db@, #[trigger] views(cs@)[j]),
        decreases cs.len() - i,
    {
        if is_subtype_for_bound(db, cs[i].as_slice()) {
            assert(bound_subtype(db@, views(cs@)[i as int]));
            return true;
        }
        i += 1;
    }
    false
}

fn all_under_bound_exec(cs: &Vec<Vec<char>>, tb: &[char]) -> (r: bool)
    ensures
        r == all_under_bound(views(cs@), tb@),
{
    let mut i: usize = 0;
    while i < cs.len()
        invariant
            i <= cs@.len(),
            forall|j: int| 0 <= j < i ==> bound_subtype(#[trigger] views(cs@)[j], tb@),
        decreases cs.len() - i,
    {
        if !is_subtype_for_bound(cs[i].as_slice(), tb) {
            assert(!bound_subtype(views(cs@)[i as int], tb@));
            return false;
        }
        i += 1;
    }
    true
}

fn push_report(out: &mut Vec<DefaultReport>, issue: DefaultIssue, tv: &DefaultTypeVar, dn: &[char])
    ensures
        final(out)@.map_values(|x: DefaultReport| x@) == old(out)@.map_values(|x: DefaultReport| x@).push(
            (issue@, tv.name@, dn@, tv.span),
        ),
{
    let ghost iv = issue@;
    out.push(DefaultReport { issue, typevar: copy_text(tv.name.as_slice()), default_name: copy_text(dn), span: tv.span });
    proof {
        assert(out@.map_values(|x: DefaultReport| x@) =~= old(out)@.map_values(|x: DefaultReport| x@).push(
            (iv, tv.name@, dn@, tv.span),
        ));
    }
}

/// Append the findings for `tv`, whose default `dn` is declared as `d`.
fn push_findings(
    out: &mut Vec<DefaultReport>,
    tv: &DefaultTypeVar,
    dn: &[char],
    d: &DefaultTypeVar,
    order: &Vec<(Vec<char>, usize)>,
)
    ensures
        final(out)@.map_values(|x: DefaultReport| x@) == old(out)@.map_values(|x: DefaultReport| x@)
            + default_findings(*tv, dn@, *d, index_view(order@)).map_values(
            |f: DefaultFinding| (f, tv.name@, dn@, tv.span),
        ),
{
    let ghost fs = default_findings(*tv, dn@, *d, index_view(order@));
    let ghost s0 = out@.map_values(|x: DefaultReport| x@);
    let tc = &tv.constraint_type_names;
    let dc = &d.constraint_type_names;
    if let (Some(dp), Some(tp)) = (index_get(order, dn), index_get(order, tv.name.as_slice())) {
        if dp >= tp {
            push_report(out, DefaultIssue::OutOfOrder, tv, dn);
        }
    }
    if tv.has_bound && d.has_bound {
        if let (Some(tb), Some(db)) = (&tv.bound_type_name, &d.bound_type_name) {
            if !is_subtype_for_bound(db.as_slice(), tb.as_slice()) {
                push_report(
                    out,
                    DefaultIssue::BoundNotSubtype { default_bound: copy_text(db.as_slice()), bound: copy_text(tb.as_slice()) },
                    tv,
                    dn,
                );
            }
        }
    }
    if tc.len() > 0 && dc.len() > 0 && !is_constraint_subset(dc, tc) {
        push_report(
            out,
            DefaultIssue::ConstraintsNotSubset { default_constraints: format_constraints(dc), constraints: format_constraints(tc) },
            tv,
            dn,
        );
    }
    if tc.len() > 0 && d.has_bound {
        if let Some(db) = &d.bound_type_name {
            if !any_bound_fits_exec(db.as_slice(), tc) {
                push_report(
                    out,
                    DefaultIssue::BoundVsConstraints { default_bound: copy_text(db.as_slice()), constraints: format_constraints(tc) },
                    tv,
                    dn,
                );
            }
        }
    }
    if tv.has_bound && dc.len() > 0 {
        if let Some(tb) = &tv.bound_type_name {
            if !all_under_bound_exec(dc, tb.as_slice()) {
                push_report(
                    out,
                    DefaultIssue::ConstraintsVsBound { default_constraints: format_constraints(dc), bound: copy_text(tb.as_slice()) },
                    tv,
                    dn,
                );
            }
        }
    }
    proof {
        assert(out@.map_values(|x: DefaultReport| x@) =~= s0 + fs.map_values(
            |f: DefaultFinding| (f, tv.name@, dn@, tv.span),
        ));
    }
}

/// `TypeVar` defaults that reference other `TypeVar`s.
pub struct TypeVarDefaultReferential;

impl TypeVarDefaultReferential {
    /// The findings for each `TypeVar` declaration in order, as
    /// `reference_findings` states.
    pub fn check(&self, typevars: &Vec<DefaultTypeVar>) -> (r: Vec<DefaultReport>)
        ensures
            r@.map_values(|x: DefaultReport| x@) == reference_findings(typevars@, typevars@),
    {
        let ghost all = typevars@;
        let mut names: Vec<(Vec<char>, usize)> = Vec::new();
        let mut order: Vec<(Vec<char>, usize)> = Vec::new();
        let mut count: usize = 0;
        let mut i: usize = 0;
        proof {
            assert(index_view(names@) =~= by_name(all.take(0)));
            assert(index_view(order@) =~= order_index(all.take(0)));
        }
        while i < typevars.len()
            invariant
                i <= all.len(),
                all == typevars@,
                count <= i,
                count == plain_count(all.take(i as int)),
                index_view(names@) == by_name(all.take(i as int)),
                index_view(order@) == order_index(all.take(i as int)),
            decreases typevars.len() - i,
        {
            proof {
                assert(all.take(i + 1).drop_last() =~= all.take(i as int));
                assert(all.take(i + 1).last() == all[i as int]);
            }
            let d = &typevars[i];
            if !d.is_typevartuple && !d.is_paramspec {
                index_put(&mut names, copy_text(d.name.as_slice()), i);
                index_put(&mut order, copy_text(d.name.as_slice()), count);
                count = count + 1;
            }
            i += 1;
        }
        proof {
            assert(all.take(i as int) =~= all);
            lemma_by_name_bound(all);
        }
        let ghost oi = index_view(order@);
        let mut out: Vec<DefaultReport> = Vec::new();
        let mut k: usize = 0;
        while k < typevars.len()
            invariant
                k <= all.len(),
                all == typevars@,
                index_view(names@) == by_name(all),
                oi == index_view(order@),
                oi == order_index(all),
                forall|j: int| 0 <= j < by_name(all).len() ==> #[trigger] by_name(all)[j].1 < all.len(),
                out@.map_values(|x: DefaultReport| x@) == reference_findings(all, all.take(k as int)),
            decreases typevars.len() - k,
        {
            proof {
                assert(all.take(k + 1).drop_last() =~= all.take(k as int));
                assert(all.take(k + 1).last() == all[k as int]);
            }
            let tv = &typevars[k];
            let ghost before = out@.map_values(|x: DefaultReport| x@);
            if !tv.is_typevartuple && !tv.is_paramspec && tv.has_default {
                if let Some(dn) = &tv.default_type_name {
                    if let Some(j) = index_get(&names, dn.as_slice()) {
                        proof {
                            crate::assoc::lemma_assoc_index(by_name(all), dn@);
                        }
                        let d = &typevars[j];
                        push_findings(&mut out, tv, dn.as_slice(), d, &order);
                    }
                }
            }
            proof {
                assert(out@.map_values(|x: DefaultReport| x@) =~= reference_findings(all, all.take(k + 1)));
            }
            k += 1;
        }
        proof {
            assert(all.take(k as int) =~= all);
        }
        out
    }
}

} // verus!
