//! `TypedDict` type consistency (PEP 589) for module-level assignments whose
//! value is a variable of a `TypedDict` type: never to `dict`, to
//! `Mapping[str, T]` only for `object` or `Any`, and to another `TypedDict`
//! only when it is structurally compatible (same keys with equal value types
//! and the same requiredness).
//!
//! Comparing two `TypedDict`s compares the `TypedDict`s among their value
//! types in turn, so the comparison follows the classes; each step is
//! counted against a bound `n`, and the rule applies where some bound lets
//! every comparison finish.
use vstd::prelude::*;

use crate::annotations::{mapping_value_type, parse_mapping_value_type, unwrap_required, unwrapped_required};
use crate::module::copy_text;
use crate::position::Span;
use crate::text::{
    all_alnum_or_underscore, eq_chars, eq_str, find_str, find_str_exec, is_alnum_underscore_word,
    lemma_find_str, slice_of, starts_with, starts_with_lit, trim, trim_all, trim_all_exec, trim_chars,
    views,
};

verus! {

pub struct TdAttr {
    pub name: Vec<char>,
    /// The text of the attribute's annotation, where it has one.
    pub annotation: Option<Vec<char>>,
}

pub struct TdClass {
    pub name: Vec<char>,
    pub is_typed_dict: bool,
    /// `total=` of the `TypedDict` (true when not given).
    pub is_total: bool,
    pub attributes: Vec<TdAttr>,
}

/// A module-level variable.
pub struct TdVar {
    pub name: Vec<char>,
    pub name_span: Span,
    pub has_annotation: bool,
    /// The text of its annotation, where it has one.
    pub annotation: Option<Vec<char>>,
    /// The text of the assigned value, where it has one.
    pub rhs: Option<Vec<char>>,
}

/// Why a `TypedDict` is not structurally compatible.
pub enum TdDetailV {
    MissingKey(Seq<char>),
    /// The key, the value type in the source, the one expected.
    ValueType(Seq<char>, Seq<char>, Seq<char>),
    /// The key and whether the target requires it.
    Requiredness(Seq<char>, bool),
}

// ---------------------------------------------------------------------------
// Fields and lookups
// ---------------------------------------------------------------------------

/// `extract_fields`: the annotated attributes with their trimmed annotation
/// and whether they are required.
pub open spec fn fields_of(attrs: Seq<TdAttr>, total: bool) -> Seq<(Seq<char>, Seq<char>, bool)>
    decreases attrs.len(),
{
    if attrs.len() == 0 {
        Seq::empty()
    } else {
        let prev = fields_of(attrs.drop_last(), total);
        match attrs.last().annotation {
            Some(a) => {
                let t = trim(a@);
                let req = if starts_with(t, "Required["@) {
                    true
                } else if starts_with(t, "NotRequired["@) {
                    false
                } else {
                    total
                };
                prev.push((attrs.last().name@, t, req))
            },
            None => prev,
        }
    }
}

/// The `TypedDict` class a name looks up: the last of that name.
pub open spec fn td_index(cs: Seq<TdClass>, name: Seq<char>) -> Option<int>
    decreases cs.len(),
{
    if cs.len() == 0 {
        None
    } else if cs.last().is_typed_dict && cs.last().name@ == name {
        Some(cs.len() - 1)
    } else {
        td_index(cs.drop_last(), name)
    }
}

/// The last field of a name: the source's fields by name.
pub open spec fn field_named(fs: Seq<(Seq<char>, Seq<char>, bool)>, name: Seq<char>) -> Option<(Seq<char>, bool)>
    decreases fs.len(),
{
    if fs.len() == 0 {
        None
    } else if fs.last().0 == name {
        Some((fs.last().1, fs.last().2))
    } else {
        field_named(fs.drop_last(), name)
    }
}

/// `split(" | ")`.
pub open spec fn split_bar(s: Seq<char>) -> Seq<Seq<char>>
    decreases s.len(),
{
    match find_str(s, seq![' ', '|', ' ']) {
        Some(i) => if 0 <= i && i + 3 <= s.len() {
            seq![s.take(i)] + split_bar(s.skip(i + 3))
        } else {
            seq![s]
        },
        None => seq![s],
    }
}

// ---------------------------------------------------------------------------
// Comparing structures
// ---------------------------------------------------------------------------

/// `types_structurally_equal` within `n` steps (`None` when they do not
/// suffice): equal texts; two `TypedDict`s that are compatible; two unions
/// with as many members, pairwise equal.
pub open spec fn types_eq(cs: Seq<TdClass>, l: Seq<char>, r: Seq<char>, n: nat) -> Option<bool>
    decreases n, 0int, 0int,
{
    if l == r {
        Some(true)
    } else if n == 0 {
        None
    } else {
        match (td_index(cs, l), td_index(cs, r)) {
            (Some(a), Some(b)) => match compat(cs, a, b, (n - 1) as nat) {
                Some(d) => Some(d is None),
                None => None,
            },
            _ => if find_str(l, seq![' ', '|', ' ']) is Some && find_str(r, seq![' ', '|', ' ']) is Some {
                let lp = trim_all(split_bar(l));
                let rp = trim_all(split_bar(r));
                if lp.len() == rp.len() {
                    parts_eq(cs, lp, rp, lp.len() as int, (n - 1) as nat)
                } else {
                    Some(false)
                }
            } else {
                Some(false)
            },
        }
    }
}

/// The first `k` member pairs are equal, in order, stopping at the first
/// that is not.
pub open spec fn parts_eq(cs: Seq<TdClass>, lp: Seq<Seq<char>>, rp: Seq<Seq<char>>, k: int, n: nat) -> Option<bool>
    decreases n, 1int, k,
{
    if k <= 0 {
        Some(true)
    } else {
        match parts_eq(cs, lp, rp, k - 1, n) {
            Some(true) => types_eq(cs, lp[k - 1], rp[k - 1], n),
            other => other,
        }
    }
}

/// One field of the target against the source's fields.
pub open spec fn field_compat(
    cs: Seq<TdClass>,
    f: (Seq<char>, Seq<char>, bool),
    rf: Seq<(Seq<char>, Seq<char>, bool)>,
    n: nat,
) -> Option<Option<TdDetailV>>
    decreases n, 1int, 0int,
{
    match field_named(rf, f.0) {
        None => Some(Some(TdDetailV::MissingKey(f.0))),
        Some(rv) => {
            let lt = unwrapped_required(f.1);
            let rt = unwrapped_required(rv.0);
            let types = if lt == rt {
                Some(true)
            } else {
                types_eq(cs, lt, rt, n)
            };
            match types {
                None => None,
                Some(false) => Some(Some(TdDetailV::ValueType(f.0, rt, lt))),
                Some(true) => if f.2 != rv.1 {
                    Some(Some(TdDetailV::Requiredness(f.0, f.2)))
                } else {
                    Some(None)
                },
            }
        },
    }
}

/// The first `k` fields of the target, stopping at the first problem.
pub open spec fn fields_compat(
    cs: Seq<TdClass>,
    lf: Seq<(Seq<char>, Seq<char>, bool)>,
    rf: Seq<(Seq<char>, Seq<char>, bool)>,
    k: int,
    n: nat,
) -> Option<Option<TdDetailV>>
    decreases n, 2int, k,
{
    if k <= 0 {
        Some(None)
    } else {
        match fields_compat(cs, lf, rf, k - 1, n) {
            Some(None) => field_compat(cs, lf[k - 1], rf, n),
            other => other,
        }
    }
}

/// `check_structural_compat_with_classes` of the classes at `a` (target) and
/// `b` (source).
pub open spec fn compat(cs: Seq<TdClass>, a: int, b: int, n: nat) -> Option<Option<TdDetailV>>
    decreases n, 3int, 0int,
{
    let lf = fields_of(cs[a].attributes@, cs[a].is_total);
    let rf = fields_of(cs[b].attributes@, cs[b].is_total);
    fields_compat(cs, lf, rf, lf.len() as int, n)
}

// ---------------------------------------------------------------------------
// Executable comparison
// ---------------------------------------------------------------------------

pub open spec fn fields_view(v: Seq<(Vec<char>, Vec<char>, bool)>) -> Seq<(Seq<char>, Seq<char>, bool)> {
    v.map_values(|f: (Vec<char>, Vec<char>, bool)| (f.0@, f.1@, f.2))
}

fn extract_fields(c: &TdClass) -> (r: Vec<(Vec<char>, Vec<char>, bool)>)
    ensures
        fields_view(r@) == fields_of(c.attributes@, c.is_total),
{
    let mut out: Vec<(Vec<char>, Vec<char>, bool)> = Vec::new();
    let mut i: usize = 0;
    while i < c.attributes.len()
        invariant
            i <= c.attributes@.len(),
            fields_view(out@) == fields_of(c.attributes@.take(i as int), c.is_total),
        decreases c.attributes.len() - i,
    {
        proof {
            assert(c.attributes@.take(i + 1).drop_last() =~= c.attributes@.take(i as int));
            assert(c.attributes@.take(i + 1).last() == c.attributes@[i as int]);
        }
        if let Some(a) = &c.attributes[i].annotation {
            let t = trim_chars(a.as_slice());
            let req = if starts_with_lit(t.as_slice(), "Required[") {
                true
            } else if starts_with_lit(t.as_slice(), "NotRequired[") {
                false
            } else {
                c.is_total
            };
            let ghost before = fields_view(out@);
            let ghost fv = (c.attributes@[i as int].name@, t@, req);
            out.push((copy_text(c.attributes[i].name.as_slice()), t, req));
            proof {
                assert(fields_view(out@) =~= before.push(fv));
            }
        }
        i += 1;
    }
    proof {
        assert(c.attributes@.take(i as int) =~= c.attributes@);
    }
    out
}

fn find_td(cs: &Vec<TdClass>, name: &[char]) -> (r: Option<usize>)
    ensures
        match r {
            Some(k) => k < cs@.len() && td_index(cs@, name@) == Some(k as int),
            None => td_index(cs@, name@) is None,
        },
{
    let mut i: usize = cs.len();
    assert(cs@.take(i as int) =~= cs@);
    while i > 0
        invariant
            i <= cs@.len(),
            td_index(cs@, name@) == td_index(cs@.take(i as int), name@),
        decreases i,
    {
        proof {
            assert(cs@.take(i as int).drop_last() =~= cs@.take(i - 1));
            assert(cs@.take(i as int).last() == cs@[i - 1]);
        }
        if cs[i - 1].is_typed_dict && eq_chars(cs[i - 1].name.as_slice(), name) {
            return Some(i - 1);
        }
        i -= 1;
    }
    None
}

fn find_field(fs: &Vec<(Vec<char>, Vec<char>, bool)>, name: &[char]) -> (r: Option<usize>)
    ensures
        match r {
            Some(k) => k < fs@.len() && field_named(fields_view(fs@), name@) == Some((fs@[k as int].1@, fs@[k as int].2)),
            None => field_named(fields_view(fs@), name@) is None,
        },
{
    let ghost fv = fields_view(fs@);
    let mut i: usize = fs.len();
    assert(fv.take(i as int) =~= fv);
    while i > 0
        invariant
            i <= fs@.len(),
            fv == fields_view(fs@),
            field_named(fv, name@) == field_named(fv.take(i as int), name@),
        decreases i,
    {
        proof {
            assert(fv.take(i as int).drop_last() =~= fv.take(i - 1));
            assert(fv.take(i as int).last() == fv[i - 1]);
        }
        if eq_chars(fs[i - 1].0.as_slice(), name) {
            return Some(i - 1);
        }
        i -= 1;
    }
    None
}

fn split_bar_exec(s: &[char]) -> (r: Vec<Vec<char>>)
    ensures
        views(r@) == split_bar(s@),
    decreases s@.len(),
{
    let sep = vec![' ', '|', ' '];
    proof {
        assert(sep@ =~= seq![' ', '|', ' ']);
        lemma_find_str(s@, sep@);
    }
    match find_str_exec(s, sep.as_slice()) {
        Some(i) => {
            assert(i + 3 <= s@.len());
            if i <= s.len() - 3 {
                let head = slice_of(s, 0, i);
                let rest = slice_of(s, i + 3, s.len());
                proof {
                    assert(head@ =~= s@.take(i as int));
                    assert(rest@ =~= s@.skip(i + 3));
                }
                let tail = split_bar_exec(rest.as_slice());
                let mut out: Vec<Vec<char>> = Vec::new();
                out.push(head);
                let mut k: usize = 0;
                let ghost h = views(out@);
                while k < tail.len()
                    invariant
                        k <= tail@.len(),
                        views(out@) == h + views(tail@).take(k as int),
                    decreases tail.len() - k,
                {
                    let x = copy_text(tail[k].as_slice());
                    let ghost before = views(out@);
                    let ghost xv = x@;
                    out.push(x);
                    proof {
                        assert(views(out@) =~= before.push(xv));
                        assert(h + views(tail@).take(k + 1) =~= before.push(xv));
                    }
                    k += 1;
                }
                proof {
                    assert(views(tail@).take(k as int) =~= views(tail@));
                }
                out
            } else {
                let mut out: Vec<Vec<char>> = Vec::new();
                let whole = slice_of(s, 0, s.len());
                assert(whole@ =~= s@);
                out.push(whole);
                proof {
                    assert(views(out@) =~= seq![s@]);
                }
                out
            }
        },
        None => {
            let mut out: Vec<Vec<char>> = Vec::new();
            let whole = slice_of(s, 0, s.len());
            assert(whole@ =~= s@);
            out.push(whole);
            proof {
                assert(views(out@) =~= seq![s@]);
            }
            out
        },
    }
}

fn contains_bar(s: &[char]) -> (r: bool)
    ensures
        r == (find_str(s@, seq![' ', '|', ' ']) is Some),
{
    let sep = vec![' ', '|', ' '];
    proof {
        assert(sep@ =~= seq![' ', '|', ' ']);
    }
    find_str_exec(s, sep.as_slice()).is_some()
}

fn types_eq_exec(cs: &Vec<TdClass>, l: &[char], r: &[char], Ghost(n): Ghost<nat>) -> (res: bool)
    requires
        types_eq(cs@, l@, r@, n) is Some,
    ensures
        types_eq(cs@, l@, r@, n) == Some(res),
    decreases n, 0int, 0int,
{
    if eq_chars(l, r) {
        return true;
    }
    let a = find_td(cs, l);
    let b = find_td(cs, r);
    if let (Some(a), Some(b)) = (a, b) {
        let d = compat_exec(cs, a, b, Ghost((n - 1) as nat));
        return d.is_none();
    }
    if contains_bar(l) && contains_bar(r) {
        let lp = trim_all_exec(&split_bar_exec(l));
        let rp = trim_all_exec(&split_bar_exec(r));
        if lp.len() != rp.len() {
            return false;
        }
        return parts_eq_exec(cs, &lp, &rp, lp.len(), Ghost((n - 1) as nat));
    }
    false
}

fn parts_eq_exec(cs: &Vec<TdClass>, lp: &Vec<Vec<char>>, rp: &Vec<Vec<char>>, k: usize, Ghost(n): Ghost<nat>) -> (res: bool)
    requires
        k <= lp@.len(),
        lp@.len() == rp@.len(),
        parts_eq(cs@, views(lp@), views(rp@), k as int, n) is Some,
    ensures
        parts_eq(cs@, views(lp@), views(rp@), k as int, n) == Some(res),
    decreases n, 1int, k,
{
    if k == 0 {
        return true;
    }
    if !parts_eq_exec(cs, lp, rp, k - 1, Ghost(n)) {
        return false;
    }
    proof {
        assert(views(lp@)[k - 1] == lp@[k - 1]@);
        assert(views(rp@)[k - 1] == rp@[k - 1]@);
    }
    types_eq_exec(cs, lp[k - 1].as_slice(), rp[k - 1].as_slice(), Ghost(n))
}

/// A problem found, as the view states it.
pub enum TdDetail {
    MissingKey { key: Vec<char> },
    ValueType { key: Vec<char>, found: Vec<char>, expected: Vec<char> },
    Requiredness { key: Vec<char>, target_requires: bool },
}

pub open spec fn detail_view(d: TdDetail) -> TdDetailV {
    match d {
        TdDetail::MissingKey { key } => TdDetailV::MissingKey(key@),
        TdDetail::ValueType { key, found, expected } => TdDetailV::ValueType(key@, found@, expected@),
        TdDetail::Requiredness { key, target_requires } => TdDetailV::Requiredness(key@, target_requires),
    }
}

pub open spec fn opt_detail_view(o: Option<TdDetail>) -> Option<TdDetailV> {
    match o {
        Some(d) => Some(detail_view(d)),
        None => None,
    }
}

fn field_compat_exec(
    cs: &Vec<TdClass>,
    f: &(Vec<char>, Vec<char>, bool),
    rf: &Vec<(Vec<char>, Vec<char>, bool)>,
    Ghost(n): Ghost<nat>,
) -> (res: Option<TdDetail>)
    requires
        field_compat(cs@, (f.0@, f.1@, f.2), fields_view(rf@), n) is Some,
    ensures
        field_compat(cs@, (f.0@, f.1@, f.2), fields_view(rf@), n) == Some(opt_detail_view(res)),
    decreases n, 1int, 0int,
{
    let j = match find_field(rf, f.0.as_slice()) {
        Some(j) => j,
        None => return Some(TdDetail::MissingKey { key: copy_text(f.0.as_slice()) }),
    };
    let lt = unwrap_required(f.1.as_slice());
    let rt = unwrap_required(rf[j].1.as_slice());
    let same = eq_chars(lt.as_slice(), rt.as_slice()) || types_eq_exec(cs, lt.as_slice(), rt.as_slice(), Ghost(n));
    if !same {
        return Some(TdDetail::ValueType { key: copy_text(f.0.as_slice()), found: rt, expected: lt });
    }
    if f.2 != rf[j].2 {
        return Some(TdDetail::Requiredness { key: copy_text(f.0.as_slice()), target_requires: f.2 });
    }
    None
}

fn fields_compat_exec(
    cs: &Vec<TdClass>,
    lf: &Vec<(Vec<char>, Vec<char>, bool)>,
    rf: &Vec<(Vec<char>, Vec<char>, bool)>,
    k: usize,
    Ghost(n): Ghost<nat>,
) -> (res: Option<TdDetail>)
    requires
        k <= lf@.len(),
        fields_compat(cs@, fields_view(lf@), fields_view(rf@), k as int, n) is Some,
    ensures
        fields_compat(cs@, fields_view(lf@), fields_view(rf@), k as int, n) == Some(opt_detail_view(res)),
    decreases n, 2int, k,
{
    if k == 0 {
        return None;
    }
    let prev = fields_compat_exec(cs, lf, rf, k - 1, Ghost(n));
    if prev.is_some() {
        return prev;
    }
    proof {
        assert(fields_view(lf@)[k - 1] == (lf@[k - 1].0@, lf@[k - 1].1@, lf@[k - 1].2));
    }
    field_compat_exec(cs, &lf[k - 1], rf, Ghost(n))
}

fn compat_exec(cs: &Vec<TdClass>, a: usize, b: usize, Ghost(n): Ghost<nat>) -> (res: Option<TdDetail>)
    requires
        a < cs@.len(),
        b < cs@.len(),
        compat(cs@, a as int, b as int, n) is Some,
    ensures
        compat(cs@, a as int, b as int, n) == Some(opt_detail_view(res)),
    decreases n, 3int, 0int,
{
    let lf = extract_fields(&cs[a]);
    let rf = extract_fields(&cs[b]);
    fields_compat_exec(cs, &lf, &rf, lf.len(), Ghost(n))
}

// ---------------------------------------------------------------------------
// Assignments
// ---------------------------------------------------------------------------

pub enum TdFindingV {
    DictTarget,
    MappingTarget(Seq<char>),
    Incompatible(TdDetailV),
}

/// What is wrong with assigning a `TypedDict` variable.
pub enum TdFinding {
    /// The target is `dict` or `dict[...]`.
    DictTarget,
    /// The target is `Mapping[str, T]` with `T` (given) neither `object` nor `Any`.
    MappingTarget { value_type: Vec<char> },
    /// The target is another `TypedDict` it is not compatible with.
    Incompatible(TdDetail),
}

pub open spec fn td_finding_view(f: TdFinding) -> TdFindingV {
    match f {
        TdFinding::DictTarget => TdFindingV::DictTarget,
        TdFinding::MappingTarget { value_type } => TdFindingV::MappingTarget(value_type@),
        TdFinding::Incompatible(d) => TdFindingV::Incompatible(detail_view(d)),
    }
}

/// `check_td_to_target` within `n` steps.
pub open spec fn target_result(cs: Seq<TdClass>, ann: Seq<char>, rhs_td: Seq<char>, n: nat) -> Option<
    Option<TdFindingV>,
> {
    if starts_with(ann, "dict["@) || ann == "dict"@ {
        Some(Some(TdFindingV::DictTarget))
    } else {
        match mapping_value_type(ann) {
            Some(v) => if v != "object"@ && v != "Any"@ {
                Some(Some(TdFindingV::MappingTarget(v)))
            } else {
                Some(None)
            },
            None => match (td_index(cs, ann), td_index(cs, rhs_td)) {
                (Some(a), Some(b)) => if ann == rhs_td {
                    Some(None)
                } else {
                    match compat(cs, a, b, n) {
                        None => None,
                        Some(None) => Some(None),
                        Some(Some(d)) => Some(Some(TdFindingV::Incompatible(d))),
                    }
                },
                _ => Some(None),
            },
        }
    }
}

/// `build_var_typeddict_map`: annotated variables whose trimmed annotation
/// names a `TypedDict`, with it; a later variable of a name replaces an
/// earlier one.
pub open spec fn var_tds(vs: Seq<TdVar>, cs: Seq<TdClass>) -> Seq<(Seq<char>, Seq<char>)>
    decreases vs.len(),
{
    if vs.len() == 0 {
        Seq::empty()
    } else {
        let prev = var_tds(vs.drop_last(), cs);
        let v = vs.last();
        match v.annotation {
            Some(a) => if v.has_annotation && td_index(cs, trim(a@)) is Some {
                crate::assoc::assoc_insert(prev, v.name@, trim(a@))
            } else {
                prev
            },
            None => prev,
        }
    }
}

/// The target annotation and the source `TypedDict` of the assignment to
/// `vs[k]`, when its value is a name of a `TypedDict`-typed variable: its own
/// annotation, or else the type recorded for its name.
pub open spec fn var_target(vs: Seq<TdVar>, cs: Seq<TdClass>, k: int) -> Option<(Seq<char>, Seq<char>)> {
    let v = vs[k];
    let vt = var_tds(vs, cs);
    match v.rhs {
        None => None,
        Some(t) => {
            let rn = trim(t@);
            if !all_alnum_or_underscore(rn) {
                None
            } else {
                match crate::assoc::assoc_get(vt, rn) {
                    None => None,
                    Some(rtd) => match v.annotation {
                        Some(a) => Some((trim(a@), rtd)),
                        None => match crate::assoc::assoc_get(vt, v.name@) {
                            Some(a) => Some((a, rtd)),
                            None => None,
                        },
                    },
                }
            }
        },
    }
}

/// Within `n` steps every assignment's comparison finishes.
pub open spec fn td_ends_within(vs: Seq<TdVar>, cs: Seq<TdClass>, n: nat) -> bool {
    forall|k: int|
        0 <= k < vs.len() ==> (#[trigger] var_target(vs, cs, k) matches Some(p) ==> target_result(cs, p.0, p.1, n) is Some)
}

/// Some bound lets every comparison finish (no chain of `TypedDict` value
/// types comes back to a comparison already under way).
pub open spec fn td_ends(vs: Seq<TdVar>, cs: Seq<TdClass>) -> bool {
    exists|n: nat| td_ends_within(vs, cs, n)
}

pub open spec fn td_bound(vs: Seq<TdVar>, cs: Seq<TdClass>) -> nat {
    choose|n: nat| td_ends_within(vs, cs, n)
}

/// The findings on the first `m` variables, at each variable's name: the
/// target annotation, the source `TypedDict` and the finding.
pub open spec fn assign_findings(vs: Seq<TdVar>, cs: Seq<TdClass>, n: nat, m: int) -> Seq<
    (Seq<char>, Seq<char>, TdFindingV, Span),
>
    decreases m,
{
    if m <= 0 {
        Seq::empty()
    } else {
        assign_findings(vs, cs, n, m - 1) + match var_target(vs, cs, m - 1) {
            Some(p) => match target_result(cs, p.0, p.1, n) {
                Some(Some(f)) => seq![(p.0, p.1, f, vs[m - 1].name_span)],
                _ => Seq::empty(),
            },
            None => Seq::empty(),
        }
    }
}

/// `check_typeddict_assignability`: nothing without a `TypedDict` class;
/// else the findings of the assignments in order.
pub open spec fn typeddict_findings(vs: Seq<TdVar>, cs: Seq<TdClass>) -> Seq<(Seq<char>, Seq<char>, TdFindingV, Span)> {
    if !(exists|k: int| 0 <= k < cs.len() && #[trigger] cs[k].is_typed_dict) {
        Seq::empty()
    } else {
        assign_findings(vs, cs, td_bound(vs, cs), vs.len() as int)
    }
}

pub struct TdReport {
    pub target: Vec<char>,
    pub source: Vec<char>,
    pub finding: TdFinding,
    pub span: Span,
}

/// How a message describes an incompatibility.
pub open spec fn detail_text(d: TdDetailV) -> Seq<char> {
    match d {
        TdDetailV::MissingKey(k) => "missing key `"@ + k + "`"@,
        TdDetailV::ValueType(k, found, expected) => "value type for key `"@ + k + "` is `"@ + found
            + "`, expected `"@ + expected + "`"@,
        TdDetailV::Requiredness(k, target_requires) => if target_requires {
            "key `"@ + k + "` is non-required in source but required in target"@
        } else {
            "key `"@ + k + "` is required in source but non-required in target"@
        },
    }
}

/// The text of a finding on assigning `TypedDict` `source` to `target`.
pub open spec fn td_message(target: Seq<char>, source: Seq<char>, f: TdFindingV) -> Seq<char> {
    "TypedDict `"@ + source + "` is not assignable to `"@ + target + match f {
        TdFindingV::Incompatible(d) => "`: "@ + detail_text(d),
        _ => "`"@,
    }
}

impl TdReport {
    /// The finding's message.
    pub fn message(&self) -> (r: Vec<char>)
        ensures
            r@ == td_message(self.target@, self.source@, td_finding_view(self.finding)),
    {
        let mut m = crate::text::chars_of("TypedDict `");
        crate::text::push_chars(&mut m, self.source.as_slice());
        crate::text::push_lit(&mut m, "` is not assignable to `");
        crate::text::push_chars(&mut m, self.target.as_slice());
        match &self.finding {
            TdFinding::Incompatible(d) => {
                crate::text::push_lit(&mut m, "`: ");
                match d {
                    TdDetail::MissingKey { key } => {
                        crate::text::push_lit(&mut m, "missing key `");
                        crate::text::push_chars(&mut m, key.as_slice());
                        crate::text::push_lit(&mut m, "`");
                    },
                    TdDetail::ValueType { key, found, expected } => {
                        crate::text::push_lit(&mut m, "value type for key `");
                        crate::text::push_chars(&mut m, key.as_slice());
                        crate::text::push_lit(&mut m, "` is `");
                        crate::text::push_chars(&mut m, found.as_slice());
                        crate::text::push_lit(&mut m, "`, expected `");
                        crate::text::push_chars(&mut m, expected.as_slice());
                        crate::text::push_lit(&mut m, "`");
                    },
                    TdDetail::Requiredness { key, target_requires } => {
                        crate::text::push_lit(&mut m, "key `");
                        crate::text::push_chars(&mut m, key.as_slice());
                        if *target_requires {
                            crate::text::push_lit(&mut m, "` is non-required in source but required in target");
                        } else {
                            crate::text::push_lit(&mut m, "` is required in source but non-required in target");
                        }
                    },
                }
            },
            _ => {
                crate::text::push_lit(&mut m, "`");
            },
        }
        m
    }
}

pub open spec fn td_reports_view(v: Seq<TdReport>) -> Seq<(Seq<char>, Seq<char>, TdFindingV, Span)> {
    v.map_values(|r: TdReport| (r.target@, r.source@, td_finding_view(r.finding), r.span))
}

fn td_to_target(cs: &Vec<TdClass>, ann: &[char], rhs_td: &[char], Ghost(n): Ghost<nat>) -> (r: Option<TdFinding>)
    requires
        target_result(cs@, ann@, rhs_td@, n) is Some,
    ensures
        target_result(cs@, ann@, rhs_td@, n) == Some(
            match r {
                Some(f) => Some(td_finding_view(f)),
                None => None,
            },
        ),
{
    if starts_with_lit(ann, "dict[") || eq_str(ann, "dict") {
        return Some(TdFinding::DictTarget);
    }
    match parse_mapping_value_type(ann) {
        Some(v) => {
            if !eq_str(v.as_slice(), "object") && !eq_str(v.as_slice(), "Any") {
                return Some(TdFinding::MappingTarget { value_type: v });
            }
            return None;
        },
        None => {},
    }
    let a = match find_td(cs, ann) {
        Some(a) => a,
        None => return None,
    };
    let b = match find_td(cs, rhs_td) {
        Some(b) => b,
        None => return None,
    };
    if eq_chars(ann, rhs_td) {
        return None;
    }
    match compat_exec(cs, a, b, Ghost(n)) {
        Some(d) => Some(TdFinding::Incompatible(d)),
        None => None,
    }
}

fn build_var_tds(vs: &Vec<TdVar>, cs: &Vec<TdClass>) -> (r: Vec<(Vec<char>, Vec<char>)>)
    ensures
        crate::generic_calls::pairs_view(r@) == var_tds(vs@, cs@),
{
    let mut m: Vec<(Vec<char>, Vec<char>)> = Vec::new();
    let mut i: usize = 0;
    while i < vs.len()
        invariant
            i <= vs@.len(),
            crate::generic_calls::pairs_view(m@) == var_tds(vs@.take(i as int), cs@),
        decreases vs.len() - i,
    {
        proof {
            assert(vs@.take(i + 1).drop_last() =~= vs@.take(i as int));
            assert(vs@.take(i + 1).last() == vs@[i as int]);
        }
        if let Some(a) = &vs[i].annotation {
            let t = trim_chars(a.as_slice());
            if vs[i].has_annotation && find_td(cs, t.as_slice()).is_some() {
                let ghost mv = crate::generic_calls::pairs_view(m@);
                let key = copy_text(vs[i].name.as_slice());
                let f = crate::assoc::assoc_find(&m, key.as_slice());
                proof {
                    assert forall|j: int| 0 <= j < m@.len() implies mv[j].0 == m@[j].0@ by {}
                    crate::assoc::lemma_found_index(m@, mv, key@, f);
                }
                let ghost kv = key@;
                let ghost tv = t@;
                match f {
                    Some(j) => {
                        m.set(j, (key, t));
                        proof {
                            assert(crate::generic_calls::pairs_view(m@) =~= mv.update(j as int, (kv, tv)));
                        }
                    },
                    None => {
                        m.push((key, t));
                        proof {
                            assert(crate::generic_calls::pairs_view(m@) =~= mv.push((kv, tv)));
                        }
                    },
                }
            }
        }
        i += 1;
    }
    proof {
        assert(vs@.take(i as int) =~= vs@);
    }
    m
}

fn pair_get<'a>(t: &'a Vec<(Vec<char>, Vec<char>)>, k: &[char]) -> (r: Option<&'a Vec<char>>)
    ensures
        match r {
            Some(v) => crate::assoc::assoc_get(crate::generic_calls::pairs_view(t@), k@) == Some(v@),
            None => crate::assoc::assoc_get(crate::generic_calls::pairs_view(t@), k@) is None,
        },
{
    let ghost tv = crate::generic_calls::pairs_view(t@);
    let f = crate::assoc::assoc_find(t, k);
    proof {
        assert forall|j: int| 0 <= j < t@.len() implies tv[j].0 == t@[j].0@ by {}
        crate::assoc::lemma_found_index(t@, tv, k@, f);
    }
    match f {
        Some(i) => Some(&t[i].1),
        None => None,
    }
}

/// `TypedDict` assignability of module-level assignments.
pub struct TypedDictAssignability;

impl TypedDictAssignability {
    /// The findings of the module, as `typeddict_findings` states.
    pub fn check(&self, vars: &Vec<TdVar>, classes: &Vec<TdClass>) -> (r: Vec<TdReport>)
        requires
            td_ends(vars@, classes@),
        ensures
            td_reports_view(r@) == typeddict_findings(vars@, classes@),
    {
        let mut out: Vec<TdReport> = Vec::new();
        let mut any = false;
        let mut k: usize = 0;
        while k < classes.len()
            invariant
                k <= classes@.len(),
                any == exists|j: int| 0 <= j < k && #[trigger] classes@[j].is_typed_dict,
            decreases classes.len() - k,
        {
            if classes[k].is_typed_dict {
                any = true;
            }
            k += 1;
        }
        if !any {
            assert(td_reports_view(out@) =~= Seq::empty());
            return out;
        }
        let ghost n = td_bound(vars@, classes@);
        proof {
            assert(td_ends_within(vars@, classes@, n));
        }
        let vt = build_var_tds(vars, classes);
        let ghost vtv = crate::generic_calls::pairs_view(vt@);
        let mut i: usize = 0;
        while i < vars.len()
            invariant
                i <= vars@.len(),
                n == td_bound(vars@, classes@),
                td_ends_within(vars@, classes@, n),
                vtv == crate::generic_calls::pairs_view(vt@),
                vtv == var_tds(vars@, classes@),
                td_reports_view(out@) == assign_findings(vars@, classes@, n, i as int),
            decreases vars.len() - i,
        {
            let v = &vars[i];
            let ghost before = td_reports_view(out@);
            let ghost tgt = var_target(vars@, classes@, i as int);
            proof {
                assert(td_ends_within(vars@, classes@, n));
                assert(tgt matches Some(p) ==> target_result(classes@, p.0, p.1, n) is Some);
            }
            if let Some(t) = &v.rhs {
                let rn = trim_chars(t.as_slice());
                if is_alnum_underscore_word(rn.as_slice()) {
                    if let Some(rtd) = pair_get(&vt, rn.as_slice()) {
                        let ann: Option<Vec<char>> = match &v.annotation {
                            Some(a) => Some(trim_chars(a.as_slice())),
                            None => match pair_get(&vt, v.name.as_slice()) {
                                Some(a) => Some(copy_text(a.as_slice())),
                                None => None,
                            },
                        };
                        if let Some(a) = ann {
                            proof {
                                assert(tgt == Some((a@, rtd@)));
                            }
                            match td_to_target(classes, a.as_slice(), rtd.as_slice(), Ghost(n)) {
                                Some(f) => {
                                    let ghost fv = td_finding_view(f);
                                    let src = copy_text(rtd.as_slice());
                                    let ghost av = a@;
                                    let ghost sv = src@;
                                    out.push(TdReport { target: a, source: src, finding: f, span: v.name_span });
                                    proof {
                                        assert(td_reports_view(out@) =~= before + seq![(av, sv, fv, v.name_span)]);
                                    }
                                },
                                None => {},
                            }
                        }
                    }
                }
            }
            proof {
                assert(td_reports_view(out@) =~= assign_findings(vars@, classes@, n, i + 1));
            }
            i += 1;
        }
        out
    }
}

// ---------------------------------------------------------------------------
// Comparison under a given bound
// ---------------------------------------------------------------------------

pub open spec fn opt_opt_view(o: Option<Option<TdDetail>>) -> Option<Option<TdDetailV>> {
    match o {
        Some(d) => Some(opt_detail_view(d)),
        None => None,
    }
}

fn types_eq_bounded(cs: &Vec<TdClass>, l: &[char], r: &[char], n: u64) -> (res: Option<bool>)
    ensures
        res == types_eq(cs@, l@, r@, n as nat),
    decreases n, 0int, 0int,
{
    if eq_chars(l, r) {
        return Some(true);
    }
    if n == 0 {
        return None;
    }
    let a = find_td(cs, l);
    let b = find_td(cs, r);
    if let (Some(a), Some(b)) = (a, b) {
        return match compat_bounded(cs, a, b, n - 1) {
            Some(d) => Some(d.is_none()),
            None => None,
        };
    }
    if contains_bar(l) && contains_bar(r) {
        let lp = trim_all_exec(&split_bar_exec(l));
        let rp = trim_all_exec(&split_bar_exec(r));
        if lp.len() != rp.len() {
            return Some(false);
        }
        return parts_eq_bounded(cs, &lp, &rp, lp.len(), n - 1);
    }
    Some(false)
}

fn parts_eq_bounded(cs: &Vec<TdClass>, lp: &Vec<Vec<char>>, rp: &Vec<Vec<char>>, k: usize, n: u64) -> (res: Option<bool>)
    requires
        k <= lp@.len(),
        lp@.len() == rp@.len(),
    ensures
        res == parts_eq(cs@, views(lp@), views(rp@), k as int, n as nat),
    decreases n, 1int, k,
{
    if k == 0 {
        return Some(true);
    }
    match parts_eq_bounded(cs, lp, rp, k - 1, n) {
        Some(true) => {
            proof {
                assert(views(lp@)[k - 1] == lp@[k - 1]@);
                assert(views(rp@)[k - 1] == rp@[k - 1]@);
            }
            types_eq_bounded(cs, lp[k - 1].as_slice(), rp[k - 1].as_slice(), n)
        },
        other => other,
    }
}

fn field_compat_bounded(
    cs: &Vec<TdClass>,
    f: &(Vec<char>, Vec<char>, bool),
    rf: &Vec<(Vec<char>, Vec<char>, bool)>,
    n: u64,
) -> (res: Option<Option<TdDetail>>)
    ensures
        opt_opt_view(res) == field_compat(cs@, (f.0@, f.1@, f.2), fields_view(rf@), n as nat),
    decreases n, 1int, 0int,
{
    let j = match find_field(rf, f.0.as_slice()) {
        Some(j) => j,
        None => return Some(Some(TdDetail::MissingKey { key: copy_text(f.0.as_slice()) })),
    };
    let lt = unwrap_required(f.1.as_slice());
    let rt = unwrap_required(rf[j].1.as_slice());
    let same = if eq_chars(lt.as_slice(), rt.as_slice()) {
        Some(true)
    } else {
        types_eq_bounded(cs, lt.as_slice(), rt.as_slice(), n)
    };
    match same {
        None => None,
        Some(false) => Some(Some(TdDetail::ValueType { key: copy_text(f.0.as_slice()), found: rt, expected: lt })),
        Some(true) => if f.2 != rf[j].2 {
            Some(Some(TdDetail::Requiredness { key: copy_text(f.0.as_slice()), target_requires: f.2 }))
        } else {
            Some(None)
        },
    }
}

fn fields_compat_bounded(
    cs: &Vec<TdClass>,
    lf: &Vec<(Vec<char>, Vec<char>, bool)>,
    rf: &Vec<(Vec<char>, Vec<char>, bool)>,
    k: usize,
    n: u64,
) -> (res: Option<Option<TdDetail>>)
    requires
        k <= lf@.len(),
    ensures
        opt_opt_view(res) == fields_compat(cs@, fields_view(lf@), fields_view(rf@), k as int, n as nat),
    decreases n, 2int, k,
{
    if k == 0 {
        return Some(None);
    }
    match fields_compat_bounded(cs, lf, rf, k - 1, n) {
        Some(None) => {
            proof {
                assert(fields_view(lf@)[k - 1] == (lf@[k - 1].0@, lf@[k - 1].1@, lf@[k - 1].2));
            }
            field_compat_bounded(cs, &lf[k - 1], rf, n)
        },
        other => other,
    }
}

fn compat_bounded(cs: &Vec<TdClass>, a: usize, b: usize, n: u64) -> (res: Option<Option<TdDetail>>)
    requires
        a < cs@.len(),
        b < cs@.len(),
    ensures
        opt_opt_view(res) == compat(cs@, a as int, b as int, n as nat),
    decreases n, 3int, 0int,
{
    let lf = extract_fields(&cs[a]);
    let rf = extract_fields(&cs[b]);
    fields_compat_bounded(cs, &lf, &rf, lf.len(), n)
}

pub open spec fn target_view(o: Option<Option<TdFinding>>) -> Option<Option<TdFindingV>> {
    match o {
        Some(Some(f)) => Some(Some(td_finding_view(f))),
        Some(None) => Some(None),
        None => None,
    }
}

fn td_to_target_bounded(cs: &Vec<TdClass>, ann: &[char], rhs_td: &[char], n: u64) -> (r: Option<Option<TdFinding>>)
    ensures
        target_view(r) == target_result(cs@, ann@, rhs_td@, n as nat),
{
    if starts_with_lit(ann, "dict[") || eq_str(ann, "dict") {
        return Some(Some(TdFinding::DictTarget));
    }
    match parse_mapping_value_type(ann) {
        Some(v) => {
            if !eq_str(v.as_slice(), "object") && !eq_str(v.as_slice(), "Any") {
                return Some(Some(TdFinding::MappingTarget { value_type: v }));
            }
            return Some(None);
        },
        None => {},
    }
    let a = match find_td(cs, ann) {
        Some(a) => a,
        None => return Some(None),
    };
    let b = match find_td(cs, rhs_td) {
        Some(b) => b,
        None => return Some(None),
    };
    if eq_chars(ann, rhs_td) {
        return Some(None);
    }
    match compat_bounded(cs, a, b, n) {
        None => None,
        Some(None) => Some(None),
        Some(Some(d)) => Some(Some(TdFinding::Incompatible(d))),
    }
}

impl TypedDictAssignability {
    /// The findings when every comparison finishes within `bound` steps, as
    /// `assign_findings` at that bound states (nothing without a `TypedDict`
    /// class); `None` when some comparison needs more. A `Some` shows that
    /// `check` may be called.
    pub fn check_within(&self, vars: &Vec<TdVar>, classes: &Vec<TdClass>, bound: u64) -> (r: Option<Vec<TdReport>>)
        ensures
            r is None <==> ((exists|k: int| 0 <= k < classes@.len() && #[trigger] classes@[k].is_typed_dict)
                && !td_ends_within(vars@, classes@, bound as nat)),
            r matches Some(v) ==> td_reports_view(v@) == (if exists|k: int|
                0 <= k < classes@.len() && #[trigger] classes@[k].is_typed_dict {
                assign_findings(vars@, classes@, bound as nat, vars@.len() as int)
            } else {
                Seq::empty()
            }),
    {
        let mut out: Vec<TdReport> = Vec::new();
        let mut any = false;
        let mut k: usize = 0;
        while k < classes.len()
            invariant
                k <= classes@.len(),
                any == exists|j: int| 0 <= j < k && #[trigger] classes@[j].is_typed_dict,
            decreases classes.len() - k,
        {
            if classes[k].is_typed_dict {
                any = true;
            }
            k += 1;
        }
        if !any {
            assert(td_reports_view(out@) =~= Seq::empty());
            return Some(out);
        }
        let ghost n = bound as nat;
        let vt = build_var_tds(vars, classes);
        let ghost vtv = crate::generic_calls::pairs_view(vt@);
        let mut i: usize = 0;
        while i < vars.len()
            invariant
                i <= vars@.len(),
                n == bound as nat,
                exists|j: int| 0 <= j < classes@.len() && #[trigger] classes@[j].is_typed_dict,
                vtv == crate::generic_calls::pairs_view(vt@),
                vtv == var_tds(vars@, classes@),
                forall|q: int|
                    0 <= q < i ==> (#[trigger] var_target(vars@, classes@, q) matches Some(p)
                        ==> target_result(classes@, p.0, p.1, n) is Some),
                td_reports_view(out@) == assign_findings(vars@, classes@, n, i as int),
            decreases vars.len() - i,
        {
            let v = &vars[i];
            let ghost before = td_reports_view(out@);
            let ghost tgt = var_target(vars@, classes@, i as int);
            proof {
                assert(vars@[i as int] == *v);
            }
            let mut none_target = true;
            if let Some(t) = &v.rhs {
                let rn = trim_chars(t.as_slice());
                if is_alnum_underscore_word(rn.as_slice()) {
                    if let Some(rtd) = pair_get(&vt, rn.as_slice()) {
                        let ann: Option<Vec<char>> = match &v.annotation {
                            Some(a) => Some(trim_chars(a.as_slice())),
                            None => match pair_get(&vt, v.name.as_slice()) {
                                Some(a) => Some(copy_text(a.as_slice())),
                                None => None,
                            },
                        };
                        if let Some(a) = ann {
                            none_target = false;
                            proof {
                                assert(tgt == Some((a@, rtd@)));
                            }
                            match td_to_target_bounded(classes, a.as_slice(), rtd.as_slice(), bound) {
                                None => {
                                    proof {
                                        assert(!(target_result(classes@, a@, rtd@, n) is Some));
                                        assert(exists|j: int| 0 <= j < classes@.len() && #[trigger] classes@[j].is_typed_dict);
                                        assert(!td_ends_within(vars@, classes@, n));
                                    }
                                    return None;
                                },
                                Some(Some(f)) => {
                                    let ghost fv = td_finding_view(f);
                                    let src = copy_text(rtd.as_slice());
                                    let ghost av = a@;
                                    let ghost sv = src@;
                                    out.push(TdReport { target: a, source: src, finding: f, span: v.name_span });
                                    proof {
                                        assert(td_reports_view(out@) =~= before + seq![(av, sv, fv, v.name_span)]);
                                    }
                                },
                                Some(None) => {},
                            }
                        }
                    }
                }
            }
            proof {
                if none_target {
                    assert(tgt is None);
                }
                assert(td_reports_view(out@) =~= assign_findings(vars@, classes@, n, i + 1));
            }
            i += 1;
        }
        proof {
            assert(td_ends_within(vars@, classes@, n));
        }
        Some(out)
    }
}

} // verus!
