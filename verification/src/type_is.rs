//! `TypeIs[X]` whose narrowed type `X` is not consistent with the type of
//! the parameter it narrows.
use vstd::prelude::*;

use crate::module::{copy_text, ParamSite};
use crate::position::Span;
use crate::text::{
    eq_chars, eq_str, find_char, find_char_exec, find_str, find_str_exec, first_where,
    lemma_find_char, lemma_find_str, lemma_first_where_at, lemma_first_where_none,
    lemma_split_prefix_nonempty, slice_of, split_prefix, starts_with, starts_with_lit, trim,
    trim_chars, views,
};

verus! {

/// `[` minus `]` in `s[0..i)`.
pub open spec fn square_net(s: Seq<char>, i: int) -> int
    decreases i,
{
    if i <= 0 {
        0
    } else {
        square_net(s, i - 1) + if s[i - 1] == '[' {
            1int
        } else if s[i - 1] == ']' {
            -1int
        } else {
            0int
        }
    }
}

pub proof fn lemma_square_net_bound(s: Seq<char>, i: int)
    requires
        0 <= i,
    ensures
        -i <= square_net(s, i) <= i,
    decreases i,
{
    if i > 0 {
        lemma_square_net_bound(s, i - 1);
    }
}

/// A `]` that closes a `[` opened just before the text.
pub open spec fn closes_outer(s: Seq<char>) -> spec_fn(int) -> bool {
    |e: int| s[e] == ']' && square_net(s, e) == 0
}

/// The index of the `]` that closes a `[` opened just before `s`.
pub open spec fn matching_close(s: Seq<char>) -> Option<int> {
    first_where(closes_outer(s), s.len() as int)
}

/// The index of the `]` that closes a `[` opened just before `s`.
pub fn find_matching_close(s: &[char]) -> (r: Option<usize>)
    ensures
        match r {
            Some(e) => matching_close(s@) == Some(e as int),
            None => matching_close(s@) is None,
        },
{
    let mut depth: u128 = 1;
    let mut i: usize = 0;
    while i < s.len()
        invariant
            i <= s@.len(),
            depth == 1 + square_net(s@, i as int),
            depth >= 1,
            forall|j: int| 0 <= j < i ==> !#[trigger] closes_outer(s@)(j),
        decreases s.len() - i,
    {
        proof {
            lemma_square_net_bound(s@, i as int);
        }
        if s[i] == '[' {
            depth = depth + 1;
        } else if s[i] == ']' {
            if depth == 1 {
                proof {
                    assert(closes_outer(s@)(i as int));
                    lemma_first_where_at(closes_outer(s@), i as int, s@.len() as int);
                }
                return Some(i);
            }
            depth = depth - 1;
        }
        proof {
            assert(!closes_outer(s@)(i as int));
        }
        i += 1;
    }
    proof {
        lemma_first_where_none(closes_outer(s@), s@.len() as int);
    }
    None
}

/// `extract_inner_type`: the text inside the first `TypeIs[...]`, up to its
/// matching `]`.
pub open spec fn inner_type(ann: Seq<char>) -> Option<Seq<char>> {
    match find_str(ann, "TypeIs["@) {
        None => None,
        Some(st) => {
            let rest = ann.skip(st + 7);
            match matching_close(rest) {
                Some(e) => Some(rest.take(e)),
                None => None,
            }
        },
    }
}

pub fn extract_inner_type(ann: &[char]) -> (r: Option<Vec<char>>)
    ensures
        match r {
            Some(v) => inner_type(ann@) == Some(v@),
            None => inner_type(ann@) is None,
        },
{
    let pat = crate::text::chars_of("TypeIs[");
    proof {
        reveal_strlit("TypeIs[");
        lemma_find_str(ann@, "TypeIs["@);
    }
    let st = match find_str_exec(ann, pat.as_slice()) {
        Some(st) => st,
        None => return None,
    };
    assert(st + 7 <= ann.len());
    let rest = slice_of(ann, st + 7, ann.len());
    proof {
        assert(rest@ =~= ann@.skip(st + 7));
    }
    match find_matching_close(rest.as_slice()) {
        Some(e) => {
            proof {
                crate::text::lemma_first_where_some(closes_outer(rest@), rest@.len() as int);
            }
            let inner = slice_of(rest.as_slice(), 0, e);
            proof {
                assert(inner@ =~= rest@.take(e as int));
            }
            Some(inner)
        },
        None => None,
    }
}

/// `split_generic`: `Base[Args]` gives `Base` and the text up to the `]`
/// matching the first `[`.
pub open spec fn generic_split(t: Seq<char>) -> Option<(Seq<char>, Seq<char>)> {
    match find_char(t, '[') {
        None => None,
        Some(b) => {
            let rest = t.skip(b + 1);
            match matching_close(rest) {
                Some(e) => Some((t.take(b), rest.take(e))),
                None => None,
            }
        },
    }
}

pub fn split_generic(t: &[char]) -> (r: Option<(Vec<char>, Vec<char>)>)
    ensures
        match r {
            Some(p) => generic_split(t@) == Some((p.0@, p.1@)),
            None => generic_split(t@) is None,
        },
{
    proof {
        lemma_find_char(t@, '[');
    }
    let b = match find_char_exec(t, '[') {
        Some(b) => b,
        None => return None,
    };
    assert(b < t.len());
    let rest = slice_of(t, b + 1, t.len());
    proof {
        assert(rest@ =~= t@.skip(b + 1));
    }
    match find_matching_close(rest.as_slice()) {
        Some(e) => {
            proof {
                crate::text::lemma_first_where_some(closes_outer(rest@), rest@.len() as int);
            }
            let base = slice_of(t, 0, b);
            let args = slice_of(rest.as_slice(), 0, e);
            proof {
                assert(base@ =~= t@.take(b as int));
                assert(args@ =~= rest@.take(e as int));
            }
            Some((base, args))
        },
        None => None,
    }
}

/// Where type text is cut into segments: `[`, `]`, `,` and spaces.
pub open spec fn segment_cut(s: Seq<char>) -> spec_fn(int) -> bool {
    |i: int| s[i] == '[' || s[i] == ']' || s[i] == ',' || s[i] == ' '
}

pub open spec fn segments(s: Seq<char>) -> Seq<Seq<char>> {
    split_prefix(s, segment_cut(s), s.len() as int)
}

/// A segment that looks like a `TypeVar`: one ASCII capital letter, or a
/// name starting `T_`, `T1` or `T2`.
pub open spec fn typevar_segment(seg: Seq<char>) -> bool {
    let t = trim(seg);
    t.len() > 0 && ((t.len() == 1 && 'A' <= t[0] && t[0] <= 'Z') || starts_with(t, "T_"@)
        || starts_with(t, "T1"@) || starts_with(t, "T2"@))
}

/// `contains_typevar`: some segment of the type text looks like a `TypeVar`.
pub open spec fn has_typevar(s: Seq<char>) -> bool {
    exists|k: int| 0 <= k < segments(s).len() && typevar_segment(#[trigger] segments(s)[k])
}

fn split_segments(s: &[char]) -> (r: Vec<Vec<char>>)
    ensures
        views(r@) == segments(s@),
{
    let mut parts: Vec<Vec<char>> = Vec::new();
    let mut cur: Vec<char> = Vec::new();
    let mut i: usize = 0;
    while i < s.len()
        invariant
            i <= s@.len(),
            views(parts@).push(cur@) == split_prefix(s@, segment_cut(s@), i as int),
        decreases s.len() - i,
    {
        let ghost prev = split_prefix(s@, segment_cut(s@), i as int);
        proof {
            lemma_split_prefix_nonempty(s@, segment_cut(s@), i as int);
        }
        let c = s[i];
        if c == '[' || c == ']' || c == ',' || c == ' ' {
            let done = cur;
            parts.push(done);
            cur = Vec::new();
            proof {
                assert(views(parts@) =~= prev);
            }
        } else {
            cur.push(c);
            proof {
                assert(views(parts@).push(cur@) =~= prev.update(
                    prev.len() - 1,
                    prev.last().push(s@[i as int]),
                ));
            }
        }
        i += 1;
    }
    let ghost before = views(parts@);
    parts.push(cur);
    proof {
        assert(views(parts@) =~= before.push(cur@));
    }
    parts
}

pub fn contains_typevar(s: &[char]) -> (r: bool)
    ensures
        r == has_typevar(s@),
{
    let segs = split_segments(s);
    let mut k: usize = 0;
    while k < segs.len()
        invariant
            k <= segs@.len(),
            views(segs@) == segments(s@),
            forall|j: int| 0 <= j < k ==> !typevar_segment(#[trigger] segments(s@)[j]),
        decreases segs.len() - k,
    {
        proof {
            assert(segments(s@)[k as int] == segs@[k as int]@);
        }
        let t = trim_chars(segs[k].as_slice());
        if t.len() > 0 && ((t.len() == 1 && 'A' <= t[0] && t[0] <= 'Z') || starts_with_lit(
            t.as_slice(),
            "T_",
        ) || starts_with_lit(t.as_slice(), "T1") || starts_with_lit(t.as_slice(), "T2")) {
            return true;
        }
        k += 1;
    }
    false
}

/// `is_consistent`: whether the narrowed type may be narrowed to from the
/// input type: `object` and `Any` accept all, a type accepts itself,
/// `TypeVar`s are given the benefit of the doubt, `bool <: int <: float <:
/// complex`; anything else, two generics of the same base with different
/// arguments included, is inconsistent.
pub open spec fn consistent(narrowed: Seq<char>, input: Seq<char>) -> bool {
    let n = trim(narrowed);
    let i = trim(input);
    if i == "object"@ || n == i || i == "Any"@ || n == "Any"@ {
        true
    } else if has_typevar(n) || has_typevar(i) {
        true
    } else if i == "float"@ && (n == "int"@ || n == "bool"@) {
        true
    } else if i == "complex"@ && (n == "int"@ || n == "float"@ || n == "bool"@) {
        true
    } else {
        i == "int"@ && n == "bool"@
    }
}

pub fn is_consistent(narrowed: &[char], input: &[char]) -> (r: bool)
    ensures
        r == consistent(narrowed@, input@),
{
    let n = trim_chars(narrowed);
    let i = trim_chars(input);
    if eq_str(i.as_slice(), "object") || eq_chars(n.as_slice(), i.as_slice()) || eq_str(
        i.as_slice(),
        "Any",
    ) || eq_str(n.as_slice(), "Any") {
        return true;
    }
    if contains_typevar(n.as_slice()) || contains_typevar(i.as_slice()) {
        return true;
    }
    if eq_str(i.as_slice(), "float") && (eq_str(n.as_slice(), "int") || eq_str(n.as_slice(), "bool")) {
        return true;
    }
    if eq_str(i.as_slice(), "complex") && (eq_str(n.as_slice(), "int") || eq_str(n.as_slice(), "float")
        || eq_str(n.as_slice(), "bool")) {
        return true;
    }
    if eq_str(i.as_slice(), "int") && eq_str(n.as_slice(), "bool") {
        return true;
    }
    proof {
        crate::position::lemma_trim_lens(narrowed@);
        crate::text::lemma_trim_start_is_suffix(narrowed@);
        crate::text::lemma_trim_end_is_prefix(crate::text::trim_start(narrowed@));
        crate::text::lemma_trim_start_is_suffix(input@);
        crate::text::lemma_trim_end_is_prefix(crate::text::trim_start(input@));
    }
    // Two generics of the same base: invariant containers, not subtypes.
    if let (Some((nb, _na)), Some((ib, _ia))) = (split_generic(n.as_slice()), split_generic(i.as_slice())) {
        if eq_chars(nb.as_slice(), ib.as_slice()) {
            return false;
        }
    }
    false
}

/// What the rule reads of a function: its parameters and, when it has one,
/// the source text and span of its return annotation.
pub struct NarrowingFunction {
    pub params: Vec<ParamSite>,
    pub return_annotation: Option<(Vec<char>, Span)>,
}

/// `TypeIs[narrowed]` narrows a parameter annotated `param_type`
/// inconsistently; the span is that of the return annotation.
pub struct NarrowingMismatch {
    pub narrowed: Vec<char>,
    pub param_type: Vec<char>,
    pub span: Span,
}

impl NarrowingMismatch {
    /// The finding's message.
    pub fn message(&self) -> (r: Vec<char>)
        ensures
            r@ == "`TypeIs["@ + self.narrowed@ + "]` narrows to a type inconsistent with parameter type `"@ + self.param_type@ + "`"@,
    {
        let mut m = crate::text::chars_of("`TypeIs[");
        crate::text::push_chars(&mut m, self.narrowed.as_slice());
        crate::text::push_lit(&mut m, "]` narrows to a type inconsistent with parameter type `");
        crate::text::push_chars(&mut m, self.param_type.as_slice());
        crate::text::push_lit(&mut m, "`");
        m
    }
}

impl View for NarrowingMismatch {
    type V = (Seq<char>, Seq<char>, Span);

    open spec fn view(&self) -> Self::V {
        (self.narrowed@, self.param_type@, self.span)
    }
}

/// The first parameter not named `self` or `cls`, from index `k` on.
pub open spec fn narrowed_param_from(ps: Seq<ParamSite>, k: int) -> Option<int>
    decreases ps.len() - k,
{
    if k < 0 || k >= ps.len() {
        None
    } else if ps[k].name@ != "self"@ && ps[k].name@ != "cls"@ {
        Some(k)
    } else {
        narrowed_param_from(ps, k + 1)
    }
}

/// The finding for one function, if any.
pub open spec fn narrowing_finding(f: NarrowingFunction) -> Option<(Seq<char>, Seq<char>, Span)> {
    match f.return_annotation {
        None => None,
        Some((ann, span)) => if !crate::text::contains_str(ann@, "TypeIs["@) {
            None
        } else {
            match inner_type(ann@) {
                None => None,
                Some(narrowed) => match narrowed_param_from(f.params@, 0) {
                    None => None,
                    Some(k) => match f.params@[k].annotation {
                        None => None,
                        Some(pt) => if consistent(narrowed, pt@) {
                            None
                        } else {
                            Some((narrowed, pt@, span))
                        },
                    },
                },
            }
        },
    }
}

pub open spec fn narrowing_findings(fs: Seq<NarrowingFunction>) -> Seq<(Seq<char>, Seq<char>, Span)>
    decreases fs.len(),
{
    if fs.len() == 0 {
        Seq::empty()
    } else {
        narrowing_findings(fs.drop_last()) + match narrowing_finding(fs.last()) {
            Some(x) => seq![x],
            None => Seq::empty(),
        }
    }
}

fn first_narrowed_param(ps: &Vec<ParamSite>) -> (r: Option<usize>)
    ensures
        match r {
            Some(k) => narrowed_param_from(ps@, 0) == Some(k as int) && k < ps@.len(),
            None => narrowed_param_from(ps@, 0) is None,
        },
{
    let mut k: usize = 0;
    while k < ps.len()
        invariant
            k <= ps@.len(),
            narrowed_param_from(ps@, 0) == narrowed_param_from(ps@, k as int),
        decreases ps.len() - k,
    {
        if !eq_str(ps[k].name.as_slice(), "self") && !eq_str(ps[k].name.as_slice(), "cls") {
            return Some(k);
        }
        k += 1;
    }
    None
}

fn check_function(f: &NarrowingFunction) -> (r: Option<NarrowingMismatch>)
    ensures
        match r {
            Some(m) => narrowing_finding(*f) == Some(m@),
            None => narrowing_finding(*f) is None,
        },
{
    let (ann, span) = match &f.return_annotation {
        Some(a) => (&a.0, a.1),
        None => return None,
    };
    if !crate::text::contains_lit(ann.as_slice(), "TypeIs[") {
        return None;
    }
    let narrowed = match extract_inner_type(ann.as_slice()) {
        Some(n) => n,
        None => return None,
    };
    let k = match first_narrowed_param(&f.params) {
        Some(k) => k,
        None => return None,
    };
    let pt = match &f.params[k].annotation {
        Some(t) => t,
        None => return None,
    };
    if is_consistent(narrowed.as_slice(), pt.as_slice()) {
        None
    } else {
        Some(NarrowingMismatch { narrowed, param_type: copy_text(pt.as_slice()), span })
    }
}

/// `TypeIs` narrowing to an inconsistent type.
pub struct TypeIsInconsistentNarrowing;

impl TypeIsInconsistentNarrowing {
    /// The finding of each function, in order, as `narrowing_findings`
    /// states.
    pub fn check(&self, functions: &Vec<NarrowingFunction>) -> (r: Vec<NarrowingMismatch>)
        ensures
            r@.map_values(|m: NarrowingMismatch| m@) == narrowing_findings(functions@),
    {
        let mut out: Vec<NarrowingMismatch> = Vec::new();
        let mut k: usize = 0;
        while k < functions.len()
            invariant
                k <= functions@.len(),
                out@.map_values(|m: NarrowingMismatch| m@) == narrowing_findings(functions@.take(k as int)),
            decreases functions.len() - k,
        {
            proof {
                assert(functions@.take(k + 1).drop_last() =~= functions@.take(k as int));
                assert(functions@.take(k + 1).last() == functions@[k as int]);
            }
            let ghost before = out@.map_values(|m: NarrowingMismatch| m@);
            match check_function(&functions[k]) {
                Some(m) => {
                    out.push(m);
                },
                None => {},
            }
            proof {
                assert(out@.map_values(|m: NarrowingMismatch| m@) =~= narrowing_findings(
                    functions@.take(k + 1),
                ));
            }
            k += 1;
        }
        proof {
            assert(functions@.take(k as int) =~= functions@);
        }
        out
    }
}

} // verus!
