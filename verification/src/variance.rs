//! Variance of class type parameters, inferred from where they are used, and
//! assignments of generic instances checked against it.
use vstd::prelude::*;

use crate::assoc::{
    assoc_find, assoc_get, assoc_index, assoc_insert, lemma_assoc_index, lemma_assoc_index_at,
};
use crate::generic_calls::depth_paren;
use crate::generic_text::{
    extract_typevar_params_from_generic, generic_annotation, generic_params, parse_generic_annotation,
    split_top_level_type_args, type_args,
};
use crate::literal_values::closing_sq;
use crate::names::{contains_ident_ref, contains_typevar_reference};
use crate::position::{indent_of, leading_indent, line_span, span_for_line, utf8_len, Span};
use crate::text::{
    before_char, before_char_exec, contains_char, contains_char_exec, contains_lit, contains_str,
    eq_chars, eq_str, find_char, find_char_exec, find_str, first_where, is_ws, lemma_find_char,
    lemma_first_where_at, lemma_first_where_none, lemma_first_where_some, rfind_char,
    rfind_char_exec, slice_of, split_char, split_char_exec, split_top_commas, split_top_commas_exec,
    starts_with, starts_with_lit, trim, trim_chars, trim_start, views,
};

verus! {

/// The variance of a type parameter.
#[derive(Clone, Copy, PartialEq, Eq, Structural, Debug)]
pub enum Variance {
    Covariant,
    Contravariant,
    Invariant,
}

// ---------------------------------------------------------------------------
// Small classifications
// ---------------------------------------------------------------------------

/// `sub` is `sup`, or below it in `bool < int < float < complex`.
pub open spec fn numeric_subtype(sub: Seq<char>, sup: Seq<char>) -> bool {
    sub == sup || (sub == "bool"@ && (sup == "int"@ || sup == "float"@ || sup == "complex"@)) || (
    sub == "int"@ && (sup == "float"@ || sup == "complex"@)) || (sub == "float"@ && sup
        == "complex"@)
}

/// The numeric tower is a partial order: every type is its own subtype,
/// subtyping chains compose, and two types that are subtypes of each other
/// are the same.
pub proof fn law_numeric_subtype_partial_order(a: Seq<char>, b: Seq<char>, c: Seq<char>)
    ensures
        numeric_subtype(a, a),
        numeric_subtype(a, b) && numeric_subtype(b, c) ==> numeric_subtype(a, c),
        numeric_subtype(a, b) && numeric_subtype(b, a) ==> a == b,
{
    reveal_strlit("bool");
    reveal_strlit("int");
    reveal_strlit("float");
    reveal_strlit("complex");
    assert("bool"@.len() == 4 && "int"@.len() == 3 && "float"@.len() == 5 && "complex"@.len() == 7);
}

/// Whether `sub` is `sup` or below it in `bool < int < float < complex`.
pub fn is_numeric_subtype(sub: &[char], sup: &[char]) -> (r: bool)
    ensures
        r == numeric_subtype(sub@, sup@),
{
    if eq_chars(sub, sup) {
        return true;
    }
    (eq_str(sub, "bool") && (eq_str(sup, "int") || eq_str(sup, "float") || eq_str(sup, "complex")))
        || (eq_str(sub, "int") && (eq_str(sup, "float") || eq_str(sup, "complex"))) || (eq_str(
        sub,
        "float",
    ) && eq_str(sup, "complex"))
}

/// Mutable containers, whose parameters are invariant.
pub open spec fn known_invariant_base(name: Seq<char>) -> bool {
    name == "list"@ || name == "dict"@ || name == "set"@ || name == "deque"@ || name
        == "bytearray"@ || name == "MutableSequence"@ || name == "MutableMapping"@
}

/// Whether the name is a mutable standard container, whose parameters are invariant.
pub fn is_known_invariant_base(name: &[char]) -> (r: bool)
    ensures
        r == known_invariant_base(name@),
{
    eq_str(name, "list") || eq_str(name, "dict") || eq_str(name, "set") || eq_str(name, "deque")
        || eq_str(name, "bytearray") || eq_str(name, "MutableSequence") || eq_str(
        name,
        "MutableMapping",
    )
}

/// Read-only containers, whose parameters are covariant.
pub open spec fn known_covariant_base(name: Seq<char>) -> bool {
    name == "Sequence"@ || name == "FrozenSet"@ || name == "frozenset"@ || name == "Iterator"@
        || name == "Iterable"@ || name == "Mapping"@ || name == "tuple"@ || name == "Tuple"@
}

/// Whether the name is a read-only standard container, whose parameters are covariant.
pub fn is_known_covariant_base(name: &[char]) -> (r: bool)
    ensures
        r == known_covariant_base(name@),
{
    eq_str(name, "Sequence") || eq_str(name, "FrozenSet") || eq_str(name, "frozenset") || eq_str(
        name,
        "Iterator",
    ) || eq_str(name, "Iterable") || eq_str(name, "Mapping") || eq_str(name, "tuple") || eq_str(
        name,
        "Tuple",
    )
}

// ---------------------------------------------------------------------------
// Splitting parameter and base lists
// ---------------------------------------------------------------------------

/// The pieces between commas outside `()` and `[]`, untrimmed; a last piece
/// that is blank is left out.
pub open spec fn top_params(text: Seq<char>) -> Seq<Seq<char>> {
    let ps = split_top_commas(text);
    if trim(ps.last()).len() == 0 {
        ps.drop_last()
    } else {
        ps
    }
}

/// Splits a type-parameter list at its top-level commas into trimmed, non-empty pieces.
pub fn split_top_level_params(text: &[char]) -> (r: Vec<Vec<char>>)
    ensures
        views(r@) == top_params(text@),
{
    let mut ps = split_top_commas_exec(text);
    proof {
        crate::text::lemma_split_prefix_nonempty(text@, crate::text::top_comma_cut(text@), text@.len() as int);
    }
    let last = trim_chars(ps[ps.len() - 1].as_slice());
    proof {
        assert(views(ps@).last() == ps@[ps@.len() - 1]@);
    }
    if last.len() == 0 {
        let ghost before = views(ps@);
        ps.pop();
        proof {
            assert(views(ps@) =~= before.drop_last());
        }
    }
    ps
}

/// The trimmed pieces that are not empty and do not start with `Generic[`.
pub open spec fn keep_bases(ps: Seq<Seq<char>>) -> Seq<Seq<char>>
    decreases ps.len(),
{
    if ps.len() == 0 {
        Seq::empty()
    } else {
        let t = trim(ps.last());
        keep_bases(ps.drop_last()) + if t.len() > 0 && !starts_with(t, "Generic["@) {
            seq![t]
        } else {
            Seq::<Seq<char>>::empty()
        }
    }
}

/// Taking `text[open + 1..close]` between the first `(` and the last `)`
/// cannot panic: there is no `)`, or the last one comes after the first `(`.
pub open spec fn paren_slice_ok(text: Seq<char>) -> bool {
    match (find_char(text, '('), rfind_char(text, ')')) {
        (Some(o), Some(c)) => o < c,
        _ => true,
    }
}

/// The bases listed between the first `(` and the last `)` (or the end),
/// without `Generic[...]`.
pub open spec fn paren_bases(text: Seq<char>) -> Seq<Seq<char>> {
    match find_char(text, '(') {
        None => Seq::empty(),
        Some(o) => {
            let c = match rfind_char(text, ')') {
                Some(c) => c,
                None => text.len() as int,
            };
            keep_bases(split_top_commas(text.subrange(o + 1, c)))
        },
    }
}

fn keep_bases_exec(ps: &Vec<Vec<char>>) -> (r: Vec<Vec<char>>)
    ensures
        views(r@) == keep_bases(views(ps@)),
{
    let mut out: Vec<Vec<char>> = Vec::new();
    let mut i: usize = 0;
    while i < ps.len()
        invariant
            i <= ps@.len(),
            views(out@) == keep_bases(views(ps@).take(i as int)),
        decreases ps.len() - i,
    {
        proof {
            assert(views(ps@).take(i + 1).drop_last() =~= views(ps@).take(i as int));
            assert(views(ps@).take(i + 1).last() == ps@[i as int]@);
        }
        let t = trim_chars(ps[i].as_slice());
        let ghost before = views(out@);
        if t.len() > 0 && !starts_with_lit(t.as_slice(), "Generic[") {
            out.push(t);
            proof {
                assert(views(out@) =~= before + seq![t@]);
            }
        } else {
            proof {
                assert(views(out@) =~= before + Seq::<Seq<char>>::empty());
            }
        }
        i += 1;
    }
    proof {
        assert(views(ps@).take(i as int) =~= views(ps@));
    }
    out
}

/// The base-class texts between the parentheses of a class line, split at top-level commas.
pub fn extract_paren_bases(text: &[char]) -> (r: Vec<Vec<char>>)
    requires
        paren_slice_ok(text@),
    ensures
        views(r@) == paren_bases(text@),
{
    proof {
        lemma_find_char(text@, '(');
        crate::text::lemma_rfind_char(text@, ')');
    }
    let open = match find_char_exec(text, '(') {
        Some(o) => o,
        None => return Vec::new(),
    };
    let close = match rfind_char_exec(text, ')') {
        Some(c) => c,
        None => text.len(),
    };
    let inner = slice_of(text, open + 1, close);
    let ps = split_top_commas_exec(inner.as_slice());
    keep_bases_exec(&ps)
}

/// The bases of a class line: after the type parameter list for a PEP 695
/// class, otherwise after the name.
pub open spec fn class_bases(class_line: Seq<char>, is_pep695: bool) -> Seq<Seq<char>> {
    let after_class = trim(class_line).skip(6);
    if is_pep695 {
        match find_char(after_class, ']') {
            None => Seq::empty(),
            Some(b) => paren_bases(after_class.skip(b + 1)),
        }
    } else {
        paren_bases(after_class)
    }
}

/// The text that `class_bases` reads the bases from.
pub open spec fn bases_text(class_line: Seq<char>, is_pep695: bool) -> Seq<char> {
    let after_class = trim(class_line).skip(6);
    if is_pep695 {
        match find_char(after_class, ']') {
            None => Seq::empty(),
            Some(b) => after_class.skip(b + 1),
        }
    } else {
        after_class
    }
}

/// `extract_bases`: the line must hold at least `class ` after trimming.
pub fn extract_bases(class_line: &[char], is_pep695: bool) -> (r: Vec<Vec<char>>)
    requires
        trim(class_line@).len() >= 6,
        paren_slice_ok(bases_text(class_line@, is_pep695)),
    ensures
        views(r@) == class_bases(class_line@, is_pep695),
{
    let t = trim_chars(class_line);
    let after_class = slice_of(t.as_slice(), 6, t.len());
    proof {
        assert(after_class@ =~= t@.skip(6));
    }
    if is_pep695 {
        proof {
            lemma_find_char(after_class@, ']');
        }
        match find_char_exec(after_class.as_slice(), ']') {
            None => Vec::new(),
            Some(b) => {
                let rest = slice_of(after_class.as_slice(), b + 1, after_class.len());
                proof {
                    assert(rest@ =~= after_class@.skip(b + 1));
                }
                extract_paren_bases(rest.as_slice())
            },
        }
    } else {
        extract_paren_bases(after_class.as_slice())
    }
}

// ---------------------------------------------------------------------------
// Decorators and class bodies
// ---------------------------------------------------------------------------

/// Scanning back from line `k` (exclusive) over decorators, blank lines and
/// comments: whether a `@...dataclass...` decorator was seen, and whether one
/// also holds `frozen` and `True`.
pub open spec fn decorators_from(lines: Seq<Seq<char>>, k: int) -> (bool, bool)
    decreases k,
{
    if k <= 0 {
        (false, false)
    } else {
        let prev = trim(lines[k - 1]);
        if starts_with(prev, "@"@) {
            let rest = decorators_from(lines, k - 1);
            if contains_str(prev, "dataclass"@) {
                (true, rest.1 || (contains_str(prev, "frozen"@) && contains_str(prev, "True"@)))
            } else {
                rest
            }
        } else if prev.len() > 0 && prev[0] != '#' {
            (false, false)
        } else {
            decorators_from(lines, k - 1)
        }
    }
}

/// `check_decorators`: `(is_dataclass, is_frozen_dataclass)` for the class at
/// line `class_idx`.
pub fn check_decorators(lines: &Vec<Vec<char>>, class_idx: usize) -> (r: (bool, bool))
    requires
        class_idx <= lines@.len(),
    ensures
        r == decorators_from(views(lines@), class_idx as int),
{
    let ghost ls = views(lines@);
    let mut is_dc = false;
    let mut is_frozen = false;
    let mut check_idx = class_idx;
    while check_idx > 0
        invariant
            check_idx <= class_idx <= lines@.len(),
            ls == views(lines@),
            decorators_from(ls, class_idx as int) == (
            if is_dc {
                (true, is_frozen || decorators_from(ls, check_idx as int).1)
            } else {
                (decorators_from(ls, check_idx as int).0, is_frozen || decorators_from(
                    ls,
                    check_idx as int,
                ).1)
            }),
            !is_dc ==> !is_frozen,
        decreases check_idx,
    {
        check_idx -= 1;
        proof {
            assert(ls[check_idx as int] == lines@[check_idx as int]@);
        }
        let prev = trim_chars(lines[check_idx].as_slice());
        if starts_with_lit(prev.as_slice(), "@") {
            if contains_lit(prev.as_slice(), "dataclass") {
                is_dc = true;
                if contains_lit(prev.as_slice(), "frozen") && contains_lit(prev.as_slice(), "True") {
                    is_frozen = true;
                }
            }
        } else if prev.len() > 0 && prev[0] != '#' {
            return (is_dc, is_frozen);
        }
    }
    (is_dc, is_frozen)
}

/// The trimmed body lines of a class: from line `k` on, blank lines and
/// comments skipped, up to the first line indented no deeper (in bytes) than `class_indent`.
pub open spec fn body_lines_from(lines: Seq<Seq<char>>, k: int, class_indent: nat) -> Seq<Seq<char>>
    decreases lines.len() - k,
{
    if k < 0 || k >= lines.len() {
        Seq::empty()
    } else {
        let t = trim(lines[k]);
        if t.len() == 0 || t[0] == '#' {
            body_lines_from(lines, k + 1, class_indent)
        } else if indent_of(lines[k]) <= class_indent {
            Seq::empty()
        } else {
            seq![t] + body_lines_from(lines, k + 1, class_indent)
        }
    }
}

/// Every line is short enough for its byte offsets to fit in `u32`.
pub open spec fn lines_fit(lines: Seq<Seq<char>>) -> bool {
    forall|i: int| 0 <= i < lines.len() ==> utf8_len(#[trigger] lines[i]) <= u32::MAX
}

/// Collects the class body lines from `start` on (see `body_lines_from`).
pub fn collect_body_lines(lines: &Vec<Vec<char>>, start: usize, class_indent: usize) -> (r: Vec<Vec<char>>)
    requires
        lines_fit(views(lines@)),
    ensures
        views(r@) == body_lines_from(views(lines@), start as int, class_indent as nat),
{
    let ghost ls = views(lines@);
    let mut body: Vec<Vec<char>> = Vec::new();
    let mut idx = start;
    proof {
        assert(body_lines_from(ls, start as int, class_indent as nat) =~= views(body@)
            + body_lines_from(ls, idx as int, class_indent as nat));
    }
    while idx < lines.len()
        invariant
            ls == views(lines@),
            lines_fit(ls),
            idx >= start,
            body_lines_from(ls, start as int, class_indent as nat) == views(body@) + body_lines_from(
                ls,
                idx as int,
                class_indent as nat,
            ),
        decreases lines.len() - idx,
    {
        proof {
            assert(ls[idx as int] == lines@[idx as int]@);
            assert(utf8_len(ls[idx as int]) <= u32::MAX);
        }
        let line = &lines[idx];
        let trimmed = trim_chars(line.as_slice());
        if trimmed.len() == 0 || trimmed[0] == '#' {
            idx += 1;
            continue;
        }
        let indent = leading_indent(line.as_slice());
        if indent <= class_indent {
            proof {
                assert(views(body@) + Seq::<Seq<char>>::empty() =~= views(body@));
            }
            return body;
        }
        let ghost before = views(body@);
        body.push(trimmed);
        proof {
            assert(views(body@) =~= before.push(trimmed@));
            assert(before + (seq![trimmed@] + body_lines_from(ls, idx + 1, class_indent as nat))
                =~= views(body@) + body_lines_from(ls, idx + 1, class_indent as nat));
        }
        idx += 1;
    }
    proof {
        assert(body_lines_from(ls, idx as int, class_indent as nat) =~= Seq::<Seq<char>>::empty());
        assert(views(body@) + Seq::<Seq<char>>::empty() =~= views(body@));
    }
    body
}

// ---------------------------------------------------------------------------
// Where a parameter is used
// ---------------------------------------------------------------------------

/// The return annotation (text after the first `->`, up to a `:`) names `param`.
pub open spec fn returns_param(line: Seq<char>, param: Seq<char>) -> bool {
    match find_str(line, "->"@) {
        Some(a) => contains_ident_ref(trim(before_char(line.skip(a + 2), ':')), param),
        None => false,
    }
}

/// Piece `idx` of a parameter list has an annotation (before any default)
/// naming `param`; a first `self`/`cls` parameter does not count.
pub open spec fn param_piece_mentions(raw: Seq<char>, idx: int, param: Seq<char>) -> bool {
    let p = trim(raw);
    !(idx == 0 && (starts_with(p, "self"@) || starts_with(p, "cls"@))) && match find_char(p, ':') {
        Some(c) => contains_ident_ref(trim(before_char(p.skip(c + 1), '=')), param),
        None => false,
    }
}

/// Some parameter (split at every comma between the first `(` and the last
/// `)`) is annotated with `param`.
pub open spec fn params_mention(line: Seq<char>, param: Seq<char>) -> bool {
    match (find_char(line, '('), rfind_char(line, ')')) {
        (Some(o), Some(c)) => {
            let ps = split_char(line.subrange(o + 1, c), ',');
            exists|j: int| 0 <= j < ps.len() && param_piece_mentions(#[trigger] ps[j], j, param)
        },
        _ => false,
    }
}

/// `analyze_method_signature`: a return position makes `param` covariant, a
/// parameter position contravariant.
pub fn analyze_method_signature(
    line: &[char],
    param: &[char],
    covariant_usage: &mut bool,
    contravariant_usage: &mut bool,
)
    requires
        param@.len() > 0,
        paren_slice_ok(line@),
    ensures
        *final(covariant_usage) == (*old(covariant_usage) || returns_param(line@, param@)),
        *final(contravariant_usage) == (*old(contravariant_usage) || params_mention(line@, param@)),
{
    proof {
        crate::text::lemma_find_str(line@, "->"@);
        lemma_find_char(line@, '(');
        crate::text::lemma_rfind_char(line@, ')');
    }
    match crate::text::find_lit(line, "->") {
        Some(a) => {
            proof {
                reveal_strlit("->");
                assert(crate::text::matches_at(line@, a as int, "->"@));
                assert(a + 2 <= line@.len());
            }
            let n = line.len();
            let rest = slice_of(line, a + 2, n);
            proof {
                assert(rest@ =~= line@.skip(a + 2));
            }
            let head = before_char_exec(rest.as_slice(), ':');
            let ret = trim_chars(head.as_slice());
            if contains_typevar_reference(ret.as_slice(), param) {
                *covariant_usage = true;
            }
        },
        None => {},
    }
    let open = match find_char_exec(line, '(') {
        Some(o) => o,
        None => return ,
    };
    let close = match rfind_char_exec(line, ')') {
        Some(c) => c,
        None => return ,
    };
    let params_text = slice_of(line, open + 1, close);
    let ps = split_char_exec(params_text.as_slice(), ',');
    let ghost pv = views(ps@);
    let mut found = false;
    let mut j: usize = 0;
    while j < ps.len()
        invariant
            j <= ps@.len(),
            pv == views(ps@),
            open < close,
            pv == split_char(line@.subrange(open + 1, close as int), ','),
            param@.len() > 0,
            found == exists|q: int| 0 <= q < j && param_piece_mentions(#[trigger] pv[q], q, param@),
        decreases ps.len() - j,
    {
        proof {
            assert(pv[j as int] == ps@[j as int]@);
        }
        let p = trim_chars(ps[j].as_slice());
        let mut hit = false;
        if !(j == 0 && (starts_with_lit(p.as_slice(), "self") || starts_with_lit(p.as_slice(), "cls"))) {
            proof {
                lemma_find_char(p@, ':');
            }
            match find_char_exec(p.as_slice(), ':') {
                Some(c) => {
                    proof {
                        assert(c < p@.len());
                    }
                    let pn = p.len();
                    let after = slice_of(p.as_slice(), c + 1, pn);
                    proof {
                        assert(after@ =~= p@.skip(c + 1));
                    }
                    let head = before_char_exec(after.as_slice(), '=');
                    let ann = trim_chars(head.as_slice());
                    hit = contains_typevar_reference(ann.as_slice(), param);
                },
                None => {},
            }
        }
        proof {
            assert(hit == param_piece_mentions(pv[j as int], j as int, param@));
        }
        found = found || hit;
        j += 1;
    }
    if found {
        *contravariant_usage = true;
    }
}

/// What a class-level field `name: annotation` adds: a `Final` annotation or a
/// frozen dataclass makes `param` covariant, a plain dataclass field both.
pub open spec fn field_effect(line: Seq<char>, param: Seq<char>, frozen: bool, dataclass: bool) -> (
    bool,
    bool,
) {
    match find_char(line, ':') {
        None => (false, false),
        Some(c) => {
            let field = trim(line.take(c));
            let ann = trim(before_char(line.skip(c + 1), '='));
            if field.len() == 0 || !crate::text::all_alnum_or_underscore(field) || !contains_ident_ref(
                ann,
                param,
            ) {
                (false, false)
            } else if contains_str(ann, "Final"@) || frozen {
                (true, false)
            } else if dataclass {
                (true, true)
            } else {
                (false, false)
            }
        },
    }
}

/// A class collected for variance inference.
pub struct ClassForVariance {
    pub name: Vec<char>,
    pub type_params: Vec<Vec<char>>,
    pub bases: Vec<Vec<char>>,
    pub body_lines: Vec<Vec<char>>,
    pub is_frozen_dataclass: bool,
    pub is_dataclass: bool,
}

pub struct ClassV {
    pub name: Seq<char>,
    pub type_params: Seq<Seq<char>>,
    pub bases: Seq<Seq<char>>,
    pub body_lines: Seq<Seq<char>>,
    pub is_frozen_dataclass: bool,
    pub is_dataclass: bool,
}

pub open spec fn class_view(c: ClassForVariance) -> ClassV {
    ClassV {
        name: c.name@,
        type_params: views(c.type_params@),
        bases: views(c.bases@),
        body_lines: views(c.body_lines@),
        is_frozen_dataclass: c.is_frozen_dataclass,
        is_dataclass: c.is_dataclass,
    }
}

/// Records what a class-level field annotation mentioning the parameter
/// implies (see `field_effect`): a `Final` field or a frozen dataclass is a
/// covariant use, a plain dataclass field both.
pub fn check_field_annotation(
    line: &[char],
    param: &[char],
    class: &ClassForVariance,
    covariant_usage: &mut bool,
    contravariant_usage: &mut bool,
)
    requires
        param@.len() > 0,
    ensures
        *final(covariant_usage) == (*old(covariant_usage) || field_effect(
            line@,
            param@,
            class.is_frozen_dataclass,
            class.is_dataclass,
        ).0),
        *final(contravariant_usage) == (*old(contravariant_usage) || field_effect(
            line@,
            param@,
            class.is_frozen_dataclass,
            class.is_dataclass,
        ).1),
{
    proof {
        lemma_find_char(line@, ':');
    }
    let c = match find_char_exec(line, ':') {
        Some(c) => c,
        None => return ,
    };
    proof {
        assert(c < line@.len());
    }
    let head = slice_of(line, 0, c);
    let field = trim_chars(head.as_slice());
    let n = line.len();
    let after = slice_of(line, c + 1, n);
    proof {
        assert(head@ =~= line@.take(c as int));
        assert(after@ =~= line@.skip(c + 1));
    }
    let ann_raw = before_char_exec(after.as_slice(), '=');
    let ann = trim_chars(ann_raw.as_slice());
    if field.len() == 0 || !crate::text::is_alnum_underscore_word(field.as_slice()) {
        return ;
    }
    if !contains_typevar_reference(ann.as_slice(), param) {
        return ;
    }
    if contains_lit(ann.as_slice(), "Final") || class.is_frozen_dataclass {
        *covariant_usage = true;
    } else if class.is_dataclass {
        *covariant_usage = true;
        *contravariant_usage = true;
    }
}

/// `check_traditional_parent_variance`: a parent that is a traditional generic
/// class adds nothing here; its declared variances reach the inference through
/// the known variances of that class instead.
pub fn check_traditional_parent_variance(
    base_name: &[char],
    pos: usize,
    typevar_declared: &Vec<(Vec<char>, Variance)>,
    covariant_usage: &mut bool,
    contravariant_usage: &mut bool,
)
    ensures
        *final(covariant_usage) == *old(covariant_usage),
        *final(contravariant_usage) == *old(contravariant_usage),
{
}

// ---------------------------------------------------------------------------
// Inference
// ---------------------------------------------------------------------------

pub open spec fn known_view(v: Seq<(Vec<char>, Vec<Variance>)>) -> Seq<(Seq<char>, Seq<Variance>)> {
    v.map_values(|e: (Vec<char>, Vec<Variance>)| (e.0@, e.1@))
}

/// Usage flags `(covariant, contravariant)` after argument `pos` of base
/// `base_name`; `None` when the argument forces invariance.
pub open spec fn arg_step(
    st: (bool, bool),
    base_name: Seq<char>,
    pos: int,
    arg: Seq<char>,
    param: Seq<char>,
    known: Seq<(Seq<char>, Seq<Variance>)>,
) -> Option<(bool, bool)> {
    if !contains_ident_ref(arg, param) {
        Some(st)
    } else if known_invariant_base(base_name) {
        None
    } else if known_covariant_base(base_name) {
        Some((true, st.1))
    } else {
        match assoc_get(known, base_name) {
            Some(vs) => if 0 <= pos < vs.len() {
                match vs[pos] {
                    Variance::Invariant => None,
                    Variance::Covariant => Some((true, st.1)),
                    Variance::Contravariant => Some((st.0, true)),
                }
            } else {
                Some(st)
            },
            None => Some(st),
        }
    }
}

pub open spec fn args_fold(
    st: (bool, bool),
    base_name: Seq<char>,
    args: Seq<Seq<char>>,
    k: int,
    param: Seq<char>,
    known: Seq<(Seq<char>, Seq<Variance>)>,
) -> Option<(bool, bool)>
    decreases k,
{
    if k <= 0 {
        Some(st)
    } else {
        match args_fold(st, base_name, args, k - 1, param, known) {
            None => None,
            Some(s) => arg_step(s, base_name, k - 1, args[k - 1], param, known),
        }
    }
}

/// The flags after the first `k` bases (each read as `Name[args]`).
pub open spec fn bases_fold(
    bases: Seq<Seq<char>>,
    k: int,
    param: Seq<char>,
    known: Seq<(Seq<char>, Seq<Variance>)>,
) -> Option<(bool, bool)>
    decreases k,
{
    if k <= 0 {
        Some((false, false))
    } else {
        match bases_fold(bases, k - 1, param, known) {
            None => None,
            Some(s) => match generic_annotation(bases[k - 1]) {
                None => Some(s),
                Some(na) => args_fold(s, na.0, na.1, na.1.len() as int, param, known),
            },
        }
    }
}

/// The name of a method from its `def` line.
pub open spec fn method_name(line: Seq<char>) -> Seq<char> {
    trim(before_char(line.skip(4), '('))
}

pub open spec fn is_excluded_method(line: Seq<char>) -> bool {
    method_name(line) == "__init__"@ || method_name(line) == "__new__"@
}

/// Stops an attribute name: `=`, `.` or a space.
pub open spec fn attr_stop(s: Seq<char>) -> spec_fn(int) -> bool {
    |i: int| s[i] == '=' || s[i] == '.' || s[i] == ' '
}

/// The text before the first attribute stop.
pub open spec fn attr_head(s: Seq<char>) -> Seq<char> {
    match first_where(attr_stop(s), s.len() as int) {
        Some(i) => s.take(i),
        None => s,
    }
}

/// `self.name = ...` with a public `name` (not starting with `_`).
pub open spec fn public_attr_assign(line: Seq<char>) -> bool {
    let attr = trim(attr_head(line.skip(5)));
    starts_with(line, "self."@) && contains_char(line, '=') && !contains_str(line, "=="@)
        && !starts_with(attr, "_"@) && attr.len() > 0
}

/// A line that `check_field_annotation` reads.
pub open spec fn field_line(line: Seq<char>) -> bool {
    !starts_with(line, "def "@) && !starts_with(line, "@"@) && contains_char(line, ':')
        && !starts_with(line, "self."@)
}

/// The scan state over body lines: `(in_excluded_method, has_setter,
/// has_public_attr_assignment, covariant, contravariant)`.
pub open spec fn line_step(
    st: (bool, bool, bool, bool, bool),
    line: Seq<char>,
    param: Seq<char>,
    frozen: bool,
    dataclass: bool,
) -> (bool, bool, bool, bool, bool) {
    let setter = st.1 || contains_str(line, ".setter"@);
    if starts_with(line, "def "@) {
        let ex = is_excluded_method(line);
        (
            ex,
            setter,
            st.2,
            st.3 || (!ex && returns_param(line, param)),
            st.4 || (!ex && params_mention(line, param)),
        )
    } else {
        let public = st.2 || (st.0 && public_attr_assign(line));
        let eff = if field_line(line) {
            field_effect(line, param, frozen, dataclass)
        } else {
            (false, false)
        };
        (st.0, setter, public, st.3 || eff.0, st.4 || eff.1)
    }
}

pub open spec fn lines_fold(
    st: (bool, bool, bool, bool, bool),
    lines: Seq<Seq<char>>,
    k: int,
    param: Seq<char>,
    frozen: bool,
    dataclass: bool,
) -> (bool, bool, bool, bool, bool)
    decreases k,
{
    if k <= 0 {
        st
    } else {
        line_step(lines_fold(st, lines, k - 1, param, frozen, dataclass), lines[k - 1], param, frozen, dataclass)
    }
}

/// The inferred variance of `param` in class `c`: invariant when a base forces
/// it, when a public attribute is assigned in `__init__`/`__new__` (unless
/// frozen), when a setter exists beside a covariant use, or when the
/// parameter is used both ways or not at all.
pub open spec fn single_variance(param: Seq<char>, c: ClassV, known: Seq<(Seq<char>, Seq<Variance>)>) -> Variance {
    match bases_fold(c.bases, c.bases.len() as int, param, known) {
        None => Variance::Invariant,
        Some(f) => {
            let st = lines_fold(
                (false, false, false, f.0, f.1),
                c.body_lines,
                c.body_lines.len() as int,
                param,
                c.is_frozen_dataclass,
                c.is_dataclass,
            );
            if st.2 && !c.is_frozen_dataclass {
                Variance::Invariant
            } else if st.1 && st.3 {
                Variance::Invariant
            } else if st.3 && !st.4 {
                Variance::Covariant
            } else if !st.3 && st.4 {
                Variance::Contravariant
            } else {
                Variance::Invariant
            }
        },
    }
}

/// The method lines that the inference analyzes can be sliced between their
/// parentheses.
pub open spec fn body_ok(body: Seq<Seq<char>>) -> bool {
    forall|i: int|
        0 <= i < body.len() && starts_with(#[trigger] body[i], "def "@) && !is_excluded_method(body[i])
            ==> paren_slice_ok(body[i])
}

fn known_get(known: &Vec<(Vec<char>, Vec<Variance>)>, name: &[char]) -> (r: Option<usize>)
    ensures
        match r {
            Some(i) => i < known@.len() && assoc_get(known_view(known@), name@) == Some(
                known@[i as int].1@,
            ),
            None => assoc_get(known_view(known@), name@) is None,
        },
{
    let r = assoc_find(known, name);
    proof {
        let m = known_view(known@);
        lemma_assoc_index(m, name@);
        match r {
            Some(i) => {
                assert forall|j: int| 0 <= j < i implies m[j].0 != name@ by {
                    assert(m[j].0 == known@[j].0@);
                }
                lemma_assoc_index_at(m, name@, i as int);
            },
            None => {
                assert forall|j: int| 0 <= j < m.len() implies m[j].0 != name@ by {
                    assert(m[j].0 == known@[j].0@);
                }
            },
        }
    }
    r
}

proof fn lemma_args_fold_none(
    st: (bool, bool),
    base_name: Seq<char>,
    args: Seq<Seq<char>>,
    k: int,
    m: int,
    param: Seq<char>,
    known: Seq<(Seq<char>, Seq<Variance>)>,
)
    requires
        0 <= k <= m,
        args_fold(st, base_name, args, k, param, known) is None,
    ensures
        args_fold(st, base_name, args, m, param, known) is None,
    decreases m - k,
{
    if m > k {
        lemma_args_fold_none(st, base_name, args, k, m - 1, param, known);
    }
}

proof fn lemma_bases_fold_none(
    bases: Seq<Seq<char>>,
    k: int,
    m: int,
    param: Seq<char>,
    known: Seq<(Seq<char>, Seq<Variance>)>,
)
    requires
        0 <= k <= m,
        bases_fold(bases, k, param, known) is None,
    ensures
        bases_fold(bases, m, param, known) is None,
    decreases m - k,
{
    if m > k {
        lemma_bases_fold_none(bases, k, m - 1, param, known);
    }
}

/// Phase 1 of the inference: the bases.
fn bases_usage(
    param: &[char],
    class: &ClassForVariance,
    known: &Vec<(Vec<char>, Vec<Variance>)>,
    typevar_declared: &Vec<(Vec<char>, Variance)>,
) -> (r: Option<(bool, bool)>)
    requires
        param@.len() > 0,
    ensures
        r == bases_fold(views(class.bases@), class.bases@.len() as int, param@, known_view(known@)),
{
    let ghost bs = views(class.bases@);
    let ghost kv = known_view(known@);
    let mut cov = false;
    let mut contra = false;
    let mut b: usize = 0;
    while b < class.bases.len()
        invariant
            b <= class.bases@.len(),
            bs == views(class.bases@),
            kv == known_view(known@),
            param@.len() > 0,
            bases_fold(bs, b as int, param@, kv) == Some((cov, contra)),
        decreases class.bases.len() - b,
    {
        proof {
            assert(bs[b as int] == class.bases@[b as int]@);
        }
        match parse_generic_annotation(class.bases[b].as_slice()) {
            None => {},
            Some((base_name, base_args)) => {
                let ghost av = views(base_args@);
                let mut pos: usize = 0;
                while pos < base_args.len()
                    invariant
                        pos <= base_args@.len(),
                        av == views(base_args@),
                        kv == known_view(known@),
                        param@.len() > 0,
                        args_fold(
                            bases_fold(bs, b as int, param@, kv)->0,
                            base_name@,
                            av,
                            pos as int,
                            param@,
                            kv,
                        ) == Some((cov, contra)),
                        bases_fold(bs, b as int, param@, kv) is Some,
                        b < class.bases@.len(),
                        bs == views(class.bases@),
                        generic_annotation(bs[b as int]) == Some((base_name@, av)),
                    decreases base_args.len() - pos,
                {
                    proof {
                        assert(av[pos as int] == base_args@[pos as int]@);
                    }
                    let arg = &base_args[pos];
                    if !contains_typevar_reference(arg.as_slice(), param) {
                        pos += 1;
                        continue;
                    }
                    if is_known_invariant_base(base_name.as_slice()) {
                        proof {
                            lemma_args_fold_none(bases_fold(bs, b as int, param@, kv)->0, base_name@, av, pos + 1, av.len() as int, param@, kv);
                            lemma_bases_fold_none(bs, b + 1, bs.len() as int, param@, kv);
                        }
                        return None;
                    }
                    if is_known_covariant_base(base_name.as_slice()) {
                        cov = true;
                        pos += 1;
                        continue;
                    }
                    match known_get(known, base_name.as_slice()) {
                        Some(i) => {
                            if pos < known[i].1.len() {
                                match known[i].1[pos] {
                                    Variance::Invariant => {
                                        proof {
                                            assert(known_view(known@)[i as int].1 == known@[i as int].1@);
                                            lemma_args_fold_none(bases_fold(bs, b as int, param@, kv)->0, base_name@, av, pos + 1, av.len() as int, param@, kv);
                                            lemma_bases_fold_none(bs, b + 1, bs.len() as int, param@, kv);
                                        }
                                        return None;
                                    },
                                    Variance::Covariant => {
                                        cov = true;
                                    },
                                    Variance::Contravariant => {
                                        contra = true;
                                    },
                                }
                            }
                        },
                        None => {},
                    }
                    check_traditional_parent_variance(
                        base_name.as_slice(),
                        pos,
                        typevar_declared,
                        &mut cov,
                        &mut contra,
                    );
                    pos += 1;
                }
                proof {
                    assert(av.len() == base_args@.len());
                }
            },
        }
        b += 1;
    }
    Some((cov, contra))
}

/// The attribute name read from the text after `self.`.
fn attr_head_exec(s: &[char]) -> (r: Vec<char>)
    ensures
        r@ == attr_head(s@),
{
    let mut i: usize = 0;
    while i < s.len()
        invariant
            i <= s@.len(),
            forall|j: int| 0 <= j < i ==> !#[trigger] attr_stop(s@)(j),
        decreases s.len() - i,
    {
        if s[i] == '=' || s[i] == '.' || s[i] == ' ' {
            proof {
                assert(attr_stop(s@)(i as int));
                lemma_first_where_at(attr_stop(s@), i as int, s@.len() as int);
            }
            return slice_of(s, 0, i);
        }
        i += 1;
    }
    proof {
        lemma_first_where_none(attr_stop(s@), s@.len() as int);
    }
    slice_of(s, 0, s.len())
}

/// Infers the variance of one type parameter of a class from its fields, methods and generic bases; a declared variance wins.
pub fn infer_single_variance(
    param: &[char],
    class: &ClassForVariance,
    known_variances: &Vec<(Vec<char>, Vec<Variance>)>,
    typevar_declared: &Vec<(Vec<char>, Variance)>,
) -> (r: Variance)
    requires
        param@.len() > 0,
        body_ok(views(class.body_lines@)),
    ensures
        r == single_variance(param@, class_view(*class), known_view(known_variances@)),
{
    let (mut covariant_usage, mut contravariant_usage) = match bases_usage(
        param,
        class,
        known_variances,
        typevar_declared,
    ) {
        None => return Variance::Invariant,
        Some(f) => f,
    };
    let ghost f0 = (covariant_usage, contravariant_usage);
    let ghost body = views(class.body_lines@);
    let frozen = class.is_frozen_dataclass;
    let dc = class.is_dataclass;
    let mut in_excluded_method = false;
    let mut has_setter_for_param = false;
    let mut has_public_attr_assignment = false;
    let mut k: usize = 0;
    while k < class.body_lines.len()
        invariant
            k <= class.body_lines@.len(),
            body == views(class.body_lines@),
            body_ok(body),
            param@.len() > 0,
            frozen == class.is_frozen_dataclass,
            dc == class.is_dataclass,
            lines_fold((false, false, false, f0.0, f0.1), body, k as int, param@, frozen, dc) == (
                in_excluded_method,
                has_setter_for_param,
                has_public_attr_assignment,
                covariant_usage,
                contravariant_usage,
            ),
        decreases class.body_lines.len() - k,
    {
        let line = class.body_lines[k].as_slice();
        proof {
            assert(body[k as int] == line@);
        }
        if contains_lit(line, ".setter") {
            has_setter_for_param = true;
        }
        if starts_with_lit(line, "def ") {
            proof {
                reveal_strlit("def ");
            }
            let n = line.len();
            let rest = slice_of(line, 4, n);
            let head = before_char_exec(rest.as_slice(), '(');
            let method_name = trim_chars(head.as_slice());
            proof {
                assert(rest@ =~= line@.skip(4));
            }
            let is_excluded = eq_str(method_name.as_slice(), "__init__") || eq_str(
                method_name.as_slice(),
                "__new__",
            );
            in_excluded_method = is_excluded;
            if !is_excluded {
                proof {
                    assert(paren_slice_ok(body[k as int]));
                }
                analyze_method_signature(line, param, &mut covariant_usage, &mut contravariant_usage);
            }
            k += 1;
            continue;
        }
        if in_excluded_method && starts_with_lit(line, "self.") && contains_char_exec(line, '=')
            && !contains_lit(line, "==") {
            proof {
                reveal_strlit("self.");
            }
            let n = line.len();
            let attr_part = slice_of(line, 5, n);
            proof {
                assert(attr_part@ =~= line@.skip(5));
            }
            let head = attr_head_exec(attr_part.as_slice());
            let attr_name = trim_chars(head.as_slice());
            if !starts_with_lit(attr_name.as_slice(), "_") && attr_name.len() > 0 {
                has_public_attr_assignment = true;
            }
        }
        if !starts_with_lit(line, "def ") && !starts_with_lit(line, "@") && contains_char_exec(line, ':')
            && !starts_with_lit(line, "self.") {
            check_field_annotation(line, param, class, &mut covariant_usage, &mut contravariant_usage);
        }
        k += 1;
    }
    if has_public_attr_assignment && !class.is_frozen_dataclass {
        return Variance::Invariant;
    }
    if has_setter_for_param && covariant_usage {
        return Variance::Invariant;
    }
    if covariant_usage && !contravariant_usage {
        Variance::Covariant
    } else if !covariant_usage && contravariant_usage {
        Variance::Contravariant
    } else {
        Variance::Invariant
    }
}

/// The inferred variance of each type parameter of a class.
pub open spec fn class_variances(c: ClassV, known: Seq<(Seq<char>, Seq<Variance>)>) -> Seq<Variance> {
    c.type_params.map_values(|p: Seq<char>| single_variance(p, c, known))
}

/// Every type parameter name is non-empty.
pub open spec fn params_nonempty(ps: Seq<Seq<char>>) -> bool {
    forall|i: int| 0 <= i < ps.len() ==> (#[trigger] ps[i]).len() > 0
}

/// Infers the variance of each type parameter of the class, in order.
pub fn infer_variances(
    class: &ClassForVariance,
    known_variances: &Vec<(Vec<char>, Vec<Variance>)>,
    typevar_declared: &Vec<(Vec<char>, Variance)>,
) -> (r: Vec<Variance>)
    requires
        params_nonempty(views(class.type_params@)),
        body_ok(views(class.body_lines@)),
    ensures
        r@ == class_variances(class_view(*class), known_view(known_variances@)),
{
    let mut out: Vec<Variance> = Vec::new();
    let mut i: usize = 0;
    while i < class.type_params.len()
        invariant
            i <= class.type_params@.len(),
            params_nonempty(views(class.type_params@)),
            body_ok(views(class.body_lines@)),
            out@ == class_variances(class_view(*class), known_view(known_variances@)).take(i as int),
        decreases class.type_params.len() - i,
    {
        proof {
            assert(views(class.type_params@)[i as int] == class.type_params@[i as int]@);
        }
        let v = infer_single_variance(class.type_params[i].as_slice(), class, known_variances, typevar_declared);
        out.push(v);
        proof {
            assert(out@ =~= class_variances(class_view(*class), known_view(known_variances@)).take(i + 1));
        }
        i += 1;
    }
    proof {
        assert(class_variances(class_view(*class), known_view(known_variances@)).take(i as int)
            =~= class_variances(class_view(*class), known_view(known_variances@)));
    }
    out
}

// ---------------------------------------------------------------------------
// Assignments
// ---------------------------------------------------------------------------

/// An assignment of `class_name[rhs_arg]` where `class_name[lhs_arg]` is
/// expected, the parameter's variance not allowing it, on the line spanned by `span`.
pub struct VarianceDiagnostic {
    pub class_name: Vec<char>,
    pub lhs_arg: Vec<char>,
    pub rhs_arg: Vec<char>,
    pub variance: Variance,
    pub span: Span,
}

pub struct VarDiagV {
    pub class_name: Seq<char>,
    pub lhs_arg: Seq<char>,
    pub rhs_arg: Seq<char>,
    pub variance: Variance,
    pub span: (nat, nat),
}

/// How a message names a variance.
pub open spec fn variance_label(v: Variance) -> Seq<char> {
    match v {
        Variance::Covariant => "covariant"@,
        Variance::Contravariant => "contravariant"@,
        Variance::Invariant => "invariant"@,
    }
}

/// Appends the variance's name.
pub fn push_variance(m: &mut Vec<char>, v: Variance)
    ensures
        final(m)@ == old(m)@ + variance_label(v),
{
    match v {
        Variance::Covariant => crate::text::push_lit(m, "covariant"),
        Variance::Contravariant => crate::text::push_lit(m, "contravariant"),
        Variance::Invariant => crate::text::push_lit(m, "invariant"),
    }
}

/// The text of a finding.
pub open spec fn variance_message(d: VarDiagV) -> Seq<char> {
    "Type `"@ + d.class_name + "["@ + d.rhs_arg + "]` is not assignable to `"@ + d.class_name + "["@ + d.lhs_arg
        + "]` (type parameter is "@ + variance_label(d.variance) + ")"@
}

impl VarianceDiagnostic {
    /// The finding's message: the assigned type, the expected one and the
    /// parameter's variance.
    pub fn message(&self) -> (r: Vec<char>)
        ensures
            r@ == variance_message(var_diag_view(*self)),
    {
        let mut m = crate::text::chars_of("Type `");
        crate::text::push_chars(&mut m, self.class_name.as_slice());
        crate::text::push_lit(&mut m, "[");
        crate::text::push_chars(&mut m, self.rhs_arg.as_slice());
        crate::text::push_lit(&mut m, "]` is not assignable to `");
        crate::text::push_chars(&mut m, self.class_name.as_slice());
        crate::text::push_lit(&mut m, "[");
        crate::text::push_chars(&mut m, self.lhs_arg.as_slice());
        crate::text::push_lit(&mut m, "]` (type parameter is ");
        match self.variance {
            Variance::Covariant => crate::text::push_lit(&mut m, "covariant"),
            Variance::Contravariant => crate::text::push_lit(&mut m, "contravariant"),
            Variance::Invariant => crate::text::push_lit(&mut m, "invariant"),
        }
        crate::text::push_lit(&mut m, ")");
        m
    }
}

pub open spec fn var_diag_view(d: VarianceDiagnostic) -> VarDiagV {
    VarDiagV {
        class_name: d.class_name@,
        lhs_arg: d.lhs_arg@,
        rhs_arg: d.rhs_arg@,
        variance: d.variance,
        span: (d.span.start as nat, d.span.end as nat),
    }
}

pub open spec fn var_diags_view(v: Seq<VarianceDiagnostic>) -> Seq<VarDiagV> {
    v.map_values(|d: VarianceDiagnostic| var_diag_view(d))
}

/// `rhs` may stand where `lhs` is expected under the variance.
pub open spec fn arg_compatible(v: Variance, lhs: Seq<char>, rhs: Seq<char>) -> bool {
    match v {
        Variance::Covariant => numeric_subtype(rhs, lhs),
        Variance::Contravariant => numeric_subtype(lhs, rhs),
        Variance::Invariant => false,
    }
}

/// The violations among the first `k` parameters.
pub open spec fn violations(
    class_name: Seq<char>,
    lhs: Seq<Seq<char>>,
    rhs: Seq<Seq<char>>,
    vs: Seq<Variance>,
    k: int,
    span: (nat, nat),
) -> Seq<VarDiagV>
    decreases k,
{
    if k <= 0 {
        Seq::empty()
    } else {
        let i = k - 1;
        violations(class_name, lhs, rhs, vs, k - 1, span) + if i < lhs.len() && i < rhs.len() && lhs[i]
            != rhs[i] && !arg_compatible(vs[i], lhs[i], rhs[i]) {
            seq![
                VarDiagV {
                    class_name,
                    lhs_arg: lhs[i],
                    rhs_arg: rhs[i],
                    variance: vs[i],
                    span,
                },
            ]
        } else {
            Seq::<VarDiagV>::empty()
        }
    }
}

/// Reports each type argument of an assignment whose pairing with the expected one the parameter's variance refuses.
pub fn emit_variance_violations(
    class_name: &[char],
    lhs_args: &Vec<Vec<char>>,
    rhs_args: &Vec<Vec<char>>,
    variances: &Vec<Variance>,
    source: &[char],
    line_number: usize,
    diagnostics: &mut Vec<VarianceDiagnostic>,
)
    requires
        utf8_len(source@) <= u32::MAX,
    ensures
        var_diags_view(final(diagnostics)@) == var_diags_view(old(diagnostics)@) + violations(
            class_name@,
            views(lhs_args@),
            views(rhs_args@),
            variances@,
            variances@.len() as int,
            line_span(source@, line_number as int),
        ),
{
    let ghost d0 = var_diags_view(diagnostics@);
    let ghost sp = line_span(source@, line_number as int);
    let ghost lv = views(lhs_args@);
    let ghost rv = views(rhs_args@);
    let mut idx: usize = 0;
    proof {
        assert(d0 + Seq::<VarDiagV>::empty() =~= d0);
    }
    while idx < variances.len()
        invariant
            idx <= variances@.len(),
            utf8_len(source@) <= u32::MAX,
            d0 == var_diags_view(old(diagnostics)@),
            sp == line_span(source@, line_number as int),
            lv == views(lhs_args@),
            rv == views(rhs_args@),
            var_diags_view(diagnostics@) == d0 + violations(class_name@, lv, rv, variances@, idx as int, sp),
        decreases variances.len() - idx,
    {
        let ghost before = var_diags_view(diagnostics@);
        if idx < lhs_args.len() && idx < rhs_args.len() {
            proof {
                assert(lv[idx as int] == lhs_args@[idx as int]@);
                assert(rv[idx as int] == rhs_args@[idx as int]@);
            }
            let l = lhs_args[idx].as_slice();
            let r = rhs_args[idx].as_slice();
            if !eq_chars(l, r) {
                let v = variances[idx];
                let compatible = match v {
                    Variance::Covariant => is_numeric_subtype(r, l),
                    Variance::Contravariant => is_numeric_subtype(l, r),
                    Variance::Invariant => false,
                };
                if !compatible {
                    let d = VarianceDiagnostic {
                        class_name: slice_of(class_name, 0, class_name.len()),
                        lhs_arg: slice_of(l, 0, l.len()),
                        rhs_arg: slice_of(r, 0, r.len()),
                        variance: v,
                        span: span_for_line(source, line_number),
                    };
                    diagnostics.push(d);
                    proof {
                        assert(class_name@.subrange(0, class_name@.len() as int) =~= class_name@);
                        assert(l@.subrange(0, l@.len() as int) =~= l@);
                        assert(r@.subrange(0, r@.len() as int) =~= r@);
                        assert(var_diags_view(diagnostics@) =~= before.push(var_diag_view(d)));
                    }
                }
            }
        }
        proof {
            assert(var_diags_view(diagnostics@) =~= d0 + violations(
                class_name@,
                lv,
                rv,
                variances@,
                idx + 1,
                sp,
            ));
        }
        idx += 1;
    }
}

pub open spec fn classvars_view(v: Seq<(Vec<char>, Vec<Variance>)>) -> Seq<(Seq<char>, Seq<Variance>)> {
    known_view(v)
}

/// `Name[args](...)`: the trimmed name before the first `[` and the type
/// arguments up to the matching `]`.
pub open spec fn rhs_generic(rhs: Seq<char>) -> Option<(Seq<char>, Seq<Seq<char>>)> {
    match find_char(rhs, '[') {
        None => None,
        Some(b) => {
            let name = trim(rhs.take(b));
            let after = rhs.skip(b + 1);
            match first_where(closing_sq(after), after.len() as int) {
                None => None,
                Some(c) => {
                    let args = type_args(after.take(c));
                    if args.len() == 0 {
                        None
                    } else {
                        Some((name, args))
                    }
                },
            }
        },
    }
}

/// The class name and type arguments of a right-hand side `Name[args](...)`; `None` for any other text.
pub fn extract_rhs_generic_type(rhs: &[char]) -> (r: Option<(Vec<char>, Vec<Vec<char>>)>)
    ensures
        match r {
            Some((name, args)) => rhs_generic(rhs@) == Some((name@, views(args@))),
            None => rhs_generic(rhs@) is None,
        },
{
    proof {
        lemma_find_char(rhs@, '[');
    }
    let b = match find_char_exec(rhs, '[') {
        Some(b) => b,
        None => return None,
    };
    let head = slice_of(rhs, 0, b);
    let name = trim_chars(head.as_slice());
    let n = rhs.len();
    let after = slice_of(rhs, b + 1, n);
    proof {
        assert(head@ =~= rhs@.take(b as int));
        assert(after@ =~= rhs@.skip(b + 1));
    }
    let close = match crate::tuple_index::find_matching_bracket(after.as_slice()) {
        Some(c) => c,
        None => return None,
    };
    proof {
        lemma_first_where_some(closing_sq(after@), after@.len() as int);
    }
    let inner = slice_of(after.as_slice(), 0, close);
    proof {
        assert(inner@ =~= after@.take(close as int));
    }
    let args = split_top_level_type_args(inner.as_slice());
    if args.len() == 0 {
        return None;
    }
    Some((name, args))
}

/// The violations of `annotation = rhs` where both name the same class whose
/// variances are known.
pub open spec fn assignment_violations(
    annotation: Seq<char>,
    rhs: Seq<char>,
    cv: Seq<(Seq<char>, Seq<Variance>)>,
    span: (nat, nat),
) -> Seq<VarDiagV> {
    match (generic_annotation(annotation), rhs_generic(rhs)) {
        (Some(l), Some(r)) => if l.0 != r.0 {
            Seq::empty()
        } else {
            match assoc_get(cv, l.0) {
                Some(vs) => violations(l.0, l.1, r.1, vs, vs.len() as int, span),
                None => Seq::empty(),
            }
        },
        _ => Seq::empty(),
    }
}

/// Checks one annotated assignment `v: C[a] = C[b](...)` against the variances of `C`'s parameters.
pub fn check_assignment_variance(
    annotation: &[char],
    rhs: &[char],
    class_variances: &Vec<(Vec<char>, Vec<Variance>)>,
    source: &[char],
    line_number: usize,
    diagnostics: &mut Vec<VarianceDiagnostic>,
)
    requires
        utf8_len(source@) <= u32::MAX,
    ensures
        var_diags_view(final(diagnostics)@) == var_diags_view(old(diagnostics)@) + assignment_violations(
            annotation@,
            rhs@,
            known_view(class_variances@),
            line_span(source@, line_number as int),
        ),
{
    proof {
        assert(var_diags_view(diagnostics@) + Seq::<VarDiagV>::empty() =~= var_diags_view(diagnostics@));
    }
    let (lhs_class, lhs_args) = match parse_generic_annotation(annotation) {
        Some(p) => p,
        None => return ,
    };
    let (rhs_class, rhs_args) = match extract_rhs_generic_type(rhs) {
        Some(p) => p,
        None => return ,
    };
    if !eq_chars(lhs_class.as_slice(), rhs_class.as_slice()) {
        return ;
    }
    let i = match known_get(class_variances, lhs_class.as_slice()) {
        Some(i) => i,
        None => return ,
    };
    emit_variance_violations(
        lhs_class.as_slice(),
        &lhs_args,
        &rhs_args,
        &class_variances[i].1,
        source,
        line_number,
        diagnostics,
    );
}

/// An annotated assignment `name: annotation = rhs` (the first `=` after the
/// first `:`, not part of `==`), read as `(annotation, rhs)` with a comment
/// after the right-hand side dropped.
pub open spec fn annotated_parts(t: Seq<char>) -> Option<(Seq<char>, Seq<char>)> {
    match (find_char(t, ':'), find_char(t, '=')) {
        (Some(c), Some(e)) => if e < c || (e + 1 < t.len() && t[e + 1] == '=') {
            None
        } else {
            Some((trim(t.subrange(c + 1, e)), trim(before_char(t.skip(e + 1), '#'))))
        },
        _ => None,
    }
}

fn annotated_parts_exec(t: &[char]) -> (r: Option<(Vec<char>, Vec<char>)>)
    ensures
        match r {
            Some((a, b)) => annotated_parts(t@) == Some((a@, b@)),
            None => annotated_parts(t@) is None,
        },
{
    proof {
        lemma_find_char(t@, ':');
        lemma_find_char(t@, '=');
    }
    let c = match find_char_exec(t, ':') {
        Some(c) => c,
        None => return None,
    };
    let e = match find_char_exec(t, '=') {
        Some(e) => e,
        None => return None,
    };
    if e < c {
        return None;
    }
    let n0 = t.len();
    if e + 1 < n0 && t[e + 1] == '=' {
        return None;
    }
    proof {
        assert(c != e);
    }
    let mid = slice_of(t, c + 1, e);
    let ann = trim_chars(mid.as_slice());
    let n = t.len();
    let rest = slice_of(t, e + 1, n);
    proof {
        assert(rest@ =~= t@.skip(e + 1));
    }
    let code = before_char_exec(rest.as_slice(), '#');
    let rhs = trim_chars(code.as_slice());
    Some((ann, rhs))
}

/// The violations of module-level lines (those not starting with whitespace),
/// from line `k` on; line numbers are 1-based.
pub open spec fn module_violations_from(
    lines: Seq<Seq<char>>,
    k: int,
    cv: Seq<(Seq<char>, Seq<Variance>)>,
    source: Seq<char>,
) -> Seq<VarDiagV>
    decreases lines.len() - k,
{
    if k < 0 || k >= lines.len() {
        Seq::empty()
    } else {
        let line = lines[k];
        let here = if line.len() > 0 && is_ws(line[0]) {
            Seq::empty()
        } else {
            match annotated_parts(trim(line)) {
                None => Seq::empty(),
                Some(p) => assignment_violations(p.0, p.1, cv, line_span(source, k + 1)),
            }
        };
        here + module_violations_from(lines, k + 1, cv, source)
    }
}

/// Checks the annotated assignments at module level against the classes' variances.
pub fn check_module_level_assignments(
    lines: &Vec<Vec<char>>,
    class_variances: &Vec<(Vec<char>, Vec<Variance>)>,
    source: &[char],
    diagnostics: &mut Vec<VarianceDiagnostic>,
)
    requires
        utf8_len(source@) <= u32::MAX,
    ensures
        var_diags_view(final(diagnostics)@) == var_diags_view(old(diagnostics)@) + module_violations_from(
            views(lines@),
            0,
            known_view(class_variances@),
            source@,
        ),
{
    let ghost ls = views(lines@);
    let ghost cv = known_view(class_variances@);
    let ghost d0 = var_diags_view(diagnostics@);
    let mut k: usize = 0;
    proof {
        assert(d0 + module_violations_from(ls, 0, cv, source@) =~= var_diags_view(diagnostics@)
            + module_violations_from(ls, k as int, cv, source@));
    }
    while k < lines.len()
        invariant
            ls == views(lines@),
            cv == known_view(class_variances@),
            utf8_len(source@) <= u32::MAX,
            d0 == var_diags_view(old(diagnostics)@),
            d0 + module_violations_from(ls, 0, cv, source@) == var_diags_view(diagnostics@)
                + module_violations_from(ls, k as int, cv, source@),
        decreases lines.len() - k,
    {
        proof {
            assert(ls[k as int] == lines@[k as int]@);
        }
        let line = lines[k].as_slice();
        let ghost before = var_diags_view(diagnostics@);
        if !(line.len() > 0 && crate::text::is_whitespace(line[0])) {
            let t = trim_chars(line);
            match annotated_parts_exec(t.as_slice()) {
                None => {},
                Some((ann, rhs)) => {
                    check_assignment_variance(
                        ann.as_slice(),
                        rhs.as_slice(),
                        class_variances,
                        source,
                        k + 1,
                        diagnostics,
                    );
                },
            }
        }
        proof {
            assert(before + module_violations_from(ls, k as int, cv, source@) =~= var_diags_view(
                diagnostics@,
            ) + module_violations_from(ls, k + 1, cv, source@));
        }
        k += 1;
    }
    proof {
        assert(module_violations_from(ls, k as int, cv, source@) =~= Seq::<VarDiagV>::empty());
        assert(var_diags_view(diagnostics@) + Seq::<VarDiagV>::empty() =~= var_diags_view(diagnostics@));
    }
}

// ---------------------------------------------------------------------------
// Assignments inside functions
// ---------------------------------------------------------------------------

pub open spec fn ptypes_view(
    v: Seq<(Vec<char>, (Vec<char>, Vec<Vec<char>>))>,
) -> Seq<(Seq<char>, (Seq<char>, Seq<Seq<char>>))> {
    v.map_values(|e: (Vec<char>, (Vec<char>, Vec<Vec<char>>))| (e.0@, (e.1.0@, views(e.1.1@))))
}

/// The generic parameter types of a parameter list, each `name: Name[args]`
/// (a default after `=` ignored), later names replacing earlier ones.
pub open spec fn params_map(ps: Seq<Seq<char>>) -> Seq<(Seq<char>, (Seq<char>, Seq<Seq<char>>))>
    decreases ps.len(),
{
    if ps.len() == 0 {
        Seq::empty()
    } else {
        let acc = params_map(ps.drop_last());
        let p = trim(ps.last());
        match find_char(p, ':') {
            None => acc,
            Some(c) => match generic_annotation(trim(before_char(p.skip(c + 1), '='))) {
                None => acc,
                Some(g) => assoc_insert(acc, trim(p.take(c)), g),
            },
        }
    }
}

/// The generic parameter types of a trimmed `def` line.
pub open spec fn def_params(t: Seq<char>) -> Seq<(Seq<char>, (Seq<char>, Seq<Seq<char>>))> {
    match (find_char(t, '('), rfind_char(t, ')')) {
        (Some(o), Some(c)) => params_map(top_params(t.subrange(o + 1, c))),
        _ => Seq::empty(),
    }
}

/// The violations of `v: annotation = param` inside a function, `param` being
/// one of its generic parameters.
pub open spec fn body_assignment(
    t: Seq<char>,
    params: Seq<(Seq<char>, (Seq<char>, Seq<Seq<char>>))>,
    cv: Seq<(Seq<char>, Seq<Variance>)>,
    span: (nat, nat),
) -> Seq<VarDiagV> {
    match annotated_parts(t) {
        None => Seq::empty(),
        Some(p) => match assoc_get(params, p.1) {
            None => Seq::empty(),
            Some(rg) => match generic_annotation(p.0) {
                None => Seq::empty(),
                Some(lg) => if lg.0 != rg.0 {
                    Seq::empty()
                } else {
                    match assoc_get(cv, lg.0) {
                        Some(vs) => violations(lg.0, lg.1, rg.1, vs, vs.len() as int, span),
                        None => Seq::empty(),
                    }
                },
            },
        },
    }
}

/// The scan state: inside a function, its `def` indentation and its generic
/// parameters.
pub struct FnState {
    pub in_function: bool,
    pub indent: nat,
    pub params: Seq<(Seq<char>, (Seq<char>, Seq<Seq<char>>))>,
}

/// The violations in function bodies from line `k` on.
pub open spec fn fn_body_from(
    lines: Seq<Seq<char>>,
    k: int,
    st: FnState,
    cv: Seq<(Seq<char>, Seq<Variance>)>,
    source: Seq<char>,
) -> Seq<VarDiagV>
    decreases lines.len() - k,
{
    if k < 0 || k >= lines.len() {
        Seq::empty()
    } else {
        let line = lines[k];
        let t = trim(line);
        let ind = indent_of(line);
        if starts_with(t, "def "@) {
            fn_body_from(lines, k + 1, FnState { in_function: true, indent: ind, params: def_params(t) }, cv, source)
        } else {
            let st2 = if st.in_function && ind <= st.indent && t.len() > 0 {
                FnState { in_function: false, indent: st.indent, params: Seq::empty() }
            } else {
                st
            };
            let here = if !st2.in_function || st2.params.len() == 0 {
                Seq::empty()
            } else {
                body_assignment(t, st2.params, cv, line_span(source, k + 1))
            };
            here + fn_body_from(lines, k + 1, st2, cv, source)
        }
    }
}

/// Every `def` line can be sliced between its parentheses.
pub open spec fn defs_ok(lines: Seq<Seq<char>>) -> bool {
    forall|i: int|
        0 <= i < lines.len() && starts_with(trim(#[trigger] lines[i]), "def "@) ==> paren_slice_ok(
            trim(lines[i]),
        )
}

fn ptypes_put(
    m: &mut Vec<(Vec<char>, (Vec<char>, Vec<Vec<char>>))>,
    k: Vec<char>,
    v: (Vec<char>, Vec<Vec<char>>),
)
    ensures
        ptypes_view(final(m)@) == assoc_insert(ptypes_view(old(m)@), k@, (v.0@, views(v.1@))),
{
    let ghost mv = ptypes_view(m@);
    let r = assoc_find(m, k.as_slice());
    proof {
        lemma_assoc_index(mv, k@);
        match r {
            Some(i) => {
                assert forall|j: int| 0 <= j < i implies mv[j].0 != k@ by {
                    assert(mv[j].0 == m@[j].0@);
                }
                lemma_assoc_index_at(mv, k@, i as int);
            },
            None => {
                assert forall|j: int| 0 <= j < mv.len() implies mv[j].0 != k@ by {
                    assert(mv[j].0 == m@[j].0@);
                }
            },
        }
    }
    match r {
        Some(i) => {
            let ghost entry = (k@, (v.0@, views(v.1@)));
            m.set(i, (k, v));
            proof {
                assert(ptypes_view(m@) =~= mv.update(i as int, entry));
            }
        },
        None => {
            let ghost entry = (k@, (v.0@, views(v.1@)));
            m.push((k, v));
            proof {
                assert(ptypes_view(m@) =~= mv.push(entry));
            }
        },
    }
}

fn def_params_exec(t: &[char]) -> (r: Vec<(Vec<char>, (Vec<char>, Vec<Vec<char>>))>)
    requires
        paren_slice_ok(t@),
    ensures
        ptypes_view(r@) == def_params(t@),
{
    proof {
        lemma_find_char(t@, '(');
        crate::text::lemma_rfind_char(t@, ')');
    }
    let mut out: Vec<(Vec<char>, (Vec<char>, Vec<Vec<char>>))> = Vec::new();
    let open = match find_char_exec(t, '(') {
        Some(o) => o,
        None => return out,
    };
    let close = match rfind_char_exec(t, ')') {
        Some(c) => c,
        None => return out,
    };
    let inner = slice_of(t, open + 1, close);
    let parts = split_top_level_params(inner.as_slice());
    let ghost pv = views(parts@);
    let mut i: usize = 0;
    while i < parts.len()
        invariant
            i <= parts@.len(),
            pv == views(parts@),
            ptypes_view(out@) == params_map(pv.take(i as int)),
        decreases parts.len() - i,
    {
        proof {
            assert(pv.take(i + 1).drop_last() =~= pv.take(i as int));
            assert(pv.take(i + 1).last() == parts@[i as int]@);
        }
        let p = trim_chars(parts[i].as_slice());
        proof {
            lemma_find_char(p@, ':');
        }
        match find_char_exec(p.as_slice(), ':') {
            None => {},
            Some(c) => {
                let pn = p.len();
                let after = slice_of(p.as_slice(), c + 1, pn);
                let head = slice_of(p.as_slice(), 0, c);
                proof {
                    assert(after@ =~= p@.skip(c + 1));
                    assert(head@ =~= p@.take(c as int));
                }
                let ann_raw = before_char_exec(after.as_slice(), '=');
                let ann = trim_chars(ann_raw.as_slice());
                match parse_generic_annotation(ann.as_slice()) {
                    None => {},
                    Some(g) => {
                        let pname = trim_chars(head.as_slice());
                        ptypes_put(&mut out, pname, g);
                    },
                }
            },
        }
        i += 1;
    }
    proof {
        assert(pv.take(i as int) =~= pv);
    }
    out
}

fn ptypes_get(m: &Vec<(Vec<char>, (Vec<char>, Vec<Vec<char>>))>, k: &[char]) -> (r: Option<usize>)
    ensures
        match r {
            Some(i) => i < m@.len() && assoc_get(ptypes_view(m@), k@) == Some(
                (m@[i as int].1.0@, views(m@[i as int].1.1@)),
            ),
            None => assoc_get(ptypes_view(m@), k@) is None,
        },
{
    let r = assoc_find(m, k);
    proof {
        let mv = ptypes_view(m@);
        lemma_assoc_index(mv, k@);
        match r {
            Some(i) => {
                assert forall|j: int| 0 <= j < i implies mv[j].0 != k@ by {
                    assert(mv[j].0 == m@[j].0@);
                }
                lemma_assoc_index_at(mv, k@, i as int);
            },
            None => {
                assert forall|j: int| 0 <= j < mv.len() implies mv[j].0 != k@ by {
                    assert(mv[j].0 == m@[j].0@);
                }
            },
        }
    }
    r
}

/// Checks the annotated assignments inside function bodies against the classes' variances.
pub fn check_function_body_assignments(
    lines: &Vec<Vec<char>>,
    class_variances: &Vec<(Vec<char>, Vec<Variance>)>,
    source: &[char],
    diagnostics: &mut Vec<VarianceDiagnostic>,
)
    requires
        utf8_len(source@) <= u32::MAX,
        lines_fit(views(lines@)),
        defs_ok(views(lines@)),
    ensures
        var_diags_view(final(diagnostics)@) == var_diags_view(old(diagnostics)@) + fn_body_from(
            views(lines@),
            0,
            FnState { in_function: false, indent: 0, params: Seq::empty() },
            known_view(class_variances@),
            source@,
        ),
{
    let ghost ls = views(lines@);
    let ghost cv = known_view(class_variances@);
    let ghost d0 = var_diags_view(diagnostics@);
    let ghost st0 = FnState { in_function: false, indent: 0, params: Seq::empty() };
    let mut param_types: Vec<(Vec<char>, (Vec<char>, Vec<Vec<char>>))> = Vec::new();
    let mut in_function = false;
    let mut func_indent: usize = 0;
    let mut k: usize = 0;
    proof {
        assert(ptypes_view(param_types@) =~= Seq::<(Seq<char>, (Seq<char>, Seq<Seq<char>>))>::empty());
        assert(d0 + fn_body_from(ls, 0, st0, cv, source@) =~= var_diags_view(diagnostics@) + fn_body_from(
            ls,
            k as int,
            FnState { in_function, indent: func_indent as nat, params: ptypes_view(param_types@) },
            cv,
            source@,
        ));
    }
    while k < lines.len()
        invariant
            ls == views(lines@),
            cv == known_view(class_variances@),
            lines_fit(ls),
            defs_ok(ls),
            utf8_len(source@) <= u32::MAX,
            d0 == var_diags_view(old(diagnostics)@),
            d0 + fn_body_from(ls, 0, st0, cv, source@) == var_diags_view(diagnostics@) + fn_body_from(
                ls,
                k as int,
                FnState { in_function, indent: func_indent as nat, params: ptypes_view(param_types@) },
                cv,
                source@,
            ),
        decreases lines.len() - k,
    {
        proof {
            assert(ls[k as int] == lines@[k as int]@);
            assert(utf8_len(ls[k as int]) <= u32::MAX);
        }
        let line = lines[k].as_slice();
        let trimmed = trim_chars(line);
        let indent = leading_indent(line);
        let ghost before = var_diags_view(diagnostics@);
        let ghost st = FnState { in_function, indent: func_indent as nat, params: ptypes_view(param_types@) };
        if starts_with_lit(trimmed.as_slice(), "def ") {
            in_function = true;
            func_indent = indent;
            proof {
                assert(paren_slice_ok(trim(ls[k as int])));
            }
            param_types = def_params_exec(trimmed.as_slice());
            proof {
                assert(var_diags_view(diagnostics@) + fn_body_from(ls, k + 1, FnState { in_function, indent: func_indent as nat, params: ptypes_view(param_types@) }, cv, source@)
                    =~= before + fn_body_from(ls, k as int, st, cv, source@));
            }
            k += 1;
            continue;
        }
        if in_function && indent <= func_indent && trimmed.len() > 0 {
            in_function = false;
            param_types = Vec::new();
        }
        let ghost st2 = FnState { in_function, indent: func_indent as nat, params: ptypes_view(param_types@) };
        proof {
            assert(ptypes_view(param_types@) =~= st2.params);
            if st.in_function && indent <= st.indent && trimmed@.len() > 0 {
                assert(st2.params =~= Seq::<(Seq<char>, (Seq<char>, Seq<Seq<char>>))>::empty());
                assert(st2 == FnState { in_function: false, indent: st.indent, params: Seq::<(Seq<char>, (Seq<char>, Seq<Seq<char>>))>::empty() });
            } else {
                assert(st2 == st);
            }
        }
        if in_function && param_types.len() > 0 {
            match annotated_parts_exec(trimmed.as_slice()) {
                None => {},
                Some((annotation, rhs)) => {
                    match ptypes_get(&param_types, rhs.as_slice()) {
                        None => {},
                        Some(pi) => {
                            match parse_generic_annotation(annotation.as_slice()) {
                                None => {},
                                Some((lhs_class, lhs_args)) => {
                                    if eq_chars(lhs_class.as_slice(), param_types[pi].1.0.as_slice()) {
                                        match known_get(class_variances, lhs_class.as_slice()) {
                                            None => {},
                                            Some(ci) => {
                                                emit_variance_violations(
                                                    lhs_class.as_slice(),
                                                    &lhs_args,
                                                    &param_types[pi].1.1,
                                                    &class_variances[ci].1,
                                                    source,
                                                    k + 1,
                                                    diagnostics,
                                                );
                                            },
                                        }
                                    }
                                },
                            }
                        },
                    }
                },
            }
        }
        proof {
            assert(var_diags_view(diagnostics@) + fn_body_from(ls, k + 1, st2, cv, source@) =~= before
                + fn_body_from(ls, k as int, st, cv, source@));
        }
        k += 1;
    }
    proof {
        assert(var_diags_view(diagnostics@) + Seq::<VarDiagV>::empty() =~= var_diags_view(diagnostics@));
    }
}

// ---------------------------------------------------------------------------
// Classes and their declared or inferred variances
// ---------------------------------------------------------------------------

pub open spec fn tvmap_view(v: Seq<(Vec<char>, Variance)>) -> Seq<(Seq<char>, Variance)> {
    v.map_values(|e: (Vec<char>, Variance)| (e.0@, e.1))
}

fn known_put(m: &mut Vec<(Vec<char>, Vec<Variance>)>, k: Vec<char>, v: Vec<Variance>)
    ensures
        known_view(final(m)@) == assoc_insert(known_view(old(m)@), k@, v@),
{
    let ghost mv = known_view(m@);
    let r = assoc_find(m, k.as_slice());
    proof {
        lemma_assoc_index(mv, k@);
        match r {
            Some(i) => {
                assert forall|j: int| 0 <= j < i implies mv[j].0 != k@ by {
                    assert(mv[j].0 == m@[j].0@);
                }
                lemma_assoc_index_at(mv, k@, i as int);
            },
            None => {
                assert forall|j: int| 0 <= j < mv.len() implies mv[j].0 != k@ by {
                    assert(mv[j].0 == m@[j].0@);
                }
            },
        }
    }
    let ghost entry = (k@, v@);
    match r {
        Some(i) => {
            m.set(i, (k, v));
            proof {
                assert(known_view(m@) =~= mv.update(i as int, entry));
            }
        },
        None => {
            m.push((k, v));
            proof {
                assert(known_view(m@) =~= mv.push(entry));
            }
        },
    }
}

fn tvmap_put(m: &mut Vec<(Vec<char>, Variance)>, k: Vec<char>, v: Variance)
    ensures
        tvmap_view(final(m)@) == assoc_insert(tvmap_view(old(m)@), k@, v),
{
    let ghost mv = tvmap_view(m@);
    let r = assoc_find(m, k.as_slice());
    proof {
        lemma_assoc_index(mv, k@);
        match r {
            Some(i) => {
                assert forall|j: int| 0 <= j < i implies mv[j].0 != k@ by {
                    assert(mv[j].0 == m@[j].0@);
                }
                lemma_assoc_index_at(mv, k@, i as int);
            },
            None => {
                assert forall|j: int| 0 <= j < mv.len() implies mv[j].0 != k@ by {
                    assert(mv[j].0 == m@[j].0@);
                }
            },
        }
    }
    let ghost entry = (k@, v);
    match r {
        Some(i) => {
            m.set(i, (k, v));
            proof {
                assert(tvmap_view(m@) =~= mv.update(i as int, entry));
            }
        },
        None => {
            m.push((k, v));
            proof {
                assert(tvmap_view(m@) =~= mv.push(entry));
            }
        },
    }
}

fn tvmap_get(m: &Vec<(Vec<char>, Variance)>, k: &[char]) -> (r: Option<Variance>)
    ensures
        r == assoc_get(tvmap_view(m@), k@),
{
    let r = assoc_find(m, k);
    proof {
        let mv = tvmap_view(m@);
        lemma_assoc_index(mv, k@);
        match r {
            Some(i) => {
                assert forall|j: int| 0 <= j < i implies mv[j].0 != k@ by {
                    assert(mv[j].0 == m@[j].0@);
                }
                lemma_assoc_index_at(mv, k@, i as int);
            },
            None => {
                assert forall|j: int| 0 <= j < mv.len() implies mv[j].0 != k@ by {
                    assert(mv[j].0 == m@[j].0@);
                }
            },
        }
    }
    match r {
        Some(i) => Some(m[i].1),
        None => None,
    }
}

/// Where a class name ends: at `(`, `[` or `:`.
pub open spec fn name_stop(s: Seq<char>) -> spec_fn(int) -> bool {
    |i: int| s[i] == '(' || s[i] == '[' || s[i] == ':'
}

/// The class name at the start of the text after `class `.
pub open spec fn class_name_of(after: Seq<char>) -> Seq<char> {
    match first_where(name_stop(after), after.len() as int) {
        Some(i) => trim(after.take(i)),
        None => trim(after),
    }
}

fn class_name_exec(after: &[char]) -> (r: Vec<char>)
    ensures
        r@ == class_name_of(after@),
{
    let mut i: usize = 0;
    while i < after.len()
        invariant
            i <= after@.len(),
            forall|j: int| 0 <= j < i ==> !#[trigger] name_stop(after@)(j),
        decreases after.len() - i,
    {
        if after[i] == '(' || after[i] == '[' || after[i] == ':' {
            proof {
                assert(name_stop(after@)(i as int));
                lemma_first_where_at(name_stop(after@), i as int, after@.len() as int);
            }
            let head = slice_of(after, 0, i);
            proof {
                assert(head@ =~= after@.take(i as int));
            }
            return trim_chars(head.as_slice());
        }
        i += 1;
    }
    proof {
        lemma_first_where_none(name_stop(after@), after@.len() as int);
    }
    trim_chars(after)
}

/// The declared variance of a type variable; invariant when undeclared.
pub open spec fn declared_variance(declared: Seq<(Seq<char>, Variance)>, p: Seq<char>) -> Variance {
    match assoc_get(declared, p) {
        Some(v) => v,
        None => Variance::Invariant,
    }
}

/// The variances of the traditional generic classes (`class Name(...Generic[...]...)`)
/// among the first `k` lines, from their type variables' declarations.
pub open spec fn parents_upto(
    lines: Seq<Seq<char>>,
    k: int,
    declared: Seq<(Seq<char>, Variance)>,
) -> Seq<(Seq<char>, Seq<Variance>)>
    decreases k,
{
    if k <= 0 {
        Seq::empty()
    } else {
        let acc = parents_upto(lines, k - 1, declared);
        let t = trim(lines[k - 1]);
        if starts_with(t, "class "@) && contains_str(t, "Generic["@) {
            assoc_insert(
                acc,
                class_name_of(t.skip(6)),
                generic_params(t).map_values(|p: Seq<char>| declared_variance(declared, p)),
            )
        } else {
            acc
        }
    }
}

/// The declared variances of the type parameters of each class that lists `Generic[...]` among its bases.
pub fn resolve_parent_generic_variances(
    lines: &Vec<Vec<char>>,
    typevar_declared: &Vec<(Vec<char>, Variance)>,
) -> (r: Vec<(Vec<char>, Vec<Variance>)>)
    ensures
        known_view(r@) == parents_upto(views(lines@), lines@.len() as int, tvmap_view(typevar_declared@)),
{
    let ghost ls = views(lines@);
    let ghost dv = tvmap_view(typevar_declared@);
    let mut result: Vec<(Vec<char>, Vec<Variance>)> = Vec::new();
    let mut k: usize = 0;
    while k < lines.len()
        invariant
            k <= lines@.len(),
            ls == views(lines@),
            dv == tvmap_view(typevar_declared@),
            known_view(result@) == parents_upto(ls, k as int, dv),
        decreases lines.len() - k,
    {
        proof {
            assert(ls[k as int] == lines@[k as int]@);
        }
        let t = trim_chars(lines[k].as_slice());
        if starts_with_lit(t.as_slice(), "class ") && contains_lit(t.as_slice(), "Generic[") {
            proof {
                reveal_strlit("class ");
            }
            let n = t.len();
            let after = slice_of(t.as_slice(), 6, n);
            proof {
                assert(after@ =~= t@.skip(6));
            }
            let name = class_name_exec(after.as_slice());
            let params = extract_typevar_params_from_generic(t.as_slice());
            let ghost pv = views(params@);
            let mut vars: Vec<Variance> = Vec::new();
            let mut j: usize = 0;
            while j < params.len()
                invariant
                    j <= params@.len(),
                    pv == views(params@),
                    dv == tvmap_view(typevar_declared@),
                    vars@ == pv.take(j as int).map_values(|p: Seq<char>| declared_variance(dv, p)),
                decreases params.len() - j,
            {
                proof {
                    assert(pv[j as int] == params@[j as int]@);
                }
                let v = match tvmap_get(typevar_declared, params[j].as_slice()) {
                    Some(v) => v,
                    None => Variance::Invariant,
                };
                vars.push(v);
                proof {
                    assert(vars@ =~= pv.take(j + 1).map_values(|p: Seq<char>| declared_variance(dv, p)));
                }
                j += 1;
            }
            proof {
                assert(pv.take(j as int) =~= pv);
            }
            known_put(&mut result, name, vars);
        }
        k += 1;
    }
    result
}

/// The type variables of `infer_tvs` named in one base `Name[args]` (split at
/// every comma, up to the last `]`), in order.
pub open spec fn keys_in(args: Seq<Seq<char>>, tvs: Seq<(Seq<char>, Variance)>) -> Seq<Seq<char>>
    decreases args.len(),
{
    if args.len() == 0 {
        Seq::empty()
    } else {
        keys_in(args.drop_last(), tvs) + if assoc_index(tvs, args.last()) is Some {
            seq![args.last()]
        } else {
            Seq::<Seq<char>>::empty()
        }
    }
}

pub open spec fn base_candidates(base_raw: Seq<char>, tvs: Seq<(Seq<char>, Variance)>) -> Seq<Seq<char>> {
    let base = trim(base_raw);
    match find_char(base, '[') {
        None => Seq::empty(),
        Some(b) => {
            let inner = base.skip(b + 1);
            match rfind_char(inner, ']') {
                None => Seq::empty(),
                Some(e) => keys_in(crate::text::trim_all(split_char(inner.take(e), ',')), tvs),
            }
        },
    }
}

pub open spec fn implicit_from_bases(
    bases: Seq<Seq<char>>,
    tvs: Seq<(Seq<char>, Variance)>,
) -> Seq<Seq<char>>
    decreases bases.len(),
{
    if bases.len() == 0 {
        Seq::empty()
    } else {
        crate::names::add_all(implicit_from_bases(bases.drop_last(), tvs), base_candidates(bases.last(), tvs))
    }
}

/// The type variables with inferred variance that a class line's bases name,
/// each once, in order.
pub open spec fn implicit_params(class_line: Seq<char>, tvs: Seq<(Seq<char>, Variance)>) -> Seq<Seq<char>> {
    let t = trim(class_line);
    match (find_char(t, '('), rfind_char(t, ')')) {
        (Some(o), Some(c)) => implicit_from_bases(split_char(t.subrange(o + 1, c), ','), tvs),
        _ => Seq::empty(),
    }
}

fn base_candidates_exec(base_raw: &[char], tvs: &Vec<(Vec<char>, Variance)>) -> (r: Vec<Vec<char>>)
    ensures
        views(r@) == base_candidates(base_raw@, tvmap_view(tvs@)),
{
    let base = trim_chars(base_raw);
    proof {
        lemma_find_char(base@, '[');
    }
    let b = match find_char_exec(base.as_slice(), '[') {
        Some(b) => b,
        None => return Vec::new(),
    };
    let n = base.len();
    let inner = slice_of(base.as_slice(), b + 1, n);
    proof {
        assert(inner@ =~= base@.skip(b + 1));
        crate::text::lemma_rfind_char(inner@, ']');
    }
    let e = match rfind_char_exec(inner.as_slice(), ']') {
        Some(e) => e,
        None => return Vec::new(),
    };
    let head = slice_of(inner.as_slice(), 0, e);
    proof {
        assert(head@ =~= inner@.take(e as int));
    }
    let pieces = split_char_exec(head.as_slice(), ',');
    let args = crate::text::trim_all_exec(&pieces);
    let ghost av = views(args@);
    let ghost tv = tvmap_view(tvs@);
    let mut out: Vec<Vec<char>> = Vec::new();
    let mut i: usize = 0;
    while i < args.len()
        invariant
            i <= args@.len(),
            av == views(args@),
            tv == tvmap_view(tvs@),
            views(out@) == keys_in(av.take(i as int), tv),
        decreases args.len() - i,
    {
        proof {
            assert(av.take(i + 1).drop_last() =~= av.take(i as int));
            assert(av.take(i + 1).last() == args@[i as int]@);
        }
        let ghost before = views(out@);
        let found = assoc_find(tvs, args[i].as_slice());
        proof {
            lemma_assoc_index(tv, args@[i as int]@);
            match found {
                Some(q) => {
                    assert(tv[q as int].0 == args@[i as int]@);
                },
                None => {
                    assert forall|j: int| 0 <= j < tv.len() implies tv[j].0 != args@[i as int]@ by {
                        assert(tv[j].0 == tvs@[j].0@);
                    }
                },
            }
        }
        if found.is_some() {
            out.push(args[i].clone());
            proof {
                assert(views(out@) =~= before + seq![args@[i as int]@]);
            }
        } else {
            proof {
                assert(views(out@) =~= before + Seq::<Seq<char>>::empty());
            }
        }
        i += 1;
    }
    proof {
        assert(av.take(i as int) =~= av);
    }
    out
}

/// The type parameters a class takes implicitly from a generic base, those type variables declared with `infer_variance=True`.
pub fn extract_implicit_type_params(
    class_line: &[char],
    infer_variance_tvs: &Vec<(Vec<char>, Variance)>,
) -> (r: Vec<Vec<char>>)
    requires
        paren_slice_ok(trim(class_line@)),
    ensures
        views(r@) == implicit_params(class_line@, tvmap_view(infer_variance_tvs@)),
{
    let t = trim_chars(class_line);
    proof {
        lemma_find_char(t@, '(');
        crate::text::lemma_rfind_char(t@, ')');
    }
    let open = match find_char_exec(t.as_slice(), '(') {
        Some(o) => o,
        None => return Vec::new(),
    };
    let close = match rfind_char_exec(t.as_slice(), ')') {
        Some(c) => c,
        None => return Vec::new(),
    };
    let bases_text = slice_of(t.as_slice(), open + 1, close);
    let bases = split_char_exec(bases_text.as_slice(), ',');
    let ghost bv = views(bases@);
    let ghost tv = tvmap_view(infer_variance_tvs@);
    let mut params: Vec<Vec<char>> = Vec::new();
    let mut i: usize = 0;
    while i < bases.len()
        invariant
            i <= bases@.len(),
            bv == views(bases@),
            tv == tvmap_view(infer_variance_tvs@),
            views(params@) == implicit_from_bases(bv.take(i as int), tv),
        decreases bases.len() - i,
    {
        proof {
            assert(bv.take(i + 1).drop_last() =~= bv.take(i as int));
            assert(bv.take(i + 1).last() == bases@[i as int]@);
        }
        let cands = base_candidates_exec(bases[i].as_slice(), infer_variance_tvs);
        crate::names::insert_all(&mut params, &cands);
        i += 1;
    }
    proof {
        assert(bv.take(i as int) =~= bv);
    }
    params
}

/// The type parameters a class line declares, and whether they come from a
/// PEP 695 list: those listed (`pep695`), else those of `Generic[...]` when
/// every one has inferred variance, else the inferred-variance type variables
/// its bases name.
pub open spec fn class_choice(
    t: Seq<char>,
    pep695: Seq<Seq<char>>,
    tvs: Seq<(Seq<char>, Variance)>,
) -> Option<(Seq<Seq<char>>, bool)> {
    let gp = generic_params(t);
    if pep695.len() > 0 {
        Some((pep695, true))
    } else if gp.len() > 0 {
        if forall|i: int| 0 <= i < gp.len() ==> assoc_index(tvs, #[trigger] gp[i]) is Some {
            Some((gp, false))
        } else {
            None
        }
    } else {
        let ip = implicit_params(t, tvs);
        if ip.len() > 0 {
            Some((ip, false))
        } else {
            None
        }
    }
}

/// The class that line `idx` starts, if it is one that needs inference.
pub open spec fn class_at(
    lines: Seq<Seq<char>>,
    idx: int,
    tvs: Seq<(Seq<char>, Variance)>,
    pep695: Seq<Seq<Seq<char>>>,
) -> Option<ClassV> {
    let t = trim(lines[idx]);
    if !starts_with(t, "class "@) {
        None
    } else {
        match class_choice(t, pep695[idx], tvs) {
            None => None,
            Some(ch) => {
                let dec = decorators_from(lines, idx);
                Some(
                    ClassV {
                        name: class_name_of(t.skip(6)),
                        type_params: ch.0,
                        bases: class_bases(t, ch.1),
                        body_lines: body_lines_from(lines, idx + 1, indent_of(lines[idx])),
                        is_frozen_dataclass: dec.1,
                        is_dataclass: dec.0,
                    },
                )
            },
        }
    }
}

pub open spec fn classes_upto(
    lines: Seq<Seq<char>>,
    k: int,
    tvs: Seq<(Seq<char>, Variance)>,
    pep695: Seq<Seq<Seq<char>>>,
) -> Seq<ClassV>
    decreases k,
{
    if k <= 0 {
        Seq::empty()
    } else {
        classes_upto(lines, k - 1, tvs, pep695) + match class_at(lines, k - 1, tvs, pep695) {
            Some(c) => seq![c],
            None => Seq::<ClassV>::empty(),
        }
    }
}

/// Reading a class line does not slice out of order: the bases text of a
/// collected class, and a line whose bases are searched for type variables,
/// have their parentheses in order.
pub open spec fn class_line_ok(t: Seq<char>, pep695: Seq<Seq<char>>, tvs: Seq<(Seq<char>, Variance)>) -> bool {
    starts_with(t, "class "@) ==> {
        &&& (pep695.len() == 0 && generic_params(t).len() == 0 ==> paren_slice_ok(trim(t)))
        &&& (class_choice(t, pep695, tvs) matches Some(ch) ==> paren_slice_ok(bases_text(t, ch.1)))
    }
}

pub open spec fn collect_ok(
    lines: Seq<Seq<char>>,
    tvs: Seq<(Seq<char>, Variance)>,
    pep695: Seq<Seq<Seq<char>>>,
) -> bool {
    &&& pep695.len() == lines.len()
    &&& lines_fit(lines)
    &&& forall|i: int| 0 <= i < lines.len() ==> class_line_ok(trim(#[trigger] lines[i]), pep695[i], tvs)
}

pub open spec fn classes_view(v: Seq<ClassForVariance>) -> Seq<ClassV> {
    v.map_values(|c: ClassForVariance| class_view(c))
}

/// `collect_classes_for_variance`; `pep695_params` holds, for each line, the
/// type parameters its PEP 695 list declares (empty when it has none).
pub fn collect_classes_for_variance(
    lines: &Vec<Vec<char>>,
    infer_variance_tvs: &Vec<(Vec<char>, Variance)>,
    pep695_params: &Vec<Vec<Vec<char>>>,
) -> (r: Vec<ClassForVariance>)
    requires
        collect_ok(views(lines@), tvmap_view(infer_variance_tvs@), pep695_params@.map_values(|v: Vec<Vec<char>>| views(v@))),
    ensures
        classes_view(r@) == classes_upto(
            views(lines@),
            lines@.len() as int,
            tvmap_view(infer_variance_tvs@),
            pep695_params@.map_values(|v: Vec<Vec<char>>| views(v@)),
        ),
{
    let ghost ls = views(lines@);
    let ghost tv = tvmap_view(infer_variance_tvs@);
    let ghost pp = pep695_params@.map_values(|v: Vec<Vec<char>>| views(v@));
    let mut classes: Vec<ClassForVariance> = Vec::new();
    let mut idx: usize = 0;
    while idx < lines.len()
        invariant
            idx <= lines@.len(),
            ls == views(lines@),
            tv == tvmap_view(infer_variance_tvs@),
            pp == pep695_params@.map_values(|v: Vec<Vec<char>>| views(v@)),
            collect_ok(ls, tv, pp),
            classes_view(classes@) == classes_upto(ls, idx as int, tv, pp),
        decreases lines.len() - idx,
    {
        proof {
            assert(ls[idx as int] == lines@[idx as int]@);
            assert(pp[idx as int] == views(pep695_params@[idx as int]@));
            assert(class_line_ok(trim(ls[idx as int]), pp[idx as int], tv));
            assert(utf8_len(ls[idx as int]) <= u32::MAX);
        }
        let ghost before = classes_view(classes@);
        let t = trim_chars(lines[idx].as_slice());
        if starts_with_lit(t.as_slice(), "class ") {
            proof {
                reveal_strlit("class ");
            }
            let pep = &pep695_params[idx];
            let generic = extract_typevar_params_from_generic(t.as_slice());
            let mut chosen: Option<(Vec<Vec<char>>, bool)> = None;
            if pep.len() > 0 {
                chosen = Some((pep.clone(), true));
            } else if generic.len() > 0 {
                let mut all_infer = true;
                let mut j: usize = 0;
                while j < generic.len()
                    invariant
                        j <= generic@.len(),
                        tv == tvmap_view(infer_variance_tvs@),
                        all_infer == forall|q: int| 0 <= q < j ==> assoc_index(tv, #[trigger] views(generic@)[q]) is Some,
                    decreases generic.len() - j,
                {
                    let found = assoc_find(infer_variance_tvs, generic[j].as_slice());
                    proof {
                        let g = views(generic@)[j as int];
                        assert(g == generic@[j as int]@);
                        lemma_assoc_index(tv, g);
                        match found {
                            Some(q) => {
                                assert(tv[q as int].0 == g);
                            },
                            None => {
                                assert forall|x: int| 0 <= x < tv.len() implies tv[x].0 != g by {
                                    assert(tv[x].0 == infer_variance_tvs@[x].0@);
                                }
                            },
                        }
                    }
                    if found.is_none() {
                        all_infer = false;
                    }
                    j += 1;
                }
                if all_infer {
                    chosen = Some((generic, false));
                }
            } else {
                let implicit = extract_implicit_type_params(t.as_slice(), infer_variance_tvs);
                if implicit.len() > 0 {
                    chosen = Some((implicit, false));
                }
            }
            proof {
                assert(pp[idx as int].len() == pep@.len());
                match chosen {
                    Some(ref ch) => {
                        assert(views(pep@) =~= pp[idx as int]);
                        assert(class_choice(t@, pp[idx as int], tv) == Some((views(ch.0@), ch.1)));
                    },
                    None => {
                        assert(class_choice(t@, pp[idx as int], tv) is None);
                    },
                }
            }
            match chosen {
                None => {},
                Some((type_params, is_pep695)) => {
                    let n = t.len();
                    let after = slice_of(t.as_slice(), 6, n);
                    proof {
                        assert(after@ =~= t@.skip(6));
                    }
                    let name = class_name_exec(after.as_slice());
                    proof {
                        crate::text::lemma_trim_idem(lines@[idx as int]@);
                    }
                    let bases = extract_bases(t.as_slice(), is_pep695);
                    let (is_dataclass, is_frozen_dataclass) = check_decorators(lines, idx);
                    let class_indent = leading_indent(lines[idx].as_slice());
                    let body_lines = collect_body_lines(lines, idx + 1, class_indent);
                    let c = ClassForVariance {
                        name,
                        type_params,
                        bases,
                        body_lines,
                        is_frozen_dataclass,
                        is_dataclass,
                    };
                    classes.push(c);
                    proof {
                        assert(classes_view(classes@) =~= before.push(class_view(c)));
                    }
                },
            }
        }
        proof {
            assert(classes_view(classes@) =~= classes_upto(ls, idx + 1, tv, pp));
        }
        idx += 1;
    }
    classes
}

// ---------------------------------------------------------------------------
// The whole check
// ---------------------------------------------------------------------------

/// What the check reads of a `TypeVar(...)` declaration.
pub struct TypeVarDecl {
    pub name: Vec<char>,
    pub is_covariant: bool,
    pub is_contravariant: bool,
    pub has_infer_variance: bool,
}

pub open spec fn decl_variance(d: TypeVarDecl) -> Variance {
    if d.is_covariant {
        Variance::Covariant
    } else if d.is_contravariant {
        Variance::Contravariant
    } else {
        Variance::Invariant
    }
}

/// The declared variance of every type variable (a later declaration wins).
pub open spec fn declared_upto(ds: Seq<TypeVarDecl>, k: int) -> Seq<(Seq<char>, Variance)>
    decreases k,
{
    if k <= 0 {
        Seq::empty()
    } else {
        assoc_insert(declared_upto(ds, k - 1), ds[k - 1].name@, decl_variance(ds[k - 1]))
    }
}

/// The same for the type variables declared with `infer_variance=True`.
pub open spec fn inferred_upto(ds: Seq<TypeVarDecl>, k: int) -> Seq<(Seq<char>, Variance)>
    decreases k,
{
    if k <= 0 {
        Seq::empty()
    } else if ds[k - 1].has_infer_variance {
        assoc_insert(inferred_upto(ds, k - 1), ds[k - 1].name@, decl_variance(ds[k - 1]))
    } else {
        inferred_upto(ds, k - 1)
    }
}

/// One inference pass over the first `k` classes, each result recorded before
/// the next class is inferred.
pub open spec fn pass_upto(
    classes: Seq<ClassV>,
    k: int,
    cv: Seq<(Seq<char>, Seq<Variance>)>,
) -> Seq<(Seq<char>, Seq<Variance>)>
    decreases k,
{
    if k <= 0 {
        cv
    } else {
        let prev = pass_upto(classes, k - 1, cv);
        assoc_insert(prev, classes[k - 1].name, class_variances(classes[k - 1], prev))
    }
}

/// Every collected class can be inferred: its parameter names are not empty
/// and its method lines can be sliced.
pub open spec fn classes_ok(classes: Seq<ClassV>) -> bool {
    forall|i: int|
        0 <= i < classes.len() ==> params_nonempty((#[trigger] classes[i]).type_params) && body_ok(
            classes[i].body_lines,
        )
}

pub open spec fn pep_view(p: Seq<Vec<Vec<char>>>) -> Seq<Seq<Seq<char>>> {
    p.map_values(|v: Vec<Vec<char>>| views(v@))
}

/// The variances after both passes, starting from the traditional parents.
pub open spec fn final_variances(
    lines: Seq<Seq<char>>,
    decls: Seq<TypeVarDecl>,
    pep695: Seq<Seq<Seq<char>>>,
) -> Seq<(Seq<char>, Seq<Variance>)> {
    let declared = declared_upto(decls, decls.len() as int);
    let classes = classes_upto(lines, lines.len() as int, inferred_upto(decls, decls.len() as int), pep695);
    let parents = parents_upto(lines, lines.len() as int, declared);
    pass_upto(classes, classes.len() as int, pass_upto(classes, classes.len() as int, parents))
}

/// The findings: none when no class needs inference; otherwise the
/// module-level violations, then those inside functions.
pub open spec fn variance_report(
    source: Seq<char>,
    decls: Seq<TypeVarDecl>,
    pep695: Seq<Seq<Seq<char>>>,
) -> Seq<VarDiagV> {
    let ls = crate::text::lines(source);
    let classes = classes_upto(ls, ls.len() as int, inferred_upto(decls, decls.len() as int), pep695);
    if classes.len() == 0 {
        Seq::empty()
    } else {
        let cv = final_variances(ls, decls, pep695);
        module_violations_from(ls, 0, cv, source) + fn_body_from(
            ls,
            0,
            FnState { in_function: false, indent: 0, params: Seq::empty() },
            cv,
            source,
        )
    }
}

fn infer_pass(
    classes: &Vec<ClassForVariance>,
    class_variances: &mut Vec<(Vec<char>, Vec<Variance>)>,
    typevar_declared: &Vec<(Vec<char>, Variance)>,
)
    requires
        classes_ok(classes_view(classes@)),
    ensures
        known_view(final(class_variances)@) == pass_upto(
            classes_view(classes@),
            classes@.len() as int,
            known_view(old(class_variances)@),
        ),
{
    let ghost cs = classes_view(classes@);
    let ghost cv0 = known_view(class_variances@);
    let mut i: usize = 0;
    while i < classes.len()
        invariant
            i <= classes@.len(),
            cs == classes_view(classes@),
            classes_ok(cs),
            cv0 == known_view(old(class_variances)@),
            known_view(class_variances@) == pass_upto(cs, i as int, cv0),
        decreases classes.len() - i,
    {
        proof {
            assert(cs[i as int] == class_view(classes@[i as int]));
            assert(params_nonempty(cs[i as int].type_params));
        }
        let vars = infer_variances(&classes[i], class_variances, typevar_declared);
        let name = classes[i].name.clone();
        proof {
            assert(name@ == cs[i as int].name);
        }
        known_put(class_variances, name, vars);
        i += 1;
    }
}

/// `check_variance_assignments`: variance findings for a module.
/// `pep695_params` gives, for each line of the source, the type parameters of
/// its PEP 695 list (empty when it has none).
pub fn check_variance_assignments(
    source: &[char],
    typevar_calls: &Vec<TypeVarDecl>,
    pep695_params: &Vec<Vec<Vec<char>>>,
) -> (r: Vec<VarianceDiagnostic>)
    requires
        utf8_len(source@) <= u32::MAX,
        defs_ok(crate::text::lines(source@)),
        collect_ok(
            crate::text::lines(source@),
            inferred_upto(typevar_calls@, typevar_calls@.len() as int),
            pep_view(pep695_params@),
        ),
        classes_ok(
            classes_upto(
                crate::text::lines(source@),
                crate::text::lines(source@).len() as int,
                inferred_upto(typevar_calls@, typevar_calls@.len() as int),
                pep_view(pep695_params@),
            ),
        ),
    ensures
        var_diags_view(r@) == variance_report(source@, typevar_calls@, pep_view(pep695_params@)),
{
    let lines = crate::text::lines_exec(source);
    let ghost ls = views(lines@);
    let mut infer_variance_tvs: Vec<(Vec<char>, Variance)> = Vec::new();
    let mut typevar_declared: Vec<(Vec<char>, Variance)> = Vec::new();
    let mut i: usize = 0;
    while i < typevar_calls.len()
        invariant
            i <= typevar_calls@.len(),
            tvmap_view(typevar_declared@) == declared_upto(typevar_calls@, i as int),
            tvmap_view(infer_variance_tvs@) == inferred_upto(typevar_calls@, i as int),
        decreases typevar_calls.len() - i,
    {
        let tv = &typevar_calls[i];
        let var = if tv.is_covariant {
            Variance::Covariant
        } else if tv.is_contravariant {
            Variance::Contravariant
        } else {
            Variance::Invariant
        };
        tvmap_put(&mut typevar_declared, tv.name.clone(), var);
        if tv.has_infer_variance {
            tvmap_put(&mut infer_variance_tvs, tv.name.clone(), var);
        }
        i += 1;
    }
    let parent_variances = resolve_parent_generic_variances(&lines, &typevar_declared);
    proof {
        crate::position::lemma_lines_utf8_len(source@);
        assert(lines_fit(ls)) by {
            assert forall|k: int| 0 <= k < ls.len() implies utf8_len(#[trigger] ls[k]) <= u32::MAX by {
                assert(ls[k] == crate::text::lines(source@)[k]);
            }
        }
    }
    let classes = collect_classes_for_variance(&lines, &infer_variance_tvs, pep695_params);
    let mut out: Vec<VarianceDiagnostic> = Vec::new();
    if classes.len() == 0 {
        proof {
            assert(var_diags_view(out@) =~= Seq::<VarDiagV>::empty());
        }
        return out;
    }
    let mut class_variances = parent_variances;
    infer_pass(&classes, &mut class_variances, &typevar_declared);
    infer_pass(&classes, &mut class_variances, &typevar_declared);
    check_module_level_assignments(&lines, &class_variances, source, &mut out);
    check_function_body_assignments(&lines, &class_variances, source, &mut out);
    proof {
        assert(var_diags_view(Seq::<VarianceDiagnostic>::empty()) =~= Seq::<VarDiagV>::empty());
    }
    out
}

// ---------------------------------------------------------------------------
// Line helpers
// ---------------------------------------------------------------------------

/// The first `=` of the line is a plain assignment: not `==`, not after `!`,
/// `<`, `>` or an arithmetic or bitwise operator (an augmented assignment).
pub open spec fn simple_assignment(line: Seq<char>) -> bool {
    match find_char(line, '=') {
        None => false,
        Some(i) => !(i + 1 < line.len() && line[i + 1] == '=') && !(i > 0 && (line[i - 1] == '!'
            || line[i - 1] == '<' || line[i - 1] == '>' || line[i - 1] == '+' || line[i - 1] == '-'
            || line[i - 1] == '*' || line[i - 1] == '/' || line[i - 1] == '%' || line[i - 1] == '&'
            || line[i - 1] == '|' || line[i - 1] == '^')),
    }
}

/// Whether the first `=` of the line is a plain assignment, neither a comparison nor an augmented operator.
pub fn is_simple_assignment(line: &[char]) -> (r: bool)
    ensures
        r == simple_assignment(line@),
{
    proof {
        lemma_find_char(line@, '=');
    }
    let i = match find_char_exec(line, '=') {
        Some(i) => i,
        None => return false,
    };
    let n = line.len();
    if i + 1 < n && line[i + 1] == '=' {
        return false;
    }
    if i > 0 {
        let p = line[i - 1];
        if p == '!' || p == '<' || p == '>' || p == '+' || p == '-' || p == '*' || p == '/' || p == '%'
            || p == '&' || p == '|' || p == '^' {
            return false;
        }
    }
    true
}

/// A `)` of `line` that brings the running parenthesis depth, started at
/// `depth`, to zero or below.
pub open spec fn closes_at(line: Seq<char>, depth: int) -> spec_fn(int) -> bool {
    |j: int| line[j] == ')' && depth + depth_paren(line, j) - 1 <= 0
}

/// The signature text from line `k` on: trimmed lines joined by single spaces
/// (no space after an empty start), up to the line whose `)` closes the
/// parentheses opened so far.
pub open spec fn signature_from(lines: Seq<Seq<char>>, k: int, depth: int, acc: Seq<char>) -> Seq<char>
    decreases lines.len() - k,
{
    if k < 0 || k >= lines.len() {
        acc
    } else {
        let line = lines[k];
        let acc2 = if acc.len() == 0 {
            trim(line)
        } else {
            acc + seq![' '] + trim(line)
        };
        if first_where(closes_at(line, depth), line.len() as int) is Some {
            acc2
        } else {
            signature_from(lines, k + 1, depth + depth_paren(line, line.len() as int), acc2)
        }
    }
}

/// The number of characters of all lines.
pub open spec fn chars_total(lines: Seq<Seq<char>>) -> nat
    decreases lines.len(),
{
    if lines.len() == 0 {
        0
    } else {
        chars_total(lines.drop_last()) + lines.last().len()
    }
}

proof fn lemma_chars_total_take(lines: Seq<Seq<char>>, k: int)
    requires
        0 <= k < lines.len(),
    ensures
        chars_total(lines.take(k + 1)) == chars_total(lines.take(k)) + lines[k].len(),
        chars_total(lines.take(k + 1)) <= chars_total(lines),
    decreases lines.len() - k,
{
    assert(lines.take(k + 1).drop_last() =~= lines.take(k));
    if k + 1 < lines.len() {
        lemma_chars_total_take(lines, k + 1);
    } else {
        assert(lines.take(k + 1) =~= lines);
    }
}

proof fn lemma_depth_paren_bound(s: Seq<char>, i: int)
    requires
        0 <= i <= s.len(),
    ensures
        -i <= depth_paren(s, i) <= i,
    decreases i,
{
    if i > 0 {
        lemma_depth_paren_bound(s, i - 1);
    }
}

/// `collect_full_signature`: the signature starting at line `start_idx`.
pub fn collect_full_signature(lines: &Vec<Vec<char>>, start_idx: usize) -> (r: Vec<char>)
    requires
        chars_total(views(lines@)) <= usize::MAX,
    ensures
        r@ == signature_from(views(lines@), start_idx as int, 0, Seq::empty()),
{
    let ghost ls = views(lines@);
    let mut sig: Vec<char> = Vec::new();
    let mut depth: i128 = 0;
    let mut k = start_idx;
    proof {
        if start_idx <= ls.len() {
            assert(chars_total(ls.take(0)) == 0);
        }
    }
    while k < lines.len()
        invariant
            ls == views(lines@),
            chars_total(ls) <= usize::MAX,
            start_idx <= k,
            k < lines@.len() ==> -(chars_total(ls.take(k as int)) as int) <= depth <= chars_total(ls.take(k as int)),
            signature_from(ls, start_idx as int, 0, Seq::empty()) == signature_from(ls, k as int, depth as int, sig@),
        decreases lines.len() - k,
    {
        proof {
            assert(ls[k as int] == lines@[k as int]@);
            lemma_chars_total_take(ls, k as int);
        }
        let ghost d0 = depth as int;
        let line = lines[k].as_slice();
        let t = trim_chars(line);
        let ghost sig0 = sig@;
        if sig.len() > 0 {
            sig.push(' ');
        }
        let mut q: usize = 0;
        let ghost mid = sig@;
        while q < t.len()
            invariant
                q <= t@.len(),
                sig@ == mid + t@.take(q as int),
            decreases t.len() - q,
        {
            sig.push(t[q]);
            proof {
                assert(t@.take(q + 1) =~= t@.take(q as int).push(t@[q as int]));
            }
            q += 1;
        }
        proof {
            assert(t@.take(q as int) =~= t@);
            if sig0.len() == 0 {
                assert(sig@ =~= trim(line@));
            } else {
                assert(sig@ =~= sig0 + seq![' '] + trim(line@));
            }
        }
        let mut j: usize = 0;
        while j < line.len()
            invariant
                j <= line@.len(),
                depth == d0 + depth_paren(line@, j as int),
                -(chars_total(ls.take(k as int)) as int) <= d0 <= chars_total(ls.take(k as int)),
                chars_total(ls.take(k + 1)) == chars_total(ls.take(k as int)) + line@.len(),
                chars_total(ls.take(k + 1)) <= usize::MAX,
                forall|x: int| 0 <= x < j ==> !#[trigger] closes_at(line@, d0)(x),
                k < ls.len(),
                ls == views(lines@),
                ls[k as int] == line@,
                signature_from(ls, start_idx as int, 0, Seq::empty()) == signature_from(ls, k as int, d0, sig0),
                sig@ == (if sig0.len() == 0 {
                    trim(line@)
                } else {
                    sig0 + seq![' '] + trim(line@)
                }),
            decreases line.len() - j,
        {
            proof {
                lemma_depth_paren_bound(line@, j as int);
            }
            if line[j] == '(' {
                depth = depth + 1;
            } else if line[j] == ')' {
                depth = depth - 1;
                if depth <= 0 {
                    proof {
                        assert(closes_at(line@, d0)(j as int));
                        lemma_first_where_at(closes_at(line@, d0), j as int, line@.len() as int);
                        assert(first_where(closes_at(ls[k as int], d0), ls[k as int].len() as int) is Some);
                        assert(signature_from(ls, k as int, d0, sig0) == sig@);
                    }
                    return sig;
                }
            }
            proof {
                assert(!closes_at(line@, d0)(j as int));
            }
            j += 1;
        }
        proof {
            lemma_first_where_none(closes_at(line@, d0), line@.len() as int);
            lemma_depth_paren_bound(line@, line@.len() as int);
        }
        k += 1;
    }
    proof {
        if k >= ls.len() {
            assert(signature_from(ls, k as int, depth as int, sig@) == sig@);
        }
    }
    sig
}

} // verus!
