//! Method calls on module-level instances of generic classes whose literal
//! argument does not fit the type the instance binds the parameter's `TypeVar` to.
use vstd::prelude::*;

use crate::assoc::{
    assoc_find, assoc_get, assoc_index, assoc_insert, lemma_assoc_index, lemma_assoc_index_at,
};
use crate::generic_text::{
    extract_typevar_params_from_generic, find_matching_close, generic_annotation, generic_params,
    generic_types_compatible, infer_literal_type, literal_type_name, literal_type_name_exec,
    literal_type_of, matching_close, parse_generic_annotation, split_top_level_type_args,
    type_args, types_compatible, LiteralType,
};
use crate::names::contains_name;
use crate::position::{indent_of, leading_indent, line_span, span_for_line, utf8_len, Span};
use crate::text::{
    all_alnum_or_underscore, before_char, before_char_exec, char_is_alphanumeric, chars_of,
    contains_char, contains_char_exec, contains_lit, contains_str, find_char, find_char_exec,
    find_str, find_str_exec, is_alnum_underscore_word, is_whitespace, is_ws, lemma_find_char,
    lemma_find_str, lemma_rfind_char, lines, lines_exec, rfind_char, rfind_char_exec, slice_of,
    split_top_commas, split_top_commas_exec, starts_with, starts_with_lit, trim, trim_all,
    trim_all_exec, trim_chars, unicode_alphanumeric, views,
};

verus! {

pub open spec fn pairs_view(v: Seq<(Vec<char>, Vec<char>)>) -> Seq<(Seq<char>, Seq<char>)> {
    v.map_values(|e: (Vec<char>, Vec<char>)| (e.0@, e.1@))
}

// ---------------------------------------------------------------------------
// Method signatures
// ---------------------------------------------------------------------------

/// The `(name, annotation)` entry of one parameter written `name: annotation`
/// (a default after `=` dropped); nothing for a bare name.
pub open spec fn param_entry(p: Seq<char>) -> Seq<(Seq<char>, Seq<char>)> {
    match find_char(p, ':') {
        Some(c) => seq![(trim(p.take(c)), trim(before_char(p.skip(c + 1), '=')))],
        None => Seq::empty(),
    }
}

/// Annotated parameters of trimmed pieces; empty pieces are ignored and a first
/// `self`/`cls` is skipped.
pub open spec fn params_from(parts: Seq<Seq<char>>, first: bool) -> Seq<(Seq<char>, Seq<char>)>
    decreases parts.len(),
{
    if parts.len() == 0 {
        Seq::empty()
    } else {
        let p = parts[0];
        let rest = parts.drop_first();
        if p.len() == 0 {
            params_from(rest, first)
        } else if first && (trim(before_char(p, ':')) == "self"@ || trim(before_char(p, ':'))
            == "cls"@) {
            params_from(rest, false)
        } else {
            param_entry(p) + params_from(rest, false)
        }
    }
}

/// The annotated parameters of a parameter list.
pub open spec fn method_params(text: Seq<char>) -> Seq<(Seq<char>, Seq<char>)> {
    params_from(trim_all(split_top_commas(text)), true)
}

/// `parse_method_params`: `(name, annotation)` of each annotated parameter,
/// without `self`/`cls`.
pub fn parse_method_params(params_text: &[char]) -> (r: Vec<(Vec<char>, Vec<char>)>)
    ensures
        pairs_view(r@) == method_params(params_text@),
{
    let raw = split_top_commas_exec(params_text);
    let parts = trim_all_exec(&raw);
    let ghost all = views(parts@);
    let mut result: Vec<(Vec<char>, Vec<char>)> = Vec::new();
    let mut first = true;
    let mut i: usize = 0;
    proof {
        assert(all.skip(0) =~= all);
        assert(pairs_view(result@) + params_from(all, true) =~= params_from(all, true));
    }
    while i < parts.len()
        invariant
            i <= parts@.len(),
            all == views(parts@),
            all == trim_all(split_top_commas(params_text@)),
            pairs_view(result@) + params_from(all.skip(i as int), first) == params_from(all, true),
        decreases parts.len() - i,
    {
        let ghost rest = all.skip(i as int);
        proof {
            assert(rest[0] == parts@[i as int]@);
            assert(rest.drop_first() =~= all.skip(i + 1));
        }
        let p = parts[i].as_slice();
        if p.len() == 0 {
            i += 1;
            continue;
        }
        if first {
            let head = before_char_exec(p, ':');
            let name = trim_chars(head.as_slice());
            if crate::text::eq_str(name.as_slice(), "self") || crate::text::eq_str(
                name.as_slice(),
                "cls",
            ) {
                first = false;
                i += 1;
                continue;
            }
        }
        first = false;
        let ghost before = pairs_view(result@);
        match find_char_exec(p, ':') {
            Some(c) => {
                proof {
                    lemma_find_char(p@, ':');
                }
                let head = slice_of(p, 0, c);
                let name = trim_chars(head.as_slice());
                let n = p.len();
                let tail = slice_of(p, c + 1, n);
                let ann0 = before_char_exec(tail.as_slice(), '=');
                let ann = trim_chars(ann0.as_slice());
                proof {
                    assert(head@ =~= p@.take(c as int));
                    assert(tail@ =~= p@.skip(c + 1));
                }
                result.push((name, ann));
                proof {
                    assert(pairs_view(result@) =~= before + param_entry(p@));
                }
            },
            None => {
                proof {
                    assert(pairs_view(result@) =~= before + param_entry(p@));
                }
            },
        }
        proof {
            assert(before + param_entry(p@) + params_from(all.skip(i + 1), false) =~= before + (
            param_entry(p@) + params_from(all.skip(i + 1), false)));
        }
        i += 1;
    }
    proof {
        assert(all.skip(i as int) =~= Seq::<Seq<char>>::empty());
        assert(pairs_view(result@) + params_from(all.skip(i as int), first) =~= pairs_view(
            result@,
        ));
    }
    result
}

/// Nesting of `(` only, before index `i`.
pub open spec fn depth_paren(s: Seq<char>, i: int) -> int
    decreases i,
{
    if i <= 0 {
        0
    } else {
        depth_paren(s, i - 1) + if s[i - 1] == '(' {
            1int
        } else if s[i - 1] == ')' {
            -1int
        } else {
            0int
        }
    }
}

/// Some `)` brings the parenthesis depth back to zero on this line.
pub open spec fn closes_paren(s: Seq<char>) -> bool {
    exists|p: int| 0 <= p < s.len() && s[p] == ')' && depth_paren(s, p) == 1
}

proof fn lemma_depth_paren_open(s: Seq<char>, i: int)
    requires
        0 <= i <= s.len(),
        depth_paren(s, i) > 0,
    ensures
        exists|q: int| 0 <= q < i && s[q] == '(',
    decreases i,
{
    if i > 0 && s[i - 1] != '(' {
        lemma_depth_paren_open(s, i - 1);
    }
}

proof fn lemma_closes_paren_order(s: Seq<char>)
    requires
        closes_paren(s),
    ensures
        find_char(s, '(') matches Some(o) && rfind_char(s, ')') matches Some(c) && o < c,
{
    let p = choose|p: int| 0 <= p < s.len() && s[p] == ')' && depth_paren(s, p) == 1;
    lemma_depth_paren_open(s, p);
    let q = choose|q: int| 0 <= q < p && s[q] == '(';
    crate::text::lemma_find_char(s, '(');
    lemma_rfind_char(s, ')');
}

fn closes_paren_exec(s: &[char]) -> (r: bool)
    ensures
        r == closes_paren(s@),
{
    let mut depth: i128 = 0;
    let mut i: usize = 0;
    while i < s.len()
        invariant
            i <= s@.len(),
            depth == depth_paren(s@, i as int),
            -(i as int) <= depth <= i,
            forall|q: int| 0 <= q < i ==> !(s@[q] == ')' && depth_paren(s@, q) == 1),
        decreases s.len() - i,
    {
        if s[i] == '(' {
            depth = depth + 1;
        } else if s[i] == ')' {
            depth = depth - 1;
            if depth == 0 {
                return true;
            }
        }
        i += 1;
    }
    false
}

/// The longest prefix of word characters (Unicode alphanumeric or `_`).
pub open spec fn word_len(s: Seq<char>) -> nat
    decreases s.len(),
{
    if s.len() > 0 && (unicode_alphanumeric(s[0]) || s[0] == '_') {
        1 + word_len(s.drop_first())
    } else {
        0
    }
}

proof fn lemma_word_len_step(s: Seq<char>, i: int)
    requires
        0 <= i < s.len(),
        forall|j: int| 0 <= j < i ==> (unicode_alphanumeric(#[trigger] s[j]) || s[j] == '_'),
    ensures
        (unicode_alphanumeric(s[i]) || s[i] == '_') ==> word_len(s) >= i + 1,
        !(unicode_alphanumeric(s[i]) || s[i] == '_') ==> word_len(s) == i,
    decreases i,
{
    if i > 0 {
        let t = s.drop_first();
        assert forall|j: int| 0 <= j < i - 1 implies (unicode_alphanumeric(#[trigger] t[j])
            || t[j] == '_') by {
            assert(t[j] == s[j + 1]);
        }
        lemma_word_len_step(t, i - 1);
    }
}

proof fn lemma_word_len_all(s: Seq<char>)
    requires
        forall|j: int| 0 <= j < s.len() ==> (unicode_alphanumeric(#[trigger] s[j]) || s[j] == '_'),
    ensures
        word_len(s) == s.len(),
    decreases s.len(),
{
    if s.len() > 0 {
        let t = s.drop_first();
        assert forall|j: int| 0 <= j < t.len() implies (unicode_alphanumeric(#[trigger] t[j])
            || t[j] == '_') by {
            assert(t[j] == s[j + 1]);
        }
        lemma_word_len_all(t);
    }
}

pub fn word_len_exec(s: &[char]) -> (r: usize)
    ensures
        r == word_len(s@),
        r <= s@.len(),
{
    let mut i: usize = 0;
    while i < s.len()
        invariant
            i <= s@.len(),
            forall|j: int| 0 <= j < i ==> (unicode_alphanumeric(#[trigger] s@[j]) || s@[j] == '_'),
        decreases s.len() - i,
    {
        if !(char_is_alphanumeric(s[i]) || s[i] == '_') {
            proof {
                lemma_word_len_step(s@, i as int);
            }
            return i;
        }
        i += 1;
    }
    proof {
        lemma_word_len_all(s@);
    }
    i
}

// ---------------------------------------------------------------------------
// Generic classes
// ---------------------------------------------------------------------------

pub type MethodsV = Seq<(Seq<char>, Seq<(Seq<char>, Seq<char>)>)>;

/// A class with a `Generic[...]` base found in the source text.
pub struct GenericClassDef {
    pub name: Vec<char>,
    /// `TypeVar` names in `Generic[...]` order.
    pub typevar_params: Vec<Vec<char>>,
    /// Method name and its annotated parameters (without `self`), one entry per
    /// name; a later definition replaces an earlier one.
    pub methods: Vec<(Vec<char>, Vec<(Vec<char>, Vec<char>)>)>,
}

pub struct ClassDefV {
    pub name: Seq<char>,
    pub params: Seq<Seq<char>>,
    pub methods: MethodsV,
}

pub open spec fn methods_view(m: Seq<(Vec<char>, Vec<(Vec<char>, Vec<char>)>)>) -> MethodsV {
    m.map_values(|e: (Vec<char>, Vec<(Vec<char>, Vec<char>)>)| (e.0@, pairs_view(e.1@)))
}

pub open spec fn class_view(c: GenericClassDef) -> ClassDefV {
    ClassDefV {
        name: c.name@,
        params: views(c.typevar_params@),
        methods: methods_view(c.methods@),
    }
}

pub open spec fn classes_view(v: Seq<GenericClassDef>) -> Seq<ClassDefV> {
    v.map_values(|c: GenericClassDef| class_view(c))
}

/// A `def` line one level inside the class adds or replaces a method entry
/// when its parameter list closes on that line.
pub open spec fn method_entry(bt: Seq<char>, acc: MethodsV) -> MethodsV {
    let ad = bt.skip(4);
    match find_char(ad, '(') {
        None => acc,
        Some(p) => if !closes_paren(bt) {
            acc
        } else {
            match (find_char(bt, '('), rfind_char(bt, ')')) {
                (Some(o), Some(c)) => assoc_insert(
                    acc,
                    trim(ad.take(p)),
                    method_params(bt.subrange(o + 1, c)),
                ),
                _ => acc,
            }
        },
    }
}

/// The methods of a class body from line index `j` on, until a line indented no
/// deeper than the class (`ci` bytes).
pub open spec fn methods_from(ls: Seq<Seq<char>>, j: int, ci: nat, acc: MethodsV) -> MethodsV
    decreases ls.len() - j,
{
    if j < 0 || j >= ls.len() {
        acc
    } else {
        let bl = ls[j];
        let bt = trim(bl);
        if bt.len() == 0 || bt[0] == '#' {
            methods_from(ls, j + 1, ci, acc)
        } else if indent_of(bl) <= ci {
            acc
        } else if indent_of(bl) == ci + 4 && starts_with(bt, "def "@) {
            methods_from(ls, j + 1, ci, method_entry(bt, acc))
        } else {
            methods_from(ls, j + 1, ci, acc)
        }
    }
}

pub open spec fn is_generic_class_line(t: Seq<char>) -> bool {
    starts_with(t, "class "@) && contains_str(t, "Generic["@)
}

/// The class defined on line index `idx`.
pub open spec fn class_def(ls: Seq<Seq<char>>, idx: int) -> ClassDefV {
    let t = trim(ls[idx]);
    let after = t.skip(6);
    ClassDefV {
        name: after.take(word_len(after) as int),
        params: generic_params(t),
        methods: methods_from(ls, idx + 1, indent_of(ls[idx]), Seq::empty()),
    }
}

/// The generic classes defined on the first `k` lines, in order.
pub open spec fn classes_upto(ls: Seq<Seq<char>>, k: int) -> Seq<ClassDefV>
    decreases k,
{
    if k <= 0 {
        Seq::empty()
    } else {
        let prev = classes_upto(ls, k - 1);
        if is_generic_class_line(trim(ls[k - 1])) {
            prev.push(class_def(ls, k - 1))
        } else {
            prev
        }
    }
}

pub open spec fn generic_classes(source: Seq<char>) -> Seq<ClassDefV> {
    classes_upto(lines(source), lines(source).len() as int)
}

/// All lines of the text are no longer in bytes than `u32` counts.
pub open spec fn lines_fit(ls: Seq<Seq<char>>) -> bool {
    forall|k: int| 0 <= k < ls.len() ==> utf8_len(#[trigger] ls[k]) <= u32::MAX
}

fn method_entry_exec(bt: &[char], acc: &mut Vec<(Vec<char>, Vec<(Vec<char>, Vec<char>)>)>)
    requires
        starts_with(bt@, "def "@),
    ensures
        methods_view(final(acc)@) == method_entry(bt@, methods_view(old(acc)@)),
{
    proof {
        reveal_strlit("def ");
    }
    let n = bt.len();
    let ad = slice_of(bt, 4, n);
    proof {
        assert(ad@ =~= bt@.skip(4));
    }
    let p = match find_char_exec(ad.as_slice(), '(') {
        Some(p) => p,
        None => return,
    };
    proof {
        lemma_find_char(ad@, '(');
    }
    if !closes_paren_exec(bt) {
        return;
    }
    proof {
        lemma_closes_paren_order(bt@);
    }
    let o = match find_char_exec(bt, '(') {
        Some(o) => o,
        None => return,
    };
    let c = match rfind_char_exec(bt, ')') {
        Some(c) => c,
        None => return,
    };
    proof {
        lemma_find_char(bt@, '(');
        lemma_rfind_char(bt@, ')');
    }
    let head = slice_of(ad.as_slice(), 0, p);
    let name = trim_chars(head.as_slice());
    proof {
        assert(head@ =~= ad@.take(p as int));
    }
    let text = slice_of(bt, o + 1, c);
    let params = parse_method_params(text.as_slice());
    let ghost m0 = methods_view(acc@);
    match assoc_find(acc, name.as_slice()) {
        Some(i) => {
            proof {
                lemma_assoc_index_at(m0, name@, i as int);
            }
            acc.set(i, (name, params));
            proof {
                assert(methods_view(acc@) =~= m0.update(i as int, (name@, pairs_view(params@))));
            }
        },
        None => {
            proof {
                lemma_assoc_index(m0, name@);
            }
            acc.push((name, params));
            proof {
                assert(methods_view(acc@) =~= m0.push((name@, pairs_view(params@))));
            }
        },
    }
}

fn class_methods_exec(ls: &Vec<Vec<char>>, start: usize, ci: usize) -> (r: Vec<
    (Vec<char>, Vec<(Vec<char>, Vec<char>)>),
>)
    requires
        start <= ls@.len(),
        lines_fit(views(ls@)),
        ci <= u32::MAX,
    ensures
        methods_view(r@) == methods_from(views(ls@), start as int, ci as nat, Seq::empty()),
{
    let ghost l = views(ls@);
    let mut acc: Vec<(Vec<char>, Vec<(Vec<char>, Vec<char>)>)> = Vec::new();
    let mut j = start;
    proof {
        assert(methods_view(acc@) =~= Seq::<(Seq<char>, Seq<(Seq<char>, Seq<char>)>)>::empty());
    }
    while j < ls.len()
        invariant
            start <= j <= ls@.len(),
            l == views(ls@),
            lines_fit(l),
            ci <= u32::MAX,
            methods_from(l, j as int, ci as nat, methods_view(acc@)) == methods_from(
                l,
                start as int,
                ci as nat,
                Seq::empty(),
            ),
        decreases ls.len() - j,
    {
        proof {
            assert(l[j as int] == ls@[j as int]@);
        }
        let bl = ls[j].as_slice();
        let bt = trim_chars(bl);
        if bt.len() == 0 || bt[0] == '#' {
            j += 1;
            continue;
        }
        let bi = leading_indent(bl);
        if bi <= ci {
            return acc;
        }
        if ci <= usize::MAX - 4 && bi == ci + 4 && starts_with_lit(bt.as_slice(), "def ") {
            method_entry_exec(bt.as_slice(), &mut acc);
        }
        j += 1;
    }
    acc
}

fn class_def_exec(ls: &Vec<Vec<char>>, idx: usize) -> (r: GenericClassDef)
    requires
        idx < ls@.len(),
        lines_fit(views(ls@)),
        starts_with(trim(views(ls@)[idx as int]), "class "@),
    ensures
        class_view(r) == class_def(views(ls@), idx as int),
{
    proof {
        reveal_strlit("class ");
        assert(views(ls@)[idx as int] == ls@[idx as int]@);
    }
    let line = ls[idx].as_slice();
    let t = trim_chars(line);
    let n = t.len();
    let after = slice_of(t.as_slice(), 6, n);
    proof {
        assert(after@ =~= t@.skip(6));
    }
    let w = word_len_exec(after.as_slice());
    let name = slice_of(after.as_slice(), 0, w);
    proof {
        assert(name@ =~= after@.take(w as int));
    }
    let params = extract_typevar_params_from_generic(t.as_slice());
    let ci = leading_indent(line);
    let total = ls.len();
    let methods = class_methods_exec(ls, idx + 1, ci);
    GenericClassDef { name, typevar_params: params, methods }
}

/// `collect_generic_classes`: the classes with a `Generic[...]` base, their
/// `TypeVar` parameters and their single-line method signatures.
pub fn collect_generic_classes(source: &[char]) -> (r: Vec<GenericClassDef>)
    requires
        utf8_len(source@) <= u32::MAX,
    ensures
        classes_view(r@) == generic_classes(source@),
{
    let ls = lines_exec(source);
    proof {
        crate::position::lemma_lines_utf8_len(source@);
    }
    collect_generic_classes_in(&ls)
}

fn collect_generic_classes_in(ls: &Vec<Vec<char>>) -> (r: Vec<GenericClassDef>)
    requires
        lines_fit(views(ls@)),
    ensures
        classes_view(r@) == classes_upto(views(ls@), ls@.len() as int),
{
    let ghost l = views(ls@);
    let mut classes: Vec<GenericClassDef> = Vec::new();
    let mut idx: usize = 0;
    proof {
        assert(classes_view(classes@) =~= Seq::<ClassDefV>::empty());
    }
    while idx < ls.len()
        invariant
            idx <= ls@.len(),
            l == views(ls@),
            lines_fit(l),
            classes_view(classes@) == classes_upto(l, idx as int),
        decreases ls.len() - idx,
    {
        proof {
            assert(l[idx as int] == ls@[idx as int]@);
        }
        let t = trim_chars(ls[idx].as_slice());
        if starts_with_lit(t.as_slice(), "class ") && contains_lit(t.as_slice(), "Generic[") {
            let def = class_def_exec(ls, idx);
            let ghost before = classes_view(classes@);
            classes.push(def);
            proof {
                assert(classes_view(classes@) =~= before.push(class_def(l, idx as int)));
            }
        }
        idx += 1;
    }
    classes
}

// ---------------------------------------------------------------------------
// Generic instances
// ---------------------------------------------------------------------------

/// A module-level variable annotated with a subscripted class.
pub struct GenericInstance {
    pub var_name: Vec<char>,
    pub class_name: Vec<char>,
    pub type_args: Vec<Vec<char>>,
}

pub struct InstanceV {
    pub var: Seq<char>,
    pub class: Seq<char>,
    pub args: Seq<Seq<char>>,
}

pub open spec fn instance_view(i: GenericInstance) -> InstanceV {
    InstanceV { var: i.var_name@, class: i.class_name@, args: views(i.type_args@) }
}

pub open spec fn instances_view(v: Seq<GenericInstance>) -> Seq<InstanceV> {
    v.map_values(|i: GenericInstance| instance_view(i))
}

/// The instance a module-level line `name: Class[args] = ...` declares.
pub open spec fn instance_of(l: Seq<char>) -> Option<InstanceV> {
    let t = trim(l);
    if l.len() > 0 && is_ws(l[0]) {
        None
    } else if !contains_char(t, ':') || !contains_char(t, '[') {
        None
    } else if starts_with(t, "class "@) || starts_with(t, "def "@) {
        None
    } else if t.len() > 0 && t[0] == '#' {
        None
    } else {
        match find_char(t, ':') {
            None => None,
            Some(c) => {
                let var = trim(t.take(c));
                if var.len() == 0 || !all_alnum_or_underscore(var) {
                    None
                } else {
                    let ann = trim(before_char(trim(before_char(t.skip(c + 1), '=')), '#'));
                    match generic_annotation(ann) {
                        Some((cls, args)) => Some(InstanceV { var, class: cls, args }),
                        None => None,
                    }
                }
            },
        }
    }
}

pub open spec fn instances_upto(ls: Seq<Seq<char>>, k: int) -> Seq<InstanceV>
    decreases k,
{
    if k <= 0 {
        Seq::empty()
    } else {
        match instance_of(ls[k - 1]) {
            Some(i) => instances_upto(ls, k - 1).push(i),
            None => instances_upto(ls, k - 1),
        }
    }
}

pub open spec fn generic_instances(source: Seq<char>) -> Seq<InstanceV> {
    instances_upto(lines(source), lines(source).len() as int)
}

fn instance_of_exec(l: &[char]) -> (r: Option<GenericInstance>)
    ensures
        match r {
            Some(i) => instance_of(l@) == Some(instance_view(i)),
            None => instance_of(l@) is None,
        },
{
    let t = trim_chars(l);
    if l.len() > 0 && is_whitespace(l[0]) {
        return None;
    }
    if !contains_char_exec(t.as_slice(), ':') || !contains_char_exec(t.as_slice(), '[') {
        return None;
    }
    if starts_with_lit(t.as_slice(), "class ") || starts_with_lit(t.as_slice(), "def ") {
        return None;
    }
    if t.len() > 0 && t[0] == '#' {
        return None;
    }
    let c = match find_char_exec(t.as_slice(), ':') {
        Some(c) => c,
        None => return None,
    };
    proof {
        lemma_find_char(t@, ':');
    }
    let head = slice_of(t.as_slice(), 0, c);
    let var = trim_chars(head.as_slice());
    proof {
        assert(head@ =~= t@.take(c as int));
    }
    if var.len() == 0 || !is_alnum_underscore_word(var.as_slice()) {
        return None;
    }
    let n = t.len();
    let tail = slice_of(t.as_slice(), c + 1, n);
    proof {
        assert(tail@ =~= t@.skip(c + 1));
    }
    let a0 = before_char_exec(tail.as_slice(), '=');
    let a1 = trim_chars(a0.as_slice());
    let a2 = before_char_exec(a1.as_slice(), '#');
    let ann = trim_chars(a2.as_slice());
    match parse_generic_annotation(ann.as_slice()) {
        Some((cls, args)) => Some(GenericInstance { var_name: var, class_name: cls, type_args: args }),
        None => None,
    }
}

/// `collect_generic_instances`: module-level variables annotated with a
/// subscripted class, with the class name and type arguments.
pub fn collect_generic_instances(source: &[char]) -> (r: Vec<GenericInstance>)
    ensures
        instances_view(r@) == generic_instances(source@),
{
    let ls = lines_exec(source);
    collect_generic_instances_in(&ls)
}

fn collect_generic_instances_in(ls: &Vec<Vec<char>>) -> (r: Vec<GenericInstance>)
    ensures
        instances_view(r@) == instances_upto(views(ls@), ls@.len() as int),
{
    let ghost l = views(ls@);
    let mut out: Vec<GenericInstance> = Vec::new();
    let mut k: usize = 0;
    proof {
        assert(instances_view(out@) =~= Seq::<InstanceV>::empty());
    }
    while k < ls.len()
        invariant
            k <= ls@.len(),
            l == views(ls@),
            instances_view(out@) == instances_upto(l, k as int),
        decreases ls.len() - k,
    {
        proof {
            assert(l[k as int] == ls@[k as int]@);
        }
        match instance_of_exec(ls[k].as_slice()) {
            Some(i) => {
                let ghost before = instances_view(out@);
                let ghost iv = instance_view(i);
                out.push(i);
                proof {
                    assert(instances_view(out@) =~= before.push(iv));
                }
            },
            None => {},
        }
        k += 1;
    }
    out
}

} // verus!

verus! {

// ---------------------------------------------------------------------------
// Method calls on instances
// ---------------------------------------------------------------------------

/// The index of the first class named `name`.
pub open spec fn first_class(classes: Seq<ClassDefV>, name: Seq<char>) -> Option<int>
    decreases classes.len(),
{
    if classes.len() == 0 {
        None
    } else {
        match first_class(classes.drop_last(), name) {
            Some(i) => Some(i),
            None => if classes.last().name == name {
                Some(classes.len() - 1)
            } else {
                None
            },
        }
    }
}

/// `TypeVar` to type, built by inserting the pairs of `zip(params, args)` in order.
pub open spec fn subst_upto(params: Seq<Seq<char>>, args: Seq<Seq<char>>, k: int) -> Seq<
    (Seq<char>, Seq<char>),
>
    decreases k,
{
    if k <= 0 {
        Seq::empty()
    } else {
        assoc_insert(subst_upto(params, args, k - 1), params[k - 1], args[k - 1])
    }
}

pub open spec fn min_len(a: int, b: int) -> int {
    if a <= b {
        a
    } else {
        b
    }
}

pub open spec fn subst_of(params: Seq<Seq<char>>, args: Seq<Seq<char>>) -> Seq<(Seq<char>, Seq<char>)> {
    subst_upto(params, args, min_len(params.len() as int, args.len() as int))
}

pub type VarsV = Seq<(Seq<char>, (int, Seq<(Seq<char>, Seq<char>)>))>;

/// Variable name to (class index, substitution), inserted in instance order.
pub open spec fn vars_upto(classes: Seq<ClassDefV>, insts: Seq<InstanceV>, k: int) -> VarsV
    decreases k,
{
    if k <= 0 {
        Seq::empty()
    } else {
        let prev = vars_upto(classes, insts, k - 1);
        let inst = insts[k - 1];
        match first_class(classes, inst.class) {
            Some(ci) => assoc_insert(prev, inst.var, (ci, subst_of(classes[ci].params, inst.args))),
            None => prev,
        }
    }
}

/// The class's `TypeVar`s paired, in order, with the substitution's types.
pub open spec fn bindings_of(params: Seq<Seq<char>>, subst: Seq<(Seq<char>, Seq<char>)>) -> Seq<
    (Seq<char>, Seq<char>),
> {
    Seq::new(
        min_len(params.len() as int, subst.len() as int) as nat,
        |i: int| (params[i], subst[i].1),
    )
}

pub struct CallSiteV {
    pub line: nat,
    pub span: (nat, nat),
}

/// A literal argument whose type does not fit the type the instance binds the
/// parameter's `TypeVar` to.
pub struct CallMismatch {
    /// 1-based line number.
    pub line: usize,
    pub span: Span,
    /// The argument text, trimmed.
    pub arg: Vec<char>,
    pub actual: LiteralType,
    pub param_name: Vec<char>,
    pub expected: Vec<char>,
    pub typevar: Vec<char>,
    pub var_name: Vec<char>,
    pub class_name: Vec<char>,
    /// The class's `TypeVar`s with the instance's types.
    pub bindings: Vec<(Vec<char>, Vec<char>)>,
}

pub struct CallMismatchV {
    pub line: nat,
    pub span: (nat, nat),
    pub arg: Seq<char>,
    pub actual: LiteralType,
    pub param_name: Seq<char>,
    pub expected: Seq<char>,
    pub typevar: Seq<char>,
    pub var_name: Seq<char>,
    pub class_name: Seq<char>,
    pub bindings: Seq<(Seq<char>, Seq<char>)>,
}

pub open spec fn mismatch_view(m: CallMismatch) -> CallMismatchV {
    CallMismatchV {
        line: m.line as nat,
        span: (m.span.start as nat, m.span.end as nat),
        arg: m.arg@,
        actual: m.actual,
        param_name: m.param_name@,
        expected: m.expected@,
        typevar: m.typevar@,
        var_name: m.var_name@,
        class_name: m.class_name@,
        bindings: pairs_view(m.bindings@),
    }
}

/// Each binding written `T=type`.
pub open spec fn binding_texts(bs: Seq<(Seq<char>, Seq<char>)>) -> Seq<Seq<char>> {
    bs.map_values(|b: (Seq<char>, Seq<char>)| b.0 + "="@ + b.1)
}

/// The text of a call finding.
pub open spec fn call_message(m: CallMismatchV) -> Seq<char> {
    "Argument `"@ + m.arg + "` of type `"@ + literal_type_name(m.actual) + "` is not compatible with parameter `"@
        + m.param_name + ": "@ + m.expected + "` (TypeVar `"@ + m.typevar + "` is bound to `"@ + m.expected
        + "` for instance `"@ + m.var_name + ": "@ + m.class_name + "["@ + crate::text::join_comma(
        binding_texts(m.bindings),
    ) + "]`)"@
}

impl CallMismatch {
    /// The finding's message: the argument, its type, the parameter and how
    /// the instance binds the class's type variables.
    pub fn message(&self) -> (r: Vec<char>)
        ensures
            r@ == call_message(mismatch_view(*self)),
    {
        let mut parts: Vec<Vec<char>> = Vec::new();
        let mut i: usize = 0;
        while i < self.bindings.len()
            invariant
                i <= self.bindings@.len(),
                crate::text::views(parts@) =~= binding_texts(
                    mismatch_view(*self).bindings,
                ).take(i as int),
            decreases self.bindings@.len() - i,
        {
            let mut p = self.bindings[i].0.clone();
            crate::text::push_lit(&mut p, "=");
            crate::text::push_chars(&mut p, self.bindings[i].1.as_slice());
            let ghost before = parts@;
            parts.push(p);
            proof {
                let bt = binding_texts(mismatch_view(*self).bindings);
                assert(mismatch_view(*self).bindings[i as int] == (self.bindings@[i as int].0@, self.bindings@[
                    i as int].1@));
                assert(crate::text::views(parts@) =~= crate::text::views(before).push(p@));
                assert(bt.take(i + 1) =~= bt.take(i as int).push(bt[i as int]));
            }
            i += 1;
        }
        proof {
            let bt = binding_texts(mismatch_view(*self).bindings);
            assert(bt.take(i as int) =~= bt);
        }
        let mut m = crate::text::chars_of("Argument `");
        crate::text::push_chars(&mut m, self.arg.as_slice());
        crate::text::push_lit(&mut m, "` of type `");
        let tn = literal_type_name_exec(self.actual);
        crate::text::push_chars(&mut m, tn.as_slice());
        crate::text::push_lit(&mut m, "` is not compatible with parameter `");
        crate::text::push_chars(&mut m, self.param_name.as_slice());
        crate::text::push_lit(&mut m, ": ");
        crate::text::push_chars(&mut m, self.expected.as_slice());
        crate::text::push_lit(&mut m, "` (TypeVar `");
        crate::text::push_chars(&mut m, self.typevar.as_slice());
        crate::text::push_lit(&mut m, "` is bound to `");
        crate::text::push_chars(&mut m, self.expected.as_slice());
        crate::text::push_lit(&mut m, "` for instance `");
        crate::text::push_chars(&mut m, self.var_name.as_slice());
        crate::text::push_lit(&mut m, ": ");
        crate::text::push_chars(&mut m, self.class_name.as_slice());
        crate::text::push_lit(&mut m, "[");
        crate::text::push_joined(&mut m, &parts);
        crate::text::push_lit(&mut m, "]`)");
        m
    }
}

pub open spec fn mismatches_view(v: Seq<CallMismatch>) -> Seq<CallMismatchV> {
    v.map_values(|m: CallMismatch| mismatch_view(m))
}

/// The mismatch, if any, of parameter `idx` of a called method.
pub open spec fn param_mismatch(
    params: Seq<(Seq<char>, Seq<char>)>,
    args: Seq<Seq<char>>,
    tvs: Seq<Seq<char>>,
    subst: Seq<(Seq<char>, Seq<char>)>,
    var: Seq<char>,
    class: ClassDefV,
    site: CallSiteV,
    idx: int,
) -> Seq<CallMismatchV> {
    let (pn, pa) = params[idx];
    let tv = trim(pa);
    if !tvs.contains(tv) {
        Seq::empty()
    } else {
        match assoc_get(subst, tv) {
            None => Seq::empty(),
            Some(exp) => if idx >= args.len() {
                Seq::empty()
            } else {
                let arg = trim(args[idx]);
                match literal_type_of(arg) {
                    None => Seq::empty(),
                    Some(act) => if types_compatible(literal_type_name(act), exp) {
                        Seq::empty()
                    } else {
                        seq![
                            CallMismatchV {
                                line: site.line,
                                span: site.span,
                                arg,
                                actual: act,
                                param_name: pn,
                                expected: exp,
                                typevar: tv,
                                var_name: var,
                                class_name: class.name,
                                bindings: bindings_of(class.params, subst),
                            },
                        ]
                    },
                }
            },
        }
    }
}

pub open spec fn params_mismatches(
    params: Seq<(Seq<char>, Seq<char>)>,
    args: Seq<Seq<char>>,
    tvs: Seq<Seq<char>>,
    subst: Seq<(Seq<char>, Seq<char>)>,
    var: Seq<char>,
    class: ClassDefV,
    site: CallSiteV,
    k: int,
) -> Seq<CallMismatchV>
    decreases k,
{
    if k <= 0 {
        Seq::empty()
    } else {
        params_mismatches(params, args, tvs, subst, var, class, site, k - 1) + param_mismatch(
            params,
            args,
            tvs,
            subst,
            var,
            class,
            site,
            k - 1,
        )
    }
}

/// The mismatches of a call `var.method(args)` on a trimmed line.
pub open spec fn var_mismatches(
    classes: Seq<ClassDefV>,
    tvs: Seq<Seq<char>>,
    t: Seq<char>,
    entry: (Seq<char>, (int, Seq<(Seq<char>, Seq<char>)>)),
    site: CallSiteV,
) -> Seq<CallMismatchV> {
    let (var, (ci, subst)) = entry;
    let pat = var + "."@;
    match find_str(t, pat) {
        None => Seq::empty(),
        Some(d) => {
            let ad = t.skip(d + pat.len());
            match find_char(ad, '(') {
                None => Seq::empty(),
                Some(pp) => {
                    let class = classes[ci];
                    match assoc_get(class.methods, trim(ad.take(pp))) {
                        None => Seq::empty(),
                        Some(params) => {
                            let ap = ad.skip(pp + 1);
                            let args = type_args(ap.take(matching_close(ap)));
                            params_mismatches(
                                params,
                                args,
                                tvs,
                                subst,
                                var,
                                class,
                                site,
                                params.len() as int,
                            )
                        },
                    }
                },
            }
        },
    }
}

pub open spec fn vars_mismatches(
    classes: Seq<ClassDefV>,
    tvs: Seq<Seq<char>>,
    vars: VarsV,
    t: Seq<char>,
    site: CallSiteV,
    k: int,
) -> Seq<CallMismatchV>
    decreases k,
{
    if k <= 0 {
        Seq::empty()
    } else {
        vars_mismatches(classes, tvs, vars, t, site, k - 1) + var_mismatches(
            classes,
            tvs,
            t,
            vars[k - 1],
            site,
        )
    }
}

/// The mismatches of one module-level line.
pub open spec fn line_mismatches(
    source: Seq<char>,
    classes: Seq<ClassDefV>,
    tvs: Seq<Seq<char>>,
    vars: VarsV,
    l: Seq<char>,
    n: nat,
) -> Seq<CallMismatchV> {
    let t = trim(l);
    if t.len() == 0 || t[0] == '#' || starts_with(t, "class "@) || starts_with(t, "def "@) || (l.len()
        > 0 && is_ws(l[0])) {
        Seq::empty()
    } else {
        vars_mismatches(
            classes,
            tvs,
            vars,
            t,
            CallSiteV { line: n, span: line_span(source, n as int) },
            vars.len() as int,
        )
    }
}

pub open spec fn lines_mismatches(
    source: Seq<char>,
    classes: Seq<ClassDefV>,
    tvs: Seq<Seq<char>>,
    vars: VarsV,
    k: int,
) -> Seq<CallMismatchV>
    decreases k,
{
    if k <= 0 {
        Seq::empty()
    } else {
        lines_mismatches(source, classes, tvs, vars, k - 1) + line_mismatches(
            source,
            classes,
            tvs,
            vars,
            lines(source)[k - 1],
            k as nat,
        )
    }
}

/// All mismatches of the module; nothing without generic classes, instances or
/// instances of known classes.
pub open spec fn generic_call_mismatches(source: Seq<char>, tvs: Seq<Seq<char>>) -> Seq<CallMismatchV> {
    let classes = generic_classes(source);
    let insts = generic_instances(source);
    let vars = vars_upto(classes, insts, insts.len() as int);
    if classes.len() == 0 || insts.len() == 0 || vars.len() == 0 {
        Seq::empty()
    } else {
        lines_mismatches(source, classes, tvs, vars, lines(source).len() as int)
    }
}

// ---- executable ----

pub struct VarEntry {
    pub var: Vec<char>,
    pub class_index: usize,
    pub subst: Vec<(Vec<char>, Vec<char>)>,
}

pub open spec fn entry_view(e: VarEntry) -> (Seq<char>, (int, Seq<(Seq<char>, Seq<char>)>)) {
    (e.var@, (e.class_index as int, pairs_view(e.subst@)))
}

pub open spec fn entries_view(v: Seq<VarEntry>) -> VarsV {
    v.map_values(|e: VarEntry| entry_view(e))
}

fn first_class_exec(classes: &Vec<GenericClassDef>, name: &[char]) -> (r: Option<usize>)
    ensures
        match r {
            Some(i) => i < classes@.len() && first_class(classes_view(classes@), name@) == Some(
                i as int,
            ),
            None => first_class(classes_view(classes@), name@) is None,
        },
{
    let ghost cv = classes_view(classes@);
    let mut i: usize = 0;
    while i < classes.len()
        invariant
            i <= classes@.len(),
            cv == classes_view(classes@),
            first_class(cv.take(i as int), name@) is None,
        decreases classes.len() - i,
    {
        proof {
            let t = cv.take(i + 1);
            assert(t.drop_last() =~= cv.take(i as int));
        }
        if crate::text::eq_chars(classes[i].name.as_slice(), name) {
            proof {
                assert(first_class(cv.take(i + 1), name@) == Some(i as int));
                lemma_first_class_prefix(cv, name@, i + 1);
            }
            return Some(i);
        }
        i += 1;
    }
    proof {
        assert(cv.take(i as int) =~= cv);
    }
    None
}

proof fn lemma_first_class_prefix(cv: Seq<ClassDefV>, name: Seq<char>, k: int)
    requires
        0 <= k <= cv.len(),
        first_class(cv.take(k), name) is Some,
    ensures
        first_class(cv, name) == first_class(cv.take(k), name),
    decreases cv.len() - k,
{
    if k < cv.len() {
        let t = cv.take(k + 1);
        assert(t.drop_last() =~= cv.take(k));
        assert(first_class(t, name) == first_class(cv.take(k), name));
        lemma_first_class_prefix(cv, name, k + 1);
    } else {
        assert(cv.take(k) =~= cv);
    }
}

fn assoc_insert_pairs(m: &mut Vec<(Vec<char>, Vec<char>)>, k: Vec<char>, v: Vec<char>)
    ensures
        pairs_view(final(m)@) == assoc_insert(pairs_view(old(m)@), k@, v@),
{
    let ghost m0 = pairs_view(m@);
    match assoc_find(m, k.as_slice()) {
        Some(i) => {
            proof {
                lemma_assoc_index_at(m0, k@, i as int);
            }
            m.set(i, (k, v));
            proof {
                assert(pairs_view(m@) =~= m0.update(i as int, (k@, v@)));
            }
        },
        None => {
            proof {
                lemma_assoc_index(m0, k@);
            }
            let ghost kv = k@;
            m.push((k, v));
            proof {
                assert(pairs_view(m@) =~= m0.push((kv, v@)));
            }
        },
    }
}

fn subst_of_exec(params: &Vec<Vec<char>>, args: &Vec<Vec<char>>) -> (r: Vec<(Vec<char>, Vec<char>)>)
    ensures
        pairs_view(r@) == subst_of(views(params@), views(args@)),
{
    let n = if params.len() <= args.len() {
        params.len()
    } else {
        args.len()
    };
    let mut m: Vec<(Vec<char>, Vec<char>)> = Vec::new();
    let mut i: usize = 0;
    proof {
        assert(pairs_view(m@) =~= Seq::<(Seq<char>, Seq<char>)>::empty());
    }
    while i < n
        invariant
            i <= n,
            n <= params@.len(),
            n <= args@.len(),
            n == min_len(params@.len() as int, args@.len() as int),
            pairs_view(m@) == subst_upto(views(params@), views(args@), i as int),
        decreases n - i,
    {
        proof {
            assert(views(params@)[i as int] == params@[i as int]@);
            assert(views(args@)[i as int] == args@[i as int]@);
        }
        assoc_insert_pairs(&mut m, params[i].clone(), args[i].clone());
        i += 1;
    }
    m
}

fn find_var(vars: &Vec<VarEntry>, name: &[char]) -> (r: Option<usize>)
    ensures
        match r {
            Some(i) => i < vars@.len() && vars@[i as int].var@ == name@ && forall|j: int|
                0 <= j < i ==> vars@[j].var@ != name@,
            None => forall|j: int| 0 <= j < vars@.len() ==> vars@[j].var@ != name@,
        },
{
    let mut i: usize = 0;
    while i < vars.len()
        invariant
            i <= vars@.len(),
            forall|j: int| 0 <= j < i ==> vars@[j].var@ != name@,
        decreases vars.len() - i,
    {
        if crate::text::eq_chars(vars[i].var.as_slice(), name) {
            return Some(i);
        }
        i += 1;
    }
    None
}

fn vars_exec(classes: &Vec<GenericClassDef>, insts: &Vec<GenericInstance>) -> (r: Vec<VarEntry>)
    ensures
        entries_view(r@) == vars_upto(
            classes_view(classes@),
            instances_view(insts@),
            insts@.len() as int,
        ),
        forall|j: int| 0 <= j < r@.len() ==> (#[trigger] r@[j]).class_index < classes@.len(),
{
    let ghost cv = classes_view(classes@);
    let ghost iv = instances_view(insts@);
    let mut vars: Vec<VarEntry> = Vec::new();
    let mut k: usize = 0;
    proof {
        assert(entries_view(vars@) =~= Seq::<(Seq<char>, (int, Seq<(Seq<char>, Seq<char>)>))>::empty());
    }
    while k < insts.len()
        invariant
            k <= insts@.len(),
            cv == classes_view(classes@),
            iv == instances_view(insts@),
            entries_view(vars@) == vars_upto(cv, iv, k as int),
            forall|j: int| 0 <= j < vars@.len() ==> (#[trigger] vars@[j]).class_index < classes@.len(),
        decreases insts.len() - k,
    {
        proof {
            assert(iv[k as int] == instance_view(insts@[k as int]));
        }
        let inst = &insts[k];
        match first_class_exec(classes, inst.class_name.as_slice()) {
            Some(ci) => {
                proof {
                    assert(cv[ci as int] == class_view(classes@[ci as int]));
                }
                let subst = subst_of_exec(&classes[ci].typevar_params, &inst.type_args);
                let ghost e0 = entries_view(vars@);
                let ghost newv = (ci as int, pairs_view(subst@));
                let found = find_var(&vars, inst.var_name.as_slice());
                match found {
                    Some(q) => {
                        proof {
                            lemma_assoc_index_at(e0, inst.var_name@, q as int);
                        }
                        let e = VarEntry { var: inst.var_name.clone(), class_index: ci, subst };
                        vars.set(q, e);
                        proof {
                            assert(entries_view(vars@) =~= e0.update(
                                q as int,
                                (inst.var_name@, newv),
                            ));
                        }
                    },
                    None => {
                        proof {
                            lemma_assoc_index(e0, inst.var_name@);
                        }
                        let e = VarEntry { var: inst.var_name.clone(), class_index: ci, subst };
                        vars.push(e);
                        proof {
                            assert(entries_view(vars@) =~= e0.push((inst.var_name@, newv)));
                        }
                    },
                }
            },
            None => {},
        }
        k += 1;
    }
    vars
}

} // verus!

verus! {

fn bindings_exec(params: &Vec<Vec<char>>, subst: &Vec<(Vec<char>, Vec<char>)>) -> (r: Vec<
    (Vec<char>, Vec<char>),
>)
    ensures
        pairs_view(r@) == bindings_of(views(params@), pairs_view(subst@)),
{
    let n = if params.len() <= subst.len() {
        params.len()
    } else {
        subst.len()
    };
    let mut v: Vec<(Vec<char>, Vec<char>)> = Vec::new();
    let mut i: usize = 0;
    while i < n
        invariant
            i <= n,
            n <= params@.len(),
            n <= subst@.len(),
            pairs_view(v@) == bindings_of(views(params@), pairs_view(subst@)).take(i as int),
        decreases n - i,
    {
        let ghost before = pairs_view(v@);
        v.push((params[i].clone(), subst[i].1.clone()));
        proof {
            assert(pairs_view(v@) =~= before.push((params@[i as int]@, subst@[i as int].1@)));
            assert(bindings_of(views(params@), pairs_view(subst@)).take(i + 1) =~= before.push(
                (params@[i as int]@, subst@[i as int].1@),
            ));
        }
        i += 1;
    }
    proof {
        assert(bindings_of(views(params@), pairs_view(subst@)).take(i as int) =~= bindings_of(
            views(params@),
            pairs_view(subst@),
        ));
    }
    v
}

fn assoc_get_pairs(m: &Vec<(Vec<char>, Vec<char>)>, k: &[char]) -> (r: Option<Vec<char>>)
    ensures
        match r {
            Some(v) => assoc_get(pairs_view(m@), k@) == Some(v@),
            None => assoc_get(pairs_view(m@), k@) is None,
        },
{
    let ghost mv = pairs_view(m@);
    match assoc_find(m, k) {
        Some(i) => {
            proof {
                lemma_assoc_index_at(mv, k@, i as int);
            }
            Some(m[i].1.clone())
        },
        None => {
            proof {
                lemma_assoc_index(mv, k@);
            }
            None
        },
    }
}

fn param_mismatch_exec(
    params: &Vec<(Vec<char>, Vec<char>)>,
    args: &Vec<Vec<char>>,
    tvs: &Vec<Vec<char>>,
    subst: &Vec<(Vec<char>, Vec<char>)>,
    var: &Vec<char>,
    class: &GenericClassDef,
    line: usize,
    span: Span,
    idx: usize,
    out: &mut Vec<CallMismatch>,
)
    requires
        idx < params@.len(),
    ensures
        mismatches_view(final(out)@) == mismatches_view(old(out)@) + param_mismatch(
            pairs_view(params@),
            views(args@),
            views(tvs@),
            pairs_view(subst@),
            var@,
            class_view(*class),
            CallSiteV { line: line as nat, span: (span.start as nat, span.end as nat) },
            idx as int,
        ),
{
    let ghost o0 = mismatches_view(out@);
    proof {
        assert(pairs_view(params@)[idx as int] == (params@[idx as int].0@, params@[idx as int].1@));
    }
    let pn = &params[idx].0;
    let tv = trim_chars(params[idx].1.as_slice());
    if !contains_name(tvs, tv.as_slice()) {
        proof {
            assert(mismatches_view(out@) =~= o0 + Seq::<CallMismatchV>::empty());
        }
        return;
    }
    let exp = match assoc_get_pairs(subst, tv.as_slice()) {
        Some(e) => e,
        None => {
            proof {
                assert(mismatches_view(out@) =~= o0 + Seq::<CallMismatchV>::empty());
            }
            return;
        },
    };
    if idx >= args.len() {
        proof {
            assert(mismatches_view(out@) =~= o0 + Seq::<CallMismatchV>::empty());
        }
        return;
    }
    proof {
        assert(views(args@)[idx as int] == args@[idx as int]@);
    }
    let arg = trim_chars(args[idx].as_slice());
    let act = match infer_literal_type(arg.as_slice()) {
        Some(a) => a,
        None => {
            proof {
                assert(mismatches_view(out@) =~= o0 + Seq::<CallMismatchV>::empty());
            }
            return;
        },
    };
    let act_name = literal_type_name_exec(act);
    if generic_types_compatible(act_name.as_slice(), exp.as_slice()) {
        proof {
            assert(mismatches_view(out@) =~= o0 + Seq::<CallMismatchV>::empty());
        }
        return;
    }
    let bindings = bindings_exec(&class.typevar_params, subst);
    let m = CallMismatch {
        line,
        span,
        arg,
        actual: act,
        param_name: pn.clone(),
        expected: exp,
        typevar: tv,
        var_name: var.clone(),
        class_name: class.name.clone(),
        bindings,
    };
    let ghost mv = mismatch_view(m);
    out.push(m);
    proof {
        assert(mismatches_view(out@) =~= o0 + seq![mv]);
    }
}

fn var_mismatches_exec(
    classes: &Vec<GenericClassDef>,
    tvs: &Vec<Vec<char>>,
    t: &[char],
    entry: &VarEntry,
    line: usize,
    span: Span,
    out: &mut Vec<CallMismatch>,
)
    requires
        entry.class_index < classes@.len(),
    ensures
        mismatches_view(final(out)@) == mismatches_view(old(out)@) + var_mismatches(
            classes_view(classes@),
            views(tvs@),
            t@,
            entry_view(*entry),
            CallSiteV { line: line as nat, span: (span.start as nat, span.end as nat) },
        ),
{
    let ghost o0 = mismatches_view(out@);
    let mut pat = entry.var.clone();
    pat.push('.');
    proof {
        assert(pat@ =~= entry.var@ + "."@) by {
            reveal_strlit(".");
        }
    }
    let d = match find_str_exec(t, pat.as_slice()) {
        Some(d) => d,
        None => {
            proof {
                assert(mismatches_view(out@) =~= o0 + Seq::<CallMismatchV>::empty());
            }
            return;
        },
    };
    proof {
        lemma_find_str(t@, pat@);
    }
    let n = t.len();
    let ad = slice_of(t, d + pat.len(), n);
    proof {
        assert(ad@ =~= t@.skip(d + pat@.len()));
    }
    let pp = match find_char_exec(ad.as_slice(), '(') {
        Some(p) => p,
        None => {
            proof {
                assert(mismatches_view(out@) =~= o0 + Seq::<CallMismatchV>::empty());
            }
            return;
        },
    };
    proof {
        lemma_find_char(ad@, '(');
    }
    let head = slice_of(ad.as_slice(), 0, pp);
    let mname = trim_chars(head.as_slice());
    proof {
        assert(head@ =~= ad@.take(pp as int));
    }
    let class = &classes[entry.class_index];
    proof {
        assert(classes_view(classes@)[entry.class_index as int] == class_view(*class));
    }
    let ghost mv = methods_view(class.methods@);
    let mi = match assoc_find(&class.methods, mname.as_slice()) {
        Some(i) => i,
        None => {
            proof {
                lemma_assoc_index(mv, mname@);
                assert(mismatches_view(out@) =~= o0 + Seq::<CallMismatchV>::empty());
            }
            return;
        },
    };
    proof {
        lemma_assoc_index_at(mv, mname@, mi as int);
    }
    let params = &class.methods[mi].1;
    let m = ad.len();
    let ap = slice_of(ad.as_slice(), pp + 1, m);
    proof {
        assert(ap@ =~= ad@.skip(pp + 1));
    }
    let close = find_matching_close(ap.as_slice());
    let inner = slice_of(ap.as_slice(), 0, close);
    proof {
        assert(inner@ =~= ap@.take(close as int));
    }
    let args = split_top_level_type_args(inner.as_slice());
    let ghost site = CallSiteV { line: line as nat, span: (span.start as nat, span.end as nat) };
    let mut i: usize = 0;
    proof {
        assert(mismatches_view(out@) =~= o0 + Seq::<CallMismatchV>::empty());
    }
    while i < params.len()
        invariant
            i <= params@.len(),
            entry.class_index < classes@.len(),
            site == (CallSiteV { line: line as nat, span: (span.start as nat, span.end as nat) }),
            mismatches_view(out@) == o0 + params_mismatches(
                pairs_view(params@),
                views(args@),
                views(tvs@),
                pairs_view(entry.subst@),
                entry.var@,
                class_view(*class),
                site,
                i as int,
            ),
        decreases params.len() - i,
    {
        let ghost before = mismatches_view(out@);
        param_mismatch_exec(
            params,
            &args,
            tvs,
            &entry.subst,
            &entry.var,
            class,
            line,
            span,
            i,
            &mut *out,
        );
        proof {
            assert(mismatches_view(out@) == before + param_mismatch(
                pairs_view(params@),
                views(args@),
                views(tvs@),
                pairs_view(entry.subst@),
                entry.var@,
                class_view(*class),
                CallSiteV { line: line as nat, span: (span.start as nat, span.end as nat) },
                i as int,
            ));

            assert(o0 + params_mismatches(
                pairs_view(params@),
                views(args@),
                views(tvs@),
                pairs_view(entry.subst@),
                entry.var@,
                class_view(*class),
                site,
                i as int,
            ) + param_mismatch(
                pairs_view(params@),
                views(args@),
                views(tvs@),
                pairs_view(entry.subst@),
                entry.var@,
                class_view(*class),
                site,
                i as int,
            ) =~= o0 + params_mismatches(
                pairs_view(params@),
                views(args@),
                views(tvs@),
                pairs_view(entry.subst@),
                entry.var@,
                class_view(*class),
                site,
                i + 1,
            ));
        }
        i += 1;
    }
}

/// `check_generic_instance_method_calls`: literal arguments of method calls on
/// module-level generic instances whose type does not fit the type the
/// instance binds the parameter's `TypeVar` to. `tvs` are the module's
/// `TypeVar` names.
pub fn check_generic_instance_method_calls(source: &[char], tvs: &Vec<Vec<char>>) -> (r: Vec<
    CallMismatch,
>)
    requires
        utf8_len(source@) <= u32::MAX,
    ensures
        mismatches_view(r@) == generic_call_mismatches(source@, views(tvs@)),
{
    let mut out: Vec<CallMismatch> = Vec::new();
    let classes = collect_generic_classes(source);
    if classes.len() == 0 {
        proof {
            assert(mismatches_view(out@) =~= Seq::<CallMismatchV>::empty());
        }
        return out;
    }
    let insts = collect_generic_instances(source);
    if insts.len() == 0 {
        proof {
            assert(mismatches_view(out@) =~= Seq::<CallMismatchV>::empty());
        }
        return out;
    }
    let vars = vars_exec(&classes, &insts);
    if vars.len() == 0 {
        proof {
            assert(mismatches_view(out@) =~= Seq::<CallMismatchV>::empty());
        }
        return out;
    }
    let ghost cv = classes_view(classes@);
    let ghost vv = entries_view(vars@);
    let ls = lines_exec(source);
    let mut k: usize = 0;
    proof {
        assert(mismatches_view(out@) =~= Seq::<CallMismatchV>::empty());
    }
    while k < ls.len()
        invariant
            k <= ls@.len(),
            views(ls@) == lines(source@),
            utf8_len(source@) <= u32::MAX,
            cv == classes_view(classes@),
            vv == entries_view(vars@),
            forall|j: int| 0 <= j < vars@.len() ==> (#[trigger] vars@[j]).class_index < classes@.len(),
            mismatches_view(out@) == lines_mismatches(source@, cv, views(tvs@), vv, k as int),
        decreases ls.len() - k,
    {
        proof {
            assert(views(ls@)[k as int] == ls@[k as int]@);
        }
        let l = ls[k].as_slice();
        let t = trim_chars(l);
        let ghost o1 = mismatches_view(out@);
        if t.len() == 0 || t[0] == '#' || starts_with_lit(t.as_slice(), "class ") || starts_with_lit(
            t.as_slice(),
            "def ",
        ) || (l.len() > 0 && is_whitespace(l[0])) {
            proof {
                assert(mismatches_view(out@) =~= o1 + Seq::<CallMismatchV>::empty());
            }
        } else {
            let line_no = k + 1;
            let span = span_for_line(source, line_no);
            let ghost site = CallSiteV {
                line: line_no as nat,
                span: (span.start as nat, span.end as nat),
            };
            let mut j: usize = 0;
            proof {
                assert(mismatches_view(out@) =~= o1 + Seq::<CallMismatchV>::empty());
            }
            while j < vars.len()
                invariant
                    j <= vars@.len(),
                    k < ls@.len(),
                    site == (CallSiteV {
                        line: line_no as nat,
                        span: (span.start as nat, span.end as nat),
                    }),
                    cv == classes_view(classes@),
                    vv == entries_view(vars@),
                    forall|q: int|
                        0 <= q < vars@.len() ==> (#[trigger] vars@[q]).class_index < classes@.len(),
                    mismatches_view(out@) == o1 + vars_mismatches(
                        cv,
                        views(tvs@),
                        vv,
                        t@,
                        site,
                        j as int,
                    ),
                decreases vars.len() - j,
            {
                proof {
                    assert(vv[j as int] == entry_view(vars@[j as int]));
                    assert(vars@[j as int].class_index < classes@.len());
                }
                var_mismatches_exec(&classes, tvs, t.as_slice(), &vars[j], line_no, span, &mut out);
                proof {
                    assert(o1 + vars_mismatches(cv, views(tvs@), vv, t@, site, j as int)
                        + var_mismatches(cv, views(tvs@), t@, vv[j as int], site) =~= o1
                        + vars_mismatches(cv, views(tvs@), vv, t@, site, j + 1));
                }
                j += 1;
            }
        }
        k += 1;
    }
    out
}

} // verus!
