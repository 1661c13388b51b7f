//! Generator annotations, `yield` scanning and the simple type checks that the
//! generator rule makes on yielded and sent values.
use vstd::prelude::*;

use crate::position::{char_width_exec, utf8_len, lemma_utf8_len_subrange};
use crate::text::{
    all_alnum_or_underscore, all_digits, char_is_alphanumeric, char_is_uppercase, chars_of,
    contains_char, contains_char_exec, depth_pbb, ends_with, ends_with_char, eq_chars, eq_str,
    find_char, find_char_exec, first_where, is_alnum_underscore_word, is_digit, is_digit_word,
    is_ident, is_ident_char, lemma_depth_pbb_bound, lines, lemma_find_char, lemma_first_where_at,
    lemma_first_where_none, lemma_rfind_char, matches_at, matches_at_exec, rfind_char,
    rfind_char_exec, slice_of, split_top_commas_all, split_top_level_commas, starts_with,
    starts_with_char, starts_with_exec, starts_with_lit, trim, trim_chars, trim_start,
    trim_start_chars, unicode_alphanumeric, unicode_uppercase, views,
};

verus! {

// ---------------------------------------------------------------------------
// Annotations
// ---------------------------------------------------------------------------

/// The text between `prefix[` and the last `]`, when the annotation starts with
/// `prefix[` and that `]` comes after it.
pub open spec fn generic_inner(ann: Seq<char>, prefix: Seq<char>) -> Option<Seq<char>> {
    let wb = prefix.push('[');
    if !starts_with(ann, wb) {
        None
    } else {
        match rfind_char(ann, ']') {
            None => None,
            Some(e) => if e <= wb.len() {
                None
            } else {
                Some(ann.subrange(wb.len() as int, e))
            },
        }
    }
}

/// `strip_generic_prefix`: the inside of `prefix[...]`.
pub fn strip_generic_prefix(ann: &[char], prefix: &[char]) -> (r: Option<Vec<char>>)
    ensures
        match r {
            Some(v) => generic_inner(ann@, prefix@) == Some(v@),
            None => generic_inner(ann@, prefix@) is None,
        },
{
    let mut wb: Vec<char> = slice_of(prefix, 0, prefix.len());
    wb.push('[');
    proof {
        assert(wb@ =~= prefix@.push('['));
    }
    if !starts_with_exec(ann, wb.as_slice()) {
        return None;
    }
    let e = match rfind_char_exec(ann, ']') {
        Some(e) => e,
        None => return None,
    };
    proof {
        lemma_rfind_char(ann@, ']');
    }
    if e <= wb.len() {
        return None;
    }
    Some(slice_of(ann, wb.len(), e))
}

/// `split_top_level_args`: the arguments of a subscript, split at commas
/// outside brackets, untrimmed.
pub fn split_top_level_args(inner: &[char]) -> (r: Vec<Vec<char>>)
    ensures
        views(r@) == split_top_commas_all(inner@),
        r@.len() >= 1,
{
    let r = split_top_level_commas(inner);
    proof {
        crate::text::lemma_split_prefix_nonempty(
            inner@,
            crate::text::top_comma_cut_all(inner@),
            inner@.len() as int,
        );
    }
    r
}

/// The yield, send and return types of a generator annotation.
pub struct GeneratorAnnotation {
    pub yield_type: Vec<char>,
    pub send_type: Option<Vec<char>>,
    pub return_type: Option<Vec<char>>,
}

pub struct GeneratorAnnotationV {
    pub yield_type: Seq<char>,
    pub send_type: Option<Seq<char>>,
    pub return_type: Option<Seq<char>>,
}

pub open spec fn opt_view(o: Option<Vec<char>>) -> Option<Seq<char>> {
    match o {
        Some(v) => Some(v@),
        None => None,
    }
}

pub open spec fn annotation_view(a: GeneratorAnnotation) -> GeneratorAnnotationV {
    GeneratorAnnotationV {
        yield_type: a.yield_type@,
        send_type: opt_view(a.send_type),
        return_type: opt_view(a.return_type),
    }
}

/// The trimmed argument `i`, if there is one.
pub open spec fn arg_at(args: Seq<Seq<char>>, i: int) -> Option<Seq<char>> {
    if 0 <= i < args.len() {
        Some(trim(args[i]))
    } else {
        None
    }
}

/// `Generator[Y, S, R]`, `Iterator[Y]` or `Iterable[Y]`, tried in that order on
/// the trimmed annotation.
pub open spec fn generator_annotation(ann: Seq<char>) -> Option<GeneratorAnnotationV> {
    let a = trim(ann);
    match generic_inner(a, "Generator"@) {
        Some(inner) => {
            let args = split_top_commas_all(inner);
            Some(
                GeneratorAnnotationV {
                    yield_type: trim(args[0]),
                    send_type: arg_at(args, 1),
                    return_type: arg_at(args, 2),
                },
            )
        },
        None => match generic_inner(a, "Iterator"@) {
            Some(inner) => Some(
                GeneratorAnnotationV {
                    yield_type: trim(split_top_commas_all(inner)[0]),
                    send_type: None,
                    return_type: None,
                },
            ),
            None => match generic_inner(a, "Iterable"@) {
                Some(inner) => Some(
                    GeneratorAnnotationV {
                        yield_type: trim(split_top_commas_all(inner)[0]),
                        send_type: None,
                        return_type: None,
                    },
                ),
                None => None,
            },
        },
    }
}

fn arg_at_exec(args: &Vec<Vec<char>>, i: usize) -> (r: Option<Vec<char>>)
    ensures
        opt_view(r) == arg_at(views(args@), i as int),
{
    if i < args.len() {
        Some(trim_chars(args[i].as_slice()))
    } else {
        None
    }
}

/// `parse_generator_annotation`: the yield, send and return types of a
/// generator-like return annotation.
pub fn parse_generator_annotation(ann: &[char]) -> (r: Option<GeneratorAnnotation>)
    ensures
        match r {
            Some(a) => generator_annotation(ann@) == Some(annotation_view(a)),
            None => generator_annotation(ann@) is None,
        },
{
    let a = trim_chars(ann);
    let g = chars_of("Generator");
    if let Some(inner) = strip_generic_prefix(a.as_slice(), g.as_slice()) {
        let args = split_top_level_args(inner.as_slice());
        let y = trim_chars(args[0].as_slice());
        let s = arg_at_exec(&args, 1);
        let rt = arg_at_exec(&args, 2);
        return Some(GeneratorAnnotation { yield_type: y, send_type: s, return_type: rt });
    }
    let it = chars_of("Iterator");
    if let Some(inner) = strip_generic_prefix(a.as_slice(), it.as_slice()) {
        let args = split_top_level_args(inner.as_slice());
        let y = trim_chars(args[0].as_slice());
        return Some(GeneratorAnnotation { yield_type: y, send_type: None, return_type: None });
    }
    let ib = chars_of("Iterable");
    if let Some(inner) = strip_generic_prefix(a.as_slice(), ib.as_slice()) {
        let args = split_top_level_args(inner.as_slice());
        let y = trim_chars(args[0].as_slice());
        return Some(GeneratorAnnotation { yield_type: y, send_type: None, return_type: None });
    }
    None
}

// ---------------------------------------------------------------------------
// Simple expression types
// ---------------------------------------------------------------------------

/// The simple types an expression's text can show.
#[derive(Clone, Copy, Debug, PartialEq, Eq)]
pub enum ExprType {
    Bool,
    NoneType,
    Int,
    Float,
    Str,
}

pub open spec fn expr_type_name(t: ExprType) -> Seq<char> {
    match t {
        ExprType::Bool => "bool"@,
        ExprType::NoneType => "None"@,
        ExprType::Int => "int"@,
        ExprType::Float => "float"@,
        ExprType::Str => "str"@,
    }
}

pub fn expr_type_name_exec(t: ExprType) -> (r: Vec<char>)
    ensures
        r@ == expr_type_name(t),
{
    match t {
        ExprType::Bool => chars_of("bool"),
        ExprType::NoneType => chars_of("None"),
        ExprType::Int => chars_of("int"),
        ExprType::Float => chars_of("float"),
        ExprType::Str => chars_of("str"),
    }
}

/// Every character is a digit, `.` or `-`.
pub open spec fn float_chars(s: Seq<char>) -> bool {
    forall|i: int| 0 <= i < s.len() ==> (is_digit(#[trigger] s[i]) || s[i] == '.' || s[i] == '-')
}

fn float_chars_exec(s: &[char]) -> (r: bool)
    ensures
        r == float_chars(s@),
{
    let mut i: usize = 0;
    while i < s.len()
        invariant
            i <= s@.len(),
            forall|j: int| 0 <= j < i ==> (is_digit(#[trigger] s@[j]) || s@[j] == '.' || s@[j] == '-'),
        decreases s.len() - i,
    {
        if !(crate::text::is_ascii_digit(s[i]) || s[i] == '.' || s[i] == '-') {
            return false;
        }
        i += 1;
    }
    true
}

/// The type of an expression by the shape of its trimmed text.
pub open spec fn expr_type_of(expr: Seq<char>) -> Option<ExprType> {
    let e = trim(expr);
    if e.len() == 0 {
        None
    } else if e == "True"@ || e == "False"@ {
        Some(ExprType::Bool)
    } else if e == "None"@ {
        Some(ExprType::NoneType)
    } else if all_digits(e) || (e[0] == '-' && e.len() > 1 && all_digits(e.skip(1))) {
        Some(ExprType::Int)
    } else if contains_char(e, '.') && float_chars(e) {
        Some(ExprType::Float)
    } else if (e[0] == '"' && e.last() == '"') || (e[0] == '\'' && e.last() == '\'') {
        Some(ExprType::Str)
    } else {
        None
    }
}

/// `infer_expr_type`: `bool`, `None`, `int`, `float` or `str` for a literal.
pub fn infer_expr_type(expr: &[char]) -> (r: Option<ExprType>)
    ensures
        r == expr_type_of(expr@),
{
    let e = trim_chars(expr);
    let es = e.as_slice();
    if es.len() == 0 {
        return None;
    }
    if eq_str(es, "True") || eq_str(es, "False") {
        return Some(ExprType::Bool);
    }
    if eq_str(es, "None") {
        return Some(ExprType::NoneType);
    }
    if is_digit_word(es) {
        return Some(ExprType::Int);
    }
    if es[0] == '-' && es.len() > 1 {
        let n = es.len();
        let rest = slice_of(es, 1, n);
        proof {
            assert(rest@ =~= e@.skip(1));
        }
        if is_digit_word(rest.as_slice()) {
            return Some(ExprType::Int);
        }
    }
    if contains_char_exec(es, '.') && float_chars_exec(es) {
        return Some(ExprType::Float);
    }
    let last = es[es.len() - 1];
    if (es[0] == '"' && last == '"') || (es[0] == '\'' && last == '\'') {
        return Some(ExprType::Str);
    }
    None
}

/// The trimmed text before the first `(`.
pub open spec fn call_head(expr: Seq<char>) -> Option<Seq<char>> {
    let e = trim(expr);
    match find_char(e, '(') {
        Some(p) => Some(trim(e.take(p))),
        None => None,
    }
}

fn call_head_exec(expr: &[char]) -> (r: Option<Vec<char>>)
    ensures
        opt_view(r) == call_head(expr@),
{
    let e = trim_chars(expr);
    match find_char_exec(e.as_slice(), '(') {
        Some(p) => {
            proof {
                lemma_find_char(e@, '(');
            }
            let head = slice_of(e.as_slice(), 0, p);
            proof {
                assert(head@ =~= e@.take(p as int));
            }
            Some(trim_chars(head.as_slice()))
        },
        None => None,
    }
}

/// A constructor-like name: it starts with an uppercase letter or `_` and is
/// made of word characters.
pub open spec fn constructor_name(expr: Seq<char>) -> Option<Seq<char>> {
    match call_head(expr) {
        Some(name) => if name.len() > 0 && (unicode_uppercase(name[0]) || name[0] == '_')
            && all_alnum_or_underscore(name) {
            Some(name)
        } else {
            None
        },
        None => None,
    }
}

/// `get_constructor_name`: `ClassName` of `ClassName(...)`.
pub fn get_constructor_name(expr: &[char]) -> (r: Option<Vec<char>>)
    ensures
        opt_view(r) == constructor_name(expr@),
{
    match call_head_exec(expr) {
        Some(name) => {
            if name.len() > 0 && (char_is_uppercase(name[0]) || name[0] == '_')
                && is_alnum_underscore_word(name.as_slice()) {
                Some(name)
            } else {
                None
            }
        },
        None => None,
    }
}

/// A called name: non-empty and made of word characters.
pub open spec fn call_name(expr: Seq<char>) -> Option<Seq<char>> {
    match call_head(expr) {
        Some(name) => if name.len() > 0 && all_alnum_or_underscore(name) {
            Some(name)
        } else {
            None
        },
        None => None,
    }
}

/// `extract_call_name`: `f` of `f(...)`.
pub fn extract_call_name(expr: &[char]) -> (r: Option<Vec<char>>)
    ensures
        opt_view(r) == call_name(expr@),
{
    match call_head_exec(expr) {
        Some(name) => {
            if name.len() > 0 && is_alnum_underscore_word(name.as_slice()) {
                Some(name)
            } else {
                None
            }
        },
        None => None,
    }
}

/// `is_type_compatible`: `actual` may be used where `expected` is declared
/// (`Any`/`object` accept all, `int` fits `float`, `bool` fits `int`).
pub open spec fn type_compatible(actual: Seq<char>, expected: Seq<char>) -> bool {
    expected == "Any"@ || actual == "Any"@ || expected == "object"@ || actual == expected || (
    expected == "float"@ && actual == "int"@) || (expected == "int"@ && actual == "bool"@)
}

/// Every type fits itself, `Any` fits and accepts everything, and
/// everything fits `object`.
pub proof fn law_type_compatible(t: Seq<char>)
    ensures
        type_compatible(t, t),
        type_compatible(t, "Any"@),
        type_compatible("Any"@, t),
        type_compatible(t, "object"@),
{
}

pub fn is_type_compatible(actual: &[char], expected: &[char]) -> (r: bool)
    ensures
        r == type_compatible(actual@, expected@),
{
    if eq_str(expected, "Any") || eq_str(actual, "Any") || eq_str(expected, "object")
        || eq_chars(actual, expected) {
        return true;
    }
    if eq_str(expected, "float") && eq_str(actual, "int") {
        return true;
    }
    if eq_str(expected, "int") && eq_str(actual, "bool") {
        return true;
    }
    false
}

/// The element type of a list literal, read from its first element.
pub open spec fn list_element_type(expr: Seq<char>) -> Option<ExprType> {
    let e = trim(expr);
    if !(e.len() > 0 && e[0] == '[' && e.last() == ']') {
        None
    } else {
        let inner = trim(e.subrange(1, e.len() - 1));
        if inner.len() == 0 {
            None
        } else {
            expr_type_of(trim(split_top_commas_all(inner)[0]))
        }
    }
}

/// `infer_list_element_type`: the type of the first element of `[...]`.
pub fn infer_list_element_type(expr: &[char]) -> (r: Option<ExprType>)
    ensures
        r == list_element_type(expr@),
{
    let e = trim_chars(expr);
    if !(e.len() > 0 && e[0] == '[' && e[e.len() - 1] == ']') {
        return None;
    }
    if e.len() < 2 {
        return None;
    }
    let mid = slice_of(e.as_slice(), 1, e.len() - 1);
    let inner = trim_chars(mid.as_slice());
    if inner.len() == 0 {
        return None;
    }
    let parts = split_top_level_args(inner.as_slice());
    let first = trim_chars(parts[0].as_slice());
    infer_expr_type(first.as_slice())
}

/// `is_send_type_compatible`: the outer generator's send type can flow into
/// the inner one's.
pub open spec fn send_compatible(outer: Seq<char>, inner: Seq<char>) -> bool {
    outer == inner || inner == "None"@ || outer == "None"@ || (inner == "float"@ && (outer
        == "int"@ || outer == "float"@))
}

/// A send type fits itself, and `None` on either side always fits.
pub proof fn law_send_compatible(t: Seq<char>)
    ensures
        send_compatible(t, t),
        send_compatible(t, "None"@),
        send_compatible("None"@, t),
{
}

pub fn is_send_type_compatible(outer_send: &[char], inner_send: &[char]) -> (r: bool)
    ensures
        r == send_compatible(outer_send@, inner_send@),
{
    if eq_chars(outer_send, inner_send) {
        return true;
    }
    if eq_str(inner_send, "None") || eq_str(outer_send, "None") {
        return true;
    }
    if eq_str(inner_send, "float") && (eq_str(outer_send, "int") || eq_str(outer_send, "float")) {
        return true;
    }
    false
}

/// `is_identifier_char`: an ASCII letter, digit or `_`.
pub fn is_identifier_char(c: char) -> (r: bool)
    ensures
        r == is_ident(c),
{
    is_ident_char(c)
}

} // verus!

verus! {

// ---------------------------------------------------------------------------
// String literals, comments and `yield`
// ---------------------------------------------------------------------------

/// The end of a triple-quoted string whose body starts at `p`.
pub open spec fn scan_triple(b: Seq<char>, q: char, p: int) -> int
    decreases b.len() - p,
{
    if 0 <= p && p + 2 < b.len() {
        if b[p] == q && b[p + 1] == q && b[p + 2] == q {
            p + 3
        } else {
            scan_triple(b, q, p + 1)
        }
    } else {
        b.len() as int
    }
}

/// The end of a single-quoted string whose body starts at `p`: after the
/// closing quote, at an unescaped newline, or the end of the text.
pub open spec fn scan_single(b: Seq<char>, q: char, p: int) -> int
    decreases b.len() + 2 - p,
{
    if 0 <= p && p < b.len() {
        if b[p] == '\\' {
            scan_single(b, q, p + 2)
        } else if b[p] == q {
            p + 1
        } else if b[p] == '\n' {
            p
        } else {
            scan_single(b, q, p + 1)
        }
    } else {
        b.len() as int
    }
}

/// Where a string literal opened at `start` ends (`start` itself past the end).
pub open spec fn string_end(b: Seq<char>, start: int) -> int {
    if start < 0 || start >= b.len() {
        start
    } else {
        let q = b[start];
        if start + 2 < b.len() && b[start + 1] == q && b[start + 2] == q {
            scan_triple(b, q, start + 3)
        } else {
            scan_single(b, q, start + 1)
        }
    }
}

proof fn lemma_scan_triple_range(b: Seq<char>, q: char, p: int)
    requires
        0 <= p,
    ensures
        p <= scan_triple(b, q, p) || scan_triple(b, q, p) == b.len(),
        scan_triple(b, q, p) <= b.len(),
    decreases b.len() - p,
{
    if p + 2 < b.len() && !(b[p] == q && b[p + 1] == q && b[p + 2] == q) {
        lemma_scan_triple_range(b, q, p + 1);
    }
}

proof fn lemma_scan_single_range(b: Seq<char>, q: char, p: int)
    requires
        0 <= p,
    ensures
        (p <= b.len() ==> p <= scan_single(b, q, p)),
        scan_single(b, q, p) <= b.len(),
    decreases b.len() + 2 - p,
{
    if p < b.len() {
        if b[p] == '\\' {
            lemma_scan_single_range(b, q, p + 2);
        } else if b[p] != q && b[p] != '\n' {
            lemma_scan_single_range(b, q, p + 1);
        }
    }
}

pub proof fn lemma_string_end_advances(b: Seq<char>, start: int)
    requires
        0 <= start < b.len(),
    ensures
        start < string_end(b, start) <= b.len(),
{
    let q = b[start];
    if start + 2 < b.len() && b[start + 1] == q && b[start + 2] == q {
        lemma_scan_triple_range(b, q, start + 3);
    } else {
        lemma_scan_single_range(b, q, start + 1);
    }
}

/// `skip_string`: the position just past a string literal that starts at
/// `start` (single, double or triple quoted; backslash escapes skip a
/// character; a single-quoted string stops at a newline). Positions count
/// characters.
pub fn skip_string(body: &[char], start: usize) -> (r: usize)
    ensures
        r == string_end(body@, start as int),
{
    let n = body.len();
    if start >= n {
        return start;
    }
    let q = body[start];
    if n - start > 2 && body[start + 1] == q && body[start + 2] == q {
        let mut p = start + 3;
        while n - p > 2
            invariant
                start + 3 <= p <= n,
                n == body@.len(),
                start < n,
                q == body@[start as int],
                start + 2 < n && body@[start + 1] == q && body@[start + 2] == q,
                scan_triple(body@, q, p as int) == scan_triple(body@, q, start + 3),
            decreases n - p,
        {
            if body[p] == q && body[p + 1] == q && body[p + 2] == q {
                return p + 3;
            }
            p += 1;
        }
        return n;
    }
    let mut p = start + 1;
    while p < n
        invariant
            start + 1 <= p,
            n == body@.len(),
            start < n,
            q == body@[start as int],
            !(start + 2 < n && body@[start + 1] == q && body@[start + 2] == q),
            scan_single(body@, q, p as int) == scan_single(body@, q, start + 1),
        decreases n + 2 - p,
    {
        let c = body[p];
        if c == '\\' {
            if n - p <= 2 {
                proof {
                    assert(scan_single(body@, q, p + 2) == n);
                }
                return n;
            }
            p += 2;
            continue;
        }
        if c == q {
            return p + 1;
        }
        if c == '\n' {
            return p;
        }
        p += 1;
    }
    n
}

/// Where the expression after `yield` stops: a closing bracket or a `#` or
/// newline outside brackets.
pub open spec fn expr_stop_at(rest: Seq<char>) -> spec_fn(int) -> bool {
    |i: int|
        ((rest[i] == ')' || rest[i] == ']' || rest[i] == '}') || rest[i] == '#' || rest[i] == '\n')
            && depth_pbb(rest, i) == 0
}

/// The yielded expression starting at character `start`, trimmed.
pub open spec fn yield_expr(body: Seq<char>, start: int) -> Seq<char> {
    let rest = trim_start(
        if 0 <= start <= body.len() {
            body.skip(start)
        } else {
            Seq::empty()
        },
    );
    let end = match first_where(expr_stop_at(rest), rest.len() as int) {
        Some(i) => i,
        None => rest.len() as int,
    };
    trim(rest.take(end))
}

/// The index of the first stop in `rest`, or its length.
fn expr_end(rest: &[char]) -> (end: usize)
    ensures
        end <= rest@.len(),
        end == match first_where(expr_stop_at(rest@), rest@.len() as int) {
            Some(i) => i,
            None => rest@.len() as int,
        },
{
    let mut depth: i128 = 0;
    let mut i: usize = 0;
    while i < rest.len()
        invariant
            i <= rest@.len(),
            depth == depth_pbb(rest@, i as int),
            depth >= 0,
            forall|j: int| 0 <= j < i ==> !#[trigger] expr_stop_at(rest@)(j),
        decreases rest.len() - i,
    {
        proof {
            lemma_depth_pbb_bound(rest@, i as int);
        }
        let c = rest[i];
        if c == '[' || c == '(' || c == '{' {
            depth = depth + 1;
        } else if c == ']' || c == ')' || c == '}' {
            if depth > 0 {
                depth = depth - 1;
            } else {
                proof {
                    assert(expr_stop_at(rest@)(i as int));
                    lemma_first_where_at(expr_stop_at(rest@), i as int, rest@.len() as int);
                }
                return i;
            }
        } else if (c == '#' || c == '\n') && depth == 0 {
            proof {
                assert(expr_stop_at(rest@)(i as int));
                lemma_first_where_at(expr_stop_at(rest@), i as int, rest@.len() as int);
            }
            return i;
        }
        i += 1;
    }
    proof {
        lemma_first_where_none(expr_stop_at(rest@), rest@.len() as int);
    }
    i
}

/// `extract_yield_expr`: the expression text after a `yield` keyword, up to a
/// newline, comment or unmatched closing bracket.
pub fn extract_yield_expr(body: &[char], start: usize) -> (r: Vec<char>)
    ensures
        r@ == yield_expr(body@, start as int),
{
    let n = body.len();
    let tail = if start <= n {
        slice_of(body, start, n)
    } else {
        Vec::new()
    };
    proof {
        if start <= n {
            assert(tail@ =~= body@.skip(start as int));
        } else {
            assert(tail@ =~= Seq::<char>::empty());
        }
    }
    let rest = trim_start_chars(tail.as_slice());
    let end = expr_end(rest.as_slice());
    let head = slice_of(rest.as_slice(), 0, end);
    proof {
        assert(head@ =~= rest@.take(end as int));
    }
    trim_chars(head.as_slice())
}

} // verus!

verus! {

/// A `yield` found in a function body.
pub struct YieldExpr {
    /// Byte offset of the `yield` keyword in the source.
    pub offset: u32,
    /// The yielded expression.
    pub expr_text: Vec<char>,
    pub is_yield_from: bool,
}

pub struct YieldV {
    pub offset: nat,
    pub text: Seq<char>,
    pub is_from: bool,
}

pub open spec fn yield_view(y: YieldExpr) -> YieldV {
    YieldV { offset: y.offset as nat, text: y.expr_text@, is_from: y.is_yield_from }
}

pub open spec fn yields_view(v: Seq<YieldExpr>) -> Seq<YieldV> {
    v.map_values(|y: YieldExpr| yield_view(y))
}

/// The `yield` keyword at `pos`, with what it yields and whether it is
/// `yield from`; `None` when no recorded `yield` starts there.
pub open spec fn yield_at(body: Seq<char>, pos: int) -> Option<(Seq<char>, bool)> {
    if !(matches_at(body, pos, "yield"@) && (pos == 0 || !is_ident(body[pos - 1]))) {
        None
    } else {
        let ap = pos + 5;
        if matches_at(body, ap, " from"@) && (ap + 5 >= body.len() || !is_ident(body[ap + 5])) {
            Some((yield_expr(body, ap + 5), true))
        } else if ap < body.len() && (body[ap] == ' ' || body[ap] == '\n') {
            Some((yield_expr(body, ap), false))
        } else {
            None
        }
    }
}

/// The position of the newline that ends a comment starting at `pos` (or the end).
pub open spec fn comment_end(body: Seq<char>, pos: int) -> int {
    match find_char(body.skip(pos), '\n') {
        Some(i) => pos + i,
        None => body.len() as int,
    }
}

/// The `yield`s from position `pos` on, outside strings and comments.
pub open spec fn yields_from(body: Seq<char>, pos: int, body_offset: nat) -> Seq<YieldV>
    decreases body.len() - pos,
{
    if pos < 0 || pos >= body.len() {
        Seq::empty()
    } else {
        let c = body[pos];
        if c == '\'' || c == '"' {
            proof {
                lemma_string_end_advances(body, pos);
            }
            yields_from(body, string_end(body, pos), body_offset)
        } else if c == '#' {
            proof {
                lemma_find_char(body.skip(pos), '\n');
                if find_char(body.skip(pos), '\n') is Some {
                    assert(body.skip(pos)[0] == '#');
                }
            }
            yields_from(body, comment_end(body, pos), body_offset)
        } else {
            let here = match yield_at(body, pos) {
                Some((t, f)) => {
                    let o = body_offset + utf8_len(body.take(pos));
                    if o <= u32::MAX {
                        seq![YieldV { offset: o, text: t, is_from: f }]
                    } else {
                        Seq::empty()
                    }
                },
                None => Seq::empty(),
            };
            here + yields_from(body, pos + 1, body_offset)
        }
    }
}

fn yield_at_exec(body: &[char], pos: usize) -> (r: Option<(Vec<char>, bool)>)
    requires
        pos < body@.len(),
    ensures
        match r {
            Some((t, f)) => yield_at(body@, pos as int) == Some((t@, f)),
            None => yield_at(body@, pos as int) is None,
        },
{
    let kw = chars_of("yield");
    if !matches_at_exec(body, pos, kw.as_slice()) {
        return None;
    }
    if !(pos == 0 || !is_ident_char(body[pos - 1])) {
        return None;
    }
    proof {
        reveal_strlit("yield");
    }
    let ap = pos + 5;
    let from = chars_of(" from");
    let n = body.len();
    if matches_at_exec(body, ap, from.as_slice()) {
        proof {
            reveal_strlit(" from");
        }
        if ap + 5 >= n || !is_ident_char(body[ap + 5]) {
            return Some((extract_yield_expr(body, ap + 5), true));
        }
    }
    if ap < n && (body[ap] == ' ' || body[ap] == '\n') {
        return Some((extract_yield_expr(body, ap), false));
    }
    None
}

fn comment_end_exec(body: &[char], pos: usize) -> (r: usize)
    requires
        pos < body@.len(),
    ensures
        r == comment_end(body@, pos as int),
{
    let mut p = pos;
    while p < body.len() && body[p] != '\n'
        invariant
            pos <= p <= body@.len(),
            forall|j: int| pos <= j < p ==> body@[j] != '\n',
        decreases body.len() - p,
    {
        p += 1;
    }
    proof {
        let t = body@.skip(pos as int);
        assert forall|j: int| 0 <= j < p - pos implies t[j] != '\n' by {
            assert(t[j] == body@[pos + j]);
        }
        if p < body@.len() {
            assert(t[p - pos] == '\n');
            crate::text::lemma_find_char_at(t, '\n', p - pos);
        } else {
            lemma_find_char(t, '\n');
        }
    }
    p
}

/// `find_yield_expressions`: every `yield` / `yield from` in a function body
/// that lies outside strings and comments, with its byte offset in the source
/// (the body starts at byte `body_offset`; a `yield` whose offset does not fit
/// in `u32` is left out).
pub fn find_yield_expressions(body: &[char], body_offset: usize) -> (r: Vec<YieldExpr>)
    requires
        body_offset + utf8_len(body@) <= usize::MAX,
    ensures
        yields_view(r@) == yields_from(body@, 0, body_offset as nat),
{
    let mut out: Vec<YieldExpr> = Vec::new();
    let mut pos: usize = 0;
    proof {
        assert(yields_view(out@) =~= Seq::<YieldV>::empty());
        assert(yields_view(out@) + yields_from(body@, 0, body_offset as nat) =~= yields_from(
            body@,
            0,
            body_offset as nat,
        ));
    }
    while pos < body.len()
        invariant
            pos <= body@.len(),
            body_offset + utf8_len(body@) <= usize::MAX,
            yields_view(out@) + yields_from(body@, pos as int, body_offset as nat) == yields_from(
                body@,
                0,
                body_offset as nat,
            ),
        decreases body.len() - pos,
    {
        let c = body[pos];
        if c == '\'' || c == '"' {
            proof {
                lemma_string_end_advances(body@, pos as int);
            }
            pos = skip_string(body, pos);
            continue;
        }
        if c == '#' {
            proof {
                lemma_find_char(body@.skip(pos as int), '\n');
                if find_char(body@.skip(pos as int), '\n') is Some {
                    assert(body@.skip(pos as int)[0] == '#');
                }
            }
            pos = comment_end_exec(body, pos);
            continue;
        }
        let ghost before = yields_view(out@);
        match yield_at_exec(body, pos) {
            Some((t, f)) => {
                proof {
                    lemma_utf8_len_subrange(body@, 0, pos as int);
                    assert(body@.subrange(0, pos as int) =~= body@.take(pos as int));
                }
                let bp = crate::position::utf8_len_prefix(body, pos);
                let o = body_offset + bp;
                if o <= 0xFFFF_FFFFusize {
                    let y = YieldExpr { offset: o as u32, expr_text: t, is_yield_from: f };
                    let ghost yv = yield_view(y);
                    out.push(y);
                    proof {
                        assert(yields_view(out@) =~= before.push(yv));
                        assert(before.push(yv) + yields_from(body@, pos + 1, body_offset as nat)
                            =~= before + (seq![yv] + yields_from(
                            body@,
                            pos + 1,
                            body_offset as nat,
                        )));
                    }
                } else {
                    proof {
                        assert(before + yields_from(body@, pos + 1, body_offset as nat) =~= before + (
                        Seq::<YieldV>::empty() + yields_from(body@, pos + 1, body_offset as nat)));
                    }
                }
            },
            None => {
                proof {
                    assert(before + yields_from(body@, pos + 1, body_offset as nat) =~= before + (
                    Seq::<YieldV>::empty() + yields_from(body@, pos + 1, body_offset as nat)));
                }
            },
        }
        pos += 1;
    }
    proof {
        assert(yields_view(out@) + yields_from(body@, pos as int, body_offset as nat) =~= yields_view(
            out@,
        ));
    }
    out
}

} // verus!

verus! {

/// Characters the first `k` lines take up, each with its line ending counted as
/// one character.
pub open spec fn consumed(ls: Seq<Seq<char>>, k: int) -> int
    decreases k,
{
    if k <= 0 || ls.len() == 0 {
        0
    } else {
        ls[0].len() + 1 + consumed(ls.drop_first(), k - 1)
    }
}

proof fn lemma_consumed_step(ls: Seq<Seq<char>>, k: int)
    requires
        0 <= k < ls.len(),
    ensures
        consumed(ls, k + 1) == consumed(ls, k) + ls[k].len() + 1,
    decreases k,
{
    let d = ls.drop_first();
    if k > 0 {
        lemma_consumed_step(d, k - 1);
        assert(d[k - 1] == ls[k]);
        assert(consumed(ls, k + 1) == ls[0].len() + 1 + consumed(d, k));
        assert(consumed(ls, k) == ls[0].len() + 1 + consumed(d, k - 1));
    } else {
        assert(consumed(d, 0) == 0);
        assert(consumed(ls, 1) == ls[0].len() + 1 + consumed(d, 0));
    }
}

proof fn lemma_consumed_lines(s: Seq<char>, k: int)
    requires
        0 <= k < lines(s).len(),
    ensures
        consumed(lines(s), k) < s.len(),
    decreases s.len(),
{
    lemma_find_char(s, '\n');
    match find_char(s, '\n') {
        None => {},
        Some(i) => {
            let rest = s.skip(i + 1);
            let ls = lines(s);
            assert(ls.drop_first() =~= lines(rest));
            if k > 0 {
                lemma_consumed_lines(rest, k - 1);
            }
        },
    }
}

/// The body end from line `k` of the text after the body start, with `pos` the
/// position of that line.
pub open spec fn body_end_from(ls: Seq<Seq<char>>, k: int, pos: int, def_indent: nat, total: int) -> int
    decreases ls.len() - k,
{
    if k < 0 || k >= ls.len() {
        total
    } else {
        let line = ls[k];
        let t = trim_start(line);
        let next = pos + line.len() + 1;
        if k == 0 {
            body_end_from(ls, k + 1, next, def_indent, total)
        } else if t.len() == 0 || t[0] == '#' {
            body_end_from(ls, k + 1, next, def_indent, total)
        } else if crate::position::indent_of(line) <= def_indent && (starts_with(t, "def "@)
            || starts_with(t, "class "@) || starts_with(t, "async def "@) || starts_with(t, "@"@)) {
            pos
        } else {
            body_end_from(ls, k + 1, next, def_indent, total)
        }
    }
}

/// The end of a function body: the start of the first later line, indented no
/// deeper than the `def`, that opens a definition or decorator; the end of the
/// text if there is none.
pub open spec fn body_end(source: Seq<char>, body_start: int, def_indent: nat) -> int {
    let rest = if 0 <= body_start <= source.len() {
        source.skip(body_start)
    } else {
        Seq::empty()
    };
    body_end_from(lines(rest), 0, body_start, def_indent, source.len() as int)
}

proof fn lemma_body_end_from_bounds(rest: Seq<char>, k: int, bs: int, d: nat, total: int)
    requires
        0 <= k,
        0 <= bs,
        total == bs + rest.len(),
        0 <= consumed(lines(rest), k),
    ensures
        bs <= body_end_from(lines(rest), k, bs + consumed(lines(rest), k), d, total) <= total,
    decreases lines(rest).len() - k,
{
    let l = lines(rest);
    if k < l.len() {
        lemma_consumed_lines(rest, k);
        lemma_consumed_step(l, k);
        lemma_body_end_from_bounds(rest, k + 1, bs, d, total);
    }
}

/// A function body ends between its start and the end of the text.
pub proof fn lemma_body_end_bounds(source: Seq<char>, bs: int, d: nat)
    requires
        0 <= bs <= source.len(),
    ensures
        bs <= body_end(source, bs, d) <= source.len(),
{
    let rest = source.skip(bs);
    assert(consumed(lines(rest), 0) == 0);
    lemma_body_end_from_bounds(rest, 0, bs, d, source.len() as int);
}

/// `find_body_end`: where the body of a function starting at character
/// `body_start` ends, for a `def` indented by `def_indent` bytes. Positions count
/// characters; a line ending counts as one.
pub fn find_body_end(source: &[char], body_start: usize, def_indent: usize) -> (r: usize)
    requires
        utf8_len(source@) <= u32::MAX,
    ensures
        r == body_end(source@, body_start as int, def_indent as nat),
{
    let n = source.len();
    let rest = if body_start <= n {
        slice_of(source, body_start, n)
    } else {
        Vec::new()
    };
    proof {
        if body_start <= n {
            assert(rest@ =~= source@.skip(body_start as int));
            lemma_utf8_len_subrange(source@, body_start as int, n as int);
            assert(source@.subrange(body_start as int, n as int) =~= rest@);
        } else {
            assert(rest@ =~= Seq::<char>::empty());
        }
    }
    let ls = crate::text::lines_exec(rest.as_slice());
    proof {
        crate::position::lemma_lines_utf8_len(rest@);
    }
    let ghost l = lines(rest@);
    let mut pos: u128 = body_start as u128;
    let mut k: usize = 0;
    while k < ls.len()
        invariant
            k <= ls@.len(),
            l == views(ls@),
            l == lines(rest@),
            n == source@.len(),
            rest@.len() <= n,
            body_start <= n ==> rest@.len() == n - body_start,
            body_start > n ==> rest@.len() == 0,
            forall|j: int| 0 <= j < l.len() ==> utf8_len(#[trigger] l[j]) <= utf8_len(rest@),
            utf8_len(rest@) <= u32::MAX,
            pos == body_start + consumed(l, k as int),
            body_end_from(l, k as int, pos as int, def_indent as nat, n as int) == body_end(
                source@,
                body_start as int,
                def_indent as nat,
            ),
        decreases ls.len() - k,
    {
        proof {
            assert(l[k as int] == ls@[k as int]@);
            lemma_consumed_step(l, k as int);
            lemma_consumed_lines(rest@, k as int);
        }
        let line = ls[k].as_slice();
        let t = trim_start_chars(line);
        if k > 0 && !(t.len() == 0 || t[0] == '#') {
            let ind = crate::position::leading_indent(line);
            if ind <= def_indent && (starts_with_lit(t.as_slice(), "def ") || starts_with_lit(
                t.as_slice(),
                "class ",
            ) || starts_with_lit(t.as_slice(), "async def ") || starts_with_lit(t.as_slice(), "@")) {
                return pos as usize;
            }
        }
        pos = pos + line.len() as u128 + 1;
        k += 1;
    }
    n
}

// ---------------------------------------------------------------------------
// Laws
// ---------------------------------------------------------------------------

/// `p[x]` with a non-empty `x`, for a name `p` that starts with a letter: its
/// own trim, and `x` is what lies inside the brackets after `p`.
proof fn lemma_generic_form(p: Seq<char>, x: Seq<char>)
    requires
        p.len() > 0,
        !crate::text::is_ws(p[0]),
        x.len() > 0,
    ensures
        trim(p + "["@ + x + "]"@) == p + "["@ + x + "]"@,
        generic_inner(p + "["@ + x + "]"@, p) == Some(x),
{
    reveal_strlit("[");
    reveal_strlit("]");
    let a = p + "["@ + x + "]"@;
    assert(a[0] == p[0]);
    assert(a.last() == ']');
    assert(crate::text::trim_start(a) == a);
    assert(crate::text::trim_end(a) == a);
    let wb = p.push('[');
    assert(a.take(wb.len() as int) =~= wb);
    assert(rfind_char(a, ']') == Some(a.len() - 1));
    assert(a.subrange(wb.len() as int, a.len() - 1) =~= x);
}

/// A text that does not start with `q[` has no `q[...]` reading.
proof fn lemma_not_generic(a: Seq<char>, q: Seq<char>, i: int)
    requires
        0 <= i < q.len(),
        i < a.len(),
        a[i] != q[i],
    ensures
        generic_inner(a, q) is None,
{
    let wb = q.push('[');
    if starts_with(a, wb) {
        assert(a.take(wb.len() as int)[i] == wb[i]);
    }
}

/// `Iterable[Y]` is read exactly as `Iterator[Y]` is, whatever `Y`: as a
/// generator annotation whose yield type is that of `Generator[Y]` (the first
/// argument, trimmed), with no send or return type.
pub proof fn law_iterable_reads_as_iterator(x: Seq<char>)
    requires
        x.len() > 0,
    ensures
        generator_annotation("Iterable["@ + x + "]"@) == generator_annotation("Iterator["@ + x + "]"@),
        generator_annotation("Iterable["@ + x + "]"@) is Some,
        generator_annotation("Iterable["@ + x + "]"@).unwrap().yield_type == generator_annotation(
            "Generator["@ + x + "]"@,
        ).unwrap().yield_type,
        generator_annotation("Iterable["@ + x + "]"@).unwrap().send_type is None,
        generator_annotation("Iterable["@ + x + "]"@).unwrap().return_type is None,
{
    reveal_strlit("Iterable[");
    reveal_strlit("Iterator[");
    reveal_strlit("Generator[");
    reveal_strlit("Iterable");
    reveal_strlit("Iterator");
    reveal_strlit("Generator");
    reveal_strlit("[");
    reveal_strlit("]");
    let ib = "Iterable"@;
    let it = "Iterator"@;
    let gn = "Generator"@;
    assert("Iterable["@ + x + "]"@ =~= ib + "["@ + x + "]"@);
    assert("Iterator["@ + x + "]"@ =~= it + "["@ + x + "]"@);
    assert("Generator["@ + x + "]"@ =~= gn + "["@ + x + "]"@);
    lemma_generic_form(ib, x);
    lemma_generic_form(it, x);
    lemma_generic_form(gn, x);
    let a = ib + "["@ + x + "]"@;
    let b = it + "["@ + x + "]"@;
    assert(ib[0] == 'I' && ib[5] == 'b' && it[5] == 't' && gn[0] == 'G' && it[0] == 'I');
    assert(a[0] == ib[0] && a[5] == ib[5]);
    assert(b[0] == it[0]);
    lemma_not_generic(a, gn, 0);
    lemma_not_generic(a, it, 5);
    lemma_not_generic(b, gn, 0);
}

} // verus!
