//! Reading generic annotations (`Name[arg, ...]`) and literal arguments from text.
use vstd::prelude::*;

use crate::text::{
    all_digits, before_char, chars_of, contains_char, contains_char_exec, ends_with, ends_with_char,
    ends_with_lit, eq_str, find_char, find_char_exec, find_lit, find_str, is_ascii_digit, is_digit,
    is_digit_word, lemma_find_char, lemma_find_str, lemma_rfind_char, rfind_char, rfind_char_exec,
    slice_of, split_char, split_char_exec, split_top_commas, split_top_commas_exec, starts_with,
    starts_with_char, starts_with_lit, trim, trim_all, trim_all_exec, trim_chars, views,
};

verus! {

/// Trimmed pieces with the last one dropped when it is empty
/// (`split_top_level_type_args`).
pub open spec fn type_args(s: Seq<char>) -> Seq<Seq<char>> {
    let ps = trim_all(split_top_commas(s));
    if ps.len() > 0 && ps.last().len() == 0 {
        ps.drop_last()
    } else {
        ps
    }
}

/// `split_top_level_type_args`: the comma-separated arguments at bracket depth
/// zero, trimmed; an empty last argument is dropped.
pub fn split_top_level_type_args(inner: &[char]) -> (r: Vec<Vec<char>>)
    ensures
        views(r@) == type_args(inner@),
{
    let raw = split_top_commas_exec(inner);
    let mut ps = trim_all_exec(&raw);
    if ps.len() > 0 && ps[ps.len() - 1].len() == 0 {
        let ghost before = views(ps@);
        ps.pop();
        proof {
            assert(views(ps@) =~= before.drop_last());
        }
    }
    ps
}

/// `Name[args]` read as the trimmed name before the first `[` and the arguments
/// up to the last `]`; `None` when a part is missing or empty.
pub open spec fn generic_annotation(ann: Seq<char>) -> Option<(Seq<char>, Seq<Seq<char>>)> {
    match find_char(ann, '[') {
        None => None,
        Some(b) => {
            let name = trim(ann.take(b));
            if name.len() == 0 {
                None
            } else {
                match rfind_char(ann, ']') {
                    None => None,
                    Some(e) => if e < b + 1 {
                        None
                    } else {
                        let args = type_args(ann.subrange(b + 1, e));
                        if args.len() == 0 {
                            None
                        } else {
                            Some((name, args))
                        }
                    },
                }
            }
        },
    }
}

/// `parse_generic_annotation`: `MyClass[int]` as `("MyClass", ["int"])`.
pub fn parse_generic_annotation(ann: &[char]) -> (r: Option<(Vec<char>, Vec<Vec<char>>)>)
    ensures
        match r {
            Some((name, args)) => generic_annotation(ann@) == Some((name@, views(args@))),
            None => generic_annotation(ann@) is None,
        },
{
    let b = match find_char_exec(ann, '[') {
        Some(b) => b,
        None => return None,
    };
    proof {
        lemma_find_char(ann@, '[');
    }
    let head = slice_of(ann, 0, b);
    let name = trim_chars(head.as_slice());
    proof {
        assert(head@ =~= ann@.take(b as int));
    }
    if name.len() == 0 {
        return None;
    }
    let e = match rfind_char_exec(ann, ']') {
        Some(e) => e,
        None => return None,
    };
    proof {
        lemma_rfind_char(ann@, ']');
    }
    if e <= b {
        return None;
    }
    let inner = slice_of(ann, b + 1, e);
    let args = split_top_level_type_args(inner.as_slice());
    if args.len() == 0 {
        return None;
    }
    Some((name, args))
}

/// The trimmed, non-empty pieces of a list.
pub open spec fn nonempty_trimmed(parts: Seq<Seq<char>>) -> Seq<Seq<char>>
    decreases parts.len(),
{
    if parts.len() == 0 {
        Seq::empty()
    } else {
        let prev = nonempty_trimmed(parts.drop_last());
        let t = trim(parts.last());
        if t.len() > 0 {
            prev.push(t)
        } else {
            prev
        }
    }
}

pub fn nonempty_trimmed_exec(parts: &Vec<Vec<char>>) -> (r: Vec<Vec<char>>)
    ensures
        views(r@) == nonempty_trimmed(views(parts@)),
{
    let mut v: Vec<Vec<char>> = Vec::new();
    let mut i: usize = 0;
    proof {
        assert(views(v@) =~= Seq::<Seq<char>>::empty());
        assert(views(parts@).take(0) =~= Seq::<Seq<char>>::empty());
    }
    while i < parts.len()
        invariant
            i <= parts@.len(),
            views(v@) == nonempty_trimmed(views(parts@).take(i as int)),
        decreases parts.len() - i,
    {
        proof {
            let t = views(parts@).take(i + 1);
            assert(t.drop_last() =~= views(parts@).take(i as int));
            assert(t.last() == parts@[i as int]@);
        }
        let t = trim_chars(parts[i].as_slice());
        if t.len() > 0 {
            let ghost before = views(v@);
            v.push(t);
            proof {
                assert(views(v@) =~= before.push(t@));
            }
        }
        i += 1;
    }
    proof {
        assert(views(parts@).take(i as int) =~= views(parts@));
    }
    v
}

/// The names listed in `Generic[...]` (up to the first `]`), trimmed, non-empty.
pub open spec fn generic_params(line: Seq<char>) -> Seq<Seq<char>> {
    match find_str(line, "Generic["@) {
        None => Seq::empty(),
        Some(st) => {
            let after = line.skip(st + 8);
            match find_char(after, ']') {
                None => Seq::empty(),
                Some(e) => nonempty_trimmed(split_char(after.take(e), ',')),
            }
        },
    }
}

/// `extract_typevar_params_from_generic`: the `TypeVar` names of a
/// `Generic[T, S]` base, in order.
pub fn extract_typevar_params_from_generic(source_line: &[char]) -> (r: Vec<Vec<char>>)
    ensures
        views(r@) == generic_params(source_line@),
{
    let st = match find_lit(source_line, "Generic[") {
        Some(st) => st,
        None => return Vec::new(),
    };
    proof {
        lemma_find_str(source_line@, "Generic["@);
        reveal_strlit("Generic[");
    }
    let n = source_line.len();
    let after = slice_of(source_line, st + 8, n);
    proof {
        assert(after@ =~= source_line@.skip(st + 8));
    }
    let e = match find_char_exec(after.as_slice(), ']') {
        Some(e) => e,
        None => return Vec::new(),
    };
    proof {
        lemma_find_char(after@, ']');
    }
    let inner = slice_of(after.as_slice(), 0, e);
    proof {
        assert(inner@ =~= after@.take(e as int));
    }
    let parts = split_char_exec(inner.as_slice(), ',');
    nonempty_trimmed_exec(&parts)
}

/// The simple types a literal can be inferred to have.
#[derive(Clone, Copy, Debug, PartialEq, Eq)]
pub enum LiteralType {
    Bool,
    NoneType,
    Int,
    Float,
    Str,
    Bytes,
}

/// The name Python gives the type.
pub open spec fn literal_type_name(t: LiteralType) -> Seq<char> {
    match t {
        LiteralType::Bool => "bool"@,
        LiteralType::NoneType => "None"@,
        LiteralType::Int => "int"@,
        LiteralType::Float => "float"@,
        LiteralType::Str => "str"@,
        LiteralType::Bytes => "bytes"@,
    }
}

pub fn literal_type_name_exec(t: LiteralType) -> (r: Vec<char>)
    ensures
        r@ == literal_type_name(t),
{
    match t {
        LiteralType::Bool => chars_of("bool"),
        LiteralType::NoneType => chars_of("None"),
        LiteralType::Int => chars_of("int"),
        LiteralType::Float => chars_of("float"),
        LiteralType::Str => chars_of("str"),
        LiteralType::Bytes => chars_of("bytes"),
    }
}

/// Every character is a digit, `.` or `-`.
pub open spec fn all_float_chars(s: Seq<char>) -> bool {
    forall|i: int| 0 <= i < s.len() ==> (is_digit(#[trigger] s[i]) || s[i] == '.' || s[i] == '-')
}

fn all_float_chars_exec(s: &[char]) -> (r: bool)
    ensures
        r == all_float_chars(s@),
{
    let mut i: usize = 0;
    while i < s.len()
        invariant
            i <= s@.len(),
            forall|j: int| 0 <= j < i ==> (is_digit(#[trigger] s@[j]) || s@[j] == '.' || s@[j] == '-'),
        decreases s.len() - i,
    {
        if !(is_ascii_digit(s[i]) || s[i] == '.' || s[i] == '-') {
            return false;
        }
        i += 1;
    }
    true
}

/// `-` followed by at least one character, all digits.
pub open spec fn is_negative_int(e: Seq<char>) -> bool {
    starts_with(e, "-"@) && e.len() > 1 && all_digits(e.skip(1))
}

fn is_negative_int_exec(e: &[char]) -> (r: bool)
    ensures
        r == is_negative_int(e@),
{
    if !starts_with_lit(e, "-") || e.len() <= 1 {
        return false;
    }
    let n = e.len();
    let rest = slice_of(e, 1, n);
    proof {
        assert(rest@ =~= e@.skip(1));
    }
    is_digit_word(rest.as_slice())
}

/// Some character of `s` is an ASCII digit.
pub open spec fn has_digit(s: Seq<char>) -> bool {
    exists|j: int| 0 <= j < s.len() && is_digit(#[trigger] s[j])
}

fn has_digit_exec(s: &[char]) -> (r: bool)
    ensures
        r == has_digit(s@),
{
    let mut i: usize = 0;
    while i < s.len()
        invariant
            i <= s@.len(),
            forall|j: int| 0 <= j < i ==> !is_digit(#[trigger] s@[j]),
        decreases s.len() - i,
    {
        if is_ascii_digit(s[i]) {
            assert(is_digit(s@[i as int]));
            return true;
        }
        i += 1;
    }
    false
}

/// The type of a literal written as `e`, by the shape of its text (the text is
/// trimmed first). A number has at least one digit.
pub open spec fn literal_type_of(expr: Seq<char>) -> Option<LiteralType> {
    let e = trim(expr);
    if e == "True"@ || e == "False"@ {
        Some(LiteralType::Bool)
    } else if e == "None"@ {
        Some(LiteralType::NoneType)
    } else if (e.len() > 0 && all_digits(e)) || is_negative_int(e) {
        Some(LiteralType::Int)
    } else if contains_char(e, '.') && all_float_chars(e) && has_digit(e) {
        Some(LiteralType::Float)
    } else if (starts_with(e, "\""@) && ends_with(e, "\""@) && e.len() >= 2) || (starts_with(
        e,
        "'"@,
    ) && ends_with(e, "'"@) && e.len() >= 2) {
        Some(LiteralType::Str)
    } else if (starts_with(e, "b\""@) && ends_with(e, "\""@)) || (starts_with(e, "b'"@) && ends_with(
        e,
        "'"@,
    )) {
        Some(LiteralType::Bytes)
    } else {
        None
    }
}

/// `infer_literal_type`: the type of a literal expression; `None` for text of
/// no literal's shape, the empty text and `...` among it.
pub fn infer_literal_type(expr: &[char]) -> (r: Option<LiteralType>)
    ensures
        r == literal_type_of(expr@),
{
    let e = trim_chars(expr);
    let es = e.as_slice();
    if eq_str(es, "True") || eq_str(es, "False") {
        return Some(LiteralType::Bool);
    }
    if eq_str(es, "None") {
        return Some(LiteralType::NoneType);
    }
    if (es.len() > 0 && is_digit_word(es)) || is_negative_int_exec(es) {
        return Some(LiteralType::Int);
    }
    if contains_char_exec(es, '.') && all_float_chars_exec(es) && has_digit_exec(es) {
        return Some(LiteralType::Float);
    }
    if (starts_with_lit(es, "\"") && ends_with_lit(es, "\"") && es.len() >= 2) || (starts_with_lit(
        es,
        "'",
    ) && ends_with_lit(es, "'") && es.len() >= 2) {
        return Some(LiteralType::Str);
    }
    if (starts_with_lit(es, "b\"") && ends_with_lit(es, "\"")) || (starts_with_lit(es, "b'")
        && ends_with_lit(es, "'")) {
        return Some(LiteralType::Bytes);
    }
    None
}

/// `generic_types_compatible`: `actual` may stand where `expected` is declared
/// (`Any`/`object` accept everything, `bool` fits `int`, `int`/`bool` fit `float`).
pub open spec fn types_compatible(actual: Seq<char>, expected: Seq<char>) -> bool {
    expected == "Any"@ || actual == "Any"@ || expected == "object"@ || actual == expected || (
    expected == "int"@ && actual == "bool"@) || (expected == "float"@ && (actual == "int"@
        || actual == "bool"@))
}

pub fn generic_types_compatible(actual: &[char], expected: &[char]) -> (r: bool)
    ensures
        r == types_compatible(actual@, expected@),
{
    if eq_str(expected, "Any") || eq_str(actual, "Any") || eq_str(expected, "object") {
        return true;
    }
    if crate::text::eq_chars(actual, expected) {
        return true;
    }
    if eq_str(expected, "int") && eq_str(actual, "bool") {
        return true;
    }
    if eq_str(expected, "float") && (eq_str(actual, "int") || eq_str(actual, "bool")) {
        return true;
    }
    false
}

/// `(`, `[`, `{` open; `)`, `]`, `}` close.
pub open spec fn all_delta(c: char) -> int {
    if c == '(' || c == '[' || c == '{' {
        1
    } else if c == ')' || c == ']' || c == '}' {
        -1
    } else {
        0
    }
}

/// Nesting of all three bracket kinds before index `i`.
pub open spec fn depth_all(s: Seq<char>, i: int) -> int
    decreases i,
{
    if i <= 0 {
        0
    } else {
        depth_all(s, i - 1) + all_delta(s[i - 1])
    }
}

pub open spec fn is_closer(c: char) -> bool {
    c == ')' || c == ']' || c == '}'
}

/// The first closing bracket at depth zero.
pub open spec fn unmatched_close_at(s: Seq<char>, i: int) -> bool {
    0 <= i < s.len() && is_closer(s[i]) && depth_all(s, i) == 0
}

/// The first index below `n` of a closer at depth zero.
pub open spec fn first_unmatched_below(s: Seq<char>, n: int) -> Option<int>
    decreases n,
{
    if n <= 0 {
        None
    } else {
        match first_unmatched_below(s, n - 1) {
            Some(i) => Some(i),
            None => if unmatched_close_at(s, n - 1) {
                Some(n - 1)
            } else {
                None
            },
        }
    }
}

/// The index of the first closer at depth zero, or the length.
pub open spec fn matching_close(s: Seq<char>) -> int {
    match first_unmatched_below(s, s.len() as int) {
        Some(i) => i,
        None => s.len() as int,
    }
}

proof fn lemma_first_unmatched_none(s: Seq<char>, n: int)
    requires
        0 <= n <= s.len(),
    ensures
        first_unmatched_below(s, n) is None <==> forall|j: int|
            0 <= j < n ==> !unmatched_close_at(s, j),
    decreases n,
{
    if n > 0 {
        lemma_first_unmatched_none(s, n - 1);
    }
}

proof fn lemma_first_unmatched_mono(s: Seq<char>, n: int, m: int)
    requires
        0 <= n <= m <= s.len(),
        first_unmatched_below(s, n) is Some,
    ensures
        first_unmatched_below(s, m) == first_unmatched_below(s, n),
    decreases m - n,
{
    if m > n {
        lemma_first_unmatched_mono(s, n, m - 1);
    }
}

/// `find_matching_close`: the index of the closing bracket that ends the text
/// opened just before it (the first closer at depth zero), or the length.
/// Indices count characters.
pub fn find_matching_close(text: &[char]) -> (r: usize)
    ensures
        r == matching_close(text@),
        r <= text@.len(),
{
    let mut depth: u64 = 0;
    let mut i: usize = 0;
    while i < text.len()
        invariant
            i <= text@.len(),
            depth == depth_all(text@, i as int),
            depth <= i,
            forall|j: int| 0 <= j < i ==> !unmatched_close_at(text@, j),
        decreases text.len() - i,
    {
        let c = text[i];
        if c == '(' || c == '[' || c == '{' {
            depth = depth + 1;
        } else if c == ')' || c == ']' || c == '}' {
            if depth == 0 {
                proof {
                    lemma_first_unmatched_none(text@, i as int);
                    assert(first_unmatched_below(text@, i + 1) == Some(i as int));
                    lemma_first_unmatched_mono(text@, i + 1, text@.len() as int);
                }
                return i;
            }
            depth = depth - 1;
        }
        i += 1;
    }
    proof {
        lemma_first_unmatched_none(text@, text@.len() as int);
    }
    i
}

} // verus!
