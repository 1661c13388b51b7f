//! `TypeVar` defaults that refer to other type variables: their order in
//! `Generic[...]`, references to an enclosing class's parameters, bound and
//! constraint compatibility, and literal arguments of subscripted class calls.
use vstd::prelude::*;

use crate::assoc::{assoc_find, assoc_get, assoc_index, assoc_insert, lemma_assoc_index, lemma_assoc_index_at};
use crate::literal_assign::ParamAnnotation;
use crate::numbers::{parse_i64_radix, parse_radix};
use crate::position::{line_sum, utf8_len, Span};
use crate::text::{
    all_alnum_or_underscore, all_digits, contains_char, contains_char_exec, eq_chars, eq_str,
    find_char, find_char_exec, first_where, is_alnum_underscore_word, is_digit, is_digit_word,
    lemma_find_char, lemma_first_where_at, lemma_first_where_none, lemma_first_where_some,
    slice_of, starts_with, starts_with_lit, trim, trim_chars, views, chars_of, push_chars, push_lit,
    push_joined, join_comma,
};
use crate::variance::{numeric_subtype, split_top_level_params, top_params};

verus! {

// ---------------------------------------------------------------------------
// `TypeVar(...)` lines
// ---------------------------------------------------------------------------

/// What a `Name = TypeVar("Name", ...)` line declares.
pub struct TypeVarInfo {
    pub name: Vec<char>,
    /// The type variable named by `default=`, when it is a known one.
    pub default_typevar_name: Option<Vec<char>>,
    pub bound_name: Option<Vec<char>>,
    /// The positional arguments after the name.
    pub constraint_names: Vec<Vec<char>>,
}

pub struct InfoV {
    pub name: Seq<char>,
    pub default_typevar_name: Option<Seq<char>>,
    pub bound_name: Option<Seq<char>>,
    pub constraint_names: Seq<Seq<char>>,
}

pub open spec fn opt_view(o: Option<Vec<char>>) -> Option<Seq<char>> {
    match o {
        Some(v) => Some(v@),
        None => None,
    }
}

pub open spec fn info_view(i: TypeVarInfo) -> InfoV {
    InfoV {
        name: i.name@,
        default_typevar_name: opt_view(i.default_typevar_name),
        bound_name: opt_view(i.bound_name),
        constraint_names: views(i.constraint_names@),
    }
}

pub open spec fn infos_view(v: Seq<TypeVarInfo>) -> Seq<InfoV> {
    v.map_values(|i: TypeVarInfo| info_view(i))
}

/// `split_top_level_args`: pieces between commas outside `()` and `[]`, kept
/// untrimmed; a blank last piece is dropped.
pub fn split_top_level_args(text: &[char]) -> (r: Vec<Vec<char>>)
    ensures
        views(r@) == top_params(text@),
{
    split_top_level_params(text)
}

/// Drops every leading and trailing `"` (`str::trim_matches('"')`).
pub open spec fn strip_quotes_start(s: Seq<char>) -> Seq<char>
    decreases s.len(),
{
    if s.len() > 0 && s[0] == '"' {
        strip_quotes_start(s.drop_first())
    } else {
        s
    }
}

pub open spec fn strip_quotes_end(s: Seq<char>) -> Seq<char>
    decreases s.len(),
{
    if s.len() > 0 && s.last() == '"' {
        strip_quotes_end(s.drop_last())
    } else {
        s
    }
}

pub open spec fn strip_quotes(s: Seq<char>) -> Seq<char> {
    strip_quotes_end(strip_quotes_start(s))
}

fn strip_quotes_exec(s: &[char]) -> (r: Vec<char>)
    ensures
        r@ == strip_quotes(s@),
{
    let mut a: usize = 0;
    proof {
        assert(s@.skip(0) =~= s@);
    }
    while a < s.len() && s[a] == '"'
        invariant
            a <= s@.len(),
            strip_quotes_start(s@) == strip_quotes_start(s@.skip(a as int)),
        decreases s.len() - a,
    {
        proof {
            assert(s@.skip(a as int).drop_first() =~= s@.skip(a + 1));
        }
        a += 1;
    }
    proof {
        if a == s@.len() {
            assert(s@.skip(a as int) =~= Seq::<char>::empty());
        }
    }
    let mid = slice_of(s, a, s.len());
    proof {
        assert(mid@ =~= s@.skip(a as int));
    }
    let mut b: usize = mid.len();
    proof {
        assert(mid@.take(b as int) =~= mid@);
        assert(strip_quotes_start(s@) == mid@);
    }
    while b > 0 && mid[b - 1] == '"'
        invariant
            b <= mid@.len(),
            strip_quotes_end(mid@) == strip_quotes_end(mid@.take(b as int)),
        decreases b,
    {
        proof {
            assert(mid@.take(b as int).drop_last() =~= mid@.take(b - 1));
        }
        b -= 1;
    }
    let r = slice_of(mid.as_slice(), 0, b);
    proof {
        assert(r@ =~= mid@.take(b as int));
        assert(strip_quotes_end(mid@.take(b as int)) == mid@.take(b as int));
    }
    r
}

/// The `)` that closes the `(` just before the text.
pub open spec fn closing_paren(s: Seq<char>) -> spec_fn(int) -> bool {
    |i: int| s[i] == ')' && crate::generic_calls::depth_paren(s, i) == 0
}

/// The arguments of `TypeVar(...)`: up to the matching `)`, or none at all
/// when it is missing.
pub open spec fn typevar_call_inner(rest: Seq<char>) -> Seq<char> {
    match first_where(closing_paren(rest), rest.len() as int) {
        Some(e) => rest.take(e),
        None => Seq::empty(),
    }
}

/// What one argument after the name adds.
pub open spec fn arg_info_step(info: InfoV, raw: Seq<char>, names: Seq<Seq<char>>) -> InfoV {
    let a = trim(raw);
    if starts_with(a, "default="@) {
        let val = strip_quotes(trim(a.skip(8)));
        if names.contains(val) {
            InfoV { default_typevar_name: Some(val), ..info }
        } else {
            info
        }
    } else if starts_with(a, "bound="@) {
        InfoV { bound_name: Some(trim(a.skip(6))), ..info }
    } else if !contains_char(a, '=') {
        InfoV { constraint_names: info.constraint_names.push(a), ..info }
    } else {
        info
    }
}

pub open spec fn args_info(info: InfoV, args: Seq<Seq<char>>, k: int, names: Seq<Seq<char>>) -> InfoV
    decreases k,
{
    if k <= 1 {
        info
    } else {
        arg_info_step(args_info(info, args, k - 1, names), args[k - 1], names)
    }
}

/// The declaration a line makes, if it is `Name = TypeVar(...)` with a plain
/// name (not `==` or `!=`).
pub open spec fn typevar_line(line: Seq<char>, names: Seq<Seq<char>>) -> Option<InfoV> {
    let t = trim(line);
    match find_char(t, '=') {
        None => None,
        Some(e) => {
            let lhs = trim(t.take(e));
            let rhs = trim(t.skip(e + 1));
            if (e + 1 < t.len() && t[e + 1] == '=') || (e > 0 && t[e - 1] == '!') {
                None
            } else if !all_alnum_or_underscore(lhs) || lhs.len() == 0 {
                None
            } else if !starts_with(rhs, "TypeVar("@) {
                None
            } else {
                let args = top_params(typevar_call_inner(rhs.skip(8)));
                Some(
                    args_info(
                        InfoV {
                            name: lhs,
                            default_typevar_name: None,
                            bound_name: None,
                            constraint_names: Seq::empty(),
                        },
                        args,
                        args.len() as int,
                        names,
                    ),
                )
            }
        },
    }
}

pub open spec fn typevar_infos(ls: Seq<Seq<char>>, names: Seq<Seq<char>>) -> Seq<InfoV>
    decreases ls.len(),
{
    if ls.len() == 0 {
        Seq::empty()
    } else {
        typevar_infos(ls.drop_last(), names) + match typevar_line(ls.last(), names) {
            Some(i) => seq![i],
            None => Seq::<InfoV>::empty(),
        }
    }
}

fn typevar_call_inner_exec(rest: &[char]) -> (r: Vec<char>)
    ensures
        r@ == typevar_call_inner(rest@),
{
    let mut depth: i128 = 0;
    let mut i: usize = 0;
    while i < rest.len()
        invariant
            i <= rest@.len(),
            depth == crate::generic_calls::depth_paren(rest@, i as int),
            -(i as int) <= depth <= i,
            forall|j: int| 0 <= j < i ==> !#[trigger] closing_paren(rest@)(j),
        decreases rest.len() - i,
    {
        if rest[i] == '(' {
            depth = depth + 1;
        } else if rest[i] == ')' {
            if depth == 0 {
                proof {
                    assert(closing_paren(rest@)(i as int));
                    lemma_first_where_at(closing_paren(rest@), i as int, rest@.len() as int);
                }
                let r = slice_of(rest, 0, i);
                proof {
                    assert(r@ =~= rest@.take(i as int));
                }
                return r;
            }
            depth = depth - 1;
        }
        i += 1;
    }
    proof {
        lemma_first_where_none(closing_paren(rest@), rest@.len() as int);
    }
    Vec::new()
}

/// The declaration of one line.
fn typevar_line_exec(line: &[char], names: &Vec<Vec<char>>) -> (r: Option<TypeVarInfo>)
    ensures
        match r {
            Some(i) => typevar_line(line@, views(names@)) == Some(info_view(i)),
            None => typevar_line(line@, views(names@)) is None,
        },
{
    let t = trim_chars(line);
    proof {
        lemma_find_char(t@, '=');
    }
    let e = match find_char_exec(t.as_slice(), '=') {
        Some(e) => e,
        None => return None,
    };
    let n = t.len();
    if e + 1 < n && t[e + 1] == '=' {
        return None;
    }
    if e > 0 && t[e - 1] == '!' {
        return None;
    }
    let head = slice_of(t.as_slice(), 0, e);
    let lhs = trim_chars(head.as_slice());
    let tail = slice_of(t.as_slice(), e + 1, n);
    let rhs = trim_chars(tail.as_slice());
    proof {
        assert(head@ =~= t@.take(e as int));
        assert(tail@ =~= t@.skip(e + 1));
    }
    if !is_alnum_underscore_word(lhs.as_slice()) || lhs.len() == 0 {
        return None;
    }
    if !starts_with_lit(rhs.as_slice(), "TypeVar(") {
        return None;
    }
    proof {
        reveal_strlit("TypeVar(");
    }
    let rn = rhs.len();
    let rest = slice_of(rhs.as_slice(), 8, rn);
    proof {
        assert(rest@ =~= rhs@.skip(8));
    }
    let inner = typevar_call_inner_exec(rest.as_slice());
    let args = split_top_level_args(inner.as_slice());
    let ghost av = views(args@);
    let ghost nv = views(names@);
    let mut info = TypeVarInfo {
        name: lhs,
        default_typevar_name: None,
        bound_name: None,
        constraint_names: Vec::new(),
    };
    let ghost info0 = info_view(info);
    proof {
        assert(info_view(info).constraint_names =~= Seq::<Seq<char>>::empty());
    }
    let mut k: usize = 1;
    while k < args.len()
        invariant
            1 <= k,
            k <= args@.len() || k == 1,
            av == views(args@),
            nv == views(names@),
            info_view(info) == args_info(info0, av, k as int, nv),
        decreases args.len() - k,
    {
        proof {
            assert(av[k as int] == args@[k as int]@);
        }
        let a = trim_chars(args[k].as_slice());
        if starts_with_lit(a.as_slice(), "default=") {
            proof {
                reveal_strlit("default=");
            }
            let an = a.len();
            let v0 = slice_of(a.as_slice(), 8, an);
            proof {
                assert(v0@ =~= a@.skip(8));
            }
            let v1 = trim_chars(v0.as_slice());
            let val = strip_quotes_exec(v1.as_slice());
            if crate::names::contains_name(names, val.as_slice()) {
                info.default_typevar_name = Some(val);
            }
        } else if starts_with_lit(a.as_slice(), "bound=") {
            proof {
                reveal_strlit("bound=");
            }
            let an = a.len();
            let v0 = slice_of(a.as_slice(), 6, an);
            proof {
                assert(v0@ =~= a@.skip(6));
            }
            info.bound_name = Some(trim_chars(v0.as_slice()));
        } else if !contains_char_exec(a.as_slice(), '=') {
            let ghost before = info_view(info).constraint_names;
            info.constraint_names.push(a);
            proof {
                assert(views(info.constraint_names@) =~= before.push(a@));
            }
        }
        k += 1;
    }
    proof {
        if args@.len() == 0 {
            assert(args_info(info0, av, av.len() as int, nv) == info0);
        }
        if av.len() == 0 {
            assert(args_info(info0, av, k as int, nv) == info0);
        }
    }
    Some(info)
}

/// `parse_typevar_info_from_source`: the `TypeVar` declarations of the
/// source, line by line; `typevar_names` are the known type variables a
/// default may name.
pub fn parse_typevar_info_from_source(source: &[char], typevar_names: &Vec<Vec<char>>) -> (r: Vec<
    TypeVarInfo,
>)
    ensures
        infos_view(r@) == typevar_infos(crate::text::lines(source@), views(typevar_names@)),
{
    let ls = crate::text::lines_exec(source);
    let ghost lv = views(ls@);
    let mut out: Vec<TypeVarInfo> = Vec::new();
    let mut k: usize = 0;
    while k < ls.len()
        invariant
            k <= ls@.len(),
            lv == views(ls@),
            lv == crate::text::lines(source@),
            infos_view(out@) == typevar_infos(lv.take(k as int), views(typevar_names@)),
        decreases ls.len() - k,
    {
        proof {
            assert(lv.take(k + 1).drop_last() =~= lv.take(k as int));
            assert(lv.take(k + 1).last() == ls@[k as int]@);
        }
        let ghost before = infos_view(out@);
        match typevar_line_exec(ls[k].as_slice(), typevar_names) {
            Some(i) => {
                out.push(i);
                proof {
                    assert(infos_view(out@) =~= before + seq![info_view(i)]);
                }
            },
            None => {
                proof {
                    assert(infos_view(out@) =~= before + Seq::<InfoV>::empty());
                }
            },
        }
        k += 1;
    }
    proof {
        assert(lv.take(k as int) =~= lv);
    }
    out
}

// ---------------------------------------------------------------------------
// Literal arguments
// ---------------------------------------------------------------------------

/// The kind of literal that does not fit the expected type.
#[derive(Clone, Copy, PartialEq, Eq, Structural, Debug)]
pub enum LiteralMismatch {
    Str,
    Int,
    Float,
}

/// ASCII letters in lower case (`str::to_ascii_lowercase`).
pub open spec fn ascii_lower(s: Seq<char>) -> Seq<char> {
    s.map_values(|c: char| if 'A' <= c && c <= 'Z' {
        ((c as u32) + 32) as char
    } else {
        c
    })
}

fn ascii_lower_exec(s: &[char]) -> (r: Vec<char>)
    ensures
        r@ == ascii_lower(s@),
{
    let mut out: Vec<char> = Vec::new();
    let mut i: usize = 0;
    while i < s.len()
        invariant
            i <= s@.len(),
            out@ == ascii_lower(s@.take(i as int)),
        decreases s.len() - i,
    {
        let c = s[i];
        let d = if 'A' <= c && c <= 'Z' {
            let x: u8 = ((c as u32) + 32) as u8;
            x as char
        } else {
            c
        };
        out.push(d);
        proof {
            assert(out@ =~= ascii_lower(s@.take(i + 1)));
        }
        i += 1;
    }
    proof {
        assert(s@.take(i as int) =~= s@);
    }
    out
}

/// Only ASCII digits, at least one.
pub open spec fn digits1(s: Seq<char>) -> bool {
    s.len() > 0 && all_digits(s)
}

/// An exponent: `e` or `E`, an optional sign, then digits.
pub open spec fn exponent_text(s: Seq<char>) -> bool {
    s.len() > 0 && (s[0] == 'e' || s[0] == 'E') && {
        let r = s.skip(1);
        if r.len() > 0 && (r[0] == '+' || r[0] == '-') {
            digits1(r.skip(1))
        } else {
            digits1(r)
        }
    }
}

/// Where the mantissa of a number ends: at the first `e` or `E`.
pub open spec fn exp_start(s: Seq<char>) -> spec_fn(int) -> bool {
    |i: int| s[i] == 'e' || s[i] == 'E'
}

/// Text with a `.` that `f64::from_str` accepts: an optional sign, digits with
/// one `.` and a digit on at least one side of it, then an optional exponent.
pub open spec fn float_text(s: Seq<char>) -> bool {
    let b = if s.len() > 0 && (s[0] == '+' || s[0] == '-') {
        s.skip(1)
    } else {
        s
    };
    let me = match first_where(exp_start(b), b.len() as int) {
        Some(i) => i,
        None => b.len() as int,
    };
    let m = b.take(me);
    let ex = b.skip(me);
    match find_char(m, '.') {
        None => false,
        Some(p) => {
            &&& all_digits(m.take(p))
            &&& all_digits(m.skip(p + 1))
            &&& (p > 0 || m.len() > p + 1)
            &&& (ex.len() == 0 || exponent_text(ex))
        },
    }
}

/// Integer text that `str::parse::<i64>` accepts, or a `-` followed by such
/// text.
pub open spec fn int_text(arg: Seq<char>) -> bool {
    parse_radix(arg, 10) is Some || (starts_with(arg, "-"@) && parse_radix(arg.skip(1), 10) is Some)
}

/// `literal_type_mismatch`: a string, integer or float literal argument that
/// the expected type (compared in ASCII lower case, trimmed) cannot take.
pub open spec fn literal_mismatch(arg: Seq<char>, expected_type: Seq<char>) -> Option<LiteralMismatch> {
    let e = ascii_lower(trim(expected_type));
    if arg.len() > 0 && (arg[0] == '"' || arg[0] == '\'') {
        if e == "int"@ || e == "float"@ || e == "bool"@ || e == "bytes"@ {
            Some(LiteralMismatch::Str)
        } else {
            None
        }
    } else if int_text(arg) {
        if e == "str"@ || e == "bytes"@ {
            Some(LiteralMismatch::Int)
        } else {
            None
        }
    } else if contains_char(arg, '.') && float_text(arg) {
        if e == "int"@ || e == "str"@ || e == "bool"@ {
            Some(LiteralMismatch::Float)
        } else {
            None
        }
    } else {
        None
    }
}

fn first_exp(b: &[char]) -> (r: usize)
    ensures
        r <= b@.len(),
        r == (match first_where(exp_start(b@), b@.len() as int) {
            Some(i) => i,
            None => b@.len() as int,
        }),
{
    let mut i: usize = 0;
    while i < b.len()
        invariant
            i <= b@.len(),
            forall|j: int| 0 <= j < i ==> !#[trigger] exp_start(b@)(j),
        decreases b.len() - i,
    {
        if b[i] == 'e' || b[i] == 'E' {
            proof {
                assert(exp_start(b@)(i as int));
                lemma_first_where_at(exp_start(b@), i as int, b@.len() as int);
            }
            return i;
        }
        i += 1;
    }
    proof {
        lemma_first_where_none(exp_start(b@), b@.len() as int);
    }
    i
}

fn digits1_exec(s: &[char]) -> (r: bool)
    ensures
        r == digits1(s@),
{
    s.len() > 0 && is_digit_word(s)
}

fn exponent_text_exec(s: &[char]) -> (r: bool)
    ensures
        r == exponent_text(s@),
{
    if s.len() == 0 || !(s[0] == 'e' || s[0] == 'E') {
        return false;
    }
    let n = s.len();
    let r = slice_of(s, 1, n);
    proof {
        assert(r@ =~= s@.skip(1));
    }
    if r.len() > 0 && (r[0] == '+' || r[0] == '-') {
        let rn = r.len();
        let d = slice_of(r.as_slice(), 1, rn);
        proof {
            assert(d@ =~= r@.skip(1));
        }
        digits1_exec(d.as_slice())
    } else {
        digits1_exec(r.as_slice())
    }
}

/// Whether text with a `.` parses as an `f64`.
pub fn parses_as_float(s: &[char]) -> (r: bool)
    ensures
        r == float_text(s@),
{
    let n = s.len();
    let b = if n > 0 && (s[0] == '+' || s[0] == '-') {
        let b = slice_of(s, 1, n);
        proof {
            assert(b@ =~= s@.skip(1));
        }
        b
    } else {
        slice_of(s, 0, n)
    };
    proof {
        if !(n > 0 && (s@[0] == '+' || s@[0] == '-')) {
            assert(b@ =~= s@);
        }
    }
    let me = first_exp(b.as_slice());
    let m = slice_of(b.as_slice(), 0, me);
    let bn = b.len();
    let ex = slice_of(b.as_slice(), me, bn);
    proof {
        assert(m@ =~= b@.take(me as int));
        assert(ex@ =~= b@.skip(me as int));
        lemma_find_char(m@, '.');
    }
    let p = match find_char_exec(m.as_slice(), '.') {
        Some(p) => p,
        None => return false,
    };
    let before = slice_of(m.as_slice(), 0, p);
    let mn = m.len();
    let after = slice_of(m.as_slice(), p + 1, mn);
    proof {
        assert(before@ =~= m@.take(p as int));
        assert(after@ =~= m@.skip(p + 1));
    }
    is_digit_word(before.as_slice()) && is_digit_word(after.as_slice()) && (p > 0 || mn > p + 1) && (
    ex.len() == 0 || exponent_text_exec(ex.as_slice()))
}

/// Whether a literal argument cannot have the expected type, and which literal kind it is; `None` when it fits.
pub fn literal_type_mismatch(arg: &[char], expected_type: &[char]) -> (r: Option<LiteralMismatch>)
    ensures
        r == literal_mismatch(arg@, expected_type@),
{
    let et = trim_chars(expected_type);
    let e = ascii_lower_exec(et.as_slice());
    let es = e.as_slice();
    if arg.len() > 0 && (arg[0] == '"' || arg[0] == '\'') {
        if eq_str(es, "int") || eq_str(es, "float") || eq_str(es, "bool") || eq_str(es, "bytes") {
            return Some(LiteralMismatch::Str);
        }
        return None;
    }
    let n = arg.len();
    let neg_ok = if starts_with_lit(arg, "-") {
        proof {
            reveal_strlit("-");
        }
        let rest = slice_of(arg, 1, n);
        proof {
            assert(rest@ =~= arg@.skip(1));
        }
        parse_i64_radix(rest.as_slice(), 10).is_some()
    } else {
        false
    };
    if parse_i64_radix(arg, 10).is_some() || neg_ok {
        if eq_str(es, "str") || eq_str(es, "bytes") {
            return Some(LiteralMismatch::Int);
        }
        return None;
    }
    if contains_char_exec(arg, '.') && parses_as_float(arg) {
        if eq_str(es, "int") || eq_str(es, "str") || eq_str(es, "bool") {
            return Some(LiteralMismatch::Float);
        }
        return None;
    }
    None
}

// ---------------------------------------------------------------------------
// Brackets and generic parameters
// ---------------------------------------------------------------------------

pub open spec fn oc_delta(c: char, open: char, close: char) -> int {
    if c == open {
        1
    } else if c == close {
        -1
    } else {
        0
    }
}

/// Nesting of `open`/`close` before index `i`.
pub open spec fn depth_oc(s: Seq<char>, i: int, open: char, close: char) -> int
    decreases i,
{
    if i <= 0 {
        0
    } else {
        depth_oc(s, i - 1, open, close) + oc_delta(s[i - 1], open, close)
    }
}

/// The `close` that ends the bracket opened just before the text.
pub open spec fn closes_oc(s: Seq<char>, open: char, close: char) -> spec_fn(int) -> bool {
    |i: int| s[i] == close && s[i] != open && depth_oc(s, i, open, close) == 0
}

/// `find_matching_bracket`: the index of the `close` that matches an `open`
/// just before the text.
pub fn find_matching_bracket(text: &[char], open: char, close: char) -> (r: Option<usize>)
    ensures
        match r {
            Some(i) => first_where(closes_oc(text@, open, close), text@.len() as int) == Some(i as int),
            None => first_where(closes_oc(text@, open, close), text@.len() as int) is None,
        },
{
    let mut depth: i128 = 0;
    let mut i: usize = 0;
    while i < text.len()
        invariant
            i <= text@.len(),
            depth == depth_oc(text@, i as int, open, close),
            -(i as int) <= depth <= i,
            forall|j: int| 0 <= j < i ==> !#[trigger] closes_oc(text@, open, close)(j),
        decreases text.len() - i,
    {
        let ch = text[i];
        if ch == open {
            depth = depth + 1;
        } else if ch == close {
            if depth == 0 {
                proof {
                    assert(closes_oc(text@, open, close)(i as int));
                    lemma_first_where_at(closes_oc(text@, open, close), i as int, text@.len() as int);
                }
                return Some(i);
            }
            depth = depth - 1;
        }
        i += 1;
    }
    proof {
        lemma_first_where_none(closes_oc(text@, open, close), text@.len() as int);
    }
    None
}

/// The last declaration named `name` (later declarations replace earlier ones).
pub open spec fn last_info(infos: Seq<InfoV>, name: Seq<char>) -> Option<InfoV>
    decreases infos.len(),
{
    if infos.len() == 0 {
        None
    } else if infos.last().name == name {
        Some(infos.last())
    } else {
        last_info(infos.drop_last(), name)
    }
}

fn last_info_exec(infos: &Vec<TypeVarInfo>, name: &[char]) -> (r: Option<usize>)
    ensures
        match r {
            Some(i) => i < infos@.len() && last_info(infos_view(infos@), name@) == Some(info_view(infos@[i as int])),
            None => last_info(infos_view(infos@), name@) is None,
        },
{
    let ghost iv = infos_view(infos@);
    let mut k: usize = infos.len();
    proof {
        assert(iv.take(k as int) =~= iv);
    }
    while k > 0
        invariant
            k <= infos@.len(),
            iv == infos_view(infos@),
            last_info(iv, name@) == last_info(iv.take(k as int), name@),
        decreases k,
    {
        proof {
            assert(iv.take(k as int).last() == info_view(infos@[k - 1]));
            assert(iv.take(k as int).drop_last() =~= iv.take(k - 1));
        }
        if eq_chars(infos[k - 1].name.as_slice(), name) {
            return Some(k - 1);
        }
        k -= 1;
    }
    None
}

/// The type arguments given, then defaults that name an already resolved
/// parameter, each as `parameter -> type`.
pub open spec fn explicit_args(params: Seq<Seq<char>>, args: Seq<Seq<char>>, k: int) -> Seq<(Seq<char>, Seq<char>)>
    decreases k,
{
    if k <= 0 {
        Seq::empty()
    } else {
        let acc = explicit_args(params, args, k - 1);
        if k - 1 < args.len() {
            assoc_insert(acc, params[k - 1], args[k - 1])
        } else {
            acc
        }
    }
}

pub open spec fn default_step(
    acc: Seq<(Seq<char>, Seq<char>)>,
    p: Seq<char>,
    infos: Seq<InfoV>,
) -> Seq<(Seq<char>, Seq<char>)> {
    if assoc_index(acc, p) is Some {
        acc
    } else {
        match last_info(infos, p) {
            Some(i) => match i.default_typevar_name {
                Some(d) => match assoc_get(acc, d) {
                    Some(t) => assoc_insert(acc, p, t),
                    None => acc,
                },
                None => acc,
            },
            None => acc,
        }
    }
}

pub open spec fn defaults_upto(
    acc: Seq<(Seq<char>, Seq<char>)>,
    params: Seq<Seq<char>>,
    k: int,
    infos: Seq<InfoV>,
) -> Seq<(Seq<char>, Seq<char>)>
    decreases k,
{
    if k <= 0 {
        acc
    } else {
        default_step(defaults_upto(acc, params, k - 1, infos), params[k - 1], infos)
    }
}

pub open spec fn resolved_params(params: Seq<Seq<char>>, args: Seq<Seq<char>>, infos: Seq<InfoV>) -> Seq<
    (Seq<char>, Seq<char>),
> {
    defaults_upto(explicit_args(params, args, params.len() as int), params, params.len() as int, infos)
}

fn pairs_put(m: &mut Vec<(Vec<char>, Vec<char>)>, k: Vec<char>, v: Vec<char>)
    ensures
        crate::generic_calls::pairs_view(final(m)@) == assoc_insert(crate::generic_calls::pairs_view(old(m)@), k@, v@),
{
    let ghost mv = crate::generic_calls::pairs_view(m@);
    let r = assoc_find(m, k.as_slice());
    proof {
        lemma_assoc_index(mv, k@);
        match r {
            Some(i) => {
                assert forall|j: int| 0 <= j < i implies mv[j].0 != k@ by {
                    assert(mv[j].0 == m@[j].0@);
                }
                lemma_assoc_index_at(mv, k@, i as int);
            },
            None => {
                assert forall|j: int| 0 <= j < mv.len() implies mv[j].0 != k@ by {
                    assert(mv[j].0 == m@[j].0@);
                }
            },
        }
    }
    let ghost entry = (k@, v@);
    match r {
        Some(i) => {
            m.set(i, (k, v));
            proof {
                assert(crate::generic_calls::pairs_view(m@) =~= mv.update(i as int, entry));
            }
        },
        None => {
            m.push((k, v));
            proof {
                assert(crate::generic_calls::pairs_view(m@) =~= mv.push(entry));
            }
        },
    }
}

fn pairs_get(m: &Vec<(Vec<char>, Vec<char>)>, k: &[char]) -> (r: Option<usize>)
    ensures
        match r {
            Some(i) => i < m@.len() && assoc_index(crate::generic_calls::pairs_view(m@), k@) == Some(i as int),
            None => assoc_index(crate::generic_calls::pairs_view(m@), k@) is None,
        },
{
    let ghost mv = crate::generic_calls::pairs_view(m@);
    let r = assoc_find(m, k);
    proof {
        lemma_assoc_index(mv, k@);
        match r {
            Some(i) => {
                assert forall|j: int| 0 <= j < i implies mv[j].0 != k@ by {
                    assert(mv[j].0 == m@[j].0@);
                }
                lemma_assoc_index_at(mv, k@, i as int);
            },
            None => {
                assert forall|j: int| 0 <= j < mv.len() implies mv[j].0 != k@ by {
                    assert(mv[j].0 == m@[j].0@);
                }
            },
        }
    }
    r
}

/// Maps each generic parameter to its type: the explicit argument at its position, else its declared default.
pub fn resolve_generic_params(
    generic_params: &Vec<Vec<char>>,
    type_args: &Vec<Vec<char>>,
    infos: &Vec<TypeVarInfo>,
) -> (r: Vec<(Vec<char>, Vec<char>)>)
    ensures
        crate::generic_calls::pairs_view(r@) == resolved_params(
            views(generic_params@),
            views(type_args@),
            infos_view(infos@),
        ),
{
    let ghost pv = views(generic_params@);
    let ghost av = views(type_args@);
    let ghost iv = infos_view(infos@);
    let mut resolved: Vec<(Vec<char>, Vec<char>)> = Vec::new();
    let mut idx: usize = 0;
    while idx < generic_params.len()
        invariant
            idx <= generic_params@.len(),
            pv == views(generic_params@),
            av == views(type_args@),
            crate::generic_calls::pairs_view(resolved@) == explicit_args(pv, av, idx as int),
        decreases generic_params.len() - idx,
    {
        proof {
            assert(pv[idx as int] == generic_params@[idx as int]@);
        }
        if idx < type_args.len() {
            proof {
                assert(av[idx as int] == type_args@[idx as int]@);
            }
            pairs_put(&mut resolved, generic_params[idx].clone(), type_args[idx].clone());
        }
        idx += 1;
    }
    let ghost base = crate::generic_calls::pairs_view(resolved@);
    let mut j: usize = 0;
    while j < generic_params.len()
        invariant
            j <= generic_params@.len(),
            pv == views(generic_params@),
            iv == infos_view(infos@),
            base == explicit_args(pv, av, pv.len() as int),
            crate::generic_calls::pairs_view(resolved@) == defaults_upto(base, pv, j as int, iv),
        decreases generic_params.len() - j,
    {
        proof {
            assert(pv[j as int] == generic_params@[j as int]@);
        }
        let p = generic_params[j].as_slice();
        if pairs_get(&resolved, p).is_none() {
            match last_info_exec(infos, p) {
                None => {},
                Some(ii) => {
                    match &infos[ii].default_typevar_name {
                        None => {},
                        Some(d) => {
                            match pairs_get(&resolved, d.as_slice()) {
                                None => {},
                                Some(ri) => {
                                    let t = resolved[ri].1.clone();
                                    proof {
                                        let mv = crate::generic_calls::pairs_view(resolved@);
                                        crate::assoc::lemma_assoc_index(mv, d@);
                                        assert(assoc_get(mv, d@) == Some(t@));
                                    }
                                    pairs_put(&mut resolved, generic_params[j].clone(), t);
                                },
                            }
                        },
                    }
                },
            }
        }
        j += 1;
    }
    resolved
}

// ---------------------------------------------------------------------------
// Findings
// ---------------------------------------------------------------------------

/// What the rule reads of a class: its name, where the name is, and the type
/// variables of its `Generic[...]`.
pub struct GenericClass {
    pub name: Vec<char>,
    pub name_span: Span,
    pub generic_params: Vec<Vec<char>>,
}

/// A `TypeVar(...)` call the module makes, and where.
pub struct TypeVarSite {
    pub name: Vec<char>,
    pub span: Span,
}

/// An `__init__` method, its class, and its parameters with the source text
/// of their annotations.
pub struct InitMethod {
    pub class_name: Vec<char>,
    pub params: Vec<ParamAnnotation>,
}

pub enum DefaultIssue {
    /// `param` defaults to `default`, which is not earlier in the class's
    /// `Generic[...]`.
    Misordered { param: Vec<char>, default: Vec<char>, class_name: Vec<char> },
    /// A nested class's `param` defaults to an enclosing class's `default`.
    OuterScope { param: Vec<char>, default: Vec<char> },
    /// The default's bound is not a subtype of the bound.
    BoundNotSubtype { name: Vec<char>, default: Vec<char>, default_bound: Vec<char>, bound: Vec<char> },
    /// The default's bound is none of the constraints.
    BoundVsConstraints {
        name: Vec<char>,
        default: Vec<char>,
        default_bound: Vec<char>,
        constraints: Vec<Vec<char>>,
    },
    /// The constraints do not include all of the default's.
    ConstraintsNotSuperset {
        name: Vec<char>,
        constraints: Vec<Vec<char>>,
        default: Vec<char>,
        default_constraints: Vec<Vec<char>>,
    },
    /// A literal argument of `Class[args](...)` does not fit the resolved
    /// parameter type.
    LiteralArg {
        class_name: Vec<char>,
        type_args: Vec<char>,
        param: Vec<char>,
        expected: Vec<char>,
        mismatch: LiteralMismatch,
    },
}

pub struct DefaultDiagnostic {
    pub issue: DefaultIssue,
    pub span: Span,
}

pub enum IssueV {
    Misordered { param: Seq<char>, default: Seq<char>, class_name: Seq<char> },
    OuterScope { param: Seq<char>, default: Seq<char> },
    BoundNotSubtype { name: Seq<char>, default: Seq<char>, default_bound: Seq<char>, bound: Seq<char> },
    BoundVsConstraints {
        name: Seq<char>,
        default: Seq<char>,
        default_bound: Seq<char>,
        constraints: Seq<Seq<char>>,
    },
    ConstraintsNotSuperset {
        name: Seq<char>,
        constraints: Seq<Seq<char>>,
        default: Seq<char>,
        default_constraints: Seq<Seq<char>>,
    },
    LiteralArg {
        class_name: Seq<char>,
        type_args: Seq<char>,
        param: Seq<char>,
        expected: Seq<char>,
        mismatch: LiteralMismatch,
    },
}

pub struct DiagV {
    pub issue: IssueV,
    pub span: (nat, nat),
}

pub open spec fn issue_view(i: DefaultIssue) -> IssueV {
    match i {
        DefaultIssue::Misordered { param, default, class_name } => IssueV::Misordered {
            param: param@,
            default: default@,
            class_name: class_name@,
        },
        DefaultIssue::OuterScope { param, default } => IssueV::OuterScope { param: param@, default: default@ },
        DefaultIssue::BoundNotSubtype { name, default, default_bound, bound } => IssueV::BoundNotSubtype {
            name: name@,
            default: default@,
            default_bound: default_bound@,
            bound: bound@,
        },
        DefaultIssue::BoundVsConstraints { name, default, default_bound, constraints } =>
            IssueV::BoundVsConstraints {
            name: name@,
            default: default@,
            default_bound: default_bound@,
            constraints: views(constraints@),
        },
        DefaultIssue::ConstraintsNotSuperset { name, constraints, default, default_constraints } =>
            IssueV::ConstraintsNotSuperset {
            name: name@,
            constraints: views(constraints@),
            default: default@,
            default_constraints: views(default_constraints@),
        },
        DefaultIssue::LiteralArg { class_name, type_args, param, expected, mismatch } =>
            IssueV::LiteralArg {
            class_name: class_name@,
            type_args: type_args@,
            param: param@,
            expected: expected@,
            mismatch,
        },
    }
}

pub open spec fn diag_view(d: DefaultDiagnostic) -> DiagV {
    DiagV { issue: issue_view(d.issue), span: (d.span.start as nat, d.span.end as nat) }
}

/// How a message names the offending literal.
pub open spec fn mismatch_text(m: LiteralMismatch) -> Seq<char> {
    match m {
        LiteralMismatch::Str => "a `str` literal"@,
        LiteralMismatch::Int => "an `int` literal"@,
        LiteralMismatch::Float => "a `float` literal"@,
    }
}

/// The text of a finding.
pub open spec fn default_message(i: IssueV) -> Seq<char> {
    match i {
        IssueV::Misordered { param, default, class_name } => "TypeVar `"@ + param + "` has default `"@ + default
            + "` which is not properly ordered in `Generic[...]` for `"@ + class_name + "`"@,
        IssueV::OuterScope { param, default } => "TypeVar `"@ + param + "` has default `"@ + default
            + "` which references an outer-scope TypeVar"@,
        IssueV::BoundNotSubtype { name, default, default_bound, bound } => "TypeVar `"@ + name
            + "` has default `"@ + default + "` with bound `"@ + default_bound + "` which is not a subtype of `"@
            + name + "`'s bound `"@ + bound + "`"@,
        IssueV::BoundVsConstraints { name, default, default_bound, constraints } => "TypeVar `"@ + name
            + "` has default `"@ + default + "` with upper bound `"@ + default_bound
            + "` which is incompatible with constraints `"@ + join_comma(constraints) + "`"@,
        IssueV::ConstraintsNotSuperset { name, constraints, default, default_constraints } => "TypeVar `"@
            + name + "`'s constraints `{"@ + join_comma(constraints) + "}` are not a superset of default TypeVar `"@
            + default + "`'s constraints `{"@ + join_comma(default_constraints) + "}`"@,
        IssueV::LiteralArg { class_name, type_args, param, expected, mismatch } => class_name + "["@ + type_args
            + "].__init__ parameter `"@ + param + "` expects `"@ + expected + "` but received "@ + mismatch_text(
            mismatch,
        ),
    }
}

impl DefaultDiagnostic {
    /// The finding's message.
    pub fn message(&self) -> (r: Vec<char>)
        ensures
            r@ == default_message(issue_view(self.issue)),
    {
        match &self.issue {
            DefaultIssue::Misordered { param, default, class_name } => {
                let mut m = chars_of("TypeVar `");
                push_chars(&mut m, param.as_slice());
                push_lit(&mut m, "` has default `");
                push_chars(&mut m, default.as_slice());
                push_lit(&mut m, "` which is not properly ordered in `Generic[...]` for `");
                push_chars(&mut m, class_name.as_slice());
                push_lit(&mut m, "`");
                m
            },
            DefaultIssue::OuterScope { param, default } => {
                let mut m = chars_of("TypeVar `");
                push_chars(&mut m, param.as_slice());
                push_lit(&mut m, "` has default `");
                push_chars(&mut m, default.as_slice());
                push_lit(&mut m, "` which references an outer-scope TypeVar");
                m
            },
            DefaultIssue::BoundNotSubtype { name, default, default_bound, bound } => {
                let mut m = chars_of("TypeVar `");
                push_chars(&mut m, name.as_slice());
                push_lit(&mut m, "` has default `");
                push_chars(&mut m, default.as_slice());
                push_lit(&mut m, "` with bound `");
                push_chars(&mut m, default_bound.as_slice());
                push_lit(&mut m, "` which is not a subtype of `");
                push_chars(&mut m, name.as_slice());
                push_lit(&mut m, "`'s bound `");
                push_chars(&mut m, bound.as_slice());
                push_lit(&mut m, "`");
                m
            },
            DefaultIssue::BoundVsConstraints { name, default, default_bound, constraints } => {
                let mut m = chars_of("TypeVar `");
                push_chars(&mut m, name.as_slice());
                push_lit(&mut m, "` has default `");
                push_chars(&mut m, default.as_slice());
                push_lit(&mut m, "` with upper bound `");
                push_chars(&mut m, default_bound.as_slice());
                push_lit(&mut m, "` which is incompatible with constraints `");
                push_joined(&mut m, constraints);
                push_lit(&mut m, "`");
                m
            },
            DefaultIssue::ConstraintsNotSuperset { name, constraints, default, default_constraints } => {
                let mut m = chars_of("TypeVar `");
                push_chars(&mut m, name.as_slice());
                push_lit(&mut m, "`'s constraints `{");
                push_joined(&mut m, constraints);
                push_lit(&mut m, "}` are not a superset of default TypeVar `");
                push_chars(&mut m, default.as_slice());
                push_lit(&mut m, "`'s constraints `{");
                push_joined(&mut m, default_constraints);
                push_lit(&mut m, "}`");
                m
            },
            DefaultIssue::LiteralArg { class_name, type_args, param, expected, mismatch } => {
                let mut m = class_name.clone();
                push_lit(&mut m, "[");
                push_chars(&mut m, type_args.as_slice());
                push_lit(&mut m, "].__init__ parameter `");
                push_chars(&mut m, param.as_slice());
                push_lit(&mut m, "` expects `");
                push_chars(&mut m, expected.as_slice());
                push_lit(&mut m, "` but received ");
                match mismatch {
                    LiteralMismatch::Str => push_lit(&mut m, "a `str` literal"),
                    LiteralMismatch::Int => push_lit(&mut m, "an `int` literal"),
                    LiteralMismatch::Float => push_lit(&mut m, "a `float` literal"),
                }
                m
            },
        }
    }
}

pub open spec fn diags_view(v: Seq<DefaultDiagnostic>) -> Seq<DiagV> {
    v.map_values(|d: DefaultDiagnostic| diag_view(d))
}

pub struct ClassV {
    pub name: Seq<char>,
    pub name_span: (nat, nat),
    pub generic_params: Seq<Seq<char>>,
}

pub open spec fn class_view(c: GenericClass) -> ClassV {
    ClassV {
        name: c.name@,
        name_span: (c.name_span.start as nat, c.name_span.end as nat),
        generic_params: views(c.generic_params@),
    }
}

pub open spec fn classes_view(v: Seq<GenericClass>) -> Seq<ClassV> {
    v.map_values(|c: GenericClass| class_view(c))
}

// ---------------------------------------------------------------------------
// Order inside `Generic[...]`
// ---------------------------------------------------------------------------

/// The finding for parameter `idx` of a class, if its default is a known type
/// variable that is not earlier in the list.
pub open spec fn ordering_issue(c: ClassV, idx: int, infos: Seq<InfoV>, names: Seq<Seq<char>>) -> Option<DiagV> {
    let p = c.generic_params[idx];
    match last_info(infos, p) {
        None => None,
        Some(info) => match info.default_typevar_name {
            None => None,
            Some(d) => if !names.contains(d) {
                None
            } else {
                let ok = exists|pos: int| 0 <= pos <= idx && c.generic_params[pos] == d && forall|q: int|
                    0 <= q < pos ==> c.generic_params[q] != d;
                if ok {
                    None
                } else {
                    Some(DiagV { issue: IssueV::Misordered { param: p, default: d, class_name: c.name }, span: c.name_span })
                }
            },
        },
    }
}

pub open spec fn opt_diag(o: Option<DiagV>) -> Seq<DiagV> {
    match o {
        Some(d) => seq![d],
        None => Seq::empty(),
    }
}

pub open spec fn class_ordering(c: ClassV, k: int, infos: Seq<InfoV>, names: Seq<Seq<char>>) -> Seq<DiagV>
    decreases k,
{
    if k <= 0 {
        Seq::empty()
    } else {
        class_ordering(c, k - 1, infos, names) + opt_diag(ordering_issue(c, k - 1, infos, names))
    }
}

pub open spec fn ordering_issues(cs: Seq<ClassV>, infos: Seq<InfoV>, names: Seq<Seq<char>>) -> Seq<DiagV>
    decreases cs.len(),
{
    if cs.len() == 0 {
        Seq::empty()
    } else {
        ordering_issues(cs.drop_last(), infos, names) + class_ordering(
            cs.last(),
            cs.last().generic_params.len() as int,
            infos,
            names,
        )
    }
}

fn copy_chars(v: &Vec<char>) -> (r: Vec<char>)
    ensures
        r@ == v@,
{
    let r = slice_of(v.as_slice(), 0, v.len());
    proof {
        assert(r@ =~= v@);
    }
    r
}

fn copy_names(v: &Vec<Vec<char>>) -> (r: Vec<Vec<char>>)
    ensures
        views(r@) == views(v@),
{
    let mut out: Vec<Vec<char>> = Vec::new();
    let mut i: usize = 0;
    while i < v.len()
        invariant
            i <= v@.len(),
            views(out@) == views(v@).take(i as int),
        decreases v.len() - i,
    {
        let ghost before = views(out@);
        out.push(copy_chars(&v[i]));
        proof {
            assert(views(out@) =~= before.push(v@[i as int]@));
            assert(views(v@)[i as int] == v@[i as int]@);
            assert(views(out@) =~= views(v@).take(i + 1));
        }
        i += 1;
    }
    proof {
        assert(views(v@).take(i as int) =~= views(v@));
    }
    out
}

/// Reports type variables whose default refers to a type variable that comes later in `Generic[...]` or is not listed there.
pub fn check_ordering(
    classes: &Vec<GenericClass>,
    infos: &Vec<TypeVarInfo>,
    typevar_names: &Vec<Vec<char>>,
    diagnostics: &mut Vec<DefaultDiagnostic>,
)
    ensures
        diags_view(final(diagnostics)@) == diags_view(old(diagnostics)@) + ordering_issues(
            classes_view(classes@),
            infos_view(infos@),
            views(typevar_names@),
        ),
{
    let ghost cs = classes_view(classes@);
    let ghost iv = infos_view(infos@);
    let ghost nv = views(typevar_names@);
    let ghost d0 = diags_view(diagnostics@);
    let mut ci: usize = 0;
    proof {
        assert(cs.take(0) =~= Seq::<ClassV>::empty());
        assert(d0 + ordering_issues(cs.take(0), iv, nv) =~= d0);
    }
    while ci < classes.len()
        invariant
            ci <= classes@.len(),
            cs == classes_view(classes@),
            iv == infos_view(infos@),
            nv == views(typevar_names@),
            d0 == diags_view(old(diagnostics)@),
            diags_view(diagnostics@) == d0 + ordering_issues(cs.take(ci as int), iv, nv),
        decreases classes.len() - ci,
    {
        let c = &classes[ci];
        let ghost cv = class_view(*c);
        proof {
            assert(cs.take(ci + 1).drop_last() =~= cs.take(ci as int));
            assert(cs.take(ci + 1).last() == cv);
        }
        let ghost mid = diags_view(diagnostics@);
        let mut idx: usize = 0;
        while idx < c.generic_params.len()
            invariant
                idx <= c.generic_params@.len(),
                cv == class_view(*c),
                iv == infos_view(infos@),
                nv == views(typevar_names@),
                diags_view(diagnostics@) == mid + class_ordering(cv, idx as int, iv, nv),
            decreases c.generic_params.len() - idx,
        {
            let ghost before = diags_view(diagnostics@);
            proof {
                assert(cv.generic_params[idx as int] == c.generic_params@[idx as int]@);
            }
            let p = c.generic_params[idx].as_slice();
            match last_info_exec(infos, p) {
                None => {},
                Some(ii) => match &infos[ii].default_typevar_name {
                    None => {},
                    Some(d) => {
                        if crate::names::contains_name(typevar_names, d.as_slice()) {
                            let mut pos: usize = 0;
                            let mut found = false;
                            while pos < c.generic_params.len()
                                invariant
                                    pos <= c.generic_params@.len(),
                                    cv == class_view(*c),
                                    found ==> pos < c.generic_params@.len() && cv.generic_params[pos as int] == d@,
                                    forall|q: int| 0 <= q < pos ==> cv.generic_params[q] != d@,
                                ensures
                                    !found ==> pos >= c.generic_params@.len(),
                                    found ==> pos < c.generic_params@.len() && cv.generic_params[pos as int] == d@,
                                    forall|q: int| 0 <= q < pos ==> cv.generic_params[q] != d@,
                                decreases c.generic_params.len() - pos,
                            {
                                proof {
                                    assert(cv.generic_params[pos as int] == c.generic_params@[pos as int]@);
                                }
                                if eq_chars(c.generic_params[pos].as_slice(), d.as_slice()) {
                                    found = true;
                                    break;
                                }
                                pos += 1;
                            }
                            let violation = !found || pos > idx;
                            proof {
                                let ok = exists|x: int| 0 <= x <= idx && cv.generic_params[x] == d@ && forall|q: int|
                                    0 <= q < x ==> cv.generic_params[q] != d@;
                                if found && pos <= idx {
                                    assert(cv.generic_params[pos as int] == d@);
                                    assert(ok);
                                } else {
                                    if ok {
                                        let x = choose|x: int| 0 <= x <= idx && cv.generic_params[x] == d@ && forall|q: int|
                                            0 <= q < x ==> cv.generic_params[q] != d@;
                                        if found {
                                            assert(cv.generic_params[pos as int] == d@);
                                            assert(x <= pos);
                                        }
                                        assert(false);
                                    }
                                }
                            }
                            if violation {
                                let d2 = DefaultDiagnostic {
                                    issue: DefaultIssue::Misordered {
                                        param: copy_chars(&c.generic_params[idx]),
                                        default: copy_chars(d),
                                        class_name: copy_chars(&c.name),
                                    },
                                    span: c.name_span,
                                };
                                diagnostics.push(d2);
                                proof {
                                    assert(diags_view(diagnostics@) =~= before.push(diag_view(d2)));
                                }
                            }
                        }
                    },
                },
            }
            proof {
                assert(diags_view(diagnostics@) =~= mid + class_ordering(cv, idx + 1, iv, nv));
            }
            idx += 1;
        }
        proof {
            assert(diags_view(diagnostics@) =~= d0 + ordering_issues(cs.take(ci + 1), iv, nv));
        }
        ci += 1;
    }
    proof {
        assert(cs.take(ci as int) =~= cs);
    }
}

// ---------------------------------------------------------------------------
// Enclosing class scope
// ---------------------------------------------------------------------------

/// `name` is a type parameter of some class.
pub open spec fn is_class_param(cs: Seq<ClassV>, name: Seq<char>) -> bool {
    exists|i: int, j: int|
        0 <= i < cs.len() && 0 <= j < cs[i].generic_params.len() && #[trigger] cs[i].generic_params[j] == name
}

/// The trimmed pieces between the commas of a line's first `Generic[...]`.
pub open spec fn nested_params(t: Seq<char>) -> Option<Seq<Seq<char>>> {
    match crate::text::find_str(t, "Generic["@) {
        None => None,
        Some(g) => {
            let after = t.skip(g + 8);
            match find_char(after, ']') {
                None => None,
                Some(b) => Some(crate::text::trim_all(crate::text::split_char(after.take(b), ','))),
            }
        },
    }
}

pub open spec fn outer_param_issues(
    ns: Seq<Seq<char>>,
    k: int,
    infos: Seq<InfoV>,
    names: Seq<Seq<char>>,
    cs: Seq<ClassV>,
    span: (nat, nat),
) -> Seq<DiagV>
    decreases k,
{
    if k <= 0 {
        Seq::empty()
    } else {
        let np = ns[k - 1];
        let here = match last_info(infos, np) {
            Some(info) => match info.default_typevar_name {
                Some(d) => if names.contains(d) && !ns.contains(d) && is_class_param(cs, d) {
                    seq![DiagV { issue: IssueV::OuterScope { param: np, default: d }, span }]
                } else {
                    Seq::empty()
                },
                None => Seq::empty(),
            },
            None => Seq::empty(),
        };
        outer_param_issues(ns, k - 1, infos, names, cs, span) + here
    }
}

/// The findings from line `k` on, `inside` telling whether a top-level class
/// body is open.
pub open spec fn outer_from(
    ls: Seq<Seq<char>>,
    k: int,
    inside: bool,
    infos: Seq<InfoV>,
    names: Seq<Seq<char>>,
    cs: Seq<ClassV>,
) -> Seq<DiagV>
    decreases ls.len() - k,
{
    if k < 0 || k >= ls.len() {
        Seq::empty()
    } else {
        let line = ls[k];
        let t = trim(line);
        let ind = crate::position::indent_of(line);
        if starts_with(t, "class "@) && ind == 0 {
            outer_from(ls, k + 1, true, infos, names, cs)
        } else {
            let here = if inside && ind > 0 && starts_with(t, "class "@) {
                match nested_params(t) {
                    Some(ns) => outer_param_issues(
                        ns,
                        ns.len() as int,
                        infos,
                        names,
                        cs,
                        (line_sum(ls, k), line_sum(ls, k) + utf8_len(line)),
                    ),
                    None => Seq::empty(),
                }
            } else {
                Seq::empty()
            };
            let inside2 = if inside && ind == 0 && t.len() > 0 && t[0] != '#' {
                false
            } else {
                inside
            };
            here + outer_from(ls, k + 1, inside2, infos, names, cs)
        }
    }
}

fn is_class_param_exec(classes: &Vec<GenericClass>, name: &[char]) -> (r: bool)
    ensures
        r == is_class_param(classes_view(classes@), name@),
{
    let ghost cs = classes_view(classes@);
    let mut i: usize = 0;
    while i < classes.len()
        invariant
            i <= classes@.len(),
            cs == classes_view(classes@),
            forall|a: int, b: int|
                0 <= a < i && 0 <= b < cs[a].generic_params.len() ==> cs[a].generic_params[b] != name@,
        decreases classes.len() - i,
    {
        let ghost cv = cs[i as int];
        proof {
            assert(cv == class_view(classes@[i as int]));
        }
        let mut j: usize = 0;
        while j < classes[i].generic_params.len()
            invariant
                j <= classes@[i as int].generic_params@.len(),
                i < classes@.len(),
                cs == classes_view(classes@),
                cv == cs[i as int],
                cv == class_view(classes@[i as int]),
                forall|b: int| 0 <= b < j ==> cv.generic_params[b] != name@,
            decreases classes@[i as int].generic_params@.len() - j,
        {
            proof {
                assert(cv.generic_params[j as int] == classes@[i as int].generic_params@[j as int]@);
            }
            if eq_chars(classes[i].generic_params[j].as_slice(), name) {
                proof {
                    assert(cs[i as int].generic_params[j as int] == name@);
                }
                return true;
            }
            j += 1;
        }
        i += 1;
    }
    false
}

fn nested_params_exec(t: &[char]) -> (r: Option<Vec<Vec<char>>>)
    ensures
        match r {
            Some(v) => nested_params(t@) == Some(views(v@)),
            None => nested_params(t@) is None,
        },
{
    let g = match crate::text::find_lit(t, "Generic[") {
        Some(g) => g,
        None => return None,
    };
    proof {
        crate::text::lemma_find_str(t@, "Generic["@);
        reveal_strlit("Generic[");
        assert(crate::text::matches_at(t@, g as int, "Generic["@));
    }
    let n = t.len();
    let after = slice_of(t, g + 8, n);
    proof {
        assert(after@ =~= t@.skip(g + 8));
        lemma_find_char(after@, ']');
    }
    let b = match find_char_exec(after.as_slice(), ']') {
        Some(b) => b,
        None => return None,
    };
    let head = slice_of(after.as_slice(), 0, b);
    proof {
        assert(head@ =~= after@.take(b as int));
    }
    let parts = crate::text::split_char_exec(head.as_slice(), ',');
    Some(crate::text::trim_all_exec(&parts))
}

/// Reports classes nested in a generic class whose type-variable defaults refer to the outer class's type variables.
pub fn check_outer_scope(
    source: &[char],
    classes: &Vec<GenericClass>,
    infos: &Vec<TypeVarInfo>,
    typevar_names: &Vec<Vec<char>>,
    diagnostics: &mut Vec<DefaultDiagnostic>,
)
    requires
        utf8_len(source@) <= u32::MAX,
    ensures
        diags_view(final(diagnostics)@) == diags_view(old(diagnostics)@) + outer_from(
            crate::text::lines(source@),
            0,
            false,
            infos_view(infos@),
            views(typevar_names@),
            classes_view(classes@),
        ),
{
    let lines = crate::text::lines_exec(source);
    let ghost ls = views(lines@);
    let ghost iv = infos_view(infos@);
    let ghost nv = views(typevar_names@);
    let ghost cs = classes_view(classes@);
    let ghost d0 = diags_view(diagnostics@);
    proof {
        crate::position::lemma_line_sum_bound(source@);
        crate::position::lemma_lines_utf8_len(source@);
    }
    let mut inside_class = false;
    let mut off: u64 = 0;
    let mut k: usize = 0;
    proof {
        assert(d0 + outer_from(ls, 0, false, iv, nv, cs) =~= diags_view(diagnostics@) + outer_from(
            ls,
            k as int,
            inside_class,
            iv,
            nv,
            cs,
        ));
    }
    while k < lines.len()
        invariant
            k <= lines@.len(),
            ls == views(lines@),
            ls == crate::text::lines(source@),
            iv == infos_view(infos@),
            nv == views(typevar_names@),
            cs == classes_view(classes@),
            d0 == diags_view(old(diagnostics)@),
            utf8_len(source@) <= u32::MAX,
            off == line_sum(ls, k as int),
            forall|q: int| 0 <= q < ls.len() ==> line_sum(ls, q) + utf8_len(#[trigger] ls[q]) <= utf8_len(source@),
            forall|q: int| 0 <= q < ls.len() ==> utf8_len(#[trigger] ls[q]) <= utf8_len(source@),
            d0 + outer_from(ls, 0, false, iv, nv, cs) == diags_view(diagnostics@) + outer_from(
                ls,
                k as int,
                inside_class,
                iv,
                nv,
                cs,
            ),
        decreases lines.len() - k,
    {
        proof {
            assert(ls[k as int] == lines@[k as int]@);
            assert(line_sum(ls, k as int) + utf8_len(ls[k as int]) <= utf8_len(source@));
            crate::position::lemma_line_sum_step(ls, k as int);
        }
        let line = lines[k].as_slice();
        let t = trim_chars(line);
        let indent = crate::position::leading_indent(line);
        let line_len = crate::position::utf8_len_prefix(line, line.len());
        proof {
            assert(line@.take(line@.len() as int) =~= line@);
        }
        let ghost before = diags_view(diagnostics@);
        let ghost st_in = inside_class;
        if starts_with_lit(t.as_slice(), "class ") && indent == 0 {
            inside_class = true;
            off = off + line_len as u64 + 1;
            k += 1;
            continue;
        }
        if inside_class && indent > 0 && starts_with_lit(t.as_slice(), "class ") {
            match nested_params_exec(t.as_slice()) {
                None => {},
                Some(ns) => {
                    let ghost nsv = views(ns@);
                    let start: u32 = off as u32;
                    let end: u32 = start + line_len as u32;
                    let ghost sp = (line_sum(ls, k as int), line_sum(ls, k as int) + utf8_len(line@));
                    let ghost mid = diags_view(diagnostics@);
                    let mut q: usize = 0;
                    while q < ns.len()
                        invariant
                            q <= ns@.len(),
                            nsv == views(ns@),
                            iv == infos_view(infos@),
                            nv == views(typevar_names@),
                            cs == classes_view(classes@),
                            sp == (start as nat, end as nat),
                            diags_view(diagnostics@) == mid + outer_param_issues(nsv, q as int, iv, nv, cs, sp),
                        decreases ns.len() - q,
                    {
                        proof {
                            assert(nsv[q as int] == ns@[q as int]@);
                        }
                        let ghost b2 = diags_view(diagnostics@);
                        let np = ns[q].as_slice();
                        match last_info_exec(infos, np) {
                            None => {},
                            Some(ii) => match &infos[ii].default_typevar_name {
                                None => {},
                                Some(d) => {
                                    if crate::names::contains_name(typevar_names, d.as_slice())
                                        && !crate::names::contains_name(&ns, d.as_slice())
                                        && is_class_param_exec(classes, d.as_slice()) {
                                        let dd = DefaultDiagnostic {
                                            issue: DefaultIssue::OuterScope {
                                                param: copy_chars(&ns[q]),
                                                default: copy_chars(d),
                                            },
                                            span: Span { start, end },
                                        };
                                        diagnostics.push(dd);
                                        proof {
                                            assert(diags_view(diagnostics@) =~= b2.push(diag_view(dd)));
                                        }
                                    }
                                },
                            },
                        }
                        proof {
                            assert(diags_view(diagnostics@) =~= mid + outer_param_issues(nsv, q + 1, iv, nv, cs, sp));
                        }
                        q += 1;
                    }
                },
            }
        }
        if inside_class && indent == 0 && t.len() > 0 && t[0] != '#' {
            inside_class = false;
        }
        proof {
            assert(diags_view(diagnostics@) + outer_from(ls, k + 1, inside_class, iv, nv, cs) =~= before
                + outer_from(ls, k as int, st_in, iv, nv, cs));
        }
        off = off + line_len as u64 + 1;
        k += 1;
    }
    proof {
        assert(diags_view(diagnostics@) + Seq::<DiagV>::empty() =~= diags_view(diagnostics@));
    }
}

// ---------------------------------------------------------------------------
// Bounds and constraints
// ---------------------------------------------------------------------------

pub open spec fn site_view(v: Seq<TypeVarSite>) -> Seq<(Seq<char>, (nat, nat))> {
    v.map_values(|t: TypeVarSite| (t.name@, (t.span.start as nat, t.span.end as nat)))
}

/// Where the last `TypeVar(...)` call of `name` is.
pub open spec fn last_site(sites: Seq<(Seq<char>, (nat, nat))>, name: Seq<char>) -> Option<(nat, nat)>
    decreases sites.len(),
{
    if sites.len() == 0 {
        None
    } else if sites.last().0 == name {
        Some(sites.last().1)
    } else {
        last_site(sites.drop_last(), name)
    }
}

fn last_site_exec(sites: &Vec<TypeVarSite>, name: &[char]) -> (r: Option<Span>)
    ensures
        match r {
            Some(sp) => last_site(site_view(sites@), name@) == Some((sp.start as nat, sp.end as nat)),
            None => last_site(site_view(sites@), name@) is None,
        },
{
    let ghost sv = site_view(sites@);
    let mut k: usize = sites.len();
    proof {
        assert(sv.take(k as int) =~= sv);
    }
    while k > 0
        invariant
            k <= sites@.len(),
            sv == site_view(sites@),
            last_site(sv, name@) == last_site(sv.take(k as int), name@),
        decreases k,
    {
        proof {
            assert(sv.take(k as int).drop_last() =~= sv.take(k - 1));
        }
        if eq_chars(sites[k - 1].name.as_slice(), name) {
            return Some(sites[k - 1].span);
        }
        k -= 1;
    }
    None
}

/// The findings for one declaration whose default names another type
/// variable.
pub open spec fn compat_issues(
    info: InfoV,
    infos: Seq<InfoV>,
    names: Seq<Seq<char>>,
    sites: Seq<(Seq<char>, (nat, nat))>,
) -> Seq<DiagV> {
    match info.default_typevar_name {
        None => Seq::empty(),
        Some(d) => if !names.contains(d) {
            Seq::empty()
        } else {
            match last_info(infos, d) {
                None => Seq::empty(),
                Some(r) => match last_site(sites, info.name) {
                    None => Seq::empty(),
                    Some(sp) => {
                        let bound_part = match (info.bound_name, r.bound_name) {
                            (Some(b), Some(rb)) => if !numeric_subtype(rb, b) {
                                seq![
                                    DiagV {
                                        issue: IssueV::BoundNotSubtype {
                                            name: info.name,
                                            default: d,
                                            default_bound: rb,
                                            bound: b,
                                        },
                                        span: sp,
                                    },
                                ]
                            } else {
                                Seq::empty()
                            },
                            _ => Seq::empty(),
                        };
                        let cons_part = if info.constraint_names.len() > 0 {
                            (match r.bound_name {
                                Some(rb) => if !info.constraint_names.contains(rb) {
                                    seq![
                                        DiagV {
                                            issue: IssueV::BoundVsConstraints {
                                                name: info.name,
                                                default: d,
                                                default_bound: rb,
                                                constraints: info.constraint_names,
                                            },
                                            span: sp,
                                        },
                                    ]
                                } else {
                                    Seq::empty()
                                },
                                None => Seq::empty(),
                            }) + if r.constraint_names.len() > 0 && !(forall|i: int|
                                0 <= i < r.constraint_names.len() ==> info.constraint_names.contains(
                                    #[trigger] r.constraint_names[i],
                                )) {
                                seq![
                                    DiagV {
                                        issue: IssueV::ConstraintsNotSuperset {
                                            name: info.name,
                                            constraints: info.constraint_names,
                                            default: d,
                                            default_constraints: r.constraint_names,
                                        },
                                        span: sp,
                                    },
                                ]
                            } else {
                                Seq::<DiagV>::empty()
                            }
                        } else {
                            Seq::empty()
                        };
                        bound_part + cons_part
                    },
                },
            }
        },
    }
}

pub open spec fn compat_upto(
    infos: Seq<InfoV>,
    k: int,
    names: Seq<Seq<char>>,
    sites: Seq<(Seq<char>, (nat, nat))>,
) -> Seq<DiagV>
    decreases k,
{
    if k <= 0 {
        Seq::empty()
    } else {
        compat_upto(infos, k - 1, names, sites) + compat_issues(infos[k - 1], infos, names, sites)
    }
}

/// Every name of `sub` is in `sup`.
fn all_contained(sub: &Vec<Vec<char>>, sup: &Vec<Vec<char>>) -> (r: bool)
    ensures
        r == (forall|i: int| 0 <= i < sub@.len() ==> views(sup@).contains(#[trigger] views(sub@)[i])),
{
    let mut i: usize = 0;
    while i < sub.len()
        invariant
            i <= sub@.len(),
            forall|j: int| 0 <= j < i ==> views(sup@).contains(#[trigger] views(sub@)[j]),
        decreases sub.len() - i,
    {
        proof {
            assert(views(sub@)[i as int] == sub@[i as int]@);
        }
        if !crate::names::contains_name(sup, sub[i].as_slice()) {
            return false;
        }
        i += 1;
    }
    true
}

/// Reports a type variable defaulting to another whose bound or constraints it does not admit.
pub fn check_bound_constraint_compat(
    infos: &Vec<TypeVarInfo>,
    sites: &Vec<TypeVarSite>,
    typevar_names: &Vec<Vec<char>>,
    diagnostics: &mut Vec<DefaultDiagnostic>,
)
    ensures
        diags_view(final(diagnostics)@) == diags_view(old(diagnostics)@) + compat_upto(
            infos_view(infos@),
            infos@.len() as int,
            views(typevar_names@),
            site_view(sites@),
        ),
{
    let ghost iv = infos_view(infos@);
    let ghost nv = views(typevar_names@);
    let ghost sv = site_view(sites@);
    let ghost d0 = diags_view(diagnostics@);
    let mut k: usize = 0;
    proof {
        assert(d0 + Seq::<DiagV>::empty() =~= d0);
    }
    while k < infos.len()
        invariant
            k <= infos@.len(),
            iv == infos_view(infos@),
            nv == views(typevar_names@),
            sv == site_view(sites@),
            d0 == diags_view(old(diagnostics)@),
            diags_view(diagnostics@) == d0 + compat_upto(iv, k as int, nv, sv),
        decreases infos.len() - k,
    {
        let info = &infos[k];
        let ghost i0 = info_view(*info);
        proof {
            assert(iv[k as int] == i0);
        }
        let ghost before = diags_view(diagnostics@);
        match &info.default_typevar_name {
            None => {},
            Some(d) => {
                if crate::names::contains_name(typevar_names, d.as_slice()) {
                    match last_info_exec(infos, d.as_slice()) {
                        None => {},
                        Some(ri) => {
                            let r = &infos[ri];
                            match last_site_exec(sites, info.name.as_slice()) {
                                None => {},
                                Some(sp) => {
                                    match (&info.bound_name, &r.bound_name) {
                                        (Some(b), Some(rb)) => {
                                            if !crate::variance::is_numeric_subtype(rb.as_slice(), b.as_slice()) {
                                                let dd = DefaultDiagnostic {
                                                    issue: DefaultIssue::BoundNotSubtype {
                                                        name: copy_chars(&info.name),
                                                        default: copy_chars(d),
                                                        default_bound: copy_chars(rb),
                                                        bound: copy_chars(b),
                                                    },
                                                    span: sp,
                                                };
                                                let ghost b1 = diags_view(diagnostics@);
                                                diagnostics.push(dd);
                                                proof {
                                                    assert(diags_view(diagnostics@) =~= b1.push(diag_view(dd)));
                                                }
                                            }
                                        },
                                        _ => {},
                                    }
                                    if info.constraint_names.len() > 0 {
                                        match &r.bound_name {
                                            Some(rb) => {
                                                if !crate::names::contains_name(&info.constraint_names, rb.as_slice()) {
                                                    let dd = DefaultDiagnostic {
                                                        issue: DefaultIssue::BoundVsConstraints {
                                                            name: copy_chars(&info.name),
                                                            default: copy_chars(d),
                                                            default_bound: copy_chars(rb),
                                                            constraints: copy_names(&info.constraint_names),
                                                        },
                                                        span: sp,
                                                    };
                                                    let ghost b1 = diags_view(diagnostics@);
                                                    diagnostics.push(dd);
                                                    proof {
                                                        assert(diags_view(diagnostics@) =~= b1.push(diag_view(dd)));
                                                    }
                                                }
                                            },
                                            None => {},
                                        }
                                        if r.constraint_names.len() > 0 && !all_contained(
                                            &r.constraint_names,
                                            &info.constraint_names,
                                        ) {
                                            let dd = DefaultDiagnostic {
                                                issue: DefaultIssue::ConstraintsNotSuperset {
                                                    name: copy_chars(&info.name),
                                                    constraints: copy_names(&info.constraint_names),
                                                    default: copy_chars(d),
                                                    default_constraints: copy_names(&r.constraint_names),
                                                },
                                                span: sp,
                                            };
                                            let ghost b1 = diags_view(diagnostics@);
                                            diagnostics.push(dd);
                                            proof {
                                                assert(diags_view(diagnostics@) =~= b1.push(diag_view(dd)));
                                            }
                                        }
                                    }
                                },
                            }
                        },
                    }
                }
            },
        }
        proof {
            assert(diags_view(diagnostics@) =~= before + compat_issues(i0, iv, nv, sv));
        }
        k += 1;
    }
}

// ---------------------------------------------------------------------------
// Subscripted class calls
// ---------------------------------------------------------------------------

pub struct ParamV {
    pub name: Seq<char>,
    pub annotation: Option<Seq<char>>,
}

pub open spec fn param_view(p: ParamAnnotation) -> ParamV {
    ParamV { name: p.name@, annotation: opt_view(p.annotation) }
}

/// The parameters other than `self`.
pub open spec fn non_self(ps: Seq<ParamAnnotation>) -> Seq<ParamV>
    decreases ps.len(),
{
    if ps.len() == 0 {
        Seq::empty()
    } else {
        non_self(ps.drop_last()) + if ps.last().name@ == "self"@ {
            Seq::<ParamV>::empty()
        } else {
            seq![param_view(ps.last())]
        }
    }
}

pub open spec fn inits_view(v: Seq<InitMethod>) -> Seq<(Seq<char>, Seq<ParamV>)> {
    v.map_values(|m: InitMethod| (m.class_name@, non_self(m.params@)))
}

/// The parameters (without `self`) of the last `__init__` of class `name`.
pub open spec fn last_init(inits: Seq<(Seq<char>, Seq<ParamV>)>, name: Seq<char>) -> Option<Seq<ParamV>>
    decreases inits.len(),
{
    if inits.len() == 0 {
        None
    } else if inits.last().0 == name {
        Some(inits.last().1)
    } else {
        last_init(inits.drop_last(), name)
    }
}

/// The class at `i` is the last with its name (the one a name lookup finds).
pub open spec fn last_of_name(cs: Seq<ClassV>, i: int) -> bool {
    forall|j: int| i < j < cs.len() ==> cs[j].name != cs[i].name
}

/// `Name[type args](call args)` found in a line for the class named `name`:
/// the type arguments' text and the call arguments' text.
pub open spec fn subscripted_call(t: Seq<char>, name: Seq<char>) -> Option<(Seq<char>, Seq<char>)> {
    let pat = name.push('[');
    match crate::text::find_str(t, pat) {
        None => None,
        Some(st) => {
            let after = t.skip(st + pat.len());
            match first_where(closes_oc(after, '[', ']'), after.len() as int) {
                None => None,
                Some(be) => {
                    let ab = after.skip(be + 1);
                    if !starts_with(ab, "("@) {
                        None
                    } else {
                        let call = ab.skip(1);
                        match first_where(closes_oc(call, '(', ')'), call.len() as int) {
                            None => None,
                            Some(pe) => Some((after.take(be), call.take(pe))),
                        }
                    }
                },
            }
        },
    }
}

/// The findings for the first `k` call arguments (stopping where the
/// parameters end).
pub open spec fn arg_issues(
    class_name: Seq<char>,
    targs: Seq<char>,
    args: Seq<Seq<char>>,
    ps: Seq<ParamV>,
    resolved: Seq<(Seq<char>, Seq<char>)>,
    k: int,
    span: (nat, nat),
) -> Seq<DiagV>
    decreases k,
{
    if k <= 0 {
        Seq::empty()
    } else {
        let i = k - 1;
        arg_issues(class_name, targs, args, ps, resolved, k - 1, span) + if i < ps.len() {
            match ps[i].annotation {
                None => Seq::empty(),
                Some(ann) => {
                    let rt = match assoc_get(resolved, ann) {
                        Some(t) => t,
                        None => ann,
                    };
                    match literal_mismatch(trim(args[i]), rt) {
                        Some(mm) => seq![
                            DiagV {
                                issue: IssueV::LiteralArg {
                                    class_name,
                                    type_args: targs,
                                    param: ps[i].name,
                                    expected: rt,
                                    mismatch: mm,
                                },
                                span,
                            },
                        ],
                        None => Seq::empty(),
                    }
                },
            }
        } else {
            Seq::<DiagV>::empty()
        }
    }
}

/// The findings of a trimmed line for class `c`.
pub open spec fn class_call_issues(
    t: Seq<char>,
    c: ClassV,
    infos: Seq<InfoV>,
    inits: Seq<(Seq<char>, Seq<ParamV>)>,
    span: (nat, nat),
) -> Seq<DiagV> {
    if c.generic_params.len() == 0 {
        Seq::empty()
    } else {
        match subscripted_call(t, c.name) {
            None => Seq::empty(),
            Some(sc) => {
                let targs = crate::text::trim_all(top_params(sc.0));
                let resolved = resolved_params(c.generic_params, targs, infos);
                match last_init(inits, c.name) {
                    None => Seq::empty(),
                    Some(ps) => {
                        let args = top_params(sc.1);
                        arg_issues(c.name, sc.0, args, ps, resolved, args.len() as int, span)
                    },
                }
            },
        }
    }
}

pub open spec fn line_call_issues(
    t: Seq<char>,
    cs: Seq<ClassV>,
    k: int,
    infos: Seq<InfoV>,
    inits: Seq<(Seq<char>, Seq<ParamV>)>,
    span: (nat, nat),
) -> Seq<DiagV>
    decreases k,
{
    if k <= 0 {
        Seq::empty()
    } else {
        line_call_issues(t, cs, k - 1, infos, inits, span) + if last_of_name(cs, k - 1) {
            class_call_issues(t, cs[k - 1], infos, inits, span)
        } else {
            Seq::<DiagV>::empty()
        }
    }
}

/// The findings of the lines from `k` on; blank lines and comments are
/// skipped.
pub open spec fn calls_from(
    ls: Seq<Seq<char>>,
    k: int,
    cs: Seq<ClassV>,
    infos: Seq<InfoV>,
    inits: Seq<(Seq<char>, Seq<ParamV>)>,
) -> Seq<DiagV>
    decreases ls.len() - k,
{
    if k < 0 || k >= ls.len() {
        Seq::empty()
    } else {
        let t = trim(ls[k]);
        let here = if t.len() == 0 || t[0] == '#' {
            Seq::empty()
        } else {
            line_call_issues(t, cs, cs.len() as int, infos, inits, (line_sum(ls, k), line_sum(ls, k) + utf8_len(ls[k])))
        };
        here + calls_from(ls, k + 1, cs, infos, inits)
    }
}

fn last_init_exec(inits: &Vec<InitMethod>, name: &[char]) -> (r: Option<usize>)
    ensures
        match r {
            Some(i) => i < inits@.len() && last_init(inits_view(inits@), name@) == Some(non_self(inits@[i as int].params@)),
            None => last_init(inits_view(inits@), name@) is None,
        },
{
    let ghost v = inits_view(inits@);
    let mut k: usize = inits.len();
    proof {
        assert(v.take(k as int) =~= v);
    }
    while k > 0
        invariant
            k <= inits@.len(),
            v == inits_view(inits@),
            last_init(v, name@) == last_init(v.take(k as int), name@),
        decreases k,
    {
        proof {
            assert(v.take(k as int).drop_last() =~= v.take(k - 1));
        }
        if eq_chars(inits[k - 1].class_name.as_slice(), name) {
            return Some(k - 1);
        }
        k -= 1;
    }
    None
}

fn non_self_exec(ps: &Vec<ParamAnnotation>) -> (r: Vec<usize>)
    ensures
        forall|i: int| 0 <= i < r@.len() ==> #[trigger] r@[i] < ps@.len(),
        r@.map_values(|i: usize| param_view(ps@[i as int])) == non_self(ps@),
{
    let mut out: Vec<usize> = Vec::new();
    let mut i: usize = 0;
    while i < ps.len()
        invariant
            i <= ps@.len(),
            forall|j: int| 0 <= j < out@.len() ==> #[trigger] out@[j] < ps@.len(),
            out@.map_values(|x: usize| param_view(ps@[x as int])) == non_self(ps@.take(i as int)),
        decreases ps.len() - i,
    {
        proof {
            assert(ps@.take(i + 1).drop_last() =~= ps@.take(i as int));
        }
        let ghost before = out@.map_values(|x: usize| param_view(ps@[x as int]));
        if !eq_str(ps[i].name.as_slice(), "self") {
            out.push(i);
            proof {
                assert(out@.map_values(|x: usize| param_view(ps@[x as int])) =~= before + seq![param_view(ps@[i as int])]);
            }
        } else {
            proof {
                assert(out@.map_values(|x: usize| param_view(ps@[x as int])) =~= before + Seq::<ParamV>::empty());
            }
        }
        i += 1;
    }
    proof {
        assert(ps@.take(i as int) =~= ps@);
    }
    out
}

fn subscripted_call_exec(t: &[char], name: &[char]) -> (r: Option<(Vec<char>, Vec<char>)>)
    ensures
        match r {
            Some((a, b)) => subscripted_call(t@, name@) == Some((a@, b@)),
            None => subscripted_call(t@, name@) is None,
        },
{
    let mut pat = copy_chars(&slice_of(name, 0, name.len()));
    pat.push('[');
    proof {
        assert(pat@ =~= name@.push('['));
    }
    let st = match crate::text::find_str_exec(t, pat.as_slice()) {
        Some(st) => st,
        None => return None,
    };
    proof {
        crate::text::lemma_find_str(t@, pat@);
    }
    let n = t.len();
    let after = slice_of(t, st + pat.len(), n);
    proof {
        assert(after@ =~= t@.skip(st + pat@.len()));
    }
    let be = match find_matching_bracket(after.as_slice(), '[', ']') {
        Some(be) => be,
        None => return None,
    };
    proof {
        lemma_first_where_some(closes_oc(after@, '[', ']'), after@.len() as int);
    }
    let an = after.len();
    let ab = slice_of(after.as_slice(), be + 1, an);
    proof {
        assert(ab@ =~= after@.skip(be + 1));
    }
    if !starts_with_lit(ab.as_slice(), "(") {
        return None;
    }
    proof {
        reveal_strlit("(");
    }
    let abn = ab.len();
    let call = slice_of(ab.as_slice(), 1, abn);
    proof {
        assert(call@ =~= ab@.skip(1));
    }
    let pe = match find_matching_bracket(call.as_slice(), '(', ')') {
        Some(pe) => pe,
        None => return None,
    };
    proof {
        lemma_first_where_some(closes_oc(call@, '(', ')'), call@.len() as int);
    }
    let targs = slice_of(after.as_slice(), 0, be);
    let cargs = slice_of(call.as_slice(), 0, pe);
    proof {
        assert(targs@ =~= after@.take(be as int));
        assert(cargs@ =~= call@.take(pe as int));
    }
    Some((targs, cargs))
}

fn class_is_last_of_name(classes: &Vec<GenericClass>, i: usize) -> (r: bool)
    requires
        i < classes@.len(),
    ensures
        r == last_of_name(classes_view(classes@), i as int),
{
    let ghost cs = classes_view(classes@);
    let n = classes.len();
    let mut j: usize = i + 1;
    while j < classes.len()
        invariant
            i < j <= classes@.len(),
            cs == classes_view(classes@),
            forall|q: int| i < q < j ==> cs[q].name != cs[i as int].name,
        decreases classes.len() - j,
    {
        proof {
            assert(cs[j as int].name == classes@[j as int].name@);
            assert(cs[i as int].name == classes@[i as int].name@);
        }
        if eq_chars(classes[j].name.as_slice(), classes[i].name.as_slice()) {
            return false;
        }
        j += 1;
    }
    true
}

fn class_call_check(
    t: &[char],
    c: &GenericClass,
    infos: &Vec<TypeVarInfo>,
    inits: &Vec<InitMethod>,
    span: Span,
    diagnostics: &mut Vec<DefaultDiagnostic>,
)
    ensures
        diags_view(final(diagnostics)@) == diags_view(old(diagnostics)@) + class_call_issues(
            t@,
            class_view(*c),
            infos_view(infos@),
            inits_view(inits@),
            (span.start as nat, span.end as nat),
        ),
{
    let ghost d0 = diags_view(diagnostics@);
    proof {
        assert(d0 + Seq::<DiagV>::empty() =~= d0);
    }
    if c.generic_params.len() == 0 {
        return ;
    }
    let (targs_text, cargs_text) = match subscripted_call_exec(t, c.name.as_slice()) {
        Some(p) => p,
        None => return ,
    };
    let raw_targs = split_top_level_args(targs_text.as_slice());
    let targs = crate::text::trim_all_exec(&raw_targs);
    let resolved = resolve_generic_params(&c.generic_params, &targs, infos);
    let ii = match last_init_exec(inits, c.name.as_slice()) {
        Some(ii) => ii,
        None => return ,
    };
    let init = &inits[ii];
    let idxs = non_self_exec(&init.params);
    let ghost ps = non_self(init.params@);
    let args = split_top_level_args(cargs_text.as_slice());
    let ghost av = views(args@);
    let ghost rv = crate::generic_calls::pairs_view(resolved@);
    let ghost sp = (span.start as nat, span.end as nat);
    let mut ai: usize = 0;
    while ai < args.len()
        invariant
            ai <= args@.len(),
            av == views(args@),
            ps == idxs@.map_values(|x: usize| param_view(init.params@[x as int])),
            forall|j: int| 0 <= j < idxs@.len() ==> #[trigger] idxs@[j] < init.params@.len(),
            rv == crate::generic_calls::pairs_view(resolved@),
            sp == (span.start as nat, span.end as nat),
            d0 == diags_view(old(diagnostics)@),
            diags_view(diagnostics@) == d0 + arg_issues(class_view(*c).name, targs_text@, av, ps, rv, ai as int, sp),
        decreases args.len() - ai,
    {
        let ghost before = diags_view(diagnostics@);
        if ai < idxs.len() {
            let p = &init.params[idxs[ai]];
            proof {
                assert(ps[ai as int] == param_view(*p));
                assert(av[ai as int] == args@[ai as int]@);
            }
            match &p.annotation {
                None => {},
                Some(ann) => {
                    let rt = match pairs_get(&resolved, ann.as_slice()) {
                        Some(ri) => {
                            proof {
                                assert(rv[ri as int].1 == resolved@[ri as int].1@);
                            }
                            copy_chars(&resolved[ri].1)
                        },
                        None => copy_chars(ann),
                    };
                    let arg = trim_chars(args[ai].as_slice());
                    match literal_type_mismatch(arg.as_slice(), rt.as_slice()) {
                        None => {},
                        Some(mm) => {
                            let dd = DefaultDiagnostic {
                                issue: DefaultIssue::LiteralArg {
                                    class_name: copy_chars(&c.name),
                                    type_args: copy_chars(&targs_text),
                                    param: copy_chars(&p.name),
                                    expected: rt,
                                    mismatch: mm,
                                },
                                span,
                            };
                            diagnostics.push(dd);
                            proof {
                                assert(diags_view(diagnostics@) =~= before.push(diag_view(dd)));
                            }
                        },
                    }
                },
            }
        }
        proof {
            assert(diags_view(diagnostics@) =~= d0 + arg_issues(class_view(*c).name, targs_text@, av, ps, rv, ai + 1, sp));
        }
        ai += 1;
    }
}

/// Reports calls `C[args](...)` whose literal arguments do not fit `C.__init__` once the type arguments and defaults are resolved.
pub fn check_subscripted_class_calls(
    source: &[char],
    classes: &Vec<GenericClass>,
    infos: &Vec<TypeVarInfo>,
    inits: &Vec<InitMethod>,
    diagnostics: &mut Vec<DefaultDiagnostic>,
)
    requires
        utf8_len(source@) <= u32::MAX,
    ensures
        diags_view(final(diagnostics)@) == diags_view(old(diagnostics)@) + calls_from(
            crate::text::lines(source@),
            0,
            classes_view(classes@),
            infos_view(infos@),
            inits_view(inits@),
        ),
{
    let lines = crate::text::lines_exec(source);
    let ghost ls = views(lines@);
    let ghost cs = classes_view(classes@);
    let ghost iv = infos_view(infos@);
    let ghost inv = inits_view(inits@);
    let ghost d0 = diags_view(diagnostics@);
    proof {
        crate::position::lemma_line_sum_bound(source@);
    }
    let mut off: u64 = 0;
    let mut k: usize = 0;
    proof {
        assert(d0 + calls_from(ls, 0, cs, iv, inv) =~= diags_view(diagnostics@) + calls_from(ls, k as int, cs, iv, inv));
    }
    while k < lines.len()
        invariant
            k <= lines@.len(),
            ls == views(lines@),
            ls == crate::text::lines(source@),
            cs == classes_view(classes@),
            iv == infos_view(infos@),
            inv == inits_view(inits@),
            d0 == diags_view(old(diagnostics)@),
            utf8_len(source@) <= u32::MAX,
            off == line_sum(ls, k as int),
            forall|q: int| 0 <= q < ls.len() ==> line_sum(ls, q) + utf8_len(#[trigger] ls[q]) <= utf8_len(source@),
            d0 + calls_from(ls, 0, cs, iv, inv) == diags_view(diagnostics@) + calls_from(ls, k as int, cs, iv, inv),
        decreases lines.len() - k,
    {
        proof {
            assert(ls[k as int] == lines@[k as int]@);
            assert(line_sum(ls, k as int) + utf8_len(ls[k as int]) <= utf8_len(source@));
            crate::position::lemma_line_sum_step(ls, k as int);
            crate::position::lemma_utf8_len_bounds(ls[k as int]);
        }
        let line = lines[k].as_slice();
        let line_len = crate::position::utf8_len_prefix(line, line.len());
        proof {
            assert(line@.take(line@.len() as int) =~= line@);
        }
        let t = trim_chars(line);
        let ghost before = diags_view(diagnostics@);
        if !(t.len() == 0 || t[0] == '#') {
            let start: u32 = off as u32;
            let end: u32 = start + line_len as u32;
            let span = Span { start, end };
            let ghost sp = (line_sum(ls, k as int), line_sum(ls, k as int) + utf8_len(ls[k as int]));
            let mut ci: usize = 0;
            while ci < classes.len()
                invariant
                    ci <= classes@.len(),
                    cs == classes_view(classes@),
                    iv == infos_view(infos@),
                    inv == inits_view(inits@),
                    sp == (span.start as nat, span.end as nat),
                    diags_view(diagnostics@) == before + line_call_issues(t@, cs, ci as int, iv, inv, sp),
                decreases classes.len() - ci,
            {
                let ghost b2 = diags_view(diagnostics@);
                if class_is_last_of_name(classes, ci) {
                    class_call_check(t.as_slice(), &classes[ci], infos, inits, span, diagnostics);
                    proof {
                        assert(cs[ci as int] == class_view(classes@[ci as int]));
                    }
                }
                proof {
                    assert(diags_view(diagnostics@) =~= before + line_call_issues(t@, cs, ci + 1, iv, inv, sp));
                }
                ci += 1;
            }
        }
        proof {
            assert(diags_view(diagnostics@) + calls_from(ls, k + 1, cs, iv, inv) =~= before + calls_from(ls, k as int, cs, iv, inv));
        }
        off = off + line_len as u64 + 1;
        k += 1;
    }
    proof {
        assert(diags_view(diagnostics@) + Seq::<DiagV>::empty() =~= diags_view(diagnostics@));
    }
}

// ---------------------------------------------------------------------------
// The rule
// ---------------------------------------------------------------------------

/// All findings: order, enclosing scope, bounds and constraints, then literal
/// call arguments.
pub open spec fn default_report(
    source: Seq<char>,
    sites: Seq<(Seq<char>, (nat, nat))>,
    cs: Seq<ClassV>,
    inits: Seq<(Seq<char>, Seq<ParamV>)>,
) -> Seq<DiagV> {
    let names = sites.map_values(|s: (Seq<char>, (nat, nat))| s.0);
    let ls = crate::text::lines(source);
    let infos = typevar_infos(ls, names);
    ordering_issues(cs, infos, names) + outer_from(ls, 0, false, infos, names, cs) + compat_upto(
        infos,
        infos.len() as int,
        names,
        sites,
    ) + calls_from(ls, 0, cs, infos, inits)
}

/// Detects `TypeVar` defaults that break the rules for referring to other
/// type variables.
pub struct TypeVarDefaultReferential;

impl TypeVarDefaultReferential {
    /// Every finding for a module: its source, its `TypeVar(...)` calls, its
    /// classes and its `__init__` methods.
    pub fn check(
        &self,
        source: &[char],
        typevar_calls: &Vec<TypeVarSite>,
        classes: &Vec<GenericClass>,
        inits: &Vec<InitMethod>,
    ) -> (r: Vec<DefaultDiagnostic>)
        requires
            utf8_len(source@) <= u32::MAX,
        ensures
            diags_view(r@) == default_report(source@, site_view(typevar_calls@), classes_view(classes@), inits_view(inits@)),
    {
        let mut names: Vec<Vec<char>> = Vec::new();
        let mut i: usize = 0;
        while i < typevar_calls.len()
            invariant
                i <= typevar_calls@.len(),
                views(names@) == site_view(typevar_calls@).take(i as int).map_values(|s: (Seq<char>, (nat, nat))| s.0),
            decreases typevar_calls.len() - i,
        {
            let ghost before = views(names@);
            names.push(copy_chars(&typevar_calls[i].name));
            proof {
                assert(views(names@) =~= before.push(typevar_calls@[i as int].name@));
                assert(site_view(typevar_calls@)[i as int].0 == typevar_calls@[i as int].name@);
                assert(views(names@) =~= site_view(typevar_calls@).take(i + 1).map_values(|s: (Seq<char>, (nat, nat))| s.0));
            }
            i += 1;
        }
        proof {
            assert(site_view(typevar_calls@).take(i as int) =~= site_view(typevar_calls@));
        }
        let infos = parse_typevar_info_from_source(source, &names);
        let mut out: Vec<DefaultDiagnostic> = Vec::new();
        check_ordering(classes, &infos, &names, &mut out);
        check_outer_scope(source, classes, &infos, &names, &mut out);
        check_bound_constraint_compat(&infos, typevar_calls, &names, &mut out);
        check_subscripted_class_calls(source, classes, &infos, inits, &mut out);
        proof {
            assert(diags_view(Seq::<DefaultDiagnostic>::empty()) =~= Seq::<DiagV>::empty());
        }
        out
    }
}

} // verus!
