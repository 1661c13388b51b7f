//! Small readings of annotation and expression text shared by several rules:
//! `InitVar[T]`, `Mapping[K, V]`, `Required[T]`, quoted annotations,
//! `super().m(...)`, `Base[T1, T2]` in a class header, assignment targets,
//! matching parentheses, and sorted field lists.
//!
//! Positions inside a text are character indices.
use vstd::prelude::*;

use crate::default_references::{formatted_constraints, format_constraints};
use crate::literal_string::byte_char_index;
use crate::module::copy_text;
use crate::position::{utf8_len, utf8_len_prefix};
use crate::text::{
    all_alnum_or_underscore, contains_char, contains_char_exec, depth_pb, ends_with, ends_with_lit,
    find_char, find_char_exec, find_str, find_str_exec, first_where, is_alnum_underscore_word,
    lemma_find_char, lemma_find_str, lemma_first_where_at, lemma_first_where_none,
    lemma_first_where_some, slice_of, split_top_commas_all, split_top_level_commas, starts_with,
    starts_with_lit, trim, trim_chars, trim_start, trim_start_chars, views,
};

verus! {

/// `extract_initvar_inner`: the trimmed `T` of `InitVar[T]` or
/// `dataclasses.InitVar[T]`.
pub open spec fn initvar_inner(ann: Seq<char>) -> Option<Seq<char>> {
    let s = trim(ann);
    let rest = if starts_with(s, "InitVar["@) {
        Some(s.skip(8))
    } else if starts_with(s, "dataclasses.InitVar["@) {
        Some(s.skip(20))
    } else {
        None
    };
    match rest {
        Some(r) => if ends_with(r, "]"@) {
            Some(trim(r.drop_last()))
        } else {
            None
        },
        None => None,
    }
}

pub fn extract_initvar_inner(ann: &[char]) -> (r: Option<Vec<char>>)
    ensures
        match r {
            Some(v) => initvar_inner(ann@) == Some(v@),
            None => initvar_inner(ann@) is None,
        },
{
    let s = trim_chars(ann);
    proof {
        reveal_strlit("InitVar[");
        reveal_strlit("dataclasses.InitVar[");
        reveal_strlit("]");
    }
    let rest = if starts_with_lit(s.as_slice(), "InitVar[") {
        slice_of(s.as_slice(), 8, s.len())
    } else if starts_with_lit(s.as_slice(), "dataclasses.InitVar[") {
        slice_of(s.as_slice(), 20, s.len())
    } else {
        return None;
    };
    proof {
        if starts_with(s@, "InitVar["@) {
            assert(rest@ =~= s@.skip(8));
        } else {
            assert(rest@ =~= s@.skip(20));
        }
    }
    if !ends_with_lit(rest.as_slice(), "]") {
        return None;
    }
    let inner = slice_of(rest.as_slice(), 0, rest.len() - 1);
    proof {
        assert(inner@ =~= rest@.drop_last());
    }
    Some(trim_chars(inner.as_slice()))
}

/// A comma outside `()` and `[]`.
pub open spec fn top_comma_pb(s: Seq<char>) -> spec_fn(int) -> bool {
    |i: int| s[i] == ',' && depth_pb(s, i) == 0
}

/// `parse_mapping_value_type`: in `Mapping[K, V]`, the trimmed text after
/// the first comma outside brackets.
pub open spec fn mapping_value_type(ann: Seq<char>) -> Option<Seq<char>> {
    if starts_with(ann, "Mapping["@) && ends_with(ann.skip(8), "]"@) {
        let inner = ann.skip(8).drop_last();
        match first_where(top_comma_pb(inner), inner.len() as int) {
            Some(i) => Some(trim(inner.skip(i + 1))),
            None => None,
        }
    } else {
        None
    }
}

/// The value type of a mapping annotation: the trimmed text after its first top-level comma; `None` when there is none.
pub fn parse_mapping_value_type(ann: &[char]) -> (r: Option<Vec<char>>)
    ensures
        match r {
            Some(v) => mapping_value_type(ann@) == Some(v@),
            None => mapping_value_type(ann@) is None,
        },
{
    if !starts_with_lit(ann, "Mapping[") {
        return None;
    }
    proof {
        reveal_strlit("Mapping[");
        reveal_strlit("]");
    }
    let rest = slice_of(ann, 8, ann.len());
    proof {
        assert(rest@ =~= ann@.skip(8));
    }
    if !ends_with_lit(rest.as_slice(), "]") {
        return None;
    }
    let inner = slice_of(rest.as_slice(), 0, rest.len() - 1);
    proof {
        assert(inner@ =~= rest@.drop_last());
    }
    let mut depth: i128 = 0;
    let mut i: usize = 0;
    while i < inner.len()
        invariant
            i <= inner@.len(),
            inner@ == ann@.skip(8).drop_last(),
            starts_with(ann@, "Mapping["@),
            ends_with(ann@.skip(8), "]"@),
            depth == depth_pb(inner@, i as int),
            forall|j: int| 0 <= j < i ==> !#[trigger] top_comma_pb(inner@)(j),
        decreases inner.len() - i,
    {
        proof {
            crate::text::lemma_depth_pb_bound(inner@, i as int);
        }
        let c = inner[i];
        if c == ',' && depth == 0 {
            proof {
                assert(top_comma_pb(inner@)(i as int));
                lemma_first_where_at(top_comma_pb(inner@), i as int, inner@.len() as int);
            }
            let after = slice_of(inner.as_slice(), i + 1, inner.len());
            proof {
                assert(after@ =~= inner@.skip(i + 1));
            }
            return Some(trim_chars(after.as_slice()));
        }
        proof {
            assert(!top_comma_pb(inner@)(i as int));
        }
        if c == '[' || c == '(' {
            depth = depth + 1;
        } else if c == ']' || c == ')' {
            depth = depth - 1;
        }
        i += 1;
    }
    proof {
        lemma_first_where_none(top_comma_pb(inner@), inner@.len() as int);
    }
    None
}

/// `unwrap_required`: the inside of `Required[T]` or `NotRequired[T]`; the
/// annotation itself otherwise (or when the closing `]` is missing).
pub open spec fn unwrapped_required(ann: Seq<char>) -> Seq<char> {
    if starts_with(ann, "Required["@) {
        if ends_with(ann.skip(9), "]"@) {
            ann.skip(9).drop_last()
        } else {
            ann
        }
    } else if starts_with(ann, "NotRequired["@) {
        if ends_with(ann.skip(12), "]"@) {
            ann.skip(12).drop_last()
        } else {
            ann
        }
    } else {
        ann
    }
}

pub fn unwrap_required(ann: &[char]) -> (r: Vec<char>)
    ensures
        r@ == unwrapped_required(ann@),
{
    proof {
        reveal_strlit("Required[");
        reveal_strlit("NotRequired[");
        reveal_strlit("]");
    }
    let k: usize = if starts_with_lit(ann, "Required[") {
        9
    } else if starts_with_lit(ann, "NotRequired[") {
        12
    } else {
        return copy_text(ann);
    };
    let rest = slice_of(ann, k, ann.len());
    proof {
        assert(rest@ =~= ann@.skip(k as int));
    }
    if ends_with_lit(rest.as_slice(), "]") {
        let inner = slice_of(rest.as_slice(), 0, rest.len() - 1);
        proof {
            assert(inner@ =~= rest@.drop_last());
        }
        inner
    } else {
        copy_text(ann)
    }
}

/// `resolve_string_annotation`: a quoted annotation without its quotes.
pub open spec fn unquoted(a: Seq<char>) -> Seq<char> {
    if a.len() >= 2 && ((a[0] == '"' && a.last() == '"') || (a[0] == '\'' && a.last() == '\'')) {
        a.subrange(1, a.len() - 1)
    } else {
        a
    }
}

pub fn resolve_string_annotation(a: &[char]) -> (r: Vec<char>)
    ensures
        r@ == unquoted(a@),
{
    let n = a.len();
    if n >= 2 && ((a[0] == '"' && a[n - 1] == '"') || (a[0] == '\'' && a[n - 1] == '\'')) {
        slice_of(a, 1, n - 1)
    } else {
        copy_text(a)
    }
}

/// `extract_super_call_method`: `m` in `super().m(`, trimmed, when it is
/// made of letters, digits and `_`.
pub open spec fn super_call_method(text: Seq<char>) -> Option<Seq<char>> {
    match find_str(text, "super()"@) {
        None => None,
        Some(i) => {
            let after = text.skip(i + 7);
            if !starts_with(after, "."@) {
                None
            } else {
                let ad = after.skip(1);
                match find_char(ad, '(') {
                    None => None,
                    Some(p) => {
                        let m = trim(ad.take(p));
                        if m.len() > 0 && all_alnum_or_underscore(m) {
                            Some(m)
                        } else {
                            None
                        }
                    },
                }
            }
        },
    }
}

pub fn extract_super_call_method(text: &[char]) -> (r: Option<Vec<char>>)
    ensures
        match r {
            Some(v) => super_call_method(text@) == Some(v@),
            None => super_call_method(text@) is None,
        },
{
    let pat = crate::text::chars_of("super()");
    proof {
        reveal_strlit("super()");
        reveal_strlit(".");
        lemma_find_str(text@, pat@);
    }
    let i = match find_str_exec(text, pat.as_slice()) {
        Some(i) => i,
        None => return None,
    };
    assert(i + 7 <= text.len());
    let after = slice_of(text, i + 7, text.len());
    proof {
        assert(after@ =~= text@.skip(i + 7));
    }
    if !starts_with_lit(after.as_slice(), ".") {
        return None;
    }
    let ad = slice_of(after.as_slice(), 1, after.len());
    proof {
        assert(ad@ =~= after@.skip(1));
        lemma_find_char(ad@, '(');
    }
    let p = match find_char_exec(ad.as_slice(), '(') {
        Some(p) => p,
        None => return None,
    };
    let head = slice_of(ad.as_slice(), 0, p);
    proof {
        assert(head@ =~= ad@.take(p as int));
    }
    let m = trim_chars(head.as_slice());
    if m.len() > 0 && is_alnum_underscore_word(m.as_slice()) {
        Some(m)
    } else {
        None
    }
}

/// The text between `[` (at index `b`) and the last character, when that
/// slice is a valid one of the UTF-8 text: the last character a single byte
/// and not before `b + 1`; empty otherwise.
pub open spec fn bracket_body(t: Seq<char>, b: int) -> Seq<char> {
    if t.len() > 0 && (t.last() as u32) < 128 && b + 1 <= t.len() - 1 {
        t.subrange(b + 1, t.len() - 1)
    } else {
        Seq::empty()
    }
}

/// `parse_base_subscript`: `Name[T1, T2]` gives the name and the trimmed
/// arguments (split at commas outside brackets); a keyword argument such as
/// `metaclass=M` gives nothing.
pub open spec fn base_subscript(text: Seq<char>) -> Option<(Seq<char>, Seq<Seq<char>>)> {
    let t = trim(text);
    if t.len() == 0 {
        None
    } else if contains_char(t, '=') && !contains_char(t, '[') {
        None
    } else {
        match find_char(t, '[') {
            Some(b) => Some(
                (
                    trim(t.take(b)),
                    split_top_commas_all(bracket_body(t, b)).map_values(|a: Seq<char>| trim(a)),
                ),
            ),
            None => Some((t, Seq::empty())),
        }
    }
}

pub fn parse_base_subscript(text: &[char]) -> (r: Option<(Vec<char>, Vec<Vec<char>>)>)
    ensures
        match r {
            Some(p) => base_subscript(text@) == Some((p.0@, views(p.1@))),
            None => base_subscript(text@) is None,
        },
{
    let t = trim_chars(text);
    if t.len() == 0 {
        return None;
    }
    if contains_char_exec(t.as_slice(), '=') && !contains_char_exec(t.as_slice(), '[') {
        return None;
    }
    proof {
        lemma_find_char(t@, '[');
    }
    match find_char_exec(t.as_slice(), '[') {
        Some(b) => {
            let head = slice_of(t.as_slice(), 0, b);
            proof {
                assert(head@ =~= t@.take(b as int));
            }
            let name = trim_chars(head.as_slice());
            let n = t.len();
            let body = if (t[n - 1] as u32) < 128 && b + 1 <= n - 1 {
                slice_of(t.as_slice(), b + 1, n - 1)
            } else {
                Vec::new()
            };
            proof {
                assert(body@ =~= bracket_body(t@, b as int));
            }
            let parts = split_top_level_commas(body.as_slice());
            let mut args: Vec<Vec<char>> = Vec::new();
            let mut k: usize = 0;
            while k < parts.len()
                invariant
                    k <= parts@.len(),
                    views(args@) == views(parts@).take(k as int).map_values(|a: Seq<char>| trim(a)),
                decreases parts.len() - k,
            {
                let ghost before = views(args@);
                let x = trim_chars(parts[k].as_slice());
                args.push(x);
                proof {
                    assert(views(args@) =~= before.push(x@));
                    assert(views(parts@).take(k + 1).map_values(|a: Seq<char>| trim(a)) =~= views(
                        parts@,
                    ).take(k as int).map_values(|a: Seq<char>| trim(a)).push(trim(parts@[k as int]@)));
                }
                k += 1;
            }
            proof {
                assert(views(parts@).take(k as int) =~= views(parts@));
            }
            Some((name, args))
        },
        None => Some((t, Vec::new())),
    }
}

/// `is_assignment_target`: after the first `|dot_prefix| + |attr|` bytes
/// of the line comes, after spaces, an `=` that does not start `==`. The
/// cut must fall on a character boundary, as it does when the line starts
/// with the prefix and the name.
pub open spec fn assignment_target(trimmed: Seq<char>, target_bytes: nat) -> bool {
    if utf8_len(trimmed) <= target_bytes {
        false
    } else {
        match byte_char_index(trimmed, target_bytes) {
            Some(k) => {
                let after = trim_start(trimmed.skip(k));
                starts_with(after, "="@) && !starts_with(after, "=="@)
            },
            None => false,
        }
    }
}

pub fn is_assignment_target(trimmed: &[char], dot_prefix: &[char], attr_name: &[char]) -> (r: bool)
    requires
        utf8_len(trimmed@) <= usize::MAX,
        utf8_len(dot_prefix@) + utf8_len(attr_name@) <= usize::MAX,
        utf8_len(trimmed@) > utf8_len(dot_prefix@) + utf8_len(attr_name@) ==> byte_char_index(
            trimmed@,
            utf8_len(dot_prefix@) + utf8_len(attr_name@),
        ) is Some,
    ensures
        r == assignment_target(trimmed@, utf8_len(dot_prefix@) + utf8_len(attr_name@)),
{
    proof {
        crate::position::lemma_utf8_len_bounds(dot_prefix@);
        crate::position::lemma_utf8_len_bounds(attr_name@);
        crate::position::lemma_utf8_len_bounds(trimmed@);
        assert(dot_prefix@.take(dot_prefix@.len() as int) =~= dot_prefix@);
        assert(attr_name@.take(attr_name@.len() as int) =~= attr_name@);
        assert(trimmed@.take(trimmed@.len() as int) =~= trimmed@);
    }
    let a = utf8_len_prefix(dot_prefix, dot_prefix.len());
    let b = utf8_len_prefix(attr_name, attr_name.len());
    let total = utf8_len_prefix(trimmed, trimmed.len());
    let target = a + b;
    if total <= target {
        return false;
    }
    let k = match crate::position::char_index_at_byte(trimmed, target) {
        Some(k) => k,
        None => {
            return false;
        },
    };
    proof {
        let j = byte_char_index(trimmed@, target as nat)->0;
        if j < k {
            crate::position::lemma_utf8_len_take_strict(trimmed@, j, k as int);
        } else if k < j {
            crate::position::lemma_utf8_len_take_strict(trimmed@, k as int, j);
        }
    }
    let rest = slice_of(trimmed, k, trimmed.len());
    proof {
        assert(rest@ =~= trimmed@.skip(k as int));
    }
    let after = trim_start_chars(rest.as_slice());
    starts_with_lit(after.as_slice(), "=") && !starts_with_lit(after.as_slice(), "==")
}

/// A `)` that closes a `(` opened just before the text.
pub open spec fn closes_paren(s: Seq<char>) -> spec_fn(int) -> bool {
    |e: int| s[e] == ')' && paren_net(s, e) == 0
}

/// `(` minus `)` in `s[0..i)`.
pub open spec fn paren_net(s: Seq<char>, i: int) -> int
    decreases i,
{
    if i <= 0 {
        0
    } else {
        paren_net(s, i - 1) + if s[i - 1] == '(' {
            1int
        } else if s[i - 1] == ')' {
            -1int
        } else {
            0int
        }
    }
}

proof fn lemma_paren_net_bound(s: Seq<char>, i: int)
    requires
        0 <= i,
    ensures
        -i <= paren_net(s, i) <= i,
    decreases i,
{
    if i > 0 {
        lemma_paren_net_bound(s, i - 1);
    }
}

/// `find_matching_paren`: the index of the `)` closing a `(` opened just
/// before the text.
pub fn find_matching_paren(s: &[char]) -> (r: Option<usize>)
    requires
        s@.len() < usize::MAX,
    ensures
        match r {
            Some(e) => first_where(closes_paren(s@), s@.len() as int) == Some(e as int),
            None => first_where(closes_paren(s@), s@.len() as int) is None,
        },
{
    let mut depth: usize = 1;
    let mut i: usize = 0;
    while i < s.len()
        invariant
            i <= s@.len() < usize::MAX,
            depth == 1 + paren_net(s@, i as int),
            depth >= 1,
            forall|j: int| 0 <= j < i ==> !#[trigger] closes_paren(s@)(j),
        decreases s.len() - i,
    {
        proof {
            lemma_paren_net_bound(s@, i as int);
        }
        if s[i] == '(' {
            depth = depth + 1;
        } else if s[i] == ')' {
            if depth == 1 {
                proof {
                    assert(closes_paren(s@)(i as int));
                    lemma_first_where_at(closes_paren(s@), i as int, s@.len() as int);
                }
                return Some(i);
            }
            depth = depth - 1;
        }
        proof {
            assert(!closes_paren(s@)(i as int));
        }
        i += 1;
    }
    proof {
        lemma_first_where_none(closes_paren(s@), s@.len() as int);
    }
    None
}

} // verus!
