//! `Literal[...]` values inside function bodies: assigning a parameter of one
//! literal type to a local of another, and augmented assignments to literal
//! parameters.
use vstd::prelude::*;

use crate::numbers::{decimal_of, i64_to_decimal, parse_i64_radix, parse_radix};
use crate::position::{lemma_utf8_len_subrange, utf8_len, utf8_len_prefix, Span};
use crate::text::{
    all_alnum_or_underscore, before_char, before_char_exec, char_is_alphabetic, chars_of,
    contains_lit, contains_str, depth_pbb, eq_chars, eq_str, find_char, find_char_exec, find_lit,
    find_str, find_str_exec, first_where, is_alnum_underscore_word, lemma_depth_pbb_bound,
    lemma_find_char, lemma_find_str, lemma_first_where_at, lemma_first_where_none, lines,
    lines_exec, slice_of, split_top_commas_all, split_top_level_commas, starts_with,
    starts_with_lit, trim, trim_all, trim_all_exec, trim_chars, unicode_alphabetic, views,
};

verus! {

// ---------------------------------------------------------------------------
// Literal values
// ---------------------------------------------------------------------------

/// `contains_literal_subscript`: the annotation is `Literal[...]`, a qualified
/// `x.Literal[...]` or the alias `L[...]`.
pub open spec fn has_literal_subscript(ann: Seq<char>) -> bool {
    starts_with(ann, "Literal["@) || contains_str(ann, ".Literal["@) || starts_with(ann, "L["@)
}

pub fn contains_literal_subscript(ann: &[char]) -> (r: bool)
    ensures
        r == has_literal_subscript(ann@),
{
    starts_with_lit(ann, "Literal[") || contains_lit(ann, ".Literal[") || starts_with_lit(ann, "L[")
}

/// Nesting of `[` before index `i`.
pub open spec fn depth_sq(s: Seq<char>, i: int) -> int
    decreases i,
{
    if i <= 0 {
        0
    } else {
        depth_sq(s, i - 1) + if s[i - 1] == '[' {
            1int
        } else if s[i - 1] == ']' {
            -1int
        } else {
            0int
        }
    }
}

/// The `]` that closes the bracket opened just before the text.
pub open spec fn closing_sq(t: Seq<char>) -> spec_fn(int) -> bool {
    |i: int| t[i] == ']' && depth_sq(t, i) == 0
}

/// Where the values of `Literal[` (or a leading `L[`) start.
pub open spec fn literal_start(ann: Seq<char>) -> Option<int> {
    match find_str(ann, "Literal["@) {
        Some(p) => Some(p + 8),
        None => if starts_with(ann, "L["@) {
            Some(2)
        } else {
            None
        },
    }
}

/// The text between `Literal[` and its matching `]`.
pub open spec fn literal_inner(ann: Seq<char>) -> Option<Seq<char>> {
    match literal_start(ann) {
        None => None,
        Some(st) => {
            let t = ann.skip(st);
            match first_where(closing_sq(t), t.len() as int) {
                Some(i) => Some(t.take(i)),
                None => None,
            }
        },
    }
}

/// The text between the brackets of a `Literal[...]` annotation; `None` for any other annotation.
pub fn extract_literal_inner(ann: &[char]) -> (r: Option<Vec<char>>)
    ensures
        match r {
            Some(v) => literal_inner(ann@) == Some(v@),
            None => literal_inner(ann@) is None,
        },
{
    let n = ann.len();
    let st = match find_lit(ann, "Literal[") {
        Some(p) => {
            proof {
                lemma_find_str(ann@, "Literal["@);
                reveal_strlit("Literal[");
            }
            p + 8
        },
        None => {
            if starts_with_lit(ann, "L[") {
                proof {
                    reveal_strlit("L[");
                }
                2
            } else {
                return None;
            }
        },
    };
    let t = slice_of(ann, st, n);
    proof {
        assert(t@ =~= ann@.skip(st as int));
    }
    let mut depth: i128 = 0;
    let mut i: usize = 0;
    while i < t.len()
        invariant
            i <= t@.len(),
            literal_start(ann@) == Some(st as int),
            t@ == ann@.skip(st as int),
            depth == depth_sq(t@, i as int),
            -(i as int) <= depth <= i,
            forall|j: int| 0 <= j < i ==> !#[trigger] closing_sq(t@)(j),
        decreases t.len() - i,
    {
        if t[i] == '[' {
            depth = depth + 1;
        } else if t[i] == ']' {
            if depth == 0 {
                proof {
                    assert(closing_sq(t@)(i as int));
                    lemma_first_where_at(closing_sq(t@), i as int, t@.len() as int);
                }
                let inner = slice_of(t.as_slice(), 0, i);
                proof {
                    assert(inner@ =~= t@.take(i as int));
                }
                return Some(inner);
            }
            depth = depth - 1;
        }
        i += 1;
    }
    proof {
        lemma_first_where_none(closing_sq(t@), t@.len() as int);
    }
    None
}

/// The trimmed values listed in `Literal[...]`.
pub open spec fn literal_values(ann: Seq<char>) -> Option<Seq<Seq<char>>> {
    match literal_inner(ann) {
        Some(inner) => Some(trim_all(split_top_commas_all(inner))),
        None => None,
    }
}

/// The values listed in a `Literal[...]` annotation, one per top-level comma; `None` for any other annotation.
pub fn extract_literal_values(ann: &[char]) -> (r: Option<Vec<Vec<char>>>)
    ensures
        match r {
            Some(v) => literal_values(ann@) == Some(views(v@)),
            None => literal_values(ann@) is None,
        },
{
    match extract_literal_inner(ann) {
        Some(inner) => {
            let parts = split_top_level_commas(inner.as_slice());
            Some(trim_all_exec(&parts))
        },
        None => None,
    }
}

/// A `0x`/`0X`, `0b`/`0B` or `0o`/`0O` prefix and its base.
pub open spec fn radix_prefix(d: Seq<char>) -> Option<nat> {
    if starts_with(d, "0x"@) || starts_with(d, "0X"@) {
        Some(16)
    } else if starts_with(d, "0b"@) || starts_with(d, "0B"@) {
        Some(2)
    } else if starts_with(d, "0o"@) || starts_with(d, "0O"@) {
        Some(8)
    } else {
        None
    }
}

/// The text starts with a sign.
pub open spec fn signed_start(s: Seq<char>) -> bool {
    s.len() > 0 && (s[0] == '-' || s[0] == '+')
}

/// A Python integer literal: an optional sign, then a decimal, hex, binary or
/// octal integer without a sign of its own, whose value fits in `i64`.
pub open spec fn int_literal(source: Seq<char>) -> Option<int> {
    let t = trim(source);
    let neg = t.len() > 0 && t[0] == '-';
    let digits = if signed_start(t) {
        trim(t.skip(1))
    } else {
        t
    };
    let value = match radix_prefix(digits) {
        Some(r) => if signed_start(digits.skip(2)) {
            None
        } else {
            parse_radix(digits.skip(2), r)
        },
        None => if signed_start(digits) {
            None
        } else {
            parse_radix(digits, 10)
        },
    };
    match value {
        None => None,
        Some(v) => if neg {
            Some(-v)
        } else {
            Some(v)
        },
    }
}

/// `parse_int_literal`: the value of a (signed, possibly prefixed) integer
/// literal; `None` for a second sign or a value outside `i64`.
pub fn parse_int_literal(source: &[char]) -> (r: Option<i64>)
    ensures
        match r {
            Some(v) => int_literal(source@) == Some(v as int),
            None => int_literal(source@) is None,
        },
{
    let t = trim_chars(source);
    let neg = t.len() > 0 && t[0] == '-';
    let digits = if t.len() > 0 && (t[0] == '-' || t[0] == '+') {
        let n = t.len();
        let rest = slice_of(t.as_slice(), 1, n);
        proof {
            assert(rest@ =~= t@.skip(1));
        }
        trim_chars(rest.as_slice())
    } else {
        t
    };
    let ds = digits.as_slice();
    let value = if starts_with_lit(ds, "0x") || starts_with_lit(ds, "0X") || starts_with_lit(ds, "0b")
        || starts_with_lit(ds, "0B") || starts_with_lit(ds, "0o") || starts_with_lit(ds, "0O") {
        proof {
            reveal_strlit("0x");
            reveal_strlit("0X");
            reveal_strlit("0b");
            reveal_strlit("0B");
            reveal_strlit("0o");
            reveal_strlit("0O");
        }
        let radix: u32 = if starts_with_lit(ds, "0x") || starts_with_lit(ds, "0X") {
            16
        } else if starts_with_lit(ds, "0b") || starts_with_lit(ds, "0B") {
            2
        } else {
            8
        };
        let n = ds.len();
        let body = slice_of(ds, 2, n);
        proof {
            assert(body@ =~= digits@.skip(2));
        }
        if body.len() > 0 && (body[0] == '-' || body[0] == '+') {
            None
        } else {
            parse_i64_radix(body.as_slice(), radix)
        }
    } else if ds.len() > 0 && (ds[0] == '-' || ds[0] == '+') {
        None
    } else {
        parse_i64_radix(ds, 10)
    };
    match value {
        None => None,
        Some(v) => if neg {
            Some(-v)
        } else {
            Some(v)
        },
    }
}

/// `True`, `False` and `None` as written; integers in plain decimal; anything
/// else as written (all trimmed).
pub open spec fn normalized(value: Seq<char>) -> Seq<char> {
    let t = trim(value);
    if t == "True"@ || t == "False"@ || t == "None"@ {
        t
    } else {
        match int_literal(t) {
            Some(v) => decimal_of(v),
            None => t,
        }
    }
}

/// A literal value in one spelling: trimmed, integers in plain decimal, anything else as written.
pub fn normalize_literal_value(value: &[char]) -> (r: Vec<char>)
    ensures
        r@ == normalized(value@),
{
    let t = trim_chars(value);
    if eq_str(t.as_slice(), "True") || eq_str(t.as_slice(), "False") || eq_str(t.as_slice(), "None") {
        return t;
    }
    match parse_int_literal(t.as_slice()) {
        Some(v) => i64_to_decimal(v),
        None => t,
    }
}

/// `literal_value_eq`: equal after normalizing, so `0` and `False` differ and
/// `0x10` equals `16`.
pub open spec fn literal_eq(left: Seq<char>, right: Seq<char>) -> bool {
    normalized(left) == normalized(right)
}

pub fn literal_value_eq(left: &[char], right: &[char]) -> (r: bool)
    ensures
        r == literal_eq(left@, right@),
{
    let l = normalize_literal_value(left);
    let r = normalize_literal_value(right);
    eq_chars(l.as_slice(), r.as_slice())
}

/// `value` equals (after normalizing) one of `target`.
pub open spec fn value_in(value: Seq<char>, target: Seq<Seq<char>>) -> bool {
    exists|j: int| 0 <= j < target.len() && literal_eq(value, #[trigger] target[j])
}

/// Every source value equals some target value.
pub open spec fn values_assignable(source: Seq<Seq<char>>, target: Seq<Seq<char>>) -> bool {
    forall|i: int| 0 <= i < source.len() ==> value_in(#[trigger] source[i], target)
}

/// Whether every source literal value equals some target value.
pub fn literal_values_assignable(source_values: &Vec<Vec<char>>, target_values: &Vec<Vec<char>>) -> (r:
    bool)
    ensures
        r == values_assignable(views(source_values@), views(target_values@)),
{
    let ghost sv = views(source_values@);
    let ghost tv = views(target_values@);
    let mut i: usize = 0;
    while i < source_values.len()
        invariant
            i <= source_values@.len(),
            sv == views(source_values@),
            tv == views(target_values@),
            sv.len() == source_values@.len(),
            forall|k: int| 0 <= k < i ==> value_in(#[trigger] sv[k], tv),
        decreases source_values.len() - i,
    {
        let mut found = false;
        let mut j: usize = 0;
        proof {
            assert(sv[i as int] == source_values@[i as int]@);
        }
        while j < target_values.len()
            invariant
                j <= target_values@.len(),
                i < source_values@.len(),
                sv == views(source_values@),
                tv == views(target_values@),
                tv.len() == target_values@.len(),
                found ==> value_in(sv[i as int], tv),
                !found ==> forall|q: int| 0 <= q < j ==> !literal_eq(sv[i as int], #[trigger] tv[q]),
            decreases target_values.len() - j,
        {
            proof {
                assert(tv[j as int] == target_values@[j as int]@);
            }
            if !found && literal_value_eq(source_values[i].as_slice(), target_values[j].as_slice()) {
                found = true;
            }
            j += 1;
        }
        if !found {
            proof {
                assert(!value_in(sv[i as int], tv));
            }
            return false;
        }
        i += 1;
    }
    true
}

} // verus!
