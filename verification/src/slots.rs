//! Slot-constrained dataclasses: assignments to undeclared attributes, and
//! `__slots__` read from a dataclass that has none.
use vstd::prelude::*;

use crate::names::{contains_name, distinct_names};
use crate::text::eq_str;
use crate::position::{lemma_utf8_len_subrange, utf8_len, utf8_len_prefix, Span};
use crate::annotations::{closes_paren, find_matching_paren};
use crate::text::{
    char_is_alphanumeric, eq_chars, find_char, find_str, find_str_exec, lemma_find_str, matches_at, first_where, lemma_find_char, lemma_first_where_at,
    lemma_first_where_none, slice_of, starts_with, starts_with_lit,
    strip_cr, trim, trim_chars, trim_end, trim_start, trim_start_chars, unicode_alphanumeric, views,
};

verus! {

// ---------------------------------------------------------------------------
// Ordering names as `str` does: by code points, a prefix first
// ---------------------------------------------------------------------------

/// `a` sorts strictly before `b`, comparing code points and putting a
/// proper prefix first (the order of `str`).
pub open spec fn lex_less(a: Seq<char>, b: Seq<char>) -> bool
    decreases a.len(),
{
    if b.len() == 0 {
        false
    } else if a.len() == 0 {
        true
    } else if a[0] < b[0] {
        true
    } else if a[0] == b[0] {
        lex_less(a.drop_first(), b.drop_first())
    } else {
        false
    }
}

/// No text sorts before itself.
pub proof fn law_lex_irreflexive(a: Seq<char>)
    ensures
        !lex_less(a, a),
    decreases a.len(),
{
    if a.len() > 0 {
        law_lex_irreflexive(a.drop_first());
    }
}

/// The order is transitive.
pub proof fn law_lex_transitive(a: Seq<char>, b: Seq<char>, c: Seq<char>)
    requires
        lex_less(a, b),
        lex_less(b, c),
    ensures
        lex_less(a, c),
    decreases a.len(),
{
    if a.len() > 0 && a[0] == b[0] && b[0] == c[0] {
        law_lex_transitive(a.drop_first(), b.drop_first(), c.drop_first());
    }
}

/// Two different texts are ordered one way or the other.
pub proof fn law_lex_total(a: Seq<char>, b: Seq<char>)
    requires
        a != b,
    ensures
        lex_less(a, b) || lex_less(b, a),
    decreases a.len(),
{
    if a.len() > 0 && b.len() > 0 && a[0] == b[0] {
        if a.drop_first() == b.drop_first() {
            assert(a =~= seq![a[0]] + a.drop_first());
            assert(b =~= seq![b[0]] + b.drop_first());
        }
        law_lex_total(a.drop_first(), b.drop_first());
    } else if a.len() > 0 && b.len() > 0 {
    } else if a.len() == 0 && b.len() == 0 {
        assert(a =~= b);
    }
}

pub fn lex_less_exec(a: &[char], b: &[char]) -> (r: bool)
    ensures
        r == lex_less(a@, b@),
{
    let mut i: usize = 0;
    assert(a@.skip(0) =~= a@);
    assert(b@.skip(0) =~= b@);
    while i < a.len() && i < b.len()
        invariant
            i <= a@.len(),
            i <= b@.len(),
            a@.take(i as int) == b@.take(i as int),
            lex_less(a@, b@) == lex_less(a@.skip(i as int), b@.skip(i as int)),
        decreases a.len() - i,
    {
        let x = a[i];
        let y = b[i];
        proof {
            assert(a@.skip(i as int)[0] == x && b@.skip(i as int)[0] == y);
            assert(a@.skip(i as int).drop_first() =~= a@.skip(i + 1));
            assert(b@.skip(i as int).drop_first() =~= b@.skip(i + 1));
        }
        if x < y {
            return true;
        }
        if x != y {
            return false;
        }
        proof {
            assert(a@.take(i + 1) =~= a@.take(i as int).push(x));
            assert(b@.take(i + 1) =~= b@.take(i as int).push(y));
        }
        i += 1;
    }
    b.len() > i
}

/// Every earlier name sorts before every later one.
pub open spec fn sorted_names(t: Seq<Seq<char>>) -> bool {
    forall|i: int, j: int| 0 <= i < j < t.len() ==> lex_less(#[trigger] t[i], #[trigger] t[j])
}

/// The names of `v`, each once, in `str` order (`sort_unstable` of a set).
pub fn sort_names(v: &Vec<Vec<char>>) -> (r: Vec<Vec<char>>)
    ensures
        sorted_names(views(r@)),
        distinct_names(views(r@)),
        forall|x: Seq<char>| views(r@).contains(x) <==> views(v@).contains(x),
{
    let mut out: Vec<Vec<char>> = Vec::new();
    let mut i: usize = 0;
    while i < v.len()
        invariant
            i <= v@.len(),
            sorted_names(views(out@)),
            distinct_names(views(out@)),
            forall|x: Seq<char>| views(out@).contains(x) <==> views(v@).take(i as int).contains(x),
        decreases v.len() - i,
    {
        let x = &v[i];
        proof {
            assert forall|y: Seq<char>| views(v@).take(i + 1).contains(y) <==> (views(v@).take(
                i as int,
            ).contains(y) || y == x@) by {
                let t = views(v@).take(i + 1);
                assert(t =~= views(v@).take(i as int).push(x@));
                if t.contains(y) {
                    let k = choose|k: int| 0 <= k < t.len() && t[k] == y;
                    if k < i {
                        assert(views(v@).take(i as int)[k] == y);
                    }
                }
                if views(v@).take(i as int).contains(y) {
                    let k = choose|k: int| 0 <= k < i && views(v@).take(i as int)[k] == y;
                    assert(t[k] == y);
                }
                if y == x@ {
                    assert(t[i as int] == y);
                }
            }
        }
        if !contains_name(&out, x.as_slice()) {
            let mut pos: usize = 0;
            while pos < out.len() && !lex_less_exec(x.as_slice(), out[pos].as_slice())
                invariant
                    pos <= out@.len(),
                    forall|k: int| 0 <= k < pos ==> !lex_less(x@, #[trigger] views(out@)[k]),
                decreases out.len() - pos,
            {
                pos += 1;
            }
            let ghost before = views(out@);
            out.insert(pos, crate::module::copy_text(x.as_slice()));
            proof {
                let after = views(out@);
                assert(after =~= before.insert(pos as int, x@));
                assert forall|k: int| 0 <= k < pos implies lex_less(#[trigger] before[k], x@) by {
                    assert(before[k] != x@);
                    law_lex_total(before[k], x@);
                }
                assert forall|a: int, b: int| 0 <= a < b < after.len() implies lex_less(
                    #[trigger] after[a],
                    #[trigger] after[b],
                ) by {
                    if b < pos {
                        assert(after[a] == before[a] && after[b] == before[b]);
                    } else if b == pos {
                        assert(after[a] == before[a]);
                    } else if a < pos {
                        assert(after[a] == before[a] && after[b] == before[b - 1]);
                        assert(lex_less(before[a], x@));
                        assert(lex_less(x@, before[pos as int]));
                        if b - 1 > pos {
                            assert(lex_less(before[pos as int], before[b - 1]));
                            law_lex_transitive(x@, before[pos as int], before[b - 1]);
                        }
                        law_lex_transitive(before[a], x@, before[b - 1]);
                    } else if a == pos {
                        assert(after[b] == before[b - 1]);
                        if b - 1 > pos {
                            assert(lex_less(before[pos as int], before[b - 1]));
                            law_lex_transitive(x@, before[pos as int], before[b - 1]);
                        }
                    } else {
                        assert(after[a] == before[a - 1] && after[b] == before[b - 1]);
                    }
                }
                assert forall|a: int, b: int| 0 <= a < b < after.len() implies after[a]
                    != after[b] by {
                    assert(lex_less(after[a], after[b]));
                    if after[a] == after[b] {
                        law_lex_irreflexive(after[a]);
                    }
                }
                assert forall|y: Seq<char>| after.contains(y) <==> (before.contains(y) || y
                    == x@) by {
                    if after.contains(y) {
                        let k = choose|k: int| 0 <= k < after.len() && after[k] == y;
                        if k < pos {
                            assert(before[k] == y);
                        } else if k > pos {
                            assert(before[k - 1] == y);
                        }
                    }
                    if before.contains(y) {
                        let k = choose|k: int| 0 <= k < before.len() && before[k] == y;
                        if k < pos {
                            assert(after[k] == y);
                        } else {
                            assert(after[k + 1] == y);
                        }
                    }
                    if y == x@ {
                        assert(after[pos as int] == y);
                    }
                }
            }
        }
        i += 1;
    }
    proof {
        assert(views(v@).take(i as int) =~= views(v@));
    }
    out
}

/// `` `name` ``.
pub open spec fn quoted(f: Seq<char>) -> Seq<char> {
    seq!['`'] + f + seq!['`']
}

/// The quoted names joined by `", "`.
pub open spec fn joined(t: Seq<Seq<char>>) -> Seq<char>
    decreases t.len(),
{
    if t.len() == 0 {
        Seq::empty()
    } else if t.len() == 1 {
        quoted(t[0])
    } else {
        joined(t.drop_last()) + seq![',', ' '] + quoted(t.last())
    }
}

/// `format_fields`: the names in `str` order, quoted, joined by `", "`, in
/// square brackets.
pub open spec fn fields_list(t: Seq<Seq<char>>) -> Seq<char> {
    seq!['['] + joined(t) + seq![']']
}

/// The names of `names`, each once, in `str` order.
pub open spec fn sorted_list(names: Seq<Seq<char>>) -> Seq<Seq<char>> {
    choose|t: Seq<Seq<char>>|
        sorted_names(t) && forall|x: Seq<char>| #[trigger] t.contains(x) <==> names.contains(x)
}

/// A strictly sorted list is fixed by its names: two of them holding the
/// same names are equal.
pub proof fn law_sorted_unique(t1: Seq<Seq<char>>, t2: Seq<Seq<char>>)
    requires
        sorted_names(t1),
        sorted_names(t2),
        forall|x: Seq<char>| #[trigger] t1.contains(x) <==> t2.contains(x),
    ensures
        t1 == t2,
    decreases t1.len(),
{
    if t1.len() == 0 {
        if t2.len() > 0 {
            assert(t2.contains(t2[0]));
            assert(t1.contains(t2[0]));
        }
        assert(t1 =~= t2);
    } else {
        assert(t1.contains(t1[0]));
        assert(t2.contains(t1[0]));
        assert(t2.len() > 0);
        assert(t2.contains(t2[0]));
        assert(t1.contains(t2[0]));
        let k1 = choose|k: int| 0 <= k < t2.len() && t2[k] == t1[0];
        let k2 = choose|k: int| 0 <= k < t1.len() && t1[k] == t2[0];
        if k1 > 0 {
            assert(lex_less(t2[0], t2[k1]));
            if k2 > 0 {
                assert(lex_less(t1[0], t1[k2]));
                law_lex_transitive(t1[0], t2[0], t1[0]);
                law_lex_irreflexive(t1[0]);
            } else {
                law_lex_irreflexive(t1[0]);
            }
        }
        assert(t1[0] == t2[0]);
        let r1 = t1.drop_first();
        let r2 = t2.drop_first();
        assert forall|x: Seq<char>| #[trigger] r1.contains(x) <==> r2.contains(x) by {
            if r1.contains(x) {
                let k = choose|k: int| 0 <= k < r1.len() && r1[k] == x;
                assert(t1[k + 1] == x);
                assert(lex_less(t1[0], x));
                assert(t1.contains(x));
                assert(t2.contains(x));
                let j = choose|j: int| 0 <= j < t2.len() && t2[j] == x;
                if j == 0 {
                    law_lex_irreflexive(x);
                }
                assert(r2[j - 1] == x);
            }
            if r2.contains(x) {
                let k = choose|k: int| 0 <= k < r2.len() && r2[k] == x;
                assert(t2[k + 1] == x);
                assert(lex_less(t2[0], x));
                assert(t2.contains(x));
                assert(t1.contains(x));
                let j = choose|j: int| 0 <= j < t1.len() && t1[j] == x;
                if j == 0 {
                    law_lex_irreflexive(x);
                }
                assert(r1[j - 1] == x);
            }
        }
        assert(sorted_names(r1)) by {
            assert forall|i: int, j: int| 0 <= i < j < r1.len() implies lex_less(
                #[trigger] r1[i],
                #[trigger] r1[j],
            ) by {
                assert(r1[i] == t1[i + 1] && r1[j] == t1[j + 1]);
            }
        }
        assert(sorted_names(r2)) by {
            assert forall|i: int, j: int| 0 <= i < j < r2.len() implies lex_less(
                #[trigger] r2[i],
                #[trigger] r2[j],
            ) by {
                assert(r2[i] == t2[i + 1] && r2[j] == t2[j + 1]);
            }
        }
        law_sorted_unique(r1, r2);
        assert(t1 =~= seq![t1[0]] + r1);
        assert(t2 =~= seq![t2[0]] + r2);
    }
}

/// `format_fields`: the field names, each once, in `str` order, quoted,
/// joined by `", "` and bracketed.
pub fn format_fields(fields: &Vec<Vec<char>>) -> (r: Vec<char>)
    ensures
        r@ == fields_list(sorted_list(views(fields@))),
{
    let sorted = sort_names(fields);
    let ghost t = views(sorted@);
    let mut out: Vec<char> = Vec::new();
    out.push('[');
    let mut i: usize = 0;
    while i < sorted.len()
        invariant
            i <= sorted@.len(),
            t == views(sorted@),
            out@ == seq!['['] + joined(t.take(i as int)),
        decreases sorted.len() - i,
    {
        let ghost before = out@;
        if i > 0 {
            out.push(',');
            out.push(' ');
        }
        out.push('`');
        let f = &sorted[i];
        let mut k: usize = 0;
        while k < f.len()
            invariant
                k <= f@.len(),
                out@ == before + (if i > 0 {
                    seq![',', ' ']
                } else {
                    Seq::empty()
                }) + seq!['`'] + f@.take(k as int),
            decreases f.len() - k,
        {
            out.push(f[k]);
            proof {
                assert(f@.take(k + 1) =~= f@.take(k as int).push(f@[k as int]));
            }
            k += 1;
        }
        out.push('`');
        proof {
            assert(f@.take(k as int) =~= f@);
            assert(t.take(i + 1).drop_last() =~= t.take(i as int));
            assert(t.take(i + 1).last() == f@);
            if i == 0 {
                assert(joined(t.take(1)) == quoted(t.take(1)[0]));
                assert(out@ =~= seq!['['] + joined(t.take(i + 1)));
            } else {
                assert(out@ =~= seq!['['] + joined(t.take(i + 1)));
            }
        }
        i += 1;
    }
    out.push(']');
    proof {
        assert(t.take(i as int) =~= t);
        assert(out@ =~= fields_list(t));
        let c = sorted_list(views(fields@));
        assert(sorted_names(c) && forall|x: Seq<char>| #[trigger] c.contains(x) <==> views(
            fields@,
        ).contains(x));
        law_sorted_unique(t, c);
    }
    out
}

} // verus!

verus! {

// ---------------------------------------------------------------------------
// `self.attr = ...` in slot-constrained classes
// ---------------------------------------------------------------------------

/// A class as the slot rule reads it.
pub struct SlotClassInfo {
    pub name: Vec<char>,
    pub is_dataclass: bool,
    pub is_dataclass_slots: bool,
    pub has_manual_slots: bool,
    /// Names of the annotated class-level attributes.
    pub annotated_attributes: Vec<Vec<char>>,
    pub def_span: Span,
    /// The source text of the class definition.
    pub source_text: Option<Vec<char>>,
}

/// Not a letter, digit or `_`: where an attribute name stops.
pub open spec fn name_stop(s: Seq<char>) -> spec_fn(int) -> bool {
    |k: int| !(unicode_alphanumeric(s[k]) || s[k] == '_')
}

/// A byte offset as a `u32`, 0 when it does not fit.
pub open spec fn u32_or_zero(x: int) -> u32 {
    if 0 <= x <= u32::MAX {
        x as u32
    } else {
        0
    }
}

/// `self.attr = ...` on one line (`line` starting `line_offset` bytes into
/// the class text, which starts at byte `class_offset`): the attribute and
/// its span, when the attribute is not a field. The span starts where the
/// line's trimmed text would start if all of the line's surrounding
/// whitespace came before it.
pub open spec fn line_assignment(line: Seq<char>, line_offset: int, class_offset: int, fields: Seq<Seq<char>>) -> Option<
    (Seq<char>, u32, u32),
> {
    let t = trim(line);
    if !starts_with(t, "self."@) {
        None
    } else {
        let after = t.skip(5);
        let end = match first_where(name_stop(after), after.len() as int) {
            Some(k) => k,
            None => after.len() as int,
        };
        let attr = after.take(end);
        let rest = trim_start(after.skip(end));
        if attr.len() == 0 || !starts_with(rest, "="@) || starts_with(rest, "=="@) || fields.contains(
            attr,
        ) {
            None
        } else {
            let start = class_offset + line_offset + (utf8_len(line) - utf8_len(t));
            Some((attr, u32_or_zero(start), u32_or_zero(start + 5 + utf8_len(attr))))
        }
    }
}

pub open spec fn opt_seq<A>(o: Option<A>) -> Seq<A> {
    match o {
        Some(x) => seq![x],
        None => Seq::empty(),
    }
}

/// `find_undeclared_self_assignments` from `pos`: the lines of `s` in turn,
/// the offset advancing by each line's length (its ending counted as one
/// byte).
pub open spec fn assignments_from(s: Seq<char>, pos: int, class_offset: int, fields: Seq<Seq<char>>) -> Seq<
    (Seq<char>, u32, u32),
>
    decreases s.len(),
{
    if s.len() == 0 {
        Seq::empty()
    } else {
        match find_char(s, '\n') {
            None => opt_seq(line_assignment(s, pos, class_offset, fields)),
            Some(i) => {
                proof {
                    lemma_find_char(s, '\n');
                }
                let line = strip_cr(s.take(i));
                opt_seq(line_assignment(line, pos, class_offset, fields)) + assignments_from(
                    s.skip(i + 1),
                    pos + utf8_len(line) + 1,
                    class_offset,
                    fields,
                )
            },
        }
    }
}

fn to_u32_or_zero(x: u64) -> (r: u32)
    ensures
        r == u32_or_zero(x as int),
{
    if x <= 0xffff_ffff {
        x as u32
    } else {
        0
    }
}

fn line_assignment_exec(line: &[char], line_offset: u64, class_offset: u64, fields: &Vec<Vec<char>>) -> (r:
    Option<(Vec<char>, u32, u32)>)
    requires
        utf8_len(line@) <= u32::MAX,
        line_offset <= 2 * (u32::MAX as int),
        class_offset <= u32::MAX,
    ensures
        match r {
            Some(x) => line_assignment(line@, line_offset as int, class_offset as int, views(fields@))
                == Some((x.0@, x.1, x.2)),
            None => line_assignment(line@, line_offset as int, class_offset as int, views(fields@)) is None,
        },
{
    let t = trim_chars(line);
    if !starts_with_lit(t.as_slice(), "self.") {
        return None;
    }
    proof {
        reveal_strlit("self.");
        reveal_strlit("=");
        reveal_strlit("==");
    }
    let after = slice_of(t.as_slice(), 5, t.len());
    proof {
        assert(after@ =~= t@.skip(5));
    }
    let mut end: usize = 0;
    while end < after.len() && (char_is_alphanumeric(after[end]) || after[end] == '_')
        invariant
            end <= after@.len(),
            forall|j: int| 0 <= j < end ==> !#[trigger] name_stop(after@)(j),
        decreases after.len() - end,
    {
        end += 1;
    }
    proof {
        if end < after@.len() {
            lemma_first_where_at(name_stop(after@), end as int, after@.len() as int);
        } else {
            lemma_first_where_none(name_stop(after@), after@.len() as int);
        }
    }
    let attr = slice_of(after.as_slice(), 0, end);
    let tail = slice_of(after.as_slice(), end, after.len());
    let rest = trim_start_chars(tail.as_slice());
    proof {
        assert(attr@ =~= after@.take(end as int));
        assert(tail@ =~= after@.skip(end as int));
    }
    if attr.len() == 0 || !starts_with_lit(rest.as_slice(), "=") || starts_with_lit(
        rest.as_slice(),
        "==",
    ) || contains_name(fields, attr.as_slice()) {
        return None;
    }
    proof {
        crate::position::lemma_trim_lens(line@);
        crate::position::lemma_trim_lens(trim_start(line@));
        lemma_utf8_len_subrange(t@, 5, t@.len() as int);
        assert(t@.subrange(5, t@.len() as int) =~= after@);
        lemma_utf8_len_subrange(after@, 0, end as int);
        assert(after@.subrange(0, end as int) =~= attr@);
    }
    let ll = utf8_len_prefix(line, line.len()) as u64;
    let tl = utf8_len_prefix(t.as_slice(), t.len()) as u64;
    let al = utf8_len_prefix(attr.as_slice(), attr.len()) as u64;
    proof {
        assert(line@.take(line@.len() as int) =~= line@);
        assert(t@.take(t@.len() as int) =~= t@);
        assert(attr@.take(attr@.len() as int) =~= attr@);
    }
    let start = class_offset + line_offset + (ll - tl);
    let stop = start + 5 + al;
    Some((attr, to_u32_or_zero(start), to_u32_or_zero(stop)))
}

} // verus!

verus! {

/// An assignment to an attribute that is not a field of a slot-constrained
/// class; `fields_list` is `format_fields` of its fields.
pub struct SlotAssignment {
    pub class: Vec<char>,
    pub attr: Vec<char>,
    pub span: Span,
    pub fields_list: Vec<char>,
}

impl SlotAssignment {
    /// The finding's message.
    pub fn message(&self) -> (r: Vec<char>)
        ensures
            r@ == "Cannot assign to attribute `"@ + self.attr@ + "` on `"@ + self.class@ + "`: `"@ + self.attr@
                + "` is not defined in `__slots__`"@,
    {
        let mut m = crate::text::chars_of("Cannot assign to attribute `");
        crate::text::push_chars(&mut m, self.attr.as_slice());
        crate::text::push_lit(&mut m, "` on `");
        crate::text::push_chars(&mut m, self.class.as_slice());
        crate::text::push_lit(&mut m, "`: `");
        crate::text::push_chars(&mut m, self.attr.as_slice());
        crate::text::push_lit(&mut m, "` is not defined in `__slots__`");
        m
    }

    /// The advice that goes with the finding: the slots the class defines.
    pub fn help(&self) -> (r: Vec<char>)
        ensures
            r@ == "Only attributes declared in `__slots__` can be assigned; `"@ + self.class@ + "` defines slots "@
                + self.fields_list@,
    {
        let mut m = crate::text::chars_of("Only attributes declared in `__slots__` can be assigned; `");
        crate::text::push_chars(&mut m, self.class.as_slice());
        crate::text::push_lit(&mut m, "` defines slots ");
        crate::text::push_chars(&mut m, self.fields_list.as_slice());
        m
    }
}

pub open spec fn assignment_view(a: SlotAssignment) -> (Seq<char>, u32, u32) {
    (a.attr@, a.span.start, a.span.end)
}

pub open spec fn assignments_view(v: Seq<SlotAssignment>) -> Seq<(Seq<char>, u32, u32)> {
    v.map_values(|a: SlotAssignment| assignment_view(a))
}

proof fn lemma_strip_cr_len(s: Seq<char>)
    ensures
        utf8_len(strip_cr(s)) <= utf8_len(s),
{
    if s.len() > 0 && s.last() == '\r' {
        crate::position::lemma_utf8_len_bounds(s);
    }
}

/// `find_undeclared_self_assignments`: the assignments of each line of the
/// class text, in order, each reported with the class name and the field
/// list.
pub fn find_undeclared_self_assignments(
    class_source: &[char],
    class_offset: u32,
    fields: &Vec<Vec<char>>,
    class: &[char],
    fields_list: &[char],
    out: &mut Vec<SlotAssignment>,
)
    requires
        utf8_len(class_source@) <= u32::MAX,
    ensures
        assignments_view(final(out)@) == assignments_view(old(out)@) + assignments_from(
            class_source@,
            0,
            class_offset as int,
            views(fields@),
        ),
        forall|k: int| old(out)@.len() <= k < final(out)@.len() ==> (#[trigger] final(out)@[k]).class@ == class@
            && final(out)@[k].fields_list@ == fields_list@,
        forall|k: int| 0 <= k < old(out)@.len() ==> #[trigger] final(out)@[k] == old(out)@[k],
{
    let ghost s = class_source@;
    let ghost f = views(fields@);
    let ghost co = class_offset as int;
    let ghost start0 = out@;
    let mut start: usize = 0;
    let mut i: usize = 0;
    let mut pos: u64 = 0;
    proof {
        assert(s.skip(0) =~= s);
        assert(assignments_view(out@) + assignments_from(s, 0, co, f) =~= assignments_view(start0)
            + assignments_from(s, 0, co, f));
        crate::position::lemma_utf8_len_bounds(s.take(0));
        assert(s.take(0) =~= Seq::<char>::empty());
    }
    while i < class_source.len()
        invariant
            start <= i <= s.len(),
            s == class_source@,
            co == class_offset as int,
            f == views(fields@),
            utf8_len(s) <= u32::MAX,
            forall|j: int| start <= j < i ==> s[j] != '\n',
            pos <= utf8_len(s.take(start as int)),
            assignments_view(out@) + assignments_from(s.skip(start as int), pos as int, co, f)
                == assignments_view(start0) + assignments_from(s, 0, co, f),
            forall|k: int| start0.len() <= k < out@.len() ==> (#[trigger] out@[k]).class@ == class@
                && out@[k].fields_list@ == fields_list@,
            forall|k: int| 0 <= k < start0.len() ==> #[trigger] out@[k] == start0[k],
            start0.len() <= out@.len(),
        decreases class_source.len() - i,
    {
        if class_source[i] == '\n' {
            let ghost rest = s.skip(start as int);
            proof {
                crate::text::lemma_find_char_at(rest, '\n', i - start);
                lemma_find_char(rest, '\n');
                assert(rest.take(i - start) =~= s.subrange(start as int, i as int));
                assert(rest.skip(i - start + 1) =~= s.skip(i + 1));
            }
            let raw = slice_of(class_source, start, i);
            let line = crate::text::strip_cr_exec(raw);
            proof {
                lemma_strip_cr_len(raw@);
                lemma_utf8_len_subrange(s, start as int, i as int);
                lemma_utf8_len_subrange(s, 0, i + 1);
                assert(s.subrange(0, i + 1) =~= s.take(i + 1));
                assert(s.take(i + 1) =~= s.take(start as int) + raw@ + seq!['\n']);
                crate::position::lemma_utf8_len_add(s.take(start as int), raw@);
                crate::position::lemma_utf8_len_add(s.take(start as int) + raw@, seq!['\n']);
                assert(utf8_len(seq!['\n']) == 1) by {
                    reveal_with_fuel(utf8_len, 2);
                    assert(seq!['\n'].drop_last() =~= Seq::<char>::empty());
                    assert(seq!['\n'].last() == '\n');
                    assert(crate::position::char_width('\n') == 1);
                }
            }
            let ghost before = assignments_view(out@);
            let ghost old_pos = pos as int;
            match line_assignment_exec(line.as_slice(), pos, class_offset as u64, fields) {
                Some((attr, a, b)) => {
                    let ghost av = attr@;
                    out.push(
                        SlotAssignment {
                            class: crate::module::copy_text(class),
                            attr,
                            span: Span { start: a, end: b },
                            fields_list: crate::module::copy_text(fields_list),
                        },
                    );
                    proof {
                        assert(assignments_view(out@) =~= before.push((av, a, b)));
                        assert(assignments_view(out@) =~= before + opt_seq(
                            line_assignment(line@, old_pos, co, f),
                        ));
                    }
                },
                None => {
                    proof {
                        assert(assignments_view(out@) =~= before + opt_seq(
                            line_assignment(line@, old_pos, co, f),
                        ));
                    }
                },
            }
            proof {
                assert(assignments_view(out@) =~= before + opt_seq(
                    line_assignment(line@, old_pos, co, f),
                ));
            }
            let ll = utf8_len_prefix(line.as_slice(), line.len()) as u64;
            proof {
                assert(line@.take(line@.len() as int) =~= line@);
                assert(assignments_from(rest, old_pos, co, f) == opt_seq(
                    line_assignment(line@, old_pos, co, f),
                ) + assignments_from(s.skip(i + 1), old_pos + utf8_len(line@) + 1, co, f));
            }
            pos = pos + ll + 1;
            start = i + 1;
            proof {
                assert(assignments_view(out@) + assignments_from(s.skip(start as int), pos as int, co, f)
                    =~= before + assignments_from(rest, old_pos, co, f));
            }
        }
        i += 1;
    }
    if start < class_source.len() {
        let ghost rest = s.skip(start as int);
        proof {
            lemma_find_char(rest, '\n');
            assert forall|j: int| 0 <= j < rest.len() implies rest[j] != '\n' by {
                assert(rest[j] == s[start + j]);
            }
            lemma_utf8_len_subrange(s, start as int, s.len() as int);
            assert(s.subrange(start as int, s.len() as int) =~= rest);
        }
        let line = slice_of(class_source, start, class_source.len());
        proof {
            assert(line@ =~= rest);
            lemma_utf8_len_subrange(s, 0, start as int);
            assert(s.subrange(0, start as int) =~= s.take(start as int));
        }
        let ghost before = assignments_view(out@);
        match line_assignment_exec(line.as_slice(), pos, class_offset as u64, fields) {
            Some((attr, a, b)) => {
                let ghost av = attr@;
                out.push(
                    SlotAssignment {
                        class: crate::module::copy_text(class),
                        attr,
                        span: Span { start: a, end: b },
                        fields_list: crate::module::copy_text(fields_list),
                    },
                );
                proof {
                    assert(assignments_view(out@) =~= before.push((av, a, b)));
                }
            },
            None => {},
        }
    } else {
        proof {
            assert(s.skip(start as int) =~= Seq::<char>::empty());
        }
    }
}

} // verus!

verus! {

/// The class of a name that constrains its attributes: the last class of
/// that name that has `@dataclass(slots=True)` or is a dataclass with a
/// manual `__slots__`.
pub open spec fn slot_class_index(cs: Seq<SlotClassInfo>, name: Seq<char>) -> Option<int>
    decreases cs.len(),
{
    if cs.len() == 0 {
        None
    } else {
        let c = cs.last();
        if c.name@ == name && (c.is_dataclass_slots || (c.is_dataclass && c.has_manual_slots)) {
            Some(cs.len() - 1)
        } else {
            slot_class_index(cs.drop_last(), name)
        }
    }
}

/// `check_self_attr_assignments` for one class: the assignments in its text
/// to attributes that are not fields of the slot-constrained class of its
/// name.
pub open spec fn class_assignments(cs: Seq<SlotClassInfo>, c: SlotClassInfo) -> Seq<(Seq<char>, u32, u32)> {
    match slot_class_index(cs, c.name@) {
        Some(k) => match c.source_text {
            Some(t) => assignments_from(
                t@,
                0,
                c.def_span.start as int,
                views(cs[k].annotated_attributes@),
            ),
            None => Seq::empty(),
        },
        None => Seq::empty(),
    }
}

/// The class name and the field list each assignment of one class carries:
/// the name of the class whose text it is in, and `format_fields` of the
/// fields of the slot-constrained class of that name.
pub open spec fn class_labels(cs: Seq<SlotClassInfo>, c: SlotClassInfo) -> Seq<(Seq<char>, Seq<char>)> {
    let list = match slot_class_index(cs, c.name@) {
        Some(k) => fields_list(sorted_list(views(cs[k].annotated_attributes@))),
        None => Seq::empty(),
    };
    class_assignments(cs, c).map_values(|x: (Seq<char>, u32, u32)| (c.name@, list))
}

pub open spec fn all_labels(cs: Seq<SlotClassInfo>, n: int) -> Seq<(Seq<char>, Seq<char>)>
    decreases n,
{
    if n <= 0 {
        Seq::empty()
    } else {
        all_labels(cs, n - 1) + class_labels(cs, cs[n - 1])
    }
}

pub open spec fn labels_view(v: Seq<SlotAssignment>) -> Seq<(Seq<char>, Seq<char>)> {
    v.map_values(|a: SlotAssignment| (a.class@, a.fields_list@))
}

pub open spec fn all_assignments(cs: Seq<SlotClassInfo>, n: int) -> Seq<(Seq<char>, u32, u32)>
    decreases n,
{
    if n <= 0 {
        Seq::empty()
    } else {
        all_assignments(cs, n - 1) + class_assignments(cs, cs[n - 1])
    }
}

/// Every class text fits the offsets the rule works with.
pub open spec fn texts_fit(cs: Seq<SlotClassInfo>) -> bool {
    forall|i: int|
        0 <= i < cs.len() ==> ((#[trigger] cs[i]).source_text matches Some(t) ==> utf8_len(t@)
            <= u32::MAX)
}

fn find_slot_class(cs: &Vec<SlotClassInfo>, name: &[char]) -> (r: Option<usize>)
    ensures
        match r {
            Some(k) => k < cs@.len() && slot_class_index(cs@, name@) == Some(k as int),
            None => slot_class_index(cs@, name@) is None,
        },
{
    let mut i: usize = cs.len();
    assert(cs@.take(i as int) =~= cs@);
    while i > 0
        invariant
            i <= cs@.len(),
            slot_class_index(cs@, name@) == slot_class_index(cs@.take(i as int), name@),
        decreases i,
    {
        proof {
            assert(cs@.take(i as int).drop_last() =~= cs@.take(i - 1));
            assert(cs@.take(i as int).last() == cs@[i - 1]);
        }
        let c = &cs[i - 1];
        if eq_chars(c.name.as_slice(), name) && (c.is_dataclass_slots || (c.is_dataclass
            && c.has_manual_slots)) {
            return Some(i - 1);
        }
        i -= 1;
    }
    None
}

/// `check_self_attr_assignments`: the assignments of each class, in order;
/// each carries the class name and `format_fields` of the fields.
pub fn check_self_attr_assignments(cs: &Vec<SlotClassInfo>) -> (r: Vec<SlotAssignment>)
    requires
        texts_fit(cs@),
    ensures
        assignments_view(r@) == all_assignments(cs@, cs@.len() as int),
        labels_view(r@) == all_labels(cs@, cs@.len() as int),
{
    let mut out: Vec<SlotAssignment> = Vec::new();
    let mut i: usize = 0;
    while i < cs.len()
        invariant
            i <= cs@.len(),
            texts_fit(cs@),
            assignments_view(out@) == all_assignments(cs@, i as int),
            labels_view(out@) == all_labels(cs@, i as int),
        decreases cs.len() - i,
    {
        let c = &cs[i];
        let ghost before = assignments_view(out@);
        let ghost lbefore = labels_view(out@);
        let ghost obefore = out@;
        if let Some(k) = find_slot_class(cs, c.name.as_slice()) {
            if let Some(t) = &c.source_text {
                assert(texts_fit(cs@) && cs@[i as int] == *c);
                let list = format_fields(&cs[k].annotated_attributes);
                find_undeclared_self_assignments(
                    t.as_slice(),
                    c.def_span.start,
                    &cs[k].annotated_attributes,
                    c.name.as_slice(),
                    list.as_slice(),
                    &mut out,
                );
            }
        }
        proof {
            assert(cs@[i as int] == *c);
            assert(assignments_view(out@) =~= before + class_assignments(cs@, cs@[i as int]));
            let cl = class_labels(cs@, cs@[i as int]);
            assert(out@.len() == obefore.len() + cl.len());
            assert forall|k: int| 0 <= k < out@.len() implies #[trigger] labels_view(out@)[k] == (lbefore + cl)[k] by {
                if k < obefore.len() {
                    assert(out@[k] == obefore[k]);
                } else {
                    assert(out@[k].class@ == c.name@);
                }
            }
            assert(labels_view(out@) =~= lbefore + cl);
        }
        i += 1;
    }
    out
}

// ---------------------------------------------------------------------------
// `__slots__` read from a dataclass without slots
// ---------------------------------------------------------------------------

/// A module-level attribute access `object.attr`.
pub struct AttrAccess {
    pub object_name: Vec<char>,
    pub attr_name: Vec<char>,
    pub span: Span,
}

/// `__slots__` read from the class or from a fresh instance of a dataclass
/// that defines no `__slots__`.
pub struct SlotsRead {
    pub class: Vec<char>,
    pub span: Span,
}

impl SlotsRead {
    /// The message for a read of `__slots__` on the class itself.
    pub fn class_message(&self) -> (r: Vec<char>)
        ensures
            r@ == "Cannot access `__slots__` on `"@ + self.class@ + "`: class does not define `__slots__`"@,
    {
        let mut m = crate::text::chars_of("Cannot access `__slots__` on `");
        crate::text::push_chars(&mut m, self.class.as_slice());
        crate::text::push_lit(&mut m, "`: class does not define `__slots__`");
        m
    }

    /// The message for a read of `__slots__` on an instance of the class.
    pub fn instance_message(&self) -> (r: Vec<char>)
        ensures
            r@ == "Cannot access `__slots__` on `"@ + self.class@ + "` instance: class does not define `__slots__`"@,
    {
        let mut m = crate::text::chars_of("Cannot access `__slots__` on `");
        crate::text::push_chars(&mut m, self.class.as_slice());
        crate::text::push_lit(&mut m, "` instance: class does not define `__slots__`");
        m
    }
}

pub open spec fn reads_view(v: Seq<SlotsRead>) -> Seq<(Seq<char>, u32, u32)> {
    v.map_values(|r: SlotsRead| (r.class@, r.span.start, r.span.end))
}

/// The dataclasses without slots, in order (a name may repeat).
pub open spec fn slotless(cs: Seq<SlotClassInfo>) -> Seq<Seq<char>>
    decreases cs.len(),
{
    if cs.len() == 0 {
        Seq::empty()
    } else {
        let c = cs.last();
        if c.is_dataclass && !c.is_dataclass_slots && !c.has_manual_slots {
            slotless(cs.drop_last()).push(c.name@)
        } else {
            slotless(cs.drop_last())
        }
    }
}

/// The names of the dataclasses without slots, each once, in the order they
/// are first declared (the set the rule walks).
pub open spec fn slotless_names(cs: Seq<SlotClassInfo>) -> Seq<Seq<char>> {
    crate::names::uniq(slotless(cs))
}

/// `ClassName.__slots__` accesses on those dataclasses, in order.
pub open spec fn class_reads(accesses: Seq<AttrAccess>, names: Seq<Seq<char>>) -> Seq<(Seq<char>, u32, u32)>
    decreases accesses.len(),
{
    if accesses.len() == 0 {
        Seq::empty()
    } else {
        let a = accesses.last();
        class_reads(accesses.drop_last(), names) + if a.attr_name@ == "__slots__"@ && names.contains(
            a.object_name@,
        ) {
            seq![(a.object_name@, a.span.start, a.span.end)]
        } else {
            Seq::empty()
        }
    }
}

/// `ClassName(...).__slots__` on one line starting at byte `lsb`: the span
/// from the class name to the end of `__slots__`, when it fits in `u32`. The
/// column counts all of the line's surrounding whitespace.
pub open spec fn instance_read(line: Seq<char>, lsb: int, name: Seq<char>) -> Option<(Seq<char>, u32, u32)> {
    let t = trim(line);
    let pat = name + seq!['('];
    match find_str(t, pat) {
        Some(cp) => {
            let ao = t.skip(cp + pat.len());
            match first_where(closes_paren(ao), ao.len() as int) {
                Some(cl) => if starts_with(ao.skip(cl + 1), ".__slots__"@) {
                    let bs = lsb + (utf8_len(line) - utf8_len(t)) + utf8_len(t.take(cp));
                    let be = bs + utf8_len(pat) + utf8_len(ao.take(cl)) + 1 + 10;
                    if bs <= u32::MAX && be <= u32::MAX {
                        Some((name, bs as u32, be as u32))
                    } else {
                        None
                    }
                } else {
                    None
                },
                None => None,
            }
        },
        None => None,
    }
}

pub open spec fn instance_reads_line(line: Seq<char>, lsb: int, names: Seq<Seq<char>>) -> Seq<
    (Seq<char>, u32, u32),
>
    decreases names.len(),
{
    if names.len() == 0 {
        Seq::empty()
    } else {
        instance_reads_line(line, lsb, names.drop_last()) + opt_seq(
            instance_read(line, lsb, names.last()),
        )
    }
}

/// `check_instance_slots_access` from byte `lsb` of the source: each line
/// in turn, with the byte where it starts.
pub open spec fn instance_reads_from(s: Seq<char>, lsb: int, names: Seq<Seq<char>>) -> Seq<
    (Seq<char>, u32, u32),
>
    decreases s.len(),
{
    if s.len() == 0 {
        Seq::empty()
    } else {
        match find_char(s, '\n') {
            None => instance_reads_line(s, lsb, names),
            Some(i) => {
                proof {
                    lemma_find_char(s, '\n');
                }
                instance_reads_line(strip_cr(s.take(i)), lsb, names) + instance_reads_from(
                    s.skip(i + 1),
                    lsb + utf8_len(s.take(i + 1)),
                    names,
                )
            },
        }
    }
}

} // verus!

verus! {

fn instance_read_exec(line: &[char], lsb: u64, name: &[char]) -> (r: Option<(u32, u32)>)
    requires
        utf8_len(line@) <= u32::MAX,
        lsb <= u32::MAX,
    ensures
        match r {
            Some((a, b)) => instance_read(line@, lsb as int, name@) == Some((name@, a, b)),
            None => instance_read(line@, lsb as int, name@) is None,
        },
{
    let t = trim_chars(line);
    let mut pat = crate::module::copy_text(name);
    pat.push('(');
    proof {
        assert(pat@ =~= name@ + seq!['(']);
        lemma_find_str(t@, pat@);
    }
    let cp = match find_str_exec(t.as_slice(), pat.as_slice()) {
        Some(cp) => cp,
        None => return None,
    };
    proof {
        assert(matches_at(t@, cp as int, pat@));
        assert(cp + pat@.len() <= t@.len());
    }
    let ao = slice_of(t.as_slice(), cp + pat.len(), t.len());
    proof {
        assert(ao@ =~= t@.skip(cp + pat@.len()));
    }
    let cl = match find_matching_paren(ao.as_slice()) {
        Some(cl) => cl,
        None => return None,
    };
    proof {
        crate::text::lemma_first_where_some(closes_paren(ao@), ao@.len() as int);
    }
    let ac = slice_of(ao.as_slice(), cl + 1, ao.len());
    proof {
        assert(ac@ =~= ao@.skip(cl + 1));
    }
    if !starts_with_lit(ac.as_slice(), ".__slots__") {
        return None;
    }
    proof {
        crate::position::lemma_trim_lens(line@);
        crate::position::lemma_trim_lens(trim_start(line@));
        lemma_utf8_len_subrange(t@, 0, cp as int);
        assert(t@.subrange(0, cp as int) =~= t@.take(cp as int));
        lemma_utf8_len_subrange(t@, cp as int, cp + pat@.len());
        assert(t@.subrange(cp as int, cp + pat@.len()) =~= pat@);
        lemma_utf8_len_subrange(t@, cp + pat@.len(), t@.len() as int);
        assert(t@.subrange(cp + pat@.len(), t@.len() as int) =~= ao@);
        lemma_utf8_len_subrange(ao@, 0, cl as int);
        assert(ao@.subrange(0, cl as int) =~= ao@.take(cl as int));
    }
    let ll = utf8_len_prefix(line, line.len()) as u64;
    let tl = utf8_len_prefix(t.as_slice(), t.len()) as u64;
    let cpb = utf8_len_prefix(t.as_slice(), cp) as u64;
    let pb = utf8_len_prefix(pat.as_slice(), pat.len()) as u64;
    let cb = utf8_len_prefix(ao.as_slice(), cl) as u64;
    proof {
        assert(line@.take(line@.len() as int) =~= line@);
        assert(t@.take(t@.len() as int) =~= t@);
        assert(pat@.take(pat@.len() as int) =~= pat@);
    }
    let bs = lsb + (ll - tl) + cpb;
    let be = bs + pb + cb + 1 + 10;
    if bs <= 0xffff_ffff && be <= 0xffff_ffff {
        Some((bs as u32, be as u32))
    } else {
        None
    }
}

fn instance_reads_line_exec(
    line: &[char],
    lsb: u64,
    names: &Vec<Vec<char>>,
    out: &mut Vec<SlotsRead>,
)
    requires
        utf8_len(line@) <= u32::MAX,
        lsb <= u32::MAX,
    ensures
        reads_view(final(out)@) == reads_view(old(out)@) + instance_reads_line(
            line@,
            lsb as int,
            views(names@),
        ),
{
    let ghost start = reads_view(out@);
    let mut k: usize = 0;
    while k < names.len()
        invariant
            k <= names@.len(),
            utf8_len(line@) <= u32::MAX,
            lsb <= u32::MAX,
            reads_view(out@) == start + instance_reads_line(
                line@,
                lsb as int,
                views(names@).take(k as int),
            ),
        decreases names.len() - k,
    {
        proof {
            assert(views(names@).take(k + 1).drop_last() =~= views(names@).take(k as int));
            assert(views(names@).take(k + 1).last() == names@[k as int]@);
        }
        let ghost before = reads_view(out@);
        match instance_read_exec(line, lsb, names[k].as_slice()) {
            Some((a, b)) => {
                out.push(SlotsRead { class: crate::module::copy_text(names[k].as_slice()), span: Span { start: a, end: b } });
                proof {
                    assert(reads_view(out@) =~= before.push((names@[k as int]@, a, b)));
                }
            },
            None => {},
        }
        proof {
            assert(reads_view(out@) =~= before + opt_seq(
                instance_read(line@, lsb as int, names@[k as int]@),
            ));
        }
        k += 1;
    }
    proof {
        assert(views(names@).take(k as int) =~= views(names@));
    }
}

/// `check_instance_slots_access`: for each line of the source in turn, for
/// each dataclass without slots (in `names` order), a `Name(...).__slots__`
/// on that line.
pub fn check_instance_slots_access(source: &[char], names: &Vec<Vec<char>>) -> (r: Vec<SlotsRead>)
    requires
        utf8_len(source@) <= u32::MAX,
    ensures
        reads_view(r@) == instance_reads_from(source@, 0, views(names@)),
{
    let ghost s = source@;
    let ghost nv = views(names@);
    let mut out: Vec<SlotsRead> = Vec::new();
    let mut start: usize = 0;
    let mut i: usize = 0;
    let mut lsb: u64 = 0;
    proof {
        assert(s.skip(0) =~= s);
        assert(s.take(0) =~= Seq::<char>::empty());
        assert(reads_view(out@) =~= Seq::<(Seq<char>, u32, u32)>::empty());
    }
    while i < source.len()
        invariant
            start <= i <= s.len(),
            s == source@,
            nv == views(names@),
            utf8_len(s) <= u32::MAX,
            forall|j: int| start <= j < i ==> s[j] != '\n',
            lsb == utf8_len(s.take(start as int)),
            reads_view(out@) + instance_reads_from(s.skip(start as int), lsb as int, nv)
                == instance_reads_from(s, 0, nv),
        decreases source.len() - i,
    {
        if source[i] == '\n' {
            let ghost rest = s.skip(start as int);
            proof {
                crate::text::lemma_find_char_at(rest, '\n', i - start);
                lemma_find_char(rest, '\n');
                assert(rest.take(i - start) =~= s.subrange(start as int, i as int));
                assert(rest.skip(i - start + 1) =~= s.skip(i + 1));
                assert(rest.take(i - start + 1) =~= s.subrange(start as int, i + 1));
            }
            let raw = slice_of(source, start, i);
            let line = crate::text::strip_cr_exec(raw);
            proof {
                lemma_strip_cr_len(raw@);
                lemma_utf8_len_subrange(s, start as int, i as int);
                lemma_utf8_len_subrange(s, start as int, i + 1);
                lemma_utf8_len_subrange(s, 0, i + 1);
                lemma_utf8_len_subrange(s, 0, start as int);
                assert(s.subrange(0, i + 1) =~= s.take(i + 1));
                assert(s.subrange(0, start as int) =~= s.take(start as int));
                crate::position::lemma_utf8_len_add(s.take(start as int), s.subrange(start as int, i + 1));
                assert(s.take(start as int) + s.subrange(start as int, i + 1) =~= s.take(i + 1));
            }
            let ghost before = reads_view(out@);
            let ghost old_lsb = lsb as int;
            instance_reads_line_exec(line.as_slice(), lsb, names, &mut out);
            let seg = slice_of(source, start, i + 1);
            let step = utf8_len_prefix(seg.as_slice(), seg.len()) as u64;
            proof {
                assert(seg@ =~= s.subrange(start as int, i + 1));
                assert(seg@.take(seg@.len() as int) =~= seg@);
                assert(instance_reads_from(rest, old_lsb, nv) == instance_reads_line(
                    line@,
                    old_lsb,
                    nv,
                ) + instance_reads_from(s.skip(i + 1), old_lsb + utf8_len(rest.take(i - start + 1)), nv));
            }
            lsb = lsb + step;
            start = i + 1;
            proof {
                assert(reads_view(out@) + instance_reads_from(s.skip(start as int), lsb as int, nv)
                    =~= before + instance_reads_from(rest, old_lsb, nv));
            }
        }
        i += 1;
    }
    if start < source.len() {
        let ghost rest = s.skip(start as int);
        proof {
            lemma_find_char(rest, '\n');
            assert forall|j: int| 0 <= j < rest.len() implies rest[j] != '\n' by {
                assert(rest[j] == s[start + j]);
            }
            lemma_utf8_len_subrange(s, start as int, s.len() as int);
            assert(s.subrange(start as int, s.len() as int) =~= rest);
            lemma_utf8_len_subrange(s, 0, start as int);
            assert(s.subrange(0, start as int) =~= s.take(start as int));
        }
        let line = slice_of(source, start, source.len());
        proof {
            assert(line@ =~= rest);
        }
        instance_reads_line_exec(line.as_slice(), lsb, names, &mut out);
    } else {
        proof {
            assert(s.skip(start as int) =~= Seq::<char>::empty());
        }
    }
    out
}

} // verus!

verus! {

fn slotless_names_exec(cs: &Vec<SlotClassInfo>) -> (r: Vec<Vec<char>>)
    ensures
        views(r@) == slotless_names(cs@),
{
    let mut all: Vec<Vec<char>> = Vec::new();
    let mut i: usize = 0;
    while i < cs.len()
        invariant
            i <= cs@.len(),
            views(all@) == slotless(cs@.take(i as int)),
        decreases cs.len() - i,
    {
        proof {
            assert(cs@.take(i + 1).drop_last() =~= cs@.take(i as int));
            assert(cs@.take(i + 1).last() == cs@[i as int]);
        }
        let c = &cs[i];
        if c.is_dataclass && !c.is_dataclass_slots && !c.has_manual_slots {
            let ghost before = views(all@);
            all.push(crate::module::copy_text(c.name.as_slice()));
            assert(views(all@) =~= before.push(c.name@));
        }
        i += 1;
    }
    proof {
        assert(cs@.take(i as int) =~= cs@);
    }
    crate::names::uniq_names(all.as_slice())
}

/// `check_slots_access_on_non_slots_class`: `Name.__slots__` accesses, then
/// `Name(...).__slots__` in the source, for the dataclasses without slots.
pub fn check_slots_access_on_non_slots_class(
    cs: &Vec<SlotClassInfo>,
    accesses: &Vec<AttrAccess>,
    source: &[char],
) -> (r: (Vec<SlotsRead>, Vec<SlotsRead>))
    requires
        utf8_len(source@) <= u32::MAX,
    ensures
        reads_view(r.0@) == class_reads(accesses@, slotless_names(cs@)),
        reads_view(r.1@) == instance_reads_from(source@, 0, slotless_names(cs@)),
{
    let names = slotless_names_exec(cs);
    let mut reads: Vec<SlotsRead> = Vec::new();
    let mut i: usize = 0;
    while i < accesses.len()
        invariant
            i <= accesses@.len(),
            reads_view(reads@) == class_reads(accesses@.take(i as int), views(names@)),
        decreases accesses.len() - i,
    {
        proof {
            assert(accesses@.take(i + 1).drop_last() =~= accesses@.take(i as int));
            assert(accesses@.take(i + 1).last() == accesses@[i as int]);
        }
        let a = &accesses[i];
        let ghost before = reads_view(reads@);
        if eq_str(a.attr_name.as_slice(), "__slots__") && contains_name(&names, a.object_name.as_slice()) {
            reads.push(SlotsRead { class: crate::module::copy_text(a.object_name.as_slice()), span: a.span });
            assert(reads_view(reads@) =~= before.push((a.object_name@, a.span.start, a.span.end)));
        }
        i += 1;
    }
    proof {
        assert(accesses@.take(i as int) =~= accesses@);
    }
    let inst = check_instance_slots_access(source, &names);
    (reads, inst)
}

/// What the slot rule finds: assignments to undeclared attributes, then
/// `__slots__` read from a class, then from an instance.
pub struct SlotsFindings {
    pub assignments: Vec<SlotAssignment>,
    pub class_reads: Vec<SlotsRead>,
    pub instance_reads: Vec<SlotsRead>,
}

/// The rule: slot-constrained dataclasses and `__slots__` reads.
pub struct DataclassSlotsViolation;

impl DataclassSlotsViolation {
    /// Both checks, over the classes, the module-level attribute accesses and
    /// the source text.
    pub fn check(&self, classes: &Vec<SlotClassInfo>, accesses: &Vec<AttrAccess>, source: &[char]) -> (r:
        SlotsFindings)
        requires
            texts_fit(classes@),
            utf8_len(source@) <= u32::MAX,
        ensures
            assignments_view(r.assignments@) == all_assignments(classes@, classes@.len() as int),
            labels_view(r.assignments@) == all_labels(classes@, classes@.len() as int),
            reads_view(r.class_reads@) == class_reads(accesses@, slotless_names(classes@)),
            reads_view(r.instance_reads@) == instance_reads_from(source@, 0, slotless_names(classes@)),
    {
        let assignments = check_self_attr_assignments(classes);
        let (class_reads, instance_reads) = check_slots_access_on_non_slots_class(classes, accesses, source);
        SlotsFindings { assignments, class_reads, instance_reads }
    }
}

} // verus!
