//! Out-of-range literal indices on fixed-length `tuple[...]` parameters.
//!
//! Positions inside a line are character indices; spans are UTF-8 byte
//! offsets into the module source.
use vstd::prelude::*;

use crate::assoc::{assoc_find, assoc_get, lemma_assoc_index, lemma_assoc_index_at};
use crate::literal_assign::{FunctionSignature, ParamAnnotation};
use crate::literal_values::closing_sq;
use crate::numbers::{parse_i64_radix, parse_radix};
use crate::position::{lemma_utf8_len_subrange, utf8_len, utf8_len_prefix, Span};
use crate::text::{
    all_digits, ends_with, find_char, find_char_exec, find_str, find_str_exec, first_where,
    is_ascii_alnum, is_digit_word, lemma_find_char, lemma_find_char_at, lemma_find_str,
    lemma_first_where_at, lemma_first_where_none, slice_of, split_top_commas_all,
    split_top_level_commas, starts_with, starts_with_lit, strip_cr, strip_cr_exec, trim,
    trim_chars, views,
};

verus! {

// ---------------------------------------------------------------------------
// Annotations
// ---------------------------------------------------------------------------

/// `find_matching_bracket`: in text that starts just after a `[`, the index of
/// the `]` that closes it.
pub fn find_matching_bracket(s: &[char]) -> (r: Option<usize>)
    ensures
        match r {
            Some(i) => first_where(closing_sq(s@), s@.len() as int) == Some(i as int),
            None => first_where(closing_sq(s@), s@.len() as int) is None,
        },
{
    let mut depth: i128 = 0;
    let mut i: usize = 0;
    while i < s.len()
        invariant
            i <= s@.len(),
            depth == crate::literal_values::depth_sq(s@, i as int),
            -(i as int) <= depth <= i,
            forall|j: int| 0 <= j < i ==> !#[trigger] closing_sq(s@)(j),
        decreases s.len() - i,
    {
        if s[i] == '[' {
            depth = depth + 1;
        } else if s[i] == ']' {
            if depth == 0 {
                proof {
                    assert(closing_sq(s@)(i as int));
                    lemma_first_where_at(closing_sq(s@), i as int, s@.len() as int);
                }
                return Some(i);
            }
            depth = depth - 1;
        }
        i += 1;
    }
    proof {
        lemma_first_where_none(closing_sq(s@), s@.len() as int);
    }
    None
}

/// The text between a literal prefix and a final `]`.
pub open spec fn between(ann: Seq<char>, prefix: Seq<char>) -> Option<Seq<char>> {
    if starts_with(ann, prefix) && ends_with(ann.skip(prefix.len() as int), seq![']']) {
        Some(ann.subrange(prefix.len() as int, ann.len() - 1))
    } else {
        None
    }
}

fn between_exec(ann: &[char], prefix: &str) -> (r: Option<Vec<char>>)
    ensures
        match r {
            Some(v) => between(ann@, prefix@) == Some(v@),
            None => between(ann@, prefix@) is None,
        },
{
    if !starts_with_lit(ann, prefix) {
        return None;
    }
    let p = crate::text::chars_of(prefix);
    let n = ann.len();
    if n == p.len() || ann[n - 1] != ']' {
        proof {
            let x = ann@.skip(p@.len() as int);
            if ends_with(x, seq![']']) {
                assert(x.skip(x.len() - 1)[0] == x[x.len() - 1]);
                assert(ann@[ann@.len() - 1] == x[x.len() - 1]);
            }
        }
        return None;
    }
    proof {
        assert(ann@.skip(p@.len() as int).skip(ann@.len() - p@.len() - 1) =~= seq![']']);
    }
    let inner = slice_of(ann, p.len(), n - 1);
    Some(inner)
}

/// The number of elements of a fixed-length `tuple[...]` annotation: `None`
/// when it is not one or holds a top-level `...`; 0 for the empty tuple,
/// written `tuple[()]` (or with nothing between the brackets).
pub open spec fn fixed_tuple_len(ann: Seq<char>) -> Option<nat> {
    match between(ann, "tuple["@) {
        None => None,
        Some(inner) => {
            let elements = split_top_commas_all(inner);
            if exists|i: int| 0 <= i < elements.len() && trim(#[trigger] elements[i]) == "..."@ {
                None
            } else if elements.len() == 0 || (elements.len() == 1 && (trim(elements[0]).len() == 0
                || trim(elements[0]) == "()"@)) {
                Some(0)
            } else {
                Some(elements.len())
            }
        },
    }
}

/// The number of elements of a fixed-length `tuple[...]` annotation; `None` for any other annotation or one with `...`.
pub fn parse_fixed_tuple_length(ann: &[char]) -> (r: Option<usize>)
    ensures
        match r {
            Some(n) => fixed_tuple_len(ann@) == Some(n as nat),
            None => fixed_tuple_len(ann@) is None,
        },
{
    let inner = match between_exec(ann, "tuple[") {
        Some(i) => i,
        None => return None,
    };
    let elements = split_top_level_commas(inner.as_slice());
    let ghost es = split_top_commas_all(inner@);
    let mut k: usize = 0;
    while k < elements.len()
        invariant
            k <= elements@.len(),
            views(elements@) == es,
            es == split_top_commas_all(inner@),
            between(ann@, "tuple["@) == Some(inner@),
            forall|j: int| 0 <= j < k ==> trim(#[trigger] es[j]) != "..."@,
        decreases elements.len() - k,
    {
        let t = trim_chars(elements[k].as_slice());
        proof {
            assert(es[k as int] == elements@[k as int]@);
        }
        if crate::text::eq_str(t.as_slice(), "...") {
            proof {
                assert(trim(es[k as int]) == "..."@);
            }
            return None;
        }
        k += 1;
    }
    proof {
        assert(es.len() == elements@.len());
    }
    if elements.len() == 0 {
        return Some(0);
    }
    if elements.len() == 1 {
        let t = trim_chars(elements[0].as_slice());
        proof {
            assert(es[0] == elements@[0]@);
        }
        if t.len() == 0 || crate::text::eq_str(t.as_slice(), "()") {
            return Some(0);
        }
    }
    Some(elements.len())
}

/// A decimal integer, optionally negative: a `-` may be followed by spaces;
/// the digits must fit in `i64`.
pub open spec fn dec_int(s: Seq<char>) -> Option<int> {
    let t = trim(s);
    let neg = t.len() > 0 && t[0] == '-';
    let digits = if neg {
        trim(t.skip(1))
    } else {
        t
    };
    if t.len() == 0 || digits.len() == 0 || !all_digits(digits) {
        None
    } else {
        match parse_radix(digits, 10) {
            None => None,
            Some(v) => Some(
                if neg {
                    -v
                } else {
                    v
                },
            ),
        }
    }
}

/// `parse_int_literal`: a decimal integer literal, optionally negative.
pub fn parse_int_literal(s: &[char]) -> (r: Option<i64>)
    ensures
        match r {
            Some(v) => dec_int(s@) == Some(v as int),
            None => dec_int(s@) is None,
        },
{
    let t = trim_chars(s);
    if t.len() == 0 {
        return None;
    }
    let neg = t[0] == '-';
    let digits = if neg {
        let rest = slice_of(t.as_slice(), 1, t.len());
        proof {
            assert(rest@ =~= t@.skip(1));
        }
        trim_chars(rest.as_slice())
    } else {
        t
    };
    if digits.len() == 0 || !is_digit_word(digits.as_slice()) {
        return None;
    }
    match parse_i64_radix(digits.as_slice(), 10) {
        None => None,
        Some(v) => {
            proof {
                // digits only: the value is not negative
                assert(digits@[0] != '-' && digits@[0] != '+') by {
                    assert(crate::text::is_digit(digits@[0]));
                }
            }
            if neg {
                Some(-v)
            } else {
                Some(v)
            }
        },
    }
}

/// The value of a `Literal[N]` annotation with a decimal `N`.
pub open spec fn literal_int_ann(ann: Seq<char>) -> Option<int> {
    match between(ann, "Literal["@) {
        None => None,
        Some(inner) => dec_int(trim(inner)),
    }
}

/// The integer of a `Literal[n]` annotation; `None` for any other annotation.
pub fn parse_literal_int_annotation(ann: &[char]) -> (r: Option<i64>)
    ensures
        match r {
            Some(v) => literal_int_ann(ann@) == Some(v as int),
            None => literal_int_ann(ann@) is None,
        },
{
    let inner = match between_exec(ann, "Literal[") {
        Some(i) => i,
        None => return None,
    };
    let t = trim_chars(inner.as_slice());
    parse_int_literal(t.as_slice())
}

// ---------------------------------------------------------------------------
// Lines with byte offsets
// ---------------------------------------------------------------------------

/// `str::lines` with the byte offset of each line, counted from `off`.
pub open spec fn lines_at(s: Seq<char>, off: nat) -> Seq<(Seq<char>, nat)>
    decreases s.len(),
{
    if s.len() == 0 {
        Seq::empty()
    } else {
        match find_char(s, '\n') {
            None => seq![(s, off)],
            Some(i) => {
                proof {
                    lemma_find_char(s, '\n');
                }
                seq![(strip_cr(s.take(i)), off)] + lines_at(s.skip(i + 1), off + utf8_len(s.take(i + 1)))
            },
        }
    }
}

/// A line and the byte offset where it starts.
pub struct SourceLine {
    pub text: Vec<char>,
    pub byte_offset: usize,
}

pub open spec fn source_lines_view(v: Seq<SourceLine>) -> Seq<(Seq<char>, nat)> {
    v.map_values(|l: SourceLine| (l.text@, l.byte_offset as nat))
}

proof fn lemma_lines_at_step(s: Seq<char>, off: nat, i: int)
    requires
        0 <= i < s.len(),
        s[i] == '\n',
        forall|j: int| 0 <= j < i ==> s[j] != '\n',
    ensures
        lines_at(s, off) == seq![(strip_cr(s.take(i)), off)] + lines_at(
            s.skip(i + 1),
            off + utf8_len(s.take(i + 1)),
        ),
{
    lemma_find_char_at(s, '\n', i);
}

/// The lines of `s` (as `str::lines` gives them) with their byte offsets,
/// the first at `off`.
pub fn lines_with_offsets(s: &[char], off: usize) -> (r: Vec<SourceLine>)
    requires
        off + utf8_len(s@) <= usize::MAX,
    ensures
        source_lines_view(r@) == lines_at(s@, off as nat),
        forall|k: int| 0 <= k < r@.len() ==> #[trigger] r@[k].byte_offset + utf8_len(r@[k].text@) <= off
            + utf8_len(s@),
{
    let mut out: Vec<SourceLine> = Vec::new();
    let mut start: usize = 0;
    let mut cur: usize = off;
    let mut i: usize = 0;
    proof {
        assert(s@.skip(0) =~= s@);
        assert(s@.take(0) =~= Seq::<char>::empty());
        assert(source_lines_view(out@) + lines_at(s@, off as nat) =~= lines_at(s@, off as nat));
    }
    while i < s.len()
        invariant
            start <= i <= s@.len(),
            off + utf8_len(s@) <= usize::MAX,
            cur == off + utf8_len(s@.take(start as int)),
            forall|j: int| start <= j < i ==> s@[j] != '\n',
            lines_at(s@, off as nat) == source_lines_view(out@) + lines_at(
                s@.skip(start as int),
                cur as nat,
            ),
            forall|k: int| 0 <= k < out@.len() ==> #[trigger] out@[k].byte_offset + utf8_len(out@[k].text@)
                <= off + utf8_len(s@),
        decreases s.len() - i,
    {
        if s[i] == '\n' {
            let ghost rest = s@.skip(start as int);
            proof {
                lemma_lines_at_step(rest, cur as nat, i - start);
                assert(rest.take(i - start) =~= s@.subrange(start as int, i as int));
                assert(rest.take(i - start + 1) =~= s@.subrange(start as int, i + 1));
                assert(rest.skip(i - start + 1) =~= s@.skip(i + 1));
                lemma_utf8_len_subrange(s@, 0, start as int);
                lemma_utf8_len_subrange(s@, start as int, i + 1);
                lemma_utf8_len_subrange(s@, 0, i + 1);
                crate::position::lemma_utf8_len_add(s@.take(start as int), s@.subrange(start as int, i + 1));
                assert(s@.take(start as int) + s@.subrange(start as int, i + 1) =~= s@.take(i + 1));
                assert(s@.subrange(0, i + 1) =~= s@.take(i + 1));
                assert(s@.subrange(0, start as int) =~= s@.take(start as int));
                lemma_utf8_len_subrange(s@.subrange(start as int, i + 1), 0, i - start);
                assert(s@.subrange(start as int, i + 1).subrange(0, i - start) =~= s@.subrange(start as int, i as int));
            }
            let piece = slice_of(s, start, i);
            let width = utf8_len_prefix(&s[start..i + 1], i + 1 - start);
            let piece = strip_cr_exec(piece);
            proof {
                assert(s@.subrange(start as int, i + 1).take(i + 1 - start) =~= s@.subrange(start as int, i + 1));
                if piece@.len() < i - start {
                    assert(piece@ =~= s@.subrange(start as int, i as int).drop_last());
                    lemma_utf8_len_subrange(s@.subrange(start as int, i as int), 0, piece@.len() as int);
                    assert(s@.subrange(start as int, i as int).subrange(0, piece@.len() as int) =~= piece@);
                }
            }
            let ghost before = source_lines_view(out@);
            let line = SourceLine { text: piece, byte_offset: cur };
            out.push(line);
            start = i + 1;
            cur = cur + width;
            proof {
                assert(source_lines_view(out@) =~= before.push((piece@, (cur - width) as nat)));
                assert(before + (seq![(piece@, (cur - width) as nat)] + lines_at(s@.skip(start as int), cur as nat))
                    =~= before.push((piece@, (cur - width) as nat)) + lines_at(s@.skip(start as int), cur as nat));
                assert forall|k: int| 0 <= k < out@.len() implies #[trigger] out@[k].byte_offset + utf8_len(out@[k].text@)
                    <= off + utf8_len(s@) by {
                    if k == out@.len() - 1 {
                        lemma_utf8_len_subrange(s@, 0, i + 1);
                    }
                }
            }
        }
        i += 1;
    }
    if start < s.len() {
        let ghost rest = s@.skip(start as int);
        proof {
            lemma_find_char(rest, '\n');
            assert(lines_at(rest, cur as nat) == seq![(rest, cur as nat)]);
            lemma_utf8_len_subrange(s@, 0, start as int);
            assert(s@.subrange(0, start as int) =~= s@.take(start as int));
            assert(s@.subrange(start as int, s@.len() as int) =~= rest);
        }
        let piece = slice_of(s, start, s.len());
        let ghost before = source_lines_view(out@);
        out.push(SourceLine { text: piece, byte_offset: cur });
        proof {
            assert(source_lines_view(out@) =~= before.push((piece@, cur as nat)));
            assert(piece@ =~= rest);
            assert(lines_at(s@, off as nat) =~= source_lines_view(out@));
        }
    } else {
        proof {
            assert(lines_at(s@.skip(start as int), cur as nat) =~= Seq::<(Seq<char>, nat)>::empty());
            assert(lines_at(s@, off as nat) =~= source_lines_view(out@));
        }
    }
    out
}

// ---------------------------------------------------------------------------
// Subscripts
// ---------------------------------------------------------------------------

/// A finding: the index, the tuple's length and the span of `name[index]`.
pub struct TupleIndexDiagnostic {
    pub index: i64,
    pub tuple_len: usize,
    pub span: Span,
}

pub struct TupleDiagV {
    pub index: int,
    pub tuple_len: nat,
    pub start: u32,
    pub end: u32,
}

impl TupleIndexDiagnostic {
    /// The finding's message: the index and the tuple's length.
    pub fn message(&self) -> (r: Vec<char>)
        ensures
            r@ == "Tuple index "@ + crate::numbers::decimal_of(self.index as int)
                + " is out of range for `tuple` of length "@ + crate::numbers::decimal_nat(self.tuple_len as nat),
    {
        let mut m = crate::text::chars_of("Tuple index ");
        crate::text::push_chars(&mut m, crate::numbers::i64_to_decimal(self.index).as_slice());
        crate::text::push_lit(&mut m, " is out of range for `tuple` of length ");
        crate::text::push_chars(&mut m, crate::numbers::usize_to_decimal(self.tuple_len).as_slice());
        m
    }
}

pub open spec fn tuple_diag_view(d: TupleIndexDiagnostic) -> TupleDiagV {
    TupleDiagV {
        index: d.index as int,
        tuple_len: d.tuple_len as nat,
        start: d.span.start,
        end: d.span.end,
    }
}

pub open spec fn tuple_diags_view(v: Seq<TupleIndexDiagnostic>) -> Seq<TupleDiagV> {
    v.map_values(|d: TupleIndexDiagnostic| tuple_diag_view(d))
}

pub open spec fn int_pairs_view(v: Seq<(Vec<char>, i64)>) -> Seq<(Seq<char>, int)> {
    v.map_values(|e: (Vec<char>, i64)| (e.0@, e.1 as int))
}

/// An index outside `-len..len`.
pub open spec fn out_of_range(idx: int, len: nat) -> bool {
    if idx >= 0 {
        idx >= len
    } else {
        idx < -len
    }
}

/// The value of an index expression: a decimal literal, else the value of a
/// `Literal[N]` parameter of that name.
pub open spec fn index_value(e: Seq<char>, lits: Seq<(Seq<char>, int)>) -> Option<int> {
    match dec_int(e) {
        Some(v) => Some(v),
        None => assoc_get(lits, e),
    }
}

/// The character before index `a` continues an identifier.
pub open spec fn prev_is_ident(t: Seq<char>, a: int) -> bool {
    a > 0 && (is_ascii_alnum(t[a - 1]) || t[a - 1] == '_')
}

/// The findings for `name[...]` subscripts in `t` from index `from` on; `base`
/// is the byte offset of `t` in the source.
pub open spec fn subscript_diags(
    t: Seq<char>,
    name: Seq<char>,
    len: nat,
    lits: Seq<(Seq<char>, int)>,
    base: int,
    from: int,
) -> Seq<TupleDiagV>
    decreases t.len() - from,
{
    if from < 0 || from > t.len() {
        Seq::empty()
    } else {
        let pat = name.push('[');
        match find_str(t.skip(from), pat) {
            None => Seq::empty(),
            Some(q) => {
                proof {
                    lemma_find_str(t.skip(from), pat);
                }
                let a = from + q;
                let b = a + name.len();
                let after = t.skip(b + 1);
                let here = if prev_is_ident(t, a) {
                    Seq::empty()
                } else {
                    match first_where(closing_sq(after), after.len() as int) {
                        None => Seq::empty(),
                        Some(cl) => match index_value(trim(after.take(cl)), lits) {
                            Some(idx) => if out_of_range(idx, len) {
                                let start = base + utf8_len(t.take(a));
                                let width = utf8_len(name) + utf8_len(after.take(cl)) + 2;
                                seq![
                                    TupleDiagV {
                                        index: idx,
                                        tuple_len: len,
                                        start: start as u32,
                                        end: (start + width) as u32,
                                    },
                                ]
                            } else {
                                Seq::empty()
                            },
                            None => Seq::empty(),
                        },
                    }
                };
                here + subscript_diags(t, name, len, lits, base, b + 1)
            },
        }
    }
}

/// The value of a `Literal[N]` parameter named `name`.
fn find_int_param(lits: &Vec<(Vec<char>, i64)>, name: &[char]) -> (r: Option<i64>)
    ensures
        match r {
            Some(v) => assoc_get(int_pairs_view(lits@), name@) == Some(v as int),
            None => assoc_get(int_pairs_view(lits@), name@) is None,
        },
{
    let r = assoc_find(lits, name);
    proof {
        let m = int_pairs_view(lits@);
        lemma_assoc_index(m, name@);
        match r {
            Some(i) => {
                assert forall|j: int| 0 <= j < i implies m[j].0 != name@ by {
                    assert(m[j].0 == lits@[j].0@);
                }
                lemma_assoc_index_at(m, name@, i as int);
            },
            None => {
                assert forall|j: int| 0 <= j < m.len() implies m[j].0 != name@ by {
                    assert(m[j].0 == lits@[j].0@);
                }
            },
        }
    }
    match r {
        Some(i) => Some(lits[i].1),
        None => None,
    }
}

proof fn lemma_subscript_step(
    t: Seq<char>,
    name: Seq<char>,
    len: nat,
    lits: Seq<(Seq<char>, int)>,
    base: int,
    from: int,
)
    requires
        0 <= from <= t.len(),
    ensures
        subscript_diags(t, name, len, lits, base, from) == (match find_str(t.skip(from), name.push('[')) {
            None => Seq::empty(),
            Some(q) => {
                let a = from + q;
                let b = a + name.len();
                let after = t.skip(b + 1);
                let here = if prev_is_ident(t, a) {
                    Seq::empty()
                } else {
                    match first_where(closing_sq(after), after.len() as int) {
                        None => Seq::empty(),
                        Some(cl) => match index_value(trim(after.take(cl)), lits) {
                            Some(idx) => if out_of_range(idx, len) {
                                let start = base + utf8_len(t.take(a));
                                let width = utf8_len(name) + utf8_len(after.take(cl)) + 2;
                                seq![
                                    TupleDiagV {
                                        index: idx,
                                        tuple_len: len,
                                        start: start as u32,
                                        end: (start + width) as u32,
                                    },
                                ]
                            } else {
                                Seq::empty()
                            },
                            None => Seq::empty(),
                        },
                    }
                };
                here + subscript_diags(t, name, len, lits, base, b + 1)
            },
        }),
{
}

/// `check_subscript_on_line`: the findings for `tuple_name[...]` subscripts in
/// the trimmed line `trimmed`, which starts at byte `base` of the source.
pub fn check_subscript_on_line(
    trimmed: &[char],
    tuple_name: &[char],
    tuple_len: usize,
    literal_int_params: &Vec<(Vec<char>, i64)>,
    base: u64,
    diagnostics: &mut Vec<TupleIndexDiagnostic>,
)
    requires
        base <= u32::MAX,
        utf8_len(trimmed@) <= u32::MAX,
    ensures
        tuple_diags_view(final(diagnostics)@) == tuple_diags_view(old(diagnostics)@) + subscript_diags(
            trimmed@,
            tuple_name@,
            tuple_len as nat,
            int_pairs_view(literal_int_params@),
            base as int,
            0,
        ),
{
    let ghost t = trimmed@;
    let ghost lits = int_pairs_view(literal_int_params@);
    let ghost d0 = tuple_diags_view(diagnostics@);
    let mut pat = slice_of(tuple_name, 0, tuple_name.len());
    pat.push('[');
    proof {
        assert(pat@ =~= tuple_name@.push('['));
    }
    let n = trimmed.len();
    let mut search_from: usize = 0;
    proof {
        assert(d0 + subscript_diags(t, tuple_name@, tuple_len as nat, lits, base as int, 0) =~= tuple_diags_view(
            diagnostics@,
        ) + subscript_diags(t, tuple_name@, tuple_len as nat, lits, base as int, search_from as int));
    }
    while search_from <= n
        invariant
            n == t.len(),
            t == trimmed@,
            d0 == tuple_diags_view(old(diagnostics)@),
            lits == int_pairs_view(literal_int_params@),
            pat@ == tuple_name@.push('['),
            base <= u32::MAX,
            utf8_len(t) <= u32::MAX,
            d0 + subscript_diags(t, tuple_name@, tuple_len as nat, lits, base as int, 0) == tuple_diags_view(
                diagnostics@,
            ) + subscript_diags(t, tuple_name@, tuple_len as nat, lits, base as int, search_from as int),
        decreases n + 1 - search_from,
    {
        proof {
            lemma_subscript_step(t, tuple_name@, tuple_len as nat, lits, base as int, search_from as int);
        }
        let rest = slice_of(trimmed, search_from, n);
        proof {
            assert(rest@ =~= t.skip(search_from as int));
            lemma_find_str(rest@, pat@);
        }
        let q = match find_str_exec(rest.as_slice(), pat.as_slice()) {
            Some(q) => q,
            None => {
                proof {
                    assert(tuple_diags_view(diagnostics@) + Seq::<TupleDiagV>::empty() =~= tuple_diags_view(
                        diagnostics@,
                    ));
                }
                return ;
            },
        };
        let abs_pos = search_from + q;
        let bracket_pos = abs_pos + tuple_name.len();
        proof {
            assert(bracket_pos + 1 <= n);
        }
        let ghost here_start = tuple_diags_view(diagnostics@);
        if abs_pos > 0 && (crate::text::is_ascii_alphanumeric(trimmed[abs_pos - 1]) || trimmed[abs_pos - 1] == '_') {
            proof {
                assert(prev_is_ident(t, abs_pos as int));
                assert(Seq::<TupleDiagV>::empty() + subscript_diags(t, tuple_name@, tuple_len as nat, lits, base as int, bracket_pos + 1)
                    =~= subscript_diags(t, tuple_name@, tuple_len as nat, lits, base as int, bracket_pos + 1));
            }
            search_from = bracket_pos + 1;
            continue;
        }
        let after = slice_of(trimmed, bracket_pos + 1, n);
        proof {
            assert(after@ =~= t.skip(bracket_pos + 1));
        }
        match find_matching_bracket(after.as_slice()) {
            None => {
                proof {
                    assert(Seq::<TupleDiagV>::empty() + subscript_diags(t, tuple_name@, tuple_len as nat, lits, base as int, bracket_pos + 1)
                        =~= subscript_diags(t, tuple_name@, tuple_len as nat, lits, base as int, bracket_pos + 1));
                }
            },
            Some(close) => {
                proof {
                    crate::text::lemma_first_where_some(closing_sq(after@), after@.len() as int);
                }
                let inner = slice_of(after.as_slice(), 0, close);
                let index_expr = trim_chars(inner.as_slice());
                proof {
                    assert(inner@ =~= after@.take(close as int));
                }
                let index_value = match parse_int_literal(index_expr.as_slice()) {
                    Some(v) => Some(v),
                    None => find_int_param(literal_int_params, index_expr.as_slice()),
                };
                let mut emitted = false;
                if let Some(idx) = index_value {
                    let tl = tuple_len as i128;
                    let out = if idx >= 0 {
                        idx as i128 >= tl
                    } else {
                        (idx as i128) < -tl
                    };
                    if out {
                        proof {
                            lemma_utf8_len_subrange(t, 0, abs_pos as int);
                            assert(t.subrange(0, abs_pos as int) =~= t.take(abs_pos as int));
                            lemma_utf8_len_subrange(tuple_name@, 0, tuple_name@.len() as int);
                            lemma_utf8_len_subrange(after@, 0, close as int);
                            assert(after@.subrange(0, close as int) =~= after@.take(close as int));
                            assert(tuple_name@.subrange(0, tuple_name@.len() as int) =~= tuple_name@);
                            lemma_utf8_len_subrange(t, abs_pos as int, bracket_pos as int);
                            assert(t.subrange(abs_pos as int, bracket_pos as int) =~= tuple_name@) by {
                                assert(rest@.subrange(q as int, q + pat@.len()) =~= pat@);
                                assert(t.subrange(abs_pos as int, bracket_pos as int) =~= rest@.subrange(
                                    q as int,
                                    q + tuple_name@.len(),
                                ));
                                assert(rest@.subrange(q as int, q + tuple_name@.len()) =~= pat@.take(
                                    tuple_name@.len() as int,
                                ));
                                assert(pat@.take(tuple_name@.len() as int) =~= tuple_name@);
                            }
                            lemma_utf8_len_subrange(t, bracket_pos + 1, n as int);
                            assert(t.subrange(bracket_pos + 1, n as int) =~= after@);
                        }
                        let pre = utf8_len_prefix(trimmed, abs_pos);
                        let name_w = utf8_len_prefix(tuple_name, tuple_name.len());
                        let inner_w = utf8_len_prefix(after.as_slice(), close);
                        let start: u64 = base + pre as u64;
                        let width: u64 = name_w as u64 + inner_w as u64 + 2;
                        let d = TupleIndexDiagnostic {
                            index: idx,
                            tuple_len,
                            span: Span { start: start as u32, end: (start + width) as u32 },
                        };
                        diagnostics.push(d);
                        emitted = true;
                        proof {
                            assert(tuple_name@.take(tuple_name@.len() as int) =~= tuple_name@);
                            assert(tuple_diags_view(diagnostics@) =~= here_start.push(tuple_diag_view(d)));
                        }
                    }
                }
                proof {
                    if !emitted {
                        assert(tuple_diags_view(diagnostics@) =~= here_start);
                    }
                    assert(here_start + subscript_diags(t, tuple_name@, tuple_len as nat, lits, base as int, search_from as int)
                        =~= tuple_diags_view(diagnostics@) + subscript_diags(t, tuple_name@, tuple_len as nat, lits, base as int, bracket_pos + 1));
                }
            },
        }
        search_from = bracket_pos + 1;
    }
}

// ---------------------------------------------------------------------------
// The rule
// ---------------------------------------------------------------------------

/// A parameter with a fixed-length tuple annotation, and its length.
pub open spec fn tuple_param(p: ParamAnnotation) -> Seq<(Seq<char>, nat)> {
    match p.annotation {
        Some(a) => match fixed_tuple_len(trim(a@)) {
            Some(n) => seq![(p.name@, n)],
            None => Seq::empty(),
        },
        None => Seq::empty(),
    }
}

/// A parameter with a `Literal[N]` annotation (and no tuple one), and `N`.
pub open spec fn int_param(p: ParamAnnotation) -> Seq<(Seq<char>, int)> {
    match p.annotation {
        Some(a) => if fixed_tuple_len(trim(a@)) is Some {
            Seq::empty()
        } else {
            match literal_int_ann(trim(a@)) {
                Some(v) => seq![(p.name@, v)],
                None => Seq::empty(),
            }
        },
        None => Seq::empty(),
    }
}

pub open spec fn tuple_params(ps: Seq<ParamAnnotation>) -> Seq<(Seq<char>, nat)>
    decreases ps.len(),
{
    if ps.len() == 0 {
        Seq::empty()
    } else {
        tuple_params(ps.drop_last()) + tuple_param(ps.last())
    }
}

pub open spec fn int_params(ps: Seq<ParamAnnotation>) -> Seq<(Seq<char>, int)>
    decreases ps.len(),
{
    if ps.len() == 0 {
        Seq::empty()
    } else {
        int_params(ps.drop_last()) + int_param(ps.last())
    }
}

pub open spec fn len_pairs_view(v: Seq<(Vec<char>, usize)>) -> Seq<(Seq<char>, nat)> {
    v.map_values(|e: (Vec<char>, usize)| (e.0@, e.1 as nat))
}

/// The findings of a trimmed line for each tuple parameter in turn.
pub open spec fn line_tuple_diags(
    t: Seq<char>,
    base: int,
    tps: Seq<(Seq<char>, nat)>,
    lits: Seq<(Seq<char>, int)>,
) -> Seq<TupleDiagV>
    decreases tps.len(),
{
    if tps.len() == 0 {
        Seq::empty()
    } else {
        line_tuple_diags(t, base, tps.drop_last(), lits) + subscript_diags(
            t,
            tps.last().0,
            tps.last().1,
            lits,
            base,
            0,
        )
    }
}

/// The byte offset of a line's trimmed text: the line's offset plus where the
/// trimmed text first occurs in it.
pub open spec fn trimmed_base(line: Seq<char>, off: nat) -> int {
    off + match find_str(line, trim(line)) {
        Some(p) => utf8_len(line.take(p)) as int,
        None => 0int,
    }
}

/// An indented line: one that starts with a space or a tab.
pub open spec fn is_indented(line: Seq<char>) -> bool {
    line.len() > 0 && (line[0] == ' ' || line[0] == '\t')
}

/// The findings of the body lines: blank lines are skipped, and the scan stops
/// at the first line that is not indented.
pub open spec fn body_tuple_diags(
    ls: Seq<(Seq<char>, nat)>,
    tps: Seq<(Seq<char>, nat)>,
    lits: Seq<(Seq<char>, int)>,
) -> Seq<TupleDiagV>
    decreases ls.len(),
{
    if ls.len() == 0 {
        Seq::empty()
    } else if trim(ls[0].0).len() == 0 {
        body_tuple_diags(ls.skip(1), tps, lits)
    } else if !is_indented(ls[0].0) {
        Seq::empty()
    } else {
        line_tuple_diags(trim(ls[0].0), trimmed_base(ls[0].0, ls[0].1), tps, lits) + body_tuple_diags(
            ls.skip(1),
            tps,
            lits,
        )
    }
}

/// The findings of one function: none without a tuple parameter; otherwise
/// those of the lines after the `def` line.
pub open spec fn function_tuple_diags(source: Seq<char>, def_start: int, params: Seq<ParamAnnotation>) -> Seq<
    TupleDiagV,
> {
    let tps = tuple_params(params);
    let ls = lines_at(source.skip(def_start), utf8_len(source.take(def_start)));
    if tps.len() == 0 || ls.len() == 0 {
        Seq::empty()
    } else {
        body_tuple_diags(ls.skip(1), tps, int_params(params))
    }
}

pub open spec fn module_tuple_diags(source: Seq<char>, fs: Seq<FunctionSignature>) -> Seq<TupleDiagV>
    decreases fs.len(),
{
    if fs.len() == 0 {
        Seq::empty()
    } else {
        module_tuple_diags(source, fs.drop_last()) + function_tuple_diags(
            source,
            fs.last().def_start as int,
            fs.last().params@,
        )
    }
}

/// The tuple parameters and the `Literal[N]` parameters of a function.
pub fn collect_index_params(params: &Vec<ParamAnnotation>) -> (r: (Vec<(Vec<char>, usize)>, Vec<(Vec<char>, i64)>))
    ensures
        len_pairs_view(r.0@) == tuple_params(params@),
        int_pairs_view(r.1@) == int_params(params@),
{
    let mut tps: Vec<(Vec<char>, usize)> = Vec::new();
    let mut lits: Vec<(Vec<char>, i64)> = Vec::new();
    let mut i: usize = 0;
    while i < params.len()
        invariant
            i <= params@.len(),
            len_pairs_view(tps@) == tuple_params(params@.take(i as int)),
            int_pairs_view(lits@) == int_params(params@.take(i as int)),
        decreases params.len() - i,
    {
        proof {
            assert(params@.take(i + 1).drop_last() =~= params@.take(i as int));
        }
        let ghost t0 = len_pairs_view(tps@);
        let ghost l0 = int_pairs_view(lits@);
        let p = &params[i];
        match &p.annotation {
            Some(a) => {
                let ann = trim_chars(a.as_slice());
                let name = slice_of(p.name.as_slice(), 0, p.name.len());
                proof {
                    assert(name@ =~= p.name@);
                }
                match parse_fixed_tuple_length(ann.as_slice()) {
                    Some(n) => {
                        tps.push((name, n));
                        proof {
                            assert(len_pairs_view(tps@) =~= t0 + tuple_param(*p));
                            assert(int_pairs_view(lits@) =~= l0 + int_param(*p));
                        }
                    },
                    None => {
                        match parse_literal_int_annotation(ann.as_slice()) {
                            Some(v) => {
                                lits.push((name, v));
                            },
                            None => {},
                        }
                        proof {
                            assert(len_pairs_view(tps@) =~= t0 + tuple_param(*p));
                            assert(int_pairs_view(lits@) =~= l0 + int_param(*p));
                        }
                    },
                }
            },
            None => {
                proof {
                    assert(len_pairs_view(tps@) =~= t0 + tuple_param(*p));
                    assert(int_pairs_view(lits@) =~= l0 + int_param(*p));
                }
            },
        }
        i += 1;
    }
    proof {
        assert(params@.take(i as int) =~= params@);
    }
    (tps, lits)
}

fn check_line_tuples(
    trimmed: &[char],
    base: u64,
    tps: &Vec<(Vec<char>, usize)>,
    lits: &Vec<(Vec<char>, i64)>,
    diagnostics: &mut Vec<TupleIndexDiagnostic>,
)
    requires
        base <= u32::MAX,
        utf8_len(trimmed@) <= u32::MAX,
    ensures
        tuple_diags_view(final(diagnostics)@) == tuple_diags_view(old(diagnostics)@) + line_tuple_diags(
            trimmed@,
            base as int,
            len_pairs_view(tps@),
            int_pairs_view(lits@),
        ),
{
    let ghost d0 = tuple_diags_view(diagnostics@);
    let mut j: usize = 0;
    proof {
        assert(len_pairs_view(tps@).take(0) =~= Seq::<(Seq<char>, nat)>::empty());
        assert(d0 + Seq::<TupleDiagV>::empty() =~= d0);
    }
    while j < tps.len()
        invariant
            j <= tps@.len(),
            base <= u32::MAX,
            utf8_len(trimmed@) <= u32::MAX,
            d0 == tuple_diags_view(old(diagnostics)@),
            tuple_diags_view(diagnostics@) == d0 + line_tuple_diags(
                trimmed@,
                base as int,
                len_pairs_view(tps@).take(j as int),
                int_pairs_view(lits@),
            ),
        decreases tps.len() - j,
    {
        let ghost before = tuple_diags_view(diagnostics@);
        check_subscript_on_line(trimmed, tps[j].0.as_slice(), tps[j].1, lits, base, diagnostics);
        proof {
            let tv = len_pairs_view(tps@);
            assert(tv.take(j + 1).drop_last() =~= tv.take(j as int));
            assert(tv.take(j + 1).last() == (tps@[j as int].0@, tps@[j as int].1 as nat));
            assert(tuple_diags_view(diagnostics@) =~= d0 + line_tuple_diags(
                trimmed@,
                base as int,
                tv.take(j + 1),
                int_pairs_view(lits@),
            ));
        }
        j += 1;
    }
    proof {
        assert(len_pairs_view(tps@).take(j as int) =~= len_pairs_view(tps@));
    }
}

proof fn lemma_body_step(ls: Seq<(Seq<char>, nat)>, tps: Seq<(Seq<char>, nat)>, lits: Seq<(Seq<char>, int)>)
    requires
        ls.len() > 0,
    ensures
        body_tuple_diags(ls, tps, lits) == if trim(ls[0].0).len() == 0 {
            body_tuple_diags(ls.skip(1), tps, lits)
        } else if !is_indented(ls[0].0) {
            Seq::empty()
        } else {
            line_tuple_diags(trim(ls[0].0), trimmed_base(ls[0].0, ls[0].1), tps, lits) + body_tuple_diags(
                ls.skip(1),
                tps,
                lits,
            )
        },
{
}

fn check_function_tuples(
    source: &[char],
    f: &FunctionSignature,
    diagnostics: &mut Vec<TupleIndexDiagnostic>,
)
    requires
        utf8_len(source@) <= u32::MAX,
        f.def_start <= source@.len(),
    ensures
        tuple_diags_view(final(diagnostics)@) == tuple_diags_view(old(diagnostics)@) + function_tuple_diags(
            source@,
            f.def_start as int,
            f.params@,
        ),
{
    let ghost d0 = tuple_diags_view(diagnostics@);
    proof {
        assert(d0 + Seq::<TupleDiagV>::empty() =~= d0);
    }
    let (tps, lits) = collect_index_params(&f.params);
    if tps.len() == 0 {
        return ;
    }
    let n = source.len();
    let body = slice_of(source, f.def_start, n);
    proof {
        assert(body@ =~= source@.skip(f.def_start as int));
        lemma_utf8_len_subrange(source@, 0, f.def_start as int);
        assert(source@.subrange(0, f.def_start as int) =~= source@.take(f.def_start as int));
        assert(source@.subrange(f.def_start as int, n as int) =~= body@);
    }
    let start = utf8_len_prefix(source, f.def_start);
    let ls = lines_with_offsets(body.as_slice(), start);
    let ghost all = lines_at(body@, start as nat);
    if ls.len() == 0 {
        return ;
    }
    let ghost tv = len_pairs_view(tps@);
    let ghost lv = int_pairs_view(lits@);
    let mut k: usize = 1;
    proof {
        assert(source_lines_view(ls@).skip(1) =~= all.skip(1));
        assert(d0 + body_tuple_diags(all.skip(1), tv, lv) =~= tuple_diags_view(diagnostics@)
            + body_tuple_diags(source_lines_view(ls@).skip(k as int), tv, lv));
    }
    loop
        invariant_except_break
            d0 + body_tuple_diags(all.skip(1), tv, lv) == tuple_diags_view(diagnostics@)
                + body_tuple_diags(source_lines_view(ls@).skip(k as int), tv, lv),
        invariant
            1 <= k <= ls@.len(),
            all == source_lines_view(ls@),
            all.len() > 0,
            tv == len_pairs_view(tps@),
            lv == int_pairs_view(lits@),
            utf8_len(source@) <= u32::MAX,
            start + utf8_len(body@) == utf8_len(source@),
            forall|q: int| 0 <= q < ls@.len() ==> #[trigger] ls@[q].byte_offset + utf8_len(ls@[q].text@) <= start
                + utf8_len(body@),
        ensures
            d0 + body_tuple_diags(all.skip(1), tv, lv) == tuple_diags_view(diagnostics@),
        decreases ls.len() - k,
    {
        let ghost rest = source_lines_view(ls@).skip(k as int);
        if k >= ls.len() {
            proof {
                assert(rest.len() == 0);
                assert(body_tuple_diags(rest, tv, lv) =~= Seq::<TupleDiagV>::empty());
                assert(tuple_diags_view(diagnostics@) + Seq::<TupleDiagV>::empty() =~= tuple_diags_view(diagnostics@));
            }
            break;
        }
        proof {
            lemma_body_step(rest, tv, lv);
            assert(rest[0] == (ls@[k as int].text@, ls@[k as int].byte_offset as nat));
            assert(rest.skip(1) =~= source_lines_view(ls@).skip(k + 1));
        }
        let line = &ls[k];
        let trimmed = trim_chars(line.text.as_slice());
        if trimmed.len() == 0 {
            k += 1;
            continue;
        }
        if !(line.text.len() > 0 && (line.text[0] == ' ' || line.text[0] == '\t')) {
            proof {
                assert(tuple_diags_view(diagnostics@) + Seq::<TupleDiagV>::empty() =~= tuple_diags_view(diagnostics@));
            }
            break;
        }
        proof {
            crate::literal_assign::lemma_trim_utf8(line.text@);
            lemma_find_str(line.text@, trimmed@);
            assert(ls@[k as int].byte_offset + utf8_len(ls@[k as int].text@) <= start + utf8_len(body@));
        }
        let lead = match find_str_exec(line.text.as_slice(), trimmed.as_slice()) {
            Some(p) => {
                proof {
                    lemma_utf8_len_subrange(line.text@, 0, p as int);
                    assert(line.text@.subrange(0, p as int) =~= line.text@.take(p as int));
                }
                utf8_len_prefix(line.text.as_slice(), p)
            },
            None => 0,
        };
        let base: u64 = line.byte_offset as u64 + lead as u64;
        let ghost mid = tuple_diags_view(diagnostics@);
        check_line_tuples(trimmed.as_slice(), base, &tps, &lits, diagnostics);
        proof {
            assert(base as int == trimmed_base(line.text@, line.byte_offset as nat));
            assert(tuple_diags_view(diagnostics@) + body_tuple_diags(source_lines_view(ls@).skip(k + 1), tv, lv)
                =~= mid + body_tuple_diags(rest, tv, lv));
        }
        k += 1;
    }
}

/// Detects out-of-range literal indices on fixed-length tuple parameters.
pub struct TupleIndexOutOfRange;

impl TupleIndexOutOfRange {
    /// Every finding of every function, in order.
    pub fn check(&self, source: &[char], functions: &Vec<FunctionSignature>) -> (r: Vec<
        TupleIndexDiagnostic,
    >)
        requires
            utf8_len(source@) <= u32::MAX,
            forall|i: int| 0 <= i < functions@.len() ==> #[trigger] functions@[i].def_start <= source@.len(),
        ensures
            tuple_diags_view(r@) == module_tuple_diags(source@, functions@),
    {
        let mut out: Vec<TupleIndexDiagnostic> = Vec::new();
        let mut i: usize = 0;
        while i < functions.len()
            invariant
                i <= functions@.len(),
                utf8_len(source@) <= u32::MAX,
                forall|j: int| 0 <= j < functions@.len() ==> #[trigger] functions@[j].def_start <= source@.len(),
                tuple_diags_view(out@) == module_tuple_diags(source@, functions@.take(i as int)),
            decreases functions.len() - i,
        {
            proof {
                assert(functions@.take(i + 1).drop_last() =~= functions@.take(i as int));
                assert(functions@[i as int].def_start <= source@.len());
            }
            check_function_tuples(source, &functions[i], &mut out);
            i += 1;
        }
        proof {
            assert(functions@.take(i as int) =~= functions@);
        }
        out
    }
}

// ---------------------------------------------------------------------------
// Laws
// ---------------------------------------------------------------------------

/// Python's reading of index `i` on a sequence of length `n`: a negative
/// index counts back from the end, and the index names an element when the
/// position it gives lies in `0..n`.
pub open spec fn names_element(i: int, n: nat) -> bool {
    let p = if i < 0 {
        i + n
    } else {
        i
    };
    0 <= p < n
}

/// An index is out of range exactly when it names no element of the tuple:
/// for length `n`, every index in `-n..n` (both `-n` and `n - 1` included)
/// is in range, and every other index is out of it.
pub proof fn law_out_of_range_iff_no_element(i: int, n: nat)
    ensures
        out_of_range(i, n) <==> !names_element(i, n),
        (-n <= i < n) ==> !out_of_range(i, n),
        (i >= n || i < -n) ==> out_of_range(i, n),
{
}

/// Every finding is about an index that names no element of its tuple.
pub open spec fn only_missing_elements(ds: Seq<TupleDiagV>) -> bool {
    forall|k: int| 0 <= k < ds.len() ==> !names_element(#[trigger] ds[k].index, ds[k].tuple_len)
}

proof fn lemma_missing_concat(a: Seq<TupleDiagV>, b: Seq<TupleDiagV>)
    requires
        only_missing_elements(a),
        only_missing_elements(b),
    ensures
        only_missing_elements(a + b),
{
    assert forall|k: int| 0 <= k < (a + b).len() implies !names_element(
        #[trigger] (a + b)[k].index,
        (a + b)[k].tuple_len,
    ) by {
        if k < a.len() {
            assert((a + b)[k] == a[k]);
        } else {
            assert((a + b)[k] == b[k - a.len()]);
        }
    }
}

proof fn lemma_subscript_diags_missing(
    t: Seq<char>,
    name: Seq<char>,
    len: nat,
    lits: Seq<(Seq<char>, int)>,
    base: int,
    from: int,
)
    ensures
        only_missing_elements(subscript_diags(t, name, len, lits, base, from)),
    decreases t.len() - from,
{
    if from < 0 || from > t.len() {
    } else {
        lemma_subscript_step(t, name, len, lits, base, from);
        let pat = name.push('[');
        match find_str(t.skip(from), pat) {
            None => {},
            Some(q) => {
                lemma_find_str(t.skip(from), pat);
                let a = from + q;
                let b = a + name.len();
                let after = t.skip(b + 1);
                let here = if prev_is_ident(t, a) {
                    Seq::empty()
                } else {
                    match first_where(closing_sq(after), after.len() as int) {
                        None => Seq::empty(),
                        Some(cl) => match index_value(trim(after.take(cl)), lits) {
                            Some(idx) => if out_of_range(idx, len) {
                                let start = base + utf8_len(t.take(a));
                                let width = utf8_len(name) + utf8_len(after.take(cl)) + 2;
                                seq![
                                    TupleDiagV {
                                        index: idx,
                                        tuple_len: len,
                                        start: start as u32,
                                        end: (start + width) as u32,
                                    },
                                ]
                            } else {
                                Seq::empty()
                            },
                            None => Seq::empty(),
                        },
                    }
                };
                assert(only_missing_elements(here));
                if b + 1 <= t.len() {
                    lemma_subscript_diags_missing(t, name, len, lits, base, b + 1);
                } else {
                    assert(subscript_diags(t, name, len, lits, base, b + 1) =~= Seq::empty());
                }
                lemma_missing_concat(here, subscript_diags(t, name, len, lits, base, b + 1));
            },
        }
    }
}

proof fn lemma_line_missing(t: Seq<char>, base: int, tps: Seq<(Seq<char>, nat)>, lits: Seq<(Seq<char>, int)>)
    ensures
        only_missing_elements(line_tuple_diags(t, base, tps, lits)),
    decreases tps.len(),
{
    if tps.len() > 0 {
        lemma_line_missing(t, base, tps.drop_last(), lits);
        lemma_subscript_diags_missing(t, tps.last().0, tps.last().1, lits, base, 0);
        lemma_missing_concat(
            line_tuple_diags(t, base, tps.drop_last(), lits),
            subscript_diags(t, tps.last().0, tps.last().1, lits, base, 0),
        );
    }
}

proof fn lemma_body_missing(ls: Seq<(Seq<char>, nat)>, tps: Seq<(Seq<char>, nat)>, lits: Seq<(Seq<char>, int)>)
    ensures
        only_missing_elements(body_tuple_diags(ls, tps, lits)),
    decreases ls.len(),
{
    if ls.len() == 0 {
    } else if trim(ls[0].0).len() == 0 {
        lemma_body_missing(ls.skip(1), tps, lits);
    } else if !is_indented(ls[0].0) {
    } else {
        lemma_line_missing(trim(ls[0].0), trimmed_base(ls[0].0, ls[0].1), tps, lits);
        lemma_body_missing(ls.skip(1), tps, lits);
        lemma_missing_concat(
            line_tuple_diags(trim(ls[0].0), trimmed_base(ls[0].0, ls[0].1), tps, lits),
            body_tuple_diags(ls.skip(1), tps, lits),
        );
    }
}

/// What `TupleIndexOutOfRange::check` reports never names an element of its
/// tuple: a finding is made only for an index `i` of a length-`n` tuple with
/// `i >= n` or `i < -n`.
pub proof fn law_reported_indices_name_no_element(source: Seq<char>, fs: Seq<FunctionSignature>)
    ensures
        only_missing_elements(module_tuple_diags(source, fs)),
        forall|k: int|
            0 <= k < module_tuple_diags(source, fs).len() ==> {
                let d = #[trigger] module_tuple_diags(source, fs)[k];
                d.index >= d.tuple_len || d.index < -d.tuple_len
            },
    decreases fs.len(),
{
    if fs.len() > 0 {
        law_reported_indices_name_no_element(source, fs.drop_last());
        let f = fs.last();
        let tps = tuple_params(f.params@);
        let ls = lines_at(source.skip(f.def_start as int), utf8_len(source.take(f.def_start as int)));
        if !(tps.len() == 0 || ls.len() == 0) {
            lemma_body_missing(ls.skip(1), tps, int_params(f.params@));
        }
        lemma_missing_concat(
            module_tuple_diags(source, fs.drop_last()),
            function_tuple_diags(source, f.def_start as int, f.params@),
        );
    }
    let ds = module_tuple_diags(source, fs);
    assert forall|k: int| 0 <= k < ds.len() implies {
        let d = #[trigger] ds[k];
        d.index >= d.tuple_len || d.index < -d.tuple_len
    } by {
        assert(!names_element(ds[k].index, ds[k].tuple_len));
    }
}

} // verus!
