//! Scanning function bodies for assignments that break a `Literal[...]`
//! parameter type: a parameter of one literal type assigned to a local of
//! another, and augmented assignments to a literal parameter.
//!
//! Positions inside a line are character indices; offsets reported in spans are
//! UTF-8 byte offsets into the module source.
use vstd::prelude::*;

use crate::assoc::{assoc_find, assoc_get, lemma_assoc_index, lemma_assoc_index_at};
use crate::generic_calls::pairs_view;
use crate::literal_values::{
    contains_literal_subscript, extract_literal_values, has_literal_subscript, literal_values,
    literal_values_assignable, values_assignable,
};
use crate::position::{lemma_trim_lens, lemma_utf8_len_subrange, utf8_len, utf8_len_prefix, Span};
use crate::text::{
    before_char, before_char_exec, lemma_first_where_some, trim_start,
    all_alnum_or_underscore, char_is_alphabetic, depth_pbb, find_char, find_char_exec, find_str,
    find_str_exec, first_where, is_alnum_underscore_word, lemma_depth_pbb_bound, lemma_find_char,
    lemma_find_str, lemma_first_where_at, lemma_first_where_none, lines, lines_exec, slice_of,
    trim, trim_chars, unicode_alphabetic,
};

verus! {

// ---------------------------------------------------------------------------
// Indentation
// ---------------------------------------------------------------------------

/// Index of the first character that is not a space.
pub open spec fn non_space(s: Seq<char>) -> spec_fn(int) -> bool {
    |i: int| s[i] != ' '
}

/// The number of leading `' '` characters of a line (tabs do not count).
pub open spec fn leading_spaces(s: Seq<char>) -> nat {
    match first_where(non_space(s), s.len() as int) {
        Some(i) => i as nat,
        None => s.len(),
    }
}

/// The number of leading spaces of a line.
pub fn count_leading_spaces(line: &[char]) -> (r: usize)
    ensures
        r == leading_spaces(line@),
        r <= line@.len(),
{
    let mut i: usize = 0;
    while i < line.len()
        invariant
            i <= line@.len(),
            forall|j: int| 0 <= j < i ==> !#[trigger] non_space(line@)(j),
        decreases line.len() - i,
    {
        if line[i] != ' ' {
            proof {
                assert(non_space(line@)(i as int));
                lemma_first_where_at(non_space(line@), i as int, line@.len() as int);
            }
            return i;
        }
        i += 1;
    }
    proof {
        lemma_first_where_none(non_space(line@), line@.len() as int);
    }
    i
}

/// A line that holds code: not blank and not a comment.
pub open spec fn is_code_line(line: Seq<char>) -> bool {
    trim(line).len() > 0 && trim(line)[0] != '#'
}

/// The leading spaces of the first code line among `ls` (0 when there is none).
pub open spec fn first_code_indent(ls: Seq<Seq<char>>) -> nat
    decreases ls.len(),
{
    if ls.len() == 0 {
        0
    } else if is_code_line(ls[0]) {
        leading_spaces(ls[0])
    } else {
        first_code_indent(ls.skip(1))
    }
}

/// The indentation of a body: that of its first code line.
pub open spec fn body_indent(body: Seq<char>) -> nat {
    first_code_indent(lines(body))
}

/// The indentation of a function body: that of its first code line.
pub fn detect_body_indent(body_text: &[char]) -> (r: usize)
    ensures
        r == body_indent(body_text@),
{
    let ls = lines_exec(body_text);
    let ghost all = lines(body_text@);
    let mut k: usize = 0;
    proof {
        assert(all.skip(0) =~= all);
    }
    while k < ls.len()
        invariant
            k <= ls@.len(),
            all == crate::text::views(ls@),
            all == lines(body_text@),
            first_code_indent(all) == first_code_indent(all.skip(k as int)),
        decreases ls.len() - k,
    {
        let t = trim_chars(ls[k].as_slice());
        proof {
            assert(all.skip(k as int)[0] == ls@[k as int]@);
            assert(all.skip(k as int).skip(1) =~= all.skip(k + 1));
        }
        if t.len() > 0 && t[0] != '#' {
            proof {
                assert(is_code_line(all.skip(k as int)[0]));
                assert(all.skip(k as int).len() > 0);
                assert(first_code_indent(all.skip(k as int)) == leading_spaces(ls@[k as int]@));
            }
            return count_leading_spaces(ls[k].as_slice());
        }
        k += 1;
    }
    proof {
        assert(all.skip(k as int).len() == 0);
    }
    0
}

// ---------------------------------------------------------------------------
// Tokens of a line
// ---------------------------------------------------------------------------

/// An `=` at index `i` outside all brackets that is an assignment, not part of
/// `==`, `!=`, `<=` or `>=`.
pub open spec fn assign_eq_at(s: Seq<char>) -> spec_fn(int) -> bool {
    |i: int|
        s[i] == '=' && depth_pbb(s, i) == 0 && !(i + 1 < s.len() && s[i + 1] == '=') && !(i > 0
            && (s[i - 1] == '=' || s[i - 1] == '!' || s[i - 1] == '<' || s[i - 1] == '>'))
}

/// `find_top_level_eq`: the first assignment `=` outside brackets.
pub fn find_top_level_eq(text: &[char]) -> (r: Option<usize>)
    ensures
        match r {
            Some(i) => first_where(assign_eq_at(text@), text@.len() as int) == Some(i as int),
            None => first_where(assign_eq_at(text@), text@.len() as int) is None,
        },
{
    let n = text.len();
    let mut depth: i128 = 0;
    let mut i: usize = 0;
    while i < n
        invariant
            n == text@.len(),
            i <= n,
            depth == depth_pbb(text@, i as int),
            forall|j: int| 0 <= j < i ==> !#[trigger] assign_eq_at(text@)(j),
        decreases n - i,
    {
        proof {
            lemma_depth_pbb_bound(text@, i as int);
        }
        let c = text[i];
        if c == '=' && depth == 0 {
            let next_eq = i + 1 < n && text[i + 1] == '=';
            let prev_op = i > 0 && (text[i - 1] == '=' || text[i - 1] == '!' || text[i - 1] == '<'
                || text[i - 1] == '>');
            if !next_eq && !prev_op {
                proof {
                    assert(assign_eq_at(text@)(i as int));
                    lemma_first_where_at(assign_eq_at(text@), i as int, n as int);
                }
                return Some(i);
            }
        }
        proof {
            assert(!assign_eq_at(text@)(i as int));
        }
        if c == '[' || c == '(' || c == '{' {
            depth = depth + 1;
        } else if c == ']' || c == ')' || c == '}' {
            depth = depth - 1;
        }
        i += 1;
    }
    proof {
        lemma_first_where_none(assign_eq_at(text@), n as int);
    }
    None
}

/// A simple identifier after trimming: a letter or `_`, then letters, digits
/// and `_` (Unicode letters and digits count).
pub open spec fn simple_ident(s: Seq<char>) -> bool {
    let t = trim(s);
    t.len() > 0 && (unicode_alphabetic(t[0]) || t[0] == '_') && all_alnum_or_underscore(t)
}

/// Whether the trimmed text is a single identifier.
pub fn is_simple_identifier(source: &[char]) -> (r: bool)
    ensures
        r == simple_ident(source@),
{
    let t = trim_chars(source);
    if t.len() == 0 {
        return false;
    }
    if !(char_is_alphabetic(t[0]) || t[0] == '_') {
        return false;
    }
    is_alnum_underscore_word(t.as_slice())
}

/// The byte offset of the first occurrence of `var_name` in `line`, counted from
/// `line_byte_offset`; `line_byte_offset` itself when it does not occur.
pub open spec fn var_offset(line: Seq<char>, var_name: Seq<char>, line_byte_offset: nat) -> nat {
    match find_str(line, var_name) {
        Some(p) => line_byte_offset + utf8_len(line.take(p)),
        None => line_byte_offset,
    }
}

/// The byte offset of the first occurrence of the variable in the line, counted from `line_byte_offset`.
pub fn find_var_in_line(line: &[char], var_name: &[char], line_byte_offset: usize) -> (r: usize)
    requires
        line_byte_offset + utf8_len(line@) <= usize::MAX,
    ensures
        r == var_offset(line@, var_name@, line_byte_offset as nat),
        r <= line_byte_offset + utf8_len(line@),
{
    match find_str_exec(line, var_name) {
        Some(p) => {
            proof {
                lemma_find_str(line@, var_name@);
                lemma_utf8_len_subrange(line@, 0, p as int);
                assert(line@.subrange(0, p as int) =~= line@.take(p as int));
            }
            line_byte_offset + utf8_len_prefix(line, p)
        },
        None => line_byte_offset,
    }
}

// ---------------------------------------------------------------------------
// Lines with their byte offsets
// ---------------------------------------------------------------------------

/// The lines of `s` (split at `'\n'`, a final `'\n'` adding no empty line, a
/// `'\r'` kept), each with its byte offset counted from `offset`.
pub open spec fn line_infos(s: Seq<char>, offset: nat) -> Seq<(Seq<char>, nat)>
    decreases s.len(),
{
    if s.len() == 0 {
        Seq::empty()
    } else {
        match find_char(s, '\n') {
            None => seq![(s, offset)],
            Some(i) => {
                proof {
                    lemma_find_char(s, '\n');
                }
                seq![(s.take(i), offset)] + line_infos(s.skip(i + 1), offset + utf8_len(s.take(i + 1)))
            },
        }
    }
}

/// A line of text and the byte offset where it starts.
pub struct LineInfo {
    pub text: Vec<char>,
    pub byte_offset: usize,
}

/// Walks the lines of a text, keeping the byte offset of the next one.
pub struct LineIter {
    text: Vec<char>,
    pos: usize,
    offset: usize,
}

impl LineIter {
    /// The text not yet walked.
    pub closed spec fn remaining(&self) -> Seq<char> {
        self.text@.skip(self.pos as int)
    }

    /// The byte offset of the next line.
    pub closed spec fn offset(&self) -> nat {
        self.offset as nat
    }

    /// The lines still to come, with their offsets.
    pub open spec fn rest(&self) -> Seq<(Seq<char>, nat)> {
        line_infos(self.remaining(), self.offset())
    }

    pub closed spec fn wf(&self) -> bool {
        &&& self.pos <= self.text@.len()
        &&& self.offset + utf8_len(self.remaining()) <= usize::MAX
    }

    /// `LineIter::new`: the lines of `text`, the first at `start_offset`.
    pub fn new(text: &[char], start_offset: usize) -> (r: Self)
        requires
            start_offset + utf8_len(text@) <= usize::MAX,
        ensures
            r.wf(),
            r.remaining() == text@,
            r.offset() == start_offset,
    {
        let it = LineIter { text: slice_of(text, 0, text.len()), pos: 0, offset: start_offset };
        proof {
            assert(it.text@.skip(0) =~= text@);
        }
        it
    }

    /// The next line and its offset, or `None` once the text is used up.
    pub fn next(&mut self) -> (r: Option<LineInfo>)
        requires
            old(self).wf(),
        ensures
            final(self).wf(),
            old(self).remaining().len() == 0 <==> r is None,
            match r {
                None => final(self).rest() == old(self).rest(),
                Some(info) => old(self).rest() == seq![(info.text@, info.byte_offset as nat)]
                    + final(self).rest(),
            },
            final(self).offset() + utf8_len(final(self).remaining()) == old(self).offset()
                + utf8_len(old(self).remaining()),
            r matches Some(info) ==> info.byte_offset + utf8_len(info.text@) <= old(self).offset()
                + utf8_len(old(self).remaining()),
            r is Some ==> final(self).remaining().len() < old(self).remaining().len(),
    {
        let ghost rem = self.remaining();
        if self.pos >= self.text.len() {
            return None;
        }
        let n = self.text.len();
        let rest = slice_of(self.text.as_slice(), self.pos, n);
        proof {
            assert(rest@ =~= rem);
        }
        proof {
            lemma_find_char(rest@, '\n');
        }
        let found = find_char_exec(rest.as_slice(), '\n');
        let (line_end, consumed) = match found {
            Some(i) => (i, i + 1),
            None => (rest.len(), rest.len()),
        };
        proof {
            lemma_find_char(rem, '\n');
            lemma_utf8_len_subrange(rem, 0, consumed as int);
            assert(rem.subrange(0, consumed as int) =~= rem.take(consumed as int));
            assert(rem.subrange(consumed as int, rem.len() as int) =~= rem.skip(consumed as int));
        }
        let line = slice_of(rest.as_slice(), 0, line_end);
        let used = utf8_len_prefix(rest.as_slice(), consumed);
        let info = LineInfo { text: line, byte_offset: self.offset };
        self.pos = self.pos + consumed;
        self.offset = self.offset + used;
        proof {
            assert(self.remaining() =~= rem.skip(consumed as int));
            if found is None {
                assert(rem.skip(consumed as int).len() == 0);
                assert(line@ =~= rem);
            } else {
                assert(line@ =~= rem.take(line_end as int));
                lemma_utf8_len_subrange(rem, 0, line_end as int);
                assert(rem.subrange(0, line_end as int) =~= rem.take(line_end as int));
            }
        }
        Some(info)
    }
}

// ---------------------------------------------------------------------------
// Diagnostics
// ---------------------------------------------------------------------------

/// A parameter and the source text of its annotation, if it has one.
pub struct ParamAnnotation {
    pub name: Vec<char>,
    pub annotation: Option<Vec<char>>,
}

/// What the rule reads of a function: the character index in the module
/// source where its `def` starts, and its parameters.
pub struct FunctionSignature {
    pub def_start: usize,
    pub params: Vec<ParamAnnotation>,
}

/// The two kinds of finding.
pub enum LiteralIssue {
    /// `var_name: annotation = rhs` where parameter `rhs` has literal type
    /// `param_annotation` with a value that `annotation` does not allow.
    Mismatch {
        var_name: Vec<char>,
        annotation: Vec<char>,
        rhs: Vec<char>,
        param_annotation: Vec<char>,
    },
    /// `target op ...` on a parameter of literal type `param_annotation`.
    Widening { target: Vec<char>, op: Vec<char>, param_annotation: Vec<char> },
}

/// A finding and the span of the assigned name.
pub struct LiteralDiagnostic {
    pub issue: LiteralIssue,
    pub span: Span,
}

pub enum IssueV {
    Mismatch {
        var_name: Seq<char>,
        annotation: Seq<char>,
        rhs: Seq<char>,
        param_annotation: Seq<char>,
    },
    Widening { target: Seq<char>, op: Seq<char>, param_annotation: Seq<char> },
}

pub struct DiagV {
    pub issue: IssueV,
    pub start: u32,
    pub end: u32,
}

pub open spec fn issue_view(i: LiteralIssue) -> IssueV {
    match i {
        LiteralIssue::Mismatch { var_name, annotation, rhs, param_annotation } => IssueV::Mismatch {
            var_name: var_name@,
            annotation: annotation@,
            rhs: rhs@,
            param_annotation: param_annotation@,
        },
        LiteralIssue::Widening { target, op, param_annotation } => IssueV::Widening {
            target: target@,
            op: op@,
            param_annotation: param_annotation@,
        },
    }
}

pub open spec fn diag_view(d: LiteralDiagnostic) -> DiagV {
    DiagV { issue: issue_view(d.issue), start: d.span.start, end: d.span.end }
}

/// The text of a finding.
pub open spec fn literal_message(i: IssueV) -> Seq<char> {
    match i {
        IssueV::Mismatch { var_name, annotation, rhs, param_annotation } => "Type mismatch: `"@ + var_name
            + "` is annotated `"@ + annotation + "` but assigned parameter `"@ + rhs + "` with type `"@
            + param_annotation + "`"@,
        IssueV::Widening { target, op, param_annotation } => "Augmented assignment `"@ + target + " "@ + op
            + " ...` is incompatible with declared type `"@ + param_annotation + "`"@,
    }
}

impl LiteralDiagnostic {
    /// The finding's message.
    pub fn message(&self) -> (r: Vec<char>)
        ensures
            r@ == literal_message(issue_view(self.issue)),
    {
        match &self.issue {
            LiteralIssue::Mismatch { var_name, annotation, rhs, param_annotation } => {
                let mut m = crate::text::chars_of("Type mismatch: `");
                crate::text::push_chars(&mut m, var_name.as_slice());
                crate::text::push_lit(&mut m, "` is annotated `");
                crate::text::push_chars(&mut m, annotation.as_slice());
                crate::text::push_lit(&mut m, "` but assigned parameter `");
                crate::text::push_chars(&mut m, rhs.as_slice());
                crate::text::push_lit(&mut m, "` with type `");
                crate::text::push_chars(&mut m, param_annotation.as_slice());
                crate::text::push_lit(&mut m, "`");
                m
            },
            LiteralIssue::Widening { target, op, param_annotation } => {
                let mut m = crate::text::chars_of("Augmented assignment `");
                crate::text::push_chars(&mut m, target.as_slice());
                crate::text::push_lit(&mut m, " ");
                crate::text::push_chars(&mut m, op.as_slice());
                crate::text::push_lit(&mut m, " ...` is incompatible with declared type `");
                crate::text::push_chars(&mut m, param_annotation.as_slice());
                crate::text::push_lit(&mut m, "`");
                m
            },
        }
    }
}

pub open spec fn diags_view(v: Seq<LiteralDiagnostic>) -> Seq<DiagV> {
    v.map_values(|d: LiteralDiagnostic| diag_view(d))
}

pub open spec fn opt_seq(o: Option<DiagV>) -> Seq<DiagV> {
    match o {
        Some(d) => seq![d],
        None => Seq::empty(),
    }
}

/// The span of a name found in a trimmed line, as the rule computes it: the
/// offset is counted from the start of the line, the length is the name's.
pub open spec fn name_span(t: Seq<char>, name: Seq<char>, off: nat) -> (u32, u32) {
    let start = var_offset(t, name, off);
    (start as u32, (start + utf8_len(name)) as u32)
}

/// The literal-typed parameters, with their trimmed annotations, in order.
pub open spec fn param_literal(p: ParamAnnotation) -> Seq<(Seq<char>, Seq<char>)> {
    match p.annotation {
        Some(a) => if has_literal_subscript(trim(a@)) {
            seq![(p.name@, trim(a@))]
        } else {
            Seq::empty()
        },
        None => Seq::empty(),
    }
}

pub open spec fn literal_params(ps: Seq<ParamAnnotation>) -> Seq<(Seq<char>, Seq<char>)>
    decreases ps.len(),
{
    if ps.len() == 0 {
        Seq::empty()
    } else {
        literal_params(ps.drop_last()) + param_literal(ps.last())
    }
}

/// `x: annotation = rhs` with a literal annotation that does not admit every
/// value of the literal parameter `rhs`.
pub open spec fn annotated_issue(t: Seq<char>, off: nat, pl: Seq<(Seq<char>, Seq<char>)>) -> Option<
    DiagV,
> {
    match find_char(t, ':') {
        None => None,
        Some(c) => {
            let var_name = trim(t.take(c));
            let after = t.skip(c + 1);
            if !simple_ident(var_name) {
                None
            } else {
                match first_where(assign_eq_at(after), after.len() as int) {
                    None => None,
                    Some(e) => {
                        let annotation = trim(after.take(e));
                        let rhs = trim(before_char(trim(after.skip(e + 1)), '#'));
                        if !has_literal_subscript(annotation) || !simple_ident(rhs) {
                            None
                        } else {
                            match assoc_get(pl, rhs) {
                                None => None,
                                Some(pa) => match (literal_values(annotation), literal_values(pa)) {
                                    (Some(tv), Some(sv)) => if values_assignable(sv, tv) {
                                        None
                                    } else {
                                        let sp = name_span(t, var_name, off);
                                        Some(
                                            DiagV {
                                                issue: IssueV::Mismatch {
                                                    var_name,
                                                    annotation,
                                                    rhs,
                                                    param_annotation: pa,
                                                },
                                                start: sp.0,
                                                end: sp.1,
                                            },
                                        )
                                    },
                                    _ => None,
                                },
                            }
                        }
                    },
                }
            }
        },
    }
}

/// The augmented assignment operators, in the order they are tried.
pub open spec fn aug_op(k: int) -> Seq<char> {
    if k == 0 {
        "+="@
    } else if k == 1 {
        "-="@
    } else if k == 2 {
        "*="@
    } else if k == 3 {
        "/="@
    } else if k == 4 {
        "//="@
    } else if k == 5 {
        "%="@
    } else if k == 6 {
        "**="@
    } else if k == 7 {
        "&="@
    } else if k == 8 {
        "|="@
    } else if k == 9 {
        "^="@
    } else if k == 10 {
        "<<="@
    } else {
        ">>="@
    }
}

fn aug_op_exec(k: usize) -> (r: &'static str)
    requires
        k < 12,
    ensures
        r@ == aug_op(k as int),
{
    if k == 0 {
        "+="
    } else if k == 1 {
        "-="
    } else if k == 2 {
        "*="
    } else if k == 3 {
        "/="
    } else if k == 4 {
        "//="
    } else if k == 5 {
        "%="
    } else if k == 6 {
        "**="
    } else if k == 7 {
        "&="
    } else if k == 8 {
        "|="
    } else if k == 9 {
        "^="
    } else if k == 10 {
        "<<="
    } else {
        ">>="
    }
}

/// Operator `k` occurs in `t` with a simple identifier before its first
/// occurrence.
pub open spec fn aug_hit(t: Seq<char>) -> spec_fn(int) -> bool {
    |k: int|
        match find_str(t, aug_op(k)) {
            Some(p) => simple_ident(trim(t.take(p))),
            None => false,
        }
}

/// `target op= ...` on a literal-typed parameter `target`.
pub open spec fn augmented_issue(t: Seq<char>, off: nat, pl: Seq<(Seq<char>, Seq<char>)>) -> Option<
    DiagV,
> {
    match first_where(aug_hit(t), 12) {
        None => None,
        Some(k) => {
            let p = find_str(t, aug_op(k))->0;
            let target = trim(t.take(p));
            match assoc_get(pl, target) {
                None => None,
                Some(pa) => {
                    let sp = name_span(t, target, off);
                    Some(
                        DiagV {
                            issue: IssueV::Widening { target, op: aug_op(k), param_annotation: pa },
                            start: sp.0,
                            end: sp.1,
                        },
                    )
                },
            }
        },
    }
}

pub proof fn lemma_trim_utf8(s: Seq<char>)
    ensures
        utf8_len(trim(s)) <= utf8_len(s),
{
    lemma_trim_lens(s);
    lemma_trim_lens(trim_start(s));
}

/// The name found at a trimmed prefix of `t`: its UTF-8 length is at most `t`'s.
proof fn lemma_trim_take_utf8(t: Seq<char>, c: int)
    requires
        0 <= c <= t.len(),
    ensures
        utf8_len(trim(t.take(c))) <= utf8_len(t),
{
    lemma_trim_utf8(t.take(c));
    lemma_utf8_len_subrange(t, 0, c);
    assert(t.subrange(0, c) =~= t.take(c));
}

fn push_diag(
    diagnostics: &mut Vec<LiteralDiagnostic>,
    issue: LiteralIssue,
    t: &[char],
    name: &[char],
    off: usize,
)
    requires
        off + utf8_len(t@) <= u32::MAX,
        utf8_len(name@) <= utf8_len(t@),
    ensures
        diags_view(final(diagnostics)@) == diags_view(old(diagnostics)@).push(
            DiagV {
                issue: issue_view(issue),
                start: name_span(t@, name@, off as nat).0,
                end: name_span(t@, name@, off as nat).1,
            },
        ),
{
    let start = find_var_in_line(t, name, off);
    let len = utf8_len_prefix(name, name.len());
    proof {
        assert(name@.take(name@.len() as int) =~= name@);
    }
    let end = start as u64 + len as u64;
    let d = LiteralDiagnostic { issue, span: Span { start: start as u32, end: end as u32 } };
    let ghost before = diags_view(diagnostics@);
    diagnostics.push(d);
    proof {
        assert(diags_view(diagnostics@) =~= before.push(diag_view(d)));
    }
}

/// The index of the entry named `name`, with what the association list says.
fn find_param(pl: &Vec<(Vec<char>, Vec<char>)>, name: &[char]) -> (r: Option<usize>)
    ensures
        match r {
            Some(i) => i < pl@.len() && assoc_get(pairs_view(pl@), name@) == Some(pl@[i as int].1@),
            None => assoc_get(pairs_view(pl@), name@) is None,
        },
{
    let r = assoc_find(pl, name);
    proof {
        let m = pairs_view(pl@);
        lemma_assoc_index(m, name@);
        match r {
            Some(i) => {
                assert forall|j: int| 0 <= j < i implies m[j].0 != name@ by {
                    assert(m[j].0 == pl@[j].0@);
                }
                lemma_assoc_index_at(m, name@, i as int);
            },
            None => {
                assert forall|j: int| 0 <= j < m.len() implies m[j].0 != name@ by {
                    assert(m[j].0 == pl@[j].0@);
                }
            },
        }
    }
    r
}

/// Checks `x: Literal[V] = name` where `name` is a parameter of another literal type.
pub fn check_annotated_assignment(
    trimmed: &[char],
    line_byte_offset: usize,
    param_literals: &Vec<(Vec<char>, Vec<char>)>,
    diagnostics: &mut Vec<LiteralDiagnostic>,
)
    requires
        line_byte_offset + utf8_len(trimmed@) <= u32::MAX,
    ensures
        diags_view(final(diagnostics)@) == diags_view(old(diagnostics)@) + opt_seq(
            annotated_issue(trimmed@, line_byte_offset as nat, pairs_view(param_literals@)),
        ),
{
    let ghost t = trimmed@;
    let ghost pl = pairs_view(param_literals@);
    proof {
        assert(diags_view(diagnostics@) + Seq::<DiagV>::empty() =~= diags_view(diagnostics@));
        lemma_find_char(t, ':');
    }
    let n = trimmed.len();
    let colon = match find_char_exec(trimmed, ':') {
        Some(c) => c,
        None => return ,
    };
    let head = slice_of(trimmed, 0, colon);
    let var_name = trim_chars(head.as_slice());
    proof {
        assert(head@ =~= t.take(colon as int));
    }
    if !is_simple_identifier(var_name.as_slice()) {
        return ;
    }
    let after = slice_of(trimmed, colon + 1, n);
    proof {
        assert(after@ =~= t.skip(colon + 1));
    }
    let eq = match find_top_level_eq(after.as_slice()) {
        Some(e) => e,
        None => return ,
    };
    proof {
        lemma_first_where_some(assign_eq_at(after@), after@.len() as int);
    }
    let ann_raw = slice_of(after.as_slice(), 0, eq);
    let annotation = trim_chars(ann_raw.as_slice());
    let rhs_raw = slice_of(after.as_slice(), eq + 1, after.len());
    proof {
        assert(ann_raw@ =~= after@.take(eq as int));
        assert(rhs_raw@ =~= after@.skip(eq + 1));
    }
    let rhs_trimmed = trim_chars(rhs_raw.as_slice());
    let rhs_code = before_char_exec(rhs_trimmed.as_slice(), '#');
    let rhs = trim_chars(rhs_code.as_slice());
    if !contains_literal_subscript(annotation.as_slice()) {
        return ;
    }
    if !is_simple_identifier(rhs.as_slice()) {
        return ;
    }
    let idx = match find_param(param_literals, rhs.as_slice()) {
        Some(i) => i,
        None => return ,
    };
    let param_ann = &param_literals[idx].1;
    let target_values = match extract_literal_values(annotation.as_slice()) {
        Some(v) => v,
        None => return ,
    };
    let source_values = match extract_literal_values(param_ann.as_slice()) {
        Some(v) => v,
        None => return ,
    };
    if !literal_values_assignable(&source_values, &target_values) {
        proof {
            lemma_trim_take_utf8(t, colon as int);
        }
        let issue = LiteralIssue::Mismatch {
            var_name: slice_of(var_name.as_slice(), 0, var_name.len()),
            annotation,
            rhs,
            param_annotation: slice_of(param_ann.as_slice(), 0, param_ann.len()),
        };
        proof {
            assert(var_name@.subrange(0, var_name@.len() as int) =~= var_name@);
            assert(param_ann@.subrange(0, param_ann@.len() as int) =~= param_ann@);
        }
        push_diag(diagnostics, issue, trimmed, var_name.as_slice(), line_byte_offset);
    }
}

/// The first operator, in the order tried, that occurs with a simple
/// identifier before it, and where it occurs.
fn first_aug_hit(trimmed: &[char]) -> (r: Option<(usize, usize)>)
    ensures
        match r {
            None => first_where(aug_hit(trimmed@), 12) is None,
            Some((k, p)) => first_where(aug_hit(trimmed@), 12) == Some(k as int) && k < 12
                && find_str(trimmed@, aug_op(k as int)) == Some(p as int),
        },
{
    let ghost t = trimmed@;
    let mut k: usize = 0;
    while k < 12
        invariant
            k <= 12,
            t == trimmed@,
            forall|j: int| 0 <= j < k ==> !#[trigger] aug_hit(t)(j),
        decreases 12 - k,
    {
        let op = aug_op_exec(k);
        let op_chars = crate::text::chars_of(op);
        match find_str_exec(trimmed, op_chars.as_slice()) {
            Some(p) => {
                proof {
                    lemma_find_str(t, op_chars@);
                }
                let before = slice_of(trimmed, 0, p);
                let target = trim_chars(before.as_slice());
                proof {
                    assert(before@ =~= t.take(p as int));
                }
                if is_simple_identifier(target.as_slice()) {
                    proof {
                        assert(aug_hit(t)(k as int));
                        lemma_first_where_at(aug_hit(t), k as int, 12);
                    }
                    return Some((k, p));
                }
                proof {
                    assert(!aug_hit(t)(k as int));
                }
            },
            None => {
                proof {
                    assert(!aug_hit(t)(k as int));
                }
            },
        }
        k += 1;
    }
    proof {
        lemma_first_where_none(aug_hit(t), 12);
    }
    None
}

/// Checks `name += expr` where `name` is a parameter of a literal type.
pub fn check_augmented_assignment(
    trimmed: &[char],
    line_byte_offset: usize,
    param_literals: &Vec<(Vec<char>, Vec<char>)>,
    diagnostics: &mut Vec<LiteralDiagnostic>,
)
    requires
        line_byte_offset + utf8_len(trimmed@) <= u32::MAX,
    ensures
        diags_view(final(diagnostics)@) == diags_view(old(diagnostics)@) + opt_seq(
            augmented_issue(trimmed@, line_byte_offset as nat, pairs_view(param_literals@)),
        ),
{
    let ghost t = trimmed@;
    proof {
        assert(diags_view(diagnostics@) + Seq::<DiagV>::empty() =~= diags_view(diagnostics@));
    }
    let (kk, p) = match first_aug_hit(trimmed) {
        Some(h) => h,
        None => return ,
    };
    proof {
        lemma_find_str(t, aug_op(kk as int));
    }
    let before = slice_of(trimmed, 0, p);
    let target = trim_chars(before.as_slice());
    proof {
        assert(before@ =~= t.take(p as int));
    }
    let idx = match find_param(param_literals, target.as_slice()) {
        Some(i) => i,
        None => return ,
    };
    let param_ann = &param_literals[idx].1;
    proof {
        lemma_trim_take_utf8(t, p as int);
    }
    let op = crate::text::chars_of(aug_op_exec(kk));
    let issue = LiteralIssue::Widening {
        target: slice_of(target.as_slice(), 0, target.len()),
        op,
        param_annotation: slice_of(param_ann.as_slice(), 0, param_ann.len()),
    };
    proof {
        assert(target@.subrange(0, target@.len() as int) =~= target@);
        assert(param_ann@.subrange(0, param_ann@.len() as int) =~= param_ann@);
    }
    push_diag(diagnostics, issue, trimmed, target.as_slice(), line_byte_offset);
}

/// The findings of one line.
pub open spec fn line_issues(t: Seq<char>, off: nat, pl: Seq<(Seq<char>, Seq<char>)>) -> Seq<DiagV> {
    opt_seq(annotated_issue(t, off, pl)) + opt_seq(augmented_issue(t, off, pl))
}

/// The findings of the body lines: blank and comment lines are skipped, and the
/// scan stops at the first code line indented less than the body.
pub open spec fn scan_lines(ls: Seq<(Seq<char>, nat)>, indent: nat, pl: Seq<(Seq<char>, Seq<char>)>) -> Seq<
    DiagV,
>
    decreases ls.len(),
{
    if ls.len() == 0 {
        Seq::empty()
    } else if !is_code_line(ls[0].0) {
        scan_lines(ls.skip(1), indent, pl)
    } else if leading_spaces(ls[0].0) < indent {
        Seq::empty()
    } else {
        line_issues(trim(ls[0].0), ls[0].1, pl) + scan_lines(ls.skip(1), indent, pl)
    }
}

/// The findings of one function: none without a literal-typed parameter or a
/// `:` after its `def`, or when its body is not indented; otherwise those of
/// its body, the text after the first `:`.
pub open spec fn function_issues(source: Seq<char>, def_start: int, params: Seq<ParamAnnotation>) -> Seq<
    DiagV,
> {
    let pl = literal_params(params);
    let fs = source.skip(def_start);
    if pl.len() == 0 {
        Seq::empty()
    } else {
        match find_char(fs, ':') {
            None => Seq::empty(),
            Some(c) => {
                let body = fs.skip(c + 1);
                let indent = body_indent(body);
                if indent == 0 {
                    Seq::empty()
                } else {
                    scan_lines(
                        line_infos(body, utf8_len(source.take(def_start + c + 1))),
                        indent,
                        pl,
                    )
                }
            },
        }
    }
}

/// The findings of every function, in order.
pub open spec fn module_issues(source: Seq<char>, fs: Seq<FunctionSignature>) -> Seq<DiagV>
    decreases fs.len(),
{
    if fs.len() == 0 {
        Seq::empty()
    } else {
        module_issues(source, fs.drop_last()) + function_issues(
            source,
            fs.last().def_start as int,
            fs.last().params@,
        )
    }
}

/// The literal-typed parameters of a function with their trimmed annotations.
pub fn collect_param_literals(params: &Vec<ParamAnnotation>) -> (r: Vec<(Vec<char>, Vec<char>)>)
    ensures
        pairs_view(r@) == literal_params(params@),
{
    let mut out: Vec<(Vec<char>, Vec<char>)> = Vec::new();
    let mut i: usize = 0;
    while i < params.len()
        invariant
            i <= params@.len(),
            pairs_view(out@) == literal_params(params@.take(i as int)),
        decreases params.len() - i,
    {
        proof {
            assert(params@.take(i + 1).drop_last() =~= params@.take(i as int));
        }
        let ghost before = pairs_view(out@);
        match &params[i].annotation {
            Some(a) => {
                let t = trim_chars(a.as_slice());
                if contains_literal_subscript(t.as_slice()) {
                    let name = slice_of(params[i].name.as_slice(), 0, params[i].name.len());
                    proof {
                        assert(name@ =~= params@[i as int].name@);
                    }
                    out.push((name, t));
                    proof {
                        assert(pairs_view(out@) =~= before + param_literal(params@[i as int]));
                    }
                } else {
                    proof {
                        assert(pairs_view(out@) =~= before + param_literal(params@[i as int]));
                    }
                }
            },
            None => {
                proof {
                    assert(pairs_view(out@) =~= before + param_literal(params@[i as int]));
                }
            },
        }
        i += 1;
    }
    proof {
        assert(params@.take(i as int) =~= params@);
    }
    out
}

proof fn lemma_scan_step(ls: Seq<(Seq<char>, nat)>, indent: nat, pl: Seq<(Seq<char>, Seq<char>)>)
    requires
        ls.len() > 0,
    ensures
        scan_lines(ls, indent, pl) == if !is_code_line(ls[0].0) {
            scan_lines(ls.skip(1), indent, pl)
        } else if leading_spaces(ls[0].0) < indent {
            Seq::empty()
        } else {
            line_issues(trim(ls[0].0), ls[0].1, pl) + scan_lines(ls.skip(1), indent, pl)
        },
{
}

/// The findings of one function's body, appended to `diagnostics`.
fn check_function(
    source: &[char],
    f: &FunctionSignature,
    diagnostics: &mut Vec<LiteralDiagnostic>,
)
    requires
        utf8_len(source@) <= u32::MAX,
        f.def_start <= source@.len(),
    ensures
        diags_view(final(diagnostics)@) == diags_view(old(diagnostics)@) + function_issues(
            source@,
            f.def_start as int,
            f.params@,
        ),
{
    let ghost d0 = diags_view(diagnostics@);
    proof {
        assert(d0 + Seq::<DiagV>::empty() =~= d0);
    }
    let pl = collect_param_literals(&f.params);
    if pl.len() == 0 {
        return ;
    }
    let n = source.len();
    let fs = slice_of(source, f.def_start, n);
    proof {
        assert(fs@ =~= source@.skip(f.def_start as int));
        lemma_find_char(fs@, ':');
    }
    let colon = match find_char_exec(fs.as_slice(), ':') {
        Some(c) => c,
        None => return ,
    };
    let body = slice_of(fs.as_slice(), colon + 1, fs.len());
    let cut = f.def_start + colon + 1;
    proof {
        assert(body@ =~= fs@.skip(colon + 1));
        assert(body@ =~= source@.skip(cut as int));
        lemma_utf8_len_subrange(source@, 0, cut as int);
        assert(source@.subrange(0, cut as int) =~= source@.take(cut as int));
        assert(source@.subrange(cut as int, source@.len() as int) =~= source@.skip(cut as int));
    }
    let body_start = utf8_len_prefix(source, cut);
    let indent = detect_body_indent(body.as_slice());
    if indent == 0 {
        return ;
    }
    let ghost all = line_infos(body@, body_start as nat);
    let ghost total = utf8_len(source@);
    let mut iter = LineIter::new(body.as_slice(), body_start);
    proof {
        assert(d0 + scan_lines(all, indent as nat, pairs_view(pl@)) =~= diags_view(diagnostics@)
            + scan_lines(iter.rest(), indent as nat, pairs_view(pl@)));
    }
    loop
        invariant_except_break
            d0 + scan_lines(all, indent as nat, pairs_view(pl@)) == diags_view(diagnostics@)
                + scan_lines(iter.rest(), indent as nat, pairs_view(pl@)),
        invariant
            iter.wf(),
            iter.offset() + utf8_len(iter.remaining()) == total,
            total <= u32::MAX,
            indent > 0,
        ensures
            d0 + scan_lines(all, indent as nat, pairs_view(pl@)) == diags_view(diagnostics@),
        decreases iter.remaining().len(),
    {
        let ghost rest0 = iter.rest();
        let ghost rem0 = iter.remaining();
        let line = match iter.next() {
            Some(l) => l,
            None => {
                proof {
                    assert(rest0.len() == 0);
                    assert(diags_view(diagnostics@) + Seq::<DiagV>::empty() =~= diags_view(
                        diagnostics@,
                    ));
                }
                break;
            },
        };
        proof {
            assert(rest0[0] == (line.text@, line.byte_offset as nat));
            assert(rest0.skip(1) =~= iter.rest());
            lemma_scan_step(rest0, indent as nat, pairs_view(pl@));
        }
        let trimmed = trim_chars(line.text.as_slice());
        if trimmed.len() == 0 || trimmed[0] == '#' {
            continue;
        }
        let line_indent = count_leading_spaces(line.text.as_slice());
        if line_indent < indent {
            proof {
                assert(diags_view(diagnostics@) + Seq::<DiagV>::empty() =~= diags_view(
                    diagnostics@,
                ));
            }
            break;
        }
        proof {
            lemma_trim_utf8(line.text@);
        }
        let ghost mid = diags_view(diagnostics@);
        check_annotated_assignment(trimmed.as_slice(), line.byte_offset, &pl, &mut *diagnostics);
        check_augmented_assignment(trimmed.as_slice(), line.byte_offset, &pl, &mut *diagnostics);
        proof {
            assert(diags_view(diagnostics@) + scan_lines(iter.rest(), indent as nat, pairs_view(pl@))
                =~= mid + (line_issues(trimmed@, line.byte_offset as nat, pairs_view(pl@))
                + scan_lines(iter.rest(), indent as nat, pairs_view(pl@))));
        }
    }
}

/// Detects assignments that break a `Literal[...]` parameter type.
pub struct LiteralValueIncompatible;

impl LiteralValueIncompatible {
    /// Every finding of every function, in order.
    pub fn check(&self, source: &[char], functions: &Vec<FunctionSignature>) -> (r: Vec<
        LiteralDiagnostic,
    >)
        requires
            utf8_len(source@) <= u32::MAX,
            forall|i: int| 0 <= i < functions@.len() ==> #[trigger] functions@[i].def_start <= source@.len(),
        ensures
            diags_view(r@) == module_issues(source@, functions@),
    {
        let mut out: Vec<LiteralDiagnostic> = Vec::new();
        let mut i: usize = 0;
        while i < functions.len()
            invariant
                i <= functions@.len(),
                utf8_len(source@) <= u32::MAX,
                forall|j: int| 0 <= j < functions@.len() ==> #[trigger] functions@[j].def_start <= source@.len(),
                diags_view(out@) == module_issues(source@, functions@.take(i as int)),
            decreases functions.len() - i,
        {
            proof {
                assert(functions@.take(i + 1).drop_last() =~= functions@.take(i as int));
                assert(functions@[i as int].def_start <= source@.len());
            }
            check_function(source, &functions[i], &mut out);
            i += 1;
        }
        proof {
            assert(functions@.take(i as int) =~= functions@);
        }
        out
    }
}

} // verus!
