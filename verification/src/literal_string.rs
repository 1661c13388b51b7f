//! `LiteralString` and `Literal[...]` assignments in function bodies: a
//! parameter of one literal string type assigned to a local of another, an
//! f-string built from a plain `str` parameter assigned to a `LiteralString`,
//! and `str` against `LiteralString` inside an invariant container.
//!
//! Function bodies are read as text, line by line. Offsets are UTF-8 byte
//! offsets into the module source; positions inside a text are character
//! indices.
use vstd::prelude::*;

use crate::assoc::{assoc_find, assoc_get, assoc_insert, lemma_found_index};
use crate::literal_assign::{line_infos, LineInfo, LineIter, ParamAnnotation};
use crate::module::copy_text;
use crate::position::{lemma_utf8_len_add, lemma_utf8_len_bounds, lemma_utf8_len_subrange, utf8_len, utf8_len_prefix, Span};
use crate::text::{
    all_alnum_or_underscore, char_is_alphabetic, depth_pbb, ends_with, ends_with_lit, eq_str,
    find_char, find_char_exec, find_str, find_str_exec, first_where, is_alnum_underscore_word,
    lemma_depth_pbb_bound, lemma_find_char, lemma_first_where_at, lemma_first_where_none,
    lemma_first_where_some, rfind_char, slice_of, split_char, split_char_exec, starts_with, starts_with_lit,
    trim, trim_chars, trim_start, unicode_alphabetic, views,
};

verus! {

// ---------------------------------------------------------------------------
// Pieces of a line
// ---------------------------------------------------------------------------

/// A Python identifier as written, with no surrounding space: a letter or
/// `_`, then letters, digits and `_` (Unicode letters and digits count).
pub open spec fn identifier(s: Seq<char>) -> bool {
    s.len() > 0 && (unicode_alphabetic(s[0]) || s[0] == '_') && all_alnum_or_underscore(s)
}

/// Whether the text is a Python identifier: a letter or `_`, then letters, digits or `_`.
pub fn is_simple_identifier(name: &[char]) -> (r: bool)
    ensures
        r == identifier(name@),
{
    if name.len() == 0 {
        return false;
    }
    if !(char_is_alphabetic(name[0]) || name[0] == '_') {
        return false;
    }
    is_alnum_underscore_word(name)
}

/// The first `=` from index `i` on that stands outside brackets and is an
/// assignment: a `==` is passed over as a whole, and an `=` after `!`, `<` or
/// `>` is part of a comparison.
pub open spec fn assignment_eq_from(s: Seq<char>, i: int) -> Option<int>
    decreases s.len() - i,
{
    if i < 0 || i >= s.len() {
        None
    } else if s[i] == '=' && depth_pbb(s, i) == 0 {
        if i + 1 < s.len() && s[i + 1] == '=' {
            assignment_eq_from(s, i + 2)
        } else if i > 0 && (s[i - 1] == '!' || s[i - 1] == '<' || s[i - 1] == '>') {
            assignment_eq_from(s, i + 1)
        } else {
            Some(i)
        }
    } else {
        assignment_eq_from(s, i + 1)
    }
}

proof fn lemma_assignment_eq_from(s: Seq<char>, i: int)
    requires
        0 <= i,
    ensures
        assignment_eq_from(s, i) matches Some(k) ==> i <= k < s.len() && s[k] == '=',
    decreases s.len() - i,
{
    if i < s.len() {
        lemma_assignment_eq_from(s, i + 1);
        if i + 2 <= s.len() {
            lemma_assignment_eq_from(s, i + 2);
        }
    }
}

/// `find_top_level_eq`: the assignment `=` of a line, as
/// `assignment_eq_from` states.
pub fn find_top_level_eq(s: &[char]) -> (r: Option<usize>)
    ensures
        match r {
            Some(i) => assignment_eq_from(s@, 0) == Some(i as int),
            None => assignment_eq_from(s@, 0) is None,
        },
{
    let n = s.len();
    let mut depth: i128 = 0;
    let mut i: usize = 0;
    while i < n
        invariant
            n == s@.len(),
            i <= n + 1,
            i <= n ==> depth == depth_pbb(s@, i as int),
            assignment_eq_from(s@, 0) == assignment_eq_from(s@, i as int),
        decreases n + 1 - i,
    {
        proof {
            lemma_depth_pbb_bound(s@, i as int);
        }
        let c = s[i];
        if c == '=' && depth == 0 {
            if i + 1 < n && s[i + 1] == '=' {
                proof {
                    assert(depth_pbb(s@, i + 1) == depth_pbb(s@, i as int));
                    assert(depth_pbb(s@, i + 2) == depth_pbb(s@, i + 1));
                }
                i = i + 2;
                continue;
            }
            if i > 0 && (s[i - 1] == '!' || s[i - 1] == '<' || s[i - 1] == '>') {
                i = i + 1;
                continue;
            }
            return Some(i);
        }
        if c == '[' || c == '(' || c == '{' {
            depth = depth + 1;
        } else if c == ']' || c == ')' || c == '}' {
            depth = depth - 1;
        }
        i += 1;
    }
    None
}

/// Whether index `i` is inside single and inside double quotes, quotes
/// toggling as they come (a quote of one kind inside the other does not).
pub open spec fn quotes_before(s: Seq<char>, i: int) -> (bool, bool)
    decreases i,
{
    if i <= 0 {
        (false, false)
    } else {
        let q = quotes_before(s, i - 1);
        let c = s[i - 1];
        if c == '\'' && !q.1 {
            (!q.0, q.1)
        } else if c == '"' && !q.0 {
            (q.0, !q.1)
        } else {
            q
        }
    }
}

/// A `#` outside quotes.
pub open spec fn comment_at(s: Seq<char>) -> spec_fn(int) -> bool {
    |i: int| s[i] == '#' && !quotes_before(s, i).0 && !quotes_before(s, i).1
}

/// `strip_trailing_comment`: the text before the first `#` outside quotes,
/// trimmed; the text unchanged when there is none.
pub open spec fn strip_comment(s: Seq<char>) -> Seq<char> {
    match first_where(comment_at(s), s.len() as int) {
        Some(i) => trim(s.take(i)),
        None => s,
    }
}

pub fn strip_trailing_comment(rhs: &[char]) -> (r: Vec<char>)
    ensures
        r@ == strip_comment(rhs@),
{
    let mut in_single = false;
    let mut in_double = false;
    let mut i: usize = 0;
    while i < rhs.len()
        invariant
            i <= rhs@.len(),
            (in_single, in_double) == quotes_before(rhs@, i as int),
            forall|j: int| 0 <= j < i ==> !#[trigger] comment_at(rhs@)(j),
        decreases rhs.len() - i,
    {
        let c = rhs[i];
        if c == '\'' && !in_double {
            in_single = !in_single;
        } else if c == '"' && !in_single {
            in_double = !in_double;
        } else if c == '#' && !in_single && !in_double {
            proof {
                assert(comment_at(rhs@)(i as int));
                lemma_first_where_at(comment_at(rhs@), i as int, rhs@.len() as int);
            }
            let head = slice_of(rhs, 0, i);
            proof {
                assert(head@ =~= rhs@.take(i as int));
            }
            return trim_chars(head.as_slice());
        }
        proof {
            assert(!comment_at(rhs@)(i as int));
        }
        i += 1;
    }
    proof {
        lemma_first_where_none(comment_at(rhs@), rhs@.len() as int);
    }
    slice_of(rhs, 0, rhs.len())
}

/// The text inside `Literal[...]` after trimming, when the annotation has
/// that form.
pub open spec fn literal_inner(ann: Seq<char>) -> Option<Seq<char>> {
    let t = trim(ann);
    if starts_with(t, "Literal["@) && ends_with(t.skip(8), "]"@) {
        Some(trim(t.skip(8).drop_last()))
    } else {
        None
    }
}

/// At least two characters, opening and closing with the same quote.
pub open spec fn quoted(inner: Seq<char>) -> bool {
    inner.len() >= 2 && ((inner[0] == '"' && inner.last() == '"') || (inner[0] == '\''
        && inner.last() == '\''))
}

/// `extract_literal_string_value`: the value of `Literal["value"]` or
/// `Literal['value']`; `None` for any other text, a lone quote among it.
pub open spec fn literal_string_value(ann: Seq<char>) -> Option<Seq<char>> {
    match literal_inner(ann) {
        Some(inner) => if quoted(inner) {
            Some(inner.subrange(1, inner.len() - 1))
        } else {
            None
        },
        None => None,
    }
}

fn literal_inner_exec(ann: &[char]) -> (r: Option<Vec<char>>)
    ensures
        match r {
            Some(v) => literal_inner(ann@) == Some(v@),
            None => literal_inner(ann@) is None,
        },
{
    let t = trim_chars(ann);
    if !starts_with_lit(t.as_slice(), "Literal[") {
        return None;
    }
    proof {
        reveal_strlit("Literal[");
    }
    let rest = slice_of(t.as_slice(), 8, t.len());
    proof {
        assert(rest@ =~= t@.skip(8));
    }
    if !ends_with_lit(rest.as_slice(), "]") {
        return None;
    }
    proof {
        reveal_strlit("]");
    }
    let body = slice_of(rest.as_slice(), 0, rest.len() - 1);
    proof {
        assert(body@ =~= rest@.drop_last());
    }
    Some(trim_chars(body.as_slice()))
}

pub fn extract_literal_string_value(ann: &[char]) -> (r: Option<Vec<char>>)
    ensures
        match r {
            Some(v) => literal_string_value(ann@) == Some(v@),
            None => literal_string_value(ann@) is None,
        },
{
    match literal_inner_exec(ann) {
        Some(inner) => {
            let n = inner.len();
            if n >= 2 && ((inner[0] == '"' && inner[n - 1] == '"') || (inner[0] == '\'' && inner[n
                - 1] == '\'')) {
                Some(slice_of(inner.as_slice(), 1, n - 1))
            } else {
                None
            }
        },
        None => None,
    }
}

/// Characters that end a name inside `{...}` of an f-string.
pub open spec fn name_stop(c: char) -> bool {
    c == '}' || c == '!' || c == ':' || c == '.'
}

/// The first index from `j` on holding a stop character, or the length.
pub open spec fn stop_from(s: Seq<char>, j: int) -> int
    decreases s.len() - j,
{
    if j >= s.len() {
        s.len() as int
    } else if name_stop(s[j]) {
        j
    } else {
        stop_from(s, j + 1)
    }
}

pub proof fn lemma_stop_from(s: Seq<char>, j: int)
    requires
        0 <= j <= s.len(),
    ensures
        j <= stop_from(s, j) <= s.len(),
        stop_from(s, j) < s.len() ==> name_stop(s[stop_from(s, j)]),
        forall|k: int| j <= k < stop_from(s, j) ==> !name_stop(s[k]),
    decreases s.len() - j,
{
    if j < s.len() && !name_stop(s[j]) {
        lemma_stop_from(s, j + 1);
    }
}

/// `extract_fstring_names` from index `i` on: after each `{`, the characters
/// up to a stop character, trimmed, when they form an identifier; scanning
/// goes on after the stop character.
pub open spec fn fstring_names_from(s: Seq<char>, i: int) -> Seq<Seq<char>>
    decreases s.len() - i,
{
    if i < 0 || i >= s.len() {
        Seq::empty()
    } else if s[i] == '{' {
        let j = stop_from(s, i + 1);
        let name = trim(s.subrange(i + 1, j));
        let next = if j < s.len() {
            j + 1
        } else {
            s.len() as int
        };
        proof {
            lemma_stop_from(s, i + 1);
        }
        (if identifier(name) {
            seq![name]
        } else {
            Seq::empty()
        }) + fstring_names_from(s, next)
    } else {
        fstring_names_from(s, i + 1)
    }
}

/// The identifiers an f-string interpolates, one for each `{` that opens a replacement field naming one.
pub fn extract_fstring_names(s: &[char]) -> (r: Vec<Vec<char>>)
    ensures
        views(r@) == fstring_names_from(s@, 0),
{
    let mut out: Vec<Vec<char>> = Vec::new();
    let n = s.len();
    let mut i: usize = 0;
    while i < n
        invariant
            n == s@.len(),
            i <= n,
            views(out@) + fstring_names_from(s@, i as int) == fstring_names_from(s@, 0),
        decreases n - i,
    {
        if s[i] == '{' {
            let mut j = i + 1;
            while j < n && !(s[j] == '}' || s[j] == '!' || s[j] == ':' || s[j] == '.')
                invariant
                    n == s@.len(),
                    i < j <= n,
                    stop_from(s@, i + 1) == stop_from(s@, j as int),
                decreases n - j,
            {
                j += 1;
            }
            proof {
                lemma_stop_from(s@, i + 1);
            }
            let raw = slice_of(s, i + 1, j);
            let name = trim_chars(raw.as_slice());
            let ghost before = views(out@);
            let next: usize = if j < n {
                j + 1
            } else {
                n
            };
            if is_simple_identifier(name.as_slice()) {
                out.push(name);
            }
            proof {
                assert(views(out@) + fstring_names_from(s@, next as int) =~= before
                    + fstring_names_from(s@, i as int));
            }
            i = next;
        } else {
            i += 1;
        }
    }
    proof {
        assert(views(out@) =~= views(out@) + fstring_names_from(s@, i as int));
    }
    out
}

/// `is_plain_str_type`: the annotation is `str`.
pub open spec fn plain_str(ann: Seq<char>) -> bool {
    trim(ann) == "str"@
}

pub fn is_plain_str_type(ann: &[char]) -> (r: bool)
    ensures
        r == plain_str(ann@),
{
    let t = trim_chars(ann);
    eq_str(t.as_slice(), "str")
}

/// `split_generic`: `C[X]` gives the trimmed `C` and `X`.
pub open spec fn generic_parts(ann: Seq<char>) -> Option<(Seq<char>, Seq<char>)> {
    let t = trim(ann);
    match find_char(t, '[') {
        Some(b) => if ends_with(t.skip(b + 1), "]"@) {
            Some((trim(t.take(b)), trim(t.skip(b + 1).drop_last())))
        } else {
            None
        },
        None => None,
    }
}

pub fn split_generic(ann: &[char]) -> (r: Option<(Vec<char>, Vec<char>)>)
    ensures
        match r {
            Some(p) => generic_parts(ann@) == Some((p.0@, p.1@)),
            None => generic_parts(ann@) is None,
        },
{
    let t = trim_chars(ann);
    proof {
        lemma_find_char(t@, '[');
    }
    match find_char_exec(t.as_slice(), '[') {
        Some(b) => {
            assert(b < t.len());
            let rest = slice_of(t.as_slice(), b + 1, t.len());
            proof {
                assert(rest@ =~= t@.skip(b + 1));
            }
            if !ends_with_lit(rest.as_slice(), "]") {
                return None;
            }
            proof {
                reveal_strlit("]");
            }
            let head = slice_of(t.as_slice(), 0, b);
            let inner = slice_of(rest.as_slice(), 0, rest.len() - 1);
            proof {
                assert(head@ =~= t@.take(b as int));
                assert(inner@ =~= rest@.drop_last());
            }
            Some((trim_chars(head.as_slice()), trim_chars(inner.as_slice())))
        },
        None => None,
    }
}

/// `is_invariant_container`: a mutable container type.
pub open spec fn invariant_container(name: Seq<char>) -> bool {
    name == "list"@ || name == "List"@ || name == "dict"@ || name == "Dict"@ || name == "set"@
        || name == "Set"@ || name == "deque"@ || name == "Deque"@
}

pub fn is_invariant_container(name: &[char]) -> (r: bool)
    ensures
        r == invariant_container(name@),
{
    eq_str(name, "list") || eq_str(name, "List") || eq_str(name, "dict") || eq_str(name, "Dict")
        || eq_str(name, "set") || eq_str(name, "Set") || eq_str(name, "deque") || eq_str(
        name,
        "Deque",
    )
}

/// The trimmed pieces that are not empty.
pub open spec fn nonempty_trimmed(parts: Seq<Seq<char>>) -> Seq<Seq<char>>
    decreases parts.len(),
{
    if parts.len() == 0 {
        Seq::empty()
    } else {
        let t = trim(parts.last());
        nonempty_trimmed(parts.drop_last()) + (if t.len() > 0 {
            seq![t]
        } else {
            Seq::empty()
        })
    }
}

/// `parse_simple_call`: `name(a, b)` gives `name` and the non-empty trimmed
/// arguments.
pub open spec fn simple_call(e: Seq<char>) -> Option<(Seq<char>, Seq<Seq<char>>)> {
    match find_char(e, '(') {
        Some(p) => {
            let callee = trim(e.take(p));
            if identifier(callee) && ends_with(e.skip(p + 1), ")"@) {
                Some((callee, nonempty_trimmed(split_char(trim(e.skip(p + 1).drop_last()), ','))))
            } else {
                None
            }
        },
        None => None,
    }
}

pub fn parse_simple_call(e: &[char]) -> (r: Option<(Vec<char>, Vec<Vec<char>>)>)
    ensures
        match r {
            Some(p) => simple_call(e@) == Some((p.0@, views(p.1@))),
            None => simple_call(e@) is None,
        },
{
    proof {
        lemma_find_char(e@, '(');
    }
    let p = match find_char_exec(e, '(') {
        Some(p) => p,
        None => return None,
    };
    assert(p < e.len());
    let head = slice_of(e, 0, p);
    proof {
        assert(head@ =~= e@.take(p as int));
    }
    let callee = trim_chars(head.as_slice());
    if !is_simple_identifier(callee.as_slice()) {
        return None;
    }
    let rest = slice_of(e, p + 1, e.len());
    proof {
        assert(rest@ =~= e@.skip(p + 1));
    }
    if !ends_with_lit(rest.as_slice(), ")") {
        return None;
    }
    proof {
        reveal_strlit(")");
    }
    let inner = slice_of(rest.as_slice(), 0, rest.len() - 1);
    proof {
        assert(inner@ =~= rest@.drop_last());
    }
    let body = trim_chars(inner.as_slice());
    let parts = split_char_exec(body.as_slice(), ',');
    let mut args: Vec<Vec<char>> = Vec::new();
    let mut i: usize = 0;
    while i < parts.len()
        invariant
            i <= parts@.len(),
            views(args@) == nonempty_trimmed(views(parts@).take(i as int)),
        decreases parts.len() - i,
    {
        proof {
            assert(views(parts@).take(i + 1).drop_last() =~= views(parts@).take(i as int));
        }
        let t = trim_chars(parts[i].as_slice());
        if t.len() > 0 {
            args.push(t);
        }
        proof {
            assert(views(args@) =~= nonempty_trimmed(views(parts@).take(i + 1)));
        }
        i += 1;
    }
    proof {
        assert(views(parts@).take(i as int) =~= views(parts@));
    }
    Some((callee, args))
}

// ---------------------------------------------------------------------------
// Annotated assignments of a body
// ---------------------------------------------------------------------------

/// An annotated local assignment `name: annotation = rhs`: the annotation,
/// the right-hand side without a trailing comment, and the byte offset and
/// byte length of the name.
pub struct LocalAssign {
    pub annotation: Vec<char>,
    pub rhs: Vec<char>,
    pub name_offset: usize,
    pub name_len: usize,
}

impl View for LocalAssign {
    type V = (Seq<char>, Seq<char>, nat, nat);

    open spec fn view(&self) -> Self::V {
        (self.annotation@, self.rhs@, self.name_offset as nat, self.name_len as nat)
    }
}

pub open spec fn assigns_view(v: Seq<LocalAssign>) -> Seq<(Seq<char>, Seq<char>, nat, nat)> {
    v.map_values(|a: LocalAssign| a@)
}

/// Lines the scan passes over: blank lines, comments, decorators, `def`,
/// `class`, `return`, `assert_type`, `if`, `else`, `for` and `while`.
pub open spec fn skipped_line(t: Seq<char>) -> bool {
    t.len() == 0 || starts_with(t, "#"@) || starts_with(t, "def "@) || starts_with(t, "class "@)
        || starts_with(t, "@"@) || starts_with(t, "return "@) || starts_with(t, "assert_type"@)
        || starts_with(t, "if "@) || starts_with(t, "else"@) || starts_with(t, "for "@)
        || starts_with(t, "while "@)
}

/// The byte length of a line's leading whitespace.
pub open spec fn indent_bytes(line: Seq<char>) -> nat {
    (utf8_len(line) - utf8_len(trim_start(line))) as nat
}

/// `parse_single_annotated_assign`: `t` is the trimmed line `raw`, which
/// starts at byte offset `off`. The name is what comes before the first
/// `": "`, trimmed; the annotation runs to the assignment `=`; both sides must
/// be non-empty.
pub open spec fn single_assign(t: Seq<char>, raw: Seq<char>, off: nat) -> Option<
    (Seq<char>, Seq<char>, nat, nat),
> {
    match find_str(t, ": "@) {
        None => None,
        Some(c) => {
            let name = trim(t.take(c));
            let after = t.skip(c + 2);
            if !identifier(name) {
                None
            } else {
                match assignment_eq_from(after, 0) {
                    None => None,
                    Some(e) => {
                        let ann = trim(after.take(e));
                        let rhs = strip_comment(trim(after.skip(e + 1)));
                        if ann.len() == 0 || rhs.len() == 0 {
                            None
                        } else {
                            Some((ann, rhs, off + indent_bytes(raw), utf8_len(name)))
                        }
                    },
                }
            }
        },
    }
}

/// `parse_annotated_assigns` over lines with their byte offsets.
pub open spec fn assigns_in(ls: Seq<(Seq<char>, nat)>) -> Seq<(Seq<char>, Seq<char>, nat, nat)>
    decreases ls.len(),
{
    if ls.len() == 0 {
        Seq::empty()
    } else {
        let t = trim(ls[0].0);
        (if skipped_line(t) {
            Seq::empty()
        } else {
            match single_assign(t, ls[0].0, ls[0].1) {
                Some(a) => seq![a],
                None => Seq::empty(),
            }
        }) + assigns_in(ls.skip(1))
    }
}

proof fn lemma_trim_inside(s: Seq<char>)
    ensures
        utf8_len(trim(s)) <= utf8_len(s),
        utf8_len(trim_start(s)) <= utf8_len(s),
{
    crate::position::lemma_trim_lens(s);
    crate::position::lemma_trim_lens(trim_start(s));
}

fn skipped_line_exec(t: &[char]) -> (r: bool)
    ensures
        r == skipped_line(t@),
{
    t.len() == 0 || starts_with_lit(t, "#") || starts_with_lit(t, "def ") || starts_with_lit(
        t,
        "class ",
    ) || starts_with_lit(t, "@") || starts_with_lit(t, "return ") || starts_with_lit(
        t,
        "assert_type",
    ) || starts_with_lit(t, "if ") || starts_with_lit(t, "else") || starts_with_lit(t, "for ")
        || starts_with_lit(t, "while ")
}

/// `parse_single_annotated_assign`, as `single_assign` states.
pub fn parse_single_annotated_assign(t: &[char], raw: &[char], off: usize) -> (r: Option<LocalAssign>)
    requires
        off + utf8_len(raw@) <= usize::MAX,
        t@ == trim(raw@),
    ensures
        match r {
            Some(a) => single_assign(t@, raw@, off as nat) == Some(a@),
            None => single_assign(t@, raw@, off as nat) is None,
        },
{
    proof {
        crate::text::lemma_find_str(t@, ": "@);
        reveal_strlit(": ");
    }
    let colon = chars_of_lit(": ");
    let c = match find_str_exec(t, colon.as_slice()) {
        Some(c) => c,
        None => return None,
    };
    assert(c + 2 <= t.len());
    let head = slice_of(t, 0, c);
    proof {
        assert(head@ =~= t@.take(c as int));
    }
    let name = trim_chars(head.as_slice());
    if !is_simple_identifier(name.as_slice()) {
        return None;
    }
    let after = slice_of(t, c + 2, t.len());
    proof {
        assert(after@ =~= t@.skip(c + 2));
        lemma_assignment_eq_from(after@, 0);
    }
    let e = match find_top_level_eq(after.as_slice()) {
        Some(e) => e,
        None => return None,
    };
    let ann_raw = slice_of(after.as_slice(), 0, e);
    let rhs_raw = slice_of(after.as_slice(), e + 1, after.len());
    proof {
        assert(ann_raw@ =~= after@.take(e as int));
        assert(rhs_raw@ =~= after@.skip(e + 1));
    }
    let annotation = trim_chars(ann_raw.as_slice());
    let rhs_trimmed = trim_chars(rhs_raw.as_slice());
    let rhs = strip_trailing_comment(rhs_trimmed.as_slice());
    if annotation.len() == 0 || rhs.len() == 0 {
        return None;
    }
    // The name lies inside the trimmed line, after the leading whitespace.
    proof {
        lemma_trim_inside(raw@);
        lemma_trim_inside(head@);
        lemma_utf8_len_subrange(t@, 0, c as int);
        assert(t@.subrange(0, c as int) =~= head@);
    }
    let k = crate::text::trim_start_index(raw);
    proof {
        lemma_utf8_len_subrange(raw@, 0, k as int);
        assert(raw@.subrange(0, k as int) =~= raw@.take(k as int));
    }
    let ws = utf8_len_prefix(raw, k);
    proof {
        lemma_utf8_len_subrange(name@, 0, name@.len() as int);
        assert(name@.take(name@.len() as int) =~= name@);
        lemma_utf8_len_subrange(raw@, k as int, raw@.len() as int);
        assert(raw@.subrange(k as int, raw@.len() as int) =~= raw@.skip(k as int));
    }
    let name_len = utf8_len_prefix(name.as_slice(), name.len());
    Some(LocalAssign { annotation, rhs, name_offset: off + ws, name_len })
}

fn chars_of_lit(s: &str) -> (r: Vec<char>)
    ensures
        r@ == s@,
{
    crate::text::chars_of(s)
}

/// `parse_annotated_assigns`: the annotated assignments in the lines of
/// `body`, which starts at byte offset `body_offset`.
pub fn parse_annotated_assigns(body: &[char], body_offset: usize) -> (r: Vec<LocalAssign>)
    requires
        body_offset + utf8_len(body@) <= usize::MAX,
    ensures
        assigns_view(r@) == assigns_in(line_infos(body@, body_offset as nat)),
{
    let mut it = LineIter::new(body, body_offset);
    let mut out: Vec<LocalAssign> = Vec::new();
    let ghost all = it.rest();
    assert(all == line_infos(body@, body_offset as nat));
    let ghost total = body_offset + utf8_len(body@);
    loop
        invariant
            it.wf(),
            it.offset() + utf8_len(it.remaining()) == total,
            total <= usize::MAX,
            assigns_view(out@) + assigns_in(it.rest()) == assigns_in(all),
        ensures
            assigns_view(out@) == assigns_in(all),
        decreases it.remaining().len(),
    {
        let ghost rest0 = it.rest();
        match it.next() {
            None => {
                proof {
                    assert(rest0 =~= Seq::<(Seq<char>, nat)>::empty());
                    assert(assigns_view(out@) =~= assigns_view(out@) + assigns_in(rest0));
                }
                break;
            },
            Some(info) => {
                proof {
                    assert(rest0[0] == (info.text@, info.byte_offset as nat));
                    assert(rest0.skip(1) =~= it.rest());
                }
                let t = trim_chars(info.text.as_slice());
                let ghost before = assigns_view(out@);
                if !skipped_line_exec(t.as_slice()) {
                    if let Some(a) = parse_single_annotated_assign(
                        t.as_slice(),
                        info.text.as_slice(),
                        info.byte_offset,
                    ) {
                        out.push(a);
                    }
                }
                proof {
                    assert(assigns_view(out@) + assigns_in(it.rest()) =~= before + assigns_in(rest0));
                }
            },
        }
    }
    out
}

// ---------------------------------------------------------------------------
// Findings
// ---------------------------------------------------------------------------

/// What is wrong with an assignment.
pub enum LiteralStringIssue {
    /// A parameter of type `Literal[source_value]` assigned to a local of type
    /// `Literal[target_value]`.
    LiteralMismatch { source_value: Vec<char>, target_value: Vec<char> },
    /// An f-string assigned to a `LiteralString` interpolates `name`, a
    /// parameter of the plain type `param_annotation`.
    FStringInterpolation { name: Vec<char>, param_annotation: Vec<char> },
    /// A parameter of type `param_annotation` assigned to `annotation`, whose
    /// `container` is invariant.
    InvariantContainer { param_annotation: Vec<char>, annotation: Vec<char>, container: Vec<char> },
    /// `rhs` assigned to `annotation` passes `arg`, a parameter of the plain
    /// type `param_annotation`, where `LiteralString` is required.
    StrArgument { rhs: Vec<char>, annotation: Vec<char>, arg: Vec<char>, param_annotation: Vec<char> },
}

/// The findings as values.
pub enum LiteralStringFinding {
    LiteralMismatch(Seq<char>, Seq<char>),
    FStringInterpolation(Seq<char>, Seq<char>),
    InvariantContainer(Seq<char>, Seq<char>, Seq<char>),
    StrArgument(Seq<char>, Seq<char>, Seq<char>, Seq<char>),
}

impl View for LiteralStringIssue {
    type V = LiteralStringFinding;

    open spec fn view(&self) -> LiteralStringFinding {
        match self {
            LiteralStringIssue::LiteralMismatch { source_value, target_value } => {
                LiteralStringFinding::LiteralMismatch(source_value@, target_value@)
            },
            LiteralStringIssue::FStringInterpolation { name, param_annotation } => {
                LiteralStringFinding::FStringInterpolation(name@, param_annotation@)
            },
            LiteralStringIssue::InvariantContainer { param_annotation, annotation, container } => {
                LiteralStringFinding::InvariantContainer(param_annotation@, annotation@, container@)
            },
            LiteralStringIssue::StrArgument { rhs, annotation, arg, param_annotation } => {
                LiteralStringFinding::StrArgument(rhs@, annotation@, arg@, param_annotation@)
            },
        }
    }
}

/// A finding and the span of the assigned name.
pub struct LiteralStringDiagnostic {
    pub issue: LiteralStringIssue,
    pub span: Span,
}

/// The text of a finding.
pub open spec fn literal_string_message(f: LiteralStringFinding) -> Seq<char> {
    match f {
        LiteralStringFinding::LiteralMismatch(s, t) => "Cannot assign `Literal[\""@ + s + "\"]` to `Literal[\""@ + t
            + "\"]` — literal values are incompatible"@,
        LiteralStringFinding::FStringInterpolation(n, p) => "Cannot assign f-string to `LiteralString` — interpolated variable `"@
            + n + "` has type `"@ + p + "`, which is not `LiteralString`"@,
        LiteralStringFinding::InvariantContainer(p, a, c) => "Cannot assign `"@ + p + "` to `"@ + a + "` — `"@ + c
            + "` is invariant in its type parameter"@,
        LiteralStringFinding::StrArgument(rhs, a, arg, p) => "Cannot assign `"@ + rhs + "` to `"@ + a
            + "` — argument `"@ + arg + "` has type `"@ + p + "`, not `LiteralString`"@,
    }
}

impl LiteralStringDiagnostic {
    /// The finding's message.
    pub fn message(&self) -> (r: Vec<char>)
        ensures
            r@ == literal_string_message(self.issue@),
    {
        match &self.issue {
            LiteralStringIssue::LiteralMismatch { source_value, target_value } => {
                let mut m = crate::text::chars_of("Cannot assign `Literal[\"");
                crate::text::push_chars(&mut m, source_value.as_slice());
                crate::text::push_lit(&mut m, "\"]` to `Literal[\"");
                crate::text::push_chars(&mut m, target_value.as_slice());
                crate::text::push_lit(&mut m, "\"]` — literal values are incompatible");
                m
            },
            LiteralStringIssue::FStringInterpolation { name, param_annotation } => {
                let mut m = crate::text::chars_of("Cannot assign f-string to `LiteralString` — interpolated variable `");
                crate::text::push_chars(&mut m, name.as_slice());
                crate::text::push_lit(&mut m, "` has type `");
                crate::text::push_chars(&mut m, param_annotation.as_slice());
                crate::text::push_lit(&mut m, "`, which is not `LiteralString`");
                m
            },
            LiteralStringIssue::InvariantContainer { param_annotation, annotation, container } => {
                let mut m = crate::text::chars_of("Cannot assign `");
                crate::text::push_chars(&mut m, param_annotation.as_slice());
                crate::text::push_lit(&mut m, "` to `");
                crate::text::push_chars(&mut m, annotation.as_slice());
                crate::text::push_lit(&mut m, "` — `");
                crate::text::push_chars(&mut m, container.as_slice());
                crate::text::push_lit(&mut m, "` is invariant in its type parameter");
                m
            },
            LiteralStringIssue::StrArgument { rhs, annotation, arg, param_annotation } => {
                let mut m = crate::text::chars_of("Cannot assign `");
                crate::text::push_chars(&mut m, rhs.as_slice());
                crate::text::push_lit(&mut m, "` to `");
                crate::text::push_chars(&mut m, annotation.as_slice());
                crate::text::push_lit(&mut m, "` — argument `");
                crate::text::push_chars(&mut m, arg.as_slice());
                crate::text::push_lit(&mut m, "` has type `");
                crate::text::push_chars(&mut m, param_annotation.as_slice());
                crate::text::push_lit(&mut m, "`, not `LiteralString`");
                m
            },
        }
    }
}

impl View for LiteralStringDiagnostic {
    type V = (LiteralStringFinding, Span);

    open spec fn view(&self) -> Self::V {
        (self.issue@, self.span)
    }
}

pub open spec fn diagnostics_view(v: Seq<LiteralStringDiagnostic>) -> Seq<(LiteralStringFinding, Span)> {
    v.map_values(|d: LiteralStringDiagnostic| d@)
}

/// A byte offset as a `u32`, `u32::MAX` when it does not fit.
pub open spec fn offset_u32(x: nat) -> u32 {
    if x <= u32::MAX {
        x as u32
    } else {
        u32::MAX
    }
}

/// The span of the name of an assignment.
pub open spec fn name_span(a: (Seq<char>, Seq<char>, nat, nat)) -> Span {
    Span { start: offset_u32(a.2), end: offset_u32(a.2 + a.3) }
}

/// `param_annotations`: each parameter with an annotation, by name, its
/// annotation trimmed; a later parameter of the same name wins.
pub open spec fn param_table(ps: Seq<ParamAnnotation>) -> Seq<(Seq<char>, Seq<char>)>
    decreases ps.len(),
{
    if ps.len() == 0 {
        Seq::empty()
    } else {
        let t = param_table(ps.drop_last());
        match ps.last().annotation {
            Some(a) => assoc_insert(t, ps.last().name@, trim(a@)),
            None => t,
        }
    }
}

/// Case 1: `x: Literal["a"] = p` where parameter `p` is `Literal["b"]`.
pub open spec fn literal_mismatch(a: (Seq<char>, Seq<char>, nat, nat), pt: Seq<(Seq<char>, Seq<char>)>) -> Option<
    LiteralStringFinding,
> {
    match literal_string_value(a.0) {
        None => None,
        Some(target) => {
            let r = trim(a.1);
            if !identifier(r) {
                None
            } else {
                match assoc_get(pt, r) {
                    None => None,
                    Some(p) => match literal_string_value(p) {
                        None => None,
                        Some(src) => if target != src {
                            Some(LiteralStringFinding::LiteralMismatch(src, target))
                        } else {
                            None
                        },
                    },
                }
            }
        },
    }
}

/// The first of `names` that is a parameter of plain type `str`, with its
/// annotation.
pub open spec fn first_plain_param(names: Seq<Seq<char>>, pt: Seq<(Seq<char>, Seq<char>)>) -> Option<
    (Seq<char>, Seq<char>),
>
    decreases names.len(),
{
    if names.len() == 0 {
        None
    } else {
        match assoc_get(pt, names[0]) {
            Some(p) => if plain_str(p) {
                Some((names[0], p))
            } else {
                first_plain_param(names.skip(1), pt)
            },
            None => first_plain_param(names.skip(1), pt),
        }
    }
}

/// Case 2: `x: LiteralString = f"..."` interpolating a plain `str`
/// parameter.
pub open spec fn fstring_interpolation(
    a: (Seq<char>, Seq<char>, nat, nat),
    pt: Seq<(Seq<char>, Seq<char>)>,
) -> Option<LiteralStringFinding> {
    let r = trim(a.1);
    if trim(a.0) != "LiteralString"@ {
        None
    } else if !(starts_with(r, "f\""@) || starts_with(r, "f'"@)) {
        None
    } else {
        match first_plain_param(fstring_names_from(r, 0), pt) {
            Some((n, p)) => Some(LiteralStringFinding::FStringInterpolation(n, p)),
            None => None,
        }
    }
}

/// Case 4: `x: list[str] = p` where parameter `p` is `list[LiteralString]`.
pub open spec fn invariant_mismatch(ann: Seq<char>, r: Seq<char>, pt: Seq<(Seq<char>, Seq<char>)>) -> Option<
    LiteralStringFinding,
> {
    match generic_parts(ann) {
        Some((ac, ai)) => if invariant_container(ac) && plain_str(ai) && identifier(r) {
            match assoc_get(pt, r) {
                Some(p) => match generic_parts(p) {
                    Some((pc, pi)) => if pc == ac && trim(pi) == "LiteralString"@ {
                        Some(LiteralStringFinding::InvariantContainer(p, ann, ac))
                    } else {
                        None
                    },
                    None => None,
                },
                None => None,
            }
        } else {
            None
        },
        None => None,
    }
}

/// Case 3: `x: C[LiteralString] = C(p)` where parameter `p` is plain `str`.
pub open spec fn str_argument(ann: Seq<char>, r: Seq<char>, pt: Seq<(Seq<char>, Seq<char>)>) -> Option<
    LiteralStringFinding,
> {
    match generic_parts(ann) {
        Some((_c, ai)) => if trim(ai) == "LiteralString"@ {
            match simple_call(r) {
                Some((_callee, args)) => match first_plain_param(args, pt) {
                    Some((arg, p)) => Some(LiteralStringFinding::StrArgument(r, ann, arg, p)),
                    None => None,
                },
                None => None,
            }
        } else {
            None
        },
        None => None,
    }
}

/// Cases 4 and 3, the first that applies.
pub open spec fn invariant_generic(a: (Seq<char>, Seq<char>, nat, nat), pt: Seq<(Seq<char>, Seq<char>)>) -> Option<
    LiteralStringFinding,
> {
    let ann = trim(a.0);
    let r = trim(a.1);
    match invariant_mismatch(ann, r, pt) {
        Some(f) => Some(f),
        None => str_argument(ann, r, pt),
    }
}

pub open spec fn finding_at(a: (Seq<char>, Seq<char>, nat, nat), f: Option<LiteralStringFinding>) -> Seq<
    (LiteralStringFinding, Span),
> {
    match f {
        Some(x) => seq![(x, name_span(a))],
        None => Seq::empty(),
    }
}

/// The findings of one assignment, in the order of the three checks.
pub open spec fn assign_findings(a: (Seq<char>, Seq<char>, nat, nat), pt: Seq<(Seq<char>, Seq<char>)>) -> Seq<
    (LiteralStringFinding, Span),
> {
    finding_at(a, literal_mismatch(a, pt)) + finding_at(a, fstring_interpolation(a, pt)) + finding_at(
        a,
        invariant_generic(a, pt),
    )
}

pub open spec fn assigns_findings(
    asg: Seq<(Seq<char>, Seq<char>, nat, nat)>,
    pt: Seq<(Seq<char>, Seq<char>)>,
) -> Seq<(LiteralStringFinding, Span)>
    decreases asg.len(),
{
    if asg.len() == 0 {
        Seq::empty()
    } else {
        assigns_findings(asg.drop_last(), pt) + assign_findings(asg.last(), pt)
    }
}

fn text_pairs_put(m: &mut Vec<(Vec<char>, Vec<char>)>, k: Vec<char>, v: Vec<char>)
    ensures
        crate::generic_calls::pairs_view(final(m)@) == assoc_insert(
            crate::generic_calls::pairs_view(old(m)@),
            k@,
            v@,
        ),
{
    let ghost mv = crate::generic_calls::pairs_view(m@);
    let f = assoc_find(m, k.as_slice());
    proof {
        lemma_found_index(m@, mv, k@, f);
    }
    let ghost entry = (k@, v@);
    match f {
        Some(i) => {
            m.set(i, (k, v));
            proof {
                assert(crate::generic_calls::pairs_view(m@) =~= mv.update(i as int, entry));
            }
        },
        None => {
            m.push((k, v));
            proof {
                assert(crate::generic_calls::pairs_view(m@) =~= mv.push(entry));
            }
        },
    }
}

/// `param_annotations`, as `param_table` states.
pub fn param_annotations(params: &Vec<ParamAnnotation>) -> (r: Vec<(Vec<char>, Vec<char>)>)
    ensures
        crate::generic_calls::pairs_view(r@) == param_table(params@),
{
    let mut out: Vec<(Vec<char>, Vec<char>)> = Vec::new();
    let mut i: usize = 0;
    proof {
        assert(crate::generic_calls::pairs_view(out@) =~= param_table(params@.take(0)));
    }
    while i < params.len()
        invariant
            i <= params@.len(),
            crate::generic_calls::pairs_view(out@) == param_table(params@.take(i as int)),
        decreases params.len() - i,
    {
        proof {
            assert(params@.take(i + 1).drop_last() =~= params@.take(i as int));
            assert(params@.take(i + 1).last() == params@[i as int]);
        }
        if let Some(a) = &params[i].annotation {
            text_pairs_put(&mut out, copy_text(params[i].name.as_slice()), trim_chars(a.as_slice()));
        }
        i += 1;
    }
    proof {
        assert(params@.take(i as int) =~= params@);
    }
    out
}

fn lookup_param<'a>(pt: &'a Vec<(Vec<char>, Vec<char>)>, k: &[char]) -> (r: Option<&'a Vec<char>>)
    ensures
        match r {
            Some(p) => assoc_get(crate::generic_calls::pairs_view(pt@), k@) == Some(p@),
            None => assoc_get(crate::generic_calls::pairs_view(pt@), k@) is None,
        },
{
    let f = assoc_find(pt, k);
    proof {
        lemma_found_index(pt@, crate::generic_calls::pairs_view(pt@), k@, f);
    }
    match f {
        Some(i) => Some(&pt[i].1),
        None => None,
    }
}

/// `check_literal_value_mismatch`, as `literal_mismatch` states.
pub fn check_literal_value_mismatch(a: &LocalAssign, pt: &Vec<(Vec<char>, Vec<char>)>) -> (r: Option<
    LiteralStringIssue,
>)
    ensures
        match r {
            Some(i) => literal_mismatch(a@, crate::generic_calls::pairs_view(pt@)) == Some(i@),
            None => literal_mismatch(a@, crate::generic_calls::pairs_view(pt@)) is None,
        },
{
    let target = match extract_literal_string_value(a.annotation.as_slice()) {
        Some(t) => t,
        None => return None,
    };
    let r = trim_chars(a.rhs.as_slice());
    if !is_simple_identifier(r.as_slice()) {
        return None;
    }
    let p = match lookup_param(pt, r.as_slice()) {
        Some(p) => p,
        None => return None,
    };
    let source = match extract_literal_string_value(p.as_slice()) {
        Some(s) => s,
        None => return None,
    };
    if crate::text::eq_chars(target.as_slice(), source.as_slice()) {
        None
    } else {
        Some(LiteralStringIssue::LiteralMismatch { source_value: source, target_value: target })
    }
}

fn find_plain_param(names: &Vec<Vec<char>>, pt: &Vec<(Vec<char>, Vec<char>)>) -> (r: Option<
    (Vec<char>, Vec<char>),
>)
    ensures
        match r {
            Some(x) => first_plain_param(views(names@), crate::generic_calls::pairs_view(pt@)) == Some(
                (x.0@, x.1@),
            ),
            None => first_plain_param(views(names@), crate::generic_calls::pairs_view(pt@)) is None,
        },
{
    let ghost ns = views(names@);
    let ghost ptv = crate::generic_calls::pairs_view(pt@);
    let mut i: usize = 0;
    proof {
        assert(ns.skip(0) =~= ns);
    }
    while i < names.len()
        invariant
            i <= names@.len(),
            ns == views(names@),
            ptv == crate::generic_calls::pairs_view(pt@),
            first_plain_param(ns, ptv) == first_plain_param(ns.skip(i as int), ptv),
        decreases names.len() - i,
    {
        proof {
            assert(ns.skip(i as int)[0] == names@[i as int]@);
            assert(ns.skip(i as int).skip(1) =~= ns.skip(i + 1));
        }
        if let Some(p) = lookup_param(pt, names[i].as_slice()) {
            if is_plain_str_type(p.as_slice()) {
                return Some((copy_text(names[i].as_slice()), copy_text(p.as_slice())));
            }
        }
        i += 1;
    }
    None
}

/// `check_literal_string_fstring`, as `fstring_interpolation` states.
pub fn check_literal_string_fstring(a: &LocalAssign, pt: &Vec<(Vec<char>, Vec<char>)>) -> (r: Option<
    LiteralStringIssue,
>)
    ensures
        match r {
            Some(i) => fstring_interpolation(a@, crate::generic_calls::pairs_view(pt@)) == Some(i@),
            None => fstring_interpolation(a@, crate::generic_calls::pairs_view(pt@)) is None,
        },
{
    let ann = trim_chars(a.annotation.as_slice());
    if !eq_str(ann.as_slice(), "LiteralString") {
        return None;
    }
    let r = trim_chars(a.rhs.as_slice());
    if !starts_with_lit(r.as_slice(), "f\"") && !starts_with_lit(r.as_slice(), "f'") {
        return None;
    }
    let names = extract_fstring_names(r.as_slice());
    match find_plain_param(&names, pt) {
        Some((n, p)) => Some(LiteralStringIssue::FStringInterpolation { name: n, param_annotation: p }),
        None => None,
    }
}

/// `check_invariant_generic_literal_string`, as `invariant_generic` states.
pub fn check_invariant_generic_literal_string(a: &LocalAssign, pt: &Vec<(Vec<char>, Vec<char>)>) -> (r: Option<
    LiteralStringIssue,
>)
    ensures
        match r {
            Some(i) => invariant_generic(a@, crate::generic_calls::pairs_view(pt@)) == Some(i@),
            None => invariant_generic(a@, crate::generic_calls::pairs_view(pt@)) is None,
        },
{
    let ann = trim_chars(a.annotation.as_slice());
    let r = trim_chars(a.rhs.as_slice());
    proof {
        crate::text::lemma_trim_idem(a.annotation@);
    }
    if let Some((ac, ai)) = split_generic(ann.as_slice()) {
        if is_invariant_container(ac.as_slice()) && is_plain_str_type(ai.as_slice())
            && is_simple_identifier(r.as_slice()) {
            if let Some(p) = lookup_param(pt, r.as_slice()) {
                if let Some((pc, pi)) = split_generic(p.as_slice()) {
                    let pit = trim_chars(pi.as_slice());
                    if crate::text::eq_chars(pc.as_slice(), ac.as_slice()) && eq_str(
                        pit.as_slice(),
                        "LiteralString",
                    ) {
                        return Some(
                            LiteralStringIssue::InvariantContainer {
                                param_annotation: copy_text(p.as_slice()),
                                annotation: ann,
                                container: ac,
                            },
                        );
                    }
                }
            }
        }
    }
    if let Some((_c, ai)) = split_generic(ann.as_slice()) {
        let ait = trim_chars(ai.as_slice());
        if eq_str(ait.as_slice(), "LiteralString") {
            if let Some((_callee, args)) = parse_simple_call(r.as_slice()) {
                if let Some((arg, p)) = find_plain_param(&args, pt) {
                    return Some(
                        LiteralStringIssue::StrArgument {
                            rhs: r,
                            annotation: ann,
                            arg,
                            param_annotation: p,
                        },
                    );
                }
            }
        }
    }
    None
}

fn offset_u32_exec(x: u128) -> (r: u32)
    ensures
        r == offset_u32(x as nat),
{
    if x <= u32::MAX as u128 {
        x as u32
    } else {
        u32::MAX
    }
}

fn push_finding(out: &mut Vec<LiteralStringDiagnostic>, a: &LocalAssign, f: Option<LiteralStringIssue>)
    ensures
        diagnostics_view(final(out)@) == diagnostics_view(old(out)@) + finding_at(
            a@,
            match f {
                Some(i) => Some(i@),
                None => None,
            },
        ),
{
    match f {
        Some(issue) => {
            let start = offset_u32_exec(a.name_offset as u128);
            let end = offset_u32_exec(a.name_offset as u128 + a.name_len as u128);
            let d = LiteralStringDiagnostic { issue, span: Span { start, end } };
            out.push(d);
            proof {
                assert(diagnostics_view(out@) =~= diagnostics_view(old(out)@) + seq![d@]);
            }
        },
        None => {
            proof {
                assert(diagnostics_view(out@) =~= diagnostics_view(old(out)@) + Seq::empty());
            }
        },
    }
}

/// The findings of the assignments `asg`, in order.
pub fn check_assignments(asg: &Vec<LocalAssign>, pt: &Vec<(Vec<char>, Vec<char>)>, out: &mut Vec<
    LiteralStringDiagnostic,
>)
    ensures
        diagnostics_view(final(out)@) == diagnostics_view(old(out)@) + assigns_findings(
            assigns_view(asg@),
            crate::generic_calls::pairs_view(pt@),
        ),
{
    let ghost start = diagnostics_view(out@);
    let ghost ptv = crate::generic_calls::pairs_view(pt@);
    let mut i: usize = 0;
    while i < asg.len()
        invariant
            i <= asg@.len(),
            ptv == crate::generic_calls::pairs_view(pt@),
            diagnostics_view(out@) == start + assigns_findings(assigns_view(asg@).take(i as int), ptv),
        decreases asg.len() - i,
    {
        proof {
            assert(assigns_view(asg@).take(i + 1).drop_last() =~= assigns_view(asg@).take(i as int));
            assert(assigns_view(asg@).take(i + 1).last() == asg@[i as int]@);
        }
        let a = &asg[i];
        let ghost before = diagnostics_view(out@);
        push_finding(out, a, check_literal_value_mismatch(a, pt));
        push_finding(out, a, check_literal_string_fstring(a, pt));
        push_finding(out, a, check_invariant_generic_literal_string(a, pt));
        proof {
            assert(diagnostics_view(out@) =~= before + assign_findings(a@, ptv));
        }
        i += 1;
    }
    proof {
        assert(assigns_view(asg@).take(i as int) =~= assigns_view(asg@));
    }
}

// ---------------------------------------------------------------------------
// Function bodies
// ---------------------------------------------------------------------------

/// The character index whose byte offset in `s` is `b`, if any.
pub open spec fn byte_char_index(s: Seq<char>, b: nat) -> Option<int> {
    if exists|i: int| 0 <= i <= s.len() && utf8_len(s.take(i)) == b {
        Some(choose|i: int| 0 <= i <= s.len() && utf8_len(s.take(i)) == b)
    } else {
        None
    }
}

pub proof fn lemma_byte_char_index(s: Seq<char>, i: int, b: nat)
    requires
        0 <= i <= s.len(),
        utf8_len(s.take(i)) == b,
    ensures
        byte_char_index(s, b) == Some(i),
{
    let k = choose|k: int| 0 <= k <= s.len() && utf8_len(s.take(k)) == b;
    if k < i {
        crate::position::lemma_utf8_len_take_strict(s, k, i);
    } else if i < k {
        crate::position::lemma_utf8_len_take_strict(s, i, k);
    }
}

fn char_index_of(s: &[char], b: usize) -> (r: Option<usize>)
    ensures
        match r {
            Some(i) => byte_char_index(s@, b as nat) == Some(i as int) && i <= s@.len(),
            None => byte_char_index(s@, b as nat) is None,
        },
{
    let r = crate::position::char_index_at_byte(s, b);
    proof {
        match r {
            Some(i) => lemma_byte_char_index(s@, i as int, b as nat),
            None => {},
        }
    }
    r
}

/// Where the body of a function ends: the byte offset of the first line after
/// the first that is indented no deeper than the `def` and starts with
/// `def `, `class ` or `@`; the end of the source when there is none. The
/// lines are those of the text after the colon, `base` the offset of that
/// text, each line counted with one byte for its end.
pub open spec fn body_end_from(ls: Seq<Seq<char>>, k: int, base: nat, def_indent: nat, n: nat) -> nat
    decreases ls.len() - k,
{
    if k < 1 || k >= ls.len() {
        n
    } else {
        let t = trim(ls[k]);
        if t.len() > 0 && indent_bytes(ls[k]) <= def_indent && (starts_with(t, "def "@) || starts_with(
            t,
            "class "@,
        ) || starts_with(t, "@"@)) {
            base + crate::position::line_sum(ls, k)
        } else {
            body_end_from(ls, k + 1, base, def_indent, n)
        }
    }
}

/// `function_body_range`: from the byte after the first `":\n"` after the
/// `def` (at byte offset `def_start`) to where `body_end_from` says; `None`
/// when `def_start` is not a character boundary or there is no `":\n"`.
pub open spec fn body_range(source: Seq<char>, def_start: nat) -> Option<(nat, nat)> {
    match byte_char_index(source, def_start) {
        None => None,
        Some(d) => {
            let after = source.skip(d);
            match find_str(after, ":\n"@) {
                None => None,
                Some(c) => {
                    let body_start = def_start + utf8_len(after.take(c)) + 1;
                    let line_start = match rfind_char(source.take(d), '\n') {
                        Some(p) => p + 1,
                        None => 0,
                    };
                    let def_indent = (def_start - utf8_len(source.take(line_start))) as nat;
                    let ls = crate::text::lines(source.skip(d + c + 1));
                    Some(
                        (
                            body_start,
                            body_end_from(ls, 1, body_start, def_indent, utf8_len(source)),
                        ),
                    )
                },
            }
        },
    }
}

fn starts_body_end(t: &[char]) -> (r: bool)
    ensures
        r == (starts_with(t@, "def "@) || starts_with(t@, "class "@) || starts_with(t@, "@"@)),
{
    starts_with_lit(t, "def ") || starts_with_lit(t, "class ") || starts_with_lit(t, "@")
}

/// `function_body_range`, as `body_range` states.
pub fn function_body_range(source: &[char], def_start: u32) -> (r: Option<(usize, usize)>)
    requires
        utf8_len(source@) < usize::MAX,
    ensures
        match r {
            Some((a, b)) => body_range(source@, def_start as nat) == Some((a as nat, b as nat)),
            None => body_range(source@, def_start as nat) is None,
        },
{
    let d = match char_index_of(source, def_start as usize) {
        Some(d) => d,
        None => return None,
    };
    let after = slice_of(source, d, source.len());
    proof {
        assert(after@ =~= source@.skip(d as int));
        crate::text::lemma_find_str(after@, ":\n"@);
        reveal_strlit(":\n");
    }
    let pat = chars_of_lit(":\n");
    let c = match find_str_exec(after.as_slice(), pat.as_slice()) {
        Some(c) => c,
        None => return None,
    };
    assert(c + 2 <= after.len());
    assert(after@[c as int] == ':') by {
        assert(after@.subrange(c as int, c + 2)[0] == after@[c as int]);
    }
    proof {
        lemma_utf8_len_subrange(source@, 0, d as int);
        lemma_utf8_len_subrange(source@, d as int, source@.len() as int);
        assert(source@.subrange(0, d as int) =~= source@.take(d as int));
        assert(source@.subrange(d as int, source@.len() as int) =~= after@);
        lemma_utf8_len_subrange(after@, 0, c + 1);
        assert(after@.subrange(0, c + 1) =~= after@.take(c + 1));
        assert(after@.take(c + 1) =~= after@.take(c as int).push(':'));
        assert(after@.take(c + 1).drop_last() =~= after@.take(c as int));
        lemma_utf8_len_subrange(after@, c + 1, after@.len() as int);
        assert(after@.subrange(c + 1, after@.len() as int) =~= after@.skip(c + 1));
        assert(after@.skip(c + 1) =~= source@.skip(d + c + 1));
    }
    let colon_bytes = utf8_len_prefix(after.as_slice(), c);
    let body_start: usize = def_start as usize + colon_bytes + 1;
    let head = slice_of(source, 0, d);
    proof {
        assert(head@ =~= source@.take(d as int));
        crate::text::lemma_rfind_char(head@, '\n');
    }
    let line_start: usize = match crate::text::rfind_char_exec(head.as_slice(), '\n') {
        Some(p) => p + 1,
        None => 0,
    };
    proof {
        if line_start < d {
            crate::position::lemma_utf8_len_take_strict(source@, line_start as int, d as int);
        }
    }
    let ls_bytes = utf8_len_prefix(source, line_start);
    let def_indent: usize = def_start as usize - ls_bytes;
    let body_source = slice_of(source, d + c + 1, source.len());
    proof {
        assert(body_source@ =~= source@.skip(d + c + 1));
    }
    let n = utf8_len_prefix(source, source.len());
    proof {
        assert(source@.take(source@.len() as int) =~= source@);
    }
    let ls = crate::text::lines_exec(body_source.as_slice());
    let ghost lv = views(ls@);
    proof {
        crate::position::lemma_line_sum_bound(body_source@);
        assert(body_start + utf8_len(body_source@) == n);
    }
    if ls.len() == 0 {
        return Some((body_start, n));
    }
    let end = scan_body_end(&ls, body_start, def_indent, n, Ghost(body_source@));
    Some((body_start, end))
}

/// `body_end_from` for the lines `ls` of `text`, which starts at byte offset
/// `body_start` and reaches the end `n` of the source.
fn scan_body_end(
    ls: &Vec<Vec<char>>,
    body_start: usize,
    def_indent: usize,
    n: usize,
    Ghost(text): Ghost<Seq<char>>,
) -> (r: usize)
    requires
        ls@.len() > 0,
        views(ls@) == crate::text::lines(text),
        body_start + utf8_len(text) == n,
        n < usize::MAX,
    ensures
        r == body_end_from(views(ls@), 1, body_start as nat, def_indent as nat, n as nat),
{
    let ghost lv = views(ls@);
    proof {
        crate::position::lemma_line_sum_bound(text);
        crate::position::lemma_line_sum_step(lv, 0);
        assert(crate::position::line_sum(lv, 0) == 0);
        assert(lv[0] == ls@[0]@);
        lemma_utf8_len_bounds(lv[0]);
    }
    let first_len = utf8_len_prefix(ls[0].as_slice(), ls[0].len());
    proof {
        assert(ls@[0]@.take(ls@[0]@.len() as int) =~= ls@[0]@);
    }
    let mut pos: usize = body_start + first_len + 1;
    let mut k: usize = 1;
    while k < ls.len()
        invariant
            1 <= k <= ls@.len(),
            lv == views(ls@),
            pos == body_start + crate::position::line_sum(lv, k as int),
            body_start + utf8_len(text) == n,
            n < usize::MAX,
            forall|j: int|
                0 <= j < lv.len() ==> crate::position::line_sum(lv, j) + utf8_len(#[trigger] lv[j])
                    <= utf8_len(text),
            body_end_from(lv, 1, body_start as nat, def_indent as nat, n as nat) == body_end_from(
                lv,
                k as int,
                body_start as nat,
                def_indent as nat,
                n as nat,
            ),
        decreases ls.len() - k,
    {
        let line = &ls[k];
        proof {
            assert(lv[k as int] == line@);
            lemma_trim_inside(line@);
        }
        let t = trim_chars(line.as_slice());
        let lb = utf8_len_prefix(line.as_slice(), line.len());
        proof {
            assert(line@.take(line@.len() as int) =~= line@);
        }
        if t.len() > 0 {
            let ks = crate::text::trim_start_index(line.as_slice());
            proof {
                lemma_utf8_len_subrange(line@, 0, ks as int);
                assert(line@.subrange(0, ks as int) =~= line@.take(ks as int));
                lemma_utf8_len_subrange(line@, ks as int, line@.len() as int);
                assert(line@.subrange(ks as int, line@.len() as int) =~= line@.skip(ks as int));
                assert(line@.skip(line@.len() as int) =~= Seq::<char>::empty());
            }
            let ind = utf8_len_prefix(line.as_slice(), ks);
            if ind <= def_indent && starts_body_end(t.as_slice()) {
                proof {
                    assert(ind == indent_bytes(lv[k as int]));
                }
                return pos;
            }
        }
        proof {
            crate::position::lemma_line_sum_step(lv, k as int);
        }
        pos = pos + lb + 1;
        k += 1;
    }
    n
}

/// What the rule reads of a function: the byte offset of its `def` and its
/// parameters, `*args` and `**kwargs` included, with their annotations.
pub struct FunctionText {
    pub def_start: u32,
    pub params: Vec<ParamAnnotation>,
}

/// The annotated assignments of a function's body: none when the body range
/// is not found or does not fall on character boundaries in order.
pub open spec fn body_assigns(source: Seq<char>, f: FunctionText) -> Seq<(Seq<char>, Seq<char>, nat, nat)> {
    match body_range(source, f.def_start as nat) {
        None => Seq::empty(),
        Some((a, b)) => match (byte_char_index(source, a), byte_char_index(source, b)) {
            (Some(i), Some(j)) => if i <= j {
                assigns_in(line_infos(source.subrange(i, j), a))
            } else {
                Seq::empty()
            },
            _ => Seq::empty(),
        },
    }
}

/// The findings of one function.
pub open spec fn function_findings(source: Seq<char>, f: FunctionText) -> Seq<(LiteralStringFinding, Span)> {
    assigns_findings(body_assigns(source, f), param_table(f.params@))
}

pub open spec fn module_findings(source: Seq<char>, fs: Seq<FunctionText>) -> Seq<(LiteralStringFinding, Span)>
    decreases fs.len(),
{
    if fs.len() == 0 {
        Seq::empty()
    } else {
        module_findings(source, fs.drop_last()) + function_findings(source, fs.last())
    }
}

/// `check_function_body`: append the findings of one function.
pub fn check_function_body(source: &[char], f: &FunctionText, out: &mut Vec<LiteralStringDiagnostic>)
    requires
        utf8_len(source@) < usize::MAX,
    ensures
        diagnostics_view(final(out)@) == diagnostics_view(old(out)@) + function_findings(source@, *f),
{
    let (a, b) = match function_body_range(source, f.def_start) {
        Some(r) => r,
        None => {
            proof {
                assert(diagnostics_view(out@) =~= diagnostics_view(out@) + Seq::empty());
            }
            return;
        },
    };
    let i = match char_index_of(source, a) {
        Some(i) => i,
        None => {
            proof {
                assert(diagnostics_view(out@) =~= diagnostics_view(out@) + Seq::empty());
            }
            return;
        },
    };
    let j = match char_index_of(source, b) {
        Some(j) => j,
        None => {
            proof {
                assert(diagnostics_view(out@) =~= diagnostics_view(out@) + Seq::empty());
            }
            return;
        },
    };
    if i > j {
        proof {
            assert(diagnostics_view(out@) =~= diagnostics_view(out@) + Seq::empty());
        }
        return;
    }
    let body = slice_of(source, i, j);
    proof {
        lemma_utf8_len_subrange(source@, i as int, j as int);
        assert(source@.subrange(0, i as int) =~= source@.take(i as int));
        lemma_utf8_len_subrange(source@, 0, i as int);
    }
    let pt = param_annotations(&f.params);
    let assigns = parse_annotated_assigns(body.as_slice(), a);
    proof {
        assert(body@ =~= source@.subrange(i as int, j as int));
        assert(body_assigns(source@, *f) == assigns_view(assigns@));
    }
    check_assignments(&assigns, &pt, out);
}

/// `LiteralString` and `Literal[...]` assignment incompatibilities.
pub struct LiteralStringAssignment;

impl LiteralStringAssignment {
    /// The findings of every function, in order, as `module_findings` states.
    pub fn check(&self, source: &[char], functions: &Vec<FunctionText>) -> (r: Vec<LiteralStringDiagnostic>)
        requires
            utf8_len(source@) < usize::MAX,
        ensures
            diagnostics_view(r@) == module_findings(source@, functions@),
    {
        let mut out: Vec<LiteralStringDiagnostic> = Vec::new();
        let mut k: usize = 0;
        while k < functions.len()
            invariant
                k <= functions@.len(),
                utf8_len(source@) < usize::MAX,
                diagnostics_view(out@) == module_findings(source@, functions@.take(k as int)),
            decreases functions.len() - k,
        {
            proof {
                assert(functions@.take(k + 1).drop_last() =~= functions@.take(k as int));
                assert(functions@.take(k + 1).last() == functions@[k as int]);
            }
            check_function_body(source, &functions[k], &mut out);
            k += 1;
        }
        proof {
            assert(functions@.take(k as int) =~= functions@);
        }
        out
    }
}

} // verus!
