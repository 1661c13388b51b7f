//! `TypeVar` scoping: uses of type variables outside the class or function that
//! binds them, found by scanning the source text line by line.
use vstd::prelude::*;

use crate::names::{
    add_all, all_nonempty, contains_ident_ref, contains_name, insert_all, insert_name,
    lemma_add_all_nonempty, lemma_minus_nonempty, lemma_refs_in_nonempty, minus, minus_names,
    refs_in, refs_in_names, uniq, uniq_names,
};
use crate::position::{indent_of, leading_indent, line_span, span_for_line, utf8_len, Span};
use crate::text::{
    after_char, before_char, before_char_exec, contains_char_exec, contains_lit, contains_str,
    find_char, find_char_exec, find_lit, find_str, lemma_find_char, lemma_rfind_char, lines,
    lines_exec, rfind_char, rfind_char_exec, slice_of, split_char, split_char_exec, starts_with,
    starts_with_char, starts_with_lit, trim, trim_chars, views, all_ident, is_ident_word,
};

verus! {

// ---------------------------------------------------------------------------
// Line helpers
// ---------------------------------------------------------------------------

/// Trimmed, non-empty pieces of a comma list that are plain identifiers, each
/// once, in first-seen order.
pub open spec fn ident_params(parts: Seq<Seq<char>>) -> Seq<Seq<char>>
    decreases parts.len(),
{
    if parts.len() == 0 {
        Seq::empty()
    } else {
        let prev = ident_params(parts.drop_last());
        let t = trim(parts.last());
        if t.len() > 0 && all_ident(t) && !prev.contains(t) {
            prev.push(t)
        } else {
            prev
        }
    }
}

/// The identifiers listed inside `keyword[...]` (up to the first `]` after it).
pub open spec fn bracket_params_after(line: Seq<char>, keyword: Seq<char>) -> Seq<Seq<char>> {
    match find_str(line, keyword) {
        None => Seq::empty(),
        Some(st) => {
            let after = line.skip(st + keyword.len());
            match find_char(after, ']') {
                None => Seq::empty(),
                Some(e) => ident_params(split_char(after.take(e), ',')),
            }
        },
    }
}

/// The type variables a `Generic[...]` base binds.
pub open spec fn generic_base_typevars(line: Seq<char>) -> Seq<Seq<char>> {
    bracket_params_after(line, "Generic["@)
}

proof fn lemma_ident_params_nonempty(parts: Seq<Seq<char>>)
    ensures
        all_nonempty(ident_params(parts)),
    decreases parts.len(),
{
    if parts.len() > 0 {
        lemma_ident_params_nonempty(parts.drop_last());
    }
}

fn ident_params_exec(parts: &Vec<Vec<char>>) -> (r: Vec<Vec<char>>)
    ensures
        views(r@) == ident_params(views(parts@)),
{
    let mut v: Vec<Vec<char>> = Vec::new();
    let mut i: usize = 0;
    proof {
        assert(views(v@) =~= Seq::<Seq<char>>::empty());
        assert(views(parts@).take(0) =~= Seq::<Seq<char>>::empty());
    }
    while i < parts.len()
        invariant
            i <= parts@.len(),
            views(v@) == ident_params(views(parts@).take(i as int)),
        decreases parts.len() - i,
    {
        proof {
            let t = views(parts@).take(i + 1);
            assert(t.drop_last() =~= views(parts@).take(i as int));
            assert(t.last() == parts@[i as int]@);
        }
        let t = trim_chars(parts[i].as_slice());
        if t.len() > 0 && is_ident_word(t.as_slice()) && !contains_name(&v, t.as_slice()) {
            let ghost before = views(v@);
            v.push(t);
            proof {
                assert(views(v@) =~= before.push(t@));
            }
        }
        i += 1;
    }
    proof {
        assert(views(parts@).take(i as int) =~= views(parts@));
    }
    v
}

fn bracket_params_after_exec(line: &[char], keyword: &str) -> (r: Vec<Vec<char>>)
    ensures
        views(r@) == bracket_params_after(line@, keyword@),
{
    match find_lit(line, keyword) {
        None => Vec::new(),
        Some(st) => {
            let kw = crate::text::chars_of(keyword);
            proof {
                crate::text::lemma_find_str(line@, keyword@);
            }
            let n = line.len();
            let after = slice_of(line, st + kw.len(), n);
            proof {
                assert(after@ =~= line@.skip(st + keyword@.len()));
            }
            match find_char_exec(after.as_slice(), ']') {
                None => Vec::new(),
                Some(e) => {
                    proof {
                        lemma_find_char(after@, ']');
                    }
                    let inner = slice_of(after.as_slice(), 0, e);
                    proof {
                        assert(inner@ =~= after@.take(e as int));
                    }
                    let parts = split_char_exec(inner.as_slice(), ',');
                    ident_params_exec(&parts)
                },
            }
        },
    }
}

/// `extract_typevars_from_generic_base`: the type variables a `Generic[...]`
/// base on this line binds.
pub fn extract_typevars_from_generic_base(line: &[char]) -> (r: Vec<Vec<char>>)
    ensures
        views(r@) == generic_base_typevars(line@),
        all_nonempty(views(r@)),
{
    let r = bracket_params_after_exec(line, "Generic[");
    proof {
        let g = generic_base_typevars(line@);
        match find_str(line@, "Generic["@) {
            None => {},
            Some(st) => {
                let after = line@.skip(st + "Generic["@.len());
                match find_char(after, ']') {
                    None => {},
                    Some(e) => lemma_ident_params_nonempty(split_char(after.take(e), ',')),
                }
            },
        }
    }
    r
}

/// The type variables a `Generic[...]` or `Protocol[...]` base binds (both
/// lists, each name once).
pub open spec fn generic_or_protocol_base_typevars(line: Seq<char>) -> Seq<Seq<char>> {
    add_all(bracket_params_after(line, "Generic["@), bracket_params_after(line, "Protocol["@))
}

/// The type parameters listed in a line's `Generic[...]` base, then those of
/// its `Protocol[...]` base not yet listed.
pub fn extract_typevars_from_generic_or_protocol_base(line: &[char]) -> (r: Vec<Vec<char>>)
    ensures
        views(r@) == generic_or_protocol_base_typevars(line@),
{
    let mut r = bracket_params_after_exec(line, "Generic[");
    let p = bracket_params_after_exec(line, "Protocol[");
    insert_all(&mut r, &p);
    r
}

/// `extract_typevars_from_function_sig`: the known type variables a `def` line
/// references.
pub fn extract_typevars_from_function_sig(line: &[char], all_typevars: &Vec<Vec<char>>) -> (r: Vec<
    Vec<char>,
>)
    requires
        all_nonempty(views(all_typevars@)),
    ensures
        views(r@) == refs_in(views(all_typevars@), line@),
{
    refs_in_names(all_typevars, line)
}

// ---------------------------------------------------------------------------
// The scope scan
// ---------------------------------------------------------------------------

/// A class or function scope that is open while scanning.
pub struct ScopeInfo {
    /// Byte indentation of the `class`/`def` keyword.
    pub indent: usize,
    /// Type variables the scope binds.
    pub bound_typevars: Vec<Vec<char>>,
    pub is_class: bool,
}

pub struct ScopeV {
    pub indent: nat,
    pub bound: Seq<Seq<char>>,
    pub is_class: bool,
}

pub open spec fn scope_view(s: ScopeInfo) -> ScopeV {
    ScopeV { indent: s.indent as nat, bound: views(s.bound_typevars@), is_class: s.is_class }
}

pub open spec fn scopes_view(v: Seq<ScopeInfo>) -> Seq<ScopeV> {
    v.map_values(|s: ScopeInfo| scope_view(s))
}

#[derive(Clone, Copy, Debug, PartialEq, Eq)]
pub enum ScopeViolationKind {
    /// An outer scope's type variable in a nested class's bases.
    OuterTypeVarInNestedClassBases,
    /// An outer class's type variable in a nested class's body annotation.
    OuterClassTypeVarInNestedClassBody,
    /// A type variable no enclosing scope binds.
    UnboundInScope,
    /// A class type variable in a `TypeAlias` in that class's body.
    ClassTypeVarInTypeAlias,
    /// A type variable used at module level.
    UnboundAtModuleLevel,
}

/// A use of a type variable outside its scope.
pub struct ScopeViolation {
    pub kind: ScopeViolationKind,
    pub typevar: Vec<char>,
    /// 1-based line number.
    pub line: usize,
    pub span: Span,
}

/// The text of a scope finding on type variable `tv`.
pub open spec fn scope_message(kind: ScopeViolationKind, tv: Seq<char>) -> Seq<char> {
    "TypeVar `"@ + tv + match kind {
        ScopeViolationKind::OuterTypeVarInNestedClassBases => "` from outer scope cannot be used in nested class definition"@,
        ScopeViolationKind::OuterClassTypeVarInNestedClassBody => "` from outer class cannot be used in nested class body"@,
        ScopeViolationKind::ClassTypeVarInTypeAlias => "` from enclosing class is not accessible in a TypeAlias definition"@,
        _ => "` is not bound in this scope"@,
    }
}

impl ScopeViolation {
    /// The finding's message, naming the type variable.
    pub fn message(&self) -> (r: Vec<char>)
        ensures
            r@ == scope_message(self.kind, self.typevar@),
    {
        let mut m = crate::text::chars_of("TypeVar `");
        crate::text::push_chars(&mut m, self.typevar.as_slice());
        match self.kind {
            ScopeViolationKind::OuterTypeVarInNestedClassBases => crate::text::push_lit(
                &mut m,
                "` from outer scope cannot be used in nested class definition",
            ),
            ScopeViolationKind::OuterClassTypeVarInNestedClassBody => crate::text::push_lit(
                &mut m,
                "` from outer class cannot be used in nested class body",
            ),
            ScopeViolationKind::ClassTypeVarInTypeAlias => crate::text::push_lit(
                &mut m,
                "` from enclosing class is not accessible in a TypeAlias definition",
            ),
            _ => crate::text::push_lit(&mut m, "` is not bound in this scope"),
        }
        m
    }
}

pub struct ScopeViolationV {
    pub kind: ScopeViolationKind,
    pub typevar: Seq<char>,
    pub line: nat,
    pub span: (nat, nat),
}

pub open spec fn violation_view(v: ScopeViolation) -> ScopeViolationV {
    ScopeViolationV {
        kind: v.kind,
        typevar: v.typevar@,
        line: v.line as nat,
        span: (v.span.start as nat, v.span.end as nat),
    }
}

pub open spec fn violations_view(v: Seq<ScopeViolation>) -> Seq<ScopeViolationV> {
    v.map_values(|x: ScopeViolation| violation_view(x))
}

/// One violation of `kind` per name, all on line `n`.
pub open spec fn report(names: Seq<Seq<char>>, kind: ScopeViolationKind, n: nat, span: (nat, nat)) -> Seq<
    ScopeViolationV,
> {
    names.map_values(|t: Seq<char>| ScopeViolationV { kind, typevar: t, line: n, span })
}

/// Scopes closed by a line indented by `indent` bytes are dropped.
pub open spec fn pop_scopes(st: Seq<ScopeV>, indent: nat) -> Seq<ScopeV>
    decreases st.len(),
{
    if st.len() > 0 && indent <= st.last().indent {
        pop_scopes(st.drop_last(), indent)
    } else {
        st
    }
}

/// Every type variable bound by some scope of the stack, each once.
pub open spec fn stack_bound(st: Seq<ScopeV>) -> Seq<Seq<char>>
    decreases st.len(),
{
    if st.len() == 0 {
        Seq::empty()
    } else {
        add_all(stack_bound(st.drop_last()), st.last().bound)
    }
}

/// The class scopes of the stack, innermost last.
pub open spec fn class_scopes(st: Seq<ScopeV>) -> Seq<ScopeV>
    decreases st.len(),
{
    if st.len() == 0 {
        Seq::empty()
    } else if st.last().is_class {
        class_scopes(st.drop_last()).push(st.last())
    } else {
        class_scopes(st.drop_last())
    }
}

/// Type variables a class line's bases use though an outer scope binds them.
pub open spec fn class_line_violations(st: Seq<ScopeV>, t: Seq<char>, n: nat, span: (nat, nat)) -> Seq<
    ScopeViolationV,
> {
    let outer = stack_bound(st);
    if outer.len() > 0 {
        match (find_char(t, '('), rfind_char(t, ')')) {
            (Some(a), Some(b)) => report(
                refs_in(outer, t.subrange(a + 1, b)),
                ScopeViolationKind::OuterTypeVarInNestedClassBases,
                n,
                span,
            ),
            _ => Seq::empty(),
        }
    } else {
        Seq::empty()
    }
}

/// Outer-class type variables annotated inside a nested class (at least two
/// class scopes open).
pub open spec fn nested_body_violations(st: Seq<ScopeV>, t: Seq<char>, n: nat, span: (nat, nat)) -> Seq<
    ScopeViolationV,
> {
    let cs = class_scopes(st);
    if cs.len() >= 2 {
        let forbidden = minus(stack_bound(cs.drop_last()), cs.last().bound);
        if forbidden.len() > 0 && find_char(t, ':') is Some {
            report(
                refs_in(forbidden, after_char(t, ':')),
                ScopeViolationKind::OuterClassTypeVarInNestedClassBody,
                n,
                span,
            )
        } else {
            Seq::empty()
        }
    } else {
        Seq::empty()
    }
}

/// Known type variables no open scope binds, annotated inside some scope.
pub open spec fn unbound_violations(
    tvs: Seq<Seq<char>>,
    st: Seq<ScopeV>,
    t: Seq<char>,
    n: nat,
    span: (nat, nat),
) -> Seq<ScopeViolationV> {
    if st.len() > 0 && find_char(t, ':') is Some {
        report(
            refs_in(minus(tvs, stack_bound(st)), before_char(after_char(t, ':'), '#')),
            ScopeViolationKind::UnboundInScope,
            n,
            span,
        )
    } else {
        Seq::empty()
    }
}

/// The single enclosing class's type variables on the right of a `TypeAlias`.
pub open spec fn alias_violations(st: Seq<ScopeV>, t: Seq<char>, n: nat, span: (nat, nat)) -> Seq<
    ScopeViolationV,
> {
    let cs = class_scopes(st);
    if cs.len() == 1 && contains_str(t, "TypeAlias"@) {
        report(
            refs_in(cs[0].bound, after_char(t, '=')),
            ScopeViolationKind::ClassTypeVarInTypeAlias,
            n,
            span,
        )
    } else {
        Seq::empty()
    }
}

/// A module-level line (not a definition, import or decorator) that uses a type
/// variable outside a `TypeVar(...)` definition.
pub open spec fn module_level_violations(
    tvs: Seq<Seq<char>>,
    st: Seq<ScopeV>,
    indent: nat,
    t: Seq<char>,
    n: nat,
    span: (nat, nat),
) -> Seq<ScopeViolationV> {
    let code = before_char(t, '#');
    if indent == 0 && st.len() == 0 && !(starts_with(t, "class "@) || starts_with(t, "def "@)
        || starts_with(t, "import "@) || starts_with(t, "from "@) || starts_with(t, "@"@))
        && !contains_str(code, "TypeVar"@) {
        report(refs_in(tvs, code), ScopeViolationKind::UnboundAtModuleLevel, n, span)
    } else {
        Seq::empty()
    }
}

pub open spec fn is_def_line(t: Seq<char>) -> bool {
    starts_with(t, "def "@) || starts_with(t, "async def "@)
}

/// One line of the scan: the scope stack after it and the violations it adds.
pub open spec fn scope_step(
    source: Seq<char>,
    tvs: Seq<Seq<char>>,
    st: Seq<ScopeV>,
    line: Seq<char>,
    n: nat,
) -> (Seq<ScopeV>, Seq<ScopeViolationV>) {
    let t = trim(line);
    if t.len() == 0 || t[0] == '#' {
        (st, Seq::empty())
    } else {
        let indent = indent_of(line);
        let st1 = pop_scopes(st, indent);
        let span = line_span(source, n as int);
        if starts_with(t, "class "@) {
            (
                st1.push(ScopeV { indent, bound: generic_base_typevars(t), is_class: true }),
                class_line_violations(st1, t, n, span),
            )
        } else if is_def_line(t) {
            (st1.push(ScopeV { indent, bound: refs_in(tvs, t), is_class: false }), Seq::empty())
        } else {
            (
                st1,
                nested_body_violations(st1, t, n, span) + unbound_violations(tvs, st1, t, n, span)
                    + alias_violations(st1, t, n, span) + module_level_violations(
                    tvs,
                    st1,
                    indent,
                    t,
                    n,
                    span,
                ),
            )
        }
    }
}

/// The scan over the first `k` lines.
pub open spec fn scope_scan(source: Seq<char>, tvs: Seq<Seq<char>>, k: int) -> (
    Seq<ScopeV>,
    Seq<ScopeViolationV>,
)
    decreases k,
{
    if k <= 0 {
        (Seq::empty(), Seq::empty())
    } else {
        let prev = scope_scan(source, tvs, k - 1);
        let step = scope_step(source, tvs, prev.0, lines(source)[k - 1], k as nat);
        (step.0, prev.1 + step.1)
    }
}

/// The scan slices `trimmed[open + 1..close]` on a class line inside a scope
/// that binds type variables; a last `)` before the first `(` would panic there.
pub open spec fn scope_step_panics(st: Seq<ScopeV>, line: Seq<char>) -> bool {
    let t = trim(line);
    &&& t.len() > 0
    &&& t[0] != '#'
    &&& starts_with(t, "class "@)
    &&& stack_bound(pop_scopes(st, indent_of(line))).len() > 0
    &&& find_char(t, '(') matches Some(a)
    &&& rfind_char(t, ')') matches Some(b)
    &&& b < a + 1
}

/// Inputs on which the scan does not panic.
pub open spec fn scope_scan_total(source: Seq<char>, tvs: Seq<Seq<char>>) -> bool {
    forall|k: int|
        0 <= k < lines(source).len() ==> !scope_step_panics(
            #[trigger] scope_scan(source, tvs, k).0,
            lines(source)[k],
        )
}

proof fn lemma_stack_bound_nonempty(st: Seq<ScopeV>)
    requires
        forall|i: int| 0 <= i < st.len() ==> all_nonempty((#[trigger] st[i]).bound),
    ensures
        all_nonempty(stack_bound(st)),
    decreases st.len(),
{
    if st.len() > 0 {
        lemma_stack_bound_nonempty(st.drop_last());
        assert(st.last() == st[st.len() - 1]);
        lemma_add_all_nonempty(stack_bound(st.drop_last()), st.last().bound);
    }
}

pub open spec fn stack_ok(st: Seq<ScopeV>) -> bool {
    forall|i: int| 0 <= i < st.len() ==> all_nonempty((#[trigger] st[i]).bound)
}

proof fn lemma_pop_scopes_ok(st: Seq<ScopeV>, indent: nat)
    requires
        stack_ok(st),
    ensures
        stack_ok(pop_scopes(st, indent)),
        pop_scopes(st, indent).len() <= st.len(),
        forall|i: int| 0 <= i < pop_scopes(st, indent).len() ==> pop_scopes(st, indent)[i] == st[i],
    decreases st.len(),
{
    if st.len() > 0 && indent <= st.last().indent {
        let d = st.drop_last();
        lemma_pop_scopes_ok(d, indent);
        assert forall|i: int| 0 <= i < d.len() implies d[i] == st[i] by {}
    }
}

proof fn lemma_class_scopes_ok(st: Seq<ScopeV>)
    requires
        stack_ok(st),
    ensures
        stack_ok(class_scopes(st)),
    decreases st.len(),
{
    if st.len() > 0 {
        lemma_class_scopes_ok(st.drop_last());
        assert(st.last() == st[st.len() - 1]);
    }
}

fn pop_scopes_exec(stack: &mut Vec<ScopeInfo>, indent: usize)
    ensures
        scopes_view(final(stack)@) == pop_scopes(scopes_view(old(stack)@), indent as nat),
{
    loop
        invariant
            pop_scopes(scopes_view(stack@), indent as nat) == pop_scopes(
                scopes_view(old(stack)@),
                indent as nat,
            ),
        decreases stack.len(),
    {
        if stack.len() > 0 && indent <= stack[stack.len() - 1].indent {
            let ghost before = scopes_view(stack@);
            stack.pop();
            proof {
                assert(scopes_view(stack@) =~= before.drop_last());
            }
        } else {
            proof {
                let sv = scopes_view(stack@);
                if sv.len() > 0 {
                    assert(sv.last() == scope_view(stack@[stack@.len() - 1]));
                }
            }
            return;
        }
    }
}

fn stack_bound_exec(stack: &Vec<ScopeInfo>) -> (r: Vec<Vec<char>>)
    ensures
        views(r@) == stack_bound(scopes_view(stack@)),
{
    let mut v: Vec<Vec<char>> = Vec::new();
    let mut i: usize = 0;
    proof {
        assert(views(v@) =~= Seq::<Seq<char>>::empty());
        assert(scopes_view(stack@).take(0) =~= Seq::<ScopeV>::empty());
    }
    while i < stack.len()
        invariant
            i <= stack@.len(),
            views(v@) == stack_bound(scopes_view(stack@).take(i as int)),
        decreases stack.len() - i,
    {
        proof {
            let t = scopes_view(stack@).take(i + 1);
            assert(t.drop_last() =~= scopes_view(stack@).take(i as int));
            assert(t.last() == scope_view(stack@[i as int]));
        }
        insert_all(&mut v, &stack[i].bound_typevars);
        i += 1;
    }
    proof {
        assert(scopes_view(stack@).take(i as int) =~= scopes_view(stack@));
    }
    v
}

/// The class scopes of the stack (by index), innermost last.
fn class_scope_indices(stack: &Vec<ScopeInfo>) -> (r: Vec<usize>)
    ensures
        r@.len() == class_scopes(scopes_view(stack@)).len(),
        forall|j: int|
            0 <= j < r@.len() ==> #[trigger] r@[j] < stack@.len() && scope_view(
                stack@[r@[j] as int],
            ) == class_scopes(scopes_view(stack@))[j],
{
    let mut v: Vec<usize> = Vec::new();
    let mut i: usize = 0;
    proof {
        assert(scopes_view(stack@).take(0) =~= Seq::<ScopeV>::empty());
    }
    while i < stack.len()
        invariant
            i <= stack@.len(),
            v@.len() == class_scopes(scopes_view(stack@).take(i as int)).len(),
            forall|j: int|
                0 <= j < v@.len() ==> #[trigger] v@[j] < i && scope_view(stack@[v@[j] as int])
                    == class_scopes(scopes_view(stack@).take(i as int))[j],
        decreases stack.len() - i,
    {
        proof {
            let t = scopes_view(stack@).take(i + 1);
            assert(t.drop_last() =~= scopes_view(stack@).take(i as int));
            assert(t.last() == scope_view(stack@[i as int]));
        }
        let ghost prev = class_scopes(scopes_view(stack@).take(i as int));
        let ghost vold = v@;
        if stack[i].is_class {
            v.push(i);
            proof {
                assert(class_scopes(scopes_view(stack@).take(i + 1)) == prev.push(
                    scope_view(stack@[i as int]),
                ));
                assert forall|j: int| 0 <= j < v@.len() implies #[trigger] v@[j] < i + 1 && scope_view(
                    stack@[v@[j] as int],
                ) == class_scopes(scopes_view(stack@).take(i + 1))[j] by {
                    if j < vold.len() {
                        assert(v@[j] == vold[j]);
                    }
                }
            }
        } else {
            proof {
                assert(class_scopes(scopes_view(stack@).take(i + 1)) == prev);
            }
        }
        i += 1;
    }
    proof {
        assert(scopes_view(stack@).take(i as int) =~= scopes_view(stack@));
    }
    v
}

fn report_exec(
    out: &mut Vec<ScopeViolation>,
    names: Vec<Vec<char>>,
    kind: ScopeViolationKind,
    n: usize,
    span: Span,
)
    ensures
        violations_view(final(out)@) == violations_view(old(out)@) + report(
            views(names@),
            kind,
            n as nat,
            (span.start as nat, span.end as nat),
        ),
{
    let ghost start = violations_view(out@);
    let ghost sp = (span.start as nat, span.end as nat);
    let mut i: usize = 0;
    while i < names.len()
        invariant
            i <= names@.len(),
            violations_view(out@) == start + report(views(names@).take(i as int), kind, n as nat, sp),
            sp == (span.start as nat, span.end as nat),
        decreases names.len() - i,
    {
        let ghost before = violations_view(out@);
        out.push(ScopeViolation { kind, typevar: names[i].clone(), line: n, span });
        proof {
            assert(violations_view(out@) =~= before.push(
                ScopeViolationV { kind, typevar: names@[i as int]@, line: n as nat, span: sp },
            ));
            assert(report(views(names@).take(i + 1), kind, n as nat, sp) =~= report(
                views(names@).take(i as int),
                kind,
                n as nat,
                sp,
            ).push(ScopeViolationV { kind, typevar: names@[i as int]@, line: n as nat, span: sp }));
        }
        i += 1;
    }
    proof {
        assert(views(names@).take(i as int) =~= views(names@));
    }
}

fn is_def_line_exec(t: &[char]) -> (r: bool)
    ensures
        r == is_def_line(t@),
{
    starts_with_lit(t, "def ") || starts_with_lit(t, "async def ")
}

/// The text after the first `c` (empty when there is none).
fn after_char_exec(s: &[char], c: char) -> (r: Vec<char>)
    ensures
        r@ == after_char(s@, c),
{
    match find_char_exec(s, c) {
        Some(i) => {
            proof {
                lemma_find_char(s@, c);
            }
            let n = s.len();
            slice_of(s, i + 1, n)
        },
        None => Vec::new(),
    }
}

/// One line of the scan.
fn scope_step_exec(
    source: &[char],
    tvs: &Vec<Vec<char>>,
    stack: &mut Vec<ScopeInfo>,
    out: &mut Vec<ScopeViolation>,
    line: &[char],
    n: usize,
) -> (panics: bool)
    requires
        utf8_len(source@) <= u32::MAX,
        utf8_len(line@) <= u32::MAX,
        all_nonempty(views(tvs@)),
        stack_ok(scopes_view(old(stack)@)),
    ensures
        panics == scope_step_panics(scopes_view(old(stack)@), line@),
        stack_ok(scopes_view(final(stack)@)),
        scopes_view(final(stack)@) == scope_step(
            source@,
            views(tvs@),
            scopes_view(old(stack)@),
            line@,
            n as nat,
        ).0,
        !panics ==> violations_view(final(out)@) == violations_view(old(out)@) + scope_step(
            source@,
            views(tvs@),
            scopes_view(old(stack)@),
            line@,
            n as nat,
        ).1,
{
    let ghost st0 = scopes_view(stack@);
    let ghost out0 = violations_view(out@);
    let t = trim_chars(line);
    if t.len() == 0 || t[0] == '#' {
        proof {
            assert(violations_view(out@) =~= out0 + Seq::<ScopeViolationV>::empty());
        }
        return false;
    }
    let indent = leading_indent(line);
    pop_scopes_exec(stack, indent);
    proof {
        lemma_pop_scopes_ok(st0, indent as nat);
    }
    let ghost st1 = scopes_view(stack@);
    let span = span_for_line(source, n);
    let ghost sp = (span.start as nat, span.end as nat);
    if starts_with_lit(t.as_slice(), "class ") {
        let bound = extract_typevars_from_generic_base(t.as_slice());
        let outer = stack_bound_exec(stack);
        proof {
            lemma_stack_bound_nonempty(st1);
        }
        if outer.len() > 0 {
            match (find_char_exec(t.as_slice(), '('), rfind_char_exec(t.as_slice(), ')')) {
                (Some(a), Some(b)) => {
                    proof {
                        lemma_find_char(t@, '(');
                        lemma_rfind_char(t@, ')');
                    }
                    if b < a + 1 {
                        let ghost before = scopes_view(stack@);
                        stack.push(ScopeInfo { indent, bound_typevars: bound, is_class: true });
                        proof {
                            assert(scopes_view(stack@) =~= before.push(
                                ScopeV {
                                    indent: indent as nat,
                                    bound: generic_base_typevars(t@),
                                    is_class: true,
                                },
                            ));
                        }
                        return true;
                    }
                    let bases = slice_of(t.as_slice(), a + 1, b);
                    let found = refs_in_names(&outer, bases.as_slice());
                    report_exec(
                        out,
                        found,
                        ScopeViolationKind::OuterTypeVarInNestedClassBases,
                        n,
                        span,
                    );
                },
                _ => {
                    proof {
                        assert(violations_view(out@) =~= out0 + Seq::<ScopeViolationV>::empty());
                    }
                },
            }
        } else {
            proof {
                assert(violations_view(out@) =~= out0 + Seq::<ScopeViolationV>::empty());
            }
        }
        let ghost before = scopes_view(stack@);
        stack.push(ScopeInfo { indent, bound_typevars: bound, is_class: true });
        proof {
            assert(scopes_view(stack@) =~= before.push(
                ScopeV { indent: indent as nat, bound: generic_base_typevars(t@), is_class: true },
            ));
        }
        return false;
    }
    if is_def_line_exec(t.as_slice()) {
        let bound = extract_typevars_from_function_sig(t.as_slice(), tvs);
        proof {
            lemma_refs_in_nonempty(views(tvs@), t@);
        }
        let ghost before = scopes_view(stack@);
        stack.push(ScopeInfo { indent, bound_typevars: bound, is_class: false });
        proof {
            assert(scopes_view(stack@) =~= before.push(
                ScopeV { indent: indent as nat, bound: refs_in(views(tvs@), t@), is_class: false },
            ));
            assert(violations_view(out@) =~= out0 + Seq::<ScopeViolationV>::empty());
        }
        return false;
    }
    let has_colon = contains_char_exec(t.as_slice(), ':');
    let stk: &Vec<ScopeInfo> = stack;
    // Nested class bodies.
    let cidx = class_scope_indices(stk);
    let ghost cs = class_scopes(st1);
    proof {
        lemma_class_scopes_ok(st1);
    }
    if cidx.len() >= 2 {
        let mut outer_classes: Vec<Vec<char>> = Vec::new();
        let mut k: usize = 0;
        proof {
            assert(views(outer_classes@) =~= Seq::<Seq<char>>::empty());
            assert(cs.drop_last().take(0) =~= Seq::<ScopeV>::empty());
        }
        while k < cidx.len() - 1
            invariant
                k <= cidx@.len() - 1,
                cidx@.len() == cs.len(),
                cs == class_scopes(scopes_view(stk@)),
                forall|j: int|
                    0 <= j < cidx@.len() ==> #[trigger] cidx@[j] < stk@.len() && scope_view(
                        stk@[cidx@[j] as int],
                    ) == cs[j],
                views(outer_classes@) == stack_bound(cs.drop_last().take(k as int)),
            decreases cidx.len() - 1 - k,
        {
            proof {
                let tk = cs.drop_last().take(k + 1);
                assert(tk.drop_last() =~= cs.drop_last().take(k as int));
                assert(tk.last() == cs[k as int]);
            }
            insert_all(&mut outer_classes, &stk[cidx[k]].bound_typevars);
            k += 1;
        }
        proof {
            assert(cs.drop_last().take(k as int) =~= cs.drop_last());
            lemma_stack_bound_nonempty(cs.drop_last());
        }
        let last = cidx[cidx.len() - 1];
        let forbidden = minus_names(&outer_classes, &stk[last].bound_typevars);
        if forbidden.len() > 0 && has_colon {
            proof {
                lemma_minus_nonempty(views(outer_classes@), views(stk@[last as int].bound_typevars@));
            }
            let ann = after_char_exec(t.as_slice(), ':');
            let found = refs_in_names(&forbidden, ann.as_slice());
            report_exec(out, found, ScopeViolationKind::OuterClassTypeVarInNestedClassBody, n, span);
        }
    }
    let ghost out_a = violations_view(out@);
    proof {
        assert(out_a == out0 + nested_body_violations(st1, t@, n as nat, sp)) by {
            if !(cs.len() >= 2) {
                assert(out_a =~= out0 + Seq::<ScopeViolationV>::empty());
            } else {
                let forbidden = minus(stack_bound(cs.drop_last()), cs.last().bound);
                if !(forbidden.len() > 0 && find_char(t@, ':') is Some) {
                    assert(out_a =~= out0 + Seq::<ScopeViolationV>::empty());
                }
            }
        }
    }
    // Unbound type variables inside a scope.
    if stk.len() > 0 && has_colon {
        let all_bound = stack_bound_exec(stk);
        let free = minus_names(tvs, &all_bound);
        proof {
            lemma_minus_nonempty(views(tvs@), views(all_bound@));
        }
        let ann = after_char_exec(t.as_slice(), ':');
        let code = before_char_exec(ann.as_slice(), '#');
        let found = refs_in_names(&free, code.as_slice());
        report_exec(out, found, ScopeViolationKind::UnboundInScope, n, span);
    } else {
        proof {
            assert(violations_view(out@) =~= out_a + Seq::<ScopeViolationV>::empty());
        }
    }
    let ghost out_b = violations_view(out@);
    // Type aliases in a class body.
    if cidx.len() == 1 && contains_lit(t.as_slice(), "TypeAlias") {
        let rhs = after_char_exec(t.as_slice(), '=');
        proof {
            assert(scope_view(stk@[cidx@[0] as int]) == cs[0]);
            assert(stack_ok(cs));
            assert(all_nonempty(cs[0].bound));
        }
        let found = refs_in_names(&stk[cidx[0]].bound_typevars, rhs.as_slice());
        report_exec(out, found, ScopeViolationKind::ClassTypeVarInTypeAlias, n, span);
    } else {
        proof {
            assert(violations_view(out@) =~= out_b + Seq::<ScopeViolationV>::empty());
        }
    }
    let ghost out_c = violations_view(out@);
    // Module level.
    let code = before_char_exec(t.as_slice(), '#');
    if indent == 0 && stk.len() == 0 && !(starts_with_lit(t.as_slice(), "class ")
        || starts_with_lit(t.as_slice(), "def ") || starts_with_lit(t.as_slice(), "import ")
        || starts_with_lit(t.as_slice(), "from ") || starts_with_lit(t.as_slice(), "@"))
        && !contains_lit(code.as_slice(), "TypeVar") {
        let found = refs_in_names(tvs, code.as_slice());
        report_exec(out, found, ScopeViolationKind::UnboundAtModuleLevel, n, span);
    } else {
        proof {
            assert(violations_view(out@) =~= out_c + Seq::<ScopeViolationV>::empty());
        }
    }
    proof {
        assert(violations_view(out@) =~= out0 + (nested_body_violations(st1, t@, n as nat, sp)
            + unbound_violations(views(tvs@), st1, t@, n as nat, sp) + alias_violations(
            st1,
            t@,
            n as nat,
            sp,
        ) + module_level_violations(views(tvs@), st1, indent as nat, t@, n as nat, sp)));
    }
    false
}

} // verus!

verus! {

proof fn lemma_scan_ok(source: Seq<char>, tvs: Seq<Seq<char>>, k: int)
    requires
        all_nonempty(tvs),
        0 <= k,
    ensures
        stack_ok(scope_scan(source, tvs, k).0),
    decreases k,
{
    if k > 0 {
        lemma_scan_ok(source, tvs, k - 1);
        let st = scope_scan(source, tvs, k - 1).0;
        let line = lines(source)[k - 1];
        let t = trim(line);
        if !(t.len() == 0 || t[0] == '#') {
            let st1 = pop_scopes(st, indent_of(line));
            lemma_pop_scopes_ok(st, indent_of(line));
            if starts_with(t, "class "@) {
                let new = ScopeV {
                    indent: indent_of(line),
                    bound: generic_base_typevars(t),
                    is_class: true,
                };
                match find_str(t, "Generic["@) {
                    None => {},
                    Some(s0) => {
                        let after = t.skip(s0 + "Generic["@.len());
                        match find_char(after, ']') {
                            None => {},
                            Some(e) => lemma_ident_params_nonempty(split_char(after.take(e), ',')),
                        }
                    },
                }
                assert(st1.push(new).last() == new);
            } else if is_def_line(t) {
                lemma_refs_in_nonempty(tvs, t);
            }
        }
    }
}

/// The violations of the line scan (the first part of the rule).
pub fn scope_violations(source: &[char], tvs: &Vec<Vec<char>>) -> (r: Vec<ScopeViolation>)
    requires
        utf8_len(source@) <= u32::MAX,
        all_nonempty(views(tvs@)),
        scope_scan_total(source@, views(tvs@)),
    ensures
        violations_view(r@) == scope_scan(source@, views(tvs@), lines(source@).len() as int).1,
{
    let ls = lines_exec(source);
    let mut stack: Vec<ScopeInfo> = Vec::new();
    let mut out: Vec<ScopeViolation> = Vec::new();
    let mut k: usize = 0;
    proof {
        crate::position::lemma_lines_utf8_len(source@);
        assert(scopes_view(stack@) =~= Seq::<ScopeV>::empty());
        assert(violations_view(out@) =~= Seq::<ScopeViolationV>::empty());
    }
    while k < ls.len()
        invariant
            k <= ls@.len(),
            views(ls@) == lines(source@),
            utf8_len(source@) <= u32::MAX,
            forall|j: int|
                0 <= j < lines(source@).len() ==> utf8_len(#[trigger] lines(source@)[j])
                    <= utf8_len(source@),
            all_nonempty(views(tvs@)),
            scope_scan_total(source@, views(tvs@)),
            (scopes_view(stack@), violations_view(out@)) == scope_scan(
                source@,
                views(tvs@),
                k as int,
            ),
        decreases ls.len() - k,
    {
        proof {
            lemma_scan_ok(source@, views(tvs@), k as int);
            assert(views(ls@)[k as int] == ls@[k as int]@);
            assert(lines(source@)[k as int] == ls@[k as int]@);
        }
        let _ = scope_step_exec(source, tvs, &mut stack, &mut out, ls[k].as_slice(), k + 1);
        k += 1;
    }
    out
}

} // verus!

verus! {

/// Whether the scan meets no class line whose slice would panic.
pub fn scope_scan_is_total(source: &[char], tvs: &Vec<Vec<char>>) -> (r: bool)
    requires
        utf8_len(source@) <= u32::MAX,
        all_nonempty(views(tvs@)),
    ensures
        r == scope_scan_total(source@, views(tvs@)),
{
    let ls = lines_exec(source);
    let mut stack: Vec<ScopeInfo> = Vec::new();
    let mut scratch: Vec<ScopeViolation> = Vec::new();
    let mut k: usize = 0;
    proof {
        crate::position::lemma_lines_utf8_len(source@);
        assert(scopes_view(stack@) =~= Seq::<ScopeV>::empty());
    }
    while k < ls.len()
        invariant
            k <= ls@.len(),
            views(ls@) == lines(source@),
            utf8_len(source@) <= u32::MAX,
            forall|j: int|
                0 <= j < lines(source@).len() ==> utf8_len(#[trigger] lines(source@)[j])
                    <= utf8_len(source@),
            all_nonempty(views(tvs@)),
            scopes_view(stack@) == scope_scan(source@, views(tvs@), k as int).0,
            forall|j: int|
                0 <= j < k ==> !scope_step_panics(
                    #[trigger] scope_scan(source@, views(tvs@), j).0,
                    lines(source@)[j],
                ),
        decreases ls.len() - k,
    {
        proof {
            lemma_scan_ok(source@, views(tvs@), k as int);
            assert(views(ls@)[k as int] == ls@[k as int]@);
            assert(lines(source@)[k as int] == ls@[k as int]@);
        }
        if scope_step_exec(source, tvs, &mut stack, &mut scratch, ls[k].as_slice(), k + 1) {
            return false;
        }
        k += 1;
    }
    true
}

/// The findings of the `TypeVar` scope rule: the line scan's violations,
/// then the method-call mismatches on generic instances.
pub struct TypeVarScopeReport {
    pub scope: Vec<ScopeViolation>,
    pub calls: Vec<crate::generic_calls::CallMismatch>,
}

/// The rule that reports `TypeVar` scoping violations.
pub struct TypeVarScopeViolation;

impl TypeVarScopeViolation {
    /// Checks a module given its source text and the names of the `TypeVar`s it
    /// defines. Nothing is reported when it defines none.
    pub fn check(&self, source: &[char], typevar_names: &Vec<Vec<char>>) -> (r: TypeVarScopeReport)
        requires
            utf8_len(source@) <= u32::MAX,
            all_nonempty(views(typevar_names@)),
            scope_scan_total(source@, uniq(views(typevar_names@))),
        ensures
            uniq(views(typevar_names@)).len() == 0 ==> r.scope@.len() == 0 && r.calls@.len() == 0,
            uniq(views(typevar_names@)).len() > 0 ==> violations_view(r.scope@) == scope_scan(
                source@,
                uniq(views(typevar_names@)),
                lines(source@).len() as int,
            ).1 && crate::generic_calls::mismatches_view(r.calls@)
                == crate::generic_calls::generic_call_mismatches(
                source@,
                uniq(views(typevar_names@)),
            ),
    {
        let tvs = uniq_names(typevar_names.as_slice());
        proof {
            lemma_add_all_nonempty(Seq::empty(), views(typevar_names@));
        }
        if tvs.len() == 0 {
            return TypeVarScopeReport { scope: Vec::new(), calls: Vec::new() };
        }
        let scope = scope_violations(source, &tvs);
        let calls = crate::generic_calls::check_generic_instance_method_calls(source, &tvs);
        TypeVarScopeReport { scope, calls }
    }

    /// Whether `check` may be called on these inputs: the line scan meets no
    /// class line whose slice would panic.
    pub fn can_check(&self, source: &[char], typevar_names: &Vec<Vec<char>>) -> (r: bool)
        requires
            utf8_len(source@) <= u32::MAX,
            all_nonempty(views(typevar_names@)),
        ensures
            r == scope_scan_total(source@, uniq(views(typevar_names@))),
    {
        let tvs = uniq_names(typevar_names.as_slice());
        proof {
            lemma_add_all_nonempty(Seq::empty(), views(typevar_names@));
        }
        scope_scan_is_total(source, &tvs)
    }

    /// `check` where the scan is total, `None` where it is not.
    pub fn check_if_total(&self, source: &[char], typevar_names: &Vec<Vec<char>>) -> (r: Option<
        TypeVarScopeReport,
    >)
        requires
            utf8_len(source@) <= u32::MAX,
            all_nonempty(views(typevar_names@)),
        ensures
            r is None <==> !scope_scan_total(source@, uniq(views(typevar_names@))),
            r matches Some(rep) ==> (uniq(views(typevar_names@)).len() == 0 ==> rep.scope@.len() == 0
                && rep.calls@.len() == 0) && (uniq(views(typevar_names@)).len() > 0
                ==> violations_view(rep.scope@) == scope_scan(
                source@,
                uniq(views(typevar_names@)),
                lines(source@).len() as int,
            ).1 && crate::generic_calls::mismatches_view(rep.calls@)
                == crate::generic_calls::generic_call_mismatches(
                source@,
                uniq(views(typevar_names@)),
            )),
    {
        if self.can_check(source, typevar_names) {
            Some(self.check(source, typevar_names))
        } else {
            None
        }
    }
}

} // verus!
